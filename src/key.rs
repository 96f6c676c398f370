use vstd::prelude::*;

use crate::classify::{
    bitrate_of, classify, codec_of, kind_of, quality_label_of, segment_index_of, ContentCategory,
    ContentClassification,
};
use crate::context::{built_from, opt_text, HttpContext};
use crate::headers::{
    is_recognized, keys_unique, lemma_header_text_insert, lemma_others_insert, lower_of, lowercase,
    table_get, table_map, HeaderField,
};
use crate::range::RangeSpec;
use crate::text::{
    chars_of, is_space, is_strippable, slices, split, split_at_char, strip_at, string_of, trim,
    unquote,
};

verus! {

/// The offset basis of 64-bit FNV-1a.
pub const FNV_OFFSET: u64 = 0xcbf29ce484222325;

/// The prime of 64-bit FNV-1a.
pub const FNV_PRIME: u64 = 0x100000001b3;

/// One step of FNV-1a: the code point folded in, then the product with the
/// prime, modulo 2^64.
pub open spec fn fnv_step(h: u64, c: char) -> u64 {
    (((h ^ (c as u32 as u64)) as int * FNV_PRIME as int) % 0x1_0000_0000_0000_0000) as u64
}

/// The 64-bit FNV-1a hash of the code points of `s`.
pub open spec fn fnv1a(s: Seq<char>) -> u64
    decreases s.len(),
{
    if s.len() == 0 {
        FNV_OFFSET
    } else {
        fnv_step(fnv1a(s.drop_last()), s.last())
    }
}

/// The hexadecimal digit of a number below 16.
pub open spec fn hex_digit(d: u64) -> char {
    if d < 8 {
        if d < 4 {
            if d == 0 { '0' } else if d == 1 { '1' } else if d == 2 { '2' } else { '3' }
        } else {
            if d == 4 { '4' } else if d == 5 { '5' } else if d == 6 { '6' } else { '7' }
        }
    } else if d < 12 {
        if d == 8 { '8' } else if d == 9 { '9' } else if d == 10 { 'a' } else { 'b' }
    } else {
        if d == 12 { 'c' } else if d == 13 { 'd' } else if d == 14 { 'e' } else { 'f' }
    }
}

/// The `n` lowest hexadecimal digits of `x`, the most significant first.
pub open spec fn hex_of(x: u64, n: nat) -> Seq<char>
    decreases n,
{
    if n == 0 {
        Seq::empty()
    } else {
        hex_of(x / 16, (n - 1) as nat).push(hex_digit(x % 16))
    }
}

/// A short hash of a text: the low 32 bits of its FNV-1a hash, in hexadecimal.
#[verifier::opaque]
pub open spec fn short_hash(s: Seq<char>) -> Seq<char> {
    hex_of(fnv1a(s), 8)
}

/// A segment `tag` followed by `v`, where `v` is there.
pub open spec fn segment(tag: Seq<char>, v: Option<Seq<char>>) -> Seq<char> {
    match v {
        Some(t) => tag + t,
        None => Seq::empty(),
    }
}

/// A segment `tag` followed by the short hash of `v`, where `v` is there.
pub open spec fn hashed(tag: Seq<char>, v: Option<Seq<char>>) -> Seq<char> {
    match v {
        Some(t) => tag + short_hash(t),
        None => Seq::empty(),
    }
}

/// A number in sixteen hexadecimal digits, where it is there.
pub open spec fn number_text(n: Option<u64>) -> Option<Seq<char>> {
    match n {
        Some(x) => Some(hex_of(x, 16)),
        None => None,
    }
}

/// The code of a category in the key.
pub open spec fn category_code(c: ContentCategory, init: bool) -> Seq<char> {
    if init {
        "init"@
    } else {
        match c {
            ContentCategory::Video => "vid"@,
            ContentCategory::Audio => "aud"@,
            ContentCategory::StreamingManifest => "str"@,
            ContentCategory::MediaSegment => "seg"@,
            ContentCategory::Image => "img"@,
            ContentCategory::Document => "doc"@,
            ContentCategory::Script => "js"@,
            ContentCategory::Stylesheet => "css"@,
            ContentCategory::Html => "html"@,
            ContentCategory::Data => "data"@,
            ContentCategory::Other => "gen"@,
        }
    }
}

/// A bound of a range: its number in hexadecimal, or nothing.
pub open spec fn bound_text(b: Option<u64>) -> Seq<char> {
    match b {
        Some(x) => hex_of(x, 16),
        None => Seq::empty(),
    }
}

/// The ranges in a normal form: `start:end,` for each, so that one set of
/// ranges, however it was written, gives one text.
pub open spec fn ranges_text(rs: Seq<RangeSpec>) -> Seq<char>
    decreases rs.len(),
{
    if rs.len() == 0 {
        Seq::empty()
    } else {
        ranges_text(rs.drop_last()) + bound_text(rs.last().start) + seq![':'] + bound_text(
            rs.last().end,
        ) + seq![',']
    }
}

/// The value of a header that the context keeps by name only.
pub open spec fn residual(c: HttpContext, n: Seq<char>) -> Option<Seq<char>> {
    if table_map(c.other_headers@).contains_key(n) {
        Some(table_map(c.other_headers@)[n])
    } else {
        None
    }
}

/// A raw range text without white space, `-` written as `:`.
pub open spec fn squeeze(s: Seq<char>) -> Seq<char>
    decreases s.len(),
{
    if s.len() == 0 {
        Seq::empty()
    } else {
        let prev = squeeze(s.drop_last());
        let c = s.last();
        if is_space(c) {
            prev
        } else if c == '-' {
            prev.push(':')
        } else {
            prev.push(c)
        }
    }
}

/// The normal form of the byte range a request names: its `Range` header as
/// its unit, `=` and its ranges; else its `Content-Range`, lower-cased and
/// squeezed.
pub open spec fn range_text(c: HttpContext) -> Option<Seq<char>> {
    match c.range {
        Some(h) => Some(h.unit@ + seq!['='] + ranges_text(h.ranges@)),
        None => match residual(c, "content-range"@) {
            Some(t) => Some(squeeze(lower_of(t))),
            None => None,
        },
    }
}

/// The entity tag a request carries, trimmed and without its quotes.
pub open spec fn etag_text(c: HttpContext) -> Option<Seq<char>> {
    match residual(c, "etag"@) {
        Some(t) => Some(unquote(trim(t))),
        None => None,
    }
}

/// The first comma-separated token of a header, trimmed.
pub open spec fn first_token(o: Option<Seq<char>>) -> Option<Seq<char>> {
    match o {
        Some(t) => Some(trim(split(t, ',')[0])),
        None => None,
    }
}

/// The path of a request target: what comes before its first `?`.
pub open spec fn path_of(uri: Seq<char>) -> Seq<char> {
    split(uri, '?')[0]
}

/// The query of a request target: what follows its first `?`, or nothing.
pub open spec fn query_of(uri: Seq<char>) -> Seq<char> {
    if split(uri, '?').len() > 1 {
        uri.subrange(path_of(uri).len() as int + 1, uri.len() as int)
    } else {
        Seq::empty()
    }
}

/// The raw query of a request target, where it has a `?`.
pub open spec fn query_text(uri: Seq<char>) -> Option<Seq<char>> {
    if split(uri, '?').len() > 1 {
        Some(query_of(uri))
    } else {
        None
    }
}

/// What a key holds of the content: its category, and for media its quality
/// label, bitrate and codec, and for streams its segment index and whether it
/// is an init segment.
pub open spec fn content_part(
    cat: ContentCategory,
    streaming: bool,
    init: bool,
    label: Option<Seq<char>>,
    bitrate: Option<u64>,
    codec: Option<Seq<char>>,
    index: Option<u64>,
) -> Seq<char> {
    let media = cat == ContentCategory::Video || cat == ContentCategory::Audio;
    "|cat="@ + category_code(cat, init) + (if media {
        segment("|res="@, label) + segment("|br="@, number_text(bitrate)) + segment(
            "|codec="@,
            codec,
        )
    } else {
        Seq::empty()
    }) + (if streaming {
        segment("|idx="@, number_text(index)) + (if init {
            "|init"@
        } else {
            Seq::empty()
        })
    } else {
        Seq::empty()
    })
}

/// The playlist that a streaming request belongs to: the directory of its
/// path, up to and with its last `/`.
pub open spec fn playlist_of(uri: Seq<char>) -> Seq<char> {
    let p = path_of(uri);
    p.subrange(0, p.len() - split(p, '/').last().len())
}

/// What a key holds of the playlist of a stream: a short hash of it.
pub open spec fn playlist_part(streaming: bool, uri: Seq<char>) -> Seq<char> {
    if streaming {
        hashed("|pl="@, Some(playlist_of(uri)))
    } else {
        Seq::empty()
    }
}

/// What a key holds of the representation a request names: its byte range,
/// content type and entity tag, each as a short hash.
pub open spec fn representation_part(c: HttpContext) -> Seq<char> {
    hashed("|rng="@, range_text(c)) + hashed("|ct="@, opt_text(c.content_type)) + hashed(
        "|et="@,
        etag_text(c),
    )
}

/// What a key holds of the request's negotiation: its first `Accept` and
/// `Accept-Language` tokens, its user agent and its `Last-Modified`, each as a
/// short hash.
pub open spec fn negotiation_part(c: HttpContext) -> Seq<char> {
    hashed("|acc="@, first_token(opt_text(c.accept))) + hashed(
        "|lang="@,
        first_token(opt_text(c.accept_language)),
    ) + hashed("|ua="@, opt_text(c.user_agent)) + hashed(
        "|lm="@,
        residual(c, "last-modified"@),
    )
}

/// What a key holds of the request's headers.
pub open spec fn header_part(c: HttpContext) -> Seq<char> {
    representation_part(c) + negotiation_part(c)
}

/// The identity of a request: the full hash of its method and target.
pub open spec fn identity_part(method: Seq<char>, uri: Seq<char>) -> Seq<char> {
    "id="@ + hex_of(fnv1a(method + seq![' '] + uri), 16)
}

/// The key of a request, given what its classification says.
pub open spec fn key_text(
    method: Seq<char>,
    uri: Seq<char>,
    cls: ContentClassification,
    c: HttpContext,
) -> Seq<char> {
    identity_part(method, uri) + content_part(
        cls.category,
        cls.is_streaming,
        cls.is_init_segment,
        opt_text(cls.quality.label),
        cls.quality.bitrate,
        opt_text(cls.codec),
        cls.segment_index,
    ) + playlist_part(cls.is_streaming, uri) + header_part(c) + hashed("|qs="@, query_text(uri)) + hashed(
        "|auth="@,
        opt_text(c.authorization),
    )
}

/// The cache key of a request with method `method` and target `uri`.
pub open spec fn key_of(method: Seq<char>, uri: Seq<char>, c: HttpContext) -> Seq<char> {
    let lp = lower_of(path_of(uri));
    let q = query_of(uri);
    let k = kind_of(lp, q);
    identity_part(method, uri) + content_part(
        k.0,
        k.1,
        k.2,
        quality_label_of(lp, q),
        bitrate_of(q),
        codec_of(k.0, lp, q),
        segment_index_of(k.1, lp, q),
    ) + playlist_part(k.1, uri) + header_part(c) + hashed("|qs="@, query_text(uri)) + hashed(
        "|auth="@,
        opt_text(c.authorization),
    )
}

proof fn lemma_hex_len(x: u64, n: nat)
    ensures
        hex_of(x, n).len() == n,
    decreases n,
{
    if n > 0 {
        lemma_hex_len(x / 16, (n - 1) as nat);
    }
}

/// A header that the context does not recognize, such as `X-Debug-Id`,
/// changes no key, unless it is one of the three that a key reads by name
/// (`ETag`, `Last-Modified`, `Content-Range`): the contexts built from a list
/// of headers with and without it give one key.
pub proof fn lemma_unrecognized_header_keeps_key(
    method: Seq<char>,
    uri: Seq<char>,
    headers: Seq<HeaderField>,
    i: int,
    extra: HeaderField,
    client_addr: String,
    a: HttpContext,
    b: HttpContext,
)
    requires
        0 <= i <= headers.len(),
        !is_recognized(lower_of(extra.name@)),
        lower_of(extra.name@) != "etag"@,
        lower_of(extra.name@) != "last-modified"@,
        lower_of(extra.name@) != "content-range"@,
        built_from(a, headers, client_addr),
        built_from(b, headers.insert(i, extra), client_addr),
    ensures
        key_of(method, uri, a) == key_of(method, uri, b),
{
    lemma_header_text_insert(headers, i, extra, "range"@);
    lemma_header_text_insert(headers, i, extra, "content-type"@);
    lemma_header_text_insert(headers, i, extra, "accept"@);
    lemma_header_text_insert(headers, i, extra, "accept-language"@);
    lemma_header_text_insert(headers, i, extra, "user-agent"@);
    lemma_header_text_insert(headers, i, extra, "authorization"@);
    lemma_others_insert(headers, i, extra, "etag"@);
    lemma_others_insert(headers, i, extra, "last-modified"@);
    lemma_others_insert(headers, i, extra, "content-range"@);
    assert(residual(a, "etag"@) == residual(b, "etag"@));
    assert(residual(a, "last-modified"@) == residual(b, "last-modified"@));
    assert(residual(a, "content-range"@) == residual(b, "content-range"@));
    assert(range_text(a) == range_text(b));
    assert(representation_part(a) == representation_part(b));
    assert(negotiation_part(a) == negotiation_part(b));
}

/// Two requests that differ only in whether they carry credentials never
/// share a key.
pub proof fn lemma_authorization_splits_keys(
    method: Seq<char>,
    uri: Seq<char>,
    a: HttpContext,
    b: HttpContext,
)
    requires
        a.authorization is Some,
        b == (HttpContext { authorization: None, ..a }),
    ensures
        key_of(method, uri, a) != key_of(method, uri, b),
{
    lemma_hex_len(fnv1a(a.authorization->0@), 8);
    reveal(short_hash);
    assert(representation_part(a) == representation_part(b));
    assert(negotiation_part(a) == negotiation_part(b));
    assert(key_of(method, uri, a).len() > key_of(method, uri, b).len());
}

/// A key is a function of the method, the target and the context alone:
/// deriving it twice gives one string.
pub proof fn lemma_key_deterministic(
    method: Seq<char>,
    uri: Seq<char>,
    c: HttpContext,
    first: Seq<char>,
    second: Seq<char>,
)
    requires
        first == key_of(method, uri, c),
        second == key_of(method, uri, c),
    ensures
        first == second,
{
}

/// The FNV-1a hash of `v`.
pub fn fnv1a_hash(v: &Vec<char>) -> (r: u64)
    ensures
        r == fnv1a(v@),
{
    let mut h: u64 = FNV_OFFSET;
    let mut i: usize = 0;
    assert(v@.take(0) =~= Seq::<char>::empty());
    while i < v.len()
        invariant
            i <= v.len(),
            h == fnv1a(v@.take(i as int)),
        decreases v.len() - i,
    {
        assert(v@.take(i + 1).drop_last() =~= v@.take(i as int));
        h = (h ^ (v[i] as u32 as u64)).wrapping_mul(FNV_PRIME);
        i = i + 1;
    }
    assert(v@.take(i as int) =~= v@);
    h
}

fn hex_char(d: u64) -> (c: char)
    requires
        d < 16,
    ensures
        c == hex_digit(d),
{
    if d < 8 {
        if d < 4 {
            if d == 0 { '0' } else if d == 1 { '1' } else if d == 2 { '2' } else { '3' }
        } else {
            if d == 4 { '4' } else if d == 5 { '5' } else if d == 6 { '6' } else { '7' }
        }
    } else if d < 12 {
        if d == 8 { '8' } else if d == 9 { '9' } else if d == 10 { 'a' } else { 'b' }
    } else {
        if d == 12 { 'c' } else if d == 13 { 'd' } else if d == 14 { 'e' } else { 'f' }
    }
}

/// Appends the `n` lowest hexadecimal digits of `x`.
pub fn push_hex(out: &mut Vec<char>, x: u64, n: usize)
    ensures
        final(out)@ == old(out)@ + hex_of(x, n as nat),
    decreases n,
{
    if n == 0 {
        assert(old(out)@ + hex_of(x, 0) =~= old(out)@);
        return;
    }
    push_hex(out, x / 16, n - 1);
    out.push(hex_char(x % 16));
    assert(hex_of(x, n as nat) == hex_of(x / 16, (n - 1) as nat).push(hex_digit(x % 16)));
    assert(final(out)@ =~= old(out)@ + hex_of(x, n as nat));
}

/// Appends the characters of `s`.
pub fn push_text(out: &mut Vec<char>, s: &str)
    ensures
        final(out)@ == old(out)@ + s@,
{
    let v = chars_of(s);
    push_chars(out, &v, 0, v.len());
    assert(v@.subrange(0, v@.len() as int) =~= v@);
}

/// Appends the characters `v[lo..hi]`.
pub fn push_chars(out: &mut Vec<char>, v: &Vec<char>, lo: usize, hi: usize)
    requires
        lo <= hi <= v.len(),
    ensures
        final(out)@ == old(out)@ + v@.subrange(lo as int, hi as int),
{
    let mut i = lo;
    while i < hi
        invariant
            lo <= i <= hi <= v.len(),
            out@ == old(out)@ + v@.subrange(lo as int, i as int),
        decreases hi - i,
    {
        out.push(v[i]);
        assert(v@.subrange(lo as int, i + 1) =~= v@.subrange(lo as int, i as int).push(v@[i as int]));
        i = i + 1;
    }
}

fn push_hashed(out: &mut Vec<char>, tag: &str, v: Option<&Vec<char>>)
    ensures
        final(out)@ == old(out)@ + hashed(
            tag@,
            match v {
                Some(t) => Some(t@),
                None => None,
            },
        ),
{
    match v {
        Some(t) => {
            push_text(out, tag);
            push_hex(out, fnv1a_hash(t), 8);
            reveal(short_hash);
            assert(out@ =~= old(out)@ + (tag@ + short_hash(t@)));
        },
        None => {
            assert(out@ =~= old(out)@ + Seq::<char>::empty());
        },
    }
}

fn push_number(out: &mut Vec<char>, tag: &str, n: Option<u64>)
    ensures
        final(out)@ == old(out)@ + segment(tag@, number_text(n)),
{
    match n {
        Some(x) => {
            push_text(out, tag);
            push_hex(out, x, 16);
            assert(out@ =~= old(out)@ + (tag@ + hex_of(x, 16)));
        },
        None => {
            assert(out@ =~= old(out)@ + Seq::<char>::empty());
        },
    }
}

fn push_segment(out: &mut Vec<char>, tag: &str, v: &Option<String>)
    ensures
        final(out)@ == old(out)@ + segment(tag@, opt_text(*v)),
{
    match v {
        Some(t) => {
            push_text(out, tag);
            push_text(out, t.as_str());
            assert(out@ =~= old(out)@ + (tag@ + t@));
        },
        None => {
            assert(out@ =~= old(out)@ + Seq::<char>::empty());
        },
    }
}

fn category_text(c: ContentCategory, init: bool) -> (r: &'static str)
    ensures
        r@ == category_code(c, init),
{
    if init {
        "init"
    } else {
        match c {
            ContentCategory::Video => "vid",
            ContentCategory::Audio => "aud",
            ContentCategory::StreamingManifest => "str",
            ContentCategory::MediaSegment => "seg",
            ContentCategory::Image => "img",
            ContentCategory::Document => "doc",
            ContentCategory::Script => "js",
            ContentCategory::Stylesheet => "css",
            ContentCategory::Html => "html",
            ContentCategory::Data => "data",
            ContentCategory::Other => "gen",
        }
    }
}

fn range_chars(c: &HttpContext) -> (r: Option<Vec<char>>)
    requires
        keys_unique(c.other_headers@),
    ensures
        match r {
            Some(t) => range_text(*c) == Some(t@),
            None => range_text(*c) is None,
        },
{
    match &c.range {
        Some(h) => {
            let mut out: Vec<char> = Vec::new();
            push_text(&mut out, h.unit.as_str());
            out.push('=');
            let ghost head = out@;
            assert(head =~= h.unit@ + seq!['=']);
            let mut i: usize = 0;
            assert(h.ranges@.take(0) =~= Seq::<RangeSpec>::empty());
            while i < h.ranges.len()
                invariant
                    i <= h.ranges.len(),
                    out@ == head + ranges_text(h.ranges@.take(i as int)),
                decreases h.ranges.len() - i,
            {
                let r = h.ranges[i];
                assert(h.ranges@.take(i + 1).drop_last() =~= h.ranges@.take(i as int));
                let ghost before = out@;
                match r.start {
                    Some(x) => push_hex(&mut out, x, 16),
                    None => {},
                }
                out.push(':');
                match r.end {
                    Some(x) => push_hex(&mut out, x, 16),
                    None => {},
                }
                out.push(',');
                assert(out@ =~= before + bound_text(r.start) + seq![':'] + bound_text(r.end)
                    + seq![',']);
                assert(out@ =~= head + ranges_text(h.ranges@.take(i + 1)));
                i = i + 1;
            }
            assert(h.ranges@.take(i as int) =~= h.ranges@);
            Some(out)
        },
        None => match table_get(&c.other_headers, "content-range") {
            Some(t) => {
                let lowered = lowercase(t.as_str());
                Some(squeezed(lowered.as_str()))
            },
            None => None,
        },
    }
}

fn squeezed(s: &str) -> (r: Vec<char>)
    ensures
        r@ == squeeze(s@),
{
    let v = chars_of(s);
    let mut out: Vec<char> = Vec::new();
    let mut i: usize = 0;
    assert(v@.take(0) =~= Seq::<char>::empty());
    while i < v.len()
        invariant
            i <= v.len(),
            out@ == squeeze(v@.take(i as int)),
        decreases v.len() - i,
    {
        assert(v@.take(i + 1).drop_last() =~= v@.take(i as int));
        let c = v[i];
        if is_strippable(c, false) {
        } else if c == '-' {
            out.push(':');
        } else {
            out.push(c);
        }
        i = i + 1;
    }
    assert(v@.take(i as int) =~= v@);
    out
}

fn etag_chars(c: &HttpContext) -> (r: Option<Vec<char>>)
    requires
        keys_unique(c.other_headers@),
    ensures
        match r {
            Some(t) => etag_text(*c) == Some(t@),
            None => etag_text(*c) is None,
        },
{
    match table_get(&c.other_headers, "etag") {
        Some(t) => {
            let v = chars_of(t.as_str());
            assert(v@.subrange(0, v@.len() as int) =~= v@);
            let (a, b) = strip_at(&v, 0, v.len(), false);
            let (x, y) = strip_at(&v, a, b, true);
            let mut out: Vec<char> = Vec::new();
            push_chars(&mut out, &v, x, y);
            assert(out@ =~= v@.subrange(x as int, y as int));
            Some(out)
        },
        None => None,
    }
}

fn residual_chars(c: &HttpContext, name: &str) -> (r: Option<Vec<char>>)
    requires
        keys_unique(c.other_headers@),
    ensures
        match r {
            Some(t) => residual(*c, name@) == Some(t@),
            None => residual(*c, name@) is None,
        },
{
    match table_get(&c.other_headers, name) {
        Some(t) => Some(chars_of(t.as_str())),
        None => None,
    }
}

fn first_token_chars(o: &Option<String>) -> (r: Option<Vec<char>>)
    ensures
        match r {
            Some(t) => first_token(opt_text(*o)) == Some(t@),
            None => first_token(opt_text(*o)) is None,
        },
{
    match o {
        Some(s) => {
            let v = chars_of(s.as_str());
            assert(v@.subrange(0, v@.len() as int) =~= v@);
            let pieces = split_at_char(&v, 0, v.len(), ',');
            assert(slices(v@, pieces@)[0] == v@.subrange(pieces[0].0 as int, pieces[0].1 as int));
            let (a, b) = strip_at(&v, pieces[0].0, pieces[0].1, false);
            let mut out: Vec<char> = Vec::new();
            push_chars(&mut out, &v, a, b);
            assert(out@ =~= v@.subrange(a as int, b as int));
            Some(out)
        },
        None => None,
    }
}

fn text_chars(o: &Option<String>) -> (r: Option<Vec<char>>)
    ensures
        match r {
            Some(t) => opt_text(*o) == Some(t@),
            None => opt_text(*o) is None,
        },
{
    match o {
        Some(s) => Some(chars_of(s.as_str())),
        None => None,
    }
}

fn push_content(out: &mut Vec<char>, cls: &ContentClassification)
    ensures
        final(out)@ == old(out)@ + content_part(
            cls.category,
            cls.is_streaming,
            cls.is_init_segment,
            opt_text(cls.quality.label),
            cls.quality.bitrate,
            opt_text(cls.codec),
            cls.segment_index,
        ),
{
    push_text(out, "|cat=");
    push_text(out, category_text(cls.category, cls.is_init_segment));
    let ghost m0 = out@;
    if cls.category == ContentCategory::Video || cls.category == ContentCategory::Audio {
        push_segment(out, "|res=", &cls.quality.label);
        push_number(out, "|br=", cls.quality.bitrate);
        push_segment(out, "|codec=", &cls.codec);
    }
    let ghost m1 = out@;
    assert(m1 =~= m0 + (if cls.category == ContentCategory::Video || cls.category
        == ContentCategory::Audio {
        segment("|res="@, opt_text(cls.quality.label)) + segment(
            "|br="@,
            number_text(cls.quality.bitrate),
        ) + segment("|codec="@, opt_text(cls.codec))
    } else {
        Seq::empty()
    }));
    if cls.is_streaming {
        push_number(out, "|idx=", cls.segment_index);
        if cls.is_init_segment {
            push_text(out, "|init");
        }
    }
    assert(out@ =~= m1 + (if cls.is_streaming {
        segment("|idx="@, number_text(cls.segment_index)) + (if cls.is_init_segment {
            "|init"@
        } else {
            Seq::empty()
        })
    } else {
        Seq::empty()
    }));
}

fn push_representation(out: &mut Vec<char>, ctx: &HttpContext)
    requires
        keys_unique(ctx.other_headers@),
    ensures
        final(out)@ == old(out)@ + representation_part(*ctx),
{
    let ghost h1 = hashed("|rng="@, range_text(*ctx));
    let ghost h2 = hashed("|ct="@, opt_text(ctx.content_type));
    let ghost h3 = hashed("|et="@, etag_text(*ctx));
    let rng = range_chars(ctx);
    push_hashed(out, "|rng=", rng.as_ref());
    let ghost s1 = out@;
    let ct = text_chars(&ctx.content_type);
    push_hashed(out, "|ct=", ct.as_ref());
    let ghost s2 = out@;
    let et = etag_chars(ctx);
    push_hashed(out, "|et=", et.as_ref());
    assert(s1 == old(out)@ + h1);
    assert(s2 == s1 + h2);
    assert(out@ == s2 + h3);
    assert(out@ =~= old(out)@ + (h1 + h2 + h3));
}

fn push_negotiation(out: &mut Vec<char>, ctx: &HttpContext)
    requires
        keys_unique(ctx.other_headers@),
    ensures
        final(out)@ == old(out)@ + negotiation_part(*ctx),
{
    let ghost h1 = hashed("|acc="@, first_token(opt_text(ctx.accept)));
    let ghost h2 = hashed("|lang="@, first_token(opt_text(ctx.accept_language)));
    let ghost h3 = hashed("|ua="@, opt_text(ctx.user_agent));
    let ghost h4 = hashed("|lm="@, residual(*ctx, "last-modified"@));
    let acc = first_token_chars(&ctx.accept);
    push_hashed(out, "|acc=", acc.as_ref());
    let ghost s1 = out@;
    let lang = first_token_chars(&ctx.accept_language);
    push_hashed(out, "|lang=", lang.as_ref());
    let ghost s2 = out@;
    let ua = text_chars(&ctx.user_agent);
    push_hashed(out, "|ua=", ua.as_ref());
    let ghost s3 = out@;
    let lm = residual_chars(ctx, "last-modified");
    push_hashed(out, "|lm=", lm.as_ref());
    assert(s1 == old(out)@ + h1);
    assert(s2 == s1 + h2);
    assert(s3 == s2 + h3);
    assert(out@ == s3 + h4);
    assert(out@ =~= old(out)@ + (h1 + h2 + h3 + h4));
}

/// The cache key of a request, given its classification.
pub fn key_from_parts(method: &str, uri: &str, cls: &ContentClassification, ctx: &HttpContext) -> (r:
    String)
    requires
        keys_unique(ctx.other_headers@),
    ensures
        r@ == key_text(method@, uri@, *cls, *ctx),
{
    let mut id: Vec<char> = Vec::new();
    push_text(&mut id, method);
    id.push(' ');
    push_text(&mut id, uri);
    assert(id@ =~= method@ + seq![' '] + uri@);
    let mut out: Vec<char> = Vec::new();
    push_text(&mut out, "id=");
    push_hex(&mut out, fnv1a_hash(&id), 16);
    assert(out@ =~= identity_part(method@, uri@));
    push_content(&mut out, cls);
    let ghost before_playlist = out@;
    if cls.is_streaming {
        let pl = playlist_chars(uri);
        push_hashed(&mut out, "|pl=", Some(&pl));
    }
    assert(out@ =~= before_playlist + playlist_part(cls.is_streaming, uri@));
    push_representation(&mut out, ctx);
    push_negotiation(&mut out, ctx);
    let qs = query_chars(uri);
    push_hashed(&mut out, "|qs=", qs.as_ref());
    let auth = text_chars(&ctx.authorization);
    push_hashed(&mut out, "|auth=", auth.as_ref());
    assert(out@ =~= key_text(method@, uri@, *cls, *ctx));
    assert(out@.subrange(0, out@.len() as int) =~= out@);
    string_of(&out, 0, out.len())
}

fn playlist_chars(uri: &str) -> (r: Vec<char>)
    ensures
        r@ == playlist_of(uri@),
{
    let v = chars_of(uri);
    assert(v@.subrange(0, v@.len() as int) =~= v@);
    let parts = split_at_char(&v, 0, v.len(), '?');
    let end = parts[0].1;
    assert(slices(v@, parts@)[0] == v@.subrange(0, end as int));
    let segs = split_at_char(&v, 0, end, '/');
    let last = segs[segs.len() - 1];
    assert(slices(v@, segs@).last() == v@.subrange(last.0 as int, end as int));
    let mut out: Vec<char> = Vec::new();
    push_chars(&mut out, &v, 0, last.0);
    assert(out@ =~= v@.subrange(0, end as int).subrange(0, last.0 as int));
    out
}

fn query_chars(uri: &str) -> (r: Option<Vec<char>>)
    ensures
        match r {
            Some(t) => query_text(uri@) == Some(t@),
            None => query_text(uri@) is None,
        },
{
    let v = chars_of(uri);
    assert(v@.subrange(0, v@.len() as int) =~= v@);
    let parts = split_at_char(&v, 0, v.len(), '?');
    if parts.len() > 1 {
        assert(slices(v@, parts@)[0] == v@.subrange(0, parts[0].1 as int));
        let mut out: Vec<char> = Vec::new();
        push_chars(&mut out, &v, parts[0].1 + 1, v.len());
        assert(out@ =~= query_of(uri@));
        Some(out)
    } else {
        None
    }
}

/// The path and the query of a request target.
pub fn split_target(uri: &str) -> (r: (String, String))
    ensures
        r.0@ == path_of(uri@),
        r.1@ == query_of(uri@),
{
    let v = chars_of(uri);
    assert(v@.subrange(0, v@.len() as int) =~= v@);
    let parts = split_at_char(&v, 0, v.len(), '?');
    assert(slices(v@, parts@)[0] == v@.subrange(0, parts[0].1 as int));
    let path = string_of(&v, 0, parts[0].1);
    if parts.len() > 1 {
        assert(v@.subrange(parts[0].1 + 1, v@.len() as int) =~= query_of(uri@));
        (path, string_of(&v, parts[0].1 + 1, v.len()))
    } else {
        (path, String::new())
    }
}

/// The cache key of a request with method `method` and target `uri`.
pub fn derive_key(method: &str, uri: &str, ctx: &HttpContext) -> (r: String)
    requires
        keys_unique(ctx.other_headers@),
    ensures
        r@ == key_of(method@, uri@, *ctx),
{
    let (path, query) = split_target(uri);
    let cls = classify(path.as_str(), query.as_str());
    key_from_parts(method, uri, &cls, ctx)
}

} // verus!
