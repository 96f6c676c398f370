use vstd::prelude::*;

use crate::context::opt_text;
use crate::headers::{lower_of, lowercase, same_text};
use crate::query::{param_of, Query};
use crate::text::{
    chars_of, contains_text, has_sub, is_digit, parse_u64_at, parse_u64_spec, slices, split,
    split_at_char, string_of,
};

verus! {

/// The kinds of content that a request can ask for.
#[derive(Debug, Clone, Copy, PartialEq, Eq, Structural)]
pub enum ContentCategory {
    Video,
    Audio,
    StreamingManifest,
    MediaSegment,
    Image,
    Document,
    Script,
    Stylesheet,
    Html,
    Data,
    Other,
}

/// The quality that a media request asks for.
#[derive(Debug, Clone, PartialEq)]
pub struct QualityInfo {
    pub width: Option<u32>,
    pub height: Option<u32>,
    pub label: Option<String>,
    pub bitrate: Option<u64>,
}

/// What a request path and query say of the content asked for.
#[derive(Debug, Clone, PartialEq)]
pub struct ContentClassification {
    pub category: ContentCategory,
    pub extension: Option<String>,
    pub is_streaming: bool,
    pub is_init_segment: bool,
    pub codec: Option<String>,
    pub segment_index: Option<u64>,
    pub quality: QualityInfo,
}

/// The file extension of a path: what follows its last `.`, where there is
/// one, and where that is neither empty nor holds a `/`.
pub open spec fn extension_of(lp: Seq<char>) -> Option<Seq<char>> {
    let parts = split(lp, '.');
    let e = parts.last();
    if parts.len() < 2 || e.len() == 0 || e.contains('/') {
        None
    } else {
        Some(e)
    }
}

/// The category of the known file extensions.
pub open spec fn extension_category(e: Seq<char>) -> Option<ContentCategory> {
    if e == "mp4"@ || e == "m4v"@ || e == "mkv"@ || e == "webm"@ || e == "mov"@ || e == "avi"@
        || e == "flv"@ {
        Some(ContentCategory::Video)
    } else if e == "mp3"@ || e == "aac"@ || e == "m4a"@ || e == "ogg"@ || e == "flac"@ || e
        == "wav"@ || e == "opus"@ {
        Some(ContentCategory::Audio)
    } else if e == "m3u8"@ || e == "mpd"@ {
        Some(ContentCategory::StreamingManifest)
    } else if e == "ts"@ || e == "m4s"@ || e == "chk"@ {
        Some(ContentCategory::MediaSegment)
    } else if e == "jpg"@ || e == "jpeg"@ || e == "png"@ || e == "gif"@ || e == "webp"@ || e
        == "svg"@ || e == "ico"@ {
        Some(ContentCategory::Image)
    } else if e == "pdf"@ || e == "doc"@ || e == "docx"@ {
        Some(ContentCategory::Document)
    } else if e == "css"@ {
        Some(ContentCategory::Stylesheet)
    } else if e == "js"@ {
        Some(ContentCategory::Script)
    } else if e == "html"@ || e == "htm"@ {
        Some(ContentCategory::Html)
    } else if e == "json"@ || e == "xml"@ || e == "txt"@ {
        Some(ContentCategory::Data)
    } else {
        None
    }
}

/// Whether content of a category is delivered as a stream.
pub open spec fn is_streaming_category(c: ContentCategory) -> bool {
    c == ContentCategory::StreamingManifest || c == ContentCategory::MediaSegment
}

/// Category, streaming and init-segment flags that a lower-cased path and
/// the query give where the extension decides nothing.
pub open spec fn path_kind(lp: Seq<char>, q: Seq<char>) -> (ContentCategory, bool, bool) {
    if has_sub(lp, "/video/"@) || has_sub(lp, "/media/"@) || has_sub(lp, "/movie/"@) {
        (ContentCategory::Video, false, false)
    } else if has_sub(lp, "/audio/"@) || has_sub(lp, "/music/"@) {
        (ContentCategory::Audio, false, false)
    } else if has_sub(lp, "/stream/"@) || has_sub(lp, "/hls/"@) || has_sub(lp, "/dash/"@) {
        (ContentCategory::StreamingManifest, true, false)
    } else if has_sub(lp, "/segment"@) || has_sub(lp, "/chunk"@) || has_sub(lp, "/fragment"@) {
        (ContentCategory::MediaSegment, true, false)
    } else if has_sub(lp, "/init"@) || param_of(q, "init"@) == Some("1"@) {
        (ContentCategory::MediaSegment, true, true)
    } else if has_sub(lp, "/image/"@) || has_sub(lp, "/img/"@) {
        (ContentCategory::Image, false, false)
    } else {
        (ContentCategory::Other, false, false)
    }
}

/// Category, streaming and init-segment flags: the extension table first, the
/// path patterns second.
pub open spec fn kind_of(lp: Seq<char>, q: Seq<char>) -> (ContentCategory, bool, bool) {
    match extension_of(lp) {
        Some(e) => match extension_category(e) {
            Some(c) => (c, is_streaming_category(c), false),
            None => path_kind(lp, q),
        },
        None => path_kind(lp, q),
    }
}

/// The codec that a known token in the lower-cased path names.
pub open spec fn codec_in_path(lp: Seq<char>) -> Option<Seq<char>> {
    if has_sub(lp, "h264"@) || has_sub(lp, "avc"@) {
        Some("h264"@)
    } else if has_sub(lp, "h265"@) || has_sub(lp, "hevc"@) {
        Some("h265"@)
    } else if has_sub(lp, "vp9"@) {
        Some("vp9"@)
    } else if has_sub(lp, "av1"@) {
        Some("av1"@)
    } else if has_sub(lp, "aac"@) {
        Some("aac"@)
    } else if has_sub(lp, "mp3"@) {
        Some("mp3"@)
    } else {
        None
    }
}

/// The codec of video or audio content: the `codec` or `c` parameter, else a
/// token in the path.
pub open spec fn codec_of(c: ContentCategory, lp: Seq<char>, q: Seq<char>) -> Option<Seq<char>> {
    if c == ContentCategory::Video || c == ContentCategory::Audio {
        if param_of(q, "codec"@) is Some {
            param_of(q, "codec"@)
        } else if param_of(q, "c"@) is Some {
            param_of(q, "c"@)
        } else {
            codec_in_path(lp)
        }
    } else {
        None
    }
}

/// The digits at the end of `s`.
pub open spec fn trailing_digits(s: Seq<char>) -> Seq<char>
    decreases s.len(),
{
    if s.len() > 0 && is_digit(s.last()) {
        trailing_digits(s.drop_last()).push(s.last())
    } else {
        Seq::empty()
    }
}

/// The stem of the last path segment: `segment_42` of `/hls/segment_42.ts`.
pub open spec fn file_stem(lp: Seq<char>) -> Seq<char> {
    split(split(lp, '/').last(), '.')[0]
}

/// The index of a streaming segment: the number that ends the file stem, else
/// the `segment`, `seg` or `index` parameter.
pub open spec fn segment_index_of(streaming: bool, lp: Seq<char>, q: Seq<char>) -> Option<u64> {
    if !streaming {
        None
    } else if parse_u64_spec(trailing_digits(file_stem(lp))) is Some {
        parse_u64_spec(trailing_digits(file_stem(lp)))
    } else if param_of(q, "segment"@) is Some {
        parse_u64_spec(param_of(q, "segment"@)->0)
    } else if param_of(q, "seg"@) is Some {
        parse_u64_spec(param_of(q, "seg"@)->0)
    } else if param_of(q, "index"@) is Some {
        parse_u64_spec(param_of(q, "index"@)->0)
    } else {
        None
    }
}

/// The width and height that a standard quality label stands for.
pub open spec fn label_dims(l: Seq<char>) -> Option<(u32, u32)> {
    if l == "4k"@ || l == "uhd"@ {
        Some((3840, 2160))
    } else if l == "2k"@ {
        Some((2560, 1440))
    } else if l == "1080p"@ || l == "fullhd"@ {
        Some((1920, 1080))
    } else if l == "720p"@ || l == "hd"@ {
        Some((1280, 720))
    } else if l == "480p"@ {
        Some((854, 480))
    } else if l == "sd"@ {
        Some((640, 480))
    } else if l == "360p"@ {
        Some((640, 360))
    } else if l == "240p"@ {
        Some((426, 240))
    } else if l == "144p"@ {
        Some((256, 144))
    } else {
        None
    }
}

/// The run of decimal digits that starts at `i`.
pub open spec fn digit_run(s: Seq<char>, i: int) -> Seq<char>
    decreases s.len() - i,
{
    if 0 <= i < s.len() && is_digit(s[i]) {
        seq![s[i]] + digit_run(s, i + 1)
    } else {
        Seq::empty()
    }
}

/// Whether a number starts at `i`: a digit that follows no digit.
pub open spec fn starts_number(s: Seq<char>, i: int) -> bool {
    0 <= i < s.len() && is_digit(s[i]) && (i == 0 || !is_digit(s[i - 1]))
}

/// A `WIDTHxHEIGHT` pattern at `i`: its width, its height and its text.
pub open spec fn dims_at(s: Seq<char>, i: int) -> Option<(u32, u32, Seq<char>)> {
    let a = digit_run(s, i);
    let j = i + a.len();
    let b = digit_run(s, j + 1);
    let w = parse_u64_spec(a);
    let h = parse_u64_spec(b);
    if starts_number(s, i) && j < s.len() && s[j] == 'x' && b.len() > 0 && w is Some && w->0
        <= u32::MAX && h is Some && h->0 <= u32::MAX {
        Some((w->0 as u32, h->0 as u32, s.subrange(i, j + 1 + b.len())))
    } else {
        None
    }
}

/// The first `WIDTHxHEIGHT` pattern at or after `i`.
pub open spec fn first_dims(s: Seq<char>, i: int) -> Option<(u32, u32, Seq<char>)>
    decreases s.len() - i,
{
    if i < 0 || i >= s.len() {
        None
    } else if dims_at(s, i) is Some {
        dims_at(s, i)
    } else {
        first_dims(s, i + 1)
    }
}

/// An `NNNp` label at `i`.
pub open spec fn lines_at(s: Seq<char>, i: int) -> Option<Seq<char>> {
    let a = digit_run(s, i);
    let j = i + a.len();
    if starts_number(s, i) && j < s.len() && s[j] == 'p' {
        Some(a.push('p'))
    } else {
        None
    }
}

/// The first `NNNp` label at or after `i`.
pub open spec fn first_lines(s: Seq<char>, i: int) -> Option<Seq<char>>
    decreases s.len() - i,
{
    if i < 0 || i >= s.len() {
        None
    } else if lines_at(s, i) is Some {
        lines_at(s, i)
    } else {
        first_lines(s, i + 1)
    }
}

/// The first of the standard labels without a line count that the
/// lower-cased path holds, longer labels tried before those they contain.
pub open spec fn label_in_path(lp: Seq<char>) -> Option<Seq<char>> {
    if has_sub(lp, "4k"@) {
        Some("4k"@)
    } else if has_sub(lp, "2k"@) {
        Some("2k"@)
    } else if has_sub(lp, "fullhd"@) {
        Some("fullhd"@)
    } else if has_sub(lp, "uhd"@) {
        Some("uhd"@)
    } else {
        None
    }
}

/// The quality that a label stands for: its size where it is standard, and
/// the label itself.
pub open spec fn labelled(l: Seq<char>) -> Option<(Option<(u32, u32)>, Seq<char>)> {
    Some((label_dims(l), l))
}

/// The quality that the path shows: a `WIDTHxHEIGHT` pattern, else an `NNNp`
/// label, else a standard label.
pub open spec fn path_quality(lp: Seq<char>) -> Option<(Option<(u32, u32)>, Seq<char>)> {
    if first_dims(lp, 0) is Some {
        let d = first_dims(lp, 0)->0;
        Some((Some((d.0, d.1)), d.2))
    } else if first_lines(lp, 0) is Some {
        labelled(first_lines(lp, 0)->0)
    } else if label_in_path(lp) is Some {
        labelled(label_in_path(lp)->0)
    } else {
        None
    }
}

/// The quality asked for, as a size where it is known and a label: the
/// `resolution`, `res`, `quality` or `q` parameter, else what the path shows.
pub open spec fn quality_of(lp: Seq<char>, q: Seq<char>) -> Option<(Option<(u32, u32)>, Seq<char>)> {
    if param_of(q, "resolution"@) is Some {
        labelled(param_of(q, "resolution"@)->0)
    } else if param_of(q, "res"@) is Some {
        labelled(param_of(q, "res"@)->0)
    } else if param_of(q, "quality"@) is Some {
        labelled(param_of(q, "quality"@)->0)
    } else if param_of(q, "q"@) is Some {
        labelled(param_of(q, "q"@)->0)
    } else {
        path_quality(lp)
    }
}

/// The quality label.
pub open spec fn quality_label_of(lp: Seq<char>, q: Seq<char>) -> Option<Seq<char>> {
    match quality_of(lp, q) {
        Some(x) => Some(x.1),
        None => None,
    }
}

/// The bitrate: the first of the `bitrate`, `br` and `rate` parameters, as a
/// number.
pub open spec fn bitrate_of(q: Seq<char>) -> Option<u64> {
    if param_of(q, "bitrate"@) is Some {
        parse_u64_spec(param_of(q, "bitrate"@)->0)
    } else if param_of(q, "br"@) is Some {
        parse_u64_spec(param_of(q, "br"@)->0)
    } else if param_of(q, "rate"@) is Some {
        parse_u64_spec(param_of(q, "rate"@)->0)
    } else {
        None
    }
}

/// The classification of a lower-cased path `lp` with query `q`.
pub open spec fn classified_as(r: ContentClassification, lp: Seq<char>, q: Seq<char>) -> bool {
    let k = kind_of(lp, q);
    let quality = quality_of(lp, q);
    &&& r.category == k.0
    &&& r.is_streaming == k.1
    &&& r.is_init_segment == k.2
    &&& opt_text(r.extension) == extension_of(lp)
    &&& opt_text(r.codec) == codec_of(k.0, lp, q)
    &&& r.segment_index == segment_index_of(k.1, lp, q)
    &&& opt_text(r.quality.label) == quality_label_of(lp, q)
    &&& match quality {
        Some((Some(d), _)) => r.quality.width == Some(d.0) && r.quality.height == Some(d.1),
        _ => r.quality.width is None && r.quality.height is None,
    }
    &&& r.quality.bitrate == bitrate_of(q)
}

fn has_char(v: &Vec<char>, lo: usize, hi: usize, c: char) -> (r: bool)
    requires
        lo <= hi <= v.len(),
    ensures
        r == v@.subrange(lo as int, hi as int).contains(c),
{
    let mut i = lo;
    while i < hi
        invariant
            lo <= i <= hi <= v.len(),
            forall|k: int| lo <= k < i ==> v@[k] != c,
        decreases hi - i,
    {
        if v[i] == c {
            assert(v@.subrange(lo as int, hi as int)[i - lo] == c);
            return true;
        }
        i = i + 1;
    }
    assert forall|k: int| 0 <= k < hi - lo implies v@.subrange(lo as int, hi as int)[k] != c by {
        assert(v@.subrange(lo as int, hi as int)[k] == v@[lo + k]);
    }
    false
}

fn extension(lp: &Vec<char>) -> (r: Option<String>)
    ensures
        opt_text(r) == extension_of(lp@),
{
    assert(lp@.subrange(0, lp@.len() as int) =~= lp@);
    let parts = split_at_char(lp, 0, lp.len(), '.');
    if parts.len() < 2 {
        return None;
    }
    let (a, b) = parts[parts.len() - 1];
    assert(slices(lp@, parts@).last() == lp@.subrange(a as int, b as int));
    if a == b || has_char(lp, a, b, '/') {
        None
    } else {
        Some(string_of(lp, a, b))
    }
}

fn category_of_extension(e: &str) -> (r: Option<ContentCategory>)
    ensures
        r == extension_category(e@),
{
    if same_text(e, "mp4") || same_text(e, "m4v") || same_text(e, "mkv") || same_text(e, "webm")
        || same_text(e, "mov") || same_text(e, "avi") || same_text(e, "flv") {
        Some(ContentCategory::Video)
    } else if same_text(e, "mp3") || same_text(e, "aac") || same_text(e, "m4a") || same_text(
        e,
        "ogg",
    ) || same_text(e, "flac") || same_text(e, "wav") || same_text(e, "opus") {
        Some(ContentCategory::Audio)
    } else if same_text(e, "m3u8") || same_text(e, "mpd") {
        Some(ContentCategory::StreamingManifest)
    } else if same_text(e, "ts") || same_text(e, "m4s") || same_text(e, "chk") {
        Some(ContentCategory::MediaSegment)
    } else if same_text(e, "jpg") || same_text(e, "jpeg") || same_text(e, "png") || same_text(
        e,
        "gif",
    ) || same_text(e, "webp") || same_text(e, "svg") || same_text(e, "ico") {
        Some(ContentCategory::Image)
    } else if same_text(e, "pdf") || same_text(e, "doc") || same_text(e, "docx") {
        Some(ContentCategory::Document)
    } else if same_text(e, "css") {
        Some(ContentCategory::Stylesheet)
    } else if same_text(e, "js") {
        Some(ContentCategory::Script)
    } else if same_text(e, "html") || same_text(e, "htm") {
        Some(ContentCategory::Html)
    } else if same_text(e, "json") || same_text(e, "xml") || same_text(e, "txt") {
        Some(ContentCategory::Data)
    } else {
        None
    }
}

fn kind_from_path(lp: &Vec<char>, q: &Query) -> (r: (ContentCategory, bool, bool))
    requires
        q.wf(),
    ensures
        r == path_kind(lp@, q.text@),
{
    if contains_text(lp, "/video/") || contains_text(lp, "/media/") || contains_text(lp, "/movie/") {
        (ContentCategory::Video, false, false)
    } else if contains_text(lp, "/audio/") || contains_text(lp, "/music/") {
        (ContentCategory::Audio, false, false)
    } else if contains_text(lp, "/stream/") || contains_text(lp, "/hls/") || contains_text(
        lp,
        "/dash/",
    ) {
        (ContentCategory::StreamingManifest, true, false)
    } else if contains_text(lp, "/segment") || contains_text(lp, "/chunk") || contains_text(
        lp,
        "/fragment",
    ) {
        (ContentCategory::MediaSegment, true, false)
    } else if contains_text(lp, "/init") || match q.get("init") {
        Some(v) => same_text(v.as_str(), "1"),
        None => false,
    } {
        (ContentCategory::MediaSegment, true, true)
    } else if contains_text(lp, "/image/") || contains_text(lp, "/img/") {
        (ContentCategory::Image, false, false)
    } else {
        (ContentCategory::Other, false, false)
    }
}

fn codec_from_path(lp: &Vec<char>) -> (r: Option<String>)
    ensures
        opt_text(r) == codec_in_path(lp@),
{
    if contains_text(lp, "h264") || contains_text(lp, "avc") {
        Some(owned("h264"))
    } else if contains_text(lp, "h265") || contains_text(lp, "hevc") {
        Some(owned("h265"))
    } else if contains_text(lp, "vp9") {
        Some(owned("vp9"))
    } else if contains_text(lp, "av1") {
        Some(owned("av1"))
    } else if contains_text(lp, "aac") {
        Some(owned("aac"))
    } else if contains_text(lp, "mp3") {
        Some(owned("mp3"))
    } else {
        None
    }
}

/// The text as a `String` of its own.
fn owned(s: &str) -> (r: String)
    ensures
        r@ == s@,
{
    s.to_owned()
}

fn label_from_path(lp: &Vec<char>) -> (r: Option<String>)
    ensures
        opt_text(r) == label_in_path(lp@),
{
    if contains_text(lp, "4k") {
        Some(owned("4k"))
    } else if contains_text(lp, "2k") {
        Some(owned("2k"))
    } else if contains_text(lp, "fullhd") {
        Some(owned("fullhd"))
    } else if contains_text(lp, "uhd") {
        Some(owned("uhd"))
    } else {
        None
    }
}

fn digit_run_end(v: &Vec<char>, i: usize) -> (r: usize)
    requires
        i <= v.len(),
    ensures
        i <= r <= v.len(),
        v@.subrange(i as int, r as int) == digit_run(v@, i as int),
{
    let mut j = i;
    assert(v@.subrange(i as int, i as int) + digit_run(v@, i as int) =~= digit_run(v@, i as int));
    while j < v.len() && '0' <= v[j] && v[j] <= '9'
        invariant
            i <= j <= v.len(),
            digit_run(v@, i as int) == v@.subrange(i as int, j as int) + digit_run(v@, j as int),
        decreases v.len() - j,
    {
        assert(v@.subrange(i as int, j + 1) =~= v@.subrange(i as int, j as int) + seq![v@[j as int]]);
        assert(digit_run(v@, j as int) == seq![v@[j as int]] + digit_run(v@, j + 1));
        assert(v@.subrange(i as int, j + 1) + digit_run(v@, j + 1) =~= v@.subrange(i as int, j as int)
            + (seq![v@[j as int]] + digit_run(v@, j + 1)));
        j = j + 1;
    }
    assert(v@.subrange(i as int, j as int) + digit_run(v@, j as int) =~= v@.subrange(
        i as int,
        j as int,
    ));
    j
}

fn starts_number_at(v: &Vec<char>, i: usize) -> (r: bool)
    ensures
        r == starts_number(v@, i as int),
{
    i < v.len() && '0' <= v[i] && v[i] <= '9' && (i == 0 || !('0' <= v[i - 1] && v[i - 1] <= '9'))
}

fn dims_at_exec(v: &Vec<char>, i: usize) -> (r: Option<(u32, u32, String)>)
    requires
        i < v.len(),
    ensures
        match r {
            Some(d) => dims_at(v@, i as int) == Some((d.0, d.1, d.2@)),
            None => dims_at(v@, i as int) is None,
        },
{
    if !starts_number_at(v, i) {
        return None;
    }
    let j = digit_run_end(v, i);
    if j >= v.len() || v[j] != 'x' {
        return None;
    }
    let k = digit_run_end(v, j + 1);
    if k == j + 1 {
        return None;
    }
    let w = parse_u64_at(v, i, j);
    let h = parse_u64_at(v, j + 1, k);
    match (w, h) {
        (Some(w), Some(h)) => {
            if w <= 0xffff_ffff && h <= 0xffff_ffff {
                Some((w as u32, h as u32, string_of(v, i, k)))
            } else {
                None
            }
        },
        _ => None,
    }
}

fn lines_at_exec(v: &Vec<char>, i: usize) -> (r: Option<String>)
    requires
        i < v.len(),
    ensures
        opt_text(r) == lines_at(v@, i as int),
{
    if !starts_number_at(v, i) {
        return None;
    }
    let j = digit_run_end(v, i);
    if j >= v.len() || v[j] != 'p' {
        return None;
    }
    assert(v@.subrange(i as int, j + 1) =~= v@.subrange(i as int, j as int).push('p'));
    Some(string_of(v, i, j + 1))
}

fn first_dims_exec(v: &Vec<char>) -> (r: Option<(u32, u32, String)>)
    ensures
        match r {
            Some(d) => first_dims(v@, 0) == Some((d.0, d.1, d.2@)),
            None => first_dims(v@, 0) is None,
        },
{
    let mut i: usize = 0;
    while i < v.len()
        invariant
            i <= v.len(),
            first_dims(v@, 0) == first_dims(v@, i as int),
        decreases v.len() - i,
    {
        match dims_at_exec(v, i) {
            Some(d) => {
                return Some(d);
            },
            None => {},
        }
        i = i + 1;
    }
    None
}

fn first_lines_exec(v: &Vec<char>) -> (r: Option<String>)
    ensures
        opt_text(r) == first_lines(v@, 0),
{
    let mut i: usize = 0;
    while i < v.len()
        invariant
            i <= v.len(),
            first_lines(v@, 0) == first_lines(v@, i as int),
        decreases v.len() - i,
    {
        match lines_at_exec(v, i) {
            Some(l) => {
                return Some(l);
            },
            None => {},
        }
        i = i + 1;
    }
    None
}

fn quality_from_path(lp: &Vec<char>) -> (r: Option<(Option<(u32, u32)>, String)>)
    ensures
        match r {
            Some(x) => path_quality(lp@) == Some((x.0, x.1@)),
            None => path_quality(lp@) is None,
        },
{
    match first_dims_exec(lp) {
        Some((w, h, text)) => Some((Some((w, h)), text)),
        None => match first_lines_exec(lp) {
            Some(l) => Some((dims_of_label(l.as_str()), l)),
            None => match label_from_path(lp) {
                Some(l) => Some((dims_of_label(l.as_str()), l)),
                None => None,
            },
        },
    }
}

/// The width and height of a standard quality label.
pub fn dims_of_label(l: &str) -> (r: Option<(u32, u32)>)
    ensures
        r == label_dims(l@),
{
    if same_text(l, "4k") || same_text(l, "uhd") {
        Some((3840, 2160))
    } else if same_text(l, "2k") {
        Some((2560, 1440))
    } else if same_text(l, "1080p") || same_text(l, "fullhd") {
        Some((1920, 1080))
    } else if same_text(l, "720p") || same_text(l, "hd") {
        Some((1280, 720))
    } else if same_text(l, "480p") {
        Some((854, 480))
    } else if same_text(l, "sd") {
        Some((640, 480))
    } else if same_text(l, "360p") {
        Some((640, 360))
    } else if same_text(l, "240p") {
        Some((426, 240))
    } else if same_text(l, "144p") {
        Some((256, 144))
    } else {
        None
    }
}

fn number_param(q: &Query, name: &str) -> (r: Option<Option<u64>>)
    requires
        q.wf(),
    ensures
        match param_of(q.text@, name@) {
            Some(v) => r == Some(parse_u64_spec(v)),
            None => r is None,
        },
{
    match q.get(name) {
        Some(v) => {
            let c = chars_of(v.as_str());
            assert(c@.subrange(0, c@.len() as int) =~= c@);
            Some(parse_u64_at(&c, 0, c.len()))
        },
        None => None,
    }
}

fn stem_number(lp: &Vec<char>) -> (r: Option<u64>)
    ensures
        r == parse_u64_spec(trailing_digits(file_stem(lp@))),
{
    assert(lp@.subrange(0, lp@.len() as int) =~= lp@);
    let segs = split_at_char(lp, 0, lp.len(), '/');
    let (fa, fb) = segs[segs.len() - 1];
    assert(slices(lp@, segs@).last() == lp@.subrange(fa as int, fb as int));
    let dots = split_at_char(lp, fa, fb, '.');
    let (sa, se) = dots[0];
    assert(slices(lp@, dots@)[0] == lp@.subrange(sa as int, se as int));
    let ghost stem = lp@.subrange(sa as int, se as int);
    let mut d = se;
    assert(lp@.subrange(sa as int, se as int) =~= stem);
    assert(lp@.subrange(se as int, se as int) =~= Seq::<char>::empty());
    while d > sa && '0' <= lp[d - 1] && lp[d - 1] <= '9'
        invariant
            sa <= d <= se <= lp.len(),
            stem == lp@.subrange(sa as int, se as int),
            trailing_digits(stem) == trailing_digits(lp@.subrange(sa as int, d as int))
                + lp@.subrange(d as int, se as int),
            forall|k: int| d <= k < se ==> is_digit(#[trigger] lp@[k]),
        decreases d - sa,
    {
        let ghost s = lp@.subrange(sa as int, d as int);
        assert(s.drop_last() =~= lp@.subrange(sa as int, d - 1));
        assert(s.last() == lp@[d - 1]);
        assert(lp@.subrange(d - 1, se as int) =~= seq![lp@[d - 1]] + lp@.subrange(
            d as int,
            se as int,
        ));
        assert(trailing_digits(lp@.subrange(sa as int, d - 1)).push(lp@[d - 1]) + lp@.subrange(
            d as int,
            se as int,
        ) =~= trailing_digits(lp@.subrange(sa as int, d - 1)) + lp@.subrange(d - 1, se as int));
        d = d - 1;
    }
    assert(trailing_digits(lp@.subrange(sa as int, d as int)) =~= Seq::<char>::empty());
    assert(Seq::<char>::empty() + lp@.subrange(d as int, se as int) =~= lp@.subrange(
        d as int,
        se as int,
    ));
    parse_u64_at(lp, d, se)
}

/// Classifies a request by its lower-cased path and its query string.
pub fn classify_lowered(lp: &str, query: &str) -> (r: ContentClassification)
    ensures
        classified_as(r, lp@, query@),
        r.is_init_segment ==> r.is_streaming,
        r.codec is Some ==> r.category == ContentCategory::Video || r.category
            == ContentCategory::Audio,
{
    let lpv = chars_of(lp);
    let q = Query::new(query);
    let ext = extension(&lpv);
    let ext_cat = match &ext {
        Some(e) => category_of_extension(e.as_str()),
        None => None,
    };
    let (category, is_streaming, is_init_segment) = match ext_cat {
        Some(c) => (c, c == ContentCategory::StreamingManifest || c
            == ContentCategory::MediaSegment, false),
        None => kind_from_path(&lpv, &q),
    };
    let codec = if category == ContentCategory::Video || category == ContentCategory::Audio {
        match q.get("codec") {
            Some(c) => Some(c),
            None => match q.get("c") {
                Some(c) => Some(c),
                None => codec_from_path(&lpv),
            },
        }
    } else {
        None
    };
    let segment_index = if !is_streaming {
        None
    } else {
        match stem_number(&lpv) {
            Some(n) => Some(n),
            None => match number_param(&q, "segment") {
                Some(n) => n,
                None => match number_param(&q, "seg") {
                    Some(n) => n,
                    None => match number_param(&q, "index") {
                        Some(n) => n,
                        None => None,
                    },
                },
            },
        }
    };
    let param_label = match q.get("resolution") {
        Some(v) => Some(v),
        None => match q.get("res") {
            Some(v) => Some(v),
            None => match q.get("quality") {
                Some(v) => Some(v),
                None => q.get("q"),
            },
        },
    };
    let quality = match param_label {
        Some(l) => Some((dims_of_label(l.as_str()), l)),
        None => quality_from_path(&lpv),
    };
    let (dims, label) = match quality {
        Some((d, l)) => (d, Some(l)),
        None => (None, None),
    };
    let bitrate = match number_param(&q, "bitrate") {
        Some(n) => n,
        None => match number_param(&q, "br") {
            Some(n) => n,
            None => match number_param(&q, "rate") {
                Some(n) => n,
                None => None,
            },
        },
    };
    let (width, height) = match dims {
        Some((w, h)) => (Some(w), Some(h)),
        None => (None, None),
    };
    ContentClassification {
        category,
        extension: ext,
        is_streaming,
        is_init_segment,
        codec,
        segment_index,
        quality: QualityInfo { width, height, label, bitrate },
    }
}

/// Classifies a request by its path, compared lower-cased, and its query string.
pub fn classify(path: &str, query: &str) -> (r: ContentClassification)
    ensures
        classified_as(r, lower_of(path@), query@),
        r.is_init_segment ==> r.is_streaming,
{
    let lp = lowercase(path);
    classify_lowered(lp.as_str(), query)
}

} // verus!
