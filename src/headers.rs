use vstd::prelude::*;

use crate::text::{chars_of, strip_at, string_of, trim};

verus! {

/// What `str::to_lowercase` gives for a text.
pub uninterp spec fn lower_of(s: Seq<char>) -> Seq<char>;

/// Relies on `str::to_lowercase`: the result depends on the characters alone.
#[verifier::external_body]
pub(crate) fn lowercase(s: &str) -> (r: String)
    ensures
        r@ == lower_of(s@),
{
    s.to_lowercase()
}

/// One header of a request: its name, and its value where that is text.
#[derive(Debug, Clone)]
pub struct HeaderField {
    pub name: String,
    pub value: Option<String>,
}

/// The names of the headers that the context holds in fields of their own.
pub open spec fn is_recognized(n: Seq<char>) -> bool {
    n == "host"@ || n == "user-agent"@ || n == "accept"@ || n == "accept-encoding"@ || n
        == "accept-language"@ || n == "connection"@ || n == "cache-control"@ || n == "cookie"@
        || n == "authorization"@ || n == "content-type"@ || n == "content-length"@ || n
        == "referer"@ || n == "origin"@ || n == "range"@ || n == "if-range"@ || n
        == "if-modified-since"@ || n == "if-unmodified-since"@ || n == "if-none-match"@ || n
        == "if-match"@
}

/// The trimmed text of the first header named `n` (names compared lower-cased);
/// absent where there is none, or where its value is not text.
pub open spec fn header_text(hs: Seq<HeaderField>, n: Seq<char>) -> Option<Seq<char>>
    decreases hs.len(),
{
    if hs.len() == 0 {
        None
    } else if lower_of(hs[0].name@) == n {
        match hs[0].value {
            Some(v) => Some(trim(v@)),
            None => None,
        }
    } else {
        header_text(hs.drop_first(), n)
    }
}

/// The value that the residual table keeps of a header: its text, or empty.
pub open spec fn raw_value(h: HeaderField) -> Seq<char> {
    match h.value {
        Some(v) => v@,
        None => Seq::empty(),
    }
}

/// The headers that are not recognized, by lower-cased name; of several with
/// one name, the last one counts.
pub open spec fn others_of(hs: Seq<HeaderField>) -> Map<Seq<char>, Seq<char>>
    decreases hs.len(),
{
    if hs.len() == 0 {
        Map::empty()
    } else {
        let prev = others_of(hs.drop_last());
        let k = lower_of(hs.last().name@);
        if is_recognized(k) {
            prev
        } else {
            prev.insert(k, raw_value(hs.last()))
        }
    }
}

/// The mapping that a table of name/value pairs stands for.
pub open spec fn table_map(t: Seq<(String, String)>) -> Map<Seq<char>, Seq<char>>
    decreases t.len(),
{
    if t.len() == 0 {
        Map::empty()
    } else {
        table_map(t.drop_last()).insert(t.last().0@, t.last().1@)
    }
}

/// No two entries of the table share a name.
pub open spec fn keys_unique(t: Seq<(String, String)>) -> bool {
    forall|i: int, j: int| 0 <= i < j < t.len() ==> (#[trigger] t[i]).0@ != (#[trigger] t[j]).0@
}

proof fn lemma_table_update(t: Seq<(String, String)>, j: int, e: (String, String))
    requires
        keys_unique(t),
        0 <= j < t.len(),
        t[j].0@ == e.0@,
    ensures
        table_map(t.update(j, e)) == table_map(t).insert(e.0@, e.1@),
    decreases t.len(),
{
    let u = t.update(j, e);
    if j == t.len() - 1 {
        assert(u.drop_last() =~= t.drop_last());
        assert(table_map(u) =~= table_map(t).insert(e.0@, e.1@));
    } else {
        let p = t.drop_last();
        assert(u.drop_last() =~= p.update(j, e));
        assert(keys_unique(p)) by {
            assert forall|a: int, b: int| 0 <= a < b < p.len() implies (#[trigger] p[a]).0@
                != (#[trigger] p[b]).0@ by {
                assert(p[a] == t[a] && p[b] == t[b]);
            }
        }
        lemma_table_update(p, j, e);
        assert(t[j].0@ != t[t.len() - 1].0@);
        assert(table_map(u) =~= table_map(t).insert(e.0@, e.1@));
    }
}

/// A header whose name is `n` in no case leaves the first header named `n`
/// as it was, wherever it is inserted.
pub proof fn lemma_header_text_insert(hs: Seq<HeaderField>, i: int, h: HeaderField, n: Seq<char>)
    requires
        0 <= i <= hs.len(),
        lower_of(h.name@) != n,
    ensures
        header_text(hs.insert(i, h), n) == header_text(hs, n),
    decreases hs.len(),
{
    if i == 0 {
        assert(hs.insert(0, h).drop_first() =~= hs);
    } else {
        assert(hs.insert(i, h)[0] == hs[0]);
        assert(hs.insert(i, h).drop_first() =~= hs.drop_first().insert(i - 1, h));
        lemma_header_text_insert(hs.drop_first(), i - 1, h, n);
    }
}

/// A header whose name is `n` in no case leaves what the residual table
/// holds under `n` as it was, wherever it is inserted.
pub proof fn lemma_others_insert(hs: Seq<HeaderField>, i: int, h: HeaderField, n: Seq<char>)
    requires
        0 <= i <= hs.len(),
        lower_of(h.name@) != n,
    ensures
        others_of(hs.insert(i, h)).contains_key(n) == others_of(hs).contains_key(n),
        others_of(hs).contains_key(n) ==> others_of(hs.insert(i, h))[n] == others_of(hs)[n],
    decreases hs.len(),
{
    let u = hs.insert(i, h);
    if i == hs.len() {
        assert(u.drop_last() =~= hs);
        assert(u.last() == h);
    } else {
        let p = hs.drop_last();
        assert(u.drop_last() =~= p.insert(i, h));
        assert(u.last() == hs.last());
        lemma_others_insert(p, i, h, n);
    }
}

/// Whether two texts are equal.
pub fn same_text(a: &str, b: &str) -> (r: bool)
    ensures
        r == (a@ == b@),
{
    let x = chars_of(a);
    let y = chars_of(b);
    if x.len() != y.len() {
        return false;
    }
    let mut i: usize = 0;
    while i < x.len()
        invariant
            x@ == a@,
            y@ == b@,
            x.len() == y.len(),
            i <= x.len(),
            forall|k: int| 0 <= k < i ==> x@[k] == y@[k],
        decreases x.len() - i,
    {
        if x[i] != y[i] {
            return false;
        }
        i = i + 1;
    }
    assert(x@ =~= y@);
    true
}

/// Sets `name` to `value` in a table whose names are unique.
pub fn table_insert(t: &mut Vec<(String, String)>, name: String, value: String)
    requires
        keys_unique(old(t)@),
    ensures
        keys_unique(final(t)@),
        table_map(final(t)@) == table_map(old(t)@).insert(name@, value@),
{
    let mut j: usize = 0;
    while j < t.len()
        invariant
            j <= t.len(),
            t@ == old(t)@,
            keys_unique(t@),
            forall|k: int| 0 <= k < j ==> (#[trigger] t@[k]).0@ != name@,
        decreases t.len() - j,
    {
        if same_text(t[j].0.as_str(), name.as_str()) {
            let ghost before = t@;
            proof {
                lemma_table_update(before, j as int, (name, value));
            }
            t[j] = (name, value);
            assert(t@ == before.update(j as int, (name, value)));
            assert(keys_unique(t@)) by {
                assert forall|a: int, b: int| 0 <= a < b < t@.len() implies (#[trigger] t@[a]).0@
                    != (#[trigger] t@[b]).0@ by {
                    assert(t@[a].0@ == before[a].0@ && t@[b].0@ == before[b].0@);
                }
            }
            return;
        }
        j = j + 1;
    }
    let ghost before = t@;
    t.push((name, value));
    assert(t@.drop_last() =~= before);
    assert(keys_unique(t@)) by {
        assert forall|a: int, b: int| 0 <= a < b < t@.len() implies (#[trigger] t@[a]).0@
            != (#[trigger] t@[b]).0@ by {
            assert(t@[a] == before[a]);
            if b < before.len() {
                assert(t@[b] == before[b]);
            }
        }
    }
}

/// Looks `name` up in a table.
pub fn table_get<'a>(t: &'a Vec<(String, String)>, name: &str) -> (r: Option<&'a String>)
    requires
        keys_unique(t@),
    ensures
        match r {
            Some(v) => table_map(t@).contains_key(name@) && table_map(t@)[name@] == v@,
            None => !table_map(t@).contains_key(name@),
        },
{
    let mut j: usize = 0;
    while j < t.len()
        invariant
            j <= t.len(),
            keys_unique(t@),
            forall|k: int| 0 <= k < j ==> (#[trigger] t@[k]).0@ != name@,
        decreases t.len() - j,
    {
        if same_text(t[j].0.as_str(), name) {
            proof {
                lemma_table_lookup(t@, j as int);
            }
            return Some(&t[j].1);
        }
        j = j + 1;
    }
    proof {
        lemma_table_absent(t@, name@);
    }
    None
}

proof fn lemma_table_lookup(t: Seq<(String, String)>, j: int)
    requires
        keys_unique(t),
        0 <= j < t.len(),
    ensures
        table_map(t).contains_key(t[j].0@),
        table_map(t)[t[j].0@] == t[j].1@,
    decreases t.len(),
{
    if j < t.len() - 1 {
        let p = t.drop_last();
        assert(keys_unique(p)) by {
            assert forall|a: int, b: int| 0 <= a < b < p.len() implies (#[trigger] p[a]).0@
                != (#[trigger] p[b]).0@ by {
                assert(p[a] == t[a] && p[b] == t[b]);
            }
        }
        assert(p[j] == t[j]);
        lemma_table_lookup(p, j);
        assert(t[j].0@ != t[t.len() - 1].0@);
    }
}

proof fn lemma_table_absent(t: Seq<(String, String)>, n: Seq<char>)
    requires
        forall|k: int| 0 <= k < t.len() ==> (#[trigger] t[k]).0@ != n,
    ensures
        !table_map(t).contains_key(n),
    decreases t.len(),
{
    if t.len() > 0 {
        let p = t.drop_last();
        assert forall|k: int| 0 <= k < p.len() implies (#[trigger] p[k]).0@ != n by {
            assert(p[k] == t[k]);
        }
        lemma_table_absent(p, n);
        assert(t[t.len() - 1].0@ != n);
    }
}

/// Whether a lower-cased header name is one that the context holds in a field
/// of its own.
pub fn is_parsed_header(header: &str) -> (r: bool)
    ensures
        r == is_recognized(header@),
{
    same_text(header, "host") || same_text(header, "user-agent") || same_text(header, "accept")
        || same_text(header, "accept-encoding") || same_text(header, "accept-language")
        || same_text(header, "connection") || same_text(header, "cache-control") || same_text(
        header,
        "cookie",
    ) || same_text(header, "authorization") || same_text(header, "content-type") || same_text(
        header,
        "content-length",
    ) || same_text(header, "referer") || same_text(header, "origin") || same_text(header, "range")
        || same_text(header, "if-range") || same_text(header, "if-modified-since") || same_text(
        header,
        "if-unmodified-since",
    ) || same_text(header, "if-none-match") || same_text(header, "if-match")
}

/// The lower-cased names of the headers, in order.
pub fn lowered_names(hs: &Vec<HeaderField>) -> (r: Vec<String>)
    ensures
        r.len() == hs.len(),
        forall|i: int| 0 <= i < hs.len() ==> (#[trigger] r[i])@ == lower_of(hs[i].name@),
{
    let mut r: Vec<String> = Vec::new();
    let mut i: usize = 0;
    while i < hs.len()
        invariant
            i <= hs.len(),
            r.len() == i,
            forall|k: int| 0 <= k < i ==> (#[trigger] r[k])@ == lower_of(hs[k].name@),
        decreases hs.len() - i,
    {
        r.push(lowercase(hs[i].name.as_str()));
        i = i + 1;
    }
    r
}

/// The trimmed text of the first header named `name`, given the lower-cased
/// names of the headers.
pub fn header_str(hs: &Vec<HeaderField>, lowered: &Vec<String>, name: &str) -> (r: Option<String>)
    requires
        lowered.len() == hs.len(),
        forall|i: int| 0 <= i < hs.len() ==> (#[trigger] lowered[i])@ == lower_of(hs[i].name@),
    ensures
        match r {
            Some(s) => header_text(hs@, name@) == Some(s@),
            None => header_text(hs@, name@) is None,
        },
{
    let mut i: usize = 0;
    assert(hs@.subrange(0, hs.len() as int) =~= hs@);
    while i < hs.len()
        invariant
            i <= hs.len(),
            lowered.len() == hs.len(),
            forall|k: int| 0 <= k < hs.len() ==> (#[trigger] lowered[k])@ == lower_of(hs[k].name@),
            header_text(hs@, name@) == header_text(hs@.subrange(i as int, hs.len() as int), name@),
        decreases hs.len() - i,
    {
        let ghost rest = hs@.subrange(i as int, hs.len() as int);
        assert(rest.drop_first() =~= hs@.subrange(i + 1, hs.len() as int));
        assert(rest[0] == hs[i as int]);
        if same_text(lowered[i].as_str(), name) {
            match &hs[i].value {
                Some(v) => {
                    let c = chars_of(v.as_str());
                    assert(c@.subrange(0, c@.len() as int) =~= c@);
                    let (a, b) = strip_at(&c, 0, c.len(), false);
                    return Some(string_of(&c, a, b));
                },
                None => {
                    return None;
                },
            }
        }
        i = i + 1;
    }
    None
}

/// The residual table of the headers that are not recognized.
pub fn other_headers_of(hs: &Vec<HeaderField>, lowered: &Vec<String>) -> (r: Vec<(String, String)>)
    requires
        lowered.len() == hs.len(),
        forall|i: int| 0 <= i < hs.len() ==> (#[trigger] lowered[i])@ == lower_of(hs[i].name@),
    ensures
        keys_unique(r@),
        table_map(r@) == others_of(hs@),
{
    let mut r: Vec<(String, String)> = Vec::new();
    let mut i: usize = 0;
    while i < hs.len()
        invariant
            i <= hs.len(),
            lowered.len() == hs.len(),
            forall|k: int| 0 <= k < hs.len() ==> (#[trigger] lowered[k])@ == lower_of(hs[k].name@),
            keys_unique(r@),
            table_map(r@) == others_of(hs@.take(i as int)),
        decreases hs.len() - i,
    {
        let ghost p = hs@.take(i + 1);
        assert(p.drop_last() =~= hs@.take(i as int));
        assert(p.last() == hs[i as int]);
        if !is_parsed_header(lowered[i].as_str()) {
            let value = match &hs[i].value {
                Some(v) => v.clone(),
                None => String::new(),
            };
            table_insert(&mut r, lowered[i].clone(), value);
        }
        i = i + 1;
    }
    assert(hs@.take(i as int) =~= hs@);
    r
}

} // verus!
