use vstd::prelude::*;

use crate::text::{chars_of, slices, split, split_at_char, strip_at, string_of, trim, unquote};

verus! {

/// The entity tag that one comma-separated piece stands for: trimmed, then
/// without its surrounding quotes.
pub open spec fn etag_of(piece: Seq<char>) -> Seq<char> {
    unquote(trim(piece))
}

/// The non-empty entity tags of the pieces, in order.
pub open spec fn etags_of(pieces: Seq<Seq<char>>) -> Seq<Seq<char>>
    decreases pieces.len(),
{
    if pieces.len() == 0 {
        Seq::empty()
    } else {
        let prev = etags_of(pieces.drop_last());
        let e = etag_of(pieces.last());
        if e.len() == 0 {
            prev
        } else {
            prev.push(e)
        }
    }
}

/// The entity tags of a list header such as `If-None-Match`.
pub open spec fn etag_list_of(s: Seq<char>) -> Seq<Seq<char>> {
    etags_of(split(s, ','))
}

/// The views of a list of strings.
pub open spec fn string_views(v: Seq<String>) -> Seq<Seq<char>> {
    v.map_values(|e: String| e@)
}

/// Parses a comma-separated list of entity tags, as `If-Match` and
/// `If-None-Match` carry them; absent where no tag is left.
pub fn parse_etag_list(value: &str) -> (r: Option<Vec<String>>)
    ensures
        match r {
            Some(tags) => tags@.len() > 0 && string_views(tags@) == etag_list_of(value@),
            None => etag_list_of(value@).len() == 0,
        },
{
    let v = chars_of(value);
    assert(v@.subrange(0, v@.len() as int) =~= v@);
    let pieces = split_at_char(&v, 0, v.len(), ',');
    let ghost all = slices(v@, pieces@);
    let mut tags: Vec<String> = Vec::new();
    let mut k: usize = 0;
    while k < pieces.len()
        invariant
            k <= pieces.len(),
            all == slices(v@, pieces@),
            all == split(value@, ','),
            forall|j: int| 0 <= j < pieces.len() ==> (#[trigger] pieces[j]).0 <= pieces[j].1 <= v.len(),
            string_views(tags@) == etags_of(all.take(k as int)),
        decreases pieces.len() - k,
    {
        let ghost piece = v@.subrange(pieces[k as int].0 as int, pieces[k as int].1 as int);
        assert(all.take(k + 1).drop_last() =~= all.take(k as int));
        assert(all.take(k + 1).last() == piece);
        let (a, b) = strip_at(&v, pieces[k].0, pieces[k].1, false);
        let (c, d) = strip_at(&v, a, b, true);
        if c < d {
            let ghost before = string_views(tags@);
            tags.push(string_of(&v, c, d));
            assert(string_views(tags@) =~= before.push(v@.subrange(c as int, d as int)));
        }
        k = k + 1;
    }
    assert(all.take(k as int) =~= all);
    if tags.len() == 0 {
        None
    } else {
        Some(tags)
    }
}

} // verus!
