use vstd::prelude::*;

use crate::text::{
    chars_of, parse_u64_at, parse_u64_spec, slices, split, split_at_char, strip_at, string_of,
    trim,
};

verus! {

/// One byte range of a `Range` header: `start-end`, either bound may be absent.
#[derive(Debug, Clone, Copy, PartialEq, Eq, Structural)]
pub struct RangeSpec {
    pub start: Option<u64>,
    pub end: Option<u64>,
}

/// A parsed `Range` header: its unit and at least one range.
#[derive(Debug, Clone, PartialEq)]
pub struct RangeHeader {
    pub unit: String,
    pub ranges: Vec<RangeSpec>,
}

impl View for RangeHeader {
    type V = (Seq<char>, Seq<RangeSpec>);

    open spec fn view(&self) -> Self::V {
        (self.unit@, self.ranges@)
    }
}

/// The range that one comma-separated piece of a range list stands for: the
/// trimmed piece must hold exactly one `-`, and at least one of its bounds must
/// be a number.
pub open spec fn range_spec_of(piece: Seq<char>) -> Option<RangeSpec> {
    let t = trim(piece);
    let b = split(t, '-');
    if t.len() == 0 || b.len() != 2 {
        None
    } else {
        let r = RangeSpec { start: parse_u64_spec(b[0]), end: parse_u64_spec(b[1]) };
        if r.start is None && r.end is None {
            None
        } else {
            Some(r)
        }
    }
}

/// The ranges of the pieces that stand for one, in order.
pub open spec fn range_specs_of(pieces: Seq<Seq<char>>) -> Seq<RangeSpec>
    decreases pieces.len(),
{
    if pieces.len() == 0 {
        Seq::empty()
    } else {
        let prev = range_specs_of(pieces.drop_last());
        match range_spec_of(pieces.last()) {
            Some(r) => prev.push(r),
            None => prev,
        }
    }
}

/// The unit and the ranges of a `Range` header value: `unit=range,range...`
/// with exactly one `=`; absent where no range survives.
pub open spec fn range_header_of(s: Seq<char>) -> Option<(Seq<char>, Seq<RangeSpec>)> {
    let parts = split(s, '=');
    if parts.len() != 2 {
        None
    } else {
        let specs = range_specs_of(split(trim(parts[1]), ','));
        if specs.len() == 0 {
            None
        } else {
            Some((trim(parts[0]), specs))
        }
    }
}

fn range_spec_at(v: &Vec<char>, lo: usize, hi: usize) -> (r: Option<RangeSpec>)
    requires
        lo <= hi <= v.len(),
    ensures
        r == range_spec_of(v@.subrange(lo as int, hi as int)),
{
    let (a, b) = strip_at(v, lo, hi, false);
    let ghost t = v@.subrange(a as int, b as int);
    if a == b {
        return None;
    }
    let bounds = split_at_char(v, a, b, '-');
    if bounds.len() != 2 {
        return None;
    }
    assert(slices(v@, bounds@)[0] == v@.subrange(bounds[0].0 as int, bounds[0].1 as int));
    assert(slices(v@, bounds@)[1] == v@.subrange(bounds[1].0 as int, bounds[1].1 as int));
    let start = parse_u64_at(v, bounds[0].0, bounds[0].1);
    let end = parse_u64_at(v, bounds[1].0, bounds[1].1);
    if start.is_none() && end.is_none() {
        None
    } else {
        Some(RangeSpec { start, end })
    }
}

/// Parses a `Range` header value such as `bytes=0-499,1000-`.
///
/// Pieces that are not a range are dropped; the header is absent when the
/// value does not hold exactly one `=` or when no range is left.
pub fn parse_range_header(value: &str) -> (r: Option<RangeHeader>)
    ensures
        match r {
            Some(h) => range_header_of(value@) == Some(h@),
            None => range_header_of(value@) is None,
        },
{
    let v = chars_of(value);
    assert(v@.subrange(0, v@.len() as int) =~= v@);
    let parts = split_at_char(&v, 0, v.len(), '=');
    if parts.len() != 2 {
        return None;
    }
    assert(slices(v@, parts@)[0] == v@.subrange(parts[0].0 as int, parts[0].1 as int));
    assert(slices(v@, parts@)[1] == v@.subrange(parts[1].0 as int, parts[1].1 as int));
    let (ua, ub) = strip_at(&v, parts[0].0, parts[0].1, false);
    let (ra, rb) = strip_at(&v, parts[1].0, parts[1].1, false);
    let pieces = split_at_char(&v, ra, rb, ',');
    let ghost all = slices(v@, pieces@);
    let mut ranges: Vec<RangeSpec> = Vec::new();
    let mut k: usize = 0;
    while k < pieces.len()
        invariant
            k <= pieces.len(),
            all == slices(v@, pieces@),
            forall|j: int| 0 <= j < pieces.len() ==> (#[trigger] pieces[j]).0 <= pieces[j].1 <= v.len(),
            ranges@ == range_specs_of(all.take(k as int)),
        decreases pieces.len() - k,
    {
        assert(all.take(k + 1).drop_last() =~= all.take(k as int));
        assert(all.take(k + 1).last() == v@.subrange(pieces[k as int].0 as int, pieces[k as int].1 as int));
        match range_spec_at(&v, pieces[k].0, pieces[k].1) {
            Some(spec) => ranges.push(spec),
            None => {},
        }
        k = k + 1;
    }
    assert(all.take(k as int) =~= all);
    if ranges.len() == 0 {
        None
    } else {
        Some(RangeHeader { unit: string_of(&v, ua, ub), ranges })
    }
}

} // verus!
