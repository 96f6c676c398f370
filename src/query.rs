use vstd::prelude::*;

use crate::headers::same_text;
use crate::text::{chars_of, slices, split, split_at_char, string_of};

verus! {

/// The name of a query parameter `name=value`: what comes before its first `=`.
pub open spec fn param_name(p: Seq<char>) -> Seq<char> {
    split(p, '=')[0]
}

/// The value of a query parameter: what follows its first `=`, or nothing.
pub open spec fn param_value(p: Seq<char>) -> Seq<char> {
    if split(p, '=').len() > 1 {
        p.subrange(param_name(p).len() as int + 1, p.len() as int)
    } else {
        Seq::empty()
    }
}

/// The value of the first parameter among `pieces` called `name`.
pub open spec fn first_param(pieces: Seq<Seq<char>>, name: Seq<char>) -> Option<Seq<char>>
    decreases pieces.len(),
{
    if pieces.len() == 0 {
        None
    } else if param_name(pieces[0]) == name {
        Some(param_value(pieces[0]))
    } else {
        first_param(pieces.drop_first(), name)
    }
}

/// The value of the first parameter called `name` in a query string
/// `a=1&b=2`, taken as it is written.
pub open spec fn param_of(query: Seq<char>, name: Seq<char>) -> Option<Seq<char>> {
    first_param(split(query, '&'), name)
}

/// A query string, cut into its parameters.
pub struct Query {
    pub text: Vec<char>,
    pub pieces: Vec<(usize, usize)>,
}

impl Query {
    pub open spec fn wf(&self) -> bool {
        &&& forall|k: int| 0 <= k < self.pieces.len() ==> (#[trigger] self.pieces[k]).0
            <= self.pieces[k].1 <= self.text.len()
        &&& slices(self.text@, self.pieces@) == split(self.text@, '&')
    }

    /// Cuts a query string at each `&`.
    pub fn new(query: &str) -> (r: Query)
        ensures
            r.wf(),
            r.text@ == query@,
    {
        let text = chars_of(query);
        assert(text@.subrange(0, text@.len() as int) =~= text@);
        let pieces = split_at_char(&text, 0, text.len(), '&');
        Query { text, pieces }
    }

    /// The value of the first parameter called `name`.
    pub fn get(&self, name: &str) -> (r: Option<String>)
        requires
            self.wf(),
        ensures
            match r {
                Some(v) => param_of(self.text@, name@) == Some(v@),
                None => param_of(self.text@, name@) is None,
            },
    {
        let ghost all = split(self.text@, '&');
        let mut k: usize = 0;
        assert(all.skip(0) =~= all);
        while k < self.pieces.len()
            invariant
                self.wf(),
                all == split(self.text@, '&'),
                k <= self.pieces.len(),
                first_param(all, name@) == first_param(all.skip(k as int), name@),
            decreases self.pieces.len() - k,
        {
            let (a, b) = self.pieces[k];
            let ghost p = self.text@.subrange(a as int, b as int);
            assert(all[k as int] == p);
            assert(all.skip(k as int).drop_first() =~= all.skip(k + 1));
            assert(all.skip(k as int)[0] == p);
            let bounds = split_at_char(&self.text, a, b, '=');
            let ghost parts = split(p, '=');
            assert(slices(self.text@, bounds@)[0] == self.text@.subrange(a as int, bounds[0].1 as int));
            let key = string_of(&self.text, a, bounds[0].1);
            if same_text(key.as_str(), name) {
                if bounds.len() > 1 {
                    assert(param_name(p).len() == bounds[0].1 - a);
                    assert(p.subrange(param_name(p).len() as int + 1, p.len() as int) =~= self.text@.subrange(
                        bounds[0].1 + 1,
                        b as int,
                    ));
                    return Some(string_of(&self.text, bounds[0].1 + 1, b));
                } else {
                    return Some(String::new());
                }
            }
            k = k + 1;
        }
        None
    }
}

} // verus!
