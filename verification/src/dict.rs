//! A small association table from string keys to string values, used for a
//! request's headers, cookies and parameters. A later insertion of the same
//! key wins over an earlier one. Viewed as a `Map<Seq<char>, Seq<char>>`.

use vstd::prelude::*;
use crate::strutil::str_eq;

verus! {

/// The value for `k` among `pairs`, where the last matching pair wins.
pub open spec fn assoc_lookup(pairs: Seq<(String, String)>, k: Seq<char>) -> Option<Seq<char>>
    decreases pairs.len(),
{
    if pairs.len() == 0 {
        None
    } else if pairs.last().0@ == k {
        Some(pairs.last().1@)
    } else {
        assoc_lookup(pairs.drop_last(), k)
    }
}

/// String-keyed table with last-write-wins insertion.
#[derive(Debug)]
pub struct Dict {
    pairs: Vec<(String, String)>,
}

impl View for Dict {
    type V = Map<Seq<char>, Seq<char>>;

    closed spec fn view(&self) -> Map<Seq<char>, Seq<char>> {
        Map::new(
            |k: Seq<char>| assoc_lookup(self.pairs@, k) is Some,
            |k: Seq<char>| assoc_lookup(self.pairs@, k)->0,
        )
    }
}

impl Dict {
    pub fn new() -> (d: Dict)
        ensures
            d@ == Map::<Seq<char>, Seq<char>>::empty(),
    {
        let d = Dict { pairs: Vec::new() };
        proof {
            assert(d@ =~= Map::<Seq<char>, Seq<char>>::empty());
        }
        d
    }

    /// Binds `k` to `v`, replacing any earlier binding of `k`.
    pub fn insert(&mut self, k: String, v: String)
        ensures
            final(self)@ == old(self)@.insert(k@, v@),
    {
        let ghost gk = k@;
        let ghost gv = v@;
        self.pairs.push((k, v));
        proof {
            let p = self.pairs@;
            assert(p.drop_last() =~= old(self).pairs@);
            assert(p.last().0@ == gk && p.last().1@ == gv);
            assert(self@ =~= old(self)@.insert(gk, gv));
        }
    }

    /// The value bound to `k`, if any.
    pub fn get(&self, k: &str) -> (r: Option<&String>)
        ensures
            match r {
                Some(v) => self@.contains_key(k@) && v@ == self@[k@],
                None => !self@.contains_key(k@),
            },
    {
        let n = self.pairs.len();
        let mut i: usize = n;
        proof {
            assert(self.pairs@.take(n as int) =~= self.pairs@);
        }
        while i > 0
            invariant
                i <= n,
                n == self.pairs@.len(),
                assoc_lookup(self.pairs@, k@) == assoc_lookup(self.pairs@.take(i as int), k@),
            decreases i,
        {
            i -= 1;
            proof {
                assert(self.pairs@.take(i + 1).drop_last() =~= self.pairs@.take(i as int));
                assert(self.pairs@.take(i + 1).last() == self.pairs@[i as int]);
            }
            if str_eq(self.pairs[i].0.as_str(), k) {
                return Some(&self.pairs[i].1);
            }
        }
        proof {
            assert(self.pairs@.take(0) =~= Seq::<(String, String)>::empty());
        }
        None
    }

    /// Whether `k` is bound.
    pub fn contains_key(&self, k: &str) -> (r: bool)
        ensures
            r == self@.contains_key(k@),
    {
        self.get(k).is_some()
    }
}

} // verus!
