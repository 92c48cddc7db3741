//! The set of releases the reader has observed.
//!
//! Conditions are evaluated against this set; it is recomputed from the
//! configuration and the reader's selection on every selection change.

use vstd::prelude::*;
use crate::text::str_eq;

verus! {

/// A set of release reference names, viewed as a `Set<Seq<char>>`.
pub struct ObservedSet {
    pub items: Vec<String>,
}

impl View for ObservedSet {
    type V = Set<Seq<char>>;

    open spec fn view(&self) -> Set<Seq<char>> {
        Set::new(|x: Seq<char>| exists|i: int| 0 <= i < self.items@.len() && self.items@[i]@ == x)
    }
}

impl ObservedSet {
    /// The empty observed set.
    pub fn new() -> (r: Self)
        ensures
            r@ == Set::<Seq<char>>::empty(),
    {
        let r = ObservedSet { items: Vec::new() };
        proof {
            assert(r@ =~= Set::<Seq<char>>::empty());
        }
        r
    }

    /// Adds one release reference name.
    pub fn push(&mut self, item: String)
        ensures
            final(self)@ == old(self)@.insert(item@),
    {
        self.items.push(item);
        proof {
            let items = self.items@;
            assert forall|x: Seq<char>| self@.contains(x) implies old(self)@.insert(x).contains(x) by {}
            assert(self@ =~= old(self)@.insert(item@)) by {
                assert forall|x: Seq<char>| old(self)@.insert(item@).contains(x) implies self@.contains(
                    x,
                ) by {
                    if x == item@ {
                        assert(items[items.len() - 1]@ == x);
                    } else {
                        let i = choose|i: int|
                            0 <= i < old(self).items@.len() && old(self).items@[i]@ == x;
                        assert(items[i]@ == x);
                    }
                }
            }
        }
    }

    /// Whether `x` is in the set.
    pub fn contains(&self, x: &str) -> (r: bool)
        ensures
            r == self@.contains(x@),
    {
        let n = self.items.len();
        let mut i: usize = 0;
        while i < n
            invariant
                n == self.items@.len(),
                i <= n,
                forall|k: int| 0 <= k < i ==> self.items@[k]@ != x@,
            decreases n - i,
        {
            if str_eq(self.items[i].as_str(), x) {
                return true;
            }
            i = i + 1;
        }
        false
    }

    /// The number of entries (duplicates included).
    pub fn entry_count(&self) -> (r: usize)
        ensures
            r == self.items@.len(),
    {
        self.items.len()
    }
}

} // verus!
