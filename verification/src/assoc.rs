//! Lookup in association lists keyed by strings.
//!
//! Configuration maps (releases and pages per continuity, citation labels,
//! footnote numbers) are kept as vectors of pairs; lookup takes the first
//! entry whose key matches.

use vstd::prelude::*;
use crate::text::str_eq;

verus! {

/// The first entry with key `key` is at position `i`.
pub open spec fn assoc_found_at<T>(entries: Seq<(String, T)>, key: Seq<char>, i: int) -> bool {
    0 <= i < entries.len() && entries[i].0@ == key && (forall|j: int|
        0 <= j < i ==> entries[j].0@ != key)
}

/// The value under `key`, if any.
pub open spec fn spec_assoc<T>(entries: Seq<(String, T)>, key: Seq<char>) -> Option<T> {
    if exists|i: int| assoc_found_at(entries, key, i) {
        Some(entries[choose|i: int| assoc_found_at(entries, key, i)].1)
    } else {
        None
    }
}

/// A first occurrence is unique.
pub proof fn lemma_assoc_found_at_unique<T>(entries: Seq<(String, T)>, key: Seq<char>, i: int, j: int)
    requires
        assoc_found_at(entries, key, i),
        assoc_found_at(entries, key, j),
    ensures
        i == j,
{
    if i < j {
        assert(entries[i].0@ != key);
    } else if j < i {
        assert(entries[j].0@ != key);
    }
}

/// Looks `key` up, returning a reference to the first matching value.
pub fn assoc_get<'a, T>(entries: &'a Vec<(String, T)>, key: &str) -> (r: Option<&'a T>)
    ensures
        match r {
            Some(t) => spec_assoc(entries@, key@) == Some(*t),
            None => spec_assoc(entries@, key@) is None,
        },
{
    let n = entries.len();
    let mut i: usize = 0;
    while i < n
        invariant
            n == entries@.len(),
            i <= n,
            forall|k: int| 0 <= k < i ==> entries@[k].0@ != key@,
        decreases n - i,
    {
        if str_eq(entries[i].0.as_str(), key) {
            proof {
                assert(assoc_found_at(entries@, key@, i as int));
                let i0 = choose|j: int| assoc_found_at(entries@, key@, j);
                lemma_assoc_found_at_unique(entries@, key@, i as int, i0);
            }
            return Some(&entries[i].1);
        }
        i = i + 1;
    }
    proof {
        assert forall|j: int| !assoc_found_at(entries@, key@, j) by {}
    }
    None
}

} // verus!
