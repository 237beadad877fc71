//! Comparisons of lists that the games need.

use std::collections::HashSet;
use vstd::prelude::*;
use vstd::std_specs::iter::IteratorSpec;

verus! {

/// Whether two lists of numbers are the same.
pub fn numbers_eq(a: &Vec<usize>, b: &Vec<usize>) -> (r: bool)
    ensures
        r == (a@ == b@),
{
    if a.len() != b.len() {
        return false;
    }
    let mut i: usize = 0;
    while i < a.len()
        invariant
            i <= a@.len(),
            a@.len() == b@.len(),
            forall|j: int| 0 <= j < i ==> a@[j] == b@[j],
        decreases a@.len() - i,
    {
        if a[i] != b[i] {
            return false;
        }
        i = i + 1;
    }
    assert(a@ =~= b@);
    true
}


/// The members of a set of numbers, each once, in the order the set yields
/// them.
pub fn set_elements(s: &HashSet<usize>) -> (v: Vec<usize>)
    ensures
        v@.to_set() == s@,
        v@.no_duplicates(),
{
    broadcast use vstd::std_specs::hash::group_hash_axioms;
    let mut v: Vec<usize> = Vec::new();
    let ghost all = vstd::std_specs::hash::spec_hash_keys_iter(s).remaining().map_values(|r: &usize| *r);
    for x in it: s.iter()
        invariant
            all == it.seq().map_values(|r: &usize| *r),
            v@ == all.take(it.index() as int),
    {
        assert(all.take(it.index() + 1) =~= all.take(it.index() as int).push(*x));
        v.push(*x);
    }
    proof {
        assert(all.take(all.len() as int) =~= all);
        assert(vstd::std_specs::hash::spec_hash_keys_iter(s).remaining().unref() =~= all);
    }
    v
}

} // verus!
