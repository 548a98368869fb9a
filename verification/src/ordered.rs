//! Ordered walks of integer sets and maps.

use std::collections::BTreeSet;
use vstd::prelude::*;
use vstd::std_specs::cmp::OrdSpec;
use vstd::std_specs::iter::IteratorSpec;

verus! {

broadcast use vstd::std_specs::btree::group_btree_axioms;

/// Whether the numbers ascend strictly.
pub open spec fn ascending(s: Seq<u64>) -> bool {
    forall|i: int, j: int| 0 <= i < j < s.len() ==> s[i] < s[j]
}

/// The members of `set`, ascending.
pub fn ascending_members(set: &BTreeSet<u64>) -> (members: Vec<u64>)
    ensures
        members@.to_set() == set@,
        ascending(members@),
{
    broadcast use vstd::laws_cmp::group_laws_cmp;

    let ghost keys = vstd::std_specs::btree::spec_btree_keys_iter(set).remaining();
    let mut members: Vec<u64> = Vec::new();
    for key in it: set.iter()
        invariant
            it.seq() == keys,
            members.len() == it.index(),
            forall|i: int| 0 <= i < members.len() ==> members[i] == *(#[trigger] keys[i]),
    {
        members.push(*key);
    }
    proof {
        assert(members@ =~= keys.unref());
        assert(vstd::laws_cmp::obeys_cmp::<&u64>());
        assert(vstd::std_specs::btree::increasing_seq(keys));
        assert forall|i: int, j: int| 0 <= i < j < members.len() implies members[i]
            < members[j] by {
            assert(OrdSpec::cmp_spec(&keys[i], &keys[j]) is Less);
        }
    }
    members
}

} // verus!
