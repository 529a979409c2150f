//! The keys of ordered collections, in ascending order.

use std::collections::{BTreeMap, BTreeSet};

use vstd::prelude::*;

verus! {

/// Whether every byte is larger than the one before it.
pub open spec fn is_ascending_u8(keys: Seq<u8>) -> bool {
    forall|i: int, j: int| 0 <= i < j < keys.len() ==> keys[i] < keys[j]
}

/// Whether every number is larger than the one before it.
pub open spec fn is_ascending_u64(keys: Seq<u64>) -> bool {
    forall|i: int, j: int| 0 <= i < j < keys.len() ==> keys[i] < keys[j]
}

proof fn lemma_increasing_u8(keys: Seq<&u8>)
    requires
        vstd::std_specs::btree::increasing_seq(keys),
    ensures
        is_ascending_u8(keys.unref()),
{
    broadcast use vstd::std_specs::btree::group_btree_axioms;
    broadcast use vstd::laws_cmp::group_laws_cmp;

    assert(vstd::laws_cmp::obeys_cmp::<u8>());
    assert(vstd::laws_cmp::obeys_cmp::<&u8>());
    assert forall|i: int, j: int| 0 <= i < j < keys.len() implies keys.unref()[i]
        < keys.unref()[j] by {
        assert(vstd::std_specs::cmp::OrdSpec::cmp_spec(&keys[i], &keys[j]) is Less);
    }
}

proof fn lemma_increasing_u64(keys: Seq<&u64>)
    requires
        vstd::std_specs::btree::increasing_seq(keys),
    ensures
        is_ascending_u64(keys.unref()),
{
    broadcast use vstd::std_specs::btree::group_btree_axioms;
    broadcast use vstd::laws_cmp::group_laws_cmp;

    assert(vstd::laws_cmp::obeys_cmp::<u64>());
    assert(vstd::laws_cmp::obeys_cmp::<&u64>());
    assert forall|i: int, j: int| 0 <= i < j < keys.len() implies keys.unref()[i]
        < keys.unref()[j] by {
        assert(vstd::std_specs::cmp::OrdSpec::cmp_spec(&keys[i], &keys[j]) is Less);
    }
}

/// The keys of a map in ascending order.
pub fn u8_keys<V>(map: &BTreeMap<u8, V>) -> (keys: Vec<u8>)
    ensures
        is_ascending_u8(keys@),
        forall|key: u8| #[trigger] keys@.contains(key) <==> map@.contains_key(key),
{
    let mut keys: Vec<u8> = Vec::new();
    for key in iterator: map.keys()
        invariant
            iterator.seq() == vstd::std_specs::iter::IteratorSpec::remaining(
                &vstd::std_specs::btree::spec_keys_iter(map),
            ),
            keys@ =~= iterator.seq().take(iterator.index() as int).unref(),
    {
        keys.push(*key);
    }
    proof {
        let all = vstd::std_specs::iter::IteratorSpec::remaining(
                &vstd::std_specs::btree::spec_keys_iter(map),
            );
        broadcast use vstd::std_specs::btree::axiom_spec_keys_iter;

        assert(keys@ =~= all.unref());
        lemma_increasing_u8(all);
        assert forall|key: u8| #[trigger] keys@.contains(key) <==> map@.contains_key(key) by {
            assert(all.unref().to_set().contains(key) <==> keys@.contains(key));
        }
    }
    keys
}

/// The keys of a map in ascending order.
pub fn u64_keys<V>(map: &BTreeMap<u64, V>) -> (keys: Vec<u64>)
    ensures
        is_ascending_u64(keys@),
        forall|key: u64| #[trigger] keys@.contains(key) <==> map@.contains_key(key),
{
    let mut keys: Vec<u64> = Vec::new();
    for key in iterator: map.keys()
        invariant
            iterator.seq() == vstd::std_specs::iter::IteratorSpec::remaining(
                &vstd::std_specs::btree::spec_keys_iter(map),
            ),
            keys@ =~= iterator.seq().take(iterator.index() as int).unref(),
    {
        keys.push(*key);
    }
    proof {
        let all = vstd::std_specs::iter::IteratorSpec::remaining(
                &vstd::std_specs::btree::spec_keys_iter(map),
            );
        broadcast use vstd::std_specs::btree::axiom_spec_keys_iter;

        assert(keys@ =~= all.unref());
        lemma_increasing_u64(all);
        assert forall|key: u64| #[trigger] keys@.contains(key) <==> map@.contains_key(key) by {
            assert(all.unref().to_set().contains(key) <==> keys@.contains(key));
        }
    }
    keys
}

/// The members of a set in ascending order.
pub fn u8_members(set: &BTreeSet<u8>) -> (members: Vec<u8>)
    ensures
        is_ascending_u8(members@),
        forall|member: u8| #[trigger] members@.contains(member) <==> set@.contains(member),
{
    let mut members: Vec<u8> = Vec::new();
    for member in iterator: set.iter()
        invariant
            iterator.seq() == vstd::std_specs::iter::IteratorSpec::remaining(
                &vstd::std_specs::btree::spec_btree_keys_iter(set),
            ),
            members@ =~= iterator.seq().take(iterator.index() as int).unref(),
    {
        members.push(*member);
    }
    proof {
        let all = vstd::std_specs::iter::IteratorSpec::remaining(
                &vstd::std_specs::btree::spec_btree_keys_iter(set),
            );
        broadcast use vstd::std_specs::btree::axiom_spec_btree_keys_iter;

        assert(members@ =~= all.unref());
        lemma_increasing_u8(all);
        assert forall|member: u8| #[trigger]
            members@.contains(member) <==> set@.contains(member) by {
            assert(all.unref().to_set().contains(member) <==> members@.contains(member));
        }
    }
    members
}

} // verus!
