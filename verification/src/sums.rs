//! The sum of the values of a finite map, and how it follows the map.

use crate::policy::sum_of;
use vstd::prelude::*;

verus! {

/// The sum of the values of a finite map.
pub open spec fn map_sum<K>(m: Map<K, nat>) -> nat
    decreases m.dom().len(),
    when m.dom().finite()
{
    if m.dom().len() == 0 {
        0
    } else {
        let key = m.dom().choose();
        m[key] + map_sum(m.remove(key))
    }
}

/// Any one entry can be taken out of the sum first.
pub proof fn lemma_map_sum_remove<K>(m: Map<K, nat>, key: K)
    requires
        m.dom().finite(),
        m.contains_key(key),
    ensures
        map_sum(m) == m[key] + map_sum(m.remove(key)),
    decreases m.dom().len(),
{
    let chosen = m.dom().choose();
    if chosen != key {
        let rest = m.remove(chosen);
        lemma_map_sum_remove(rest, key);
        lemma_map_sum_remove(m.remove(key), chosen);
        assert(rest.remove(key) =~= m.remove(key).remove(chosen));
    }
}

/// Putting a value under a key replaces what that key gave to the sum.
pub proof fn lemma_map_sum_insert<K>(m: Map<K, nat>, key: K, value: nat)
    requires
        m.dom().finite(),
    ensures
        m.insert(key, value).dom().finite(),
        m.contains_key(key) ==> map_sum(m.insert(key, value)) + m[key] == map_sum(m) + value,
        !m.contains_key(key) ==> map_sum(m.insert(key, value)) == map_sum(m) + value,
{
    let put = m.insert(key, value);
    lemma_map_sum_remove(put, key);
    assert(put.remove(key) =~= m.remove(key));
    if m.contains_key(key) {
        lemma_map_sum_remove(m, key);
    } else {
        assert(m.remove(key) =~= m);
    }
}

/// The amounts of a list of entries, in the order of the list.
pub open spec fn amounts_of(listed: Seq<(Seq<u8>, u128)>) -> Seq<u128> {
    Seq::new(listed.len(), |i: int| listed[i].1)
}

/// A list that holds every entry of a map once adds up to the sum of the
/// map, and so the map is finite.
pub proof fn lemma_listed_sum(m: Map<Seq<u8>, nat>, listed: Seq<(Seq<u8>, u128)>)
    requires
        forall|i: int| 0 <= i < listed.len() ==> m.contains_key((#[trigger] listed[i]).0) && m[listed[i].0] == listed[i].1,
        forall|key: Seq<u8>| #[trigger] m.contains_key(key) ==> exists|i: int| 0 <= i < listed.len() && (#[trigger] listed[i]).0 == key,
        forall|i: int, j: int| 0 <= i < j < listed.len() ==> (#[trigger] listed[i]).0 != (#[trigger] listed[j]).0,
    ensures
        m.dom().finite(),
        map_sum(m) == sum_of(amounts_of(listed)),
    decreases listed.len(),
{
    if listed.len() == 0 {
        assert(m.dom() =~= Set::<Seq<u8>>::empty());
    } else {
        let last = listed.last();
        let front = listed.drop_last();
        let rest = m.remove(last.0);
        assert forall|i: int| 0 <= i < front.len() implies rest.contains_key(
            (#[trigger] front[i]).0,
        ) && rest[front[i].0] == front[i].1 by {
            assert(front[i] == listed[i]);
            assert(listed[i].0 != listed[listed.len() - 1].0);
        }
        assert forall|key: Seq<u8>| #[trigger] rest.contains_key(key) implies exists|i: int|
            0 <= i < front.len() && (#[trigger] front[i]).0 == key by {
            assert(m.contains_key(key));
            let i = choose|i: int| 0 <= i < listed.len() && (#[trigger] listed[i]).0 == key;
            assert(i < front.len());
            assert(front[i] == listed[i]);
        }
        assert forall|i: int, j: int| 0 <= i < j < front.len() implies (#[trigger] front[i]).0 != (
        #[trigger] front[j]).0 by {
            assert(front[i] == listed[i]);
            assert(front[j] == listed[j]);
        }
        lemma_listed_sum(rest, front);
        assert(m.dom() =~= rest.dom().insert(last.0));
        lemma_map_sum_remove(m, last.0);
        assert(amounts_of(listed).drop_last() =~= amounts_of(front));
    }
}

} // verus!
