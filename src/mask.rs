//! Presence masks: the set of cell ids that hold a value, kept in a
//! hierarchical bitset.
use hibitset::{BitSet, BitSetLike};
use vstd::prelude::*;

verus! {

#[verifier::external_type_specification]
#[verifier::external_body]
pub struct ExBitSet(BitSet);

/// The ids that a bitset holds.
pub uninterp spec fn bits_of(b: BitSet) -> Set<u32>;

/// `s` lists ids in strictly ascending order, so none of them twice.
pub open spec fn strictly_ascending(s: Seq<u32>) -> bool {
    forall|i: int, j: int| 0 <= i < j < s.len() ==> s[i] < s[j]
}

/// `s` lists exactly the ids of `set`, in ascending order.
pub open spec fn lists_ascending(s: Seq<u32>, set: Set<u32>) -> bool {
    &&& strictly_ascending(s)
    &&& forall|i: int| 0 <= i < s.len() ==> set.contains(#[trigger] s[i])
    &&& forall|id: u32| set.contains(id) ==> s.contains(id)
}

/// Relies on `BitSet::new`: a new set is empty.
#[verifier::external_body]
pub(crate) fn mask_new() -> (r: BitSet)
    ensures
        bits_of(r) == Set::<u32>::empty(),
{
    BitSet::new()
}

/// Relies on `BitSet::contains`: whether `id` is in the set.
#[verifier::external_body]
pub(crate) fn mask_contains(b: &BitSet, id: u32) -> (r: bool)
    ensures
        r == bits_of(*b).contains(id),
{
    b.contains(id)
}

/// Relies on `BitSet::add`: `id` is in the set afterwards, nothing else
/// changes. It panics only for ids above `MAX_EID`, which is at least 2^20
/// (on 32-bit targets).
#[verifier::external_body]
pub(crate) fn mask_add(b: &mut BitSet, id: u32)
    requires
        id < 0x10_0000,
    ensures
        bits_of(*final(b)) == bits_of(*old(b)).insert(id),
{
    b.add(id);
}

/// Relies on `BitSet::remove`: `id` is not in the set afterwards, nothing
/// else changes.
#[verifier::external_body]
pub(crate) fn mask_remove(b: &mut BitSet, id: u32)
    ensures
        bits_of(*final(b)) == bits_of(*old(b)).remove(id),
{
    b.remove(id);
}

/// Relies on `BitSetLike::iter` for `&BitSet`: each id of the set, once, in
/// ascending order. The iterator walks only the first word of the top layer,
/// so this holds for sets whose ids all lie below 2^20 (the bound that
/// `mask_add` keeps).
#[verifier::external_body]
pub(crate) fn mask_ids(b: &BitSet) -> (r: Vec<u32>)
    requires
        forall|i: u32| #[trigger] bits_of(*b).contains(i) ==> i < 0x10_0000,
    ensures
        lists_ascending(r@, bits_of(*b)),
{
    b.iter().collect()
}

/// Relies on `&BitSet & &BitSet` (a `BitSetAnd`) and its `iter`: each id that
/// both sets hold, once, in ascending order, for sets whose ids lie below
/// 2^20, as for `mask_ids`.
#[verifier::external_body]
pub(crate) fn mask_and_ids(a: &BitSet, b: &BitSet) -> (r: Vec<u32>)
    requires
        forall|i: u32| #[trigger] bits_of(*a).contains(i) ==> i < 0x10_0000,
    ensures
        lists_ascending(r@, bits_of(*a).intersect(bits_of(*b))),
{
    (a & b).iter().collect()
}

} // verus!
