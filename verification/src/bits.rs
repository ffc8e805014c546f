//! The bit storage underneath `HalfMatrix`: `hibitset::BitSet`, an
//! indexable, capacity-bounded boolean store. Everything the rest of the
//! crate knows about it is stated here, over the set of indices whose bits
//! are set.

use vstd::prelude::*;

verus! {

/// One past the largest index a `hibitset::BitSet` can hold: its top summary
/// layer is a single machine word, which caps the addressable range at
/// `64^4` bits. Asking for an index at or past this limit panics.
pub const BIT_INDEX_LIMIT: u32 = 0x0100_0000;

#[verifier::external_type_specification]
#[verifier::external_body]
pub struct ExBitSet(hibitset::BitSet);

/// The set of indices whose bits are set in a `hibitset::BitSet`.
pub uninterp spec fn bit_set_contents(s: hibitset::BitSet) -> Set<u32>;

/// Relies on `hibitset::BitSet::with_capacity`: builds a set with no bit
/// set, preallocated for indices up to `max`. It panics past the
/// addressable limit, which the precondition rules out.
#[verifier::external_body]
pub(crate) fn bit_set_with_capacity(max: u32) -> (s: hibitset::BitSet)
    requires
        max <= BIT_INDEX_LIMIT,
    ensures
        bit_set_contents(s) == Set::<u32>::empty(),
{
    hibitset::BitSet::with_capacity(max)
}

/// Relies on `hibitset::BitSet::add`: sets the bit at `id` and reports
/// whether it was already set. It grows the backing layers as needed and
/// panics past the addressable limit, which the precondition rules out.
#[verifier::external_body]
pub(crate) fn bit_set_add(s: &mut hibitset::BitSet, id: u32) -> (was_set: bool)
    requires
        id < BIT_INDEX_LIMIT,
    ensures
        bit_set_contents(*final(s)) == bit_set_contents(*old(s)).insert(id),
        was_set == bit_set_contents(*old(s)).contains(id),
{
    s.add(id)
}

/// Relies on `hibitset::BitSet::remove`: clears the bit at `id` and reports
/// whether it was set. Indices the set never held are reported as absent,
/// for any `id`.
#[verifier::external_body]
pub(crate) fn bit_set_remove(s: &mut hibitset::BitSet, id: u32) -> (was_set: bool)
    ensures
        bit_set_contents(*final(s)) == bit_set_contents(*old(s)).remove(id),
        was_set == bit_set_contents(*old(s)).contains(id),
{
    s.remove(id)
}

/// Relies on `hibitset::BitSet::contains`: reports whether the bit at `id`
/// is set, for any `id`.
#[verifier::external_body]
pub(crate) fn bit_set_contains(s: &hibitset::BitSet, id: u32) -> (present: bool)
    ensures
        present == bit_set_contents(*s).contains(id),
{
    s.contains(id)
}

} // verus!
