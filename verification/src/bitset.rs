//! Trusted interface to `fixedbitset::FixedBitSet`.
//!
//! The grid tracks its modified cells and the automaton tracks its dirty
//! work set in fixed-capacity bitsets. The bitset itself is outside code;
//! everything the rest of the crate knows about one is stated here, over
//! two uninterpreted views: the set of enabled bit indices and the fixed
//! capacity the bitset was created with.

use vstd::prelude::*;

verus! {

#[verifier::external_type_specification]
#[verifier::external_body]
pub struct ExFixedBitSet(fixedbitset::FixedBitSet);

/// The set of bit indices currently enabled in `b`.
pub uninterp spec fn bits_of(b: fixedbitset::FixedBitSet) -> Set<int>;

/// The number of bits `b` was created with; `FixedBitSet::insert` panics at
/// or beyond this index.
pub uninterp spec fn bit_capacity(b: fixedbitset::FixedBitSet) -> nat;

/// Relies on FixedBitSet::with_capacity: a bitset with the given number of
/// bits, all initially clear.
pub assume_specification[ fixedbitset::FixedBitSet::with_capacity ](bits: usize) -> (r:
    fixedbitset::FixedBitSet)
    ensures
        bit_capacity(r) == bits,
        bits_of(r) == Set::<int>::empty(),
;

/// Relies on FixedBitSet::insert: enables one bit, and panics if the index
/// is at or beyond the capacity, so that case is required away.
pub assume_specification[ fixedbitset::FixedBitSet::insert ](b: &mut fixedbitset::FixedBitSet,
    bit: usize)
    requires
        bit < bit_capacity(*old(b)),
    ensures
        bit_capacity(*final(b)) == bit_capacity(*old(b)),
        bits_of(*final(b)) == bits_of(*old(b)).insert(bit as int),
;

/// Relies on FixedBitSet::clear: disables every bit and keeps the capacity.
pub assume_specification[ fixedbitset::FixedBitSet::clear ](b: &mut fixedbitset::FixedBitSet)
    ensures
        bit_capacity(*final(b)) == bit_capacity(*old(b)),
        bits_of(*final(b)) == Set::<int>::empty(),
;

/// Relies on FixedBitSet::is_clear: true exactly when no bit is enabled.
pub assume_specification[ fixedbitset::FixedBitSet::is_clear ](b: &fixedbitset::FixedBitSet) -> (r:
    bool)
    ensures
        r <==> bits_of(*b).is_empty(),
;

/// Relies on FixedBitSet::ones: iterates the enabled bit indices in
/// ascending order; collected here into a vector.
#[verifier::external_body]
pub fn collect_ones(b: &fixedbitset::FixedBitSet) -> (r: Vec<usize>)
    ensures
        forall|i: int| 0 <= i < r@.len() ==> bits_of(*b).contains(#[trigger] r@[i] as int),
        forall|k: int|
            bits_of(*b).contains(k) ==> exists|i: int| 0 <= i < r@.len() && (#[trigger] r@[i]) == k,
        forall|i: int, j: int| 0 <= i < j < r@.len() ==> r@[i] < r@[j],
{
    b.ones().collect()
}

} // verus!
