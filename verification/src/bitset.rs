//! What this library relies on from the `fixedbitset` crate.
//!
//! Nothing in this file is proved: each item states, of one function of
//! `FixedBitSet`, what its source shows.

use fixedbitset::FixedBitSet;
use vstd::prelude::*;

verus! {

/// `fixedbitset::FixedBitSet`, a set of bits of a fixed length. Nothing of
/// its fields is known here; what it holds is spoken of through `bits`.
#[verifier::external_type_specification]
#[verifier::external_body]
pub struct ExFixedBitSet(fixedbitset::FixedBitSet);

/// The bits of a set, in index order. The sequence is as long as the set's
/// length in bits.
pub uninterp spec fn bits(set: FixedBitSet) -> Seq<bool>;

/// Whether bit `k` of a block is set.
pub open spec fn block_bit(block: u32, k: u32) -> bool {
    block & (1u32 << k) != 0
}

/// Whether `blocks` is the packed form of `bits`: blocks of 32 bits, the
/// lowest bit of a block first.
pub open spec fn packs(blocks: Seq<u32>, bits: Seq<bool>) -> bool {
    &&& blocks.len() == (bits.len() + 31) / 32
    &&& forall|i: int|
        0 <= i < bits.len() ==> bits[i] == block_bit(#[trigger] blocks[i / 32], (i % 32) as u32)
}

/// `FixedBitSet::with_capacity` returns a set of `length` bits, all of them
/// clear.
pub assume_specification[ FixedBitSet::with_capacity ](length: usize) -> (set: FixedBitSet)
    ensures
        bits(set) == Seq::new(length as nat, |i: int| false),
;

/// `FixedBitSet::set` panics when `bit` is not below the set's length.
/// Otherwise it writes `enabled` to that bit and leaves the others as they
/// were.
pub assume_specification[ FixedBitSet::set ](set: &mut FixedBitSet, bit: usize, enabled: bool)
    requires
        bit < bits(*old(set)).len(),
    ensures
        bits(*final(set)) == bits(*old(set)).update(bit as int, enabled),
;

/// `FixedBitSet::contains` returns the bit at `bit`, and `false` for an
/// index that is not below the set's length.
pub assume_specification[ FixedBitSet::contains ](set: &FixedBitSet, bit: usize) -> (enabled: bool)
    ensures
        enabled == (bit < bits(*set).len() && bits(*set)[bit as int]),
;

/// `Clone::clone` on a `FixedBitSet` returns a set with the same bits.
pub assume_specification[ <FixedBitSet as Clone>::clone ](set: &FixedBitSet) -> (copy: FixedBitSet)
    ensures
        bits(copy) == bits(*set),
;

/// `FixedBitSet::as_slice` lends the blocks that hold the bits: one block
/// for every 32 bits of the set's length, the last one begun or full, and
/// bit `i` of the set in bit `i % 32` of block `i / 32`.
pub assume_specification[ FixedBitSet::as_slice ](set: &FixedBitSet) -> (blocks: &[u32])
    ensures
        packs(blocks@, bits(*set)),
;

} // verus!
