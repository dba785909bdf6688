//! Arithmetic between leaf ordinals, node positions and accumulator sizes.
use vstd::prelude::*;

verus! {

/// Leaf ordinals below this bound have positions, and accumulators that end
/// with them have sizes, below the size limit.
pub const LEAF_LIMIT: u64 = 0x3FFF_FFFF_FFFF_FFFF;

/// Sizes and positions at or above this bound are refused by the engine's
/// callers: the engine's search for the peaks of such a size shifts a bit
/// out of `u64`.
pub const SIZE_LIMIT: u64 = 0x7FFF_FFFF_FFFF_FFFF;

/// The number of one bits in the binary form of `n`.
pub open spec fn ones(n: nat) -> nat
    decreases n,
{
    if n == 0 {
        0
    } else {
        (n % 2) + ones(n / 2)
    }
}

/// The number of zero bits below the lowest one bit of `n`; 0 for `n == 0`.
pub open spec fn low_zeros(n: nat) -> nat
    decreases n,
{
    if n == 0 || n % 2 == 1 {
        0
    } else {
        1 + low_zeros(n / 2)
    }
}

/// The size of the accumulator that holds exactly `leaves` leaves: every leaf
/// but one per peak brings one internal node with it.
pub open spec fn size_of_leaves(leaves: nat) -> int {
    2 * leaves - ones(leaves)
}

/// The position of leaf `index`: it is the lowest node of the last peak of
/// the accumulator that ends with it.
pub open spec fn pos_of_leaf(index: nat) -> int {
    size_of_leaves(index + 1) - low_zeros(index + 1) - 1
}

/// `ckb_merkle_mountain_range::helper::leaf_index_to_mmr_size` doubles the
/// number of leaves `index + 1` and takes off `count_ones` of it. Ordinals
/// whose doubling leaves `u64` are kept out.
#[verifier::external_body]
fn engine_size_for(index: u64) -> (size: u64)
    requires
        index < LEAF_LIMIT,
    ensures
        size == size_of_leaves((index + 1) as nat),
{
    ckb_merkle_mountain_range::helper::leaf_index_to_mmr_size(index)
}

/// `ckb_merkle_mountain_range::helper::leaf_index_to_pos` takes
/// `trailing_zeros` of `index + 1`, and one more, off the size that
/// `leaf_index_to_mmr_size` gives for `index`.
#[verifier::external_body]
fn engine_pos_for(index: u64) -> (pos: u64)
    requires
        index < LEAF_LIMIT,
    ensures
        pos == pos_of_leaf(index as nat),
{
    ckb_merkle_mountain_range::helper::leaf_index_to_pos(index)
}

/// Counting up by one turns the low one bits into zeros: what the count of
/// ones loses, the low zeros of the successor gain, but for one.
pub proof fn lemma_ones_successor(n: nat)
    ensures
        ones(n + 1) + low_zeros(n + 1) == ones(n) + 1,
    decreases n,
{
    if n % 2 == 1 {
        lemma_ones_successor(n / 2);
        assert((n + 1) / 2 == n / 2 + 1);
        assert((n + 1) % 2 == 0);
    } else {
        assert((n + 1) / 2 == n / 2);
        assert((n + 1) % 2 == 1);
    }
}

/// A positive number has at least one one bit, and its one bits and low zero
/// bits together are no more than the number itself.
pub proof fn lemma_ones_bounds(n: nat)
    ensures
        ones(n) <= n,
        n > 0 ==> ones(n) >= 1,
        ones(n) + low_zeros(n) <= n,
    decreases n,
{
    if n > 0 {
        lemma_ones_bounds(n / 2);
    }
}

/// The position of a leaf is the size of the accumulator just before the
/// leaf was pushed; the first leaf stands at position 0.
pub proof fn lemma_leaf_stands_at_previous_size(index: nat)
    ensures
        pos_of_leaf(index) == size_of_leaves(index),
        pos_of_leaf(0) == 0,
{
    lemma_ones_successor(index);
    assert(ones(0) == 0);
}

/// A leaf lies inside the smallest accumulator that holds it, and that
/// accumulator is larger than the one before it: positions and sizes grow
/// strictly with the ordinal.
pub proof fn lemma_leaf_inside_its_size(index: nat)
    ensures
        0 <= pos_of_leaf(index) < size_of_leaves(index + 1),
        size_of_leaves(index) < size_of_leaves(index + 1),
        pos_of_leaf(index) < pos_of_leaf(index + 1),
        size_of_leaves(index + 1) <= 2 * (index + 1) - 1,
{
    lemma_leaf_stands_at_previous_size(index);
    lemma_leaf_stands_at_previous_size(index + 1);
    lemma_ones_successor(index);
    lemma_ones_bounds(index);
    lemma_ones_bounds(index + 1);
}

/// Positions grow with the ordinal: an earlier leaf stands before a later one.
pub proof fn lemma_positions_increase(i: nat, j: nat)
    requires
        i < j,
    ensures
        pos_of_leaf(i) < pos_of_leaf(j),
        size_of_leaves(i + 1) <= size_of_leaves(j),
    decreases j,
{
    lemma_leaf_inside_its_size((j - 1) as nat);
    lemma_leaf_stands_at_previous_size(j);
    if i < j - 1 {
        lemma_positions_increase(i, (j - 1) as nat);
    }
}

/// The smallest accumulator size that holds leaves `0..=index`.
pub fn leaf_index_to_mmr_size(index: u64) -> (size: u64)
    requires
        index < LEAF_LIMIT,
    ensures
        size == size_of_leaves((index + 1) as nat),
        index < size < SIZE_LIMIT,
{
    proof {
        lemma_leaf_inside_its_size(index as nat);
        lemma_ones_bounds((index + 1) as nat);
    }
    engine_size_for(index)
}

/// The node position of leaf `index`.
pub fn leaf_index_to_pos(index: u64) -> (pos: u64)
    requires
        index < LEAF_LIMIT,
    ensures
        pos == pos_of_leaf(index as nat),
        pos == size_of_leaves(index as nat),
        index <= pos < size_of_leaves((index + 1) as nat),
        pos < SIZE_LIMIT,
{
    proof {
        lemma_leaf_inside_its_size(index as nat);
        lemma_leaf_stands_at_previous_size(index as nat);
        lemma_ones_bounds(index as nat);
    }
    engine_pos_for(index)
}

/// Where ingestion goes on: the size of what is stored, and the next ordinal.
#[derive(Clone, Copy, Debug, PartialEq, Eq, Structural)]
pub struct ResumePoint {
    pub mmr_size: u64,
    pub leaf_next: u64,
}

/// The point to go on from, given the highest ordinal that the store holds:
/// after it, or at the very start where the store is empty.
pub fn resume_point(stored_max: Option<u64>) -> (point: ResumePoint)
    requires
        stored_max matches Some(leaf) ==> leaf < LEAF_LIMIT,
    ensures
        stored_max is None ==> point == (ResumePoint { mmr_size: 0, leaf_next: 0 }),
        stored_max matches Some(leaf) ==> point.leaf_next == leaf + 1 && point.mmr_size
            == size_of_leaves((leaf + 1) as nat),
        point.mmr_size == size_of_leaves(point.leaf_next as nat),
        point.mmr_size < SIZE_LIMIT,
{
    match stored_max {
        Some(leaf) => ResumePoint { mmr_size: leaf_index_to_mmr_size(leaf), leaf_next: leaf + 1 },
        None => {
            assert(ones(0) == 0);
            ResumePoint { mmr_size: 0, leaf_next: 0 }
        },
    }
}

} // verus!
