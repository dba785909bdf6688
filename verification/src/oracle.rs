//! Enumerating leaf subsets and holding the engine's proofs against its roots.
use vstd::prelude::*;
use crate::engine::{
    accepted, calculated_root, gen_proof, get_root, refused, verdict, verify, EngineError, Proof,
};
use crate::policy::PeakOrder;
use crate::position::{
    leaf_index_to_mmr_size, leaf_index_to_pos, pos_of_leaf, size_of_leaves, LEAF_LIMIT, SIZE_LIMIT,
};
use crate::scope::NumberScope;
use ckb_merkle_mountain_range::util::MemStore;

verus! {

/// The largest leaf count whose subsets a 128-bit mask can count through.
pub const MAX_LEAF_COUNT: u64 = 127;

/// What a run does when a proof fails its check.
#[derive(Clone, Copy, Debug, PartialEq, Eq, Structural)]
pub enum OnMismatch {
    /// Stop at the first failure.
    Halt,
    /// Note the failure and go on.
    LogAndContinue,
}

/// `mask` with its lowest `times` bits dropped.
pub open spec fn halved(mask: nat, times: nat) -> nat
    decreases times,
{
    if times == 0 {
        mask
    } else {
        halved(mask / 2, (times - 1) as nat)
    }
}

/// Whether bit `leaf` of `mask` is set.
pub open spec fn has_leaf(mask: nat, leaf: nat) -> bool {
    halved(mask, leaf) % 2 == 1
}

/// Two to the power `n`.
pub open spec fn two_to(n: nat) -> nat
    decreases n,
{
    if n == 0 {
        1
    } else {
        2 * two_to((n - 1) as nat)
    }
}

/// The leaves that `mask` selects among the first `count`, in rising order.
pub open spec fn subset(mask: nat, count: nat) -> Seq<u64>
    decreases count,
{
    if count == 0 {
        Seq::empty()
    } else if has_leaf(mask, (count - 1) as nat) {
        subset(mask, (count - 1) as nat).push((count - 1) as u64)
    } else {
        subset(mask, (count - 1) as nat)
    }
}

/// The values of `items` that are not normalized, in their order.
pub open spec fn abnormal(items: Seq<NumberScope>) -> Seq<NumberScope>
    decreases items.len(),
{
    if items.len() == 0 {
        Seq::empty()
    } else if !items.last().normalized() {
        abnormal(items.drop_last()).push(items.last())
    } else {
        abnormal(items.drop_last())
    }
}

/// Each leaf with its position and its value, as a proof is checked with.
pub open spec fn entries(leaves: Seq<u64>) -> Seq<(u64, NumberScope)> {
    Seq::new(leaves.len(), |i: int| (pos_of_leaf(leaves[i] as nat) as u64, NumberScope::leaf(leaves[i])))
}

/// Whether every ordinal of `leaves` is below the leaf limit.
pub open spec fn ordinals_in_range(leaves: Seq<u64>) -> bool {
    forall|i: int| 0 <= i < leaves.len() ==> leaves[i] < LEAF_LIMIT
}

/// Dropping one more bit halves what is left.
pub proof fn lemma_halved_step(mask: nat, times: nat)
    ensures
        halved(mask, times + 1) == halved(mask, times) / 2,
    decreases times,
{
    assert(halved(mask, times + 1) == halved(mask / 2, times));
    if times > 0 {
        lemma_halved_step(mask / 2, (times - 1) as nat);
        assert(halved(mask, times) == halved(mask / 2, (times - 1) as nat));
    } else {
        assert(halved(mask / 2, 0) == mask / 2);
    }
}

/// The masks below `two_to(n)` have bit `n` clear, and `two_to(n)` is the
/// first mask that has it set: a counter that starts at 1 and stops at the
/// first mask with bit `n` set passes through every non-empty subset of `n`
/// leaves, the full one last, and through nothing else.
pub proof fn lemma_counter_bounds(mask: nat, n: nat)
    ensures
        mask < two_to(n) ==> halved(mask, n) == 0 && !has_leaf(mask, n),
        halved(two_to(n), n) == 1 && has_leaf(two_to(n), n),
        two_to(n) >= 1,
    decreases n,
{
    if n > 0 {
        lemma_counter_bounds(mask / 2, (n - 1) as nat);
        assert(two_to(n) / 2 == two_to((n - 1) as nat));
    }
}

/// A mask that is not zero and lies below `two_to(n)` selects at least one
/// of the first `n` leaves.
pub proof fn lemma_subset_not_empty(mask: nat, n: nat)
    requires
        0 < mask < two_to(n),
    ensures
        subset(mask, n).len() > 0,
    decreases n,
{
    if n > 0 {
        let m = (n - 1) as nat;
        if has_leaf(mask, m) {
        } else {
            lemma_halved_step(mask, m);
            lemma_counter_bounds(mask, n);
            assert(halved(mask, m) / 2 == 0);
            assert(halved(mask, m) == 0);
            lemma_not_halved_away(mask, m);
            lemma_subset_not_empty(mask, m);
        }
    }
}

/// What the dropped bits held is below `two_to(times)`: a mask of which
/// nothing is left after `times` halvings is below it.
pub proof fn lemma_not_halved_away(mask: nat, times: nat)
    requires
        halved(mask, times) == 0,
    ensures
        mask < two_to(times),
    decreases times,
{
    if times > 0 {
        lemma_not_halved_away(mask / 2, (times - 1) as nat);
    }
}

/// Every leaf that a subset names is among the first `count`, and the
/// subset rises strictly: no leaf comes twice.
pub proof fn lemma_subset_rises(mask: nat, count: nat)
    requires
        count <= u64::MAX,
    ensures
        forall|i: int| 0 <= i < subset(mask, count).len() ==> #[trigger] subset(mask, count)[i] < count,
        forall|i: int, j: int|
            0 <= i < j < subset(mask, count).len() ==> #[trigger] subset(mask, count)[i]
                < #[trigger] subset(mask, count)[j],
    decreases count,
{
    if count > 0 {
        let m = (count - 1) as nat;
        lemma_subset_rises(mask, m);
        let lower = subset(mask, m);
        let upper = subset(mask, count);
        assert(upper == if has_leaf(mask, m) {
            lower.push(m as u64)
        } else {
            lower
        });
        assert forall|i: int| 0 <= i < upper.len() implies #[trigger] upper[i] < count by {
            if i < lower.len() {
                assert(upper[i] == lower[i]);
            }
        }
        assert forall|i: int, j: int| 0 <= i < j < upper.len() implies #[trigger] upper[i]
            < #[trigger] upper[j] by {
            if j < lower.len() {
                assert(upper[i] == lower[i] && upper[j] == lower[j]);
            } else {
                assert(upper[i] == lower[i]);
            }
        }
    }
}

/// A subset names leaf `leaf` exactly when the mask has its bit set.
pub proof fn lemma_subset_tells_bits(mask: nat, count: nat, leaf: nat)
    requires
        leaf < count <= u64::MAX,
    ensures
        subset(mask, count).contains(leaf as u64) <==> has_leaf(mask, leaf),
    decreases count,
{
    let last = (count - 1) as nat;
    let lower = subset(mask, last);
    let upper = subset(mask, count);
    lemma_subset_rises(mask, last);
    if leaf < last {
        lemma_subset_tells_bits(mask, last, leaf);
    }
    if has_leaf(mask, last) {
        assert(upper == lower.push(last as u64));
        assert(upper[lower.len() as int] == last as u64);
        if lower.contains(leaf as u64) {
            let j = choose|j: int| 0 <= j < lower.len() && lower[j] == leaf as u64;
            assert(upper[j] == leaf as u64);
        }
        if upper.contains(leaf as u64) && leaf < last {
            let j = choose|j: int| 0 <= j < upper.len() && upper[j] == leaf as u64;
            assert(j < lower.len());
            assert(lower[j] == leaf as u64);
        }
    } else {
        assert(upper == lower);
        if upper.contains(leaf as u64) && leaf == last {
            let j = choose|j: int| 0 <= j < lower.len() && lower[j] == leaf as u64;
            assert(lower[j] < last);
        }
    }
}

/// Two masks below `two_to(n)` that agree on each of their first `n` bits
/// are the same mask.
pub proof fn lemma_bits_decide(mask1: nat, mask2: nat, n: nat)
    requires
        mask1 < two_to(n),
        mask2 < two_to(n),
        forall|i: nat| i < n ==> has_leaf(mask1, i) == has_leaf(mask2, i),
    ensures
        mask1 == mask2,
    decreases n,
{
    if n > 0 {
        let half1 = mask1 / 2;
        let half2 = mask2 / 2;
        assert forall|i: nat| i < n - 1 implies #[trigger] has_leaf(half1, i) == has_leaf(
            half2,
            i,
        ) by {
            assert(has_leaf(mask1, i + 1) == has_leaf(mask2, i + 1));
            assert(halved(mask1, i + 1) == halved(half1, i));
            assert(halved(mask2, i + 1) == halved(half2, i));
        }
        lemma_bits_decide(half1, half2, (n - 1) as nat);
        assert(has_leaf(mask1, 0) == has_leaf(mask2, 0));
        assert(halved(mask1, 0) == mask1 && halved(mask2, 0) == mask2);
    }
}

/// Different masks below `two_to(n)` select different subsets of the first
/// `n` leaves: a counter that passes through each mask once passes through
/// each subset once.
pub proof fn lemma_subsets_differ(mask1: nat, mask2: nat, n: nat)
    requires
        mask1 < two_to(n),
        mask2 < two_to(n),
        mask1 != mask2,
        n <= u64::MAX,
    ensures
        subset(mask1, n) != subset(mask2, n),
{
    if subset(mask1, n) == subset(mask2, n) {
        assert forall|i: nat| i < n implies has_leaf(mask1, i) == has_leaf(mask2, i) by {
            lemma_subset_tells_bits(mask1, n, i);
            lemma_subset_tells_bits(mask2, n, i);
        }
        lemma_bits_decide(mask1, mask2, n);
    }
}

/// The leaves that `mask` selects among the first `leaf_count`.
pub fn leaves_of_mask(mask: u128, leaf_count: u64) -> (leaves: Vec<u64>)
    ensures
        leaves@ == subset(mask as nat, leaf_count as nat),
{
    let mut leaves: Vec<u64> = Vec::new();
    let mut rest: u128 = mask;
    let mut i: u64 = 0;
    while i < leaf_count
        invariant
            i <= leaf_count,
            rest == halved(mask as nat, i as nat),
            leaves@ == subset(mask as nat, i as nat),
        decreases leaf_count - i,
    {
        proof {
            lemma_halved_step(mask as nat, i as nat);
        }
        if rest % 2 == 1 {
            leaves.push(i);
        }
        rest = rest / 2;
        i += 1;
    }
    leaves
}

/// Whether the counter has passed the last subset of `leaf_count` leaves:
/// bit `leaf_count` of `mask` is set.
pub fn subsets_done(mask: u128, leaf_count: u64) -> (done: bool)
    ensures
        done == has_leaf(mask as nat, leaf_count as nat),
{
    let mut rest: u128 = mask;
    let mut i: u64 = 0;
    while i < leaf_count && rest != 0
        invariant
            i <= leaf_count,
            rest == halved(mask as nat, i as nat),
        decreases leaf_count - i,
    {
        proof {
            lemma_halved_step(mask as nat, i as nat);
        }
        rest = rest / 2;
        i += 1;
    }
    proof {
        if i < leaf_count {
            lemma_nothing_left(mask as nat, i as nat, leaf_count as nat);
        }
    }
    rest % 2 == 1
}

/// Once nothing is left of a mask, nothing is left after more halvings.
pub proof fn lemma_nothing_left(mask: nat, i: nat, n: nat)
    requires
        i <= n,
        halved(mask, i) == 0,
    ensures
        halved(mask, n) == 0,
    decreases n - i,
{
    if i < n {
        lemma_halved_step(mask, i);
        lemma_nothing_left(mask, i + 1, n);
    }
}

/// The values of `items` that are not normalized.
pub fn abnormal_items(items: &Vec<NumberScope>) -> (out: Vec<NumberScope>)
    ensures
        out@ == abnormal(items@),
{
    let mut out: Vec<NumberScope> = Vec::new();
    let mut i: usize = 0;
    while i < items.len()
        invariant
            i <= items.len(),
            out@ == abnormal(items@.take(i as int)),
        decreases items.len() - i,
    {
        proof {
            assert(items@.take(i + 1).drop_last() =~= items@.take(i as int));
        }
        if !items[i].is_normalized() {
            out.push(items[i]);
        }
        i += 1;
    }
    proof {
        assert(items@.take(i as int) =~= items@);
    }
    out
}

/// Each leaf of `leaves` with its position and value, or `None` where an
/// ordinal is past the leaf limit.
pub fn leaf_entries(leaves: &Vec<u64>) -> (out: Option<Vec<(u64, NumberScope)>>)
    ensures
        out is Some <==> ordinals_in_range(leaves@),
        out matches Some(v) ==> v@ == entries(leaves@),
{
    let mut out: Vec<(u64, NumberScope)> = Vec::new();
    let mut i: usize = 0;
    while i < leaves.len()
        invariant
            i <= leaves.len(),
            out@.len() == i,
            forall|k: int| 0 <= k < i ==> leaves@[k] < LEAF_LIMIT,
            forall|k: int| 0 <= k < i ==> out@[k] == entries(leaves@)[k],
        decreases leaves.len() - i,
    {
        let leaf: u64 = leaves[i];
        if leaf >= LEAF_LIMIT {
            return None;
        }
        out.push((leaf_index_to_pos(leaf), NumberScope::new(leaf, leaf)));
        i += 1;
    }
    proof {
        assert(out@ =~= entries(leaves@));
    }
    Some(out)
}

/// The positions of `leaves`, in their order.
pub fn positions_of(leaves: &Vec<(u64, NumberScope)>) -> (out: Vec<u64>)
    ensures
        out@.len() == leaves@.len(),
        forall|i: int| 0 <= i < out@.len() ==> out@[i] == leaves@[i].0,
{
    let mut out: Vec<u64> = Vec::new();
    let mut i: usize = 0;
    while i < leaves.len()
        invariant
            i <= leaves.len(),
            out@.len() == i,
            forall|k: int| 0 <= k < i ==> out@[k] == leaves@[k].0,
        decreases leaves.len() - i,
    {
        out.push(leaves[i].0);
        i += 1;
    }
    out
}

/// What one proof cycle found.
#[derive(Debug)]
pub struct Outcome {
    /// The root of the accumulator.
    pub root: NumberScope,
    /// The proof that the engine gave for the leaves.
    pub proof: Proof,
    /// Whether the proof led back to the root.
    pub verified: bool,
}

impl Outcome {
    /// Whether the root or a value of the proof is not normalized.
    pub open spec fn anomalous(self) -> bool {
        !self.root.normalized() || abnormal(self.proof.items@).len() > 0
    }

    /// Whether the root or a value of the proof is not normalized.
    pub fn has_anomaly(&self) -> (out: bool)
        ensures
            out == self.anomalous(),
    {
        !self.root.is_normalized() || abnormal_items(&self.proof.items).len() > 0
    }
}

/// One proof cycle on the accumulator that holds the first `leaf_count`
/// leaves: takes its root, asks for a proof of `leaves` and checks it against
/// the root, all under `order`. A cycle that comes back reports the root, the
/// proof and whether the proof led to that root; a proof that does not is a
/// `false`, not an error. A leaf count or ordinal past the limit is refused
/// before the engine is asked, and nothing else is refused as out of range.
/// An accumulator without leaves has no root to check against.
pub fn test_data(
    store: &MemStore<NumberScope>,
    leaf_count: u64,
    leaves: &Vec<u64>,
    order: PeakOrder,
) -> (out: Result<Outcome, EngineError>)
    ensures
        leaf_count > LEAF_LIMIT || !ordinals_in_range(leaves@) <==> refused(
            out,
            EngineError::OutOfRange,
        ),
        leaf_count == 0 && ordinals_in_range(leaves@) ==> refused(
            out,
            EngineError::EmptyAccumulator,
        ),
        leaves@.len() == 0 ==> out is Err,
        out matches Ok(found) ==> found.proof.mmr_size == size_of_leaves(leaf_count as nat)
            && verdict(
            calculated_root(order, found.proof.mmr_size, found.proof.items@, entries(leaves@)),
            found.root,
        ) == accepted(found.verified),
        out is Ok ==> 1 <= leaf_count <= LEAF_LIMIT && leaves@.len() > 0,
{
    if leaf_count > LEAF_LIMIT {
        return Err(EngineError::OutOfRange);
    }
    let leaves_data = match leaf_entries(leaves) {
        Some(data) => data,
        None => {
            return Err(EngineError::OutOfRange);
        },
    };
    let mmr_size: u64 = if leaf_count == 0 {
        proof {
            assert(crate::position::ones(0) == 0);
        }
        0
    } else {
        leaf_index_to_mmr_size(leaf_count - 1)
    };
    let root = match get_root(store, mmr_size, order) {
        Ok(root) => root,
        Err(err) => {
            return Err(err);
        },
    };
    let positions = positions_of(&leaves_data);
    proof {
        assert forall|i: int| 0 <= i < leaves_data@.len() implies leaves_data@[i].0
            < SIZE_LIMIT by {
            crate::position::lemma_leaf_inside_its_size(leaves@[i] as nat);
            crate::position::lemma_ones_bounds((leaves@[i] + 1) as nat);
        }
    }
    let proof = match gen_proof(store, mmr_size, order, positions) {
        Ok(proof) => proof,
        Err(err) => {
            return Err(err);
        },
    };
    let verified = match verify(&proof, order, root, leaves_data) {
        Ok(verified) => verified,
        Err(err) => {
            return Err(err);
        },
    };
    Ok(Outcome { root, proof, verified })
}

/// What became of the subsets of one leaf count.
#[derive(Clone, Copy, Debug, PartialEq, Eq)]
pub struct Tally {
    /// How many subsets went through a proof cycle.
    pub tested: u128,
    /// How many of them showed a value that is not normalized.
    pub anomalous: u128,
    /// How many of them failed the check.
    pub mismatches: u128,
    /// The mask of the first subset that failed the check.
    pub first_mismatch: Option<u128>,
}

/// What a tally of the subsets of `leaf_count` leaves must look like under
/// `policy`: all `two_to(leaf_count) - 1` subsets are counted unless the run
/// halted, and a run that halted stopped at the subset that failed.
pub open spec fn tally_fits(tally: Tally, leaf_count: nat, policy: OnMismatch) -> bool {
    &&& tally.tested < two_to(leaf_count)
    &&& tally.anomalous <= tally.tested
    &&& tally.mismatches <= tally.tested
    &&& (tally.first_mismatch is None <==> tally.mismatches == 0)
    &&& (tally.first_mismatch matches Some(mask) ==> 1 <= mask <= tally.tested)
    &&& (tally.first_mismatch matches Some(mask) ==> policy == OnMismatch::Halt ==> tally.tested
        == mask && tally.mismatches == 1)
    &&& (tally.first_mismatch is None || policy == OnMismatch::LogAndContinue ==> tally.tested
        == two_to(leaf_count) - 1)
}

/// The tally with one more subset counted: the subset of `mask`, which
/// showed an anomaly or not and passed the check or not.
pub open spec fn tallied(tally: Tally, mask: u128, anomalous: bool, verified: bool) -> Tally {
    Tally {
        tested: (tally.tested + 1) as u128,
        anomalous: if anomalous {
            (tally.anomalous + 1) as u128
        } else {
            tally.anomalous
        },
        mismatches: if verified {
            tally.mismatches
        } else {
            (tally.mismatches + 1) as u128
        },
        first_mismatch: if !verified && tally.first_mismatch is None {
            Some(mask)
        } else {
            tally.first_mismatch
        },
    }
}

/// Counts the subset of `mask` into `tally`.
pub fn record(tally: Tally, mask: u128, anomalous: bool, verified: bool) -> (out: Tally)
    requires
        tally.tested < u128::MAX,
        tally.anomalous <= tally.tested,
        tally.mismatches <= tally.tested,
    ensures
        out == tallied(tally, mask, anomalous, verified),
{
    let mut out = tally;
    out.tested = tally.tested + 1;
    if anomalous {
        out.anomalous = tally.anomalous + 1;
    }
    if !verified {
        out.mismatches = tally.mismatches + 1;
        if tally.first_mismatch.is_none() {
            out.first_mismatch = Some(mask);
        }
    }
    out
}

/// Whether a run under `policy` ends after a subset that passed the check
/// or not: only a failed check ends it, and only under `Halt`.
pub fn halts(policy: OnMismatch, verified: bool) -> (out: bool)
    ensures
        out == (policy == OnMismatch::Halt && !verified),
{
    match policy {
        OnMismatch::Halt => !verified,
        OnMismatch::LogAndContinue => false,
    }
}

/// Powers of two multiply as their exponents add.
pub proof fn lemma_two_to_adds(a: nat, b: nat)
    ensures
        two_to(a + b) == two_to(a) * two_to(b),
    decreases b,
{
    if b > 0 {
        lemma_two_to_adds(a, (b - 1) as nat);
        assert(two_to(a + b) == 2 * two_to((a + b - 1) as nat));
        assert(2 * (two_to(a) * two_to((b - 1) as nat)) == two_to(a) * (2 * two_to((b - 1) as nat)))
            by (nonlinear_arith);
    } else {
        assert(two_to(a) * 1 == two_to(a));
    }
}

/// Powers of two grow with the exponent, and the one for the largest leaf
/// count fits 128 bits.
pub proof fn lemma_two_to_fits(n: nat)
    requires
        n <= MAX_LEAF_COUNT,
    ensures
        1 <= two_to(n) <= 0x8000_0000_0000_0000_0000_0000_0000_0000,
    decreases MAX_LEAF_COUNT - n,
{
    if n < MAX_LEAF_COUNT {
        lemma_two_to_fits(n + 1);
        assert(two_to(n + 1) == 2 * two_to(n));
    } else {
        reveal_with_fuel(two_to, 9);
        assert(two_to(8) == 0x100);
        lemma_two_to_adds(8, 8);
        assert(two_to(16) == 0x1_0000);
        lemma_two_to_adds(16, 16);
        assert(two_to(32) == 0x1_0000_0000);
        lemma_two_to_adds(32, 32);
        assert(two_to(64) == 0x1_0000_0000_0000_0000);
        lemma_two_to_adds(64, 32);
        assert(two_to(96) == 0x1_0000_0000_0000_0000_0000_0000);
        lemma_two_to_adds(96, 16);
        assert(two_to(112) == 0x1_0000_0000_0000_0000_0000_0000_0000);
        lemma_two_to_adds(112, 8);
        assert(two_to(120) == 0x100_0000_0000_0000_0000_0000_0000_0000);
        assert(two_to(7) == 0x80);
        lemma_two_to_adds(120, 7);
        assert(two_to(127) == 0x8000_0000_0000_0000_0000_0000_0000_0000);
    }
}

/// The tally of a run that went through `results`: for each subset in turn,
/// from mask 1 upwards, whether it showed an anomaly and whether it passed
/// the check.
pub open spec fn tally_of(results: Seq<(bool, bool)>) -> Tally
    decreases results.len(),
{
    if results.len() == 0 {
        Tally { tested: 0, anomalous: 0, mismatches: 0, first_mismatch: None }
    } else {
        tallied(
            tally_of(results.drop_last()),
            results.len() as u128,
            results.last().0,
            results.last().1,
        )
    }
}

/// Whether `results` can be the course of a finished run over the subsets of
/// `leaf_count` leaves under `policy`: it went through every subset, or it
/// halted at a failed check; and a run that halts has seen no failed check
/// before its last subset.
pub open spec fn run_course(results: Seq<(bool, bool)>, leaf_count: nat, policy: OnMismatch) -> bool {
    &&& results.len() < two_to(leaf_count)
    &&& (policy == OnMismatch::Halt ==> forall|i: int|
        0 <= i < results.len() - 1 ==> (#[trigger] results[i]).1)
    &&& (results.len() == two_to(leaf_count) - 1 || (policy == OnMismatch::Halt && results.len()
        > 0 && !results.last().1))
}

/// Runs a proof cycle for every non-empty subset of the first `leaf_count`
/// leaves, in rising order of their masks, from mask 1 up to the mask with
/// all `leaf_count` bits set. Under `Halt` the run stops at the first subset
/// that fails the check; under `LogAndContinue` it counts it and goes on. An
/// error of the engine ends the run. The tally that comes back is the count,
/// subset by subset, of what the cycles found.
pub fn run_count(
    store: &MemStore<NumberScope>,
    leaf_count: u64,
    order: PeakOrder,
    policy: OnMismatch,
) -> (out: Result<Tally, EngineError>)
    requires
        leaf_count <= MAX_LEAF_COUNT,
    ensures
        out matches Ok(tally) ==> tally_fits(tally, leaf_count as nat, policy),
        leaf_count == 0 ==> out is Ok,
        out matches Ok(tally) ==> exists|results: Seq<(bool, bool)>|
            run_course(results, leaf_count as nat, policy) && #[trigger] tally_of(results)
                == tally,
{
    let mut tally = Tally { tested: 0, anomalous: 0, mismatches: 0, first_mismatch: None };
    let mut mask: u128 = 1;
    let ghost mut results: Seq<(bool, bool)> = Seq::empty();
    proof {
        lemma_two_to_fits(leaf_count as nat);
    }
    loop
        invariant_except_break
            1 <= mask <= two_to(leaf_count as nat),
            tally.tested == mask - 1,
        invariant
            tally == tally_of(results),
            results.len() == tally.tested,
            policy == OnMismatch::Halt ==> forall|i: int|
                0 <= i < results.len() ==> (#[trigger] results[i]).1,
            leaf_count <= MAX_LEAF_COUNT,
            two_to(leaf_count as nat) <= 0x8000_0000_0000_0000_0000_0000_0000_0000,
            tally.anomalous <= tally.tested,
            tally.mismatches <= tally.tested,
            tally.first_mismatch is None <==> tally.mismatches == 0,
            tally.first_mismatch matches Some(first) ==> 1 <= first <= tally.tested && policy
                == OnMismatch::LogAndContinue,
        ensures
            tally.tested == two_to(leaf_count as nat) - 1,
        decreases two_to(leaf_count as nat) - mask,
    {
        proof {
            lemma_counter_bounds(mask as nat, leaf_count as nat);
        }
        if subsets_done(mask, leaf_count) {
            break;
        }
        let leaves = leaves_of_mask(mask, leaf_count);
        let found = match test_data(store, leaf_count, &leaves, order) {
            Ok(found) => found,
            Err(err) => {
                return Err(err);
            },
        };
        let anomalous = found.has_anomaly();
        tally = record(tally, mask, anomalous, found.verified);
        proof {
            let before = results;
            results = before.push((anomalous, found.verified));
            assert(results.drop_last() =~= before);
            assert(results.last() == (anomalous, found.verified));
        }
        if halts(policy, found.verified) {
            proof {
                assert(run_course(results, leaf_count as nat, policy));
            }
            return Ok(tally);
        }
        mask = mask + 1;
    }
    proof {
        assert(run_course(results, leaf_count as nat, policy));
    }
    Ok(tally)
}

/// What a run over all leaf counts found.
#[derive(Debug)]
pub struct Report {
    /// The tally of each leaf count that was begun, from 1 upwards.
    pub tallies: Vec<Tally>,
    /// The leaf count and mask of the first subset that failed the check.
    pub first_mismatch: Option<(u64, u128)>,
}

/// What a report of a run up to `leaf_count_max` must look like under
/// `policy`: one fitting tally for each leaf count in turn, all of them
/// unless the run halted, and the first failure where the tallies have it.
pub open spec fn report_fits(report: Report, leaf_count_max: u64, policy: OnMismatch) -> bool {
    &&& report.tallies@.len() <= leaf_count_max
    &&& forall|i: int|
        0 <= i < report.tallies@.len() ==> tally_fits(
            #[trigger] report.tallies@[i],
            (i + 1) as nat,
            policy,
        )
    &&& match report.first_mismatch {
        None => report.tallies@.len() == leaf_count_max && forall|i: int|
            0 <= i < report.tallies@.len() ==> (#[trigger] report.tallies@[i]).first_mismatch
                is None,
        Some((count, mask)) => 1 <= count <= report.tallies@.len()
            && report.tallies@[count - 1].first_mismatch == Some(mask) && (forall|i: int|
            0 <= i < count - 1 ==> (#[trigger] report.tallies@[i]).first_mismatch is None) && (
        policy == OnMismatch::Halt ==> report.tallies@.len() == count) && (policy
            == OnMismatch::LogAndContinue ==> report.tallies@.len() == leaf_count_max),
    }
}

/// Runs `run_count` for every leaf count from 1 to `leaf_count_max`. Under
/// `Halt` the first failed check ends the run; an error of the engine ends it
/// under either policy.
pub fn run_oracle(
    store: &MemStore<NumberScope>,
    leaf_count_max: u64,
    order: PeakOrder,
    policy: OnMismatch,
) -> (out: Result<Report, EngineError>)
    requires
        leaf_count_max <= MAX_LEAF_COUNT,
    ensures
        out matches Ok(report) ==> report_fits(report, leaf_count_max, policy),
        leaf_count_max == 0 ==> out is Ok,
{
    let mut tallies: Vec<Tally> = Vec::new();
    let mut first_mismatch: Option<(u64, u128)> = None;
    let mut leaf_count: u64 = 1;
    while leaf_count <= leaf_count_max
        invariant
            leaf_count_max <= MAX_LEAF_COUNT,
            1 <= leaf_count <= leaf_count_max + 1,
            tallies@.len() == leaf_count - 1,
            forall|i: int|
                0 <= i < tallies@.len() ==> tally_fits(
                    #[trigger] tallies@[i],
                    (i + 1) as nat,
                    policy,
                ),
            first_mismatch is None ==> forall|i: int|
                0 <= i < tallies@.len() ==> (#[trigger] tallies@[i]).first_mismatch is None,
            first_mismatch matches Some((count, mask)) ==> 1 <= count <= tallies@.len()
                && tallies@[count - 1].first_mismatch == Some(mask) && (forall|i: int|
                0 <= i < count - 1 ==> (#[trigger] tallies@[i]).first_mismatch is None) && policy
                == OnMismatch::LogAndContinue,
        decreases leaf_count_max + 1 - leaf_count,
    {
        let tally = match run_count(store, leaf_count, order, policy) {
            Ok(tally) => tally,
            Err(err) => {
                return Err(err);
            },
        };
        tallies.push(tally);
        match tally.first_mismatch {
            Some(mask) => {
                if first_mismatch.is_none() {
                    first_mismatch = Some((leaf_count, mask));
                    match policy {
                        OnMismatch::Halt => {
                            return Ok(Report { tallies, first_mismatch });
                        },
                        OnMismatch::LogAndContinue => {},
                    }
                }
            },
            None => {},
        }
        leaf_count += 1;
    }
    Ok(Report { tallies, first_mismatch })
}

} // verus!
