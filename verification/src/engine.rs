//! The accumulator engine, as this crate sees it.
//!
//! Construction, roots and proofs are the work of
//! `ckb-merkle-mountain-range`. The functions here hand it plain values and
//! take plain values back; what each one claims of the engine is believed,
//! not proved.
use vstd::prelude::*;
use crate::policy::{LeftToRight, PeakOrder, RightToLeft};
use crate::position::SIZE_LIMIT;
use crate::scope::NumberScope;
use ckb_merkle_mountain_range::util::MemStore;
use ckb_merkle_mountain_range::{MerkleProof, MMR};

verus! {

/// The engine's error type, carried through as it is.
#[verifier::external_type_specification]
#[verifier::external_body]
pub struct ExEngineError(ckb_merkle_mountain_range::Error);

/// The engine's in-memory store. It is written through shared references,
/// so nothing here is stated of what it holds.
#[verifier::external_type_specification]
#[verifier::external_body]
#[verifier::reject_recursive_types(T)]
pub struct ExMemStore<T>(MemStore<T>);

/// The engine in construction: a size and the nodes staged since it was
/// opened, over a store.
#[verifier::external_type_specification]
#[verifier::external_body]
#[verifier::reject_recursive_types(T)]
#[verifier::reject_recursive_types(M)]
#[verifier::reject_recursive_types(S)]
pub struct ExMmr<T, M, S>(MMR<T, M, S>);

/// Why the engine refused a request.
#[derive(Clone, Debug, PartialEq, Eq)]
pub enum EngineError {
    /// The root of an accumulator without leaves was asked for.
    EmptyAccumulator,
    /// A position that the size promises is missing from the store.
    InconsistentStore,
    /// The store failed to read or write.
    StoreError(String),
    /// The proof does not fit the leaves it is checked with.
    CorruptedProof,
    /// A position that was named as a leaf is an internal node.
    NodeProofsNotSupported,
    /// No leaf was named, or one that the accumulator does not hold.
    InvalidLeaf,
    /// Two values could not be merged.
    MergeError(String),
    /// A size, position or ordinal is too large for the engine's arithmetic.
    OutOfRange,
}

/// The values that prove a set of leaves, in the order the engine gave them,
/// and the size of the accumulator they were taken from.
#[derive(Clone, Debug, PartialEq, Eq)]
pub struct Proof {
    pub mmr_size: u64,
    pub items: Vec<NumberScope>,
}

/// Whether `out` is the refusal `err`.
pub open spec fn refused<T>(out: Result<T, EngineError>, err: EngineError) -> bool {
    out matches Err(e) && e == err
}

/// The check that came back with `verified`.
pub open spec fn accepted(verified: bool) -> Result<bool, EngineError> {
    Ok(verified)
}

/// The size that an engine in construction has reached: the stored nodes
/// and the staged ones.
pub uninterp spec fn engine_size(
    engine: MMR<NumberScope, LeftToRight, &MemStore<NumberScope>>,
) -> u64;

/// The leaves that an engine has staged since it was opened, in the order
/// they were pushed: the first node of each staged push.
pub uninterp spec fn engine_leaves(
    engine: MMR<NumberScope, LeftToRight, &MemStore<NumberScope>>,
) -> Seq<NumberScope>;

/// The size of the accumulator after one more leaf is pushed at `size`.
pub uninterp spec fn size_after_push(size: u64) -> u64;

/// The root that the engine computes from a proof's values and the leaves
/// they are to prove, under one order of bagging.
pub uninterp spec fn calculated_root(
    order: PeakOrder,
    mmr_size: u64,
    items: Seq<NumberScope>,
    leaves: Seq<(u64, NumberScope)>,
) -> Result<NumberScope, EngineError>;

/// The engine's `Error`, variant by variant; the engine's two complaints
/// about leaves that cannot be proved stay apart. No variant of the engine
/// becomes `OutOfRange`, which is this crate's own refusal.
#[verifier::external_body]
fn lift_error(err: ckb_merkle_mountain_range::Error) -> (out: EngineError)
    ensures
        out != EngineError::OutOfRange,
{
    match err {
        ckb_merkle_mountain_range::Error::GetRootOnEmpty => EngineError::EmptyAccumulator,
        ckb_merkle_mountain_range::Error::InconsistentStore => EngineError::InconsistentStore,
        ckb_merkle_mountain_range::Error::StoreError(msg) => EngineError::StoreError(msg),
        ckb_merkle_mountain_range::Error::CorruptedProof => EngineError::CorruptedProof,
        ckb_merkle_mountain_range::Error::NodeProofsNotSupported => EngineError::NodeProofsNotSupported,
        ckb_merkle_mountain_range::Error::GenProofForInvalidLeaves => EngineError::InvalidLeaf,
        ckb_merkle_mountain_range::Error::MergeError(msg) => EngineError::MergeError(msg),
    }
}

/// `MMR::new`: an engine over `store` that takes the accumulator to have
/// `size` nodes and has staged nothing yet.
#[verifier::external_body]
pub(crate) fn engine_open<'a>(size: u64, store: &'a MemStore<NumberScope>) -> (engine: MMR<
    NumberScope,
    LeftToRight,
    &'a MemStore<NumberScope>,
>)
    ensures
        engine_size(engine) == size,
        engine_leaves(engine) == Seq::<NumberScope>::empty(),
{
    MMR::new(size, store)
}

/// `MMR::push`: stages `leaf` and the parents it completes. The leaf takes
/// the position that was the size, and the new size depends on the old one
/// alone. On an error nothing is staged and the size stays. The engine has
/// no error that becomes `OutOfRange`.
#[verifier::external_body]
pub(crate) fn engine_push(
    engine: &mut MMR<NumberScope, LeftToRight, &MemStore<NumberScope>>,
    leaf: NumberScope,
) -> (out: Result<u64, EngineError>)
    requires
        engine_size(*old(engine)) < SIZE_LIMIT,
    ensures
        out matches Ok(pos) ==> pos == engine_size(*old(engine)) && engine_size(*final(engine))
            == size_after_push(engine_size(*old(engine))),
        out is Ok ==> engine_leaves(*final(engine)) == engine_leaves(*old(engine)).push(leaf),
        out is Err ==> engine_size(*final(engine)) == engine_size(*old(engine)),
        out is Err ==> engine_leaves(*final(engine)) == engine_leaves(*old(engine)),
        !refused(out, EngineError::OutOfRange),
{
    engine.push(leaf).map_err(lift_error)
}

/// `MMR::mmr_size`: the size the engine has reached.
#[verifier::external_body]
pub(crate) fn engine_mmr_size(engine: &MMR<NumberScope, LeftToRight, &MemStore<NumberScope>>) -> (size:
    u64)
    ensures
        size == engine_size(*engine),
{
    engine.mmr_size()
}

/// `MMR::commit`: writes what was staged to the store, in position order.
/// Of the outcome only this is claimed: the engine has no error that becomes
/// `OutOfRange`.
#[verifier::external_body]
pub(crate) fn engine_commit(engine: MMR<NumberScope, LeftToRight, &MemStore<NumberScope>>) -> (out:
    Result<(), EngineError>)
    ensures
        !refused(out, EngineError::OutOfRange),
{
    engine.commit().map_err(lift_error)
}

/// `MMR::get_root` on a fresh engine that bags left to right: an accumulator
/// without nodes has no root, and only such a one is refused as empty. What
/// else comes back depends on the store; the engine has no error that
/// becomes `OutOfRange`.
#[verifier::external_body]
pub(crate) fn root_left_to_right(store: &MemStore<NumberScope>, size: u64) -> (out: Result<
    NumberScope,
    EngineError,
>)
    requires
        size < SIZE_LIMIT,
    ensures
        size == 0 <==> refused(out, EngineError::EmptyAccumulator),
        !refused(out, EngineError::OutOfRange),
{
    MMR::<NumberScope, LeftToRight, _>::new(size, store).get_root().map_err(lift_error)
}

/// `MMR::get_root` on a fresh engine that bags right to left: an accumulator
/// without nodes has no root, and only such a one is refused as empty. What
/// else comes back depends on the store; the engine has no error that
/// becomes `OutOfRange`.
#[verifier::external_body]
pub(crate) fn root_right_to_left(store: &MemStore<NumberScope>, size: u64) -> (out: Result<
    NumberScope,
    EngineError,
>)
    requires
        size < SIZE_LIMIT,
    ensures
        size == 0 <==> refused(out, EngineError::EmptyAccumulator),
        !refused(out, EngineError::OutOfRange),
{
    MMR::<NumberScope, RightToLeft, _>::new(size, store).get_root().map_err(lift_error)
}

/// `MMR::gen_proof` on a fresh engine that bags left to right, with the
/// proof's size and values copied out. An empty list of positions is refused;
/// a proof carries the size it was made for; the engine has no error that
/// becomes `OutOfRange`.
#[verifier::external_body]
pub(crate) fn proof_left_to_right(
    store: &MemStore<NumberScope>,
    size: u64,
    positions: Vec<u64>,
) -> (out: Result<Proof, EngineError>)
    requires
        size < SIZE_LIMIT,
        positions_in_range(positions@),
    ensures
        positions@.len() == 0 ==> refused(out, EngineError::InvalidLeaf),
        out matches Ok(proof) ==> proof.mmr_size == size,
        !refused(out, EngineError::OutOfRange),
{
    let proof = MMR::<NumberScope, LeftToRight, _>::new(size, store).gen_proof(positions);
    proof.map(|p| Proof { mmr_size: p.mmr_size(), items: p.proof_items().to_vec() }).map_err(
        lift_error,
    )
}

/// `MMR::gen_proof` on a fresh engine that bags right to left, with the
/// proof's size and values copied out. An empty list of positions is refused;
/// a proof carries the size it was made for; the engine has no error that
/// becomes `OutOfRange`.
#[verifier::external_body]
pub(crate) fn proof_right_to_left(
    store: &MemStore<NumberScope>,
    size: u64,
    positions: Vec<u64>,
) -> (out: Result<Proof, EngineError>)
    requires
        size < SIZE_LIMIT,
        positions_in_range(positions@),
    ensures
        positions@.len() == 0 ==> refused(out, EngineError::InvalidLeaf),
        out matches Ok(proof) ==> proof.mmr_size == size,
        !refused(out, EngineError::OutOfRange),
{
    let proof = MMR::<NumberScope, RightToLeft, _>::new(size, store).gen_proof(positions);
    proof.map(|p| Proof { mmr_size: p.mmr_size(), items: p.proof_items().to_vec() }).map_err(
        lift_error,
    )
}

/// `MerkleProof::calculate_root`, bagging left to right: the root that the
/// proof's values and the leaves give, which depends on them alone. The
/// engine has no error that becomes `OutOfRange`.
#[verifier::external_body]
pub(crate) fn calculate_left_to_right(proof: &Proof, leaves: Vec<(u64, NumberScope)>) -> (out:
    Result<NumberScope, EngineError>)
    requires
        proof.mmr_size < SIZE_LIMIT,
        leaves_in_range(leaves@),
    ensures
        out == calculated_root(PeakOrder::LeftToRight, proof.mmr_size, proof.items@, leaves@),
        !refused(out, EngineError::OutOfRange),
{
    let engine_proof = MerkleProof::<NumberScope, LeftToRight>::new(
        proof.mmr_size,
        proof.items.clone(),
    );
    engine_proof.calculate_root(leaves).map_err(lift_error)
}

/// `MerkleProof::calculate_root`, bagging right to left: the root that the
/// proof's values and the leaves give, which depends on them alone. The
/// engine has no error that becomes `OutOfRange`.
#[verifier::external_body]
pub(crate) fn calculate_right_to_left(proof: &Proof, leaves: Vec<(u64, NumberScope)>) -> (out:
    Result<NumberScope, EngineError>)
    requires
        proof.mmr_size < SIZE_LIMIT,
        leaves_in_range(leaves@),
    ensures
        out == calculated_root(PeakOrder::RightToLeft, proof.mmr_size, proof.items@, leaves@),
        !refused(out, EngineError::OutOfRange),
{
    let engine_proof = MerkleProof::<NumberScope, RightToLeft>::new(
        proof.mmr_size,
        proof.items.clone(),
    );
    engine_proof.calculate_root(leaves).map_err(lift_error)
}

/// Whether every position of `positions` is below the size limit.
pub open spec fn positions_in_range(positions: Seq<u64>) -> bool {
    forall|i: int| 0 <= i < positions.len() ==> positions[i] < SIZE_LIMIT
}

/// Whether every leaf of `leaves` stands at a position below the size limit.
pub open spec fn leaves_in_range(leaves: Seq<(u64, NumberScope)>) -> bool {
    forall|i: int| 0 <= i < leaves.len() ==> leaves[i].0 < SIZE_LIMIT
}

/// What a check of a proof says, given the root that the proof led to and
/// the root it is held against: whether the two are the same value. A proof
/// that led to no root is an error, not a `false`.
pub open spec fn verdict(calculated: Result<NumberScope, EngineError>, root: NumberScope) -> Result<
    bool,
    EngineError,
> {
    match calculated {
        Ok(value) => Ok(value == root),
        Err(err) => Err(err),
    }
}

/// The root a proof leads to, or why it leads to none.
pub open spec fn proof_root(order: PeakOrder, proof: Proof, leaves: Seq<(u64, NumberScope)>) -> Result<
    NumberScope,
    EngineError,
> {
    if proof.mmr_size >= SIZE_LIMIT || !leaves_in_range(leaves) {
        Err(EngineError::OutOfRange)
    } else {
        calculated_root(order, proof.mmr_size, proof.items@, leaves)
    }
}

fn check_positions(positions: &Vec<u64>) -> (ok: bool)
    ensures
        ok == positions_in_range(positions@),
{
    let mut i: usize = 0;
    while i < positions.len()
        invariant
            i <= positions.len(),
            forall|k: int| 0 <= k < i ==> positions@[k] < SIZE_LIMIT,
        decreases positions.len() - i,
    {
        if positions[i] >= SIZE_LIMIT {
            return false;
        }
        i += 1;
    }
    true
}

fn check_leaves(leaves: &Vec<(u64, NumberScope)>) -> (ok: bool)
    ensures
        ok == leaves_in_range(leaves@),
{
    let mut i: usize = 0;
    while i < leaves.len()
        invariant
            i <= leaves.len(),
            forall|k: int| 0 <= k < i ==> leaves@[k].0 < SIZE_LIMIT,
        decreases leaves.len() - i,
    {
        if leaves[i].0 >= SIZE_LIMIT {
            return false;
        }
        i += 1;
    }
    true
}

/// The root of the accumulator of `size` nodes over `store`, with its peaks
/// bagged in `order`. An accumulator without nodes has none; which value or
/// error comes back otherwise is the engine's answer to what the store holds.
pub fn get_root(store: &MemStore<NumberScope>, size: u64, order: PeakOrder) -> (out: Result<
    NumberScope,
    EngineError,
>)
    ensures
        size == 0 <==> refused(out, EngineError::EmptyAccumulator),
        size >= SIZE_LIMIT <==> refused(out, EngineError::OutOfRange),
        out is Ok ==> 0 < size < SIZE_LIMIT,
{
    if size >= SIZE_LIMIT {
        return Err(EngineError::OutOfRange);
    }
    match order {
        PeakOrder::LeftToRight => root_left_to_right(store, size),
        PeakOrder::RightToLeft => root_right_to_left(store, size),
    }
}

/// A proof for the leaves at `positions` in the accumulator of `size` nodes
/// over `store`. A size or position past the limit is refused first, then an
/// empty list; a proof that comes back carries `size`.
pub fn gen_proof(
    store: &MemStore<NumberScope>,
    size: u64,
    order: PeakOrder,
    positions: Vec<u64>,
) -> (out: Result<Proof, EngineError>)
    ensures
        size >= SIZE_LIMIT || !positions_in_range(positions@) <==> refused(
            out,
            EngineError::OutOfRange,
        ),
        size < SIZE_LIMIT && positions@.len() == 0 ==> refused(out, EngineError::InvalidLeaf),
        out matches Ok(proof) ==> proof.mmr_size == size && size < SIZE_LIMIT && positions@.len()
            > 0 && positions_in_range(positions@),
{
    if size >= SIZE_LIMIT || !check_positions(&positions) {
        return Err(EngineError::OutOfRange);
    }
    match order {
        PeakOrder::LeftToRight => proof_left_to_right(store, size, positions),
        PeakOrder::RightToLeft => proof_right_to_left(store, size, positions),
    }
}

/// The root that `proof` leads to from `leaves`, bagging in `order`.
pub fn calculate_root(proof: &Proof, order: PeakOrder, leaves: Vec<(u64, NumberScope)>) -> (out:
    Result<NumberScope, EngineError>)
    ensures
        out == proof_root(order, *proof, leaves@),
        proof.mmr_size >= SIZE_LIMIT || !leaves_in_range(leaves@) <==> refused(
            out,
            EngineError::OutOfRange,
        ),
{
    if proof.mmr_size >= SIZE_LIMIT || !check_leaves(&leaves) {
        return Err(EngineError::OutOfRange);
    }
    match order {
        PeakOrder::LeftToRight => calculate_left_to_right(proof, leaves),
        PeakOrder::RightToLeft => calculate_right_to_left(proof, leaves),
    }
}

/// Holds the root that a proof led to against `root`.
pub fn judge(calculated: Result<NumberScope, EngineError>, root: NumberScope) -> (out: Result<
    bool,
    EngineError,
>)
    ensures
        out == verdict(calculated, root),
{
    match calculated {
        Ok(value) => Ok(value == root),
        Err(err) => Err(err),
    }
}

/// Checks `proof` for `leaves` against `root`: `true` exactly when the root
/// that the proof leads to is `root`. The store is not touched.
pub fn verify(proof: &Proof, order: PeakOrder, root: NumberScope, leaves: Vec<(u64, NumberScope)>) -> (out:
    Result<bool, EngineError>)
    ensures
        out == verdict(proof_root(order, *proof, leaves@), root),
        proof.mmr_size >= SIZE_LIMIT || !leaves_in_range(leaves@) <==> refused(
            out,
            EngineError::OutOfRange,
        ),
{
    judge(calculate_root(proof, order, leaves), root)
}

/// A proof is accepted for one root at most: whatever it leads to, two
/// roots that both pass the check are the same value.
pub proof fn lemma_one_root_passes(
    calculated: Result<NumberScope, EngineError>,
    root1: NumberScope,
    root2: NumberScope,
)
    requires
        verdict(calculated, root1) == accepted(true),
        verdict(calculated, root2) == accepted(true),
    ensures
        root1 == root2,
{
}

/// Changing one endpoint of the root turns an accepted proof into a rejected
/// one, never into an error.
pub proof fn lemma_changed_root_fails(
    calculated: Result<NumberScope, EngineError>,
    root: NumberScope,
    other: NumberScope,
)
    requires
        verdict(calculated, root) == accepted(true),
        other.start != root.start || other.end != root.end,
    ensures
        verdict(calculated, other) == accepted(false),
{
}

} // verus!
