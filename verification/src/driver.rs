//! Feeding leaves to the engine in batches, one commit per batch.
use vstd::prelude::*;
use crate::engine::{
    engine_commit, engine_leaves, engine_mmr_size, engine_open, engine_push, engine_size, refused,
    size_after_push, EngineError,
};
use crate::policy::LeftToRight;
use crate::position::{
    leaf_index_to_mmr_size, size_of_leaves, ResumePoint, LEAF_LIMIT, SIZE_LIMIT,
};
use crate::scope::NumberScope;
use ckb_merkle_mountain_range::util::MemStore;
use ckb_merkle_mountain_range::MMR;

verus! {

/// The last ordinal of the batch that starts at `min`. A batch that starts
/// on a multiple of `batch_size` holds `batch_size` leaves; one that starts
/// elsewhere runs up to the next multiple, and takes it in. No batch goes
/// past `leaf_count`.
pub open spec fn batch_last(min: u64, batch_size: u64, leaf_count: u64) -> int {
    let full = if min % batch_size == 0 {
        min + batch_size - 1
    } else {
        (min / batch_size + 1) * batch_size
    };
    if full <= leaf_count {
        full
    } else {
        leaf_count as int
    }
}

/// How many leaves are still to be pushed when `leaf_next` is the next one
/// and `leaf_count` the last.
pub open spec fn pending(leaf_next: u64, leaf_count: u64) -> nat {
    if leaf_next > leaf_count {
        0
    } else {
        (leaf_count - leaf_next + 1) as nat
    }
}

/// The size of the accumulator after `count` more leaves are pushed at `size`.
pub open spec fn size_after_pushes(size: u64, count: nat) -> u64
    decreases count,
{
    if count == 0 {
        size
    } else {
        size_after_push(size_after_pushes(size, (count - 1) as nat))
    }
}

/// Pushing `a` leaves and then `b` more reaches the size that pushing
/// `a + b` leaves at once reaches: where a run is cut into batches, or
/// stopped and taken up again, does not change the size it ends with.
pub proof fn lemma_pushes_compose(size: u64, a: nat, b: nat)
    ensures
        size_after_pushes(size_after_pushes(size, a), b) == size_after_pushes(size, a + b),
    decreases b,
{
    if b > 0 {
        lemma_pushes_compose(size, a, (b - 1) as nat);
        assert(a + b - 1 == a + (b - 1));
    }
}

/// A run that stops after leaf `stop` and is taken up again behind it ends
/// with the size of a run that goes through to `leaf_count` at once.
pub proof fn lemma_resumed_run_ends_alike(size: u64, leaf_next: u64, stop: u64, leaf_count: u64)
    requires
        leaf_next <= stop < leaf_count,
    ensures
        size_after_pushes(
            size_after_pushes(size, pending(leaf_next, stop)),
            pending((stop + 1) as u64, leaf_count),
        ) == size_after_pushes(size, pending(leaf_next, leaf_count)),
{
    lemma_pushes_compose(size, pending(leaf_next, stop), pending((stop + 1) as u64, leaf_count));
}

/// How the batches are cut: a batch that is not the last ends just before a
/// multiple of `batch_size` where it started on one, and holds `batch_size`
/// leaves; where it started elsewhere it ends on the next multiple. So every
/// batch after the first starts on a multiple or one behind it, and a run
/// commits once for each `batch_size` leaves, once more for a first batch
/// that is short and once more for a last one.
pub proof fn lemma_batches_keep_step(min: u64, batch_size: u64, leaf_count: u64)
    requires
        batch_size > 0,
        min <= leaf_count,
        batch_last(min, batch_size, leaf_count) < leaf_count,
    ensures
        min % batch_size == 0 ==> batch_last(min, batch_size, leaf_count) - min + 1 == batch_size
            && (batch_last(min, batch_size, leaf_count) + 1) % (batch_size as int) == 0,
        min % batch_size != 0 ==> batch_last(min, batch_size, leaf_count) % (batch_size as int)
            == 0,
        min % batch_size == 1 ==> batch_last(min, batch_size, leaf_count) - min + 1 == batch_size,
{
    let size = batch_size as int;
    vstd::arithmetic::div_mod::lemma_fundamental_div_mod(min as int, size);
    vstd::arithmetic::div_mod::lemma_mod_multiples_basic(min as int / size + 1, size);
    vstd::arithmetic::div_mod::lemma_mod_add_multiples_vanish(min as int, size);
    let quotient = min as int / size;
    assert((quotient + 1) * size == size * quotient + size) by (nonlinear_arith);
    assert((min / batch_size + 1) * batch_size == (quotient + 1) * size);
}

/// The last ordinal of the batch that starts at `min`.
pub fn batch_end(min: u64, batch_size: u64, leaf_count: u64) -> (max: u64)
    requires
        batch_size > 0,
        min <= leaf_count,
    ensures
        max == batch_last(min, batch_size, leaf_count),
        min <= max <= leaf_count,
        max - min < batch_size,
{
    let room: u64 = leaf_count - min;
    let rest: u64 = min % batch_size;
    let step: u64 = if rest == 0 {
        batch_size - 1
    } else {
        batch_size - rest
    };
    proof {
        assert(min == (min / batch_size) * batch_size + rest) by {
            vstd::arithmetic::div_mod::lemma_fundamental_div_mod(min as int, batch_size as int);
            assert(batch_size * (min / batch_size) == (min / batch_size) * batch_size)
                by (nonlinear_arith);
        }
        assert((min / batch_size + 1) * batch_size == (min / batch_size) * batch_size + batch_size)
            by (nonlinear_arith);
    }
    if step <= room {
        min + step
    } else {
        leaf_count
    }
}

/// The leaves of `count` ordinals in a row, from `min` upwards.
pub open spec fn leaves_run(min: u64, count: nat) -> Seq<NumberScope> {
    Seq::new(count, |i: int| NumberScope::leaf((min + i) as u64))
}

/// What an engine has staged after a run of `count` pushes from `min` that
/// ended early: what it had staged before, and the leaves of fewer than
/// `count` ordinals from `min` upwards behind it.
pub open spec fn staged_early(
    before: Seq<NumberScope>,
    min: u64,
    count: nat,
    after: Seq<NumberScope>,
) -> bool {
    exists|k: nat| k < count && after == before + #[trigger] leaves_run(min, k)
}

/// Whether each of the first `count` pushes at `size` finds the accumulator
/// below the size limit.
pub open spec fn pushes_fit(size: u64, count: nat) -> bool {
    forall|k: nat| k < count ==> #[trigger] size_after_pushes(size, k) < SIZE_LIMIT
}

/// What holds of a run of `count` pushes at `size` that ended early with
/// `err` and left the engine at `reached`: some of the pushes were made, fewer
/// than `count`, and they are what the engine has staged; and the run
/// ended because the size limit was reached exactly where `err` says so.
pub open spec fn stopped_early(size: u64, count: nat, reached: u64, err: EngineError) -> bool {
    exists|k: nat|
        k < count && pushes_fit(size, k) && reached == #[trigger] size_after_pushes(size, k) && (
        reached >= SIZE_LIMIT <==> err == EngineError::OutOfRange)
}

/// Pushes the leaves `min..=max` into `engine`, in order, and stops at the
/// first push that the engine refuses. An engine whose size has reached the
/// limit takes no more leaves. The leaves pushed before a failure stay
/// staged.
pub(crate) fn push_range(
    engine: &mut MMR<NumberScope, LeftToRight, &MemStore<NumberScope>>,
    min: u64,
    max: u64,
) -> (out: Result<(), EngineError>)
    requires
        min <= max,
    ensures
        out is Ok ==> engine_size(*final(engine)) == size_after_pushes(
            engine_size(*old(engine)),
            (max - min + 1) as nat,
        ),
        out is Ok ==> pushes_fit(engine_size(*old(engine)), (max - min + 1) as nat),
        out is Ok ==> engine_leaves(*final(engine)) == engine_leaves(*old(engine)) + leaves_run(
            min,
            (max - min + 1) as nat,
        ),
        out is Err ==> staged_early(
            engine_leaves(*old(engine)),
            min,
            (max - min + 1) as nat,
            engine_leaves(*final(engine)),
        ),
        out matches Err(err) ==> stopped_early(
            engine_size(*old(engine)),
            (max - min + 1) as nat,
            engine_size(*final(engine)),
            err,
        ),
        engine_size(*old(engine)) >= SIZE_LIMIT ==> refused(out, EngineError::OutOfRange)
            && engine_size(*final(engine)) == engine_size(*old(engine)),
{
    let ghost start = engine_size(*engine);
    let ghost staged = engine_leaves(*engine);
    let mut i: u64 = min;
    proof {
        assert(staged + leaves_run(min, 0) =~= staged);
    }
    loop
        invariant_except_break
            engine_size(*engine) == size_after_pushes(start, (i - min) as nat),
            pushes_fit(start, (i - min) as nat),
            engine_leaves(*engine) == staged + leaves_run(min, (i - min) as nat),
        invariant
            min <= i <= max,
            start == engine_size(*old(engine)),
            staged == engine_leaves(*old(engine)),
        ensures
            i == max,
            engine_size(*engine) == size_after_pushes(start, (max - min + 1) as nat),
            pushes_fit(start, (max - min + 1) as nat),
            engine_leaves(*engine) == staged + leaves_run(min, (max - min + 1) as nat),
        decreases max - i,
    {
        let ghost done = (i - min) as nat;
        proof {
            if start >= SIZE_LIMIT && done > 0 {
                assert(size_after_pushes(start, 0) < SIZE_LIMIT);
            }
            assert(size_after_pushes(start, 0) == start);
        }
        if engine_mmr_size(engine) >= SIZE_LIMIT {
            proof {
                assert(engine_size(*engine) == size_after_pushes(start, done));
                assert(stopped_early(
                    start,
                    (max - min + 1) as nat,
                    engine_size(*engine),
                    EngineError::OutOfRange,
                ));
                assert(engine_leaves(*engine) == staged + leaves_run(min, done));
            }
            return Err(EngineError::OutOfRange);
        }
        match engine_push(engine, NumberScope::from(i)) {
            Ok(_) => {},
            Err(err) => {
                proof {
                    assert(engine_size(*engine) == size_after_pushes(start, done));
                    assert(stopped_early(
                        start,
                        (max - min + 1) as nat,
                        engine_size(*engine),
                        err,
                    ));
                    assert(engine_leaves(*engine) == staged + leaves_run(min, done));
                }
                return Err(err);
            },
        }
        proof {
            assert((staged + leaves_run(min, done)).push(NumberScope::leaf(i)) =~= staged
                + leaves_run(min, done + 1));
            assert(size_after_pushes(start, done + 1) == size_after_push(
                size_after_pushes(start, done),
            ));
            assert(pushes_fit(start, done + 1)) by {
                assert forall|k: nat| k < done + 1 implies #[trigger] size_after_pushes(start, k)
                    < SIZE_LIMIT by {
                    if k < done {
                        assert(pushes_fit(start, done));
                    }
                }
            }
        }
        if i == max {
            break;
        }
        i += 1;
    }
    Ok(())
}

/// What a batch comes to, given how its pushes ended, the size the engine
/// reached and the size that the batch's last leaf asks for: a refused push
/// ends the run with its error, and so does a size that is not the one asked
/// for, as a store that does not fit the resume point gives.
pub open spec fn batch_settled(pushed: Result<(), EngineError>, reached: u64, expected: u64) -> Result<
    u64,
    EngineError,
> {
    match pushed {
        Err(err) => Err(err),
        Ok(_) => if reached == expected {
            Ok(reached)
        } else {
            Err(EngineError::InconsistentStore)
        },
    }
}

/// Where the run goes after the commit of the batch that ended with `max`: a
/// refused commit ends the run with its error, the batch of the last leaf
/// ends it well, and any other is followed by the batch that starts behind
/// `max`.
pub open spec fn run_continued(committed: Result<(), EngineError>, max: u64, leaf_count: u64) -> Result<
    Option<u64>,
    EngineError,
> {
    match committed {
        Err(err) => Err(err),
        Ok(_) => if max >= leaf_count {
            Ok(None)
        } else {
            Ok(Some((max + 1) as u64))
        },
    }
}

/// Settles a batch before it is committed.
pub fn settle_batch(pushed: Result<(), EngineError>, reached: u64, expected: u64) -> (out: Result<
    u64,
    EngineError,
>)
    ensures
        out == batch_settled(pushed, reached, expected),
{
    match pushed {
        Err(err) => Err(err),
        Ok(_) => if reached == expected {
            Ok(reached)
        } else {
            Err(EngineError::InconsistentStore)
        },
    }
}

/// Decides where the run goes after a commit.
pub fn continue_run(committed: Result<(), EngineError>, max: u64, leaf_count: u64) -> (out:
    Result<Option<u64>, EngineError>)
    ensures
        out == run_continued(committed, max, leaf_count),
{
    match committed {
        Err(err) => Err(err),
        Ok(_) => if max >= leaf_count {
            Ok(None)
        } else {
            Ok(Some(max + 1))
        },
    }
}

/// Ingests the leaves from `start.leaf_next` up to and including
/// `leaf_count` into `store`, batch by batch, each batch staged in an engine
/// of its own and committed before the next begins. Where nothing is pending
/// the store is left alone. A last leaf or a start size past the limit is
/// refused before the engine is asked. Each batch must bring the accumulator
/// to the size that its last leaf asks for, or the run ends before that batch
/// is committed; so the size that comes back is the size of the accumulator
/// that holds the leaves up to `leaf_count`, wherever the batches were cut. A
/// batch that fails to push or commit ends the run with its error, and later
/// batches are not begun.
pub fn prepare_data(
    store: &MemStore<NumberScope>,
    start: ResumePoint,
    leaf_count: u64,
    batch_size: u64,
) -> (out: Result<u64, EngineError>)
    requires
        batch_size > 0,
    ensures
        out matches Ok(size) ==> size == size_after_pushes(
            start.mmr_size,
            pending(start.leaf_next, leaf_count),
        ),
        start.leaf_next > leaf_count ==> (out matches Ok(size) && size == start.mmr_size),
        start.leaf_next <= leaf_count && (leaf_count >= LEAF_LIMIT || start.mmr_size
            >= SIZE_LIMIT) ==> refused(out, EngineError::OutOfRange),
        out matches Ok(size) ==> start.leaf_next <= leaf_count ==> size == size_of_leaves(
            (leaf_count + 1) as nat,
        ),
        out is Ok ==> pushes_fit(start.mmr_size, pending(start.leaf_next, leaf_count)),
{
    let mut mmr_size: u64 = start.mmr_size;
    let mut min: u64 = start.leaf_next;
    if min > leaf_count {
        return Ok(mmr_size);
    }
    if leaf_count >= LEAF_LIMIT || mmr_size >= SIZE_LIMIT {
        return Err(EngineError::OutOfRange);
    }
    loop
        invariant_except_break
            mmr_size == size_after_pushes(start.mmr_size, (min - start.leaf_next) as nat),
            pushes_fit(start.mmr_size, (min - start.leaf_next) as nat),
        invariant
            batch_size > 0,
            start.leaf_next <= min <= leaf_count < LEAF_LIMIT,
            start.mmr_size < SIZE_LIMIT,
            mmr_size < SIZE_LIMIT,
        ensures
            mmr_size == size_after_pushes(start.mmr_size, pending(start.leaf_next, leaf_count)),
            mmr_size == size_of_leaves((leaf_count + 1) as nat),
            pushes_fit(start.mmr_size, pending(start.leaf_next, leaf_count)),
        decreases leaf_count - min,
    {
        let max: u64 = batch_end(min, batch_size, leaf_count);
        let mut engine = engine_open(mmr_size, store);
        let pushed = push_range(&mut engine, min, max);
        let reached: u64 = engine_mmr_size(&engine);
        let expected: u64 = leaf_index_to_mmr_size(max);
        proof {
            let done = (min - start.leaf_next) as nat;
            let more = (max - min + 1) as nat;
            lemma_pushes_compose(start.mmr_size, done, more);
            if pushed is Ok {
                assert forall|k: nat| k < done + more implies #[trigger] size_after_pushes(
                    start.mmr_size,
                    k,
                ) < SIZE_LIMIT by {
                    if k >= done {
                        lemma_pushes_compose(start.mmr_size, done, (k - done) as nat);
                        assert(size_after_pushes(mmr_size, (k - done) as nat) < SIZE_LIMIT);
                    }
                }
            }
        }
        mmr_size = match settle_batch(pushed, reached, expected) {
            Ok(size) => size,
            Err(err) => {
                return Err(err);
            },
        };
        match continue_run(engine_commit(engine), max, leaf_count) {
            Err(err) => {
                return Err(err);
            },
            Ok(None) => {
                break;
            },
            Ok(Some(next)) => {
                min = next;
            },
        }
    }
    Ok(mmr_size)
}

} // verus!
