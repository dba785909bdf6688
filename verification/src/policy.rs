//! How two node values combine: siblings into a parent, and peaks into a root.
use vstd::prelude::*;
use crate::scope::NumberScope;

verus! {

/// The order in which adjacent peaks are folded into the root.
#[derive(Clone, Copy, Debug, PartialEq, Eq, Structural)]
pub enum PeakOrder {
    /// The left peak is the left operand of the merge.
    LeftToRight,
    /// The right peak is the left operand of the merge.
    RightToLeft,
}

/// The parent of a left child `lhs` and a right child `rhs`.
pub open spec fn merged(lhs: NumberScope, rhs: NumberScope) -> NumberScope {
    NumberScope { start: lhs.start, end: rhs.end }
}

/// What bagging makes of two adjacent peaks. The engine hands the peak on the
/// right as `peak1` and the peak on the left as `peak2`.
pub open spec fn bagged(order: PeakOrder, peak1: NumberScope, peak2: NumberScope) -> NumberScope {
    match order {
        PeakOrder::LeftToRight => merged(peak2, peak1),
        PeakOrder::RightToLeft => merged(peak1, peak2),
    }
}

/// Combines two siblings, left child first.
pub fn merge(lhs: &NumberScope, rhs: &NumberScope) -> (out: NumberScope)
    ensures
        out == merged(*lhs, *rhs),
{
    NumberScope { start: lhs.start, end: rhs.end }
}

/// Combines two adjacent peaks under `order`, with the operands as the engine
/// hands them over: the right peak first.
pub fn merge_peaks(order: PeakOrder, peak1: &NumberScope, peak2: &NumberScope) -> (out:
    NumberScope)
    ensures
        out == bagged(order, *peak1, *peak2),
{
    match order {
        PeakOrder::LeftToRight => merge(peak2, peak1),
        PeakOrder::RightToLeft => merge(peak1, peak2),
    }
}

/// The policy that bags peaks left to right.
#[derive(Debug)]
pub struct LeftToRight;

/// The policy that bags peaks right to left.
#[derive(Debug)]
pub struct RightToLeft;

impl ckb_merkle_mountain_range::Merge for LeftToRight {
    type Item = NumberScope;

    fn merge(lhs: &NumberScope, rhs: &NumberScope) -> (out: Result<
        NumberScope,
        ckb_merkle_mountain_range::Error,
    >)
        ensures
            out matches Ok(v) && v == merged(*lhs, *rhs),
    {
        Ok(self::merge(lhs, rhs))
    }

    fn merge_peaks(peak1: &NumberScope, peak2: &NumberScope) -> (out: Result<
        NumberScope,
        ckb_merkle_mountain_range::Error,
    >)
        ensures
            out matches Ok(v) && v == bagged(PeakOrder::LeftToRight, *peak1, *peak2),
    {
        Ok(self::merge_peaks(PeakOrder::LeftToRight, peak1, peak2))
    }
}

impl ckb_merkle_mountain_range::Merge for RightToLeft {
    type Item = NumberScope;

    fn merge(lhs: &NumberScope, rhs: &NumberScope) -> (out: Result<
        NumberScope,
        ckb_merkle_mountain_range::Error,
    >)
        ensures
            out matches Ok(v) && v == merged(*lhs, *rhs),
    {
        Ok(self::merge(lhs, rhs))
    }

    fn merge_peaks(peak1: &NumberScope, peak2: &NumberScope) -> (out: Result<
        NumberScope,
        ckb_merkle_mountain_range::Error,
    >)
        ensures
            out matches Ok(v) && v == bagged(PeakOrder::RightToLeft, *peak1, *peak2),
    {
        Ok(self::merge_peaks(PeakOrder::RightToLeft, peak1, peak2))
    }
}

/// Merging is associative: a chain of merges keeps the first start and the
/// last end, however it is bracketed.
pub proof fn lemma_merge_associative(a: NumberScope, b: NumberScope, c: NumberScope)
    ensures
        merged(merged(a, b), c) == merged(a, merged(b, c)),
{
}

/// The value in the middle of a chain of merges leaves no trace in the
/// result: a check that compares results cannot tell two such values apart.
pub proof fn lemma_inner_operand_is_dropped(
    a: NumberScope,
    b1: NumberScope,
    b2: NumberScope,
    c: NumberScope,
)
    ensures
        merged(merged(a, b1), c) == merged(merged(a, b2), c),
        merged(a, b1).start == merged(a, b2).start,
        merged(b1, c).end == merged(b2, c).end,
{
}

/// The two peak orders bag a pair of peaks into the same value exactly when
/// the peaks agree on both endpoints; otherwise the roots differ.
pub proof fn lemma_peak_order_matters(peak1: NumberScope, peak2: NumberScope)
    ensures
        bagged(PeakOrder::LeftToRight, peak1, peak2) == bagged(
            PeakOrder::RightToLeft,
            peak1,
            peak2,
        ) <==> (peak1.start == peak2.start && peak1.end == peak2.end),
        bagged(PeakOrder::LeftToRight, peak1, peak2) == bagged(
            PeakOrder::RightToLeft,
            peak2,
            peak1,
        ),
{
}

/// Merging a normalized left operand with a normalized right operand that
/// does not start before it yields a normalized value.
pub proof fn lemma_merge_keeps_normalized(lhs: NumberScope, rhs: NumberScope)
    requires
        lhs.normalized(),
        rhs.normalized(),
        lhs.start <= rhs.start,
    ensures
        merged(lhs, rhs).normalized(),
{
}

/// A merge is normalized exactly when its left operand does not start after
/// the end of its right operand. So two normalized peaks that lie strictly
/// apart, taken in the wrong order, always give a value that is not
/// normalized.
pub proof fn lemma_merge_normalized_iff(lhs: NumberScope, rhs: NumberScope)
    ensures
        merged(lhs, rhs).normalized() <==> lhs.start <= rhs.end,
        lhs.end < rhs.start && rhs.normalized() ==> !merged(rhs, lhs).normalized(),
{
}

} // verus!
