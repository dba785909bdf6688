//! The payload stored at every node: a numeric range.
use vstd::prelude::*;
use vstd::std_specs::convert::FromSpecImpl;

verus! {

/// A numeric range `[start, end]`; a leaf covers a single ordinal.
#[derive(Clone, Copy, Debug, PartialEq, Eq, Structural, Default)]
pub struct NumberScope {
    pub start: u64,
    pub end: u64,
}

/// The decimal digit that stands for `d`.
pub open spec fn digit(d: nat) -> char {
    if d == 0 {
        '0'
    } else if d == 1 {
        '1'
    } else if d == 2 {
        '2'
    } else if d == 3 {
        '3'
    } else if d == 4 {
        '4'
    } else if d == 5 {
        '5'
    } else if d == 6 {
        '6'
    } else if d == 7 {
        '7'
    } else if d == 8 {
        '8'
    } else {
        '9'
    }
}

/// `n` in decimal, without sign or leading zeros.
pub open spec fn decimal(n: nat) -> Seq<char>
    decreases n,
{
    if n < 10 {
        seq![digit(n)]
    } else {
        decimal(n / 10).push(digit(n % 10))
    }
}

/// The text of the one-ordinal range of `num`.
pub open spec fn single_text(num: u64) -> Seq<char> {
    "NumberScope(="@ + decimal(num as nat) + ")"@
}

/// The text of the range from `start` to `end`.
pub open spec fn pair_text(start: u64, end: u64) -> Seq<char> {
    "NumberScope("@ + decimal(start as nat) + ", "@ + decimal(end as nat) + ")"@
}

/// `format!` with one number: `NumberScope(=`, the number in decimal as
/// `{}` writes an unsigned integer, and a closing bracket.
#[verifier::external_body]
fn render_single(num: u64) -> (text: String)
    ensures
        text@ == single_text(num),
{
    format!("NumberScope(={})", num)
}

/// `format!` with two numbers: `NumberScope(`, the two numbers in decimal
/// as `{}` writes an unsigned integer, with a comma and a space between
/// them, and a closing bracket.
#[verifier::external_body]
fn render_pair(start: u64, end: u64) -> (text: String)
    ensures
        text@ == pair_text(start, end),
{
    format!("NumberScope({}, {})", start, end)
}

impl NumberScope {
    /// A range is normalized when it does not run backwards.
    pub open spec fn normalized(self) -> bool {
        self.start <= self.end
    }

    /// The degenerate range that stands for leaf `num`.
    pub open spec fn leaf(num: u64) -> NumberScope {
        NumberScope { start: num, end: num }
    }

    pub fn new(start: u64, end: u64) -> (out: Self)
        ensures
            out.start == start,
            out.end == end,
    {
        Self { start, end }
    }

    pub fn is_normalized(&self) -> (out: bool)
        ensures
            out == self.normalized(),
    {
        self.start <= self.end
    }

    /// The range as text: a range of one ordinal shows that ordinal once.
    pub open spec fn text(self) -> Seq<char> {
        if self.start == self.end {
            single_text(self.start)
        } else {
            pair_text(self.start, self.end)
        }
    }

    /// The range as text, for logs.
    pub fn to_text(&self) -> (out: String)
        ensures
            out@ == self.text(),
    {
        if self.start == self.end {
            render_single(self.start)
        } else {
            render_pair(self.start, self.end)
        }
    }

    /// Whether the range covers exactly one ordinal.
    pub fn is_leaf(&self) -> (out: bool)
        ensures
            out == (self.start == self.end),
    {
        self.start == self.end
    }
}

impl From<u64> for NumberScope {
    fn from(num: u64) -> (out: Self) {
        Self::new(num, num)
    }
}

impl FromSpecImpl<u64> for NumberScope {
    open spec fn obeys_from_spec() -> bool {
        true
    }

    open spec fn from_spec(num: u64) -> Self {
        NumberScope::leaf(num)
    }
}

/// Every leaf is normalized.
pub proof fn lemma_leaf_normalized(num: u64)
    ensures
        NumberScope::leaf(num).normalized(),
{
}

} // verus!
