//! Small composable counters.
//!
//! `Progress` reports how far a long scan has come; `CountWithTotal`
//! pairs an observed count with the knowable total and combines by
//! component-wise addition, so that per-package metrics can be folded
//! over a whole dependency tree in any order.

use vstd::prelude::*;

verus! {

/// How far a long-running scan has progressed: `done` out of `total` steps.
#[derive(Clone, Copy, Debug)]
pub struct Progress {
    pub done: usize,
    pub total: usize,
}

impl Progress {
    /// A reading is meaningful only while `done` has not passed `total`.
    pub fn is_valid(self) -> (r: bool)
        ensures
            r == (self.done <= self.total),
    {
        self.done <= self.total
    }

    pub fn is_complete(self) -> (r: bool)
        ensures
            r == (self.done >= self.total),
    {
        self.done >= self.total
    }
}

/// A count of something observed, plus the total number of that thing
/// known to exist (reviews seen vs. versions published, verified owners
/// vs. known owners, and so on).
#[derive(Clone, Copy, Debug, PartialEq, Eq, Structural)]
pub struct CountWithTotal {
    pub count: u64,
    pub total: u64,
}

/// Addition that stops at the numeric maximum instead of wrapping or
/// panicking.  Saturation keeps the operation total, associative and
/// commutative for every pair of operands.
pub open spec fn sat_add(a: u64, b: u64) -> u64 {
    if a + b <= u64::MAX {
        (a + b) as u64
    } else {
        u64::MAX
    }
}

/// Component-wise combination of two counters.
pub open spec fn count_add(a: CountWithTotal, b: CountWithTotal) -> CountWithTotal {
    CountWithTotal { count: sat_add(a.count, b.count), total: sat_add(a.total, b.total) }
}

impl CountWithTotal {
    /// Combines two counters component-wise; each component saturates at
    /// `u64::MAX` rather than overflowing.
    pub fn add(self, other: CountWithTotal) -> (r: CountWithTotal)
        ensures
            r == count_add(self, other),
    {
        CountWithTotal {
            count: sat_add_exec(self.count, other.count),
            total: sat_add_exec(self.total, other.total),
        }
    }
}

/// Executable saturating addition on `u64`.
pub fn sat_add_exec(a: u64, b: u64) -> (r: u64)
    ensures
        r == sat_add(a, b),
{
    if a <= u64::MAX - b {
        a + b
    } else {
        u64::MAX
    }
}

/// Saturating addition on `usize`, used for line counts.
pub open spec fn sat_add_usize(a: usize, b: usize) -> usize {
    if a + b <= usize::MAX {
        (a + b) as usize
    } else {
        usize::MAX
    }
}

/// Executable saturating addition on `usize`.
pub fn sat_add_usize_exec(a: usize, b: usize) -> (r: usize)
    ensures
        r == sat_add_usize(a, b),
{
    if a <= usize::MAX - b {
        a + b
    } else {
        usize::MAX
    }
}

/// Counter combination is associative, so a tree of counters may be
/// folded in any grouping.
pub proof fn lemma_count_add_assoc(a: CountWithTotal, b: CountWithTotal, c: CountWithTotal)
    ensures
        count_add(count_add(a, b), c) == count_add(a, count_add(b, c)),
{
}

/// Counter combination is commutative, so a tree of counters may be
/// folded in any order.
pub proof fn lemma_count_add_comm(a: CountWithTotal, b: CountWithTotal)
    ensures
        count_add(a, b) == count_add(b, a),
{
}

} // verus!
