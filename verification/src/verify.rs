//! The tree-wide pass/fail verdict.
//!
//! After the scanner has yielded one record per package, the verdict
//! counts the packages whose local sources do not match the reviewed
//! digest, and among those the ones whose accumulated subtree is not
//! verified.  Verification failure is an expected outcome with its own
//! exit status, never an error.

use vstd::prelude::*;

use crate::report::CrateStats;

verus! {

/// Whether this package's facts were gathered and its local sources do
/// not match the reviewed digest.
pub open spec fn is_unclean(cs: CrateStats) -> bool {
    cs.details_view() matches Some(d) && d.unclean_digest
}

/// Whether this package is unclean and its accumulated subtree is not
/// verified.
pub open spec fn is_unclean_unverified(cs: CrateStats) -> bool {
    cs.details_view() matches Some(d) && d.unclean_digest && !d.accumulative.verified
}

/// How many records of the sequence are unclean.
pub open spec fn unclean_total(s: Seq<CrateStats>) -> nat
    decreases s.len(),
{
    if s.len() == 0 {
        0
    } else {
        unclean_total(s.drop_last()) + (if is_unclean(s.last()) {
            1nat
        } else {
            0
        })
    }
}

/// How many records of the sequence are unclean with an unverified
/// subtree.
pub open spec fn unverified_total(s: Seq<CrateStats>) -> nat
    decreases s.len(),
{
    if s.len() == 0 {
        0
    } else {
        unverified_total(s.drop_last()) + (if is_unclean_unverified(s.last()) {
            1nat
        } else {
            0
        })
    }
}

/// How a command ended: all requirements met, or a verification failure —
/// an expected outcome, distinguishable from a hard error.
#[derive(Clone, Copy, Debug, PartialEq, Eq, Structural)]
pub enum CommandExitStatus {
    Success,
    VerificationFailed,
}

/// Counts the packages whose local sources do not match the reviewed
/// digest.
pub fn count_unclean_digests(deps: &Vec<CrateStats>) -> (r: usize)
    ensures
        r == unclean_total(deps@),
{
    let mut count: usize = 0;
    let mut i: usize = 0;
    while i < deps.len()
        invariant
            0 <= i <= deps@.len(),
            count <= i,
            count == unclean_total(deps@.take(i as int)),
        decreases deps@.len() - i,
    {
        proof {
            assert(deps@.take(i + 1).drop_last() =~= deps@.take(i as int));
            assert(deps@.take(i + 1).last() == deps@[i as int]);
        }
        if deps[i].is_digest_unclean() {
            count += 1;
        }
        i += 1;
    }
    proof {
        assert(deps@.take(deps@.len() as int) =~= deps@);
    }
    count
}

/// Counts the unclean packages whose accumulated subtree is not verified.
pub fn count_unverified(deps: &Vec<CrateStats>) -> (r: usize)
    ensures
        r == unverified_total(deps@),
{
    let mut count: usize = 0;
    let mut i: usize = 0;
    while i < deps.len()
        invariant
            0 <= i <= deps@.len(),
            count <= i,
            count == unverified_total(deps@.take(i as int)),
        decreases deps@.len() - i,
    {
        proof {
            assert(deps@.take(i + 1).drop_last() =~= deps@.take(i as int));
            assert(deps@.take(i + 1).last() == deps@[i as int]);
        }
        if deps[i].is_digest_unclean() {
            let unverified = match deps[i].details() {
                Some(d) => !d.accumulative.verified,
                None => false,
            };
            if unverified {
                count += 1;
            }
        }
        i += 1;
    }
    proof {
        assert(deps@.take(deps@.len() as int) =~= deps@);
    }
    count
}

/// The verdict over a fully drained scan: success exactly when no unclean
/// package has an unverified subtree.
pub fn verify_deps(deps: &Vec<CrateStats>) -> (r: CommandExitStatus)
    ensures
        r == CommandExitStatus::Success <==> unverified_total(deps@) == 0,
{
    let unverified = count_unverified(deps);
    if unverified == 0 {
        CommandExitStatus::Success
    } else {
        CommandExitStatus::VerificationFailed
    }
}

} // verus!
