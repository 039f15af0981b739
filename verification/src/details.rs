//! The per-tree rollup record and its field-by-field combination rule.
//!
//! Combining two accumulated records is deliberately non-uniform: trust
//! takes the weakest link, issue counts add up, the verified flag needs
//! every member verified, unknown line or unsafe-code counts poison the
//! sum, any build script taints the whole tree, and owner sets merge
//! key-wise.

use vstd::prelude::*;

use crate::owners::{OwnerSetSet, PkgKey};
use crate::stats::{CountWithTotal, count_add, sat_add_usize, sat_add_usize_exec, sat_add, sat_add_exec};

verus! {

/// How strongly reviews cover a package, weakest first.
#[derive(Clone, Copy, Debug, PartialEq, Eq, Structural)]
pub enum VerificationStatus {
    Negative,
    Insufficient,
    Verified,
}

/// The position of a status in the order from weakest to strongest.
pub open spec fn status_rank(s: VerificationStatus) -> int {
    match s {
        VerificationStatus::Negative => 0,
        VerificationStatus::Insufficient => 1,
        VerificationStatus::Verified => 2,
    }
}

/// The weaker of two statuses: a tree is only as trusted as its
/// least-trusted member.
pub open spec fn status_min(a: VerificationStatus, b: VerificationStatus) -> VerificationStatus {
    if status_rank(a) <= status_rank(b) {
        a
    } else {
        b
    }
}

impl VerificationStatus {
    /// The weaker of two statuses.
    pub fn min(self, other: VerificationStatus) -> (r: VerificationStatus)
        ensures
            r == status_min(self, other),
    {
        match (self, other) {
            (VerificationStatus::Negative, _) => VerificationStatus::Negative,
            (_, VerificationStatus::Negative) => VerificationStatus::Negative,
            (VerificationStatus::Insufficient, _) => VerificationStatus::Insufficient,
            (_, VerificationStatus::Insufficient) => VerificationStatus::Insufficient,
            _ => VerificationStatus::Verified,
        }
    }
}

/// Sum of two optional line counts; an unknown operand poisons the
/// result, it is never treated as zero.
pub open spec fn sum_loc(a: Option<usize>, b: Option<usize>) -> Option<usize> {
    match (a, b) {
        (Some(x), Some(y)) => Some(sat_add_usize(x, y)),
        _ => None,
    }
}

/// Sum of two optional unsafe-code counts, with the same poisoning rule.
pub open spec fn sum_geiger(a: Option<u64>, b: Option<u64>) -> Option<u64> {
    match (a, b) {
        (Some(x), Some(y)) => Some(sat_add(x, y)),
        _ => None,
    }
}

/// Adds two optional line counts.
pub fn sum_options_usize(a: Option<usize>, b: Option<usize>) -> (r: Option<usize>)
    ensures
        r == sum_loc(a, b),
{
    match (a, b) {
        (Some(x), Some(y)) => Some(sat_add_usize_exec(x, y)),
        _ => None,
    }
}

/// Adds two optional unsafe-code counts.
pub fn sum_options_u64(a: Option<u64>, b: Option<u64>) -> (r: Option<u64>)
    ensures
        r == sum_geiger(a, b),
{
    match (a, b) {
        (Some(x), Some(y)) => Some(sat_add_exec(x, y)),
        _ => None,
    }
}

/// Crate statistics that can be accumulated by recursively including
/// dependencies.
#[derive(Clone, Debug)]
pub struct AccumulativeCrateDetails {
    pub trust: VerificationStatus,
    pub trusted_issues: CountWithTotal,
    pub verified: bool,
    pub loc: Option<usize>,
    pub geiger_count: Option<u64>,
    pub has_custom_build: bool,
    pub owner_set: OwnerSetSet,
}

/// The mathematical content of an accumulated record.
#[verifier::ext_equal]
pub ghost struct AccumView {
    pub trust: VerificationStatus,
    pub trusted_issues: CountWithTotal,
    pub verified: bool,
    pub loc: Option<usize>,
    pub geiger_count: Option<u64>,
    pub has_custom_build: bool,
    pub owner_set: Map<PkgKey, Set<Seq<char>>>,
}

impl View for AccumulativeCrateDetails {
    type V = AccumView;

    open spec fn view(&self) -> AccumView {
        AccumView {
            trust: self.trust,
            trusted_issues: self.trusted_issues,
            verified: self.verified,
            loc: self.loc,
            geiger_count: self.geiger_count,
            has_custom_build: self.has_custom_build,
            owner_set: self.owner_set@,
        }
    }
}

/// The field-by-field combination rule for accumulated records.
pub open spec fn combine(a: AccumView, b: AccumView) -> AccumView {
    AccumView {
        trust: status_min(a.trust, b.trust),
        trusted_issues: count_add(a.trusted_issues, b.trusted_issues),
        verified: a.verified && b.verified,
        loc: sum_loc(a.loc, b.loc),
        geiger_count: sum_geiger(a.geiger_count, b.geiger_count),
        has_custom_build: a.has_custom_build || b.has_custom_build,
        owner_set: a.owner_set.union_prefer_right(b.owner_set),
    }
}

impl AccumulativeCrateDetails {
    /// The owner groups are keyed consistently.
    pub open spec fn wf(&self) -> bool {
        self.owner_set.wf()
    }

    /// Combines this record with another, field by field.
    pub fn add(self, other: Self) -> (r: Self)
        requires
            self.wf(),
            other.wf(),
        ensures
            r.wf(),
            r@ == combine(self@, other@),
            r.verified == (self.verified && other.verified),
            r.trust == status_min(self.trust, other.trust),
            r.has_custom_build == (self.has_custom_build || other.has_custom_build),
            self.loc is Some && other.loc is Some ==> r.loc == Some(
                sat_add_usize(self.loc->0, other.loc->0),
            ),
            self.loc is None || other.loc is None ==> r.loc is None,
    {
        AccumulativeCrateDetails {
            trust: self.trust.min(other.trust),
            trusted_issues: self.trusted_issues.add(other.trusted_issues),
            verified: self.verified && other.verified,
            loc: sum_options_usize(self.loc, other.loc),
            geiger_count: sum_options_u64(self.geiger_count, other.geiger_count),
            has_custom_build: self.has_custom_build || other.has_custom_build,
            owner_set: self.owner_set.add(other.owner_set),
        }
    }
}

/// The neutral accumulated record: fully verified, no issues, zero known
/// counts, no build script, no owners.
pub open spec fn identity_accum() -> AccumView {
    AccumView {
        trust: VerificationStatus::Verified,
        trusted_issues: CountWithTotal { count: 0, total: 0 },
        verified: true,
        loc: Some(0usize),
        geiger_count: Some(0u64),
        has_custom_build: false,
        owner_set: Map::empty(),
    }
}

/// Combining a rollup with the neutral seed, on either side, leaves it
/// unchanged.
pub proof fn lemma_combine_identity(a: AccumView)
    ensures
        combine(a, identity_accum()) == a,
        combine(identity_accum(), a) == a,
{
    assert(combine(a, identity_accum()) =~~= a);
    assert(combine(identity_accum(), a) =~~= a);
}

/// Combination is associative, so folding the accumulated records of a
/// node's dependencies may be grouped in any way.
pub proof fn lemma_combine_assoc(a: AccumView, b: AccumView, c: AccumView)
    ensures
        combine(combine(a, b), c) == combine(a, combine(b, c)),
{
    assert(combine(combine(a, b), c) =~~= combine(a, combine(b, c)));
}

} // verus!
