//! Per-package snapshot records, as the scanner hands them over.
//!
//! `CrateStats` pairs a package's identity with either its gathered
//! facts, an error, or nothing when facts are intentionally unavailable.
//! The facts wrap the package's own rollup and the rollup of its whole
//! dependency subtree.

use vstd::prelude::*;

use crate::details::AccumulativeCrateDetails;
use crate::owners::PkgId;
use crate::stats::CountWithTotal;
use crate::version::Version;

verus! {

/// A public identity in the web of trust: an identifier and the URL of
/// the proof repository it publishes.
#[derive(Clone, Debug)]
pub struct PubId {
    pub id: String,
    pub url: String,
}

/// The mathematical content of a public identity.
pub type IdKey = (Seq<char>, Seq<char>);

impl PubId {
    /// The identity this value denotes.
    pub open spec fn key(&self) -> IdKey {
        (self.id@, self.url@)
    }

    /// Whether two values denote the same identity.
    pub fn same(&self, other: &PubId) -> (r: bool)
        ensures
            r == (self.key() == other.key()),
    {
        self.id == other.id && self.url == other.url
    }
}

/// One package's presentable facts: review coverage, owner counts, and
/// the rollups for the package alone and for its whole subtree.
#[derive(Clone, Debug)]
pub struct CrateDetails {
    pub digest: Vec<u8>,
    pub latest_trusted_version: Option<Version>,
    pub trusted_reviewers: Vec<PubId>,
    pub version_reviews: CountWithTotal,
    pub version_downloads: Option<CountWithTotal>,
    pub known_owners: Option<CountWithTotal>,
    pub unclean_digest: bool,
    pub accumulative_own: AccumulativeCrateDetails,
    pub accumulative: AccumulativeCrateDetails,
}

impl CrateDetails {
    /// The trusted identities form a set and the rollups are keyed
    /// consistently.
    pub open spec fn wf(&self) -> bool {
        &&& forall|a: int, b: int|
            0 <= a < b < self.trusted_reviewers@.len()
                ==> self.trusted_reviewers@[a].key() != self.trusted_reviewers@[b].key()
        &&& self.accumulative_own.wf()
        &&& self.accumulative.wf()
    }
}

/// Basic information on a package under scan.
#[derive(Clone, Debug)]
pub struct CrateInfo {
    pub id: PkgId,
    pub root: String,
    pub has_custom_build: bool,
}

impl CrateInfo {
    /// Whether two records denote the same package.  The root path and
    /// the build flag do not take part: the same name and version is the
    /// same entity wherever it sits on disk.
    pub fn same_id(&self, other: &CrateInfo) -> (r: bool)
        ensures
            r == (self.id.key() == other.id.key()),
    {
        self.id.same(&other.id)
    }
}

/// Why fact-gathering failed for one package.
#[derive(Clone, Debug)]
pub struct StatsError {
    pub message: String,
}

/// One package as the scanner reports it.  `details` is an error when
/// fact-gathering failed for this package, `Ok(None)` when facts are
/// intentionally unavailable, and `Ok(Some(..))` on success.
pub struct CrateStats {
    pub info: CrateInfo,
    pub details: Result<Option<CrateDetails>, StatsError>,
}

impl CrateStats {
    /// The gathered facts, when there are any.
    pub open spec fn details_view(&self) -> Option<CrateDetails> {
        match self.details {
            Ok(Some(d)) => Some(d),
            _ => None,
        }
    }

    /// Whatever facts this record holds are well formed.
    pub open spec fn wf(&self) -> bool {
        self.details_view() matches Some(d) ==> d.wf()
    }

    /// Whether the locally checked-out source does not match the digest
    /// that was reviewed.  Without facts there is nothing to compare.
    pub fn is_digest_unclean(&self) -> (r: bool)
        ensures
            r == (self.details_view() matches Some(d) && d.unclean_digest),
    {
        match &self.details {
            Ok(Some(d)) => d.unclean_digest,
            _ => false,
        }
    }

    /// Whether facts were gathered for this package.
    pub fn has_details(&self) -> (r: bool)
        ensures
            r == (self.details_view() is Some),
    {
        match &self.details {
            Ok(Some(_)) => true,
            _ => false,
        }
    }

    /// Whether this package's subtree carries a build script, when known.
    pub fn has_custom_build(&self) -> (r: Option<bool>)
        ensures
            match self.details_view() {
                Some(d) => r == Some(d.accumulative.has_custom_build),
                None => r is None,
            },
    {
        match &self.details {
            Ok(Some(d)) => Some(d.accumulative.has_custom_build),
            _ => None,
        }
    }

    /// The gathered facts, when there are any.
    pub fn details(&self) -> (r: Option<&CrateDetails>)
        ensures
            match r {
                Some(d) => self.details_view() == Some(*d),
                None => self.details_view() is None,
            },
    {
        if let Ok(Some(details)) = &self.details {
            Some(details)
        } else {
            None
        }
    }
}

} // verus!
