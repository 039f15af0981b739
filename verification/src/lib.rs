//! Trust and risk rollups for a dependency tree of software packages.
//!
//! Per-package facts (who reviewed a package, how many lines of code it
//! has, whether it carries unsafe code or a build script, who may publish
//! it) are folded into tree-wide verdicts: composable counters, an
//! owner-overlap analysis that estimates how many independent
//! administrative domains cover the tree, and a field-by-field merge rule
//! for the accumulated record.  A thin orchestration layer consumes the
//! stream of per-package records and derives the final pass/fail verdict
//! and a ranking of trusted identities.

pub mod details;
pub mod mvps;
pub mod owners;
pub mod report;
pub mod stats;
pub mod verify;
pub mod version;
