use cargo_crev::details::{AccumulativeCrateDetails, VerificationStatus};
use cargo_crev::mvps::{crate_mvps, MvpsError};
use cargo_crev::owners::{OwnerSetSet, PkgId};
use cargo_crev::report::{CrateDetails, CrateInfo, CrateStats, PubId, StatsError};
use cargo_crev::stats::CountWithTotal;
use cargo_crev::verify::{count_unclean_digests, count_unverified, verify_deps, CommandExitStatus};
use cargo_crev::version::Version;

fn pkg(name: &str) -> PkgId {
    PkgId { name: name.to_string(), version: Version { major: 1, minor: 0, patch: 0 } }
}

fn reviewer(id: &str) -> PubId {
    PubId { id: id.to_string(), url: format!("https://example.com/{}", id) }
}

fn accum(verified: bool, name: &str) -> AccumulativeCrateDetails {
    AccumulativeCrateDetails {
        trust: VerificationStatus::Verified,
        trusted_issues: CountWithTotal { count: 0, total: 0 },
        verified,
        loc: Some(100),
        geiger_count: Some(0),
        has_custom_build: false,
        owner_set: OwnerSetSet::new(pkg(name), vec!["owner".to_string()]),
    }
}

fn details(
    name: &str,
    unclean: bool,
    subtree_verified: bool,
    reviewers: Vec<PubId>,
) -> CrateDetails {
    CrateDetails {
        digest: vec![0xab; 32],
        latest_trusted_version: None,
        trusted_reviewers: reviewers,
        version_reviews: CountWithTotal { count: 1, total: 1 },
        version_downloads: None,
        known_owners: None,
        unclean_digest: unclean,
        accumulative_own: accum(true, name),
        accumulative: accum(subtree_verified, name),
    }
}

fn stats(name: &str, unclean: bool, subtree_verified: bool, reviewers: Vec<PubId>) -> CrateStats {
    CrateStats {
        info: CrateInfo { id: pkg(name), root: format!("/tmp/{}", name), has_custom_build: false },
        details: Ok(Some(details(name, unclean, subtree_verified, reviewers))),
    }
}

#[test]
fn stats_accessors_reflect_details() {
    let ok = stats("a", true, false, vec![]);
    assert!(ok.has_details());
    assert!(ok.is_digest_unclean());
    assert_eq!(ok.has_custom_build(), Some(false));
    assert!(ok.details().is_some());

    let missing = CrateStats {
        info: CrateInfo { id: pkg("b"), root: String::new(), has_custom_build: false },
        details: Ok(None),
    };
    assert!(!missing.has_details());
    assert!(!missing.is_digest_unclean());
    assert_eq!(missing.has_custom_build(), None);
    assert!(missing.details().is_none());

    let failed = CrateStats {
        info: CrateInfo { id: pkg("c"), root: String::new(), has_custom_build: false },
        details: Err(StatsError { message: "digest lookup failed".to_string() }),
    };
    assert!(!failed.has_details());
    assert!(!failed.is_digest_unclean());
}

#[test]
fn unclean_chain_fails_verification_without_error() {
    // A depends on B, B depends on C; C is unverified, and B's checkout is
    // unclean.  The unverified leaf poisons the accumulated records of A
    // and B.
    let a = stats("a", false, false, vec![]);
    let b = stats("b", true, false, vec![]);
    let c = stats("c", false, false, vec![]);
    let deps = vec![a, b, c];
    assert_eq!(count_unclean_digests(&deps), 1);
    assert_eq!(count_unverified(&deps), 1);
    assert_eq!(verify_deps(&deps), CommandExitStatus::VerificationFailed);
}

#[test]
fn clean_verified_tree_passes() {
    let deps = vec![stats("a", false, true, vec![]), stats("b", false, true, vec![])];
    assert_eq!(count_unclean_digests(&deps), 0);
    assert_eq!(count_unverified(&deps), 0);
    assert_eq!(verify_deps(&deps), CommandExitStatus::Success);
}

#[test]
fn unclean_but_verified_subtree_still_succeeds() {
    let deps = vec![stats("a", true, true, vec![])];
    assert_eq!(count_unclean_digests(&deps), 1);
    assert_eq!(count_unverified(&deps), 0);
    assert_eq!(verify_deps(&deps), CommandExitStatus::Success);
}

#[test]
fn mvps_single_reviewer_of_two_packages() {
    let r = reviewer("r");
    let deps = vec![
        stats("a", false, true, vec![r.clone()]),
        stats("b", false, true, vec![r.clone()]),
    ];
    let ranked = crate_mvps(&deps).unwrap();
    assert_eq!(ranked.len(), 1);
    assert!(ranked[0].0.same(&r));
    assert_eq!(ranked[0].1, 2);
}

#[test]
fn mvps_orders_by_votes_descending() {
    let r = reviewer("busy");
    let s = reviewer("occasional");
    let deps = vec![
        stats("a", false, true, vec![s.clone()]),
        stats("b", false, true, vec![r.clone(), s.clone()]),
        stats("c", false, true, vec![r.clone()]),
        stats("d", false, true, vec![r.clone()]),
    ];
    let ranked = crate_mvps(&deps).unwrap();
    assert_eq!(ranked.len(), 2);
    assert!(ranked[0].0.same(&r));
    assert_eq!(ranked[0].1, 3);
    assert!(ranked[1].0.same(&s));
    assert_eq!(ranked[1].1, 2);
}

#[test]
fn mvps_keeps_encounter_order_on_ties() {
    let first = reviewer("first_seen");
    let second = reviewer("second_seen");
    let deps = vec![
        stats("a", false, true, vec![first.clone()]),
        stats("b", false, true, vec![second.clone()]),
    ];
    let ranked = crate_mvps(&deps).unwrap();
    assert_eq!(ranked.len(), 2);
    assert!(ranked[0].0.same(&first));
    assert!(ranked[1].0.same(&second));
    assert_eq!(ranked[0].1, 1);
    assert_eq!(ranked[1].1, 1);
}

#[test]
fn mvps_fails_fast_on_node_error() {
    let broken = CrateStats {
        info: CrateInfo { id: pkg("x"), root: String::new(), has_custom_build: false },
        details: Err(StatsError { message: "registry unreachable".to_string() }),
    };
    let deps = vec![stats("a", false, true, vec![reviewer("r")]), broken];
    match crate_mvps(&deps) {
        Err(MvpsError::Node(e)) => assert_eq!(e.message, "registry unreachable"),
        other => panic!("expected a node error, got {:?}", other.map(|v| v.len())),
    }
}

#[test]
fn mvps_fails_on_missing_details() {
    let absent = CrateStats {
        info: CrateInfo { id: pkg("x"), root: String::new(), has_custom_build: false },
        details: Ok(None),
    };
    let deps = vec![absent, stats("a", false, true, vec![reviewer("r")])];
    assert!(matches!(crate_mvps(&deps), Err(MvpsError::DetailsMissing)));
}

#[test]
fn crate_info_equality_is_by_identity() {
    let a = CrateInfo { id: pkg("a"), root: "/one".to_string(), has_custom_build: false };
    let b = CrateInfo { id: pkg("a"), root: "/two".to_string(), has_custom_build: true };
    let c = CrateInfo { id: pkg("b"), root: "/one".to_string(), has_custom_build: false };
    assert!(a.same_id(&b));
    assert!(!a.same_id(&c));
}
