use cargo_crev::details::VerificationStatus::{Insufficient, Negative, Verified};
use cargo_crev::details::{
    sum_options_u64, sum_options_usize, AccumulativeCrateDetails, VerificationStatus,
};
use cargo_crev::owners::{OwnerSetSet, PkgId};
use cargo_crev::stats::{CountWithTotal, Progress};
use cargo_crev::version::{latest_trusted_version_string, Version};

fn ver(major: u64, minor: u64, patch: u64) -> Version {
    Version { major, minor, patch }
}

fn pkg(name: &str) -> PkgId {
    PkgId { name: name.to_string(), version: ver(1, 0, 0) }
}

fn owners(names: &[&str]) -> Vec<String> {
    names.iter().map(|n| n.to_string()).collect()
}

fn accum(
    trust: VerificationStatus,
    verified: bool,
    loc: Option<usize>,
    geiger: Option<u64>,
    custom_build: bool,
    owner_set: OwnerSetSet,
) -> AccumulativeCrateDetails {
    AccumulativeCrateDetails {
        trust,
        trusted_issues: CountWithTotal { count: 0, total: 0 },
        verified,
        loc,
        geiger_count: geiger,
        has_custom_build: custom_build,
        owner_set,
    }
}

#[test]
fn progress_validity_and_completion() {
    let p = Progress { done: 3, total: 5 };
    assert!(p.is_valid());
    assert!(!p.is_complete());
    let q = Progress { done: 5, total: 5 };
    assert!(q.is_valid());
    assert!(q.is_complete());
    let r = Progress { done: 6, total: 5 };
    assert!(!r.is_valid());
    assert!(r.is_complete());
}

#[test]
fn count_add_is_componentwise() {
    let a = CountWithTotal { count: 2, total: 7 };
    let b = CountWithTotal { count: 5, total: 11 };
    let c = a.add(b);
    assert_eq!(c.count, 7);
    assert_eq!(c.total, 18);
}

#[test]
fn count_add_associative_and_commutative() {
    let a = CountWithTotal { count: 1, total: 10 };
    let b = CountWithTotal { count: 2, total: 20 };
    let c = CountWithTotal { count: 3, total: 30 };
    let left = a.add(b).add(c);
    let right = a.add(b.add(c));
    assert_eq!(left, right);
    assert_eq!(a.add(b), b.add(a));
}

#[test]
fn count_add_saturates() {
    let a = CountWithTotal { count: u64::MAX - 1, total: u64::MAX };
    let b = CountWithTotal { count: 5, total: 1 };
    let c = a.add(b);
    assert_eq!(c.count, u64::MAX);
    assert_eq!(c.total, u64::MAX);
}

#[test]
fn sum_options_poisons_on_unknown() {
    assert_eq!(sum_options_usize(Some(2), Some(3)), Some(5));
    assert_eq!(sum_options_usize(None, Some(3)), None);
    assert_eq!(sum_options_usize(Some(2), None), None);
    assert_eq!(sum_options_usize(None, None), None);
    assert_eq!(sum_options_u64(Some(4), Some(6)), Some(10));
    assert_eq!(sum_options_u64(None, Some(6)), None);
}

#[test]
fn status_min_takes_the_weakest() {
    assert_eq!(Verified.min(Insufficient), Insufficient);
    assert_eq!(Insufficient.min(Verified), Insufficient);
    assert_eq!(Verified.min(Negative), Negative);
    assert_eq!(Negative.min(Insufficient), Negative);
    assert_eq!(Verified.min(Verified), Verified);
}

#[test]
fn combine_verified_trust_and_build_flags() {
    let a = accum(Verified, true, Some(10), Some(0), false, OwnerSetSet::new(pkg("a"), owners(&["x"])));
    let b = accum(Insufficient, false, Some(20), Some(3), true, OwnerSetSet::new(pkg("b"), owners(&["y"])));
    let c = a.add(b);
    assert_eq!(c.trust, Insufficient);
    assert!(!c.verified);
    assert!(c.has_custom_build);
    assert_eq!(c.loc, Some(30));
    assert_eq!(c.geiger_count, Some(3));
}

#[test]
fn combine_unknown_loc_poisons_the_sum() {
    let a = accum(Verified, true, None, Some(1), false, OwnerSetSet::new(pkg("a"), owners(&["x"])));
    let b = accum(Verified, true, Some(20), None, false, OwnerSetSet::new(pkg("b"), owners(&["y"])));
    let c = a.add(b);
    assert_eq!(c.loc, None);
    assert_eq!(c.geiger_count, None);
}

#[test]
fn combine_with_identity_seed_changes_nothing() {
    let a = accum(Insufficient, false, Some(42), Some(7), true, OwnerSetSet::new(pkg("a"), owners(&["x", "y"])));
    let seed = AccumulativeCrateDetails {
        trust: Verified,
        trusted_issues: CountWithTotal { count: 0, total: 0 },
        verified: true,
        loc: Some(0),
        geiger_count: Some(0),
        has_custom_build: false,
        owner_set: OwnerSetSet { groups: Vec::new() },
    };
    let c = a.clone().add(seed);
    assert_eq!(c.trust, Insufficient);
    assert!(!c.verified);
    assert_eq!(c.loc, Some(42));
    assert_eq!(c.geiger_count, Some(7));
    assert!(c.has_custom_build);
    assert_eq!(c.trusted_issues, CountWithTotal { count: 0, total: 0 });
    assert_eq!(c.owner_set.to_total_owners(), 2);
}

#[test]
fn distinct_groups_subset_collapses() {
    let s = OwnerSetSet::new(pkg("p1"), owners(&["x", "y"]))
        .add(OwnerSetSet::new(pkg("p2"), owners(&["x"])));
    assert_eq!(s.to_total_distinct_groups(), 1);
}

#[test]
fn distinct_groups_disjoint_both_count() {
    let s = OwnerSetSet::new(pkg("p1"), owners(&["x"]))
        .add(OwnerSetSet::new(pkg("p2"), owners(&["y"])));
    assert_eq!(s.to_total_distinct_groups(), 2);
}

#[test]
fn distinct_groups_equal_sets_count_once() {
    let s = OwnerSetSet::new(pkg("p1"), owners(&["x", "y"]))
        .add(OwnerSetSet::new(pkg("p2"), owners(&["y", "x"])));
    assert_eq!(s.to_total_distinct_groups(), 1);
}

#[test]
fn total_owners_collapses_duplicates() {
    let s = OwnerSetSet::new(pkg("p1"), owners(&["x", "y"]))
        .add(OwnerSetSet::new(pkg("p2"), owners(&["y", "z"])));
    assert_eq!(s.to_total_owners(), 3);
}

#[test]
fn union_last_write_wins_on_key_collision() {
    let first = OwnerSetSet::new(pkg("p1"), owners(&["x", "y", "z"]));
    let second = OwnerSetSet::new(pkg("p1"), owners(&["w"]));
    let merged = first.add(second);
    assert_eq!(merged.to_total_owners(), 1);
    assert!(merged.contains_pkg(&pkg("p1")));
    assert!(!merged.contains_pkg(&pkg("p2")));
}

#[test]
fn version_order_is_lexicographic() {
    assert!(ver(1, 2, 3).lt(&ver(2, 0, 0)));
    assert!(ver(1, 2, 3).lt(&ver(1, 3, 0)));
    assert!(ver(1, 2, 3).lt(&ver(1, 2, 4)));
    assert!(!ver(1, 2, 3).lt(&ver(1, 2, 3)));
    assert!(!ver(2, 0, 0).lt(&ver(1, 9, 9)));
}

#[test]
fn version_renders_in_decimal() {
    assert_eq!(ver(1, 2, 3).to_text(), "1.2.3");
    assert_eq!(ver(0, 0, 0).to_text(), "0.0.0");
    assert_eq!(ver(10, 250, 40001).to_text(), "10.250.40001");
}

#[test]
fn trusted_version_delta_indicator() {
    let base = ver(1, 2, 3);
    assert_eq!(latest_trusted_version_string(&base, &None), "");
    assert_eq!(latest_trusted_version_string(&base, &Some(ver(1, 2, 3))), "=");
    assert_eq!(
        latest_trusted_version_string(&base, &Some(ver(1, 2, 4))),
        "\u{2191}1.2.4"
    );
    assert_eq!(
        latest_trusted_version_string(&base, &Some(ver(1, 0, 0))),
        "\u{2193}1.0.0"
    );
}

#[test]
fn package_identity_ignores_version_mismatch_only() {
    let a = PkgId { name: "serde".to_string(), version: ver(1, 0, 0) };
    let b = PkgId { name: "serde".to_string(), version: ver(1, 0, 0) };
    let c = PkgId { name: "serde".to_string(), version: ver(1, 0, 1) };
    let d = PkgId { name: "serde_json".to_string(), version: ver(1, 0, 0) };
    assert!(a.same(&b));
    assert!(!a.same(&c));
    assert!(!a.same(&d));
}
