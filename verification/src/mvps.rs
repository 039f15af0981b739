//! The ranking of identities by how many packages they vouch for.
//!
//! Every package contributes one vote to each identity in its set of
//! trusted identities; the ranking lists each identity with its vote
//! count, highest first.  This report demands complete data: a record
//! whose facts are missing or failed aborts it.

use vstd::prelude::*;

use crate::report::{CrateStats, IdKey, PubId, StatsError};

verus! {

/// Whether an entry with this identity stands in the list.
pub open spec fn reviewer_listed(rs: Seq<PubId>, id: IdKey) -> bool {
    exists|a: int| 0 <= a < rs.len() && rs[a].key() == id
}

/// Whether this package's facts list the identity among those it
/// trusts.
pub open spec fn entry_reviews(cs: CrateStats, id: IdKey) -> bool {
    cs.details_view() matches Some(d) && reviewer_listed(d.trusted_reviewers@, id)
}

/// How many packages of the sequence mark this identity as trusted:
/// one vote per package, not per review.
pub open spec fn reviewer_votes(s: Seq<CrateStats>, id: IdKey) -> nat
    decreases s.len(),
{
    if s.len() == 0 {
        0
    } else {
        reviewer_votes(s.drop_last(), id) + (if entry_reviews(s.last(), id) {
            1nat
        } else {
            0
        })
    }
}

/// Whether some package of the sequence lists the identity.
pub open spec fn some_entry_reviews(s: Seq<CrateStats>, id: IdKey) -> bool {
    exists|i: int| 0 <= i < s.len() && entry_reviews(#[trigger] s[i], id)
}

/// Whether every record carries gathered facts.
pub open spec fn all_ok(s: Seq<CrateStats>) -> bool {
    forall|i: int| 0 <= i < s.len() ==> #[trigger] s[i].details_view() is Some
}

/// The position of the first record without facts.
pub open spec fn first_bad(s: Seq<CrateStats>) -> int
    decreases s.len(),
{
    if s.len() == 0 {
        0
    } else if !(s[0].details_view() is Some) {
        0
    } else {
        1 + first_bad(s.drop_first())
    }
}

/// Why the ranking aborted: one package's facts failed, or they were
/// unexpectedly absent.
#[derive(Clone, Debug)]
pub enum MvpsError {
    Node(StatsError),
    DetailsMissing,
}

/// The error the ranking reports for a record without facts.
pub open spec fn entry_error(cs: CrateStats) -> MvpsError {
    match cs.details {
        Err(e) => MvpsError::Node(e),
        _ => MvpsError::DetailsMissing,
    }
}

/// Vote counts never decrease along the ranking.
pub open spec fn sorted_desc(v: Seq<(PubId, u64)>) -> bool {
    forall|k1: int, k2: int| 0 <= k1 < k2 < v.len() ==> v[k1].1 >= v[k2].1
}

/// Every identity appears at most once.
pub open spec fn distinct_ids(v: Seq<(PubId, u64)>) -> bool {
    forall|k1: int, k2: int| 0 <= k1 < k2 < v.len() ==> v[k1].0.key() != v[k2].0.key()
}

/// Whether the ranking already holds an entry for this identity.
pub open spec fn in_ranking(v: Seq<(PubId, u64)>, id: IdKey) -> bool {
    exists|k: int| 0 <= k < v.len() && v[k].0.key() == id
}

/// A record without facts, after a prefix with facts, is the first such.
proof fn lemma_first_bad(s: Seq<CrateStats>, i: int)
    requires
        0 <= i < s.len(),
        forall|a: int| 0 <= a < i ==> #[trigger] s[a].details_view() is Some,
        !(s[i].details_view() is Some),
    ensures
        first_bad(s) == i,
    decreases i,
{
    if i > 0 {
        assert(s[0].details_view() is Some);
        assert forall|a: int| 0 <= a < i - 1 implies #[trigger] s.drop_first()[a].details_view()
            is Some by {
            assert(s.drop_first()[a] == s[a + 1]);
        }
        assert(s.drop_first()[i - 1] == s[i]);
        lemma_first_bad(s.drop_first(), i - 1);
    }
}

/// An identity no package lists gets no votes.
proof fn lemma_votes_zero(s: Seq<CrateStats>, id: IdKey)
    requires
        !some_entry_reviews(s, id),
    ensures
        reviewer_votes(s, id) == 0,
    decreases s.len(),
{
    if s.len() > 0 {
        assert(!some_entry_reviews(s.drop_last(), id)) by {
            if some_entry_reviews(s.drop_last(), id) {
                let i = choose|i: int|
                    0 <= i < s.drop_last().len() && entry_reviews(#[trigger] s.drop_last()[i], id);
                assert(entry_reviews(s[i], id));
            }
        }
        lemma_votes_zero(s.drop_last(), id);
        assert(!entry_reviews(s[s.len() - 1], id));
    }
}

/// No identity can collect more votes than there are packages.
proof fn lemma_votes_bound(s: Seq<CrateStats>, id: IdKey)
    ensures
        reviewer_votes(s, id) <= s.len(),
    decreases s.len(),
{
    if s.len() > 0 {
        lemma_votes_bound(s.drop_last(), id);
    }
}

/// Mid-scan accounting: every entry holds the identity's votes over the
/// packages already folded in, plus one when the current package's first
/// `j` trusted entries name it.
pub open spec fn counts_ok(
    prefix: Seq<CrateStats>,
    rs: Seq<PubId>,
    j: int,
    acc: Seq<(PubId, u64)>,
) -> bool {
    forall|k: int|
        0 <= k < acc.len() ==> #[trigger] acc[k].1 == reviewer_votes(prefix, acc[k].0.key()) + (
        if reviewer_listed(rs.take(j), acc[k].0.key()) {
            1int
        } else {
            0
        })
}

/// Mid-scan coverage: the accumulator holds exactly the identities listed
/// by the packages already folded in or by the current package's first
/// `j` trusted entries.
pub open spec fn coverage_ok(
    prefix: Seq<CrateStats>,
    rs: Seq<PubId>,
    j: int,
    acc: Seq<(PubId, u64)>,
) -> bool {
    forall|id: IdKey|
        (some_entry_reviews(prefix, id) || reviewer_listed(rs.take(j), id)) <==> in_ranking(acc, id)
}

/// Whole-package accounting: every entry holds the identity's votes over
/// the first `i` packages.
pub open spec fn outer_counts_ok(ds: Seq<CrateStats>, i: int, acc: Seq<(PubId, u64)>) -> bool {
    forall|k: int|
        0 <= k < acc.len() ==> #[trigger] acc[k].1 == reviewer_votes(ds.take(i), acc[k].0.key())
}

/// Whole-package coverage: the accumulator holds exactly the identities
/// the first `i` packages list.
pub open spec fn outer_coverage_ok(ds: Seq<CrateStats>, i: int, acc: Seq<(PubId, u64)>) -> bool {
    forall|id: IdKey| some_entry_reviews(ds.take(i), id) <==> in_ranking(acc, id)
}

/// Scanning one more entry of the list adds exactly its identity to the
/// listed ones.
proof fn lemma_listed_take_step(rs: Seq<PubId>, j: int)
    requires
        0 <= j < rs.len(),
    ensures
        forall|id: IdKey|
            reviewer_listed(rs.take(j + 1), id) <==> (reviewer_listed(rs.take(j), id) || rs[j].key()
                == id),
{
    assert forall|id: IdKey|
        reviewer_listed(rs.take(j + 1), id) <==> (reviewer_listed(rs.take(j), id) || rs[j].key()
            == id) by {
        if reviewer_listed(rs.take(j + 1), id) {
            let a = choose|a: int| 0 <= a < j + 1 && (#[trigger] rs.take(j + 1)[a]).key() == id;
            if a < j {
                assert(rs.take(j)[a].key() == id);
            } else {
                assert(rs[j].key() == id);
            }
        }
        if reviewer_listed(rs.take(j), id) {
            let a = choose|a: int| 0 <= a < j && (#[trigger] rs.take(j)[a]).key() == id;
            assert(rs.take(j + 1)[a].key() == id);
        }
        if rs[j].key() == id {
            assert(rs.take(j + 1)[j].key() == id);
        }
    }
}

/// The index of the entry for this identity, if one exists.
fn find_id(v: &Vec<(PubId, u64)>, rev: &PubId) -> (r: Option<usize>)
    ensures
        match r {
            Some(k) => 0 <= k < v@.len() && v@[k as int].0.key() == rev.key(),
            None => !in_ranking(v@, rev.key()),
        },
{
    let mut k: usize = 0;
    while k < v.len()
        invariant
            0 <= k <= v@.len(),
            forall|a: int| 0 <= a < k ==> v@[a].0.key() != rev.key(),
        decreases v@.len() - k,
    {
        if v[k].0.same(rev) {
            return Some(k);
        }
        k += 1;
    }
    None
}

/// Reorders the entries so that vote counts never increase, keeping
/// exactly the given entries.
fn sort_desc(input: Vec<(PubId, u64)>) -> (r: Vec<(PubId, u64)>)
    requires
        forall|k1: int, k2: int| 0 <= k1 < k2 < input@.len() ==> input@[k1] != input@[k2],
    ensures
        sorted_desc(r@),
        r@.len() == input@.len(),
        forall|k: int| 0 <= k < r@.len() ==> input@.contains(#[trigger] r@[k]),
        forall|k: int| 0 <= k < input@.len() ==> r@.contains(#[trigger] input@[k]),
        forall|k1: int, k2: int| 0 <= k1 < k2 < r@.len() ==> r@[k1] != r@[k2],
{
    let ghost in0 = input@;
    let mut out: Vec<(PubId, u64)> = Vec::new();
    let mut src = input;
    let ghost mut t: int = 0;
    while src.len() > 0
        invariant
            0 <= t <= in0.len(),
            src@ =~= in0.skip(t),
            out@.len() == t,
            sorted_desc(out@),
            forall|k1: int, k2: int| 0 <= k1 < k2 < in0.len() ==> in0[k1] != in0[k2],
            forall|k: int| 0 <= k < out@.len() ==> in0.take(t).contains(#[trigger] out@[k]),
            forall|k: int| 0 <= k < t ==> out@.contains(#[trigger] in0[k]),
            forall|k1: int, k2: int| 0 <= k1 < k2 < out@.len() ==> out@[k1] != out@[k2],
        decreases src@.len(),
    {
        let x = src.remove(0);
        proof {
            assert(x == in0[t]);
            assert(src@ =~= in0.skip(t + 1));
        }
        let mut pos: usize = 0;
        while pos < out.len() && out[pos].1 >= x.1
            invariant
                0 <= pos <= out@.len(),
                forall|k: int| 0 <= k < pos ==> out@[k].1 >= x.1,
            decreases out@.len() - pos,
        {
            pos += 1;
        }
        let ghost old_out = out@;
        out.insert(pos, x);
        proof {
            assert(out@ =~= old_out.take(pos as int).push(x) + old_out.skip(pos as int));
            assert(forall|k: int| 0 <= k < pos ==> out@[k] == old_out[k]);
            assert(out@[pos as int] == x);
            assert(forall|k: int| pos < k < out@.len() ==> out@[k] == old_out[k - 1]);
            assert(!old_out.contains(x)) by {
                if old_out.contains(x) {
                    let k = choose|k: int| 0 <= k < old_out.len() && old_out[k] == x;
                    assert(in0.take(t).contains(x));
                    let j = choose|j: int| 0 <= j < t && in0.take(t)[j] == x;
                    assert(in0[j] == in0[t]);
                }
            }
            assert forall|k1: int, k2: int| 0 <= k1 < k2 < out@.len() implies out@[k1]
                != out@[k2] by {
                if k1 == pos {
                    assert(out@[k2] == old_out[k2 - 1]);
                } else if k2 == pos {
                    assert(out@[k1] == old_out[k1]);
                }
            }
            assert(sorted_desc(out@)) by {
                assert forall|k1: int, k2: int| 0 <= k1 < k2 < out@.len() implies out@[k1].1
                    >= out@[k2].1 by {
                    if k2 == pos {
                        assert(out@[k1] == old_out[k1]);
                    } else if k1 == pos && k2 > pos {
                        assert(out@[k2] == old_out[k2 - 1]);
                        if pos < old_out.len() {
                            assert(old_out[pos as int].1 < x.1);
                        }
                    }
                }
            }
            assert(in0.take(t + 1).drop_last() =~= in0.take(t));
            assert forall|k: int| 0 <= k < out@.len() implies in0.take(t + 1).contains(
                #[trigger] out@[k],
            ) by {
                if k == pos {
                    assert(in0.take(t + 1)[t] == x);
                } else {
                    let v = if k < pos {
                        old_out[k]
                    } else {
                        old_out[k - 1]
                    };
                    let j = choose|j: int| 0 <= j < t && in0.take(t)[j] == v;
                    assert(in0.take(t + 1)[j] == v);
                }
            }
            assert forall|k: int| 0 <= k < t + 1 implies out@.contains(#[trigger] in0[k]) by {
                if k < t {
                    let j = choose|j: int| 0 <= j < old_out.len() && old_out[j] == in0[k];
                    if j < pos {
                        assert(out@[j] == in0[k]);
                    } else {
                        assert(out@[j + 1] == in0[k]);
                    }
                } else {
                    assert(out@[pos as int] == in0[k]);
                }
            }
            t = t + 1;
        }
    }
    proof {
        assert(in0.take(t) =~= in0);
    }
    out
}

/// The ranking: one entry per identity some package
/// lists, carrying how many packages it reviews, ordered by votes,
/// highest first.  Entries with equal votes keep the order in which their
/// identities were first encountered.  The ranking aborts on the first
/// record whose facts are missing or failed.
pub fn crate_mvps(deps: &Vec<CrateStats>) -> (r: Result<Vec<(PubId, u64)>, MvpsError>)
    requires
        forall|i: int| 0 <= i < deps@.len() ==> (#[trigger] deps@[i]).wf(),
    ensures
        r is Ok <==> all_ok(deps@),
        r matches Err(e) ==> e == entry_error(deps@[first_bad(deps@)]),
        r matches Ok(v) ==> sorted_desc(v@),
        r matches Ok(v) ==> distinct_ids(v@),
        r matches Ok(v) ==> forall|k: int|
            0 <= k < v@.len() ==> #[trigger] v@[k].1 == reviewer_votes(deps@, v@[k].0.key()),
        r matches Ok(v) ==> forall|id: IdKey|
            some_entry_reviews(deps@, id) <==> in_ranking(v@, id),
{
    let ghost ds = deps@;
    let mut i: usize = 0;
    while i < deps.len()
        invariant
            0 <= i <= ds.len(),
            deps@ == ds,
            forall|a: int| 0 <= a < i ==> #[trigger] ds[a].details_view() is Some,
        decreases ds.len() - i,
    {
        if !deps[i].has_details() {
            let e = match &deps[i].details {
                Err(err) => MvpsError::Node(StatsError { message: err.message.clone() }),
                _ => MvpsError::DetailsMissing,
            };
            proof {
                lemma_first_bad(ds, i as int);
            }
            return Err(e);
        }
        i += 1;
    }
    let mut acc: Vec<(PubId, u64)> = Vec::new();
    let mut i: usize = 0;
    while i < deps.len()
        invariant
            0 <= i <= ds.len(),
            deps@ == ds,
            forall|a: int| 0 <= a < ds.len() ==> (#[trigger] ds[a]).wf(),
            forall|a: int| 0 <= a < ds.len() ==> #[trigger] ds[a].details_view() is Some,
            distinct_ids(acc@),
            outer_counts_ok(ds, i as int, acc@),
            outer_coverage_ok(ds, i as int, acc@),
        decreases ds.len() - i,
    {
        let ghost prefix = ds.take(i as int);
        let d = match deps[i].details() {
            Some(d) => d,
            None => {
                proof {
                    assert(ds[i as int].details_view() is Some);
                }
                return Err(MvpsError::DetailsMissing);
            },
        };
        let ghost rs = d.trusted_reviewers@;
        proof {
            assert(ds[i as int].details_view() == Some(*d));
            assert(ds[i as int].wf());
        }
        let mut j: usize = 0;
        proof {
            assert(rs.take(0) =~= Seq::<PubId>::empty());
            assert(counts_ok(prefix, rs, 0, acc@)) by {
                assert forall|k: int| 0 <= k < acc@.len() implies #[trigger] acc@[k].1
                    == reviewer_votes(prefix, acc@[k].0.key()) + (if reviewer_listed(
                    rs.take(0),
                    acc@[k].0.key(),
                ) {
                    1int
                } else {
                    0
                }) by {
                    assert(acc@[k].1 == reviewer_votes(ds.take(i as int), acc@[k].0.key()));
                    assert(!reviewer_listed(rs.take(0), acc@[k].0.key()));
                }
            }
            assert(coverage_ok(prefix, rs, 0, acc@)) by {
                assert forall|id: IdKey|
                    (some_entry_reviews(prefix, id) || reviewer_listed(rs.take(0), id))
                        <==> in_ranking(acc@, id) by {
                    assert(some_entry_reviews(ds.take(i as int), id) <==> in_ranking(acc@, id));
                    assert(!reviewer_listed(rs.take(0), id));
                }
            }
        }
        while j < d.trusted_reviewers.len()
            invariant
                0 <= j <= rs.len(),
                deps@ == ds,
                0 <= i < ds.len(),
                prefix == ds.take(i as int),
                rs == d.trusted_reviewers@,
                ds.len() <= usize::MAX,
                ds[i as int].details_view() == Some(*d),
                forall|a: int, b: int| 0 <= a < b < rs.len() ==> rs[a].key() != rs[b].key(),
                distinct_ids(acc@),
                counts_ok(prefix, rs, j as int, acc@),
                coverage_ok(prefix, rs, j as int, acc@),
            decreases rs.len() - j,
        {
            let rev = &d.trusted_reviewers[j];
            let ghost key = rev.key();
            proof {
                assert(!reviewer_listed(rs.take(j as int), key)) by {
                    if reviewer_listed(rs.take(j as int), key) {
                        let a = choose|a: int|
                            0 <= a < j && (#[trigger] rs.take(j as int)[a]).key() == key;
                        assert(rs[a].key() == rs[j as int].key());
                    }
                }
                lemma_listed_take_step(rs, j as int);
            }
            let ghost acc_before = acc@;
            match find_id(&acc, rev) {
                Some(k) => {
                    proof {
                        assert(counts_ok(prefix, rs, j as int, acc_before));
                        assert(acc_before[k as int].1 == reviewer_votes(prefix, key));
                        lemma_votes_bound(prefix, key);
                        assert(prefix.len() == i as int);
                        assert(acc_before[k as int].1 <= i);
                        assert(i < ds.len() <= usize::MAX <= u64::MAX);
                    }
                    let counted = acc[k].1;
                    let id_copy = PubId { id: acc[k].0.id.clone(), url: acc[k].0.url.clone() };
                    proof {
                        assert(id_copy.key() == key);
                    }
                    let _ = acc.remove(k);
                    acc.insert(k, (id_copy, counted + 1));
                    proof {
                        assert(acc@.len() == acc_before.len());
                        assert(forall|a: int|
                            0 <= a < acc@.len() && a != k ==> acc@[a] == acc_before[a]);
                        assert(acc@[k as int].0.key() == key && acc@[k as int].1 == counted + 1);
                        assert(counts_ok(prefix, rs, j + 1, acc@)) by {
                            assert forall|a: int| 0 <= a < acc@.len() implies #[trigger] acc@[a].1
                                == reviewer_votes(prefix, acc@[a].0.key()) + (if reviewer_listed(
                                rs.take(j + 1),
                                acc@[a].0.key(),
                            ) {
                                1int
                            } else {
                                0
                            }) by {
                                if a == k {
                                    assert(reviewer_listed(rs.take(j + 1), key));
                                } else {
                                    assert(acc@[a].1 == acc_before[a].1);
                                    assert(acc_before[a].1 == reviewer_votes(
                                        prefix,
                                        acc_before[a].0.key(),
                                    ) + (if reviewer_listed(
                                        rs.take(j as int),
                                        acc_before[a].0.key(),
                                    ) {
                                        1int
                                    } else {
                                        0
                                    }));
                                    assert(acc_before[a].0.key() != key);
                                }
                            }
                        }
                        assert(coverage_ok(prefix, rs, j + 1, acc@)) by {
                        assert forall|id: IdKey|
                            (some_entry_reviews(prefix, id) || reviewer_listed(
                                rs.take(j + 1),
                                id,
                            )) <==> in_ranking(acc@, id) by {
                            assert(coverage_ok(prefix, rs, j as int, acc_before));
                            assert((some_entry_reviews(prefix, id) || reviewer_listed(
                                rs.take(j as int),
                                id,
                            )) <==> in_ranking(acc_before, id));
                            assert(reviewer_listed(rs.take(j + 1), id) <==> (reviewer_listed(
                                rs.take(j as int),
                                id,
                            ) || rs[j as int].key() == id));
                            assert(in_ranking(acc@, id) == in_ranking(acc_before, id)) by {
                                if in_ranking(acc_before, id) {
                                    let a = choose|a: int|
                                        0 <= a < acc_before.len() && (#[trigger] acc_before[a]).0.key()
                                            == id;
                                    assert(acc@[a].0.key() == id);
                                }
                                if in_ranking(acc@, id) {
                                    let a = choose|a: int|
                                        0 <= a < acc@.len() && (#[trigger] acc@[a]).0.key() == id;
                                    assert(acc_before[a].0.key() == id);
                                }
                            }
                            if reviewer_listed(rs.take(j + 1), id) && !reviewer_listed(
                                rs.take(j as int),
                                id,
                            ) {
                                assert(id == key);
                                assert(in_ranking(acc_before, key));
                            }
                        }
                        }
                        assert forall|k1: int, k2: int| 0 <= k1 < k2 < acc@.len() implies acc@[k1].0.key()
                            != acc@[k2].0.key() by {
                            assert(acc@[k1].0.key() == acc_before[k1].0.key());
                            assert(acc@[k2].0.key() == acc_before[k2].0.key());
                        }
                    }
                },
                None => {
                    proof {
                        assert(!in_ranking(acc_before, key));
                        assert(coverage_ok(prefix, rs, j as int, acc_before));
                        assert((some_entry_reviews(prefix, key) || reviewer_listed(
                            rs.take(j as int),
                            key,
                        )) <==> in_ranking(acc_before, key));
                        assert(!some_entry_reviews(prefix, key) && !reviewer_listed(
                            rs.take(j as int),
                            key,
                        ));
                        lemma_votes_zero(prefix, key);
                    }
                    let fresh = PubId { id: rev.id.clone(), url: rev.url.clone() };
                    proof {
                        assert(fresh.key() == key);
                    }
                    acc.push((fresh, 1));
                    proof {
                        assert(acc@.len() == acc_before.len() + 1);
                        assert(forall|a: int|
                            0 <= a < acc_before.len() ==> acc@[a] == acc_before[a]);
                        assert(acc@[acc@.len() - 1].0.key() == key && acc@[acc@.len() - 1].1 == 1);
                        assert(counts_ok(prefix, rs, j as int, acc_before));
                        assert(counts_ok(prefix, rs, j + 1, acc@)) by {
                        assert forall|a: int| 0 <= a < acc@.len() implies #[trigger] acc@[a].1
                            == reviewer_votes(prefix, acc@[a].0.key()) + (if reviewer_listed(
                            rs.take(j + 1),
                            acc@[a].0.key(),
                        ) {
                            1int
                        } else {
                            0
                        }) by {
                            if a == acc@.len() - 1 {
                                assert(reviewer_listed(rs.take(j + 1), key));
                            } else {
                                assert(acc@[a].1 == acc_before[a].1);
                                assert(acc_before[a].1 == reviewer_votes(
                                    prefix,
                                    acc_before[a].0.key(),
                                ) + (if reviewer_listed(
                                    rs.take(j as int),
                                    acc_before[a].0.key(),
                                ) {
                                    1int
                                } else {
                                    0
                                }));
                                assert(acc_before[a].0.key() != key);
                            }
                        }
                        }
                        assert(coverage_ok(prefix, rs, j + 1, acc@)) by {
                        assert forall|id: IdKey|
                            (some_entry_reviews(prefix, id) || reviewer_listed(
                                rs.take(j + 1),
                                id,
                            )) <==> in_ranking(acc@, id) by {
                            assert(coverage_ok(prefix, rs, j as int, acc_before));
                            assert((some_entry_reviews(prefix, id) || reviewer_listed(
                                rs.take(j as int),
                                id,
                            )) <==> in_ranking(acc_before, id));
                            assert(reviewer_listed(rs.take(j + 1), id) <==> (reviewer_listed(
                                rs.take(j as int),
                                id,
                            ) || rs[j as int].key() == id));
                            if in_ranking(acc@, id) {
                                let a = choose|a: int|
                                    0 <= a < acc@.len() && (#[trigger] acc@[a]).0.key() == id;
                                if a < acc_before.len() {
                                    assert(in_ranking(acc_before, id));
                                } else {
                                    assert(id == key);
                                }
                            }
                            if some_entry_reviews(prefix, id) || reviewer_listed(
                                rs.take(j + 1),
                                id,
                            ) {
                                if in_ranking(acc_before, id) {
                                    let a = choose|a: int|
                                        0 <= a < acc_before.len() && (#[trigger] acc_before[a]).0.key()
                                            == id;
                                    assert(acc@[a].0.key() == id);
                                } else {
                                    assert(id == key);
                                    assert(acc@[acc@.len() - 1].0.key() == id);
                                }
                            }
                        }
                        }
                        assert forall|k1: int, k2: int| 0 <= k1 < k2 < acc@.len() implies acc@[k1].0.key()
                            != acc@[k2].0.key() by {
                            if k2 == acc@.len() - 1 {
                                assert(!in_ranking(acc_before, key));
                                assert(acc@[k1].0.key() == acc_before[k1].0.key());
                            }
                        }
                    }
                },
            }
            j += 1;
        }
        proof {
            assert(rs.take(rs.len() as int) =~= rs);
            assert(ds.take(i + 1).drop_last() =~= prefix);
            assert(ds.take(i + 1).last() == ds[i as int]);
            assert(counts_ok(prefix, rs, rs.len() as int, acc@));
            assert(coverage_ok(prefix, rs, rs.len() as int, acc@));
            assert(outer_counts_ok(ds, i + 1, acc@)) by {
                assert forall|k: int| 0 <= k < acc@.len() implies #[trigger] acc@[k].1
                    == reviewer_votes(ds.take(i + 1), acc@[k].0.key()) by {
                    let key = acc@[k].0.key();
                    assert(acc@[k].1 == reviewer_votes(prefix, key) + (if reviewer_listed(
                        rs.take(rs.len() as int),
                        key,
                    ) {
                        1int
                    } else {
                        0
                    }));
                    assert(entry_reviews(ds[i as int], key) <==> reviewer_listed(rs, key));
                    assert(reviewer_votes(ds.take(i + 1), key) == reviewer_votes(prefix, key) + (
                    if entry_reviews(ds[i as int], key) {
                        1int
                    } else {
                        0
                    }));
                }
            }
            assert(outer_coverage_ok(ds, i + 1, acc@)) by {
                assert forall|id: IdKey|
                    some_entry_reviews(ds.take(i + 1), id) <==> in_ranking(acc@, id) by {
                    assert((some_entry_reviews(prefix, id) || reviewer_listed(
                        rs.take(rs.len() as int),
                        id,
                    )) <==> in_ranking(acc@, id));
                    if some_entry_reviews(ds.take(i + 1), id) {
                        let a = choose|a: int|
                            0 <= a < i + 1 && entry_reviews(#[trigger] ds.take(i + 1)[a], id);
                        if a < i {
                            assert(entry_reviews(prefix[a], id));
                        } else {
                            assert(reviewer_listed(rs, id));
                        }
                    } else {
                        if some_entry_reviews(prefix, id) {
                            let a = choose|a: int|
                                0 <= a < i && entry_reviews(#[trigger] prefix[a], id);
                            assert(entry_reviews(ds.take(i + 1)[a], id));
                        }
                        if reviewer_listed(rs, id) {
                            assert(entry_reviews(ds.take(i + 1)[i as int], id));
                        }
                    }
                }
            }
        }
        i += 1;
    }
    proof {
        assert(ds.take(ds.len() as int) =~= ds);
        assert(outer_counts_ok(ds, ds.len() as int, acc@));
        assert(outer_coverage_ok(ds, ds.len() as int, acc@));
        assert forall|k: int| 0 <= k < acc@.len() implies #[trigger] acc@[k].1 == reviewer_votes(
            ds,
            acc@[k].0.key(),
        ) by {
            assert(acc@[k].1 == reviewer_votes(ds.take(ds.len() as int), acc@[k].0.key()));
        }
        assert forall|id: IdKey| some_entry_reviews(ds, id) <==> in_ranking(acc@, id) by {
            assert(some_entry_reviews(ds.take(ds.len() as int), id) <==> in_ranking(acc@, id));
        }
        assert forall|k1: int, k2: int| 0 <= k1 < k2 < acc@.len() implies acc@[k1] != acc@[k2] by {
            assert(acc@[k1].0.key() != acc@[k2].0.key());
        }
    }
    let ghost acc0 = acc@;
    let ranked = sort_desc(acc);
    proof {
        assert forall|k: int| 0 <= k < ranked@.len() implies #[trigger] ranked@[k].1
            == reviewer_votes(ds, ranked@[k].0.key()) by {
            assert(acc0.contains(ranked@[k]));
            let j = choose|j: int| 0 <= j < acc0.len() && acc0[j] == ranked@[k];
            assert(acc0[j].1 == reviewer_votes(ds, acc0[j].0.key()));
        }
        assert forall|k1: int, k2: int| 0 <= k1 < k2 < ranked@.len() implies ranked@[k1].0.key()
            != ranked@[k2].0.key() by {
            assert(acc0.contains(ranked@[k1]));
            assert(acc0.contains(ranked@[k2]));
            let j1 = choose|j1: int| 0 <= j1 < acc0.len() && acc0[j1] == ranked@[k1];
            let j2 = choose|j2: int| 0 <= j2 < acc0.len() && acc0[j2] == ranked@[k2];
            assert(ranked@[k1] != ranked@[k2]);
            assert(j1 != j2);
            assert(acc0[j1].0.key() != acc0[j2].0.key());
        }
        assert forall|id: IdKey| some_entry_reviews(ds, id) <==> in_ranking(ranked@, id) by {
            if in_ranking(ranked@, id) {
                let k = choose|k: int| 0 <= k < ranked@.len() && (#[trigger] ranked@[k]).0.key()
                    == id;
                assert(acc0.contains(ranked@[k]));
                let j = choose|j: int| 0 <= j < acc0.len() && acc0[j] == ranked@[k];
                assert(acc0[j].0.key() == id);
                assert(in_ranking(acc0, id));
            }
            if some_entry_reviews(ds, id) {
                assert(in_ranking(acc0, id));
                let k = choose|k: int| 0 <= k < acc0.len() && (#[trigger] acc0[k]).0.key() == id;
                assert(ranked@.contains(acc0[k]));
                let j = choose|j: int| 0 <= j < ranked@.len() && ranked@[j] == acc0[k];
                assert(ranked@[j].0.key() == id);
                assert(in_ranking(ranked@, id));
            }
        }
    }
    Ok(ranked)
}

} // verus!
