//! Ownership groups across a dependency tree.
//!
//! Every package carries the set of accounts with publish rights over it.
//! `OwnerSetSet` collects those groups keyed by the originating package
//! and derives two risk metrics: the number of distinct owners overall,
//! and the number of distinct owner groups that are not contained in any
//! other group — an estimate of how many independent administrative
//! domains must be compromised to own every listed package.

use vstd::prelude::*;

use crate::version::Version;

verus! {

/// The set of names a sequence of owner strings holds.
pub open spec fn names_set(v: Seq<String>) -> Set<Seq<char>> {
    Set::new(|x: Seq<char>| exists|a: int| 0 <= a < v.len() && v[a]@ == x)
}

/// No two entries hold the same name.
pub open spec fn names_distinct(v: Seq<String>) -> bool {
    forall|a: int, b: int| 0 <= a < b < v.len() ==> v[a]@ != v[b]@
}

/// Appending one more owner adds exactly its name to the set.
pub proof fn lemma_names_set_push(v: Seq<String>, s: String)
    ensures
        names_set(v.push(s)) =~= names_set(v).insert(s@),
{
    assert forall|x: Seq<char>| names_set(v.push(s)).contains(x) implies names_set(v).insert(
        s@,
    ).contains(x) by {
        let a = choose|a: int| 0 <= a < v.push(s).len() && v.push(s)[a]@ == x;
        if a < v.len() {
            assert(v[a]@ == x);
        }
    }
    assert forall|x: Seq<char>| names_set(v).insert(s@).contains(x) implies names_set(
        v.push(s),
    ).contains(x) by {
        if names_set(v).contains(x) {
            let a = choose|a: int| 0 <= a < v.len() && v[a]@ == x;
            assert(v.push(s)[a]@ == x);
        } else {
            assert(v.push(s)[v.len() as int]@ == x);
        }
    }
}

/// A sequence of pairwise distinct names denotes a set of matching size.
pub proof fn lemma_names_set_len(v: Seq<String>)
    requires
        names_distinct(v),
    ensures
        names_set(v).finite(),
        names_set(v).len() == v.len(),
    decreases v.len(),
{
    if v.len() == 0 {
        assert(names_set(v) =~= Set::<Seq<char>>::empty());
    } else {
        let w = v.drop_last();
        lemma_names_set_len(w);
        assert(w.push(v.last()) =~= v);
        lemma_names_set_push(w, v.last());
        assert(names_set(v) =~= names_set(w).insert(v.last()@));
        assert(!names_set(w).contains(v.last()@));
        vstd::set::axiom_set_insert_len(names_set(w), v.last()@);
    }
}

/// The identity of one package: its name and version.  Two identities
/// with the same name and version denote the same package, wherever its
/// sources sit on disk.
#[derive(Clone, Debug)]
pub struct PkgId {
    pub name: String,
    pub version: Version,
}

/// The mathematical identity of a package: its name's characters and its
/// version.
pub type PkgKey = (Seq<char>, Version);

impl PkgId {
    /// The identity this value denotes.
    pub open spec fn key(&self) -> PkgKey {
        (self.name@, self.version)
    }

    /// Whether two identities denote the same package.
    pub fn same(&self, other: &PkgId) -> (r: bool)
        ensures
            r == (self.key() == other.key()),
    {
        self.name == other.name && self.version == other.version
    }
}

/// One ownership group: the accounts with publish rights over one
/// package.
#[derive(Clone, Debug)]
pub struct OwnerGroup {
    pub pkg: PkgId,
    pub owners: Vec<String>,
}

impl OwnerGroup {
    /// The owner names of this group, as a set.
    pub open spec fn owner_set(&self) -> Set<Seq<char>> {
        names_set(self.owners@)
    }
}

/// The collection a sequence of groups denotes: a map from package
/// identity to owner set, where a later group overwrites an earlier one
/// under the same identity.
pub open spec fn groups_map(s: Seq<OwnerGroup>) -> Map<PkgKey, Set<Seq<char>>>
    decreases s.len(),
{
    if s.len() == 0 {
        Map::empty()
    } else {
        groups_map(s.drop_last()).insert(s.last().pkg.key(), s.last().owner_set())
    }
}

/// The union of every owner set in the collection.
pub open spec fn all_owners(m: Map<PkgKey, Set<Seq<char>>>) -> Set<Seq<char>> {
    Set::new(|o: Seq<char>| exists|k: PkgKey| m.dom().contains(k) && m[k].contains(o))
}

/// The owner sets that no other owner set in the collection strictly
/// contains.  Equal groups under different packages collapse to one
/// element here, so each independent administrative domain is counted
/// once.
pub open spec fn maximal_sets(m: Map<PkgKey, Set<Seq<char>>>) -> Set<Set<Seq<char>>> {
    Set::new(
        |t: Set<Seq<char>>|
            m.values().contains(t) && (forall|u: Set<Seq<char>>|
                m.values().contains(u) && t.subset_of(u) ==> t == u),
    )
}

/// A set of owner groups, keyed by the package each group came from.
#[derive(Clone, Debug)]
pub struct OwnerSetSet {
    pub groups: Vec<OwnerGroup>,
}

impl View for OwnerSetSet {
    type V = Map<PkgKey, Set<Seq<char>>>;

    open spec fn view(&self) -> Map<PkgKey, Set<Seq<char>>> {
        groups_map(self.groups@)
    }
}

impl OwnerSetSet {
    /// Each package identity appears at most once among the groups.
    pub open spec fn wf(&self) -> bool {
        forall|i: int, j: int|
            0 <= i < j < self.groups@.len() ==> self.groups@[i].pkg.key() != self.groups@[j].pkg.key()
    }

    /// A collection holding one group.
    pub fn new(pkg_id: PkgId, owners: Vec<String>) -> (r: OwnerSetSet)
        ensures
            r.wf(),
            r@ == Map::<PkgKey, Set<Seq<char>>>::empty().insert(pkg_id.key(), names_set(owners@)),
    {
        let mut groups: Vec<OwnerGroup> = Vec::new();
        groups.push(OwnerGroup { pkg: pkg_id, owners });
        proof {
            reveal_with_fuel(groups_map, 2);
            assert(groups@.drop_last() =~= Seq::<OwnerGroup>::empty());
            assert(groups_map(groups@) =~= Map::<PkgKey, Set<Seq<char>>>::empty().insert(
                pkg_id.key(),
                names_set(owners@),
            ));
        }
        OwnerSetSet { groups }
    }

    /// Whether some group came from the given package.
    pub fn contains_pkg(&self, pkg: &PkgId) -> (r: bool)
        ensures
            r == self@.dom().contains(pkg.key()),
    {
        let mut i: usize = 0;
        let mut found = false;
        while i < self.groups.len()
            invariant
                0 <= i <= self.groups@.len(),
                found == exists|a: int| 0 <= a < i && self.groups@[a].pkg.key() == pkg.key(),
            decreases self.groups@.len() - i,
        {
            if self.groups[i].pkg.same(pkg) {
                found = true;
            }
            i += 1;
        }
        proof {
            lemma_groups_map_dom(self.groups@);
        }
        found
    }
}

impl OwnerSetSet {
    /// Key-wise union of two collections.  On a key collision the
    /// right-hand operand's group replaces the left's.
    pub fn add(self, other: OwnerSetSet) -> (r: OwnerSetSet)
        requires
            self.wf(),
            other.wf(),
        ensures
            r.wf(),
            r@ == self@.union_prefer_right(other@),
    {
        let ghost g0 = self.groups@;
        let ghost h0 = other.groups@;
        let ghost mb = groups_map(h0);
        proof {
            lemma_groups_map_dom(h0);
        }
        let mut out: Vec<OwnerGroup> = Vec::new();
        let mut src = self.groups;
        let ghost mut k: int = 0;
        while src.len() > 0
            invariant
                0 <= k <= g0.len(),
                mb == groups_map(other.groups@),
                src@ =~= g0.skip(k),
                groups_map(out@) =~= groups_map(g0.take(k)).remove_keys(mb.dom()),
                forall|a: int, b: int| 0 <= a < b < g0.len() ==> g0[a].pkg.key() != g0[b].pkg.key(),
                forall|a: int|
                    0 <= a < out@.len() ==> !mb.dom().contains(#[trigger] out@[a].pkg.key()),
                forall|a: int|
                    0 <= a < out@.len() ==> exists|i: int|
                        0 <= i < k && g0[i].pkg.key() == #[trigger] out@[a].pkg.key(),
                forall|a: int, b: int|
                    0 <= a < b < out@.len() ==> out@[a].pkg.key() != out@[b].pkg.key(),
                forall|k2: PkgKey|
                    mb.dom().contains(k2) <==> exists|i: int| 0 <= i < h0.len() && h0[i].pkg.key()
                        == k2,
            decreases src@.len(),
        {
            let g = src.remove(0);
            proof {
                assert(g == g0[k]);
                assert(src@ =~= g0.skip(k + 1));
                assert(g0.take(k + 1).drop_last() =~= g0.take(k));
                assert(g0.take(k + 1).last() == g0[k]);
            }
            let ghost out_before = out@;
            let in_other = other.contains_pkg(&g.pkg);
            if !in_other {
                out.push(g);
                proof {
                    assert(out@.drop_last() =~= out_before);
                    assert(out@.last() == g);
                    assert(!mb.dom().contains(g.pkg.key()));
                    assert forall|a: int| 0 <= a < out@.len() implies !mb.dom().contains(
                        #[trigger] out@[a].pkg.key(),
                    ) by {
                        if a == out@.len() - 1 {
                            assert(out@[a] == g);
                        } else {
                            assert(out@[a] == out_before[a]);
                        }
                    }
                    assert forall|a: int| 0 <= a < out@.len() implies exists|i: int|
                        0 <= i < k + 1 && g0[i].pkg.key() == #[trigger] out@[a].pkg.key() by {
                        if a < out_before.len() {
                            let i = choose|i: int|
                                0 <= i < k && g0[i].pkg.key() == out_before[a].pkg.key();
                            assert(g0[i].pkg.key() == out@[a].pkg.key());
                        } else {
                            assert(g0[k].pkg.key() == out@[a].pkg.key());
                        }
                    }
                    assert forall|a: int, b: int| 0 <= a < b < out@.len() implies out@[a].pkg.key()
                        != out@[b].pkg.key() by {
                        if b == out@.len() - 1 {
                            let i = choose|i: int|
                                0 <= i < k && g0[i].pkg.key() == out@[a].pkg.key();
                            assert(g0[i].pkg.key() != g0[k].pkg.key());
                        }
                    }
                    assert(groups_map(out@) =~= groups_map(g0.take(k + 1)).remove_keys(mb.dom()));
                }
            } else {
                proof {
                    assert(mb.dom().contains(g.pkg.key()));
                    assert(groups_map(out@) =~= groups_map(g0.take(k + 1)).remove_keys(mb.dom()));
                }
            }
            proof {
                k = k + 1;
            }
        }
        proof {
            assert(g0.take(k) =~= g0);
        }
        let ghost outa = out@;
        let mut src2 = other.groups;
        let ghost mut j: int = 0;
        while src2.len() > 0
            invariant
                0 <= j <= h0.len(),
                src2@ =~= h0.skip(j),
                out@ =~= outa + h0.take(j),
                groups_map(outa) =~= groups_map(g0).remove_keys(mb.dom()),
                forall|a: int|
                    0 <= a < outa.len() ==> !mb.dom().contains(#[trigger] outa[a].pkg.key()),
                forall|a: int, b: int|
                    0 <= a < b < outa.len() ==> outa[a].pkg.key() != outa[b].pkg.key(),
                forall|a: int, b: int| 0 <= a < b < h0.len() ==> h0[a].pkg.key() != h0[b].pkg.key(),
                forall|k2: PkgKey|
                    mb.dom().contains(k2) <==> exists|i: int| 0 <= i < h0.len() && h0[i].pkg.key()
                        == k2,
                groups_map(out@) =~= groups_map(g0).remove_keys(mb.dom()).union_prefer_right(
                    groups_map(h0.take(j)),
                ),
            decreases src2@.len(),
        {
            let g = src2.remove(0);
            proof {
                assert(g == h0[j]);
                assert(src2@ =~= h0.skip(j + 1));
                assert(h0.take(j + 1).drop_last() =~= h0.take(j));
                assert(h0.take(j + 1).last() == h0[j]);
            }
            out.push(g);
            proof {
                assert(out@ =~= outa + h0.take(j + 1));
                assert(out@.drop_last() =~= outa + h0.take(j));
                assert(groups_map(out@) =~= groups_map(g0).remove_keys(
                    mb.dom(),
                ).union_prefer_right(groups_map(h0.take(j + 1))));
                j = j + 1;
            }
        }
        let r = OwnerSetSet { groups: out };
        proof {
            assert(h0.take(j) =~= h0);
            assert(r@ =~= groups_map(g0).union_prefer_right(mb));
            assert forall|a: int, b: int| 0 <= a < b < r.groups@.len() implies r.groups@[a].pkg.key()
                != r.groups@[b].pkg.key() by {
                if b >= outa.len() {
                    assert(r.groups@[b] == h0[b - outa.len()]);
                    assert(mb.dom().contains(h0[b - outa.len()].pkg.key()));
                    if a >= outa.len() {
                        assert(r.groups@[a] == h0[a - outa.len()]);
                    } else {
                        assert(r.groups@[a] == outa[a]);
                        assert(!mb.dom().contains(outa[a].pkg.key()));
                    }
                } else {
                    assert(r.groups@[a] == outa[a] && r.groups@[b] == outa[b]);
                }
            }
        }
        r
    }
}

/// Whether some entry of `v` holds the same characters as `s`.
fn contains_string(v: &Vec<String>, s: &String) -> (r: bool)
    ensures
        r == names_set(v@).contains(s@),
{
    let mut i: usize = 0;
    let mut found = false;
    while i < v.len()
        invariant
            0 <= i <= v@.len(),
            found == exists|a: int| 0 <= a < i && v@[a]@ == s@,
        decreases v@.len() - i,
    {
        if v[i].eq(s) {
            found = true;
        }
        i += 1;
    }
    found
}

/// The owners of the first `i` groups, as one set.
pub open spec fn prefix_owners(s: Seq<OwnerGroup>, i: int) -> Set<Seq<char>>
    decreases i,
{
    if i <= 0 {
        Set::empty()
    } else {
        prefix_owners(s, i - 1).union(s[i - 1].owner_set())
    }
}

/// An owner appears among the first `i` groups exactly when one of those
/// groups lists it.
pub proof fn lemma_prefix_owners(s: Seq<OwnerGroup>, i: int)
    requires
        0 <= i <= s.len(),
    ensures
        forall|o: Seq<char>|
            prefix_owners(s, i).contains(o) <==> exists|a: int|
                0 <= a < i && #[trigger] s[a].owner_set().contains(o),
    decreases i,
{
    if i > 0 {
        lemma_prefix_owners(s, i - 1);
        assert forall|o: Seq<char>| prefix_owners(s, i).contains(o) implies exists|a: int|
            0 <= a < i && #[trigger] s[a].owner_set().contains(o) by {
            if prefix_owners(s, i - 1).contains(o) {
                let a = choose|a: int| 0 <= a < i - 1 && #[trigger] s[a].owner_set().contains(o);
                assert(s[a].owner_set().contains(o));
            } else {
                assert(s[i - 1].owner_set().contains(o));
            }
        }
        assert forall|o: Seq<char>|
            (exists|a: int| 0 <= a < i && #[trigger] s[a].owner_set().contains(o)) implies prefix_owners(
            s,
            i,
        ).contains(o) by {
            let a = choose|a: int| 0 <= a < i && #[trigger] s[a].owner_set().contains(o);
            if a < i - 1 {
                assert(prefix_owners(s, i - 1).contains(o));
            }
        }
    }
}

/// The union of all owner sets in the map a group sequence denotes is the
/// union of all the groups' owner sets, provided identities are unique.
pub proof fn lemma_all_owners(s: Seq<OwnerGroup>)
    requires
        forall|a: int, b: int| 0 <= a < b < s.len() ==> s[a].pkg.key() != s[b].pkg.key(),
    ensures
        prefix_owners(s, s.len() as int) =~= all_owners(groups_map(s)),
{
    lemma_groups_map_dom(s);
    lemma_prefix_owners(s, s.len() as int);
    let m = groups_map(s);
    assert forall|o: Seq<char>| prefix_owners(s, s.len() as int).contains(o) implies all_owners(
        m,
    ).contains(o) by {
        let a = choose|a: int| 0 <= a < s.len() && #[trigger] s[a].owner_set().contains(o);
        lemma_groups_map_at(s, a);
        assert(m.dom().contains(s[a].pkg.key()) && m[s[a].pkg.key()].contains(o));
    }
    assert forall|o: Seq<char>| all_owners(m).contains(o) implies prefix_owners(
        s,
        s.len() as int,
    ).contains(o) by {
        let k = choose|k: PkgKey| m.dom().contains(k) && m[k].contains(o);
        let a = choose|a: int| 0 <= a < s.len() && s[a].pkg.key() == k;
        lemma_groups_map_at(s, a);
        assert(s[a].owner_set().contains(o));
    }
}

impl OwnerSetSet {
    /// How many distinct owners appear across all groups; an owner listed
    /// by several packages counts once.
    pub fn to_total_owners(&self) -> (r: usize)
        requires
            self.wf(),
        ensures
            all_owners(self@).finite(),
            r == all_owners(self@).len(),
    {
        let ghost gs = self.groups@;
        let mut seen: Vec<String> = Vec::new();
        let mut i: usize = 0;
        while i < self.groups.len()
            invariant
                0 <= i <= gs.len(),
                self.groups@ == gs,
                names_distinct(seen@),
                names_set(seen@) =~= prefix_owners(gs, i as int),
            decreases gs.len() - i,
        {
            let g = &self.groups[i];
            let ghost base = prefix_owners(gs, i as int);
            let mut j: usize = 0;
            while j < g.owners.len()
                invariant
                    0 <= j <= g.owners@.len(),
                    g == gs[i as int],
                    0 <= i < gs.len(),
                    names_distinct(seen@),
                    names_set(seen@) =~= base.union(names_set(g.owners@.take(j as int))),
                decreases g.owners@.len() - j,
            {
                let ghost sv = seen@;
                if !contains_string(&seen, &g.owners[j]) {
                    let owner = g.owners[j].clone();
                    proof {
                        assert(owner@ == g.owners@[j as int]@);
                    }
                    seen.push(owner);
                    proof {
                        lemma_names_set_push(sv, g.owners@[j as int]);
                        assert(names_set(seen@) =~= names_set(sv).insert(g.owners@[j as int]@));
                    }
                }
                proof {
                    assert(g.owners@.take(j + 1) =~= g.owners@.take(j as int).push(
                        g.owners@[j as int],
                    ));
                    lemma_names_set_push(g.owners@.take(j as int), g.owners@[j as int]);
                    assert(names_set(seen@) =~= base.union(names_set(g.owners@.take(j + 1))));
                }
                j += 1;
            }
            proof {
                assert(g.owners@.take(g.owners@.len() as int) =~= g.owners@);
                assert(names_set(seen@) =~= prefix_owners(gs, i + 1));
            }
            i += 1;
        }
        proof {
            lemma_all_owners(gs);
            lemma_names_set_len(seen@);
            assert(all_owners(self@) == names_set(seen@));
        }
        seen.len()
    }
}

/// Whether every name in `a` also appears in `b`.
fn subset_vec(a: &Vec<String>, b: &Vec<String>) -> (r: bool)
    ensures
        r == names_set(a@).subset_of(names_set(b@)),
{
    let mut i: usize = 0;
    let mut ok = true;
    while i < a.len()
        invariant
            0 <= i <= a@.len(),
            ok == forall|x: int| 0 <= x < i ==> names_set(b@).contains(#[trigger] a@[x]@),
        decreases a@.len() - i,
    {
        if !contains_string(b, &a[i]) {
            ok = false;
        }
        i += 1;
    }
    proof {
        if ok {
            assert forall|x: Seq<char>| names_set(a@).contains(x) implies names_set(b@).contains(
                x,
            ) by {
                let idx = choose|idx: int| 0 <= idx < a@.len() && a@[idx]@ == x;
                assert(names_set(b@).contains(a@[idx]@));
            }
        } else {
            let x = choose|x: int| 0 <= x < a@.len() && !names_set(b@).contains(a@[x]@);
            assert(names_set(a@).contains(a@[x]@));
        }
    }
    ok
}

/// No group in the sequence strictly contains `t`.
pub open spec fn group_maximal(s: Seq<OwnerGroup>, t: Set<Seq<char>>) -> bool {
    forall|b: int|
        0 <= b < s.len() && t.subset_of(#[trigger] s[b].owner_set()) ==> t == s[b].owner_set()
}

/// The owner sets among the first `i` groups that no group of the whole
/// sequence strictly contains.
pub open spec fn counted_sets(s: Seq<OwnerGroup>, i: int) -> Set<Set<Seq<char>>> {
    Set::new(
        |t: Set<Seq<char>>|
            (exists|a: int| 0 <= a < i && #[trigger] s[a].owner_set() == t) && group_maximal(s, t),
    )
}

/// Once the whole sequence has been scanned, the counted sets are exactly
/// the maximal owner sets of the map the sequence denotes.
pub proof fn lemma_counted_full(s: Seq<OwnerGroup>)
    requires
        forall|a: int, b: int| 0 <= a < b < s.len() ==> s[a].pkg.key() != s[b].pkg.key(),
    ensures
        counted_sets(s, s.len() as int) =~= maximal_sets(groups_map(s)),
{
    lemma_groups_map_values(s);
    let m = groups_map(s);
    assert forall|u: Set<Seq<char>>| counted_sets(s, s.len() as int).contains(u) implies maximal_sets(
        m,
    ).contains(u) by {
        assert(m.values().contains(u));
        assert forall|w: Set<Seq<char>>| m.values().contains(w) && u.subset_of(w) implies u == w by {
            let b = choose|b: int| 0 <= b < s.len() && s[b].owner_set() == w;
            assert(u.subset_of(s[b].owner_set()));
        }
    }
    assert forall|u: Set<Seq<char>>| maximal_sets(m).contains(u) implies counted_sets(
        s,
        s.len() as int,
    ).contains(u) by {
        assert forall|b: int|
            0 <= b < s.len() && u.subset_of(#[trigger] s[b].owner_set()) implies u
            == s[b].owner_set() by {
            assert(m.values().contains(s[b].owner_set()));
        }
    }
}

impl OwnerSetSet {
    /// How many owner groups are not contained in some other group of the
    /// collection.  A group whose owners all appear in another group adds
    /// no independent risk surface; equal groups are counted once.
    pub fn to_total_distinct_groups(&self) -> (r: usize)
        requires
            self.wf(),
        ensures
            maximal_sets(self@).finite(),
            r == maximal_sets(self@).len(),
    {
        let ghost gs = self.groups@;
        let n = self.groups.len();
        let mut count: usize = 0;
        let mut i: usize = 0;
        proof {
            assert(counted_sets(gs, 0) =~= Set::<Set<Seq<char>>>::empty());
        }
        while i < n
            invariant
                0 <= i <= gs.len(),
                n == gs.len(),
                self.groups@ == gs,
                self.wf(),
                counted_sets(gs, i as int).finite(),
                count == counted_sets(gs, i as int).len(),
                count <= i,
            decreases gs.len() - i,
        {
            let gi = &self.groups[i];
            let ghost t = gi.owner_set();
            let mut dominated = false;
            let mut dup = false;
            let mut j: usize = 0;
            while j < n
                invariant
                    0 <= j <= gs.len(),
                    n == gs.len(),
                    self.groups@ == gs,
                    0 <= i < gs.len(),
                    gi == gs[i as int],
                    t == gs[i as int].owner_set(),
                    dominated == exists|b: int|
                        0 <= b < j && t.subset_of(#[trigger] gs[b].owner_set()) && t
                            != gs[b].owner_set(),
                    dup == exists|b: int|
                        0 <= b < j && b < i && #[trigger] gs[b].owner_set() == t,
                decreases gs.len() - j,
            {
                if j != i {
                    let gj = &self.groups[j];
                    let sub_ij = subset_vec(&gi.owners, &gj.owners);
                    if sub_ij {
                        let sub_ji = subset_vec(&gj.owners, &gi.owners);
                        if !sub_ji {
                            dominated = true;
                            proof {
                                assert(t != gs[j as int].owner_set());
                            }
                        } else {
                            proof {
                                assert(t =~= gs[j as int].owner_set());
                            }
                            if j < i {
                                dup = true;
                            }
                        }
                    }
                }
                j += 1;
            }
            let ghost counted = counted_sets(gs, i as int);
            if !dominated && !dup {
                count += 1;
                proof {
                    assert(group_maximal(gs, t));
                    assert(!counted.contains(t));
                    assert forall|u: Set<Seq<char>>|
                        counted_sets(gs, i + 1).contains(u) implies counted.insert(t).contains(
                        u,
                    ) by {
                        let a = choose|a: int|
                            0 <= a < i + 1 && #[trigger] gs[a].owner_set() == u;
                        if a < i {
                            assert(counted.contains(u));
                        }
                    }
                    assert forall|u: Set<Seq<char>>|
                        counted.insert(t).contains(u) implies counted_sets(gs, i + 1).contains(
                        u,
                    ) by {
                        if counted.contains(u) {
                            let a = choose|a: int|
                                0 <= a < i && #[trigger] gs[a].owner_set() == u;
                            assert(gs[a].owner_set() == u);
                        } else {
                            assert(gs[i as int].owner_set() == u);
                        }
                    }
                    assert(counted_sets(gs, i + 1) =~= counted.insert(t));
                    vstd::set::axiom_set_insert_len(counted, t);
                }
            } else {
                proof {
                    assert forall|u: Set<Seq<char>>|
                        counted_sets(gs, i + 1).contains(u) implies counted.contains(u) by {
                        let a = choose|a: int|
                            0 <= a < i + 1 && #[trigger] gs[a].owner_set() == u;
                        if a == i {
                            assert(u == t);
                            assert(group_maximal(gs, t));
                            if dominated {
                                let b = choose|b: int|
                                    0 <= b < gs.len() && t.subset_of(
                                        #[trigger] gs[b].owner_set(),
                                    ) && t != gs[b].owner_set();
                                assert(false);
                            } else {
                                let b = choose|b: int|
                                    0 <= b < i && #[trigger] gs[b].owner_set() == t;
                                assert(gs[b].owner_set() == u);
                            }
                        }
                    }
                    assert forall|u: Set<Seq<char>>|
                        counted.contains(u) implies counted_sets(gs, i + 1).contains(u) by {
                        let a = choose|a: int| 0 <= a < i && #[trigger] gs[a].owner_set() == u;
                        assert(gs[a].owner_set() == u);
                    }
                    assert(counted_sets(gs, i + 1) =~= counted);
                }
            }
            i += 1;
        }
        proof {
            lemma_counted_full(gs);
            assert(counted_sets(gs, gs.len() as int) == maximal_sets(self@));
        }
        count
    }
}

/// The identities a sequence of groups mentions are exactly the domain of
/// the map it denotes.
pub proof fn lemma_groups_map_dom(s: Seq<OwnerGroup>)
    ensures
        groups_map(s).dom().finite(),
        forall|k: PkgKey|
            groups_map(s).dom().contains(k) <==> exists|i: int| 0 <= i < s.len() && s[i].pkg.key()
                == k,
    decreases s.len(),
{
    if s.len() > 0 {
        lemma_groups_map_dom(s.drop_last());
        assert forall|k: PkgKey| groups_map(s).dom().contains(k) implies exists|i: int|
            0 <= i < s.len() && s[i].pkg.key() == k by {
            if k == s.last().pkg.key() {
                assert(s[s.len() - 1].pkg.key() == k);
            } else {
                let i = choose|i: int| 0 <= i < s.len() - 1 && s.drop_last()[i].pkg.key() == k;
                assert(s[i].pkg.key() == k);
            }
        }
        assert forall|k: PkgKey|
            (exists|i: int| 0 <= i < s.len() && s[i].pkg.key() == k) implies groups_map(
            s,
        ).dom().contains(k) by {
            let i = choose|i: int| 0 <= i < s.len() && s[i].pkg.key() == k;
            if i < s.len() - 1 {
                assert(s.drop_last()[i].pkg.key() == k);
            }
        }
    }
}

/// Under unique identities, each group's owner set is the value the map
/// holds for that group's identity.
pub proof fn lemma_groups_map_at(s: Seq<OwnerGroup>, i: int)
    requires
        0 <= i < s.len(),
        forall|a: int, b: int| 0 <= a < b < s.len() ==> s[a].pkg.key() != s[b].pkg.key(),
    ensures
        groups_map(s).dom().contains(s[i].pkg.key()),
        groups_map(s)[s[i].pkg.key()] == s[i].owner_set(),
    decreases s.len(),
{
    if i == s.len() - 1 {
    } else {
        lemma_groups_map_at(s.drop_last(), i);
        assert(s.drop_last()[i] == s[i]);
        assert(s[i].pkg.key() != s.last().pkg.key());
    }
}

/// Under unique identities, the values of the map are exactly the owner
/// sets of the groups.
pub proof fn lemma_groups_map_values(s: Seq<OwnerGroup>)
    requires
        forall|a: int, b: int| 0 <= a < b < s.len() ==> s[a].pkg.key() != s[b].pkg.key(),
    ensures
        forall|t: Set<Seq<char>>|
            groups_map(s).values().contains(t) <==> exists|i: int|
                0 <= i < s.len() && s[i].owner_set() == t,
{
    lemma_groups_map_dom(s);
    assert forall|t: Set<Seq<char>>| groups_map(s).values().contains(t) implies exists|i: int|
        0 <= i < s.len() && s[i].owner_set() == t by {
        let k = choose|k: PkgKey| groups_map(s).dom().contains(k) && groups_map(s)[k] == t;
        let i = choose|i: int| 0 <= i < s.len() && s[i].pkg.key() == k;
        lemma_groups_map_at(s, i);
        assert(s[i].owner_set() == t);
    }
    assert forall|t: Set<Seq<char>>|
        (exists|i: int| 0 <= i < s.len() && s[i].owner_set() == t) implies groups_map(
        s,
    ).values().contains(t) by {
        let i = choose|i: int| 0 <= i < s.len() && s[i].owner_set() == t;
        lemma_groups_map_at(s, i);
        assert(groups_map(s).contains_key(s[i].pkg.key()) && groups_map(s)[s[i].pkg.key()] == t);
    }
}

} // verus!
