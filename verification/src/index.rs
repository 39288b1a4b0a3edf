//! Folding metadata entries into a repository index: one group per
//! package name, groups in ascending name order, each group's versions
//! in ascending SemVer order (entries at equal versions in the order
//! they were read).

use vstd::prelude::*;
use crate::metadata::PackageMetadata;
use crate::text::{same_text, text_before, text_less, lemma_text_less_irreflexive, lemma_text_less_total, lemma_text_less_transitive};
use crate::version::{compare_versions, semver_order, VersionView};
use crate::precedence::{lemma_precedence_orders, version_precedence};

verus! {

broadcast use vstd::seq_lib::group_to_multiset_ensures;

/// Every known version of one package.
#[derive(Debug)]
pub struct PackageVersions {
    pub name: String,
    pub versions: Vec<PackageMetadata>,
}

/// A channel's index: a map from package name to every known version's
/// metadata, held as a list of groups in strictly ascending name order.
#[derive(Debug)]
pub struct RepositoryIndex {
    pub packages: Vec<PackageVersions>,
}

/// The entries are in ascending SemVer order: each comes no later than
/// every entry after it, and strictly earlier where their versions differ.
pub open spec fn sorted_by_version(s: Seq<PackageMetadata>) -> bool {
    forall|i: int, j: int|
        0 <= i < j < s.len() ==> semver_order(#[trigger] s[i].version@, #[trigger] s[j].version@) <= 0
            && (s[i].version@ != s[j].version@ ==> semver_order(s[j].version@, s[i].version@) > 0)
}

/// The entries ascend by SemVer precedence, spelled out: no entry comes
/// after one listed later.
pub open spec fn sorted_by_precedence(s: Seq<PackageMetadata>) -> bool {
    forall|i: int, j: int|
        0 <= i < j < s.len() ==> version_precedence(#[trigger] s[i].version@, #[trigger] s[j].version@) <= 0
}

/// The versions listed under name `n` (the last group with that name;
/// empty when there is none).
pub open spec fn group_in(ps: Seq<PackageVersions>, n: Seq<char>) -> Seq<PackageMetadata>
    decreases ps.len(),
{
    if ps.len() == 0 {
        seq![]
    } else if ps.last().name@ == n {
        ps.last().versions@
    } else {
        group_in(ps.drop_last(), n)
    }
}

pub open spec fn names_distinct(ps: Seq<PackageVersions>) -> bool {
    forall|i: int, j: int| 0 <= i < j < ps.len() ==> #[trigger] ps[i].name@ != #[trigger] ps[j].name@
}

/// The groups come in strictly ascending order of their names, as the
/// keys of a `BTreeMap<String, _>` are walked.
pub open spec fn names_ascending(ps: Seq<PackageVersions>) -> bool {
    forall|i: int, j: int| 0 <= i < j < ps.len() ==> text_less(#[trigger] ps[i].name@, #[trigger] ps[j].name@)
}

proof fn lemma_ascending_names_distinct(ps: Seq<PackageVersions>)
    requires
        names_ascending(ps),
    ensures
        names_distinct(ps),
{
    assert forall|i: int, j: int| 0 <= i < j < ps.len() implies #[trigger] ps[i].name@ != #[trigger] ps[j].name@ by {
        lemma_text_less_irreflexive(ps[i].name@);
    }
}

/// The entries of package `n` at version `v`, in their order in `s`.
pub open spec fn entries_at(s: Seq<PackageMetadata>, n: Seq<char>, v: VersionView) -> Seq<PackageMetadata>
    decreases s.len(),
{
    if s.len() == 0 {
        seq![]
    } else if s.last().name@ == n && s.last().version@ == v {
        entries_at(s.drop_last(), n, v).push(s.last())
    } else {
        entries_at(s.drop_last(), n, v)
    }
}

proof fn lemma_entries_at_insert(s: Seq<PackageMetadata>, p: int, m: PackageMetadata, n: Seq<char>, v: VersionView)
    requires
        0 <= p <= s.len(),
        m.name@ == n && m.version@ == v ==> forall|k: int|
            p <= k < s.len() ==> !((#[trigger] s[k]).name@ == n && s[k].version@ == v),
    ensures
        entries_at(s.insert(p, m), n, v) == (if m.name@ == n && m.version@ == v {
            entries_at(s, n, v).push(m)
        } else {
            entries_at(s, n, v)
        }),
    decreases s.len(),
{
    let t = s.insert(p, m);
    if p == s.len() {
        assert(t.drop_last() =~= s);
        assert(t.last() == m);
    } else {
        assert(t.drop_last() =~= s.drop_last().insert(p, m));
        assert(t.last() == s.last());
        assert(s.last() == s[s.len() - 1]);
        lemma_entries_at_insert(s.drop_last(), p, m, n, v);
    }
}

/// Each group is non-empty, holds only entries of its own name with
/// well-formed versions, and is sorted.
pub open spec fn group_ok(g: PackageVersions) -> bool {
    &&& g.versions@.len() > 0
    &&& forall|k: int|
        0 <= k < g.versions@.len() ==> (#[trigger] g.versions@[k]).name@ == g.name@
            && g.versions@[k].version.wf()
    &&& sorted_by_version(g.versions@)
}

proof fn lemma_group_in_found(ps: Seq<PackageVersions>, i: int)
    requires
        names_distinct(ps),
        0 <= i < ps.len(),
    ensures
        group_in(ps, ps[i].name@) == ps[i].versions@,
    decreases ps.len(),
{
    if i < ps.len() - 1 {
        assert(ps.last().name@ != ps[i].name@) by {
            assert(ps[i].name@ != ps[ps.len() - 1].name@);
        }
        lemma_group_in_found(ps.drop_last(), i);
    }
}

proof fn lemma_group_in_absent(ps: Seq<PackageVersions>, n: Seq<char>)
    requires
        forall|i: int| 0 <= i < ps.len() ==> (#[trigger] ps[i]).name@ != n,
    ensures
        group_in(ps, n) == Seq::<PackageMetadata>::empty(),
    decreases ps.len(),
{
    if ps.len() > 0 {
        assert(ps.last().name@ != n) by {
            assert(ps[ps.len() - 1].name@ != n);
        }
        lemma_group_in_absent(ps.drop_last(), n);
    }
}

proof fn lemma_group_in_insert(ps: Seq<PackageVersions>, i: int, g: PackageVersions, n: Seq<char>)
    requires
        0 <= i <= ps.len(),
        g.name@ != n,
    ensures
        group_in(ps.insert(i, g), n) == group_in(ps, n),
    decreases ps.len(),
{
    if i == ps.len() {
        assert(ps.insert(i, g).drop_last() =~= ps);
    } else {
        assert(ps.insert(i, g).drop_last() =~= ps.drop_last().insert(i, g));
        lemma_group_in_insert(ps.drop_last(), i, g, n);
    }
}

proof fn lemma_total_insert(ps: Seq<PackageVersions>, i: int, g: PackageVersions)
    requires
        0 <= i <= ps.len(),
    ensures
        total_versions(ps.insert(i, g)) == total_versions(ps) + g.versions@.len(),
    decreases ps.len(),
{
    if i == ps.len() {
        assert(ps.insert(i, g).drop_last() =~= ps);
    } else {
        assert(ps.insert(i, g).drop_last() =~= ps.drop_last().insert(i, g));
        lemma_total_insert(ps.drop_last(), i, g);
    }
}

proof fn lemma_group_in_update(ps: Seq<PackageVersions>, i: int, g: PackageVersions, n: Seq<char>)
    requires
        0 <= i < ps.len(),
        g.name@ == ps[i].name@,
        n != g.name@,
    ensures
        group_in(ps.update(i, g), n) == group_in(ps, n),
    decreases ps.len(),
{
    if i < ps.len() - 1 {
        assert(ps.update(i, g).drop_last() =~= ps.drop_last().update(i, g));
        lemma_group_in_update(ps.drop_last(), i, g, n);
    } else {
        assert(ps.update(i, g).drop_last() =~= ps.drop_last());
    }
}

/// How many metadata entries the groups hold in all.
pub open spec fn total_versions(ps: Seq<PackageVersions>) -> nat
    decreases ps.len(),
{
    if ps.len() == 0 {
        0
    } else {
        total_versions(ps.drop_last()) + ps.last().versions@.len()
    }
}

proof fn lemma_total_update(ps: Seq<PackageVersions>, i: int, g: PackageVersions)
    requires
        0 <= i < ps.len(),
    ensures
        total_versions(ps.update(i, g)) + ps[i].versions@.len() == total_versions(ps) + g.versions@.len(),
    decreases ps.len(),
{
    if i < ps.len() - 1 {
        assert(ps.update(i, g).drop_last() =~= ps.drop_last().update(i, g));
        lemma_total_update(ps.drop_last(), i, g);
    } else {
        assert(ps.update(i, g).drop_last() =~= ps.drop_last());
    }
}

impl RepositoryIndex {
    /// The versions listed for package `n` (empty when it has none).
    pub open spec fn versions_of(self, n: Seq<char>) -> Seq<PackageMetadata> {
        group_in(self.packages@, n)
    }

    /// The index lists exactly `entries`: each under its own name, as
    /// often as it occurs there, and nothing else; entries of one package
    /// at one version keep the order they have in `entries`.
    pub open spec fn built_from(self, entries: Seq<PackageMetadata>) -> bool {
        &&& self.well_formed()
        &&& forall|m: PackageMetadata|
            #[trigger] self.versions_of(m.name@).to_multiset().count(m) == entries.to_multiset().count(m)
        &&& forall|n: Seq<char>, v: VersionView|
            #[trigger] entries_at(self.versions_of(n), n, v) == entries_at(entries, n, v)
        &&& total_versions(self.packages@) == entries.len()
    }

    /// Groups in ascending order of their names, and every group well formed.
    pub open spec fn well_formed(self) -> bool {
        &&& names_ascending(self.packages@)
        &&& forall|i: int| 0 <= i < self.packages@.len() ==> group_ok(#[trigger] self.packages@[i])
    }

    /// An index with no packages.
    pub fn new() -> (r: RepositoryIndex)
        ensures
            r.well_formed(),
            r.packages@.len() == 0,
            total_versions(r.packages@) == 0,
            forall|n: Seq<char>| #[trigger] r.versions_of(n) == Seq::<PackageMetadata>::empty(),
    {
        RepositoryIndex { packages: Vec::new() }
    }
}

/// Inserts `meta` into a sorted list of versions at `p`, the first
/// position whose version comes strictly after it (after every equal
/// one), keeping the list sorted.
fn insert_sorted(versions: &mut Vec<PackageMetadata>, meta: PackageMetadata) -> (p: usize)
    requires
        sorted_by_version(old(versions)@),
        forall|k: int| 0 <= k < old(versions)@.len() ==> (#[trigger] old(versions)@[k]).version.wf(),
        meta.version.wf(),
    ensures
        sorted_by_version(final(versions)@),
        p <= old(versions)@.len(),
        final(versions)@ == old(versions)@.insert(p as int, meta),
        forall|k: int| 0 <= k < p ==> semver_order(#[trigger] old(versions)@[k].version@, meta.version@) <= 0,
        forall|k: int|
            p <= k < old(versions)@.len() ==> semver_order(#[trigger] old(versions)@[k].version@, meta.version@) > 0
                && old(versions)@[k].version@ != meta.version@,
        sorted_by_precedence(old(versions)@) ==> sorted_by_precedence(final(versions)@),
{
    let ghost v = versions@;
    let mut p: usize = versions.len();
    loop
        invariant
            versions@ == v,
            p <= v.len(),
            sorted_by_version(v),
            forall|k: int| 0 <= k < v.len() ==> (#[trigger] v[k]).version.wf(),
            meta.version.wf(),
            forall|k: int|
                p <= k < v.len() ==> semver_order(#[trigger] v[k].version@, meta.version@) == 1
                    && semver_order(meta.version@, v[k].version@) == -1 && v[k].version@ != meta.version@
                    && version_precedence(v[k].version@, meta.version@) == 1,
        ensures
            p <= v.len(),
            forall|k: int|
                p <= k < v.len() ==> semver_order(#[trigger] v[k].version@, meta.version@) == 1
                    && semver_order(meta.version@, v[k].version@) == -1 && v[k].version@ != meta.version@
                    && version_precedence(v[k].version@, meta.version@) == 1,
            sorted_by_precedence(v) ==> forall|k: int|
                0 <= k < p ==> version_precedence(#[trigger] v[k].version@, meta.version@) <= 0,
            forall|k: int|
                0 <= k < p ==> semver_order(#[trigger] v[k].version@, meta.version@) <= 0
                    && (v[k].version@ != meta.version@ ==> semver_order(meta.version@, v[k].version@) > 0),
        decreases p,
    {
        if p == 0 {
            break;
        }
        let r = compare_versions(&versions[p - 1].version, &meta.version);
        if r != 1 {
            assert forall|k: int| 0 <= k < p implies semver_order(#[trigger] v[k].version@, meta.version@) <= 0
                && (v[k].version@ != meta.version@ ==> semver_order(meta.version@, v[k].version@) > 0) by {
                if k < p - 1 {
                    assert(semver_order(v[k].version@, v[p - 1].version@) <= 0);
                    assert(v[k].version.wf());
                    if r == 0 {
                        assert(v[p - 1].version@ == meta.version@);
                        if v[k].version@ != meta.version@ {
                            assert(semver_order(v[p - 1].version@, v[k].version@) > 0);
                        }
                    }
                }
            }
            proof {
                if sorted_by_precedence(v) {
                    assert forall|k: int| 0 <= k < p implies version_precedence(#[trigger] v[k].version@, meta.version@) <= 0 by {
                        if k < p - 1 {
                            assert(version_precedence(v[k].version@, v[p - 1].version@) <= 0);
                            lemma_precedence_orders(v[k].version@, v[p - 1].version@, meta.version@);
                        }
                    }
                }
            }
            break;
        }
        p = p - 1;
    }
    versions.insert(p, meta);
    let ghost w = versions@;
    assert(w == v.insert(p as int, meta));
    assert forall|i: int, j: int| 0 <= i < j < w.len() implies semver_order(#[trigger] w[i].version@, #[trigger] w[j].version@) <= 0
        && (w[i].version@ != w[j].version@ ==> semver_order(w[j].version@, w[i].version@) > 0) by {
        if j < p {
            assert(w[i] == v[i] && w[j] == v[j]);
        } else if j == p {
            assert(w[i] == v[i] && w[j] == meta);
        } else if i < p {
            assert(w[i] == v[i] && w[j] == v[j - 1]);
        } else if i == p {
            assert(w[i] == meta && w[j] == v[j - 1]);
        } else {
            assert(w[i] == v[i - 1] && w[j] == v[j - 1]);
        }
    }
    proof {
        if sorted_by_precedence(v) {
            lemma_insert_keeps_precedence(v, w, p as int, meta);
        }
    }
    p
}

proof fn lemma_insert_keeps_precedence(v: Seq<PackageMetadata>, w: Seq<PackageMetadata>, p: int, meta: PackageMetadata)
    requires
        sorted_by_precedence(v),
        0 <= p <= v.len(),
        w == v.insert(p, meta),
        forall|k: int| 0 <= k < p ==> version_precedence(#[trigger] v[k].version@, meta.version@) <= 0,
        forall|k: int| p <= k < v.len() ==> version_precedence(#[trigger] v[k].version@, meta.version@) == 1,
    ensures
        sorted_by_precedence(w),
{
    assert forall|i: int, j: int| 0 <= i < j < w.len() implies version_precedence(#[trigger] w[i].version@, #[trigger] w[j].version@) <= 0 by {
        if j < p {
            assert(w[i] == v[i] && w[j] == v[j]);
        } else if j == p {
            assert(w[i] == v[i] && w[j] == meta);
        } else if i < p {
            assert(w[i] == v[i] && w[j] == v[j - 1]);
        } else if i == p {
            assert(w[i] == meta && w[j] == v[j - 1]);
            lemma_precedence_orders(meta.version@, v[j - 1].version@, meta.version@);
        } else {
            assert(w[i] == v[i - 1] && w[j] == v[j - 1]);
        }
    }
}

impl RepositoryIndex {
    /// Adds one metadata entry under its package's name, keeping that
    /// package's versions sorted: the entry goes after every version that
    /// does not come after it, before the first that does. A package not
    /// yet listed gets a new group, placed in name order.
    pub fn insert(&mut self, meta: PackageMetadata)
        requires
            old(self).well_formed(),
            meta.version.wf(),
        ensures
            final(self).well_formed(),
            exists|p: int|
                #[trigger] inserted_in_order(
                    old(self).versions_of(meta.name@),
                    final(self).versions_of(meta.name@),
                    p,
                    meta,
                ),
            final(self).versions_of(meta.name@).to_multiset() == old(self).versions_of(
                meta.name@,
            ).to_multiset().insert(meta),
            forall|n: Seq<char>|
                n != meta.name@ ==> #[trigger] final(self).versions_of(n) == old(self).versions_of(n),
            total_versions(final(self).packages@) == total_versions(old(self).packages@) + 1,
            (forall|n: Seq<char>| #[trigger] sorted_by_precedence(old(self).versions_of(n))) ==> (forall|
                n: Seq<char>,
            | #[trigger] sorted_by_precedence(final(self).versions_of(n))),
    {
        let ghost ps = self.packages@;
        let ghost name = meta.name@;
        let ghost m = meta;
        proof {
            lemma_ascending_names_distinct(ps);
        }
        let n = self.packages.len();
        let mut i: usize = 0;
        let mut found = false;
        while i < n
            invariant_except_break
                !found,
            invariant
                self.packages@ == ps,
                meta.name@ == name,
                n == ps.len(),
                i <= n,
                forall|j: int| 0 <= j < i ==> text_less(#[trigger] ps[j].name@, name),
            ensures
                i <= n,
                found ==> i < n && ps[i as int].name@ == name,
                !found && i < n ==> text_less(name, ps[i as int].name@),
                forall|j: int| 0 <= j < i ==> text_less(#[trigger] ps[j].name@, name),
            decreases n - i,
        {
            if same_text(self.packages[i].name.as_str(), meta.name.as_str()) {
                found = true;
                break;
            }
            if text_before(meta.name.as_str(), self.packages[i].name.as_str()) {
                break;
            }
            proof {
                lemma_text_less_total(ps[i as int].name@, name);
            }
            i = i + 1;
        }
        if found {
            proof {
                lemma_group_in_found(ps, i as int);
            }
            let ghost old_group = ps[i as int];
            assert(group_ok(old_group));
            let p = insert_sorted(&mut self.packages[i].versions, meta);
            proof {
                let qs = self.packages@;
                let g = qs[i as int];
                assert(qs == ps.update(i as int, g));
                assert(g.name == old_group.name);
                assert(g.versions@ == old_group.versions@.insert(p as int, meta));
                assert(group_ok(g)) by {
                    assert forall|k: int| 0 <= k < g.versions@.len() implies (#[trigger] g.versions@[k]).name@ == g.name@
                        && g.versions@[k].version.wf() by {
                        if k < p {
                            assert(g.versions@[k] == old_group.versions@[k]);
                        } else if k > p {
                            assert(g.versions@[k] == old_group.versions@[k - 1]);
                        }
                    }
                }
                assert(names_ascending(qs)) by {
                    assert forall|a: int, b: int| 0 <= a < b < qs.len() implies text_less(#[trigger] qs[a].name@, #[trigger] qs[b].name@) by {
                        assert(qs[a].name@ == ps[a].name@);
                        assert(qs[b].name@ == ps[b].name@);
                    }
                }
                lemma_ascending_names_distinct(qs);
                assert forall|j: int| 0 <= j < qs.len() implies group_ok(#[trigger] qs[j]) by {
                    if j != i {
                        assert(qs[j] == ps[j]);
                    }
                }
                lemma_group_in_found(qs, i as int);
                lemma_total_update(ps, i as int, g);
                assert forall|n: Seq<char>| n != name implies #[trigger] group_in(qs, n) == group_in(ps, n) by {
                    lemma_group_in_update(ps, i as int, g, n);
                }
                assert(group_in(ps, name) == old_group.versions@);
                assert(group_in(qs, name) == g.versions@);
                assert(inserted_in_order(old(self).versions_of(name), self.versions_of(name), p as int, m));
                if forall|n: Seq<char>| #[trigger] sorted_by_precedence(old(self).versions_of(n)) {
                    assert(sorted_by_precedence(old(self).versions_of(name)));
                    assert forall|n: Seq<char>| #[trigger] sorted_by_precedence(self.versions_of(n)) by {
                        if n != name {
                            assert(sorted_by_precedence(old(self).versions_of(n)));
                        }
                    }
                }
            }
        } else {
            let group_name = meta.name.clone();
            let mut versions: Vec<PackageMetadata> = Vec::new();
            versions.push(meta);
            let g = PackageVersions { name: group_name, versions };
            self.packages.insert(i, g);
            proof {
                let qs = self.packages@;
                assert(qs == ps.insert(i as int, g));
                assert(g.versions@ =~= seq![meta]);
                assert(g.versions@ == Seq::<PackageMetadata>::empty().push(meta));
                assert(names_ascending(qs)) by {
                    assert forall|a: int, b: int| 0 <= a < b < qs.len() implies text_less(#[trigger] qs[a].name@, #[trigger] qs[b].name@) by {
                        if b < i {
                            assert(qs[a] == ps[a] && qs[b] == ps[b]);
                        } else if b == i {
                            assert(qs[a] == ps[a]);
                        } else if a < i {
                            assert(qs[a] == ps[a] && qs[b] == ps[b - 1]);
                            assert(text_less(ps[a].name@, name));
                            lemma_text_less_transitive(ps[a].name@, name, ps[i as int].name@);
                            if b - 1 > i {
                                lemma_text_less_transitive(ps[a].name@, ps[i as int].name@, ps[b - 1].name@);
                            }
                        } else if a == i {
                            assert(qs[b] == ps[b - 1]);
                            if b - 1 > i {
                                lemma_text_less_transitive(name, ps[i as int].name@, ps[b - 1].name@);
                            }
                        } else {
                            assert(qs[a] == ps[a - 1] && qs[b] == ps[b - 1]);
                        }
                    }
                }
                lemma_ascending_names_distinct(qs);
                assert forall|j: int| 0 <= j < qs.len() implies group_ok(#[trigger] qs[j]) by {
                    if j < i {
                        assert(qs[j] == ps[j]);
                    } else if j > i {
                        assert(qs[j] == ps[j - 1]);
                    }
                }
                assert forall|j: int| 0 <= j < ps.len() implies (#[trigger] ps[j]).name@ != name by {
                    if j < i {
                        lemma_text_less_irreflexive(name);
                    } else {
                        lemma_text_less_irreflexive(name);
                        if j > i {
                            lemma_text_less_transitive(name, ps[i as int].name@, ps[j].name@);
                        }
                    }
                }
                lemma_group_in_absent(ps, name);
                lemma_group_in_found(qs, i as int);
                lemma_total_insert(ps, i as int, g);
                assert forall|n: Seq<char>| n != name implies #[trigger] group_in(qs, n) == group_in(ps, n) by {
                    lemma_group_in_insert(ps, i as int, g, n);
                }
                assert(Seq::<PackageMetadata>::empty().insert(0, meta) =~= g.versions@);
                assert(group_in(ps, name) == Seq::<PackageMetadata>::empty());
                assert(group_in(qs, name) == g.versions@);
                assert(inserted_in_order(old(self).versions_of(name), self.versions_of(name), 0, m));
                if forall|n: Seq<char>| #[trigger] sorted_by_precedence(old(self).versions_of(n)) {
                    assert forall|n: Seq<char>| #[trigger] sorted_by_precedence(self.versions_of(n)) by {
                        if n != name {
                            assert(sorted_by_precedence(old(self).versions_of(n)));
                        }
                    }
                }
            }
        }
    }
}

/// `after` is `before` with `meta` inserted at `p`, the first position
/// whose version comes strictly after `meta`'s: after every entry whose
/// version is equal or earlier.
pub open spec fn inserted_in_order(before: Seq<PackageMetadata>, after: Seq<PackageMetadata>, p: int, meta: PackageMetadata) -> bool {
    &&& 0 <= p <= before.len()
    &&& after == before.insert(p, meta)
    &&& forall|k: int| 0 <= k < p ==> semver_order(#[trigger] before[k].version@, meta.version@) <= 0
    &&& forall|k: int|
        p <= k < before.len() ==> semver_order(#[trigger] before[k].version@, meta.version@) > 0
            && before[k].version@ != meta.version@
}

impl RepositoryIndex {
    /// Folds metadata entries into an index: each entry is listed under
    /// its package's name as often as it occurs among `entries`, groups
    /// hold nothing else and come in name order, each package's versions
    /// ascend by SemVer precedence, and entries at equal versions keep
    /// their order in `entries` (a stable sort).
    pub fn from_metadata(entries: Vec<PackageMetadata>) -> (r: RepositoryIndex)
        requires
            forall|k: int| 0 <= k < entries@.len() ==> (#[trigger] entries@[k]).version.wf(),
        ensures
            r.built_from(entries@),
            forall|n: Seq<char>| #[trigger] sorted_by_precedence(r.versions_of(n)),
    {
        let ghost all = entries@;
        let mut entries = entries;
        let mut index = RepositoryIndex::new();
        let ghost mut k: int = 0;
        assert(all.take(0) =~= Seq::<PackageMetadata>::empty());
        assert(forall|n: Seq<char>, v: VersionView|
            #[trigger] entries_at(index.versions_of(n), n, v) == entries_at(all.take(0), n, v));
        assert(forall|n: Seq<char>| #[trigger] sorted_by_precedence(index.versions_of(n)));
        while entries.len() > 0
            invariant
                0 <= k <= all.len(),
                entries@ == all.skip(k),
                index.well_formed(),
                forall|j: int| 0 <= j < all.len() ==> (#[trigger] all[j]).version.wf(),
                forall|m: PackageMetadata|
                    #[trigger] index.versions_of(m.name@).to_multiset().count(m) == all.take(
                        k,
                    ).to_multiset().count(m),
                forall|n: Seq<char>, v: VersionView|
                    #[trigger] entries_at(index.versions_of(n), n, v) == entries_at(all.take(k), n, v),
                forall|n: Seq<char>| #[trigger] sorted_by_precedence(index.versions_of(n)),
                total_versions(index.packages@) == k,
            decreases entries@.len(),
        {
            let meta = entries.remove(0);
            let ghost before = index;
            assert(meta == all[k]);
            index.insert(meta);
            assert(all.take(k + 1) =~= all.take(k).push(meta));
            assert(all.skip(k + 1) =~= all.skip(k).remove(0));
            proof {
                assert forall|m: PackageMetadata|
                    #[trigger] index.versions_of(m.name@).to_multiset().count(m) == all.take(
                        k + 1,
                    ).to_multiset().count(m) by {
                    if m.name@ != meta.name@ {
                        assert(index.versions_of(m.name@) == before.versions_of(m.name@));
                    }
                }
                let t = all.take(k + 1);
                assert(t.drop_last() =~= all.take(k));
                assert(t.last() == meta);
                let p = choose|p: int| #[trigger] inserted_in_order(
                    before.versions_of(meta.name@),
                    index.versions_of(meta.name@),
                    p,
                    meta,
                );
                assert forall|n: Seq<char>, v: VersionView|
                    #[trigger] entries_at(index.versions_of(n), n, v) == entries_at(t, n, v) by {
                    assert(entries_at(before.versions_of(n), n, v) == entries_at(all.take(k), n, v));
                    if n == meta.name@ {
                        lemma_entries_at_insert(before.versions_of(n), p, meta, n, v);
                    } else {
                        assert(index.versions_of(n) == before.versions_of(n));
                    }
                }
                k = k + 1;
            }
        }
        assert(all.take(k) =~= all);
        index
    }

    /// The versions listed for `name`, if the index has any.
    pub fn get(&self, name: &str) -> (r: Option<&Vec<PackageMetadata>>)
        requires
            self.well_formed(),
        ensures
            match r {
                Some(v) => v@ == self.versions_of(name@) && v@.len() > 0,
                None => self.versions_of(name@) == Seq::<PackageMetadata>::empty(),
            },
    {
        let n = self.packages.len();
        let mut i: usize = 0;
        while i < n
            invariant
                n == self.packages@.len(),
                i <= n,
                self.well_formed(),
                forall|j: int| 0 <= j < i ==> (#[trigger] self.packages@[j]).name@ != name@,
            decreases n - i,
        {
            if same_text(self.packages[i].name.as_str(), name) {
                proof {
                    lemma_ascending_names_distinct(self.packages@);
                    lemma_group_in_found(self.packages@, i as int);
                    assert(group_ok(self.packages@[i as int]));
                }
                return Some(&self.packages[i].versions);
            }
            i = i + 1;
        }
        proof {
            lemma_group_in_absent(self.packages@, name@);
        }
        None
    }

    /// How many packages the index lists.
    pub fn package_count(&self) -> (r: usize)
        ensures
            r == self.packages@.len(),
    {
        self.packages.len()
    }

    /// How many versions the index lists, over all packages.
    pub fn version_count(&self) -> (r: usize)
        requires
            total_versions(self.packages@) <= usize::MAX,
        ensures
            r == total_versions(self.packages@),
    {
        let n = self.packages.len();
        let mut total: usize = 0;
        let mut i: usize = 0;
        while i < n
            invariant
                n == self.packages@.len(),
                i <= n,
                total == total_versions(self.packages@.take(i as int)),
                total_versions(self.packages@) <= usize::MAX,
            decreases n - i,
        {
            proof {
                assert(self.packages@.take(i + 1).drop_last() =~= self.packages@.take(i as int));
                lemma_total_prefix(self.packages@, i + 1);
            }
            total = total + self.packages[i].versions.len();
            i = i + 1;
        }
        assert(self.packages@.take(n as int) =~= self.packages@);
        total
    }
}

proof fn lemma_total_prefix(ps: Seq<PackageVersions>, k: int)
    requires
        0 <= k <= ps.len(),
    ensures
        total_versions(ps.take(k)) <= total_versions(ps),
    decreases ps.len(),
{
    if k < ps.len() {
        assert(ps.drop_last().take(k) =~= ps.take(k));
        lemma_total_prefix(ps.drop_last(), k);
    } else {
        assert(ps.take(k) =~= ps);
    }
}

proof fn lemma_versions_named(ps: Seq<PackageVersions>, n: Seq<char>)
    requires
        forall|i: int| 0 <= i < ps.len() ==> group_ok(#[trigger] ps[i]),
    ensures
        forall|k: int| 0 <= k < group_in(ps, n).len() ==> (#[trigger] group_in(ps, n)[k]).name@ == n,
    decreases ps.len(),
{
    if ps.len() > 0 {
        assert(group_ok(ps[ps.len() - 1]));
        if ps.last().name@ != n {
            lemma_versions_named(ps.drop_last(), n);
        }
    }
}

/// Under any name, the index lists only entries of that name, in
/// ascending version order.
pub proof fn lemma_index_groups(r: RepositoryIndex, n: Seq<char>)
    requires
        r.well_formed(),
    ensures
        forall|k: int| 0 <= k < r.versions_of(n).len() ==> (#[trigger] r.versions_of(n)[k]).name@ == n,
        sorted_by_version(r.versions_of(n)),
{
    lemma_versions_named(r.packages@, n);
    lemma_group_sorted(r.packages@, n);
}

proof fn lemma_group_sorted(ps: Seq<PackageVersions>, n: Seq<char>)
    requires
        forall|i: int| 0 <= i < ps.len() ==> group_ok(#[trigger] ps[i]),
    ensures
        sorted_by_version(group_in(ps, n)),
    decreases ps.len(),
{
    if ps.len() > 0 {
        assert(group_ok(ps[ps.len() - 1]));
        if ps.last().name@ != n {
            lemma_group_sorted(ps.drop_last(), n);
        }
    }
}

/// An index reflects only the metadata it was built from, not the order
/// it was read in: indexes built from the same entries, in any order,
/// list the same versions under every name.
pub proof fn lemma_index_reflects_metadata_only(
    r1: RepositoryIndex,
    e1: Seq<PackageMetadata>,
    r2: RepositoryIndex,
    e2: Seq<PackageMetadata>,
)
    requires
        r1.built_from(e1),
        r2.built_from(e2),
        e1.to_multiset() == e2.to_multiset(),
    ensures
        forall|n: Seq<char>| #[trigger] r1.versions_of(n).to_multiset() == r2.versions_of(n).to_multiset(),
{
    assert forall|n: Seq<char>| #[trigger] r1.versions_of(n).to_multiset() == r2.versions_of(n).to_multiset() by {
        lemma_versions_named(r1.packages@, n);
        lemma_versions_named(r2.packages@, n);
        assert forall|m: PackageMetadata| r1.versions_of(n).to_multiset().count(m) == r2.versions_of(n).to_multiset().count(m) by {
            if m.name@ == n {
                assert(r1.versions_of(m.name@).to_multiset().count(m) == e1.to_multiset().count(m));
                assert(r2.versions_of(m.name@).to_multiset().count(m) == e2.to_multiset().count(m));
            } else {
                if r1.versions_of(n).contains(m) {
                    let k = choose|k: int| 0 <= k < r1.versions_of(n).len() && r1.versions_of(n)[k] == m;
                    assert(r1.versions_of(n)[k].name@ == n);
                }
                if r2.versions_of(n).contains(m) {
                    let k = choose|k: int| 0 <= k < r2.versions_of(n).len() && r2.versions_of(n)[k] == m;
                    assert(r2.versions_of(n)[k].name@ == n);
                }
            }
        }
        assert(r1.versions_of(n).to_multiset() =~= r2.versions_of(n).to_multiset());
    }
}

/// Two sorted lists holding the same entries, where no two different
/// entries share a version, are the same list.
proof fn lemma_sorted_lists_agree(s1: Seq<PackageMetadata>, s2: Seq<PackageMetadata>)
    requires
        sorted_by_version(s1),
        sorted_by_version(s2),
        s1.to_multiset() == s2.to_multiset(),
        forall|x: PackageMetadata, y: PackageMetadata|
            s1.contains(x) && s1.contains(y) && x.version@ == y.version@ ==> x == y,
    ensures
        s1 == s2,
    decreases s1.len(),
{
    if s1.len() == 0 {
        vstd::seq_lib::to_multiset_len(s1);
        vstd::seq_lib::to_multiset_len(s2);
        assert(s1 =~= s2);
    } else {
        assert(s2.len() == s1.len()) by {
            vstd::seq_lib::to_multiset_len(s1);
            vstd::seq_lib::to_multiset_len(s2);
        }
        let x = s1[0];
        let y = s2[0];
        if x != y {
            assert(s2.contains(y));
            assert(s2.to_multiset().count(y) > 0);
            assert(s1.contains(y));
            let i = choose|i: int| 0 <= i < s1.len() && s1[i] == y;
            assert(s1.contains(x));
            assert(s1.to_multiset().count(x) > 0);
            assert(s2.contains(x));
            let q = choose|q: int| 0 <= q < s2.len() && s2[q] == x;
            assert(x.version@ != y.version@);
            assert(semver_order(s1[i].version@, s1[0].version@) > 0);
            assert(semver_order(s2[0].version@, s2[q].version@) <= 0);
        }
        let t1 = s1.remove(0);
        let t2 = s2.remove(0);
        assert(t1.to_multiset() == t2.to_multiset());
        assert forall|i: int, j: int| 0 <= i < j < t1.len() implies semver_order(#[trigger] t1[i].version@, #[trigger] t1[j].version@) <= 0
            && (t1[i].version@ != t1[j].version@ ==> semver_order(t1[j].version@, t1[i].version@) > 0) by {
            assert(t1[i] == s1[i + 1] && t1[j] == s1[j + 1]);
        }
        assert forall|i: int, j: int| 0 <= i < j < t2.len() implies semver_order(#[trigger] t2[i].version@, #[trigger] t2[j].version@) <= 0
            && (t2[i].version@ != t2[j].version@ ==> semver_order(t2[j].version@, t2[i].version@) > 0) by {
            assert(t2[i] == s2[i + 1] && t2[j] == s2[j + 1]);
        }
        assert forall|a: PackageMetadata, b: PackageMetadata|
            t1.contains(a) && t1.contains(b) && a.version@ == b.version@ implies a == b by {
            let ia = choose|k: int| 0 <= k < t1.len() && t1[k] == a;
            let ib = choose|k: int| 0 <= k < t1.len() && t1[k] == b;
            assert(s1[ia + 1] == a && s1[ib + 1] == b);
            assert(s1.contains(a) && s1.contains(b));
        }
        lemma_sorted_lists_agree(t1, t2);
        assert forall|k: int| 0 <= k < s1.len() implies s1[k] == s2[k] by {
            if k > 0 {
                assert(s1[k] == t1[k - 1] && s2[k] == t2[k - 1]);
            }
        }
        assert(s1 =~= s2);
    }
}

/// Rebuilding gives the same index: indexes built from the same entries,
/// read in any order, list exactly the same versions, in the same order,
/// under every name — provided no two different entries share a package
/// name and version (there, the order between the two follows the order
/// they were read in).
pub proof fn lemma_index_is_determined_by_metadata(
    r1: RepositoryIndex,
    e1: Seq<PackageMetadata>,
    r2: RepositoryIndex,
    e2: Seq<PackageMetadata>,
)
    requires
        r1.built_from(e1),
        r2.built_from(e2),
        e1.to_multiset() == e2.to_multiset(),
        forall|i: int, j: int|
            0 <= i < e1.len() && 0 <= j < e1.len() && (#[trigger] e1[i]).name@ == (#[trigger] e1[j]).name@
                && e1[i].version@ == e1[j].version@ ==> e1[i] == e1[j],
    ensures
        forall|n: Seq<char>| #[trigger] r1.versions_of(n) == r2.versions_of(n),
{
    lemma_index_reflects_metadata_only(r1, e1, r2, e2);
    assert forall|n: Seq<char>| #[trigger] r1.versions_of(n) == r2.versions_of(n) by {
        let s1 = r1.versions_of(n);
        let s2 = r2.versions_of(n);
        lemma_index_groups(r1, n);
        lemma_index_groups(r2, n);
        assert(s1.to_multiset() == s2.to_multiset());
        assert forall|x: PackageMetadata, y: PackageMetadata|
            s1.contains(x) && s1.contains(y) && x.version@ == y.version@ implies x == y by {
            let ix = choose|k: int| 0 <= k < s1.len() && s1[k] == x;
            let iy = choose|k: int| 0 <= k < s1.len() && s1[k] == y;
            assert(s1[ix].name@ == n && s1[iy].name@ == n);
            assert(s1.to_multiset().count(x) > 0);
            assert(r1.versions_of(x.name@).to_multiset().count(x) == e1.to_multiset().count(x));
            assert(e1.contains(x));
            assert(s1.to_multiset().count(y) > 0);
            assert(r1.versions_of(y.name@).to_multiset().count(y) == e1.to_multiset().count(y));
            assert(e1.contains(y));
            let jx = choose|k: int| 0 <= k < e1.len() && e1[k] == x;
            let jy = choose|k: int| 0 <= k < e1.len() && e1[k] == y;
            assert(e1[jx].name@ == e1[jy].name@);
        }
        lemma_sorted_lists_agree(s1, s2);
    }
}

/// In a list sorted by precedence, a version of strictly lower precedence
/// is always listed before one of higher precedence: for example, of
/// `1.0.0-beta` and `1.0.0-beta.1`, the latter is listed last.
pub proof fn lemma_lower_precedence_listed_first(s: Seq<PackageMetadata>, i: int, j: int)
    requires
        sorted_by_precedence(s),
        0 <= i < s.len(),
        0 <= j < s.len(),
        version_precedence(s[i].version@, s[j].version@) < 0,
    ensures
        i < j,
{
    lemma_precedence_orders(s[i].version@, s[j].version@, s[i].version@);
    lemma_precedence_orders(s[i].version@, s[i].version@, s[i].version@);
    if j < i {
        assert(version_precedence(s[j].version@, s[i].version@) <= 0);
    }
}

/// A package is listed exactly when some metadata entry names it.
pub proof fn lemma_index_lists_present_names(r: RepositoryIndex, e: Seq<PackageMetadata>, n: Seq<char>)
    requires
        r.built_from(e),
    ensures
        r.versions_of(n).len() > 0 <==> exists|k: int| 0 <= k < e.len() && (#[trigger] e[k]).name@ == n,
{
    lemma_versions_named(r.packages@, n);
    if r.versions_of(n).len() > 0 {
        let m = r.versions_of(n)[0];
        assert(m.name@ == n);
        assert(r.versions_of(n).contains(m));
        assert(r.versions_of(m.name@).to_multiset().count(m) == e.to_multiset().count(m));
        assert(e.contains(m));
        let k = choose|k: int| 0 <= k < e.len() && e[k] == m;
        assert(e[k].name@ == n);
    }
    if exists|k: int| 0 <= k < e.len() && (#[trigger] e[k]).name@ == n {
        let k = choose|k: int| 0 <= k < e.len() && (#[trigger] e[k]).name@ == n;
        let m = e[k];
        assert(e.contains(m));
        assert(r.versions_of(m.name@).to_multiset().count(m) == e.to_multiset().count(m));
        assert(r.versions_of(n).contains(m));
    }
}

} // verus!
