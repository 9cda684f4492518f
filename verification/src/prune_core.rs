//! Pure prune selection: which package files to delete when keeping N latest.

use vstd::prelude::*;
use crate::version_cmp::{parse_semver, version_order, version_order_of};
use crate::version_laws::{law_version_order_antisymmetric, law_version_order_transitive_on_semver};

verus! {

/// A package file located on disk with a parsed version string.
#[derive(Debug, Clone)]
pub struct PackageFile {
    pub path: String,
    pub version: String,
}

/// A package file as text.
pub struct PackageFileModel {
    pub path: Seq<char>,
    pub version: Seq<char>,
}

impl View for PackageFile {
    type V = PackageFileModel;

    open spec fn view(&self) -> PackageFileModel {
        PackageFileModel { path: self.path@, version: self.version@ }
    }
}

/// The views of a list of package files.
pub open spec fn files_view(files: Seq<PackageFile>) -> Seq<PackageFileModel> {
    files.map_values(|f: PackageFile| f@)
}

// ------------------------------------------------------------------------
// Sorting by version
// ------------------------------------------------------------------------

/// Where `x` goes in `s`: before the first file whose version is newer.
pub open spec fn insert_pos(s: Seq<PackageFileModel>, x: PackageFileModel) -> int
    decreases s.len(),
{
    if s.len() == 0 {
        0
    } else if version_order(s[0].version, x.version) > 0 {
        0
    } else {
        1 + insert_pos(s.drop_first(), x)
    }
}

/// Files in version order, oldest first; files of equal version keep their
/// input order (a stable insertion sort).
pub open spec fn sort_by_version(s: Seq<PackageFileModel>) -> Seq<PackageFileModel>
    decreases s.len(),
{
    if s.len() == 0 {
        s
    } else {
        let t = sort_by_version(s.drop_last());
        t.insert(insert_pos(t, s.last()), s.last())
    }
}

proof fn lemma_insert_pos_bounds(s: Seq<PackageFileModel>, x: PackageFileModel)
    ensures
        0 <= insert_pos(s, x) <= s.len(),
    decreases s.len(),
{
    if s.len() > 0 {
        lemma_insert_pos_bounds(s.drop_first(), x);
    }
}

/// Sorting keeps the number of files.
pub proof fn lemma_sort_len(s: Seq<PackageFileModel>)
    ensures
        sort_by_version(s).len() == s.len(),
    decreases s.len(),
{
    if s.len() > 0 {
        lemma_sort_len(s.drop_last());
        lemma_insert_pos_bounds(sort_by_version(s.drop_last()), s.last());
    }
}

/// Sorting permutes the files.
pub proof fn lemma_sort_permutes(s: Seq<PackageFileModel>)
    ensures
        sort_by_version(s).to_multiset() == s.to_multiset(),
    decreases s.len(),
{
    if s.len() > 0 {
        lemma_sort_permutes(s.drop_last());
        let t = sort_by_version(s.drop_last());
        lemma_insert_pos_bounds(t, s.last());
        vstd::seq_lib::to_multiset_insert(t, insert_pos(t, s.last()), s.last());
        vstd::seq_lib::to_multiset_build(s.drop_last(), s.last());
        assert(s.drop_last().push(s.last()) =~= s);
    }
}

fn sort_files(files: Vec<PackageFile>) -> (sorted: Vec<PackageFile>)
    ensures
        files_view(sorted@) == sort_by_version(files_view(files@)),
{
    let ghost orig = files_view(files@);
    let mut rest = files;
    let mut sorted: Vec<PackageFile> = Vec::new();
    let ghost mut i: int = 0;
    assert(orig.take(0) =~= Seq::<PackageFileModel>::empty());
    assert(orig.skip(0) =~= orig);
    while rest.len() > 0
        invariant
            0 <= i <= orig.len(),
            rest@.len() == orig.len() - i,
            files_view(rest@) == orig.skip(i),
            files_view(sorted@) == sort_by_version(orig.take(i)),
        decreases rest.len(),
    {
        let ghost rv = files_view(rest@);
        let x = rest.remove(0);
        let ghost xv = x@;
        assert(rv[0] == xv);
        assert(rv[0] == orig[i]);
        assert(files_view(rest@) =~= rv.drop_first());
        assert(rv.drop_first() =~= orig.skip(i + 1));
        let ghost t = files_view(sorted@);
        let mut p: usize = 0;
        assert(t.skip(0) =~= t);
        while p < sorted.len() && version_order_of(&sorted[p].version, &x.version) <= 0
            invariant
                p <= sorted@.len(),
                t == files_view(sorted@),
                xv == x@,
                insert_pos(t, xv) == p + insert_pos(t.skip(p as int), xv),
            decreases sorted.len() - p,
        {
            assert(t.skip(p as int)[0] == t[p as int]);
            assert(t.skip(p as int).drop_first() =~= t.skip(p + 1));
            p = p + 1;
        }
        proof {
            if p < sorted.len() {
                assert(t.skip(p as int)[0] == t[p as int]);
            }
            assert(insert_pos(t, xv) == p);
            assert(orig.take(i + 1).drop_last() =~= orig.take(i));
            assert(orig.take(i + 1).last() == xv);
        }
        sorted.insert(p, x);
        assert(files_view(sorted@) =~= t.insert(p as int, xv));
        proof {
            i = i + 1;
        }
    }
    assert(orig.take(i) =~= orig);
    sorted
}

// ------------------------------------------------------------------------
// Package groups
// ------------------------------------------------------------------------

/// Package files grouped by package name; each name occurs once.
pub struct PackageGroups {
    groups: Vec<(String, Vec<PackageFile>)>,
}

/// One group as text.
pub open spec fn group_view(g: (String, Vec<PackageFile>)) -> (Seq<char>, Seq<PackageFileModel>) {
    (g.0@, files_view(g.1@))
}

/// Whether no name occurs twice.
pub open spec fn names_distinct(g: Seq<(Seq<char>, Seq<PackageFileModel>)>) -> bool {
    forall|i: int, j: int| 0 <= i < j < g.len() ==> g[i].0 != g[j].0
}

impl View for PackageGroups {
    type V = Seq<(Seq<char>, Seq<PackageFileModel>)>;

    closed spec fn view(&self) -> Seq<(Seq<char>, Seq<PackageFileModel>)> {
        self.groups@.map_values(|g: (String, Vec<PackageFile>)| group_view(g))
    }
}

/// Index of the group named `name`.
pub open spec fn find_group(g: Seq<(Seq<char>, Seq<PackageFileModel>)>, name: Seq<char>) -> Option<
    int,
>
    decreases g.len(),
{
    if g.len() == 0 {
        None
    } else if g.last().0 == name {
        Some(g.len() - 1)
    } else {
        find_group(g.drop_last(), name)
    }
}

proof fn lemma_find_group(g: Seq<(Seq<char>, Seq<PackageFileModel>)>, name: Seq<char>)
    ensures
        find_group(g, name) matches Some(i) ==> 0 <= i < g.len() && g[i].0 == name,
        find_group(g, name) is None ==> forall|i: int| 0 <= i < g.len() ==> g[i].0 != name,
    decreases g.len(),
{
    if g.len() > 0 {
        lemma_find_group(g.drop_last(), name);
        assert forall|i: int| 0 <= i < g.len() - 1 implies g[i] == g.drop_last()[i] by {}
    }
}

/// The groups after adding one file under `name`: appended to the group of
/// that name, or a new group at the end.
pub open spec fn add_to_groups(
    g: Seq<(Seq<char>, Seq<PackageFileModel>)>,
    name: Seq<char>,
    file: PackageFileModel,
) -> Seq<(Seq<char>, Seq<PackageFileModel>)> {
    match find_group(g, name) {
        Some(i) => g.update(i, (name, g[i].1.push(file))),
        None => g.push((name, seq![file])),
    }
}

/// The groups after setting the files of `name`, replacing any earlier ones.
pub open spec fn set_group(
    g: Seq<(Seq<char>, Seq<PackageFileModel>)>,
    name: Seq<char>,
    files: Seq<PackageFileModel>,
) -> Seq<(Seq<char>, Seq<PackageFileModel>)> {
    match find_group(g, name) {
        Some(i) => g.update(i, (name, files)),
        None => g.push((name, files)),
    }
}

/// Number of files over all groups.
pub open spec fn total_files(g: Seq<(Seq<char>, Seq<PackageFileModel>)>) -> int
    decreases g.len(),
{
    if g.len() == 0 {
        0
    } else {
        total_files(g.drop_last()) + g.last().1.len()
    }
}

impl PackageGroups {
    /// The groups keep their names distinct.
    pub closed spec fn wf(&self) -> bool {
        names_distinct(self@)
    }

    /// No packages.
    pub fn new() -> (r: Self)
        ensures
            r@ == Seq::<(Seq<char>, Seq<PackageFileModel>)>::empty(),
            r.wf(),
    {
        let r = PackageGroups { groups: Vec::new() };
        assert(r@ =~= Seq::<(Seq<char>, Seq<PackageFileModel>)>::empty());
        r
    }

    /// Number of package names.
    pub fn len(&self) -> (n: usize)
        ensures
            n == self@.len(),
    {
        self.groups.len()
    }

    /// The number of files of each package, in group order.
    pub fn group_sizes(&self) -> (r: Vec<usize>)
        ensures
            r@.len() == self@.len(),
            forall|i: int| 0 <= i < r@.len() ==> r@[i] == self@[i].1.len(),
    {
        let mut r: Vec<usize> = Vec::new();
        let mut i: usize = 0;
        while i < self.groups.len()
            invariant
                i <= self.groups@.len(),
                r@.len() == i,
                forall|k: int| 0 <= k < i ==> r@[k] == self@[k].1.len(),
            decreases self.groups.len() - i,
        {
            assert(self@[i as int] == group_view(self.groups@[i as int]));
            r.push(self.groups[i].1.len());
            i = i + 1;
        }
        r
    }

    fn position(&self, name: &String) -> (r: Option<usize>)
        ensures
            match r {
                Some(i) => find_group(self@, name@) == Some(i as int),
                None => find_group(self@, name@) is None,
            },
    {
        let ghost v = self@;
        let mut k: usize = self.groups.len();
        assert(v.take(k as int) =~= v);
        while k > 0
            invariant
                k <= self.groups@.len(),
                v == self@,
                find_group(v, name@) == find_group(v.take(k as int), name@),
            decreases k,
        {
            let key = &self.groups[k - 1].0;
            assert(v[k - 1] == group_view(self.groups@[k - 1]));
            assert(v.take(k as int).last() == v[k - 1]);
            if key.eq(name) {
                return Some(k - 1);
            }
            assert(v.take(k as int).drop_last() =~= v.take(k - 1));
            k = k - 1;
        }
        None
    }

    /// Sets the files of `name`, replacing and returning any earlier files
    /// of that name.
    pub fn insert(&mut self, name: String, files: Vec<PackageFile>) -> (r: Option<
        Vec<PackageFile>,
    >)
        requires
            old(self).wf(),
        ensures
            final(self).wf(),
            final(self)@ == set_group(old(self)@, name@, files_view(files@)),
            match r {
                Some(prev) => find_group(old(self)@, name@) matches Some(i) && files_view(prev@)
                    == old(self)@[i].1,
                None => find_group(old(self)@, name@) is None,
            },
    {
        proof {
            lemma_find_group(self@, name@);
        }
        let ghost before = self@;
        match self.position(&name) {
            Some(i) => {
                let ghost og = self.groups@;
                let (key, prev) = self.groups.remove(i);
                assert(group_view(og[i as int]) == before[i as int]);
                assert(key@ == name@);
                let ghost fv = files_view(files@);
                self.groups.insert(i, (key, files));
                assert(self.groups@ =~= og.update(i as int, self.groups@[i as int]));
                assert(group_view(self.groups@[i as int]) == (name@, fv));
                assert(self@ =~= set_group(before, name@, fv));
                Some(prev)
            },
            None => {
                let ghost og = self.groups@;
                let ghost fv = files_view(files@);
                self.groups.push((name, files));
                assert(self.groups@ =~= og.push(self.groups@[og.len() as int]));
                assert(self@ =~= set_group(before, name@, fv));
                None
            },
        }
    }

    /// Adds one file under `name`.
    pub fn add_file(&mut self, name: String, file: PackageFile)
        requires
            old(self).wf(),
        ensures
            final(self).wf(),
            final(self)@ == add_to_groups(old(self)@, name@, file@),
    {
        proof {
            lemma_find_group(self@, name@);
        }
        let ghost before = self@;
        match self.position(&name) {
            Some(i) => {
                let ghost og = self.groups@;
                let (key, mut files) = self.groups.remove(i);
                assert(group_view(og[i as int]) == before[i as int]);
                assert(key@ == name@);
                let ghost fv0 = files_view(files@);
                let ghost f = file@;
                files.push(file);
                assert(files_view(files@) =~= fv0.push(f));
                self.groups.insert(i, (key, files));
                assert(self.groups@ =~= og.update(i as int, self.groups@[i as int]));
                assert(group_view(self.groups@[i as int]) == (name@, before[i as int].1.push(f)));
                assert(self@ =~= add_to_groups(before, name@, f));
            },
            None => {
                let ghost og = self.groups@;
                let ghost f = file@;
                let mut files = Vec::new();
                files.push(file);
                assert(files_view(files@) =~= seq![f]);
                self.groups.push((name, files));
                assert(self.groups@ =~= og.push(self.groups@[og.len() as int]));
                assert(self@ =~= add_to_groups(before, name@, f));
            },
        }
    }
}

/// Groups of a list of `(name, file)` pairs, in order of first appearance,
/// each group keeping input order.
pub open spec fn group_entries(entries: Seq<(Seq<char>, PackageFileModel)>) -> Seq<
    (Seq<char>, Seq<PackageFileModel>),
>
    decreases entries.len(),
{
    if entries.len() == 0 {
        Seq::empty()
    } else {
        add_to_groups(group_entries(entries.drop_last()), entries.last().0, entries.last().1)
    }
}

/// Group `(name, PackageFile)` pairs for [`select_to_remove`].
pub fn group_by_name(entries: Vec<(String, PackageFile)>) -> (packages: PackageGroups)
    ensures
        packages.wf(),
        packages@ == group_entries(
            entries@.map_values(|e: (String, PackageFile)| (e.0@, e.1@)),
        ),
{
    let ghost orig = entries@.map_values(|e: (String, PackageFile)| (e.0@, e.1@));
    let mut packages = PackageGroups::new();
    let mut rest = entries;
    let ghost mut i: int = 0;
    assert(orig.take(0) =~= Seq::<(Seq<char>, PackageFileModel)>::empty());
    assert(orig.skip(0) =~= orig);
    while rest.len() > 0
        invariant
            0 <= i <= orig.len(),
            rest@.len() == orig.len() - i,
            rest@.map_values(|e: (String, PackageFile)| (e.0@, e.1@)) == orig.skip(i),
            packages.wf(),
            packages@ == group_entries(orig.take(i)),
        decreases rest.len(),
    {
        let ghost rv = rest@.map_values(|e: (String, PackageFile)| (e.0@, e.1@));
        let (name, file) = rest.remove(0);
        assert(rv[0] == (name@, file@));
        assert(rv[0] == orig[i]);
        assert(rest@.map_values(|e: (String, PackageFile)| (e.0@, e.1@)) =~= rv.drop_first());
        assert(rv.drop_first() =~= orig.skip(i + 1));
        assert(orig.take(i + 1).drop_last() =~= orig.take(i));
        packages.add_file(name, file);
        proof {
            i = i + 1;
        }
    }
    assert(orig.take(i) =~= orig);
    packages
}

// ------------------------------------------------------------------------
// Selection
// ------------------------------------------------------------------------

/// Paths to remove from one package so that at most `keep` files remain:
/// the oldest ones in version order.
pub open spec fn removed_of(files: Seq<PackageFileModel>, keep: int) -> Seq<Seq<char>> {
    if files.len() <= keep {
        Seq::empty()
    } else {
        sort_by_version(files).take(files.len() - keep).map_values(|f: PackageFileModel| f.path)
    }
}

/// Paths to remove from every package, package by package.
pub open spec fn select_spec(groups: Seq<(Seq<char>, Seq<PackageFileModel>)>, keep: int) -> Seq<
    Seq<char>,
>
    decreases groups.len(),
{
    if groups.len() == 0 {
        Seq::empty()
    } else {
        select_spec(groups.drop_last(), keep) + removed_of(groups.last().1, keep)
    }
}

/// From grouped package files, return paths that should be removed so that at
/// most `keep` newest versions remain per package name.
///
/// - If `keep == 0`, every file is selected for removal.
/// - Sorting uses [`compare_versions`]; older versions are removed first.
/// - When versions compare equal, order is stable relative to input grouping
///   (not cross-package).
pub fn select_to_remove(packages: PackageGroups, keep: usize) -> (remove: Vec<String>)
    ensures
        remove@.map_values(|p: String| p@) == select_spec(packages@, keep as int),
{
    let ghost orig = packages@;
    let PackageGroups { groups } = packages;
    assert(groups@.map_values(|g: (String, Vec<PackageFile>)| group_view(g)) == orig);
    let mut rest = groups;
    let mut remove: Vec<String> = Vec::new();
    let ghost mut i: int = 0;
    assert(orig.take(0) =~= Seq::<(Seq<char>, Seq<PackageFileModel>)>::empty());
    assert(orig.skip(0) =~= orig);
    assert(remove@.map_values(|p: String| p@) =~= Seq::<Seq<char>>::empty());
    while rest.len() > 0
        invariant
            0 <= i <= orig.len(),
            rest@.len() == orig.len() - i,
            rest@.map_values(|g: (String, Vec<PackageFile>)| group_view(g)) == orig.skip(i),
            remove@.map_values(|p: String| p@) == select_spec(orig.take(i), keep as int),
        decreases rest.len(),
    {
        let ghost rv = rest@.map_values(|g: (String, Vec<PackageFile>)| group_view(g));
        let (_name, files) = rest.remove(0);
        let ghost fv = files_view(files@);
        assert(rv[0].1 == fv);
        assert(rv[0] == orig[i]);
        assert(rest@.map_values(|g: (String, Vec<PackageFile>)| group_view(g)) =~= rv.drop_first());
        assert(rv.drop_first() =~= orig.skip(i + 1));
        assert(orig.take(i + 1).drop_last() =~= orig.take(i));
        let ghost before = remove@.map_values(|p: String| p@);
        let sorted = sort_files(files);
        proof {
            lemma_sort_len(fv);
        }
        let count = sorted.len();
        if count > keep {
            let delete_count = count - keep;
            let ghost target = sort_by_version(fv).take(delete_count as int).map_values(
                |f: PackageFileModel| f.path,
            );
            let mut k: usize = 0;
            while k < delete_count
                invariant
                    k <= delete_count <= sorted@.len(),
                    files_view(sorted@) == sort_by_version(fv),
                    target == sort_by_version(fv).take(delete_count as int).map_values(
                        |f: PackageFileModel| f.path,
                    ),
                    remove@.map_values(|p: String| p@) == before + target.take(k as int),
                decreases delete_count - k,
            {
                let path = sorted[k].path.clone();
                let ghost prev = remove@.map_values(|p: String| p@);
                remove.push(path);
                assert(target[k as int] == sorted@[k as int].path@);
                assert(remove@.map_values(|p: String| p@) =~= prev.push(target[k as int]));
                k = k + 1;
                assert(target.take(k as int) =~= target.take(k - 1).push(target[k - 1]));
            }
            assert(target.take(delete_count as int) =~= target);
        } else {
            assert(before + removed_of(fv, keep as int) =~= before);
        }
        proof {
            i = i + 1;
        }
    }
    assert(orig.take(i) =~= orig);
    remove
}

// ------------------------------------------------------------------------
// Laws of the selection
// ------------------------------------------------------------------------

/// Files beyond `keep`, summed over every package.
pub open spec fn excess(groups: Seq<(Seq<char>, Seq<PackageFileModel>)>, keep: int) -> int
    decreases groups.len(),
{
    if groups.len() == 0 {
        0
    } else {
        let n = groups.last().1.len() as int;
        excess(groups.drop_last(), keep) + if n > keep {
            n - keep
        } else {
            0
        }
    }
}

/// Exactly the files beyond `keep` of each package are selected.
pub proof fn law_remove_count(groups: Seq<(Seq<char>, Seq<PackageFileModel>)>, keep: int)
    requires
        keep >= 0,
    ensures
        select_spec(groups, keep).len() == excess(groups, keep),
        select_spec(groups, keep).len() <= total_files(groups),
    decreases groups.len(),
{
    if groups.len() > 0 {
        law_remove_count(groups.drop_last(), keep);
        let files = groups.last().1;
        lemma_sort_len(files);
    }
}

/// With `keep == 0` every file is selected.
pub proof fn law_keep_zero_removes_all(groups: Seq<(Seq<char>, Seq<PackageFileModel>)>)
    ensures
        select_spec(groups, 0).len() == total_files(groups),
    decreases groups.len(),
{
    law_remove_count(groups, 0);
    lemma_excess_zero(groups);
}

proof fn lemma_excess_zero(groups: Seq<(Seq<char>, Seq<PackageFileModel>)>)
    ensures
        excess(groups, 0) == total_files(groups),
    decreases groups.len(),
{
    if groups.len() > 0 {
        lemma_excess_zero(groups.drop_last());
    }
}

/// Whether every file carries a semver version.
pub open spec fn all_semver(s: Seq<PackageFileModel>) -> bool {
    forall|i: int| 0 <= i < s.len() ==> (#[trigger] parse_semver(s[i].version)) is Some
}

/// Whether the files are in version order, oldest first.
pub open spec fn sorted_by_version(s: Seq<PackageFileModel>) -> bool {
    forall|i: int, j: int|
        0 <= i < j < s.len() ==> version_order(#[trigger] s[i].version, #[trigger] s[j].version)
            <= 0
}

proof fn lemma_insert_pos_props(s: Seq<PackageFileModel>, x: PackageFileModel)
    ensures
        forall|k: int|
            0 <= k < insert_pos(s, x) ==> version_order(#[trigger] s[k].version, x.version) <= 0,
        insert_pos(s, x) < s.len() ==> version_order(s[insert_pos(s, x)].version, x.version) > 0,
    decreases s.len(),
{
    lemma_insert_pos_bounds(s, x);
    if s.len() > 0 && version_order(s[0].version, x.version) <= 0 {
        let r = s.drop_first();
        lemma_insert_pos_props(r, x);
        assert forall|k: int| 0 <= k < insert_pos(s, x) implies version_order(
            #[trigger] s[k].version,
            x.version,
        ) <= 0 by {
            if k > 0 {
                assert(s[k] == r[k - 1]);
            }
        }
        lemma_insert_pos_bounds(r, x);
        assert(insert_pos(s, x) == 1 + insert_pos(r, x));
        if insert_pos(s, x) < s.len() {
            let k = insert_pos(r, x);
            assert(s[k + 1] == r[k]);
        }
    }
}

proof fn lemma_sort_semver(s: Seq<PackageFileModel>)
    requires
        all_semver(s),
    ensures
        all_semver(sort_by_version(s)),
        sorted_by_version(sort_by_version(s)),
    decreases s.len(),
{
    if s.len() > 0 {
        let init = s.drop_last();
        let x = s.last();
        assert(all_semver(init)) by {
            assert forall|i: int| 0 <= i < init.len() implies (#[trigger] parse_semver(
                init[i].version,
            )) is Some by {
                assert(init[i] == s[i]);
            }
        }
        assert(parse_semver(s[s.len() - 1].version) is Some);
        lemma_sort_semver(init);
        let t = sort_by_version(init);
        let p = insert_pos(t, x);
        lemma_insert_pos_bounds(t, x);
        lemma_insert_pos_props(t, x);
        let u = t.insert(p, x);
        assert(u == sort_by_version(s));
        assert forall|i: int| 0 <= i < u.len() implies (#[trigger] parse_semver(
            u[i].version,
        )) is Some by {
            if i < p {
                assert(u[i] == t[i]);
            } else if i > p {
                assert(u[i] == t[i - 1]);
            }
        }
        assert forall|i: int, j: int| 0 <= i < j < u.len() implies version_order(
            #[trigger] u[i].version,
            #[trigger] u[j].version,
        ) <= 0 by {
            if j < p {
                assert(u[i] == t[i] && u[j] == t[j]);
            } else if i < p && j == p {
                assert(u[i] == t[i]);
            } else if i < p && j > p {
                assert(u[i] == t[i] && u[j] == t[j - 1]);
            } else if i == p {
                assert(u[j] == t[j - 1]);
                assert(parse_semver(t[j - 1].version) is Some);
                assert(parse_semver(t[p].version) is Some);
                law_version_order_antisymmetric(t[p].version, x.version);
                if j - 1 > p {
                    assert(version_order(t[p].version, t[j - 1].version) <= 0);
                    law_version_order_transitive_on_semver(
                        x.version,
                        t[p].version,
                        t[j - 1].version,
                    );
                }
            } else {
                assert(u[i] == t[i - 1] && u[j] == t[j - 1]);
            }
        }
    }
}

/// In a package whose versions are all semver, the files selected for
/// removal are the oldest: the selection is the head of a version-ordered
/// permutation of the files, and no removed version is newer than a kept one.
pub proof fn law_removed_are_oldest(files: Seq<PackageFileModel>, keep: int)
    requires
        all_semver(files),
        0 <= keep < files.len(),
    ensures
        ({
            let s = sort_by_version(files);
            let d = files.len() - keep;
            &&& s.to_multiset() == files.to_multiset()
            &&& removed_of(files, keep) == s.take(d).map_values(|f: PackageFileModel| f.path)
            &&& forall|i: int, j: int|
                0 <= i < d <= j < files.len() ==> version_order(
                    #[trigger] s[i].version,
                    #[trigger] s[j].version,
                ) <= 0
        }),
{
    lemma_sort_permutes(files);
    lemma_sort_len(files);
    lemma_sort_semver(files);
}

/// Whether every file of every group has a path that satisfies `ok`.
pub open spec fn all_paths(
    groups: Seq<(Seq<char>, Seq<PackageFileModel>)>,
    ok: spec_fn(Seq<char>) -> bool,
) -> bool {
    forall|i: int, j: int|
        0 <= i < groups.len() && 0 <= j < groups[i].1.len() ==> ok(#[trigger] groups[i].1[j].path)
}

proof fn lemma_removed_paths(files: Seq<PackageFileModel>, keep: int, ok: spec_fn(Seq<char>) -> bool)
    requires
        keep >= 0,
        forall|j: int| 0 <= j < files.len() ==> ok(#[trigger] files[j].path),
    ensures
        forall|k: int|
            0 <= k < removed_of(files, keep).len() ==> ok(#[trigger] removed_of(files, keep)[k]),
{
    if files.len() > keep {
        let s = sort_by_version(files);
        lemma_sort_permutes(files);
        lemma_sort_len(files);
        assert(removed_of(files, keep).len() == files.len() - keep);
        assert forall|k: int| 0 <= k < removed_of(files, keep).len() implies ok(
            #[trigger] removed_of(files, keep)[k],
        ) by {
            assert(removed_of(files, keep)[k] == s[k].path);
            assert(s.contains(s[k]));
            vstd::seq_lib::to_multiset_contains(s, s[k]);
            vstd::seq_lib::to_multiset_contains(files, s[k]);
            let j = choose|j: int| 0 <= j < files.len() && files[j] == s[k];
            assert(ok(files[j].path));
        }
    }
}

/// Every path selected for removal is the path of one of the grouped
/// files: what holds of all grouped paths holds of the selection.
pub proof fn law_selection_from_groups(
    groups: Seq<(Seq<char>, Seq<PackageFileModel>)>,
    keep: int,
    ok: spec_fn(Seq<char>) -> bool,
)
    requires
        keep >= 0,
        all_paths(groups, ok),
    ensures
        forall|k: int|
            0 <= k < select_spec(groups, keep).len() ==> ok(#[trigger] select_spec(groups, keep)[k]),
    decreases groups.len(),
{
    if groups.len() > 0 {
        let init = groups.drop_last();
        assert(all_paths(init, ok)) by {
            assert forall|i: int, j: int|
                0 <= i < init.len() && 0 <= j < init[i].1.len() implies ok(
                #[trigger] init[i].1[j].path,
            ) by {
                assert(init[i] == groups[i]);
            }
        }
        law_selection_from_groups(init, keep, ok);
        let files = groups.last().1;
        assert forall|j: int| 0 <= j < files.len() implies ok(#[trigger] files[j].path) by {
            assert(groups[groups.len() - 1].1[j] == files[j]);
        }
        lemma_removed_paths(files, keep, ok);
        let a = select_spec(init, keep);
        let b = removed_of(files, keep);
        assert forall|k: int| 0 <= k < select_spec(groups, keep).len() implies ok(
            #[trigger] select_spec(groups, keep)[k],
        ) by {
            if k < a.len() {
                assert(select_spec(groups, keep)[k] == a[k]);
            } else {
                assert(select_spec(groups, keep)[k] == b[k - a.len()]);
            }
        }
    }
}

/// Grouping keeps the files it was given: what holds of every entry's path
/// holds of every grouped path.
pub proof fn law_groups_from_entries(
    entries: Seq<(Seq<char>, PackageFileModel)>,
    ok: spec_fn(Seq<char>) -> bool,
)
    requires
        forall|k: int| 0 <= k < entries.len() ==> ok(#[trigger] entries[k].1.path),
    ensures
        all_paths(group_entries(entries), ok),
    decreases entries.len(),
{
    if entries.len() > 0 {
        let init = entries.drop_last();
        assert forall|k: int| 0 <= k < init.len() implies ok(#[trigger] init[k].1.path) by {
            assert(init[k] == entries[k]);
        }
        law_groups_from_entries(init, ok);
        let g = group_entries(init);
        let name = entries.last().0;
        let f = entries.last().1;
        assert(ok(entries[entries.len() - 1].1.path));
        lemma_find_group(g, name);
        let r = group_entries(entries);
        assert(r == add_to_groups(g, name, f));
        match find_group(g, name) {
            Some(i) => {
                assert forall|a: int, b: int|
                    0 <= a < r.len() && 0 <= b < r[a].1.len() implies ok(
                    #[trigger] r[a].1[b].path,
                ) by {
                    if a == i {
                        if b < g[i].1.len() {
                            assert(r[a].1[b] == g[i].1[b]);
                        } else {
                            assert(r[a].1[b] == f);
                        }
                    } else {
                        assert(r[a] == g[a]);
                    }
                }
            },
            None => {
                assert forall|a: int, b: int|
                    0 <= a < r.len() && 0 <= b < r[a].1.len() implies ok(
                    #[trigger] r[a].1[b].path,
                ) by {
                    if a < g.len() {
                        assert(r[a] == g[a]);
                    } else {
                        assert(r[a].1[b] == f);
                    }
                }
            },
        }
    }
}

} // verus!
