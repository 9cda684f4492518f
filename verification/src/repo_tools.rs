//! Decisions of the repository tools: the prune arguments, which pool files
//! are tracked and removed, which RPMs are signed, and how the signing and
//! indexing tools are chosen.  The programs around them list directories,
//! move and remove files and run the commands.

use vstd::prelude::*;
use crate::decimal::{all_digits, decimal_value, parse_u64};
use crate::package_parse::{deb_id, parse_deb_filename, parse_rpm_filename, rpm_id};
use crate::paths::{
    extension, file_name, file_name_of, is_rpm_path, is_safe_segment, join_path,
    law_safe_join_is_child, safe_join_under, under_base,
};
use crate::prune_core::{
    group_by_name, group_entries, law_groups_from_entries, law_selection_from_groups,
    select_spec, select_to_remove, PackageFile, PackageFileModel,
};
use crate::text::{chars_eq, chars_of, names_view, slice_from, strings_without, without};

verus! {

// ------------------------------------------------------------------------
// Prune arguments
// ------------------------------------------------------------------------

/// Splits the `--dry-run` flag off the arguments: whether it occurs
/// anywhere, and the other arguments in order.
pub fn split_dry_run(args: &[String]) -> (r: (bool, Vec<String>))
    ensures
        r.0 == names_view(args@).contains("--dry-run"@),
        names_view(r.1@) == without(names_view(args@), "--dry-run"@),
{
    let flag = chars_of("--dry-run");
    let ghost views = names_view(args@);
    let mut found = false;
    let mut i: usize = 0;
    while i < args.len()
        invariant
            i <= args@.len(),
            views == names_view(args@),
            flag@ == "--dry-run"@,
            found == (exists|k: int| 0 <= k < i && views[k] == flag@),
        decreases args.len() - i,
    {
        let a = chars_of(args[i].as_str());
        assert(views[i as int] == a@);
        if chars_eq(&a, &flag) {
            found = true;
        }
        i = i + 1;
    }
    let rest = strings_without(args, "--dry-run");
    (found, rest)
}

/// The value of a KEEP argument as `str::parse::<usize>` reads it: an
/// optional `+`, then one or more decimal digits whose value fits.
pub open spec fn keep_value(arg: Seq<char>) -> Option<usize> {
    let digits = if arg.len() > 0 && arg[0] == '+' {
        arg.drop_first()
    } else {
        arg
    };
    if digits.len() > 0 && all_digits(digits) && decimal_value(digits) <= usize::MAX {
        Some(decimal_value(digits) as usize)
    } else {
        None
    }
}

/// The message for a KEEP argument that is not a number.
pub open spec fn keep_error(arg: Seq<char>) -> Seq<char> {
    "Error: KEEP must be a positive integer (got: "@ + arg + ")"@
}

/// How many versions of each package prune keeps: 3 without an argument
/// (the program name is `args[0]`), else the first argument as a number.
pub fn parse_keep_arg(args: &[String]) -> (r: Result<usize, String>)
    ensures
        match r {
            Ok(k) => if args@.len() <= 1 {
                k == 3
            } else {
                keep_value(args@[1]@) == Some(k)
            },
            Err(e) => args@.len() > 1 && keep_value(args@[1]@) is None && e@ == keep_error(
                args@[1]@,
            ),
        },
{
    if args.len() <= 1 {
        return Ok(3);
    }
    let arg = chars_of(args[1].as_str());
    let digits = if arg.len() > 0 && arg[0] == '+' {
        slice_from(&arg, 1)
    } else {
        slice_from(&arg, 0)
    };
    proof {
        if arg@.len() > 0 && arg@[0] == '+' {
            assert(digits@ =~= arg@.drop_first());
        } else {
            assert(digits@ =~= arg@);
        }
    }
    let parsed = if digits.len() > 0 {
        parse_u64(&digits)
    } else {
        None
    };
    proof {
        assert(arg@ == args@[1]@);
        if digits@.len() > 0 && all_digits(digits@) && decimal_value(digits@) <= usize::MAX {
            crate::decimal::lemma_decimal_value_nonneg(digits@);
            assert(decimal_value(digits@) <= u64::MAX);
        }
    }
    match parsed {
        Some(v) => {
            if v <= usize::MAX as u64 {
                assert(keep_value(args@[1]@) == Some(v as usize));
                return Ok(v as usize);
            }
        },
        None => {},
    }
    assert(keep_value(args@[1]@) is None);
    let mut e = String::from_str("Error: KEEP must be a positive integer (got: ");
    e.append(args[1].as_str());
    e.append(")");
    assert(e@ == keep_error(args@[1]@));
    Err(e)
}

// ------------------------------------------------------------------------
// Pool files
// ------------------------------------------------------------------------

/// The package a pool file stands for, with its path under the pool: only
/// a file whose name is one safe segment and parses as a package of the
/// pool's kind.
pub open spec fn pool_entry_of(dir: Seq<char>, name: Seq<char>, is_deb: bool) -> Option<
    (Seq<char>, PackageFileModel),
> {
    let id = if is_deb {
        deb_id(name)
    } else {
        rpm_id(name)
    };
    match id {
        Some((pkg, version)) => if is_safe_segment(name) {
            Some((pkg, PackageFileModel { path: join_path(dir, name), version }))
        } else {
            None
        },
        None => None,
    }
}

/// The packages of a pool listing, in listing order.
pub open spec fn pool_entries_of(dir: Seq<char>, names: Seq<Seq<char>>, is_deb: bool) -> Seq<
    (Seq<char>, PackageFileModel),
>
    decreases names.len(),
{
    if names.len() == 0 {
        Seq::empty()
    } else {
        let prev = pool_entries_of(dir, names.drop_last(), is_deb);
        match pool_entry_of(dir, names.last(), is_deb) {
            Some(e) => prev.push(e),
            None => prev,
        }
    }
}

/// A pair of package name and file as text.
pub open spec fn entry_view(e: (String, PackageFile)) -> (Seq<char>, PackageFileModel) {
    (e.0@, e.1@)
}

/// The package a pool file stands for, if any.
pub fn pool_entry(dir: &str, filename: &str, is_deb: bool) -> (r: Option<(String, PackageFile)>)
    ensures
        match r {
            Some(e) => pool_entry_of(dir@, filename@, is_deb) == Some(entry_view(e)),
            None => pool_entry_of(dir@, filename@, is_deb) is None,
        },
{
    let path = match safe_join_under(dir, filename) {
        Some(p) => p,
        None => return None,
    };
    let id = if is_deb {
        parse_deb_filename(filename)
    } else {
        parse_rpm_filename(filename)
    };
    match id {
        Some(id) => Some((id.name, PackageFile { path, version: id.version })),
        None => None,
    }
}

/// The packages among the regular files of a pool directory, each with
/// its path under the pool; files that do not parse are skipped.
pub fn collect_packages(dir: &str, filenames: &[String], is_deb: bool) -> (r: Vec<
    (String, PackageFile),
>)
    ensures
        r@.map_values(|e: (String, PackageFile)| entry_view(e)) == pool_entries_of(
            dir@,
            names_view(filenames@),
            is_deb,
        ),
{
    let ghost names = names_view(filenames@);
    let mut out: Vec<(String, PackageFile)> = Vec::new();
    let mut i: usize = 0;
    assert(names.take(0) =~= Seq::<Seq<char>>::empty());
    while i < filenames.len()
        invariant
            i <= filenames@.len(),
            names == names_view(filenames@),
            out@.map_values(|e: (String, PackageFile)| entry_view(e)) == pool_entries_of(
                dir@,
                names.take(i as int),
                is_deb,
            ),
        decreases filenames.len() - i,
    {
        assert(names.take(i + 1).drop_last() =~= names.take(i as int));
        assert(names.take(i + 1).last() == filenames@[i as int]@);
        let ghost before = out@.map_values(|e: (String, PackageFile)| entry_view(e));
        match pool_entry(dir, filenames[i].as_str(), is_deb) {
            Some(e) => {
                let ghost ev = entry_view(e);
                out.push(e);
                assert(out@.map_values(|e: (String, PackageFile)| entry_view(e)) =~= before.push(
                    ev,
                ));
            },
            None => {},
        }
        i = i + 1;
    }
    assert(names.take(filenames@.len() as int) =~= names);
    out
}

/// The paths prune removes from a pool listing: per package, the oldest
/// files beyond `keep`.
pub open spec fn prune_selection(dir: Seq<char>, names: Seq<Seq<char>>, keep: int, is_deb: bool) -> Seq<
    Seq<char>,
> {
    select_spec(group_entries(pool_entries_of(dir, names, is_deb)), keep)
}

proof fn lemma_pool_entries_under(dir: Seq<char>, names: Seq<Seq<char>>, is_deb: bool)
    ensures
        forall|k: int|
            0 <= k < pool_entries_of(dir, names, is_deb).len() ==> under_base(
                dir,
                #[trigger] pool_entries_of(dir, names, is_deb)[k].1.path,
            ),
    decreases names.len(),
{
    if names.len() > 0 {
        lemma_pool_entries_under(dir, names.drop_last(), is_deb);
        let prev = pool_entries_of(dir, names.drop_last(), is_deb);
        let name = names.last();
        if is_safe_segment(name) {
            law_safe_join_is_child(dir, name);
        }
        let all = pool_entries_of(dir, names, is_deb);
        assert forall|k: int| 0 <= k < all.len() implies under_base(
            dir,
            #[trigger] all[k].1.path,
        ) by {
            if k < prev.len() {
                assert(all[k] == prev[k]);
            }
        }
    }
}

/// Prune only ever removes files inside the pool it was given: every
/// selected path lies strictly below the pool directory.
pub proof fn law_prune_stays_in_pool(dir: Seq<char>, names: Seq<Seq<char>>, keep: int, is_deb: bool)
    requires
        keep >= 0,
    ensures
        forall|k: int|
            0 <= k < prune_selection(dir, names, keep, is_deb).len() ==> under_base(
                dir,
                #[trigger] prune_selection(dir, names, keep, is_deb)[k],
            ),
{
    let entries = pool_entries_of(dir, names, is_deb);
    let ok = |p: Seq<char>| under_base(dir, p);
    lemma_pool_entries_under(dir, names, is_deb);
    assert forall|k: int| 0 <= k < entries.len() implies ok(#[trigger] entries[k].1.path) by {}
    law_groups_from_entries(entries, ok);
    law_selection_from_groups(group_entries(entries), keep, ok);
    let sel = prune_selection(dir, names, keep, is_deb);
    assert forall|k: int| 0 <= k < sel.len() implies under_base(dir, #[trigger] sel[k]) by {
        assert(ok(sel[k]));
    }
}

/// The files to remove from a pool directory, given the names of its
/// regular files: per package, the oldest beyond `keep`.  Each lies below
/// the pool.
pub fn prune_targets(dir: &str, filenames: &[String], keep: usize, is_deb: bool) -> (r: Vec<
    String,
>)
    ensures
        names_view(r@) == prune_selection(dir@, names_view(filenames@), keep as int, is_deb),
        forall|k: int| 0 <= k < r@.len() ==> under_base(dir@, #[trigger] r@[k]@),
{
    let entries = collect_packages(dir, filenames, is_deb);
    assert(entries@.map_values(|e: (String, PackageFile)| (e.0@, e.1@)) =~= entries@.map_values(
        |e: (String, PackageFile)| entry_view(e),
    ));
    let packages = group_by_name(entries);
    let r = select_to_remove(packages, keep);
    assert(names_view(r@) =~= r@.map_values(|p: String| p@));
    proof {
        law_prune_stays_in_pool(dir@, names_view(filenames@), keep as int, is_deb);
        assert forall|k: int| 0 <= k < r@.len() implies under_base(dir@, #[trigger] r@[k]@) by {
            assert(names_view(r@)[k] == r@[k]@);
            assert(prune_selection(dir@, names_view(filenames@), keep as int, is_deb)[k] == r@[k]@);
        }
    }
    r
}

// ------------------------------------------------------------------------
// Signing
// ------------------------------------------------------------------------

/// Whether a pool file is an RPM to sign: its extension is `rpm` and its
/// name is one safe segment.
pub open spec fn signs_rpm(path: Seq<char>) -> bool {
    extension(path) == Some("rpm"@) && match file_name(path) {
        Some(n) => is_safe_segment(n),
        None => false,
    }
}

/// Whether the file at `path` in `pool` is signed: an `.rpm` whose name,
/// joined again under the pool, names the same file.
pub fn rpm_to_sign(pool: &str, path: &str) -> (r: bool)
    ensures
        r == signs_rpm(path@),
{
    if !is_rpm_path(path) {
        return false;
    }
    let name = match file_name_of(path) {
        Some(n) => n,
        None => return false,
    };
    match safe_join_under(pool, name.as_str()) {
        Some(safe) => {
            proof {
                law_safe_join_is_child(pool@, name@);
                let c = crate::paths::path_components(safe@);
                assert(c.last() == crate::paths::Component::Normal(name@));
            }
            let same = match file_name_of(safe.as_str()) {
                Some(n2) => chars_eq(&chars_of(n2.as_str()), &chars_of(name.as_str())),
                None => false,
            };
            let whole = chars_eq(&chars_of(safe.as_str()), &chars_of(path));
            whole || same
        },
        None => false,
    }
}

/// The RPMs to sign among the regular files of the pool, in listing order.
pub fn collect_rpms(pool: &str, paths: &[String]) -> (r: Vec<String>)
    ensures
        names_view(r@) == names_view(paths@).filter(|p: Seq<char>| signs_rpm(p)),
{
    let ghost views = names_view(paths@);
    let mut r: Vec<String> = Vec::new();
    let mut i: usize = 0;
    assert(views.take(0).filter(|p: Seq<char>| signs_rpm(p)) =~= Seq::<Seq<char>>::empty());
    while i < paths.len()
        invariant
            i <= paths@.len(),
            views == names_view(paths@),
            names_view(r@) == views.take(i as int).filter(|p: Seq<char>| signs_rpm(p)),
        decreases paths.len() - i,
    {
        let ghost before = names_view(r@);
        assert(views.take(i + 1).drop_last() =~= views.take(i as int));
        assert(views.take(i + 1).last() == paths@[i as int]@);
        assert(views.take(i + 1).filter(|p: Seq<char>| signs_rpm(p)) == (if signs_rpm(
            paths@[i as int]@,
        ) {
            before.push(paths@[i as int]@)
        } else {
            before
        })) by {
            reveal(Seq::filter);
        }
        if rpm_to_sign(pool, paths[i].as_str()) {
            r.push(paths[i].clone());
            assert(names_view(r@) =~= before.push(paths@[i as int]@));
        }
        i = i + 1;
    }
    assert(views.take(paths@.len() as int) =~= views);
    r
}

/// How the sign tool gets `rpmsign`.
#[derive(Clone, Copy, Debug, PartialEq, Eq, Structural)]
pub enum RpmSignSetup {
    /// `rpmsign` is there.
    Ready,
    /// Install `rpm-sign` with dnf, without assuming yes.
    InstallWithDnf,
    /// `rpmsign` is missing and installing it was switched off: stop.
    MissingInstallSkipped,
    /// `rpmsign` is missing and there is no dnf to install it: stop.
    Missing,
}

/// The sign tool's choice: use `rpmsign` when present; else, unless told
/// to skip installing it, install it with dnf where there is dnf.
pub fn rpm_sign_setup(has_rpmsign: bool, skip_install: bool, has_dnf: bool) -> (r: RpmSignSetup)
    ensures
        r == (if has_rpmsign {
            RpmSignSetup::Ready
        } else if skip_install {
            RpmSignSetup::MissingInstallSkipped
        } else if has_dnf {
            RpmSignSetup::InstallWithDnf
        } else {
            RpmSignSetup::Missing
        }),
{
    if has_rpmsign {
        RpmSignSetup::Ready
    } else if skip_install {
        RpmSignSetup::MissingInstallSkipped
    } else if has_dnf {
        RpmSignSetup::InstallWithDnf
    } else {
        RpmSignSetup::Missing
    }
}

// ------------------------------------------------------------------------
// Indexing
// ------------------------------------------------------------------------

/// How the update tool indexes the RPM repository.
#[derive(Clone, Copy, Debug, PartialEq, Eq, Structural)]
pub enum RpmIndexer {
    /// `createrepo_c --update .` in `rpm/`.
    Local,
    /// The same through `nix-shell -p createrepo_c`.
    NixShell,
    /// Neither is there: warn and skip indexing.
    Skip,
}

/// A local `createrepo_c` is preferred, then one from nix-shell.
pub fn rpm_indexer(has_createrepo: bool, has_nix_shell: bool) -> (r: RpmIndexer)
    ensures
        r == (if has_createrepo {
            RpmIndexer::Local
        } else if has_nix_shell {
            RpmIndexer::NixShell
        } else {
            RpmIndexer::Skip
        }),
{
    if has_createrepo {
        RpmIndexer::Local
    } else if has_nix_shell {
        RpmIndexer::NixShell
    } else {
        RpmIndexer::Skip
    }
}

/// What the update tool does about signing an index.
#[derive(Clone, Copy, Debug, PartialEq, Eq, Structural)]
pub enum ReleaseSigning {
    /// Sign it with the key.
    Sign,
    /// Stop with an error: unsigned indexes are never published.
    RefuseUnsigned,
}

/// The signing policy is fail-closed: an index is signed when the secret
/// key is there, and the update stops with an error when it is not.
pub open spec fn release_signing_spec(key_found: bool) -> ReleaseSigning {
    if key_found {
        ReleaseSigning::Sign
    } else {
        ReleaseSigning::RefuseUnsigned
    }
}

/// Whether the APT `Release` and the RPM `repomd.xml` are signed or the
/// update stops, given whether `gpg --list-secret-keys` found the key.
pub fn release_signing(key_found: bool) -> (d: ReleaseSigning)
    ensures
        d == release_signing_spec(key_found),
{
    if key_found {
        ReleaseSigning::Sign
    } else {
        ReleaseSigning::RefuseUnsigned
    }
}

} // verus!
