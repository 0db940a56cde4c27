//! Removing packages, and the test that requests name installed packages.

use vstd::prelude::*;
use crate::model::{InstalledDb, InstalledPackage, Manifest, PkgError};
use crate::names::{package_name, package_version, split_package_name_version};
use crate::paths::is_length_ordering;
use crate::plan::{
    action_views, all_readable, cleanup, cleanup_steps, entries_of, orphan_dirs, paths_in,
    paths_of, reversed, FileAction,
};
use crate::text::{same_text, texts};

verus! {

/// Whether the request `p` names an installed package: one of that name is
/// installed, and in the version that the request gives, if it gives one.
pub open spec fn names_installed(p: Seq<char>, installed: InstalledDb) -> bool {
    &&& installed.has(package_name(p))
    &&& package_version(p).len() > 0 ==> package_version(p) == installed.value_of(
        package_name(p),
    ).version@
}

/// `i` is the index of the first request that names no installed package.
pub open spec fn is_first_unknown(packages: Seq<Seq<char>>, installed: InstalledDb, i: int) -> bool {
    &&& 0 <= i < packages.len()
    &&& !names_installed(packages[i], installed)
    &&& forall|j: int| 0 <= j < i ==> names_installed(#[trigger] packages[j], installed)
}

/// Every request names an installed package.
pub open spec fn all_installed(packages: Seq<Seq<char>>, installed: InstalledDb) -> bool {
    forall|j: int| 0 <= j < packages.len() ==> names_installed(#[trigger] packages[j], installed)
}

/// The package names that the requests give.
pub open spec fn requested_names(packages: Seq<Seq<char>>) -> Seq<Seq<char>> {
    Seq::new(packages.len(), |i: int| package_name(packages[i]))
}

/// The index of the first request that names no installed package.
pub fn first_unknown(packages: &Vec<String>, installed_packages: &InstalledDb) -> (r: Option<usize>)
    ensures
        match r {
            Some(i) => is_first_unknown(texts(packages@), *installed_packages, i as int),
            None => all_installed(texts(packages@), *installed_packages),
        },
{
    let mut i: usize = 0;
    while i < packages.len()
        invariant
            i <= packages.len(),
            forall|j: int|
                0 <= j < i ==> names_installed(#[trigger] texts(packages@)[j], *installed_packages),
        decreases packages.len() - i,
    {
        let (name, version) = split_package_name_version(packages[i].as_str());
        assert(installed_packages.has(name@) <==> installed_packages@.dom().contains(name@));
        match installed_packages.get(name.as_str()) {
            None => {
                return Some(i);
            },
            Some(package) => {
                assert(*package == installed_packages.value_of(name@));
                if version.as_str().unicode_len() > 0 && !same_text(
                    version.as_str(),
                    package.version.as_str(),
                ) {
                    return Some(i);
                }
            },
        }
        i += 1;
    }
    None
}

/// Tests that every request names an installed package; the first that does
/// not is reported.
pub fn if_installed(packages: Vec<String>, installed_packages: &InstalledDb) -> (r: Result<
    (),
    PkgError,
>)
    ensures
        match r {
            Ok(_) => all_installed(texts(packages@), *installed_packages),
            Err(e) => e matches PkgError::PreconditionFailed { request } && is_first_unknown(
                texts(packages@),
                *installed_packages,
                request as int,
            ),
        },
{
    match first_unknown(&packages, installed_packages) {
        Some(i) => Err(PkgError::PreconditionFailed { request: i }),
        None => Ok(()),
    }
}

/// Plans a removal: the names of the packages to remove, one for each request
/// and in the order of the requests. The first request that names no
/// installed package is reported.
pub fn remove_packages(packages: Vec<String>, installed_packages: &InstalledDb) -> (r: Result<
    Vec<String>,
    PkgError,
>)
    ensures
        match r {
            Ok(names) => all_installed(texts(packages@), *installed_packages) && texts(names@)
                == requested_names(texts(packages@)),
            Err(e) => e matches PkgError::NotInstalled { request } && is_first_unknown(
                texts(packages@),
                *installed_packages,
                request as int,
            ),
        },
{
    match first_unknown(&packages, installed_packages) {
        Some(i) => {
            return Err(PkgError::NotInstalled { request: i });
        },
        None => {},
    }
    let mut names: Vec<String> = Vec::new();
    let mut i: usize = 0;
    while i < packages.len()
        invariant
            i <= packages.len(),
            names@.len() == i,
            forall|j: int|
                0 <= j < i ==> #[trigger] texts(names@)[j] == package_name(texts(packages@)[j]),
        decreases packages.len() - i,
    {
        let ghost done = texts(names@);
        names.push(split_package_name_version(packages[i].as_str()).0);
        assert forall|j: int| 0 <= j < i + 1 implies #[trigger] texts(names@)[j] == package_name(
            texts(packages@)[j],
        ) by {
            if j < i {
                assert(texts(names@)[j] == done[j]);
            }
        }
        i += 1;
    }
    assert(texts(names@) =~= requested_names(texts(packages@)));
    Ok(names)
}

/// What removing a package does: the directories to remove, the longest path
/// first, and all steps, in order.
#[derive(Debug, Clone, PartialEq)]
pub struct RemovePlan {
    pub dirs: Vec<String>,
    pub actions: Vec<FileAction>,
}

/// The name under which a file that the user has edited is kept when its
/// package is removed.
pub open spec fn backup_name(path: Seq<char>) -> Seq<char> {
    path + ".atxpkg_backup"@
}

/// Plans the removal of the files of one package. `observed` tells what
/// exists in the prefix at the recorded paths. Every recorded file is deleted,
/// but a file that is the user's to edit and differs from what was recorded:
/// that one is moved to its backup name. Then the recorded directories are
/// removed where they are empty, the longest path first. Paths that are
/// gone are reported. Where a file has to be compared and cannot be read,
/// the plan fails.
pub fn remove_package(installed_package: &InstalledPackage, observed: &Manifest) -> (r: Result<
    RemovePlan,
    PkgError,
>)
    ensures
        match r {
            Err(e) => e == PkgError::Io && !all_readable(
                entries_of(installed_package.md5sums),
                Set::empty(),
                *observed,
                installed_package.backup,
            ),
            Ok(plan) => {
                &&& all_readable(
                    entries_of(installed_package.md5sums),
                    Set::empty(),
                    *observed,
                    installed_package.backup,
                )
                &&& is_length_ordering(
                    reversed(texts(plan.dirs@)),
                    paths_of(orphan_dirs(entries_of(installed_package.md5sums), Set::empty())),
                )
                &&& action_views(plan.actions@) == cleanup(
                    entries_of(installed_package.md5sums),
                    texts(plan.dirs@),
                    Set::empty(),
                    *observed,
                    installed_package.backup,
                    ".atxpkg_backup"@,
                )
            },
        },
{
    let kept = Manifest::new();
    assert(paths_in(kept) =~= Set::<Seq<char>>::empty());
    match cleanup_steps(
        &installed_package.md5sums,
        &installed_package.backup,
        &kept,
        observed,
        ".atxpkg_backup",
    ) {
        Ok((dirs, actions)) => Ok(RemovePlan { dirs, actions }),
        Err(e) => Err(e),
    }
}

/// Records that the package `package_name` was removed.
pub fn record_remove(installed_packages: &mut InstalledDb, package_name: &str) -> (r: Option<
    InstalledPackage,
>)
    requires
        old(installed_packages).wf(),
    ensures
        final(installed_packages).wf(),
        final(installed_packages)@ == old(installed_packages)@.remove(package_name@),
        match r {
            Some(record) => old(installed_packages)@.dom().contains(package_name@) && record == old(
                installed_packages,
            )@[package_name@],
            None => !old(installed_packages)@.dom().contains(package_name@),
        },
{
    installed_packages.remove(package_name)
}

} // verus!
