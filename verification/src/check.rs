//! Checking installed packages against the files under the prefix.

use vstd::prelude::*;
use crate::model::{opt_text, InstalledDb, InstalledPackage, Manifest, PkgError};
use crate::names::{package_name, split_package_name_version};
use crate::plan::{entries_of, in_backup, is_backup_file, look, Entry};
use crate::remove::{all_installed, first_unknown, is_first_unknown};
use crate::text::{same_text, texts};

verus! {

/// What a check can find wrong with a recorded path.
#[derive(Debug, Clone, Copy, PartialEq, Eq, Structural)]
pub enum FindingKind {
    /// Nothing exists at the path.
    DoesNotExist,
    /// The file's content differs from what was recorded.
    ChecksumDifference,
}

/// Something wrong with the recorded path at index `entry` of the manifest.
#[derive(Debug, Clone, Copy, PartialEq, Eq, Structural)]
pub struct Finding {
    pub entry: usize,
    pub kind: FindingKind,
}

/// What is wrong with a recorded path, if anything: nothing exists there; or
/// it is a file that is not the user's to edit, a file that can be read
/// stands there, and its digest is not the recorded one.
pub open spec fn fault(e: Entry, observed: Manifest, backup: Option<Vec<String>>) -> Option<
    FindingKind,
> {
    if !observed.has(e.0) {
        Some(FindingKind::DoesNotExist)
    } else if e.1 is Some && !is_backup_file(backup, e.0) && observed.value_of(e.0) is Some
        && opt_text(observed.value_of(e.0)) != e.1 {
        Some(FindingKind::ChecksumDifference)
    } else {
        None
    }
}

/// What is wrong with the first `n` recorded paths, in their order.
pub open spec fn findings(
    entries: Seq<Entry>,
    observed: Manifest,
    backup: Option<Vec<String>>,
    n: int,
) -> Seq<Finding>
    decreases n,
{
    if n <= 0 {
        Seq::empty()
    } else {
        let before = findings(entries, observed, backup, n - 1);
        match fault(entries[n - 1], observed, backup) {
            Some(kind) => before.push(Finding { entry: (n - 1) as usize, kind: kind }),
            None => before,
        }
    }
}

/// What is wrong with a package.
pub open spec fn package_findings(package: InstalledPackage, observed: Manifest) -> Seq<Finding> {
    findings(
        entries_of(package.md5sums),
        observed,
        package.backup,
        entries_of(package.md5sums).len() as int,
    )
}

/// The number of things wrong with the packages that the first `n` requests name.
pub open spec fn fault_count(
    packages: Seq<Seq<char>>,
    installed: InstalledDb,
    observed: Manifest,
    n: int,
) -> nat
    decreases n,
{
    if n <= 0 {
        0
    } else {
        fault_count(packages, installed, observed, n - 1) + package_findings(
            installed.value_of(package_name(packages[n - 1])),
            observed,
        ).len()
    }
}

/// There are no more findings than recorded paths.
pub proof fn lemma_findings_len(
    entries: Seq<Entry>,
    observed: Manifest,
    backup: Option<Vec<String>>,
    n: int,
)
    requires
        0 <= n,
    ensures
        findings(entries, observed, backup, n).len() <= n,
    decreases n,
{
    if n > 0 {
        lemma_findings_len(entries, observed, backup, n - 1);
    }
}

/// A check finds nothing just where nothing is wrong with any recorded path.
pub proof fn lemma_no_findings(
    entries: Seq<Entry>,
    observed: Manifest,
    backup: Option<Vec<String>>,
    n: int,
)
    requires
        0 <= n <= entries.len(),
    ensures
        findings(entries, observed, backup, n).len() == 0 <==> forall|i: int|
            0 <= i < n ==> fault(#[trigger] entries[i], observed, backup) is None,
    decreases n,
{
    if n > 0 {
        lemma_no_findings(entries, observed, backup, n - 1);
        if findings(entries, observed, backup, n).len() == 0 {
            assert forall|i: int| 0 <= i < n implies fault(
                #[trigger] entries[i],
                observed,
                backup,
            ) is None by {
            }
        } else if findings(entries, observed, backup, n - 1).len() == 0 {
            assert(fault(entries[n - 1], observed, backup) is Some);
        }
    }
}

/// Checks one package against what `observed` tells of the prefix at the
/// recorded paths, and lists what is wrong, in the order of the record.
pub fn check_package(pkg: &InstalledPackage, observed: &Manifest) -> (r: Vec<Finding>)
    ensures
        r@ == package_findings(*pkg, *observed),
{
    let ghost all = entries_of(pkg.md5sums);
    let n = pkg.md5sums.len();
    let mut res: Vec<Finding> = Vec::new();
    let mut i: usize = 0;
    while i < n
        invariant
            n == pkg.md5sums.keys().len(),
            i <= n,
            all == entries_of(pkg.md5sums),
            res@ == findings(all, *observed, pkg.backup, i as int),
        decreases n - i,
    {
        let path = pkg.md5sums.key_at(i);
        let digest = pkg.md5sums.value_at(i);
        assert(all[i as int] == (path@, opt_text(*digest)));
        let found = look(observed, path.as_str());
        assert(found.is_some() == observed.has(path@));
        match found {
            None => {
                res.push(Finding { entry: i, kind: FindingKind::DoesNotExist });
            },
            Some(current) => {
                match (digest, current) {
                    (Some(recorded), Some(sum)) => {
                        if !in_backup(&pkg.backup, path.as_str()) && !same_text(
                            sum.as_str(),
                            recorded.as_str(),
                        ) {
                            res.push(Finding { entry: i, kind: FindingKind::ChecksumDifference });
                        }
                    },
                    _ => {},
                }
            },
        }
        i += 1;
    }
    res
}

/// Checks the packages that the requests name. The first request that names
/// no installed package is reported; else, if anything is wrong with one of
/// the packages, the number of things wrong with all of them, which is at
/// most the greatest number that the machine can hold.
pub fn check_packages(
    packages: Vec<String>,
    installed_packages: &InstalledDb,
    observed: &Manifest,
) -> (r: Result<(), PkgError>)
    ensures
        match r {
            Ok(_) => all_installed(texts(packages@), *installed_packages) && fault_count(
                texts(packages@),
                *installed_packages,
                *observed,
                packages@.len() as int,
            ) == 0,
            Err(PkgError::CheckFailed { count }) => {
                let total = fault_count(
                    texts(packages@),
                    *installed_packages,
                    *observed,
                    packages@.len() as int,
                );
                &&& all_installed(texts(packages@), *installed_packages)
                &&& total > 0
                &&& count == if total > usize::MAX {
                    usize::MAX
                } else {
                    total as usize
                }
            },
            Err(e) => e matches PkgError::NotInstalled { request } && is_first_unknown(
                texts(packages@),
                *installed_packages,
                request as int,
            ),
        },
{
    match first_unknown(&packages, installed_packages) {
        Some(i) => {
            return Err(PkgError::NotInstalled { request: i });
        },
        None => {},
    }
    let ghost reqs = texts(packages@);
    let mut err_count: usize = 0;
    let mut i: usize = 0;
    while i < packages.len()
        invariant
            i <= packages.len(),
            reqs == texts(packages@),
            all_installed(reqs, *installed_packages),
            err_count == if fault_count(reqs, *installed_packages, *observed, i as int)
                > usize::MAX {
                usize::MAX
            } else {
                fault_count(reqs, *installed_packages, *observed, i as int) as usize
            },
        decreases packages.len() - i,
    {
        let name = split_package_name_version(packages[i].as_str()).0;
        assert(crate::remove::names_installed(reqs[i as int], *installed_packages));
        assert(installed_packages.has(name@) <==> installed_packages@.dom().contains(name@));
        match installed_packages.get(name.as_str()) {
            Some(package) => {
                assert(*package == installed_packages.value_of(name@));
                let found = check_package(package, observed);
                err_count = err_count.saturating_add(found.len());
            },
            None => {},
        }
        i += 1;
    }
    if err_count > 0 {
        Err(PkgError::CheckFailed { count: err_count })
    } else {
        Ok(())
    }
}

} // verus!
