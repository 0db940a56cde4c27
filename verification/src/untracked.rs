//! Finding what lies under the prefix and belongs to no installed package.

use vstd::prelude::*;
use crate::model::{InstalledDb, InstalledPackage};
use crate::paths::{first_component, top_component};
use crate::text::{copy_strings, first_occurrences, list_contains, texts};

verus! {

/// Whether some installed package records `path`.
pub open spec fn is_tracked(installed: InstalledDb, path: Seq<char>) -> bool {
    exists|i: int|
        0 <= i < installed.entries@.len() && (#[trigger] installed.entries@[i]).1.md5sums.has(path)
}

/// The path `path` below the directory `root`.
pub open spec fn under(root: Seq<char>, path: Seq<char>) -> Seq<char> {
    root + "/"@ + path
}

/// The paths of what was found below `root`: first the directories, then
/// the files, each in the order given.
pub open spec fn listed_under(
    root: Seq<char>,
    dirs: Seq<Seq<char>>,
    files: Seq<Seq<char>>,
) -> Seq<Seq<char>> {
    Seq::new(
        dirs.len() + files.len(),
        |i: int|
            under(
                root,
                if i < dirs.len() {
                    dirs[i]
                } else {
                    files[i - dirs.len()]
                },
            ),
    )
}

/// The paths in `paths` that no installed package records, in their order.
pub open spec fn untracked_of(installed: InstalledDb, paths: Seq<Seq<char>>) -> Seq<Seq<char>> {
    paths.filter(|p: Seq<char>| !is_tracked(installed, p))
}

/// The first components of the paths that a package records, in the order
/// of the record.
pub open spec fn package_tops(package: InstalledPackage) -> Seq<Seq<char>> {
    Seq::new(package.md5sums.keys().len(), |j: int| top_component(package.md5sums.keys()[j]))
}

/// The first components of the paths that the first `n` installed packages
/// record, in the order of the database.
pub open spec fn tops_upto(installed: InstalledDb, n: int) -> Seq<Seq<char>>
    decreases n,
{
    if n <= 0 {
        Seq::empty()
    } else {
        tops_upto(installed, n - 1) + package_tops(installed.entries@[n - 1].1)
    }
}

/// The first components of all recorded paths, each once, in the order in
/// which the database holds them first.
pub open spec fn tracked_tops(installed: InstalledDb) -> Seq<Seq<char>> {
    first_occurrences(tops_upto(installed, installed.entries@.len() as int))
}

/// Whether some installed package records `path`.
pub fn is_recorded(installed_packages: &InstalledDb, path: &str) -> (r: bool)
    ensures
        r == is_tracked(*installed_packages, path@),
{
    let mut i: usize = 0;
    while i < installed_packages.len()
        invariant
            i <= installed_packages.entries@.len(),
            forall|j: int|
                0 <= j < i ==> !(#[trigger] installed_packages.entries@[j]).1.md5sums.has(path@),
        decreases installed_packages.entries@.len() - i,
    {
        let package = installed_packages.value_at(i);
        assert(package.md5sums.has(path@) <==> package.md5sums@.dom().contains(path@));
        if package.md5sums.contains_key(path) {
            return true;
        }
        i += 1;
    }
    false
}

/// The directories below which to look for untracked entries: those asked
/// for, or with none asked for the first components of all recorded paths,
/// each once.
pub fn untracked_roots(paths: Vec<String>, installed_packages: &InstalledDb) -> (r: Vec<String>)
    ensures
        texts(r@) == if paths@.len() > 0 {
            texts(paths@)
        } else {
            tracked_tops(*installed_packages)
        },
{
    if paths.len() > 0 {
        return copy_strings(&paths);
    }
    let mut roots: Vec<String> = Vec::new();
    let n = installed_packages.len();
    let mut i: usize = 0;
    assert(texts(roots@) =~= first_occurrences(tops_upto(*installed_packages, 0)));
    while i < n
        invariant
            n == installed_packages.entries@.len(),
            i <= n,
            texts(roots@) == first_occurrences(tops_upto(*installed_packages, i as int)),
        decreases n - i,
    {
        let package = installed_packages.value_at(i);
        let m = package.md5sums.len();
        let ghost before = tops_upto(*installed_packages, i as int);
        let ghost tops = package_tops(*package);
        let mut j: usize = 0;
        assert(before + tops.take(0) =~= before);
        while j < m
            invariant
                *package == installed_packages.entries@[i as int].1,
                before == tops_upto(*installed_packages, i as int),
                tops == package_tops(*package),
                m == package.md5sums.keys().len(),
                j <= m,
                texts(roots@) == first_occurrences(before + tops.take(j as int)),
            decreases m - j,
        {
            let top = first_component(package.md5sums.key_at(j).as_str());
            let ghost done = texts(roots@);
            proof {
                assert(tops[j as int] == top@);
                assert((before + tops.take(j + 1)).drop_last() =~= before + tops.take(j as int));
                assert((before + tops.take(j + 1)).last() == top@);
            }
            if !list_contains(&roots, top.as_str()) {
                roots.push(top);
                assert(texts(roots@) =~= done.push(tops[j as int]));
            }
            j += 1;
        }
        assert(tops.take(m as int) =~= tops);
        i += 1;
    }
    roots
}

/// Of what was found below the directory `path`, the entries that no
/// installed package records: directories first, then files.
pub fn get_untracked(
    path: &str,
    dirs: &Vec<String>,
    files: &Vec<String>,
    installed_packages: &InstalledDb,
) -> (r: Vec<String>)
    ensures
        texts(r@) == untracked_of(
            *installed_packages,
            listed_under(path@, texts(dirs@), texts(files@)),
        ),
{
    let ghost all = listed_under(path@, texts(dirs@), texts(files@));
    let mut ret: Vec<String> = Vec::new();
    let total_dirs = dirs.len();
    let mut i: usize = 0;
    proof {
        reveal(Seq::filter);
        assert(untracked_of(*installed_packages, all.take(0)) =~= Seq::<Seq<char>>::empty());
    }
    while i < total_dirs
        invariant
            total_dirs == dirs@.len(),
            i <= total_dirs,
            all == listed_under(path@, texts(dirs@), texts(files@)),
            texts(ret@) == untracked_of(*installed_packages, all.take(i as int)),
        decreases total_dirs - i,
    {
        let mut full = path.to_owned();
        full.append("/");
        full.append(dirs[i].as_str());
        proof {
            reveal(Seq::filter);
            assert(all.take(i + 1).drop_last() =~= all.take(i as int));
            assert(all.take(i + 1).last() == full@);
        }
        if !is_recorded(installed_packages, full.as_str()) {
            let ghost done = texts(ret@);
            ret.push(full);
            assert(texts(ret@) =~= done.push(all[i as int]));
        }
        i += 1;
    }
    let mut k: usize = 0;
    while k < files.len()
        invariant
            total_dirs == dirs@.len(),
            k <= files@.len(),
            all == listed_under(path@, texts(dirs@), texts(files@)),
            texts(ret@) == untracked_of(*installed_packages, all.take(total_dirs + k)),
        decreases files@.len() - k,
    {
        let mut full = path.to_owned();
        full.append("/");
        full.append(files[k].as_str());
        proof {
            reveal(Seq::filter);
            assert(all.take(total_dirs + k + 1).drop_last() =~= all.take(total_dirs + k));
            assert(all.take(total_dirs + k + 1).last() == full@);
        }
        if !is_recorded(installed_packages, full.as_str()) {
            let ghost done = texts(ret@);
            ret.push(full);
            assert(texts(ret@) =~= done.push(all[total_dirs + k]));
        }
        k += 1;
    }
    assert(all.take(total_dirs + files@.len()) =~= all);
    ret
}

} // verus!
