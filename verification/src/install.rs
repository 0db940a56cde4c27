//! Installing packages: which archives to fetch, and where their files go.

use vstd::prelude::*;
use crate::index::index_ok;
use crate::model::{
    is_first_error, no_refusal, AvailablePackages, InstalledDb, InstalledPackage, Manifest,
    PkgError, Timestamp,
};
use crate::names::{
    max_version_index, name_of_url, package_name, package_version, specific_version_index,
    split_package_name_version, url_name, url_version, version_of_url,
};
use crate::paths::{hidden, is_length_ordering, with_suffix};
use crate::plan::{
    action_views, entries_of, in_backup, is_backup_file, is_placed_file, look, make_dirs,
    ordered_dirs, paths_of, placed_dirs, placed_files, record_of_staging, records_staging,
    ActionView, Entry, FileAction,
};
use crate::text::texts;
use crate::update::{
    first_max, first_with_version, lemma_first_with_version_unique, lemma_first_max_unique,
    offers_version,
};

verus! {

/// Why request number `i` cannot be installed: its package is installed
/// already, and neither `force` nor `download_only` is set; or no repository
/// offers it.
pub open spec fn install_refusal(
    p: Seq<char>,
    i: int,
    installed: InstalledDb,
    available: AvailablePackages,
    force: bool,
    download_only: bool,
) -> Option<PkgError> {
    let name = package_name(p);
    if installed.has(name) && !force && !download_only {
        Some(PkgError::AlreadyInstalled { request: i as usize })
    } else if !available.has(name) {
        Some(PkgError::NotAvailable { request: i as usize })
    } else {
        None
    }
}

/// Why no archive can be chosen for request number `i`: it asks for a
/// version that no repository offers.
pub open spec fn choice_refusal(p: Seq<char>, i: int, available: AvailablePackages) -> Option<
    PkgError,
> {
    let urls = texts(available.value_of(package_name(p))@);
    if package_version(p).len() > 0 && !offers_version(urls, package_version(p)) {
        Some(PkgError::NotAvailable { request: i as usize })
    } else {
        None
    }
}

/// The archive that is installed for the request `p`: the first one offered
/// in the version asked for, or with no version asked for the first one with
/// the greatest version.
pub open spec fn chosen_url(p: Seq<char>, available: AvailablePackages) -> Seq<char> {
    let urls = texts(available.value_of(package_name(p))@);
    if package_version(p).len() > 0 {
        urls[first_with_version(urls, package_version(p))]
    } else {
        urls[first_max(urls)]
    }
}

/// For each request, why it cannot be installed.
pub open spec fn install_refusals(
    packages: Seq<Seq<char>>,
    installed: InstalledDb,
    available: AvailablePackages,
    force: bool,
    download_only: bool,
) -> Seq<Option<PkgError>> {
    Seq::new(
        packages.len(),
        |i: int| install_refusal(packages[i], i, installed, available, force, download_only),
    )
}

/// For each request, why no archive can be chosen for it.
pub open spec fn choice_refusals(packages: Seq<Seq<char>>, available: AvailablePackages) -> Seq<
    Option<PkgError>,
> {
    Seq::new(packages.len(), |i: int| choice_refusal(packages[i], i, available))
}

/// For each request, the archive that is installed for it.
pub open spec fn chosen_urls(packages: Seq<Seq<char>>, available: AvailablePackages) -> Seq<
    Seq<char>,
> {
    Seq::new(packages.len(), |i: int| chosen_url(packages[i], available))
}

/// The name under which a file is kept that stood in the way of a placed file.
pub open spec fn save_name(path: Seq<char>) -> Seq<char> {
    path + ".atxpkg_save"@
}

/// The steps that place one staged file: a file of that path in the prefix,
/// if the package lists the path as the user's to edit, is first moved to its
/// save name.
pub open spec fn placement(e: Entry, observed: Manifest, backup: Option<Vec<String>>) -> Seq<
    ActionView,
> {
    let put = seq![ActionView::Place { staged: e.0, to: e.0 }];
    if observed.has(e.0) && is_backup_file(backup, e.0) {
        seq![ActionView::Move { from: e.0, to: save_name(e.0) }] + put
    } else {
        put
    }
}

/// The steps that place the staged files `files`, in their order.
pub open spec fn placements(
    files: Seq<Entry>,
    observed: Manifest,
    backup: Option<Vec<String>>,
) -> Seq<ActionView>
    decreases files.len(),
{
    if files.len() == 0 {
        Seq::empty()
    } else {
        placements(files.drop_last(), observed, backup) + placement(files.last(), observed, backup)
    }
}

/// A staged file that is placed, at whose path something exists in the prefix.
pub open spec fn is_conflict(e: Entry, observed: Manifest) -> bool {
    is_placed_file(e) && observed.has(e.0)
}

/// `i` is the index of the first staged entry that is in conflict with the prefix.
pub open spec fn is_first_conflict(entries: Seq<Entry>, observed: Manifest, i: int) -> bool {
    &&& 0 <= i < entries.len()
    &&& is_conflict(entries[i], observed)
    &&& forall|j: int| 0 <= j < i ==> !is_conflict(#[trigger] entries[j], observed)
}

/// No staged entry is in conflict with the prefix.
pub open spec fn no_conflict(entries: Seq<Entry>, observed: Manifest) -> bool {
    forall|j: int| 0 <= j < entries.len() ==> !is_conflict(#[trigger] entries[j], observed)
}

/// What installing one archive does: the directories to make, in order; all
/// steps, in order; and the record for the database.
#[derive(Debug, Clone, PartialEq)]
pub struct InstallPlan {
    pub dirs: Vec<String>,
    pub actions: Vec<FileAction>,
    pub record: InstalledPackage,
}

/// The steps that make the directories `dirs`.
pub fn make_dir_steps(dirs: &Vec<String>) -> (r: Vec<FileAction>)
    ensures
        action_views(r@) == make_dirs(texts(dirs@)),
{
    let mut actions: Vec<FileAction> = Vec::new();
    let mut k: usize = 0;
    while k < dirs.len()
        invariant
            k <= dirs.len(),
            actions@.len() == k,
            action_views(actions@) == make_dirs(texts(dirs@)).take(k as int),
        decreases dirs.len() - k,
    {
        let ghost done = action_views(actions@);
        actions.push(FileAction::MakeDir { path: dirs[k].clone() });
        assert(action_views(actions@) =~= done.push(
            ActionView::MakeDir { path: texts(dirs@)[k as int] },
        ));
        assert(action_views(actions@) =~= make_dirs(texts(dirs@)).take(k + 1));
        k += 1;
    }
    assert(make_dirs(texts(dirs@)).take(k as int) =~= make_dirs(texts(dirs@)));
    actions
}

/// Plans the installation of one archive. `staged` lists what the archive
/// holds, as it was extracted: each file with the digest of its content, each
/// directory without; `backup` is the archive's list of files that are the
/// user's to edit; `observed` tells what exists in the prefix at the paths
/// of the staged files. Unless `force` is set, a staged file whose path exists
/// in the prefix is an error. Hidden entries are never placed nor recorded.
pub fn install_package(
    fn_zip: &str,
    staged: &Manifest,
    backup: Option<Vec<String>>,
    observed: &Manifest,
    force: bool,
    now: Timestamp,
) -> (r: Result<InstallPlan, PkgError>)
    requires
        staged.wf(),
    ensures
        match r {
            Err(e) => {
                &&& !force
                &&& e matches PkgError::FileExists { file } && is_first_conflict(
                    entries_of(*staged),
                    *observed,
                    file as int,
                )
            },
            Ok(plan) => {
                &&& force || no_conflict(entries_of(*staged), *observed)
                &&& is_length_ordering(
                    texts(plan.dirs@),
                    paths_of(placed_dirs(entries_of(*staged))),
                )
                &&& action_views(plan.actions@) == make_dirs(texts(plan.dirs@)) + placements(
                    placed_files(entries_of(*staged)),
                    *observed,
                    backup,
                )
                &&& plan.record.t == Some(now)
                &&& plan.record.version@ == url_version(fn_zip@)
                &&& records_staging(plan.record.md5sums, *staged)
                &&& plan.record.backup == backup
            },
        },
{
    let ghost all = entries_of(*staged);
    let n = staged.len();
    if !force {
        let mut i: usize = 0;
        while i < n
            invariant
                !force,
                n == staged.keys().len(),
                i <= n,
                all == entries_of(*staged),
                forall|j: int| 0 <= j < i ==> !is_conflict(#[trigger] all[j], *observed),
            decreases n - i,
        {
            let path = staged.key_at(i);
            let digest = staged.value_at(i);
            let found = look(observed, path.as_str());
            assert(all[i as int] == (path@, crate::model::opt_text(*digest)));
            assert(found.is_some() == observed.has(path@));
            if digest.is_some() && !hidden(path.as_str()) && found.is_some() {
                return Err(PkgError::FileExists { file: i });
            }
            i += 1;
        }
    }
    let dirs = ordered_dirs(staged);
    let mut actions = make_dir_steps(&dirs);
    let ghost made = action_views(actions@);
    let mut i: usize = 0;
    assert(placed_files(all.take(0)) =~= Seq::<Entry>::empty()) by {
        reveal(Seq::filter);
    }
    assert(action_views(actions@) =~= made + placements(
        placed_files(all.take(0)),
        *observed,
        backup,
    ));
    while i < n
        invariant
            n == staged.keys().len(),
            i <= n,
            all == entries_of(*staged),
            action_views(actions@) == made + placements(
                placed_files(all.take(i as int)),
                *observed,
                backup,
            ),
        decreases n - i,
    {
        let path = staged.key_at(i);
        let ghost e = all[i as int];
        let ghost before = placed_files(all.take(i as int));
        proof {
            reveal(Seq::filter);
            assert(all.take(i + 1).drop_last() =~= all.take(i as int));
            assert(all.take(i + 1).last() == e);
            assert(e.0 == path@);
        }
        let digest = staged.value_at(i);
        assert(e == (path@, crate::model::opt_text(*digest)));
        if digest.is_some() && !hidden(path.as_str()) {
            let ghost done = action_views(actions@);
            proof {
                assert(before.push(e).drop_last() =~= before);
                assert(placed_files(all.take(i + 1)) == before.push(e));
            }
            let found = look(observed, path.as_str());
            assert(found.is_some() == observed.has(path@));
            if found.is_some() && in_backup(&backup, path.as_str()) {
                actions.push(
                    FileAction::Move {
                        from: path.clone(),
                        to: with_suffix(path.as_str(), ".atxpkg_save"),
                    },
                );
            }
            actions.push(FileAction::Place { staged: path.clone(), to: path.clone() });
            assert(action_views(actions@) =~= done + placement(e, *observed, backup));
            assert(action_views(actions@) =~= made + placements(
                placed_files(all.take(i + 1)),
                *observed,
                backup,
            ));
        }
        i += 1;
    }
    assert(all.take(n as int) =~= all);
    let md5sums = record_of_staging(staged);
    let version = version_of_url(fn_zip);
    Ok(InstallPlan { dirs, actions, record: InstalledPackage { t: Some(now), version, md5sums, backup } })
}

/// Plans an installation: the archives to fetch and install, one for each
/// request and in the order of the requests. The first request that cannot
/// be installed is reported, else the first for which no archive can be chosen.
pub fn install_packages(
    packages: Vec<String>,
    installed_packages: &InstalledDb,
    available_packages: &AvailablePackages,
    force: bool,
    download_only: bool,
) -> (r: Result<Vec<String>, PkgError>)
    requires
        index_ok(*available_packages),
    ensures
        match r {
            Ok(urls) => {
                &&& no_refusal(
                    install_refusals(
                        texts(packages@),
                        *installed_packages,
                        *available_packages,
                        force,
                        download_only,
                    ),
                )
                &&& no_refusal(choice_refusals(texts(packages@), *available_packages))
                &&& texts(urls@) == chosen_urls(texts(packages@), *available_packages)
            },
            Err(e) => {
                ||| is_first_error(
                    install_refusals(
                        texts(packages@),
                        *installed_packages,
                        *available_packages,
                        force,
                        download_only,
                    ),
                    e,
                )
                ||| (no_refusal(
                    install_refusals(
                        texts(packages@),
                        *installed_packages,
                        *available_packages,
                        force,
                        download_only,
                    ),
                ) && is_first_error(choice_refusals(texts(packages@), *available_packages), e))
            },
        },
{
    let ghost reqs = texts(packages@);
    let ghost refused = install_refusals(
        reqs,
        *installed_packages,
        *available_packages,
        force,
        download_only,
    );
    let ghost unchosen = choice_refusals(reqs, *available_packages);
    let ghost wanted = chosen_urls(reqs, *available_packages);
    let n = packages.len();
    let mut i: usize = 0;
    while i < n
        invariant
            n == packages.len(),
            i <= n,
            reqs == texts(packages@),
            refused == install_refusals(
                reqs,
                *installed_packages,
                *available_packages,
                force,
                download_only,
            ),
            forall|j: int| 0 <= j < i ==> #[trigger] refused[j] is None,
        decreases n - i,
    {
        let name = split_package_name_version(packages[i].as_str()).0;
        assert(name@ == package_name(reqs[i as int]));
        assert(installed_packages.has(name@) <==> installed_packages@.dom().contains(name@));
        assert(available_packages.has(name@) <==> available_packages@.dom().contains(name@));
        if installed_packages.contains_key(name.as_str()) && !force && !download_only {
            return Err(PkgError::AlreadyInstalled { request: i });
        }
        if !available_packages.contains_key(name.as_str()) {
            return Err(PkgError::NotAvailable { request: i });
        }
        i += 1;
    }
    assert(no_refusal(refused));

    let mut urls_to_install: Vec<String> = Vec::new();
    let mut i: usize = 0;
    while i < n
        invariant
            n == packages.len(),
            i <= n,
            reqs == texts(packages@),
            index_ok(*available_packages),
            no_refusal(refused),
            refused == install_refusals(
                reqs,
                *installed_packages,
                *available_packages,
                force,
                download_only,
            ),
            unchosen == choice_refusals(reqs, *available_packages),
            wanted == chosen_urls(reqs, *available_packages),
            urls_to_install@.len() == i,
            forall|j: int| 0 <= j < i ==> #[trigger] unchosen[j] is None,
            forall|j: int| 0 <= j < i ==> #[trigger] texts(urls_to_install@)[j] == wanted[j],
        decreases n - i,
    {
        let (name, version) = split_package_name_version(packages[i].as_str());
        let ghost p = reqs[i as int];
        assert(refused[i as int] is None);
        assert(available_packages.has(name@) <==> available_packages@.dom().contains(name@));
        let urls = match available_packages.get(name.as_str()) {
            Some(urls) => urls,
            None => {
                return Err(PkgError::NotAvailable { request: i });
            },
        };
        assert(*urls == available_packages.value_of(package_name(p)));
        let ghost offered = texts(urls@);
        assert(unchosen[i as int] == choice_refusal(p, i as int, *available_packages));
        assert(wanted[i as int] == chosen_url(p, *available_packages));
        let url = if version.as_str().unicode_len() > 0 {
            match specific_version_index(urls, version.as_str()) {
                Some(k) => {
                    proof {
                        lemma_first_with_version_unique(offered, version@, k as int);
                    }
                    urls[k].clone()
                },
                None => {
                    assert(!offers_version(offered, version@)) by {
                        if offers_version(offered, version@) {
                            let k = choose|k: int|
                                crate::names::is_first_with_version(offered, version@, k);
                            assert(url_version(offered[k]) != version@);
                        }
                    }
                    return Err(PkgError::NotAvailable { request: i });
                },
            }
        } else {
            match max_version_index(urls) {
                Some(m) => {
                    proof {
                        lemma_first_max_unique(offered, m as int);
                    }
                    urls[m].clone()
                },
                None => {
                    return Err(PkgError::NotAvailable { request: i });
                },
            }
        };
        let ghost done = texts(urls_to_install@);
        urls_to_install.push(url);
        assert forall|j: int| 0 <= j < i + 1 implies #[trigger] texts(urls_to_install@)[j]
            == wanted[j] by {
            if j < i {
                assert(texts(urls_to_install@)[j] == done[j]);
            }
        }
        i += 1;
    }
    assert(no_refusal(unchosen));
    assert(texts(urls_to_install@) =~= wanted);
    Ok(urls_to_install)
}

/// Records that the archive at `local_fn` was installed: the database then
/// holds `record` under the package name that the archive's file name gives.
pub fn record_install(
    installed_packages: &mut InstalledDb,
    local_fn: &str,
    record: InstalledPackage,
)
    ensures
        final(installed_packages)@ == old(installed_packages)@.insert(url_name(local_fn@), record),
        old(installed_packages).wf() ==> final(installed_packages).wf(),
{
    let name = name_of_url(local_fn);
    installed_packages.insert(name, record);
}

} // verus!
