//! Replacing the files of an installed package by those of another archive.

use vstd::prelude::*;
use crate::install::make_dir_steps;
use crate::model::{opt_text, InstalledPackage, Manifest, PkgError, Timestamp};
use crate::names::{url_version, version_of_url};
use crate::paths::{hidden, is_length_ordering, with_suffix};
use crate::plan::{
    action_views, all_readable, cleanup, cleanup_steps, entries_of, in_backup, is_backup_file,
    is_placed_file, look, make_dirs, ordered_dirs, orphan_dirs, paths_in, paths_of, placed_dirs,
    placed_files, placed_paths, record_of_staging, records_staging, reversed, ActionView, Entry,
    FileAction,
};
use crate::text::{same_text, texts};

verus! {

/// The name under which the new version of a file is placed where the user
/// has edited the file.
pub open spec fn new_name(path: Seq<char>) -> Seq<char> {
    path + ".atxpkg_new"@
}

/// A staged file that is placed, at whose path something exists in the prefix
/// that the package to replace does not own.
pub open spec fn is_foreign(e: Entry, observed: Manifest, old: Manifest) -> bool {
    is_placed_file(e) && observed.has(e.0) && !old.has(e.0)
}

/// `i` is the index of the first staged entry that is foreign.
pub open spec fn is_first_foreign(
    entries: Seq<Entry>,
    observed: Manifest,
    old: Manifest,
    i: int,
) -> bool {
    &&& 0 <= i < entries.len()
    &&& is_foreign(entries[i], observed, old)
    &&& forall|j: int| 0 <= j < i ==> !is_foreign(#[trigger] entries[j], observed, old)
}

/// No staged entry is foreign.
pub open spec fn no_foreign(entries: Seq<Entry>, observed: Manifest, old: Manifest) -> bool {
    forall|j: int| 0 <= j < entries.len() ==> !is_foreign(#[trigger] entries[j], observed, old)
}

/// Whether the file in the prefix is compared before the staged file `e` is
/// placed: something exists at the path, the new archive lists the path as
/// the user's to edit, and the package to replace recorded a digest for it.
pub open spec fn is_compared(
    e: Entry,
    observed: Manifest,
    backup: Option<Vec<String>>,
    old: Manifest,
) -> bool {
    &&& observed.has(e.0)
    &&& is_backup_file(backup, e.0)
    &&& old.has(e.0)
    &&& old.value_of(e.0) is Some
}

/// A staged file that is placed and has to be compared, where what stands
/// at its path is no file that can be read.
pub open spec fn is_incomparable(
    e: Entry,
    observed: Manifest,
    backup: Option<Vec<String>>,
    old: Manifest,
) -> bool {
    is_placed_file(e) && is_compared(e, observed, backup, old) && observed.value_of(e.0) is None
}

/// Every staged file that has to be compared can be.
pub open spec fn all_comparable(
    entries: Seq<Entry>,
    observed: Manifest,
    backup: Option<Vec<String>>,
    old: Manifest,
) -> bool {
    forall|j: int|
        0 <= j < entries.len() ==> !is_incomparable(#[trigger] entries[j], observed, backup, old)
}

/// Whether the user has edited the file in a way that the new version does
/// not share: the file in the prefix is compared, and its digest is neither
/// the recorded one nor that of the staged file.
pub open spec fn is_user_edit(
    e: Entry,
    observed: Manifest,
    backup: Option<Vec<String>>,
    old: Manifest,
) -> bool {
    &&& is_compared(e, observed, backup, old)
    &&& opt_text(observed.value_of(e.0)) != opt_text(old.value_of(e.0))
    &&& opt_text(observed.value_of(e.0)) != e.1
}

/// The step that places one staged file: beside the user's file, under its
/// new name, where the user has edited the file; else at its own path.
pub open spec fn replacement(
    e: Entry,
    observed: Manifest,
    backup: Option<Vec<String>>,
    old: Manifest,
) -> ActionView {
    ActionView::Place {
        staged: e.0,
        to: if is_user_edit(e, observed, backup, old) {
            new_name(e.0)
        } else {
            e.0
        },
    }
}

/// The steps that place the staged files `files`, in their order.
pub open spec fn replacements(
    files: Seq<Entry>,
    observed: Manifest,
    backup: Option<Vec<String>>,
    old: Manifest,
) -> Seq<ActionView> {
    Seq::new(files.len(), |i: int| replacement(files[i], observed, backup, old))
}

/// What updating one package does: the directories to make, in order; the
/// directories to remove, the longest path first; all steps, in order; and
/// the record for the database.
#[derive(Debug, Clone, PartialEq)]
pub struct UpdatePlan {
    pub dirs: Vec<String>,
    pub old_dirs: Vec<String>,
    pub actions: Vec<FileAction>,
    pub record: InstalledPackage,
}

/// Plans the update of one package from the archive `fn_zip`.
/// `installed_package` is the record of the package to replace; `staged`,
/// `backup` and `force` are as for an installation; `observed` tells what
/// exists in the prefix at the paths of the staged files and at the recorded
/// paths. Unless `force` is set, a staged file whose path exists in the
/// prefix and is not recorded is an error. The staged directories are made
/// and the staged files placed; then what was recorded and is no longer
/// part of the package is cleared away, a file that the user has edited
/// being kept under its save name. Where a file has to be compared and
/// cannot be read, the plan fails.
pub fn update_package(
    fn_zip: &str,
    installed_package: &InstalledPackage,
    staged: &Manifest,
    backup: Option<Vec<String>>,
    observed: &Manifest,
    force: bool,
    now: Timestamp,
) -> (r: Result<UpdatePlan, PkgError>)
    requires
        staged.wf(),
    ensures
        match r {
            Err(PkgError::ForeignFile { file }) => !force && is_first_foreign(
                entries_of(*staged),
                *observed,
                installed_package.md5sums,
                file as int,
            ),
            Err(e) => {
                &&& e == PkgError::Io
                &&& force || no_foreign(entries_of(*staged), *observed, installed_package.md5sums)
                &&& !all_comparable(
                    entries_of(*staged),
                    *observed,
                    backup,
                    installed_package.md5sums,
                ) || !all_readable(
                    entries_of(installed_package.md5sums),
                    placed_paths(*staged),
                    *observed,
                    installed_package.backup,
                )
            },
            Ok(plan) => {
                &&& force || no_foreign(entries_of(*staged), *observed, installed_package.md5sums)
                &&& all_comparable(
                    entries_of(*staged),
                    *observed,
                    backup,
                    installed_package.md5sums,
                )
                &&& all_readable(
                    entries_of(installed_package.md5sums),
                    placed_paths(*staged),
                    *observed,
                    installed_package.backup,
                )
                &&& is_length_ordering(
                    texts(plan.dirs@),
                    paths_of(placed_dirs(entries_of(*staged))),
                )
                &&& is_length_ordering(
                    reversed(texts(plan.old_dirs@)),
                    paths_of(
                        orphan_dirs(entries_of(installed_package.md5sums), placed_paths(*staged)),
                    ),
                )
                &&& action_views(plan.actions@) == make_dirs(texts(plan.dirs@)) + replacements(
                    placed_files(entries_of(*staged)),
                    *observed,
                    backup,
                    installed_package.md5sums,
                ) + cleanup(
                    entries_of(installed_package.md5sums),
                    texts(plan.old_dirs@),
                    placed_paths(*staged),
                    *observed,
                    installed_package.backup,
                    ".atxpkg_save"@,
                )
                &&& plan.record.t == Some(now)
                &&& plan.record.version@ == url_version(fn_zip@)
                &&& records_staging(plan.record.md5sums, *staged)
                &&& plan.record.backup == backup
            },
        },
{
    let ghost all = entries_of(*staged);
    let old = &installed_package.md5sums;
    let n = staged.len();
    if !force {
        let mut i: usize = 0;
        while i < n
            invariant
                !force,
                n == staged.keys().len(),
                i <= n,
                all == entries_of(*staged),
                *old == installed_package.md5sums,
                forall|j: int| 0 <= j < i ==> !is_foreign(#[trigger] all[j], *observed, *old),
            decreases n - i,
        {
            let path = staged.key_at(i);
            let digest = staged.value_at(i);
            let found = look(observed, path.as_str());
            assert(all[i as int] == (path@, opt_text(*digest)));
            assert(found.is_some() == observed.has(path@));
            assert(old.has(path@) <==> old@.dom().contains(path@));
            if digest.is_some() && !hidden(path.as_str()) && found.is_some() && !old.contains_key(
                path.as_str(),
            ) {
                return Err(PkgError::ForeignFile { file: i });
            }
            i += 1;
        }
    }
    let dirs = ordered_dirs(staged);
    let mut actions = make_dir_steps(&dirs);
    let ghost made = action_views(actions@);
    let mut i: usize = 0;
    proof {
        reveal(Seq::filter);
        assert(placed_files(all.take(0)) =~= Seq::<Entry>::empty());
        assert(action_views(actions@) =~= made + replacements(
            placed_files(all.take(0)),
            *observed,
            backup,
            *old,
        ));
    }
    while i < n
        invariant
            n == staged.keys().len(),
            i <= n,
            all == entries_of(*staged),
            *old == installed_package.md5sums,
            force || no_foreign(all, *observed, *old),
            forall|j: int| 0 <= j < i ==> !is_incomparable(#[trigger] all[j], *observed, backup, *old),
            action_views(actions@) == made + replacements(
                placed_files(all.take(i as int)),
                *observed,
                backup,
                *old,
            ),
        decreases n - i,
    {
        let path = staged.key_at(i);
        let digest = staged.value_at(i);
        let ghost e = all[i as int];
        let ghost before = placed_files(all.take(i as int));
        proof {
            reveal(Seq::filter);
            assert(all.take(i + 1).drop_last() =~= all.take(i as int));
            assert(all.take(i + 1).last() == e);
            assert(e == (path@, opt_text(*digest)));
        }
        match digest {
            Some(sum_new) => {
                if !hidden(path.as_str()) {
                    let ghost done = action_views(actions@);
                    let found = look(observed, path.as_str());
                    assert(found.is_some() == observed.has(path@));
                    assert(old.has(path@) <==> old@.dom().contains(path@));
                    let mut aside = false;
                    if found.is_some() && in_backup(&backup, path.as_str()) {
                        match (old.get(path.as_str()), found) {
                            (Some(Some(sum_original)), Some(current)) => {
                                match current {
                                    None => {
                                        assert(is_incomparable(e, *observed, backup, *old));
                                        return Err(PkgError::Io);
                                    },
                                    Some(sum_current) => {
                                        aside = !same_text(
                                            sum_original.as_str(),
                                            sum_current.as_str(),
                                        ) && !same_text(sum_current.as_str(), sum_new.as_str());
                                    },
                                }
                            },
                            _ => {},
                        }
                    }
                    assert(aside == is_user_edit(e, *observed, backup, *old));
                    let to = if aside {
                        with_suffix(path.as_str(), ".atxpkg_new")
                    } else {
                        path.clone()
                    };
                    actions.push(FileAction::Place { staged: path.clone(), to });
                    assert(action_views(actions@) =~= done.push(
                        replacement(e, *observed, backup, *old),
                    ));
                    assert(replacements(before.push(e), *observed, backup, *old) =~= replacements(
                        before,
                        *observed,
                        backup,
                        *old,
                    ).push(replacement(e, *observed, backup, *old)));
                    assert(action_views(actions@) =~= made + replacements(
                        placed_files(all.take(i + 1)),
                        *observed,
                        backup,
                        *old,
                    ));
                }
            },
            None => {},
        }
        i += 1;
    }
    assert(all.take(n as int) =~= all);
    let md5sums = record_of_staging(staged);
    assert(paths_in(md5sums) =~= placed_paths(*staged));
    let (old_dirs, mut steps) = match cleanup_steps(
        old,
        &installed_package.backup,
        &md5sums,
        observed,
        ".atxpkg_save",
    ) {
        Ok(found) => found,
        Err(e) => {
            return Err(e);
        },
    };
    let ghost placed = action_views(actions@);
    let ghost cleared = action_views(steps@);
    actions.append(&mut steps);
    assert(action_views(actions@) =~= placed + cleared);
    let version = version_of_url(fn_zip);
    Ok(
        UpdatePlan {
            dirs,
            old_dirs,
            actions,
            record: InstalledPackage { t: Some(now), version, md5sums, backup },
        },
    )
}

} // verus!
