//! What the operations leave in the prefix: the records that they write
//! describe it, a check of a fresh installation finds nothing, and what is
//! installed and then removed is gone.

use vstd::prelude::*;
use crate::check::{fault, findings, lemma_no_findings};
use crate::effects::{
    is_keep_name, is_new_name, is_saved_aside, lemma_dir_removals, lemma_disposals,
    lemma_entry_value, lemma_filter_keeps_distinct, lemma_has_entry, lemma_length_ordering_holds,
    lemma_length_ordering_within, lemma_make_dirs, lemma_paths_of_entries, lemma_placements,
    lemma_placements_leave_the_rest, lemma_placements_visible, lemma_replacements, lemma_run_add,
    no_keep_collision, no_new_collision, no_save_collision, on_disk, run, touches_hidden, Disk,
};
use crate::install::{is_conflict, no_conflict, placements};
use crate::model::{opt_text, InstalledDb, Manifest};
use crate::paths::{is_hidden, is_length_ordering};
use crate::plan::{
    cleanup, dir_removals, disposals, entries_of, is_backup_file, is_orphan_dir, is_orphan_file,
    is_placed_dir, is_placed_file, make_dirs, orphan_dirs, orphan_files, paths_of, placed_dirs,
    placed_files, placed_paths, records_staging, reversed, seen, Entry,
};
use crate::replace::{is_user_edit, replacement, replacements};

verus! {

/// What is recorded of an archive depends on what was staged alone: two
/// records of one staging hold the same paths with the same digests.
pub proof fn lemma_record_is_determined(first: Manifest, second: Manifest, staged: Manifest)
    requires
        records_staging(first, staged),
        records_staging(second, staged),
    ensures
        entries_of(first) == entries_of(second),
        forall|p: Seq<char>| #[trigger] first.has(p) <==> second.has(p),
        forall|p: Seq<char>| #[trigger]
            first.has(p) ==> opt_text(first.value_of(p)) == opt_text(second.value_of(p)),
{
    assert forall|p: Seq<char>| #[trigger] first.has(p) implies second.has(p) && opt_text(
        first.value_of(p),
    ) == opt_text(second.value_of(p)) by {
        assert(staged.has(p) && !is_hidden(p));
    }
    assert forall|p: Seq<char>| second.has(p) implies #[trigger] first.has(p) by {
        assert(staged.has(p) && !is_hidden(p));
    }
}

/// After an installation every path of the package's record stands in the
/// prefix, each file with the content that was recorded for it. This holds
/// where no placed file has the save name of a placed file that was moved
/// aside, as in every installation that is not forced.
pub proof fn lemma_install_places_record(
    staged: Manifest,
    dirs: Seq<Seq<char>>,
    observed: Manifest,
    backup: Option<Vec<String>>,
    recorded: Manifest,
    disk: Disk,
)
    requires
        staged.wf(),
        is_length_ordering(dirs, paths_of(placed_dirs(entries_of(staged)))),
        records_staging(recorded, staged),
        no_save_collision(placed_files(entries_of(staged)), observed, backup),
    ensures
        forall|p: Seq<char>| #[trigger]
            recorded.has(p) ==> {
                let after = run(
                    make_dirs(dirs) + placements(
                        placed_files(entries_of(staged)),
                        observed,
                        backup,
                    ),
                    disk,
                    staged,
                );
                &&& after.dom().contains(p)
                &&& recorded.value_of(p) is Some ==> after[p] == opt_text(recorded.value_of(p))
            },
{
    let all = entries_of(staged);
    let files = placed_files(all);
    let folders = placed_dirs(all);
    let made = run(make_dirs(dirs), disk, staged);
    let after = run(make_dirs(dirs) + placements(files, observed, backup), disk, staged);
    lemma_run_add(make_dirs(dirs), placements(files, observed, backup), disk, staged);
    lemma_paths_of_entries(staged);
    lemma_filter_keeps_distinct(all, |e: Entry| is_placed_file(e));
    lemma_filter_keeps_distinct(all, |e: Entry| is_placed_dir(e));
    assert forall|i: int| 0 <= i < files.len() implies opt_text(
        staged.value_of((#[trigger] files[i]).0),
    ) == files[i].1 by {
        let k = choose|k: int| 0 <= k < all.len() && all[k] == files[i];
        lemma_entry_value(staged, k);
    }
    lemma_placements(files, observed, backup, made, staged);
    lemma_make_dirs(dirs, disk, staged);
    assert forall|p: Seq<char>| #[trigger] recorded.has(p) implies after.dom().contains(p) && (
    recorded.value_of(p) is Some ==> after[p] == opt_text(recorded.value_of(p))) by {
        assert(staged.has(p) && !is_hidden(p));
        let i = lemma_has_entry(staged, p);
        let e = all[i];
        if e.1 is Some {
            assert(is_placed_file(e));
            let k = choose|k: int| 0 <= k < files.len() && files[k] == e;
            assert(on_disk(after, files[k].0) == Some(files[k].1));
        } else {
            assert(is_placed_dir(e));
            let k = choose|k: int| 0 <= k < folders.len() && folders[k] == e;
            assert(paths_of(folders)[k] == p);
            lemma_length_ordering_holds(dirs, paths_of(folders), k);
            let d = choose|d: int| 0 <= d < dirs.len() && dirs[d] == p;
            assert(made.dom().contains(dirs[d]));
            assert(!paths_of(files).contains(p)) by {
                if paths_of(files).contains(p) {
                    let f = choose|f: int| 0 <= f < files.len() && paths_of(files)[f] == p;
                    let g = choose|g: int| 0 <= g < all.len() && all[g] == files[f];
                    assert(is_placed_file(files[f]));
                    assert(staged.keys()[g] == p && staged.keys()[i] == p);
                }
            }
        }
    }
}

/// A check of a package that was just installed finds nothing: where
/// what the caller sees at the recorded paths is what the installation has
/// left there, no recorded path is missing and no content differs.
pub proof fn lemma_fresh_install_checks_clean(
    staged: Manifest,
    dirs: Seq<Seq<char>>,
    observed: Manifest,
    backup: Option<Vec<String>>,
    recorded: Manifest,
    disk: Disk,
    seen_after: Manifest,
)
    requires
        staged.wf(),
        is_length_ordering(dirs, paths_of(placed_dirs(entries_of(staged)))),
        records_staging(recorded, staged),
        no_save_collision(placed_files(entries_of(staged)), observed, backup),
        forall|p: Seq<char>| #[trigger]
            recorded.has(p) ==> seen(seen_after, p) == on_disk(
                run(
                    make_dirs(dirs) + placements(
                        placed_files(entries_of(staged)),
                        observed,
                        backup,
                    ),
                    disk,
                    staged,
                ),
                p,
            ),
    ensures
        findings(
            entries_of(recorded),
            seen_after,
            backup,
            entries_of(recorded).len() as int,
        ).len() == 0,
{
    let all = entries_of(recorded);
    lemma_install_places_record(staged, dirs, observed, backup, recorded, disk);
    assert forall|i: int| 0 <= i < all.len() implies fault(#[trigger] all[i], seen_after, backup)
        is None by {
        lemma_entry_value(recorded, i);
        assert(recorded.has(all[i].0));
    }
    lemma_no_findings(all, seen_after, backup, all.len() as int);
}

/// An installation that is not forced claims no file that an installed
/// package claims: where the caller has seen every file that the installed
/// packages record, and no staged file is in conflict with the prefix, no
/// path is recorded as a file both in the new record and in the record of an
/// installed package. Directories may be shared.
pub proof fn lemma_install_claims_new_files(
    installed: InstalledDb,
    staged: Manifest,
    observed: Manifest,
    recorded: Manifest,
)
    requires
        staged.wf(),
        records_staging(recorded, staged),
        no_conflict(entries_of(staged), observed),
        forall|i: int, p: Seq<char>|
            0 <= i < installed.entries@.len() && (#[trigger] installed.entries@[i]).1.md5sums.has(p)
                && installed.entries@[i].1.md5sums.value_of(p) is Some ==> #[trigger] observed.has(
                p,
            ),
    ensures
        forall|i: int, p: Seq<char>|
            0 <= i < installed.entries@.len() && #[trigger] recorded.has(p) && recorded.value_of(p)
                is Some ==> !((#[trigger] installed.entries@[i]).1.md5sums.has(p)
                && installed.entries@[i].1.md5sums.value_of(p) is Some),
{
    assert forall|i: int, p: Seq<char>|
        0 <= i < installed.entries@.len() && #[trigger] recorded.has(p) && recorded.value_of(p)
            is Some implies !((#[trigger] installed.entries@[i]).1.md5sums.has(p)
        && installed.entries@[i].1.md5sums.value_of(p) is Some) by {
        if installed.entries@[i].1.md5sums.has(p) && installed.entries@[i].1.md5sums.value_of(p)
            is Some {
            assert(observed.has(p));
            let k = lemma_has_entry(staged, p);
            assert(is_conflict(entries_of(staged)[k], observed));
        }
    }
}

/// No step of an installation brings a hidden entry of the archive into the
/// prefix: neither the directories that are made nor the files that are
/// placed are hidden.
pub proof fn lemma_install_places_nothing_hidden(
    staged: Manifest,
    dirs: Seq<Seq<char>>,
    observed: Manifest,
    backup: Option<Vec<String>>,
)
    requires
        is_length_ordering(dirs, paths_of(placed_dirs(entries_of(staged)))),
    ensures
        forall|k: int|
            0 <= k < (make_dirs(dirs) + placements(
                placed_files(entries_of(staged)),
                observed,
                backup,
            )).len() ==> !touches_hidden(
                #[trigger] (make_dirs(dirs) + placements(
                    placed_files(entries_of(staged)),
                    observed,
                    backup,
                ))[k],
            ),
{
    let all = entries_of(staged);
    let files = placed_files(all);
    let folders = placed_dirs(all);
    let steps = make_dirs(dirs) + placements(files, observed, backup);
    lemma_placements_visible(files, observed, backup);
    assert forall|k: int| 0 <= k < steps.len() implies !touches_hidden(#[trigger] steps[k]) by {
        if k < dirs.len() {
            lemma_length_ordering_within(dirs, paths_of(folders), k);
            let j = choose|j: int| 0 <= j < folders.len() && paths_of(folders)[j] == dirs[k];
            all.lemma_filter_pred(|e: Entry| is_placed_dir(e), j);
        } else {
            assert(steps[k] == placements(files, observed, backup)[k - dirs.len()]);
        }
    }
}

/// After the files of a package were cleared away, no recorded file that
/// the operation leaves behind stands at its path any more; a file that the
/// user has edited stands under the name under which it is kept. This holds
/// where the caller has seen what stands at the recorded paths, and no
/// recorded file has the name under which another is kept.
pub proof fn lemma_cleanup_clears_files(
    entries: Seq<Entry>,
    dirs: Seq<Seq<char>>,
    kept: Set<Seq<char>>,
    observed: Manifest,
    backup: Option<Vec<String>>,
    suffix: Seq<char>,
    disk: Disk,
    staged: Manifest,
)
    requires
        paths_of(entries).no_duplicates(),
        forall|i: int|
            0 <= i < entries.len() && is_orphan_file(#[trigger] entries[i], kept) ==> (
            observed.has(entries[i].0) <==> disk.dom().contains(entries[i].0)),
        no_keep_collision(orphan_files(entries, kept), observed, backup, suffix),
    ensures
        forall|i: int|
            0 <= i < entries.len() && is_orphan_file(#[trigger] entries[i], kept) ==> !run(
                cleanup(entries, dirs, kept, observed, backup, suffix),
                disk,
                staged,
            ).dom().contains(entries[i].0),
{
    let files = orphan_files(entries, kept);
    let filed = disposals(files, observed, backup, suffix);
    let after = run(cleanup(entries, dirs, kept, observed, backup, suffix), disk, staged);
    lemma_filter_keeps_distinct(entries, |e: Entry| is_orphan_file(e, kept));
    assert forall|i: int| 0 <= i < files.len() implies (observed.has((#[trigger] files[i]).0)
        <==> disk.dom().contains(files[i].0)) by {
        let k = choose|k: int| 0 <= k < entries.len() && entries[k] == files[i];
        assert(is_orphan_file(entries[k], kept));
        assert(observed.has(entries[k].0) <==> disk.dom().contains(entries[k].0));
    }
    lemma_disposals(files, observed, backup, suffix, disk, staged);
    lemma_run_add(filed, dir_removals(dirs, observed), disk, staged);
    lemma_dir_removals(dirs, observed, run(filed, disk, staged), staged);
    assert forall|i: int|
        0 <= i < entries.len() && is_orphan_file(#[trigger] entries[i], kept) implies !after.dom().contains(
    entries[i].0) by {
        let k = choose|k: int| 0 <= k < files.len() && files[k] == entries[i];
        assert(!run(filed, disk, staged).dom().contains(files[k].0));
    }
}

/// Clearing away the files of a package changes nothing but at the paths of
/// the recorded files and directories that the operation leaves behind, and
/// at the names under which files that the user has edited are kept.
pub proof fn lemma_cleanup_leaves_the_rest(
    entries: Seq<Entry>,
    dirs: Seq<Seq<char>>,
    kept: Set<Seq<char>>,
    observed: Manifest,
    backup: Option<Vec<String>>,
    suffix: Seq<char>,
    disk: Disk,
    staged: Manifest,
)
    requires
        paths_of(entries).no_duplicates(),
        forall|i: int|
            0 <= i < entries.len() && is_orphan_file(#[trigger] entries[i], kept) ==> (
            observed.has(entries[i].0) <==> disk.dom().contains(entries[i].0)),
        no_keep_collision(orphan_files(entries, kept), observed, backup, suffix),
    ensures
        forall|p: Seq<char>|
            !paths_of(orphan_files(entries, kept)).contains(p) && !dirs.contains(p)
                && !is_keep_name(orphan_files(entries, kept), observed, backup, suffix, p)
                ==> #[trigger] on_disk(
                run(cleanup(entries, dirs, kept, observed, backup, suffix), disk, staged),
                p,
            ) == on_disk(disk, p),
{
    let files = orphan_files(entries, kept);
    let filed = disposals(files, observed, backup, suffix);
    let after = run(cleanup(entries, dirs, kept, observed, backup, suffix), disk, staged);
    lemma_filter_keeps_distinct(entries, |e: Entry| is_orphan_file(e, kept));
    assert forall|i: int| 0 <= i < files.len() implies (observed.has((#[trigger] files[i]).0)
        <==> disk.dom().contains(files[i].0)) by {
        let k = choose|k: int| 0 <= k < entries.len() && entries[k] == files[i];
        assert(is_orphan_file(entries[k], kept));
        assert(observed.has(entries[k].0) <==> disk.dom().contains(entries[k].0));
    }
    lemma_disposals(files, observed, backup, suffix, disk, staged);
    lemma_run_add(filed, dir_removals(dirs, observed), disk, staged);
    let mid = run(filed, disk, staged);
    lemma_dir_removals(dirs, observed, mid, staged);
    assert forall|p: Seq<char>|
        !paths_of(files).contains(p) && !dirs.contains(p) && !is_keep_name(
            files,
            observed,
            backup,
            suffix,
            p,
        ) implies #[trigger] on_disk(after, p) == on_disk(disk, p) by {
        assert(on_disk(mid, p) == on_disk(disk, p));
        assert(on_disk(after, p) == on_disk(mid, p));
    }
}

/// Installing a package and then removing it leaves the prefix as it was at
/// every path that is not a directory of the package and not the name under
/// which a file that the user has edited is kept. The installation is not
/// forced, so that no staged file is in conflict with the prefix; between the
/// two operations the user may have changed the content of files; and before
/// each operation the caller has seen what stands at the paths of the package.
pub proof fn lemma_install_then_remove_restores(
    staged: Manifest,
    dirs_made: Seq<Seq<char>>,
    observed: Manifest,
    backup: Option<Vec<String>>,
    recorded: Manifest,
    disk: Disk,
    edited: Disk,
    dirs_removed: Seq<Seq<char>>,
    seen_later: Manifest,
    p: Seq<char>,
)
    requires
        staged.wf(),
        is_length_ordering(dirs_made, paths_of(placed_dirs(entries_of(staged)))),
        records_staging(recorded, staged),
        no_conflict(entries_of(staged), observed),
        forall|q: Seq<char>| #[trigger] staged.has(q) ==> (observed.has(q) <==> disk.dom().contains(q)),
        forall|q: Seq<char>|
            #[trigger] edited.dom().contains(q) <==> run(
                make_dirs(dirs_made) + placements(
                    placed_files(entries_of(staged)),
                    observed,
                    backup,
                ),
                disk,
                staged,
            ).dom().contains(q),
        forall|q: Seq<char>|
            !recorded.has(q) ==> #[trigger] edited[q] == run(
                make_dirs(dirs_made) + placements(
                    placed_files(entries_of(staged)),
                    observed,
                    backup,
                ),
                disk,
                staged,
            )[q],
        forall|q: Seq<char>| #[trigger]
            recorded.has(q) ==> (seen_later.has(q) <==> edited.dom().contains(q)),
        no_keep_collision(
            orphan_files(entries_of(recorded), Set::empty()),
            seen_later,
            backup,
            ".atxpkg_backup"@,
        ),
        forall|k: int|
            0 <= k < dirs_removed.len() ==> recorded.has(#[trigger] dirs_removed[k])
                && recorded.value_of(dirs_removed[k]) is None,
        !(recorded.has(p) && recorded.value_of(p) is None),
        !is_keep_name(
            orphan_files(entries_of(recorded), Set::empty()),
            seen_later,
            backup,
            ".atxpkg_backup"@,
            p,
        ),
    ensures
        on_disk(
            run(
                cleanup(
                    entries_of(recorded),
                    dirs_removed,
                    Set::empty(),
                    seen_later,
                    backup,
                    ".atxpkg_backup"@,
                ),
                edited,
                staged,
            ),
            p,
        ) == on_disk(disk, p),
{
    let all = entries_of(staged);
    let files = placed_files(all);
    let folders = placed_dirs(all);
    let old = entries_of(recorded);
    let suffix = ".atxpkg_backup"@;
    let installed = run(make_dirs(dirs_made) + placements(files, observed, backup), disk, staged);
    let made = run(make_dirs(dirs_made), disk, staged);
    let removed = run(
        cleanup(old, dirs_removed, Set::empty(), seen_later, backup, suffix),
        edited,
        staged,
    );
    lemma_paths_of_entries(staged);
    lemma_paths_of_entries(recorded);
    lemma_filter_keeps_distinct(all, |e: Entry| is_placed_file(e));
    lemma_filter_keeps_distinct(all, |e: Entry| is_placed_dir(e));
    assert forall|i: int|
        0 <= i < old.len() && is_orphan_file(#[trigger] old[i], Set::empty()) implies (
    seen_later.has(old[i].0) <==> edited.dom().contains(old[i].0)) by {
        lemma_entry_value(recorded, i);
    }
    if recorded.has(p) {
        let i = lemma_has_entry(recorded, p);
        assert(is_orphan_file(old[i], Set::empty()));
        lemma_cleanup_clears_files(
            old,
            dirs_removed,
            Set::empty(),
            seen_later,
            backup,
            suffix,
            edited,
            staged,
        );
        assert(!removed.dom().contains(old[i].0));
        let k = lemma_has_entry(staged, p);
        assert(is_conflict(all[k], observed) || !observed.has(p));
        assert(!disk.dom().contains(p));
    } else {
        lemma_filter_keeps_distinct(old, |e: Entry| is_orphan_file(e, Set::empty()));
        assert(!paths_of(orphan_files(old, Set::empty())).contains(p)) by {
            let gone = orphan_files(old, Set::empty());
            if paths_of(gone).contains(p) {
                let f = choose|f: int| 0 <= f < gone.len() && paths_of(gone)[f] == p;
                let j = choose|j: int| 0 <= j < old.len() && old[j] == gone[f];
                lemma_entry_value(recorded, j);
            }
        }
        assert(!dirs_removed.contains(p)) by {
            if dirs_removed.contains(p) {
                let k = choose|k: int| 0 <= k < dirs_removed.len() && dirs_removed[k] == p;
                assert(recorded.has(dirs_removed[k]));
            }
        }
        lemma_cleanup_leaves_the_rest(
            old,
            dirs_removed,
            Set::empty(),
            seen_later,
            backup,
            suffix,
            edited,
            staged,
        );
        assert(!paths_of(old).contains(p)) by {
            if paths_of(old).contains(p) {
                let j = choose|j: int| 0 <= j < old.len() && paths_of(old)[j] == p;
                lemma_entry_value(recorded, j);
            }
        }
        assert(on_disk(removed, p) == on_disk(edited, p));
        assert(on_disk(edited, p) == on_disk(installed, p));
        lemma_run_add(make_dirs(dirs_made), placements(files, observed, backup), disk, staged);
        lemma_make_dirs(dirs_made, disk, staged);
        assert forall|i: int| 0 <= i < files.len() implies !is_saved_aside(
            #[trigger] files[i],
            observed,
            backup,
        ) by {
            let k = choose|k: int| 0 <= k < all.len() && all[k] == files[i];
            assert(!is_conflict(all[k], observed));
        }
        lemma_placements_leave_the_rest(files, observed, backup, made, staged);
        assert(!paths_of(files).contains(p)) by {
            if paths_of(files).contains(p) {
                let f = choose|f: int| 0 <= f < files.len() && paths_of(files)[f] == p;
                let k = choose|k: int| 0 <= k < all.len() && all[k] == files[f];
                assert(staged.keys()[k] == p);
                assert(staged.has(p) && !is_hidden(p));
            }
        }
        assert(!dirs_made.contains(p)) by {
            if dirs_made.contains(p) {
                let d = choose|d: int| 0 <= d < dirs_made.len() && dirs_made[d] == p;
                lemma_length_ordering_within(dirs_made, paths_of(folders), d);
                let j = choose|j: int| 0 <= j < folders.len() && paths_of(folders)[j] == p;
                let k = choose|k: int| 0 <= k < all.len() && all[k] == folders[j];
                assert(staged.keys()[k] == p);
                assert(staged.has(p) && !is_hidden(p));
            }
        }
        assert(on_disk(installed, p) == on_disk(made, p));
        assert(on_disk(made, p) == on_disk(disk, p));
    }
}

/// Placing the new version of a package leaves the paths of the old record
/// present or absent as they were, whatever it does to their content.
pub proof fn lemma_placed_presence(
    staged: Manifest,
    dirs_made: Seq<Seq<char>>,
    observed: Manifest,
    backup: Option<Vec<String>>,
    old: Manifest,
    disk: Disk,
    q: Seq<char>,
)
    requires
        staged.wf(),
        is_length_ordering(dirs_made, paths_of(placed_dirs(entries_of(staged)))),
        no_new_collision(placed_files(entries_of(staged)), observed, backup, old),
        forall|r: Seq<char>|
            is_new_name(placed_files(entries_of(staged)), observed, backup, old, r)
                ==> !#[trigger] old.has(r),
        old.has(q),
        observed.has(q) <==> disk.dom().contains(q),
    ensures
        placed_paths(staged).contains(q) || (observed.has(q) <==> run(
            make_dirs(dirs_made) + replacements(
                placed_files(entries_of(staged)),
                observed,
                backup,
                old,
            ),
            disk,
            staged,
        ).dom().contains(q)),
{
    let all = entries_of(staged);
    let files = placed_files(all);
    let folders = placed_dirs(all);
    let placing = replacements(files, observed, backup, old);
    let made = run(make_dirs(dirs_made), disk, staged);
    lemma_run_add(make_dirs(dirs_made), placing, disk, staged);
    lemma_paths_of_entries(staged);
    lemma_filter_keeps_distinct(all, |e: Entry| is_placed_file(e));
    lemma_filter_keeps_distinct(all, |e: Entry| is_placed_dir(e));
    assert forall|i: int| 0 <= i < files.len() implies opt_text(
        staged.value_of((#[trigger] files[i]).0),
    ) == files[i].1 by {
        let k = choose|k: int| 0 <= k < all.len() && all[k] == files[i];
        lemma_entry_value(staged, k);
    }
    lemma_make_dirs(dirs_made, disk, staged);
    lemma_replacements(files, observed, backup, old, made, staged);
    if !placed_paths(staged).contains(q) {
        assert(!is_new_name(files, observed, backup, old, q));
        assert(!dirs_made.contains(q)) by {
            if dirs_made.contains(q) {
                let d = choose|d: int| 0 <= d < dirs_made.len() && dirs_made[d] == q;
                lemma_length_ordering_within(dirs_made, paths_of(folders), d);
                let j = choose|j: int| 0 <= j < folders.len() && paths_of(folders)[j] == q;
                let k = choose|k: int| 0 <= k < all.len() && all[k] == folders[j];
                assert(staged.keys()[k] == q);
                assert(is_placed_dir(folders[j]));
            }
        }
        assert(!paths_of(files).contains(q)) by {
            if paths_of(files).contains(q) {
                let f = choose|f: int| 0 <= f < files.len() && paths_of(files)[f] == q;
                let k = choose|k: int| 0 <= k < all.len() && all[k] == files[f];
                assert(staged.keys()[k] == q);
                assert(is_placed_file(files[f]));
            }
        }
        assert(on_disk(made, q) == on_disk(disk, q));
        assert(on_disk(run(placing, made, staged), q) == on_disk(made, q));
        assert(made.dom().contains(q) <==> disk.dom().contains(q));
    }
}

/// After an update every path of the new record stands in the prefix, and
/// each recorded file either has the content that was recorded for it, or is
/// one that the user has edited: then it is listed as the user's to edit and
/// stands as the user left it. This holds where the caller has seen what
/// stands at the paths of the old record, and no path of the new record is
/// the name of a side file that the update writes.
pub proof fn lemma_update_places_record(
    staged: Manifest,
    dirs_made: Seq<Seq<char>>,
    dirs_removed: Seq<Seq<char>>,
    observed: Manifest,
    backup: Option<Vec<String>>,
    old: Manifest,
    old_backup: Option<Vec<String>>,
    recorded: Manifest,
    disk: Disk,
    p: Seq<char>,
)
    requires
        staged.wf(),
        old.wf(),
        is_length_ordering(dirs_made, paths_of(placed_dirs(entries_of(staged)))),
        is_length_ordering(
            reversed(dirs_removed),
            paths_of(orphan_dirs(entries_of(old), placed_paths(staged))),
        ),
        records_staging(recorded, staged),
        forall|q: Seq<char>| #[trigger] old.has(q) ==> (observed.has(q) <==> disk.dom().contains(q)),
        no_new_collision(placed_files(entries_of(staged)), observed, backup, old),
        no_keep_collision(
            orphan_files(entries_of(old), placed_paths(staged)),
            observed,
            old_backup,
            ".atxpkg_save"@,
        ),
        forall|q: Seq<char>|
            is_new_name(placed_files(entries_of(staged)), observed, backup, old, q)
                ==> !#[trigger] old.has(q),
        recorded.has(p),
        !is_keep_name(
            orphan_files(entries_of(old), placed_paths(staged)),
            observed,
            old_backup,
            ".atxpkg_save"@,
            p,
        ),
        !is_new_name(placed_files(entries_of(staged)), observed, backup, old, p),
    ensures
        ({
            let after = run(
                make_dirs(dirs_made) + replacements(
                    placed_files(entries_of(staged)),
                    observed,
                    backup,
                    old,
                ) + cleanup(
                    entries_of(old),
                    dirs_removed,
                    placed_paths(staged),
                    observed,
                    old_backup,
                    ".atxpkg_save"@,
                ),
                disk,
                staged,
            );
            &&& after.dom().contains(p)
            &&& recorded.value_of(p) is Some ==> (after[p] == opt_text(recorded.value_of(p)) || (
            is_backup_file(backup, p) && Some(after[p]) == on_disk(disk, p)))
        }),
{
    let all = entries_of(staged);
    let files = placed_files(all);
    let folders = placed_dirs(all);
    let kept = placed_paths(staged);
    let gone = entries_of(old);
    let suffix = ".atxpkg_save"@;
    let placing = replacements(files, observed, backup, old);
    let clearing = cleanup(gone, dirs_removed, kept, observed, old_backup, suffix);
    let made = run(make_dirs(dirs_made), disk, staged);
    let placed = run(make_dirs(dirs_made) + placing, disk, staged);
    let after = run(make_dirs(dirs_made) + placing + clearing, disk, staged);
    lemma_run_add(make_dirs(dirs_made), placing, disk, staged);
    lemma_run_add(make_dirs(dirs_made) + placing, clearing, disk, staged);
    lemma_paths_of_entries(staged);
    lemma_paths_of_entries(old);
    lemma_filter_keeps_distinct(all, |e: Entry| is_placed_file(e));
    lemma_filter_keeps_distinct(all, |e: Entry| is_placed_dir(e));
    lemma_filter_keeps_distinct(gone, |e: Entry| is_orphan_file(e, kept));
    lemma_filter_keeps_distinct(gone, |e: Entry| is_orphan_dir(e, kept));
    assert forall|i: int| 0 <= i < files.len() implies opt_text(
        staged.value_of((#[trigger] files[i]).0),
    ) == files[i].1 by {
        let k = choose|k: int| 0 <= k < all.len() && all[k] == files[i];
        lemma_entry_value(staged, k);
    }
    lemma_make_dirs(dirs_made, disk, staged);
    lemma_replacements(files, observed, backup, old, made, staged);

    // What the steps that place the new version leave at `p`.
    assert(staged.has(p) && !is_hidden(p));
    let i = lemma_has_entry(staged, p);
    let e = all[i];
    assert(!dirs_made.contains(p) || e.1 is None) by {
        if dirs_made.contains(p) {
            let d = choose|d: int| 0 <= d < dirs_made.len() && dirs_made[d] == p;
            lemma_length_ordering_within(dirs_made, paths_of(folders), d);
            let j = choose|j: int| 0 <= j < folders.len() && paths_of(folders)[j] == p;
            let k = choose|k: int| 0 <= k < all.len() && all[k] == folders[j];
            assert(staged.keys()[k] == p && staged.keys()[i] == p);
        }
    }
    if e.1 is Some {
        assert(is_placed_file(e));
        let k = choose|k: int| 0 <= k < files.len() && files[k] == e;
        assert(on_disk(placed, files[k].0) == if is_user_edit(files[k], observed, backup, old) {
            on_disk(made, files[k].0)
        } else {
            Some(files[k].1)
        });
        assert(on_disk(made, p) == on_disk(disk, p));
        if is_user_edit(e, observed, backup, old) {
            assert(old.has(p) && observed.has(p));
            assert(disk.dom().contains(p));
        }
    } else {
        assert(is_placed_dir(e));
        let k = choose|k: int| 0 <= k < folders.len() && folders[k] == e;
        assert(paths_of(folders)[k] == p);
        lemma_length_ordering_holds(dirs_made, paths_of(folders), k);
        let d = choose|d: int| 0 <= d < dirs_made.len() && dirs_made[d] == p;
        assert(made.dom().contains(dirs_made[d]));
        assert(!paths_of(files).contains(p)) by {
            if paths_of(files).contains(p) {
                let f = choose|f: int| 0 <= f < files.len() && paths_of(files)[f] == p;
                let g = choose|g: int| 0 <= g < all.len() && all[g] == files[f];
                assert(staged.keys()[g] == p && staged.keys()[i] == p);
            }
        }
    }

    // The steps that clear away the old version leave `p` alone.
    assert forall|j: int| 0 <= j < gone.len() && is_orphan_file(#[trigger] gone[j], kept) implies (
    observed.has(gone[j].0) <==> placed.dom().contains(gone[j].0)) by {
        lemma_entry_value(old, j);
        let q = gone[j].0;
        assert(old.has(q));
        lemma_placed_presence(staged, dirs_made, observed, backup, old, disk, q);
    }
    lemma_cleanup_leaves_the_rest(
        gone,
        dirs_removed,
        kept,
        observed,
        old_backup,
        suffix,
        placed,
        staged,
    );
    assert(kept.contains(p));
    assert(!paths_of(orphan_files(gone, kept)).contains(p)) by {
        let orphans = orphan_files(gone, kept);
        if paths_of(orphans).contains(p) {
            let f = choose|f: int| 0 <= f < orphans.len() && paths_of(orphans)[f] == p;
            assert(is_orphan_file(orphans[f], kept));
        }
    }
    assert(!dirs_removed.contains(p)) by {
        if dirs_removed.contains(p) {
            let d = choose|d: int| 0 <= d < dirs_removed.len() && dirs_removed[d] == p;
            let back = reversed(dirs_removed);
            assert(back[dirs_removed.len() - 1 - d] == p);
            let lost = orphan_dirs(gone, kept);
            lemma_length_ordering_within(back, paths_of(lost), dirs_removed.len() - 1 - d);
            let j = choose|j: int| 0 <= j < lost.len() && paths_of(lost)[j] == p;
            assert(is_orphan_dir(lost[j], kept));
        }
    }
    assert(on_disk(after, p) == on_disk(placed, p));
}

/// No step of an update brings a hidden entry of the archive into the
/// prefix.
pub proof fn lemma_update_places_nothing_hidden(
    staged: Manifest,
    dirs: Seq<Seq<char>>,
    observed: Manifest,
    backup: Option<Vec<String>>,
    old: Manifest,
)
    requires
        is_length_ordering(dirs, paths_of(placed_dirs(entries_of(staged)))),
    ensures
        forall|k: int|
            0 <= k < (make_dirs(dirs) + replacements(
                placed_files(entries_of(staged)),
                observed,
                backup,
                old,
            )).len() ==> !touches_hidden(
                #[trigger] (make_dirs(dirs) + replacements(
                    placed_files(entries_of(staged)),
                    observed,
                    backup,
                    old,
                ))[k],
            ),
{
    let all = entries_of(staged);
    let files = placed_files(all);
    let folders = placed_dirs(all);
    let steps = make_dirs(dirs) + replacements(files, observed, backup, old);
    assert forall|k: int| 0 <= k < steps.len() implies !touches_hidden(#[trigger] steps[k]) by {
        if k < dirs.len() {
            lemma_length_ordering_within(dirs, paths_of(folders), k);
            let j = choose|j: int| 0 <= j < folders.len() && paths_of(folders)[j] == dirs[k];
            all.lemma_filter_pred(|e: Entry| is_placed_dir(e), j);
        } else {
            let f = k - dirs.len();
            assert(steps[k] == replacement(files[f], observed, backup, old));
            all.lemma_filter_pred(|e: Entry| is_placed_file(e), f);
        }
    }
}

} // verus!
