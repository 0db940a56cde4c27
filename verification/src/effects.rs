//! A model of what the steps of a plan do to the prefix when each of them
//! succeeds.

use vstd::prelude::*;
use crate::install::{placement, placements, save_name};
use crate::model::{opt_text, Manifest};
use crate::paths::{byte_len, is_hidden, is_length_ordering, of_length};
use crate::plan::{
    dir_removal, dir_removals, disposal, disposals, entries_of, is_backup_file, make_dirs,
    paths_of, ActionView, Entry,
};
use crate::replace::{is_user_edit, new_name, replacement, replacements};
use crate::table::{first_index, lemma_first_index_exists};

verus! {

/// The prefix as a map from relative paths to what stands there: the digest
/// of a file's content, or nothing for a directory.
pub type Disk = Map<Seq<char>, Option<Seq<char>>>;

/// Whether the prefix holds an empty directory at `path`.
pub open spec fn is_empty_dir_at(disk: Disk, path: Seq<char>) -> bool {
    &&& disk.dom().contains(path)
    &&& disk[path] is None
    &&& forall|q: Seq<char>| #[trigger] disk.dom().contains(q) ==> !(path + "/"@).is_prefix_of(q)
}

/// The prefix after one step. `staged` tells the content of the staged files.
pub open spec fn effect(action: ActionView, disk: Disk, staged: Manifest) -> Disk {
    match action {
        ActionView::MakeDir { path } => if disk.dom().contains(path) {
            disk
        } else {
            disk.insert(path, None)
        },
        ActionView::Move { from, to } => if disk.dom().contains(from) {
            disk.remove(from).insert(to, disk[from])
        } else {
            disk
        },
        ActionView::Place { staged: source, to } => disk.insert(
            to,
            opt_text(staged.value_of(source)),
        ),
        ActionView::Delete { path } => disk.remove(path),
        ActionView::RemoveDir { path } => if is_empty_dir_at(disk, path) {
            disk.remove(path)
        } else {
            disk
        },
        ActionView::Missing { path } => disk,
    }
}

/// The prefix after the steps `actions`, taken in their order.
pub open spec fn run(actions: Seq<ActionView>, disk: Disk, staged: Manifest) -> Disk
    decreases actions.len(),
{
    if actions.len() == 0 {
        disk
    } else {
        effect(actions.last(), run(actions.drop_last(), disk, staged), staged)
    }
}

/// What stands at `path` in the prefix, in the form in which the caller
/// reports what it has seen.
pub open spec fn on_disk(disk: Disk, path: Seq<char>) -> Option<Option<Seq<char>>> {
    if disk.dom().contains(path) {
        Some(disk[path])
    } else {
        None
    }
}

/// Taking the steps of two lists in a row is taking the steps of the first
/// and then, from where that ends, the steps of the second.
pub proof fn lemma_run_add(a: Seq<ActionView>, b: Seq<ActionView>, disk: Disk, staged: Manifest)
    ensures
        run(a + b, disk, staged) == run(b, run(a, disk, staged), staged),
    decreases b.len(),
{
    if b.len() == 0 {
        assert(a + b =~= a);
    } else {
        lemma_run_add(a, b.drop_last(), disk, staged);
        assert((a + b).drop_last() =~= a + b.drop_last());
        assert((a + b).last() == b.last());
    }
}

/// One step after a list of steps.
pub proof fn lemma_run_push(a: Seq<ActionView>, step: ActionView, disk: Disk, staged: Manifest)
    ensures
        run(a.push(step), disk, staged) == effect(step, run(a, disk, staged), staged),
{
    assert(a.push(step).drop_last() =~= a);
}

/// The paths of the entries of a manifest are its keys.
pub proof fn lemma_paths_of_entries(m: Manifest)
    ensures
        paths_of(entries_of(m)) == m.keys(),
{
    assert(paths_of(entries_of(m)) =~= m.keys());
}

/// In a manifest without double keys, the value recorded for the path of
/// an entry is the value of that entry.
pub proof fn lemma_entry_value(m: Manifest, i: int)
    requires
        m.wf(),
        0 <= i < m.keys().len(),
    ensures
        m.has(entries_of(m)[i].0),
        opt_text(m.value_of(entries_of(m)[i].0)) == entries_of(m)[i].1,
{
    lemma_first_index_exists(m.keys(), m.keys()[i], i);
    let j = first_index(m.keys(), m.keys()[i]);
    assert(j == i);
}

/// A path that a manifest holds is the path of one of its entries.
pub proof fn lemma_has_entry(m: Manifest, p: Seq<char>) -> (i: int)
    requires
        m.has(p),
    ensures
        0 <= i < m.keys().len(),
        entries_of(m)[i].0 == p,
        m.wf() ==> entries_of(m)[i].1 == opt_text(m.value_of(p)),
{
    let i = choose|i: int| 0 <= i < m.keys().len() && m.keys()[i] == p;
    if m.wf() {
        lemma_entry_value(m, i);
    }
    i
}

/// Leaving entries out of a list whose paths are all different leaves a
/// list whose paths are all different, and whose entries are of the first list.
pub proof fn lemma_filter_keeps_distinct(entries: Seq<Entry>, pred: spec_fn(Entry) -> bool)
    requires
        paths_of(entries).no_duplicates(),
    ensures
        paths_of(entries.filter(pred)).no_duplicates(),
        forall|j: int|
            0 <= j < entries.filter(pred).len() ==> pred(#[trigger] entries.filter(pred)[j])
                && entries.contains(entries.filter(pred)[j]),
        forall|i: int|
            0 <= i < entries.len() && pred(entries[i]) ==> entries.filter(pred).contains(
                #[trigger] entries[i],
            ),
    decreases entries.len(),
{
    reveal(Seq::filter);
    let out = entries.filter(pred);
    if entries.len() > 0 {
        let init = entries.drop_last();
        let last = entries.last();
        assert(paths_of(init) =~= paths_of(entries).drop_last());
        lemma_filter_keeps_distinct(init, pred);
        let kept = init.filter(pred);
        assert forall|j: int| 0 <= j < out.len() implies pred(#[trigger] out[j]) && entries.contains(
            out[j],
        ) by {
            if j < kept.len() {
                assert(out[j] == kept[j]);
                let k = choose|k: int| 0 <= k < init.len() && init[k] == kept[j];
                assert(entries[k] == out[j]);
            } else {
                assert(entries[entries.len() - 1] == out[j]);
            }
        }
        assert forall|i: int| 0 <= i < entries.len() && pred(entries[i]) implies out.contains(
            #[trigger] entries[i],
        ) by {
            if i < init.len() {
                assert(init[i] == entries[i]);
                let k = choose|k: int| 0 <= k < kept.len() && kept[k] == init[i];
                assert(out[k] == entries[i]);
            } else {
                assert(out[out.len() - 1] == entries[i]);
            }
        }
        assert forall|a: int, b: int| 0 <= a < b < out.len() implies paths_of(out)[a] != paths_of(
            out,
        )[b] by {
            if b < kept.len() {
                assert(paths_of(kept)[a] != paths_of(kept)[b]);
            } else {
                let k = choose|k: int| 0 <= k < init.len() && init[k] == kept[a];
                assert(paths_of(entries)[k] != paths_of(entries)[entries.len() - 1]);
            }
        }
    }
}

/// A list in order of length holds the paths of the list that it orders.
pub proof fn lemma_length_ordering_holds(sorted: Seq<Seq<char>>, given: Seq<Seq<char>>, i: int)
    requires
        is_length_ordering(sorted, given),
        0 <= i < given.len(),
    ensures
        sorted.contains(given[i]),
{
    let n = byte_len(given[i]);
    let same = |p: Seq<char>| byte_len(p) == n;
    given.lemma_filter_contains(same, i);
    assert(of_length(sorted, n) == of_length(given, n));
    sorted.lemma_filter_contains_rev(same, given[i]);
}

/// A list in order of length holds no path but those of the list that it orders.
pub proof fn lemma_length_ordering_within(sorted: Seq<Seq<char>>, given: Seq<Seq<char>>, i: int)
    requires
        is_length_ordering(sorted, given),
        0 <= i < sorted.len(),
    ensures
        given.contains(sorted[i]),
{
    let n = byte_len(sorted[i]);
    let same = |p: Seq<char>| byte_len(p) == n;
    sorted.lemma_filter_contains(same, i);
    assert(of_length(sorted, n) == of_length(given, n));
    given.lemma_filter_contains_rev(same, sorted[i]);
}

/// Making directories leaves what exists as it is, and afterwards each of
/// the directories exists.
pub proof fn lemma_make_dirs(dirs: Seq<Seq<char>>, disk: Disk, staged: Manifest)
    ensures
        forall|p: Seq<char>| #[trigger]
            disk.dom().contains(p) ==> run(make_dirs(dirs), disk, staged).dom().contains(p) && run(
                make_dirs(dirs),
                disk,
                staged,
            )[p] == disk[p],
        forall|i: int|
            0 <= i < dirs.len() ==> run(make_dirs(dirs), disk, staged).dom().contains(
                #[trigger] dirs[i],
            ),
        forall|p: Seq<char>|
            !dirs.contains(p) ==> #[trigger] on_disk(run(make_dirs(dirs), disk, staged), p)
                == on_disk(disk, p),
    decreases dirs.len(),
{
    if dirs.len() > 0 {
        let before = dirs.drop_last();
        lemma_make_dirs(before, disk, staged);
        assert forall|p: Seq<char>| !dirs.contains(p) implies #[trigger] on_disk(
            run(make_dirs(dirs), disk, staged),
            p,
        ) == on_disk(disk, p) by {
            assert(dirs[dirs.len() - 1] != p);
            assert(!before.contains(p)) by {
                if before.contains(p) {
                    let k = choose|k: int| 0 <= k < before.len() && before[k] == p;
                    assert(dirs[k] == p);
                }
            }
            assert(make_dirs(dirs).drop_last() =~= make_dirs(before));
            assert(make_dirs(dirs).last() == ActionView::MakeDir { path: dirs.last() });
            assert(on_disk(run(make_dirs(before), disk, staged), p) == on_disk(disk, p));
        }
        assert(make_dirs(dirs).drop_last() =~= make_dirs(before));
        assert(make_dirs(dirs).last() == ActionView::MakeDir { path: dirs.last() });
        let mid = run(make_dirs(before), disk, staged);
        assert forall|i: int| 0 <= i < dirs.len() implies run(
            make_dirs(dirs),
            disk,
            staged,
        ).dom().contains(#[trigger] dirs[i]) by {
            if i < dirs.len() - 1 {
                assert(before[i] == dirs[i]);
                assert(mid.dom().contains(before[i]));
            }
        }
    }
}

/// A staged file that is moved aside before the new file is placed.
pub open spec fn is_saved_aside(e: Entry, observed: Manifest, backup: Option<Vec<String>>) -> bool {
    observed.has(e.0) && is_backup_file(backup, e.0)
}

/// No file among `files` has the save name of a file among them that is moved aside.
pub open spec fn no_save_collision(
    files: Seq<Entry>,
    observed: Manifest,
    backup: Option<Vec<String>>,
) -> bool {
    forall|i: int, j: int|
        0 <= i < files.len() && 0 <= j < files.len() && is_saved_aside(
            #[trigger] files[j],
            observed,
            backup,
        ) ==> (#[trigger] files[i]).0 != save_name(files[j].0)
}

/// After the staged files `files` were placed, each of them stands at its
/// path with its content, and whatever stood at another path beforehand
/// still stands somewhere.
pub proof fn lemma_placements(
    files: Seq<Entry>,
    observed: Manifest,
    backup: Option<Vec<String>>,
    disk: Disk,
    staged: Manifest,
)
    requires
        paths_of(files).no_duplicates(),
        forall|i: int|
            0 <= i < files.len() ==> opt_text(staged.value_of((#[trigger] files[i]).0))
                == files[i].1,
        no_save_collision(files, observed, backup),
    ensures
        forall|i: int|
            0 <= i < files.len() ==> on_disk(
                run(placements(files, observed, backup), disk, staged),
                (#[trigger] files[i]).0,
            ) == Some(files[i].1),
        forall|p: Seq<char>| #[trigger]
            disk.dom().contains(p) && !paths_of(files).contains(p) ==> run(
                placements(files, observed, backup),
                disk,
                staged,
            ).dom().contains(p),
    decreases files.len(),
{
    if files.len() > 0 {
        let init = files.drop_last();
        let e = files.last();
        let n = files.len() - 1;
        assert(paths_of(init) =~= paths_of(files).drop_last());
        assert forall|i: int, j: int|
            0 <= i < init.len() && 0 <= j < init.len() && is_saved_aside(
                #[trigger] init[j],
                observed,
                backup,
            ) implies (#[trigger] init[i]).0 != save_name(init[j].0) by {
            assert(files[i] == init[i] && files[j] == init[j]);
        }
        assert forall|i: int| 0 <= i < init.len() implies opt_text(
            staged.value_of((#[trigger] init[i]).0),
        ) == init[i].1 by {
            assert(files[i] == init[i]);
        }
        lemma_placements(init, observed, backup, disk, staged);
        let mid = run(placements(init, observed, backup), disk, staged);
        lemma_run_add(
            placements(init, observed, backup),
            placement(e, observed, backup),
            disk,
            staged,
        );
        let put = ActionView::Place { staged: e.0, to: e.0 };
        let aside = ActionView::Move { from: e.0, to: save_name(e.0) };
        let moved = if is_saved_aside(e, observed, backup) {
            effect(aside, mid, staged)
        } else {
            mid
        };
        let after = run(placements(files, observed, backup), disk, staged);
        assert(after == effect(put, moved, staged)) by {
            if is_saved_aside(e, observed, backup) {
                assert(placement(e, observed, backup) =~= seq![aside].push(put));
                lemma_run_push(seq![aside], put, mid, staged);
                assert(seq![aside] =~= Seq::<ActionView>::empty().push(aside));
                lemma_run_push(Seq::<ActionView>::empty(), aside, mid, staged);
            } else {
                assert(placement(e, observed, backup) =~= Seq::<ActionView>::empty().push(put));
                lemma_run_push(Seq::<ActionView>::empty(), put, mid, staged);
            }
        }
        assert forall|i: int| 0 <= i < files.len() implies on_disk(after, (#[trigger] files[i]).0)
            == Some(files[i].1) by {
            if i < n {
                assert(init[i] == files[i]);
                assert(on_disk(mid, init[i].0) == Some(init[i].1));
                assert(paths_of(files)[i] != paths_of(files)[n]);
                if is_saved_aside(e, observed, backup) {
                    assert(files[i].0 != save_name(files[n].0));
                }
            }
        }
        assert forall|p: Seq<char>| #[trigger]
            disk.dom().contains(p) && !paths_of(files).contains(p) implies after.dom().contains(
            p,
        ) by {
            assert(paths_of(files)[n] == e.0);
            assert(!paths_of(init).contains(p)) by {
                if paths_of(init).contains(p) {
                    let k = choose|k: int| 0 <= k < init.len() && paths_of(init)[k] == p;
                    assert(paths_of(files)[k] == p);
                }
            }
        }
    }
}

/// Where no file is moved aside, placing the staged files `files` changes
/// nothing at the other paths.
pub proof fn lemma_placements_leave_the_rest(
    files: Seq<Entry>,
    observed: Manifest,
    backup: Option<Vec<String>>,
    disk: Disk,
    staged: Manifest,
)
    requires
        forall|i: int| 0 <= i < files.len() ==> !is_saved_aside(#[trigger] files[i], observed, backup),
    ensures
        forall|p: Seq<char>|
            !paths_of(files).contains(p) ==> #[trigger] on_disk(
                run(placements(files, observed, backup), disk, staged),
                p,
            ) == on_disk(disk, p),
    decreases files.len(),
{
    if files.len() > 0 {
        let init = files.drop_last();
        let e = files.last();
        assert forall|i: int| 0 <= i < init.len() implies !is_saved_aside(
            #[trigger] init[i],
            observed,
            backup,
        ) by {
            assert(init[i] == files[i]);
        }
        lemma_placements_leave_the_rest(init, observed, backup, disk, staged);
        let mid = run(placements(init, observed, backup), disk, staged);
        let put = ActionView::Place { staged: e.0, to: e.0 };
        assert(!is_saved_aside(files[files.len() - 1], observed, backup));
        assert(placement(e, observed, backup) =~= Seq::<ActionView>::empty().push(put));
        lemma_run_add(
            placements(init, observed, backup),
            placement(e, observed, backup),
            disk,
            staged,
        );
        lemma_run_push(Seq::<ActionView>::empty(), put, mid, staged);
        assert forall|p: Seq<char>| !paths_of(files).contains(p) implies #[trigger] on_disk(
            run(placements(files, observed, backup), disk, staged),
            p,
        ) == on_disk(disk, p) by {
            assert(paths_of(files)[files.len() - 1] == e.0);
            assert(!paths_of(init).contains(p)) by {
                if paths_of(init).contains(p) {
                    let k = choose|k: int| 0 <= k < init.len() && paths_of(init)[k] == p;
                    assert(paths_of(files)[k] == p);
                }
            }
            assert(on_disk(mid, p) == on_disk(disk, p));
        }
    }
}

/// Whether a step brings a hidden entry of the archive into the prefix.
pub open spec fn touches_hidden(action: ActionView) -> bool {
    match action {
        ActionView::MakeDir { path } => is_hidden(path),
        ActionView::Place { staged, to } => is_hidden(staged),
        _ => false,
    }
}

/// The steps that place files that are not hidden bring nothing hidden into
/// the prefix.
pub proof fn lemma_placements_visible(
    files: Seq<Entry>,
    observed: Manifest,
    backup: Option<Vec<String>>,
)
    requires
        forall|i: int| 0 <= i < files.len() ==> !is_hidden((#[trigger] files[i]).0),
    ensures
        forall|k: int|
            0 <= k < placements(files, observed, backup).len() ==> !touches_hidden(
                #[trigger] placements(files, observed, backup)[k],
            ),
    decreases files.len(),
{
    if files.len() > 0 {
        let init = files.drop_last();
        let e = files.last();
        assert forall|i: int| 0 <= i < init.len() implies !is_hidden((#[trigger] init[i]).0) by {
            assert(init[i] == files[i]);
        }
        lemma_placements_visible(init, observed, backup);
        assert(!is_hidden(files[files.len() - 1].0));
        let before = placements(init, observed, backup);
        let last = placement(e, observed, backup);
        assert forall|k: int| 0 <= k < (before + last).len() implies !touches_hidden(
            #[trigger] (before + last)[k],
        ) by {
            if k < before.len() {
                assert((before + last)[k] == before[k]);
            } else {
                assert((before + last)[k] == last[k - before.len()]);
            }
        }
    }
}

/// No file among `files` has the name under which the new version of one of
/// them is placed beside the user's file.
pub open spec fn no_new_collision(
    files: Seq<Entry>,
    observed: Manifest,
    backup: Option<Vec<String>>,
    old: Manifest,
) -> bool {
    forall|i: int, j: int|
        0 <= i < files.len() && 0 <= j < files.len() && is_user_edit(
            #[trigger] files[j],
            observed,
            backup,
            old,
        ) ==> (#[trigger] files[i]).0 != new_name(files[j].0)
}

/// Whether `p` is the name under which the new version of one of `files` is
/// placed beside the user's file.
pub open spec fn is_new_name(
    files: Seq<Entry>,
    observed: Manifest,
    backup: Option<Vec<String>>,
    old: Manifest,
    p: Seq<char>,
) -> bool {
    exists|j: int|
        0 <= j < files.len() && is_user_edit(#[trigger] files[j], observed, backup, old) && p
            == new_name(files[j].0)
}

/// After the staged files `files` of an update were placed: a file that
/// the user has not edited stands at its path with its new content; a file
/// that the user has edited stands as the user left it; and nothing else has
/// changed but at the names of the new versions that were placed beside
/// edited files.
pub proof fn lemma_replacements(
    files: Seq<Entry>,
    observed: Manifest,
    backup: Option<Vec<String>>,
    old: Manifest,
    disk: Disk,
    staged: Manifest,
)
    requires
        paths_of(files).no_duplicates(),
        forall|i: int|
            0 <= i < files.len() ==> opt_text(staged.value_of((#[trigger] files[i]).0))
                == files[i].1,
        no_new_collision(files, observed, backup, old),
    ensures
        forall|i: int|
            0 <= i < files.len() ==> on_disk(
                run(replacements(files, observed, backup, old), disk, staged),
                (#[trigger] files[i]).0,
            ) == if is_user_edit(files[i], observed, backup, old) {
                on_disk(disk, files[i].0)
            } else {
                Some(files[i].1)
            },
        forall|p: Seq<char>|
            !paths_of(files).contains(p) && !is_new_name(files, observed, backup, old, p)
                ==> #[trigger] on_disk(
                run(replacements(files, observed, backup, old), disk, staged),
                p,
            ) == on_disk(disk, p),
    decreases files.len(),
{
    if files.len() > 0 {
        let init = files.drop_last();
        let e = files.last();
        let n = files.len() - 1;
        assert(paths_of(init) =~= paths_of(files).drop_last());
        assert(files[n] == e);
        assert forall|p: Seq<char>| is_new_name(init, observed, backup, old, p) implies is_new_name(
            files,
            observed,
            backup,
            old,
            p,
        ) by {
            let j = choose|j: int|
                0 <= j < init.len() && is_user_edit(#[trigger] init[j], observed, backup, old) && p
                    == new_name(init[j].0);
            assert(files[j] == init[j]);
        }
        assert forall|i: int, j: int|
            0 <= i < init.len() && 0 <= j < init.len() && is_user_edit(
                #[trigger] init[j],
                observed,
                backup,
                old,
            ) implies (#[trigger] init[i]).0 != new_name(init[j].0) by {
            assert(files[i] == init[i] && files[j] == init[j]);
        }
        assert forall|i: int| 0 <= i < init.len() implies opt_text(
            staged.value_of((#[trigger] init[i]).0),
        ) == init[i].1 by {
            assert(files[i] == init[i]);
        }
        lemma_replacements(init, observed, backup, old, disk, staged);
        let mid = run(replacements(init, observed, backup, old), disk, staged);
        let step = replacement(e, observed, backup, old);
        assert(replacements(files, observed, backup, old).drop_last() =~= replacements(
            init,
            observed,
            backup,
            old,
        ));
        assert(replacements(files, observed, backup, old).last() == step);
        let after = run(replacements(files, observed, backup, old), disk, staged);
        assert(after == effect(step, mid, staged));
        assert(!paths_of(init).contains(e.0)) by {
            if paths_of(init).contains(e.0) {
                let k = choose|k: int| 0 <= k < init.len() && paths_of(init)[k] == e.0;
                assert(paths_of(files)[k] == paths_of(files)[n]);
            }
        }
        if is_user_edit(e, observed, backup, old) {
            assert(is_new_name(files, observed, backup, old, new_name(e.0)));
            assert(!is_new_name(init, observed, backup, old, e.0)) by {
                if is_new_name(init, observed, backup, old, e.0) {
                    let j = choose|j: int|
                        0 <= j < init.len() && is_user_edit(
                            #[trigger] init[j],
                            observed,
                            backup,
                            old,
                        ) && e.0 == new_name(init[j].0);
                    assert(files[j] == init[j]);
                    assert(files[n].0 != new_name(files[j].0));
                }
            }
            assert(files[n].0 != new_name(files[n].0));
            assert(on_disk(mid, e.0) == on_disk(disk, e.0));
        }
        assert forall|i: int| 0 <= i < files.len() implies on_disk(after, (#[trigger] files[i]).0)
            == if is_user_edit(files[i], observed, backup, old) {
            on_disk(disk, files[i].0)
        } else {
            Some(files[i].1)
        } by {
            if i < n {
                assert(init[i] == files[i]);
                assert(paths_of(files)[i] != paths_of(files)[n]);
                if is_user_edit(e, observed, backup, old) {
                    assert(files[i].0 != new_name(files[n].0));
                }
            }
        }
        assert forall|p: Seq<char>|
            !paths_of(files).contains(p) && !is_new_name(
                files,
                observed,
                backup,
                old,
                p,
            ) implies #[trigger] on_disk(after, p) == on_disk(disk, p) by {
            assert(paths_of(files)[n] == e.0);
            assert(!paths_of(init).contains(p)) by {
                if paths_of(init).contains(p) {
                    let k = choose|k: int| 0 <= k < init.len() && paths_of(init)[k] == p;
                    assert(paths_of(files)[k] == p);
                }
            }
            assert(on_disk(mid, p) == on_disk(disk, p));
        }
    }
}

/// A recorded file that is kept under another name when it is cleared away:
/// it exists, it is the user's to edit, and it differs from what was recorded.
pub open spec fn is_moved_away(e: Entry, observed: Manifest, backup: Option<Vec<String>>) -> bool {
    observed.has(e.0) && is_backup_file(backup, e.0) && opt_text(observed.value_of(e.0)) != e.1
}

/// Whether `p` is the name under which one of `files` is kept.
pub open spec fn is_keep_name(
    files: Seq<Entry>,
    observed: Manifest,
    backup: Option<Vec<String>>,
    suffix: Seq<char>,
    p: Seq<char>,
) -> bool {
    exists|j: int|
        0 <= j < files.len() && is_moved_away(#[trigger] files[j], observed, backup) && p
            == files[j].0 + suffix
}

/// No file among `files` has the name under which one of them is kept.
pub open spec fn no_keep_collision(
    files: Seq<Entry>,
    observed: Manifest,
    backup: Option<Vec<String>>,
    suffix: Seq<char>,
) -> bool {
    forall|i: int|
        0 <= i < files.len() ==> !is_keep_name(
            files,
            observed,
            backup,
            suffix,
            (#[trigger] files[i]).0,
        )
}

/// After the recorded files `files` were cleared away, none of them stands
/// at its path, and what stands elsewhere, but at the names under which
/// files are kept, is what stood there beforehand.
pub proof fn lemma_disposals(
    files: Seq<Entry>,
    observed: Manifest,
    backup: Option<Vec<String>>,
    suffix: Seq<char>,
    disk: Disk,
    staged: Manifest,
)
    requires
        paths_of(files).no_duplicates(),
        forall|i: int|
            0 <= i < files.len() ==> (observed.has((#[trigger] files[i]).0)
                <==> disk.dom().contains(files[i].0)),
        no_keep_collision(files, observed, backup, suffix),
    ensures
        forall|i: int|
            0 <= i < files.len() ==> !run(
                disposals(files, observed, backup, suffix),
                disk,
                staged,
            ).dom().contains((#[trigger] files[i]).0),
        forall|p: Seq<char>|
            !paths_of(files).contains(p) && !is_keep_name(files, observed, backup, suffix, p)
                ==> #[trigger] on_disk(
                run(disposals(files, observed, backup, suffix), disk, staged),
                p,
            ) == on_disk(disk, p),
    decreases files.len(),
{
    if files.len() > 0 {
        let init = files.drop_last();
        let e = files.last();
        let n = files.len() - 1;
        assert(paths_of(init) =~= paths_of(files).drop_last());
        assert forall|p: Seq<char>|
            is_keep_name(init, observed, backup, suffix, p) implies is_keep_name(
            files,
            observed,
            backup,
            suffix,
            p,
        ) by {
            let j = choose|j: int|
                0 <= j < init.len() && is_moved_away(#[trigger] init[j], observed, backup) && p
                    == init[j].0 + suffix;
            assert(files[j] == init[j]);
        }
        assert forall|i: int| 0 <= i < init.len() implies (observed.has((#[trigger] init[i]).0)
            <==> disk.dom().contains(init[i].0)) && !is_keep_name(
            init,
            observed,
            backup,
            suffix,
            init[i].0,
        ) by {
            assert(files[i] == init[i]);
        }
        lemma_disposals(init, observed, backup, suffix, disk, staged);
        let mid = run(disposals(init, observed, backup, suffix), disk, staged);
        let step = disposal(e, observed, backup, suffix);
        assert(disposals(files, observed, backup, suffix).drop_last() =~= disposals(
            init,
            observed,
            backup,
            suffix,
        ));
        assert(disposals(files, observed, backup, suffix).last() == step);
        let after = run(disposals(files, observed, backup, suffix), disk, staged);
        assert(after == effect(step, mid, staged));
        assert(files[n] == e);
        assert(!paths_of(init).contains(e.0)) by {
            if paths_of(init).contains(e.0) {
                let k = choose|k: int| 0 <= k < init.len() && paths_of(init)[k] == e.0;
                assert(paths_of(files)[k] == paths_of(files)[n]);
            }
        }
        assert(on_disk(mid, e.0) == on_disk(disk, e.0));
        if is_moved_away(e, observed, backup) {
            assert(is_keep_name(files, observed, backup, suffix, e.0 + suffix));
        }
        assert forall|i: int| 0 <= i < files.len() implies !after.dom().contains(
            (#[trigger] files[i]).0,
        ) by {
            if i < n {
                assert(init[i] == files[i]);
                assert(!mid.dom().contains(init[i].0));
            }
        }
        assert forall|p: Seq<char>|
            !paths_of(files).contains(p) && !is_keep_name(
                files,
                observed,
                backup,
                suffix,
                p,
            ) implies #[trigger] on_disk(after, p) == on_disk(disk, p) by {
            assert(paths_of(files)[n] == e.0);
            assert(!paths_of(init).contains(p)) by {
                if paths_of(init).contains(p) {
                    let k = choose|k: int| 0 <= k < init.len() && paths_of(init)[k] == p;
                    assert(paths_of(files)[k] == p);
                }
            }
            assert(on_disk(mid, p) == on_disk(disk, p));
        }
    }
}

/// Removing directories removes nothing but some of those directories, and
/// changes nothing else.
pub proof fn lemma_dir_removals(dirs: Seq<Seq<char>>, observed: Manifest, disk: Disk, staged: Manifest)
    ensures
        forall|p: Seq<char>| #[trigger]
            run(dir_removals(dirs, observed), disk, staged).dom().contains(p)
                ==> disk.dom().contains(p) && run(dir_removals(dirs, observed), disk, staged)[p]
                == disk[p],
        forall|p: Seq<char>|
            !dirs.contains(p) ==> #[trigger] on_disk(
                run(dir_removals(dirs, observed), disk, staged),
                p,
            ) == on_disk(disk, p),
    decreases dirs.len(),
{
    if dirs.len() > 0 {
        let init = dirs.drop_last();
        let d = dirs.last();
        lemma_dir_removals(init, observed, disk, staged);
        lemma_run_add(dir_removals(init, observed), dir_removal(d, observed), disk, staged);
        let mid = run(dir_removals(init, observed), disk, staged);
        let last = dir_removal(d, observed);
        let after = run(dir_removals(dirs, observed), disk, staged);
        assert(dirs[dirs.len() - 1] == d);
        if last.len() == 0 {
            assert(after == mid);
        } else {
            assert(last =~= Seq::<ActionView>::empty().push(last[0]));
            lemma_run_push(Seq::<ActionView>::empty(), last[0], mid, staged);
            assert(after == effect(last[0], mid, staged));
        }
        assert forall|p: Seq<char>| !dirs.contains(p) implies #[trigger] on_disk(after, p)
            == on_disk(disk, p) by {
            assert(!init.contains(p)) by {
                if init.contains(p) {
                    let k = choose|k: int| 0 <= k < init.len() && init[k] == p;
                    assert(dirs[k] == p);
                }
            }
            assert(on_disk(mid, p) == on_disk(disk, p));
        }
    }
}

} // verus!
