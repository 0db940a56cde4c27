//! What an operation does to the files under the prefix, as a list of steps
//! for the caller to carry out, and what the caller has seen there.

use vstd::prelude::*;
use crate::model::{opt_text, Manifest};
use crate::model::PkgError;
use crate::paths::{
    hidden, is_hidden, is_length_ordering, leads_nowhere, names_no_entry, sorted_by_length,
    with_suffix,
};
use crate::table::lemma_first_index_exists;
use crate::text::{same_text, texts};

verus! {

/// One step on the files under the prefix. All paths are relative to the
/// prefix, but the `staged` one, which is relative to the staging directory.
#[derive(Debug, Clone, PartialEq)]
pub enum FileAction {
    /// Make the directory if it is missing, and give it the mode and the
    /// times of the staged directory of the same path.
    MakeDir { path: String },
    /// Move a file of the prefix to another name.
    Move { from: String, to: String },
    /// Move a staged file into the prefix.
    Place { staged: String, to: String },
    /// Delete a file.
    Delete { path: String },
    /// Remove the directory if it is empty.
    RemoveDir { path: String },
    /// Report that a recorded path does not exist; nothing is done.
    Missing { path: String },
}

/// The texts of a step.
pub enum ActionView {
    MakeDir { path: Seq<char> },
    Move { from: Seq<char>, to: Seq<char> },
    Place { staged: Seq<char>, to: Seq<char> },
    Delete { path: Seq<char> },
    RemoveDir { path: Seq<char> },
    Missing { path: Seq<char> },
}

impl View for FileAction {
    type V = ActionView;

    open spec fn view(&self) -> ActionView {
        match self {
            FileAction::MakeDir { path } => ActionView::MakeDir { path: path@ },
            FileAction::Move { from, to } => ActionView::Move { from: from@, to: to@ },
            FileAction::Place { staged, to } => ActionView::Place { staged: staged@, to: to@ },
            FileAction::Delete { path } => ActionView::Delete { path: path@ },
            FileAction::RemoveDir { path } => ActionView::RemoveDir { path: path@ },
            FileAction::Missing { path } => ActionView::Missing { path: path@ },
        }
    }
}

/// The texts of a list of steps.
pub open spec fn action_views(v: Seq<FileAction>) -> Seq<ActionView> {
    Seq::new(v.len(), |i: int| v[i]@)
}

/// An entry of a manifest: a path, and the digest of a file or none for a
/// directory.
pub type Entry = (Seq<char>, Option<Seq<char>>);

/// The entries of a manifest, in their order.
pub open spec fn entries_of(m: Manifest) -> Seq<Entry> {
    Seq::new(m.entries@.len(), |i: int| (m.entries@[i].0@, opt_text(m.entries@[i].1)))
}

/// The paths of a list of entries.
pub open spec fn paths_of(entries: Seq<Entry>) -> Seq<Seq<char>> {
    Seq::new(entries.len(), |i: int| entries[i].0)
}

/// A directory that is placed under the prefix.
pub open spec fn is_placed_dir(e: Entry) -> bool {
    e.1 is None && !is_hidden(e.0)
}

/// A file that is placed under the prefix.
pub open spec fn is_placed_file(e: Entry) -> bool {
    e.1 is Some && !is_hidden(e.0)
}

/// The directories among `entries` that are placed, in their order.
pub open spec fn placed_dirs(entries: Seq<Entry>) -> Seq<Entry> {
    entries.filter(|e: Entry| is_placed_dir(e))
}

/// The files among `entries` that are placed, in their order.
pub open spec fn placed_files(entries: Seq<Entry>) -> Seq<Entry> {
    entries.filter(|e: Entry| is_placed_file(e))
}

/// Whether `path` is one of the files that the package lists as the user's to edit.
pub open spec fn is_backup_file(backup: Option<Vec<String>>, path: Seq<char>) -> bool {
    backup is Some && texts(backup.unwrap()@).contains(path)
}

/// The steps that make the directories `dirs`, in their order.
pub open spec fn make_dirs(dirs: Seq<Seq<char>>) -> Seq<ActionView> {
    Seq::new(dirs.len(), |i: int| ActionView::MakeDir { path: dirs[i] })
}

/// What the caller has seen at a path under the prefix: nothing, a file with
/// the digest of its content, or something that is no file.
pub open spec fn seen(observed: Manifest, path: Seq<char>) -> Option<Option<Seq<char>>> {
    if observed.has(path) {
        Some(opt_text(observed.value_of(path)))
    } else {
        None
    }
}

/// The entries among `entries` that are not hidden, in their order.
pub open spec fn visible_entries(entries: Seq<Entry>) -> Seq<Entry> {
    entries.filter(|e: Entry| !is_hidden(e.0))
}

/// The manifest `recorded` holds what was staged and is placed: the entries
/// of `staged` that are not hidden, each with its digest, in their order.
pub open spec fn records_staging(recorded: Manifest, staged: Manifest) -> bool {
    &&& recorded.wf()
    &&& entries_of(recorded) == visible_entries(entries_of(staged))
    &&& forall|p: Seq<char>| #[trigger] recorded.has(p) <==> staged.has(p) && !is_hidden(p)
    &&& forall|p: Seq<char>| #[trigger]
        recorded.has(p) ==> opt_text(recorded.value_of(p)) == opt_text(staged.value_of(p))
}

/// The paths that were staged and are placed.
pub open spec fn placed_paths(staged: Manifest) -> Set<Seq<char>> {
    Set::new(|p: Seq<char>| staged.has(p) && !is_hidden(p))
}

/// A copy of an optional string.
pub fn copy_opt(o: &Option<String>) -> (r: Option<String>)
    ensures
        opt_text(r) == opt_text(*o),
{
    match o {
        Some(s) => Some(s.clone()),
        None => None,
    }
}

/// The manifest of what was staged and is placed.
pub fn record_of_staging(staged: &Manifest) -> (r: Manifest)
    requires
        staged.wf(),
    ensures
        records_staging(r, *staged),
{
    let mut recorded: Manifest = Manifest::new();
    let mut i: usize = 0;
    proof {
        reveal(Seq::filter);
        assert(recorded.keys().len() == 0);
        assert(entries_of(*staged).take(0) =~= Seq::<Entry>::empty());
        assert(entries_of(recorded) =~= visible_entries(entries_of(*staged).take(0)));
    }
    while i < staged.len()
        invariant
            staged.wf(),
            i <= staged.keys().len(),
            recorded.wf(),
            entries_of(recorded) == visible_entries(entries_of(*staged).take(i as int)),
            forall|p: Seq<char>| #[trigger]
                recorded.has(p) <==> staged.keys().take(i as int).contains(p) && !is_hidden(p),
            forall|p: Seq<char>| #[trigger]
                recorded.has(p) ==> opt_text(recorded.value_of(p)) == opt_text(staged.value_of(p)),
        decreases staged.keys().len() - i,
    {
        let path = staged.key_at(i);
        let ghost before = recorded;
        let ghost k = path@;
        proof {
            lemma_first_index_exists(staged.keys(), k, i as int);
            assert(staged.keys().take(i + 1) =~= staged.keys().take(i as int).push(k));
            assert forall|p: Seq<char>|
                staged.keys().take(i + 1).contains(p) <==> (p == k || staged.keys().take(
                    i as int,
                ).contains(p)) by {
                if staged.keys().take(i as int).contains(p) {
                    let j = choose|j: int|
                        0 <= j < i && staged.keys().take(i as int)[j] == p;
                    assert(staged.keys().take(i + 1)[j] == p);
                }
                if p == k {
                    assert(staged.keys().take(i + 1)[i as int] == p);
                }
            }
        }
        proof {
            reveal(Seq::filter);
            let all = entries_of(*staged);
            assert(all.take(i + 1).drop_last() =~= all.take(i as int));
            assert(all.take(i + 1).last() == (k, opt_text(staged.entries@[i as int].1)));
        }
        if !hidden(path.as_str()) {
            let digest = copy_opt(staged.value_at(i));
            assert(!before.has(k)) by {
                if staged.keys().take(i as int).contains(k) {
                    let j = choose|j: int| 0 <= j < i && staged.keys().take(i as int)[j] == k;
                    assert(staged.keys()[j] == staged.keys()[i as int]);
                }
            }
            recorded.insert(path.clone(), digest);
            assert(entries_of(recorded) =~= entries_of(before).push(
                (k, opt_text(staged.entries@[i as int].1)),
            ));
            proof {
                assert forall|p: Seq<char>| #[trigger]
                    recorded.has(p) <==> staged.keys().take(i + 1).contains(p) && !is_hidden(p) by {
                    assert(before.has(p) <==> before@.dom().contains(p));
                    assert(recorded.has(p) <==> recorded@.dom().contains(p));
                }
                assert forall|p: Seq<char>| #[trigger] recorded.has(p) implies opt_text(
                    recorded.value_of(p),
                ) == opt_text(staged.value_of(p)) by {
                    assert(recorded.value_of(p) == recorded@[p]);
                    if p != k {
                        assert(before.has(p));
                        assert(before.value_of(p) == before@[p]);
                    }
                }
            }
        }
        i += 1;
    }
    proof {
        assert(staged.keys().take(i as int) =~= staged.keys());
        assert(entries_of(*staged).take(i as int) =~= entries_of(*staged));
    }
    recorded
}

/// The directories that were staged and are placed, by ascending length of
/// their paths; of equal length in the order in which they were staged.
pub fn ordered_dirs(staged: &Manifest) -> (r: Vec<String>)
    ensures
        is_length_ordering(texts(r@), paths_of(placed_dirs(entries_of(*staged)))),
{
    let mut dirs: Vec<String> = Vec::new();
    let ghost all = entries_of(*staged);
    let mut i: usize = 0;
    assert(placed_dirs(all.take(0)) =~= Seq::<Entry>::empty()) by {
        reveal(Seq::filter);
    }
    while i < staged.len()
        invariant
            i <= staged.keys().len(),
            all == entries_of(*staged),
            dirs@.len() == placed_dirs(all.take(i as int)).len(),
            texts(dirs@) == paths_of(placed_dirs(all.take(i as int))),
        decreases staged.keys().len() - i,
    {
        let path = staged.key_at(i);
        let ghost e = all[i as int];
        proof {
            reveal(Seq::filter);
            assert(all.take(i + 1).drop_last() =~= all.take(i as int));
            assert(all.take(i + 1).last() == e);
        }
        if staged.value_at(i).is_none() && !hidden(path.as_str()) {
            let ghost done = texts(dirs@);
            dirs.push(path.clone());
            assert(texts(dirs@) =~= done.push(e.0));
            assert(paths_of(placed_dirs(all.take(i as int)).push(e)) =~= done.push(e.0));
        }
        i += 1;
    }
    assert(all.take(i as int) =~= all);
    sorted_by_length(dirs)
}

/// A list in the opposite order.
pub open spec fn reversed(s: Seq<Seq<char>>) -> Seq<Seq<char>> {
    Seq::new(s.len(), |i: int| s[s.len() - 1 - i])
}

/// A recorded file that the operation leaves behind: `kept` does not hold its path.
pub open spec fn is_orphan_file(e: Entry, kept: Set<Seq<char>>) -> bool {
    e.1 is Some && !kept.contains(e.0)
}

/// A recorded directory that the operation leaves behind.
pub open spec fn is_orphan_dir(e: Entry, kept: Set<Seq<char>>) -> bool {
    e.1 is None && !kept.contains(e.0)
}

/// The recorded files that the operation leaves behind, in their order.
pub open spec fn orphan_files(entries: Seq<Entry>, kept: Set<Seq<char>>) -> Seq<Entry> {
    entries.filter(|e: Entry| is_orphan_file(e, kept))
}

/// The recorded directories that the operation leaves behind, in their order.
pub open spec fn orphan_dirs(entries: Seq<Entry>, kept: Set<Seq<char>>) -> Seq<Entry> {
    entries.filter(|e: Entry| is_orphan_dir(e, kept))
}

/// A recorded file that is the user's to edit and whose content has to be
/// compared, where what stands at its path is no file that can be read.
pub open spec fn is_unreadable(e: Entry, observed: Manifest, backup: Option<Vec<String>>) -> bool {
    &&& e.1 is Some
    &&& observed.has(e.0)
    &&& is_backup_file(backup, e.0)
    &&& observed.value_of(e.0) is None
}

/// What is done with a recorded file that the operation leaves behind. A
/// file that is gone is reported. A file that is the user's to edit and
/// differs from what was recorded is moved to its name with `suffix`. Any
/// other file is deleted.
pub open spec fn disposal(
    e: Entry,
    observed: Manifest,
    backup: Option<Vec<String>>,
    suffix: Seq<char>,
) -> ActionView {
    if !observed.has(e.0) {
        ActionView::Missing { path: e.0 }
    } else if is_backup_file(backup, e.0) && opt_text(observed.value_of(e.0)) != e.1 {
        ActionView::Move { from: e.0, to: e.0 + suffix }
    } else {
        ActionView::Delete { path: e.0 }
    }
}

/// What is done with the recorded files `files`, in their order.
pub open spec fn disposals(
    files: Seq<Entry>,
    observed: Manifest,
    backup: Option<Vec<String>>,
    suffix: Seq<char>,
) -> Seq<ActionView> {
    Seq::new(files.len(), |i: int| disposal(files[i], observed, backup, suffix))
}

/// What is done with a recorded directory that the operation leaves behind.
/// A directory that is gone is reported; one whose path leads nowhere, and so
/// names the prefix itself, is left alone; any other is removed if it is empty.
pub open spec fn dir_removal(path: Seq<char>, observed: Manifest) -> Seq<ActionView> {
    if !observed.has(path) {
        seq![ActionView::Missing { path: path }]
    } else if names_no_entry(path) {
        Seq::empty()
    } else {
        seq![ActionView::RemoveDir { path: path }]
    }
}

/// What is done with the recorded directories `dirs`, in their order.
pub open spec fn dir_removals(dirs: Seq<Seq<char>>, observed: Manifest) -> Seq<ActionView>
    decreases dirs.len(),
{
    if dirs.len() == 0 {
        Seq::empty()
    } else {
        dir_removals(dirs.drop_last(), observed) + dir_removal(dirs.last(), observed)
    }
}

/// No recorded file left behind is unreadable.
pub open spec fn all_readable(
    entries: Seq<Entry>,
    kept: Set<Seq<char>>,
    observed: Manifest,
    backup: Option<Vec<String>>,
) -> bool {
    forall|j: int|
        0 <= j < entries.len() ==> !(is_orphan_file(#[trigger] entries[j], kept) && is_unreadable(
            entries[j],
            observed,
            backup,
        ))
}

/// The steps that clear away what a package recorded and the operation
/// leaves behind: first the files, in the order of the record, then the
/// directories, the longest path first.
pub open spec fn cleanup(
    entries: Seq<Entry>,
    dirs: Seq<Seq<char>>,
    kept: Set<Seq<char>>,
    observed: Manifest,
    backup: Option<Vec<String>>,
    suffix: Seq<char>,
) -> Seq<ActionView> {
    disposals(orphan_files(entries, kept), observed, backup, suffix) + dir_removals(dirs, observed)
}

/// The set of the paths that a manifest holds.
pub open spec fn paths_in(m: Manifest) -> Set<Seq<char>> {
    Set::new(|p: Seq<char>| m.has(p))
}

/// Plans the clearing away of what `old` records and `kept` does not hold.
/// `backup` is the list of files that are the user's to edit, `observed`
/// tells what exists in the prefix at the recorded paths, and `suffix` is put
/// to the name of a file that the user has edited. The result holds the
/// directories to remove, the longest path first, and all steps. Where a
/// file has to be compared and cannot be read, the plan fails.
pub fn cleanup_steps(
    old: &Manifest,
    backup: &Option<Vec<String>>,
    kept: &Manifest,
    observed: &Manifest,
    suffix: &str,
) -> (r: Result<(Vec<String>, Vec<FileAction>), PkgError>)
    ensures
        match r {
            Err(e) => e == PkgError::Io && !all_readable(
                entries_of(*old),
                paths_in(*kept),
                *observed,
                *backup,
            ),
            Ok((dirs, actions)) => {
                &&& all_readable(entries_of(*old), paths_in(*kept), *observed, *backup)
                &&& is_length_ordering(
                    reversed(texts(dirs@)),
                    paths_of(orphan_dirs(entries_of(*old), paths_in(*kept))),
                )
                &&& action_views(actions@) == cleanup(
                    entries_of(*old),
                    texts(dirs@),
                    paths_in(*kept),
                    *observed,
                    *backup,
                    suffix@,
                )
            },
        },
{
    let ghost all = entries_of(*old);
    let n = old.len();
    let mut actions: Vec<FileAction> = Vec::new();
    let mut dirs: Vec<String> = Vec::new();
    let mut i: usize = 0;
    proof {
        reveal(Seq::filter);
        assert(orphan_files(all.take(0), paths_in(*kept)) =~= Seq::<Entry>::empty());
        assert(orphan_dirs(all.take(0), paths_in(*kept)) =~= Seq::<Entry>::empty());
    }
    while i < n
        invariant
            n == old.keys().len(),
            i <= n,
            all == entries_of(*old),
            forall|j: int|
                0 <= j < i ==> !(is_orphan_file(#[trigger] all[j], paths_in(*kept)) && is_unreadable(
                    all[j],
                    *observed,
                    *backup,
                )),
            actions@.len() == orphan_files(all.take(i as int), paths_in(*kept)).len(),
            action_views(actions@) == disposals(
                orphan_files(all.take(i as int), paths_in(*kept)),
                *observed,
                *backup,
                suffix@,
            ),
            dirs@.len() == orphan_dirs(all.take(i as int), paths_in(*kept)).len(),
            texts(dirs@) == paths_of(orphan_dirs(all.take(i as int), paths_in(*kept))),
        decreases n - i,
    {
        let path = old.key_at(i);
        let digest = old.value_at(i);
        let ghost e = all[i as int];
        let ghost files = orphan_files(all.take(i as int), paths_in(*kept));
        let ghost folders = orphan_dirs(all.take(i as int), paths_in(*kept));
        proof {
            reveal(Seq::filter);
            assert(all.take(i + 1).drop_last() =~= all.take(i as int));
            assert(all.take(i + 1).last() == e);
            assert(e == (path@, opt_text(*digest)));
            assert(kept.has(path@) <==> kept@.dom().contains(path@));
        }
        if !kept.contains_key(path.as_str()) {
            match digest {
                None => {
                    let ghost done = texts(dirs@);
                    dirs.push(path.clone());
                    assert(texts(dirs@) =~= done.push(e.0));
                    assert(paths_of(folders.push(e)) =~= done.push(e.0));
                },
                Some(recorded) => {
                    let ghost done = action_views(actions@);
                    let found = look(observed, path.as_str());
                    assert(found.is_some() == observed.has(path@));
                    let step = match found {
                        None => FileAction::Missing { path: path.clone() },
                        Some(current) => {
                            if in_backup(backup, path.as_str()) {
                                match current {
                                    None => {
                                        return Err(PkgError::Io);
                                    },
                                    Some(sum) => {
                                        if same_text(sum.as_str(), recorded.as_str()) {
                                            FileAction::Delete { path: path.clone() }
                                        } else {
                                            FileAction::Move {
                                                from: path.clone(),
                                                to: with_suffix(path.as_str(), suffix),
                                            }
                                        }
                                    },
                                }
                            } else {
                                FileAction::Delete { path: path.clone() }
                            }
                        },
                    };
                    assert(step@ == disposal(e, *observed, *backup, suffix@));
                    actions.push(step);
                    assert(action_views(actions@) =~= done.push(
                        disposal(e, *observed, *backup, suffix@),
                    ));
                    assert(disposals(files.push(e), *observed, *backup, suffix@) =~= done.push(
                        disposal(e, *observed, *backup, suffix@),
                    ));
                },
            }
        }
        i += 1;
    }
    assert(all.take(n as int) =~= all);
    let ascending = sorted_by_length(dirs);
    let mut descending: Vec<String> = Vec::new();
    let m = ascending.len();
    let mut k: usize = 0;
    while k < m
        invariant
            m == ascending@.len(),
            k <= m,
            descending@.len() == k,
            forall|j: int| 0 <= j < k ==> #[trigger] texts(descending@)[j] == texts(ascending@)[m - 1 - j],
        decreases m - k,
    {
        let ghost done = texts(descending@);
        descending.push(ascending[m - 1 - k].clone());
        assert forall|j: int| 0 <= j < k + 1 implies #[trigger] texts(descending@)[j] == texts(
            ascending@,
        )[m - 1 - j] by {
            if j < k {
                assert(texts(descending@)[j] == done[j]);
            }
        }
        k += 1;
    }
    assert(reversed(texts(descending@)) =~= texts(ascending@));
    let ghost filed = action_views(actions@);
    let mut k: usize = 0;
    assert(action_views(actions@) =~= filed + dir_removals(texts(descending@).take(0), *observed));
    while k < m
        invariant
            m == descending@.len(),
            k <= m,
            action_views(actions@) == filed + dir_removals(
                texts(descending@).take(k as int),
                *observed,
            ),
        decreases m - k,
    {
        let path = &descending[k];
        let ghost done = action_views(actions@);
        let ghost p = texts(descending@)[k as int];
        proof {
            assert(texts(descending@).take(k + 1).drop_last() =~= texts(descending@).take(k as int));
            assert(texts(descending@).take(k + 1).last() == p);
        }
        let found = look(observed, path.as_str());
        assert(found.is_some() == observed.has(path@));
        if found.is_none() {
            actions.push(FileAction::Missing { path: path.clone() });
            assert(action_views(actions@) =~= done + dir_removal(p, *observed));
        } else if !leads_nowhere(path.as_str()) {
            actions.push(FileAction::RemoveDir { path: path.clone() });
            assert(action_views(actions@) =~= done + dir_removal(p, *observed));
        } else {
            assert(action_views(actions@) =~= done + dir_removal(p, *observed));
        }
        k += 1;
    }
    assert(texts(descending@).take(m as int) =~= texts(descending@));
    Ok((descending, actions))
}

/// Whether `path` is one of the files that the package lists as the user's to edit.
pub fn in_backup(backup: &Option<Vec<String>>, path: &str) -> (r: bool)
    ensures
        r == is_backup_file(*backup, path@),
{
    match backup {
        None => false,
        Some(list) => {
            let mut i: usize = 0;
            while i < list.len()
                invariant
                    i <= list.len(),
                    *backup == Some(*list),
                    forall|j: int| 0 <= j < i ==> #[trigger] texts(list@)[j] != path@,
                decreases list.len() - i,
            {
                if same_text(list[i].as_str(), path) {
                    assert(texts(list@)[i as int] == path@);
                    return true;
                }
                i += 1;
            }
            false
        },
    }
}

/// What the caller has seen at `path`.
pub fn look<'a>(observed: &'a Manifest, path: &str) -> (r: Option<&'a Option<String>>)
    ensures
        seen(*observed, path@) == match r {
            Some(o) => Some(opt_text(*o)),
            None => None,
        },
        r matches Some(o) ==> *o == observed.value_of(path@),
{
    assert(observed.has(path@) <==> observed@.dom().contains(path@));
    observed.get(path)
}

} // verus!
