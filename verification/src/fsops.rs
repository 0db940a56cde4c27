//! Deleting and moving files in a way that does not fail where another
//! process holds a file open: a file is first given another name, its
//! tombstone, and then unlinked.

use vstd::prelude::*;
use crate::model::PkgError;

verus! {

/// What stands at a path.
#[derive(Debug, Clone, Copy, PartialEq, Eq, Structural)]
pub enum PathKind {
    Nothing,
    File,
    Other,
}

/// Where the deletion of a file stands. `attempt` counts the tombstone
/// names that were tried and could not be cleared.
#[derive(Debug, Clone, Copy, PartialEq, Eq, Structural)]
pub enum DeleteState {
    Start,
    AwaitKind,
    AwaitTombstone { attempt: usize },
    AwaitCleared { attempt: usize },
    AwaitRenamed { attempt: usize },
    AwaitUnlinked,
    Done,
    Failed,
}

/// What the caller reports of the step that it was asked to take.
#[derive(Debug, Clone, Copy, PartialEq, Eq, Structural)]
pub enum DeleteEvent {
    Begin,
    /// What stands at the path to delete.
    Kind { kind: PathKind },
    /// Whether something stands at the tombstone name.
    Tombstone { exists: bool },
    /// Whether what stood at the tombstone name could be removed.
    Cleared { ok: bool },
    /// Whether the file could be given its tombstone name.
    Renamed { ok: bool },
    /// Whether the tombstone could be unlinked.
    Unlinked { ok: bool },
}

/// What the caller is asked to do next. A tombstone is named by its attempt.
#[derive(Debug, Clone, Copy, PartialEq, Eq, Structural)]
pub enum DeleteAction {
    /// Look what stands at the path.
    LookAtPath,
    /// Look whether something stands at the tombstone name.
    LookAtTombstone { attempt: usize },
    /// Remove what stands at the tombstone name.
    ClearTombstone { attempt: usize },
    /// Give the file its tombstone name.
    Rename { attempt: usize },
    /// Unlink the tombstone; if that fails, say so and go on.
    Unlink { attempt: usize },
    /// The file is gone, or was never there.
    Finish,
    /// Give up.
    Fail { error: PkgError },
}

/// The step that follows where the deletion stands in `state` and the
/// caller reports `event`. Nothing at the path is no error; something that
/// is no file is. A tombstone name that is taken is cleared; where that
/// fails, the next name is tried.
pub open spec fn next_delete(state: DeleteState, event: DeleteEvent) -> (DeleteState, DeleteAction) {
    match (state, event) {
        (DeleteState::Start, DeleteEvent::Begin) => (
            DeleteState::AwaitKind,
            DeleteAction::LookAtPath,
        ),
        (DeleteState::AwaitKind, DeleteEvent::Kind { kind }) => match kind {
            PathKind::Nothing => (DeleteState::Done, DeleteAction::Finish),
            PathKind::Other => (DeleteState::Failed, DeleteAction::Fail { error: PkgError::Io }),
            PathKind::File => (
                DeleteState::AwaitTombstone { attempt: 0 },
                DeleteAction::LookAtTombstone { attempt: 0 },
            ),
        },
        (DeleteState::AwaitTombstone { attempt }, DeleteEvent::Tombstone { exists }) => if exists {
            (DeleteState::AwaitCleared { attempt }, DeleteAction::ClearTombstone { attempt })
        } else {
            (DeleteState::AwaitRenamed { attempt }, DeleteAction::Rename { attempt })
        },
        (DeleteState::AwaitCleared { attempt }, DeleteEvent::Cleared { ok }) => if ok {
            (DeleteState::AwaitRenamed { attempt }, DeleteAction::Rename { attempt })
        } else if attempt < usize::MAX {
            (
                DeleteState::AwaitTombstone { attempt: (attempt + 1) as usize },
                DeleteAction::LookAtTombstone { attempt: (attempt + 1) as usize },
            )
        } else {
            (DeleteState::Failed, DeleteAction::Fail { error: PkgError::Io })
        },
        (DeleteState::AwaitRenamed { attempt }, DeleteEvent::Renamed { ok }) => if ok {
            (DeleteState::AwaitUnlinked, DeleteAction::Unlink { attempt })
        } else {
            (DeleteState::Failed, DeleteAction::Fail { error: PkgError::Io })
        },
        (DeleteState::AwaitUnlinked, DeleteEvent::Unlinked { ok }) => (
            DeleteState::Done,
            DeleteAction::Finish,
        ),
        _ => (DeleteState::Failed, DeleteAction::Fail { error: PkgError::Io }),
    }
}

/// `n` times the text `_delete`.
pub open spec fn delete_marks(n: nat) -> Seq<char>
    decreases n,
{
    if n == 0 {
        Seq::empty()
    } else {
        delete_marks((n - 1) as nat) + "_delete"@
    }
}

/// The tombstone name of a file at attempt number `attempt`.
pub open spec fn tombstone(path: Seq<char>, attempt: nat) -> Seq<char> {
    path + ".atxpkg_delete"@ + delete_marks(attempt)
}

/// Takes one step of the deletion of a file.
pub fn try_delete(state: DeleteState, event: DeleteEvent) -> (r: (DeleteState, DeleteAction))
    ensures
        r == next_delete(state, event),
{
    match (state, event) {
        (DeleteState::Start, DeleteEvent::Begin) => (
            DeleteState::AwaitKind,
            DeleteAction::LookAtPath,
        ),
        (DeleteState::AwaitKind, DeleteEvent::Kind { kind }) => match kind {
            PathKind::Nothing => (DeleteState::Done, DeleteAction::Finish),
            PathKind::Other => (DeleteState::Failed, DeleteAction::Fail { error: PkgError::Io }),
            PathKind::File => (
                DeleteState::AwaitTombstone { attempt: 0 },
                DeleteAction::LookAtTombstone { attempt: 0 },
            ),
        },
        (DeleteState::AwaitTombstone { attempt }, DeleteEvent::Tombstone { exists }) => {
            if exists {
                (DeleteState::AwaitCleared { attempt }, DeleteAction::ClearTombstone { attempt })
            } else {
                (DeleteState::AwaitRenamed { attempt }, DeleteAction::Rename { attempt })
            }
        },
        (DeleteState::AwaitCleared { attempt }, DeleteEvent::Cleared { ok }) => {
            if ok {
                (DeleteState::AwaitRenamed { attempt }, DeleteAction::Rename { attempt })
            } else if attempt < usize::MAX {
                (
                    DeleteState::AwaitTombstone { attempt: attempt + 1 },
                    DeleteAction::LookAtTombstone { attempt: attempt + 1 },
                )
            } else {
                (DeleteState::Failed, DeleteAction::Fail { error: PkgError::Io })
            }
        },
        (DeleteState::AwaitRenamed { attempt }, DeleteEvent::Renamed { ok }) => {
            if ok {
                (DeleteState::AwaitUnlinked, DeleteAction::Unlink { attempt })
            } else {
                (DeleteState::Failed, DeleteAction::Fail { error: PkgError::Io })
            }
        },
        (DeleteState::AwaitUnlinked, DeleteEvent::Unlinked { ok: _ }) => (
            DeleteState::Done,
            DeleteAction::Finish,
        ),
        _ => (DeleteState::Failed, DeleteAction::Fail { error: PkgError::Io }),
    }
}

/// The tombstone name of the file at `path` at attempt number `attempt`.
pub fn tombstone_name(path: &str, attempt: usize) -> (r: String)
    ensures
        r@ == tombstone(path@, attempt as nat),
{
    let mut name = path.to_owned();
    name.append(".atxpkg_delete");
    let mut i: usize = 0;
    while i < attempt
        invariant
            i <= attempt,
            name@ == tombstone(path@, i as nat),
        decreases attempt - i,
    {
        name.append("_delete");
        assert(name@ =~= tombstone(path@, (i + 1) as nat));
        i += 1;
    }
    name
}

/// How a move goes on after the attempt to rename the file.
#[derive(Debug, Clone, Copy, PartialEq, Eq, Structural)]
pub enum MoveStep {
    /// The file has its new name.
    Finish,
    /// Renaming is not supported between the two places: copy the file, then
    /// delete it at its old place.
    CopyThenDelete,
    /// Give up.
    Fail { error: PkgError },
}

/// What renaming a file ended in.
#[derive(Debug, Clone, Copy, PartialEq, Eq, Structural)]
pub enum RenameResult {
    Done,
    Unsupported,
    Refused,
}

/// How a move goes on after the attempt to rename the file. The target was
/// deleted beforehand.
pub fn move_file(renamed: RenameResult) -> (r: MoveStep)
    ensures
        r == match renamed {
            RenameResult::Done => MoveStep::Finish,
            RenameResult::Unsupported => MoveStep::CopyThenDelete,
            RenameResult::Refused => MoveStep::Fail { error: PkgError::Io },
        },
{
    match renamed {
        RenameResult::Done => MoveStep::Finish,
        RenameResult::Unsupported => MoveStep::CopyThenDelete,
        RenameResult::Refused => MoveStep::Fail { error: PkgError::Io },
    }
}

} // verus!
