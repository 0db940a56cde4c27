//! The download cache: fetching an archive once, and resuming a fetch that
//! was broken off.

use vstd::prelude::*;
use crate::model::PkgError;
use crate::names::{file_name_of, get_package_fn, is_url, spec_is_url};

verus! {

/// Where a fetch stands.
#[derive(Debug, Clone, Copy, PartialEq, Eq, Structural)]
pub enum FetchState {
    /// Nothing was done yet.
    Start,
    /// The caller looks whether the archive is in the cache.
    AwaitCached,
    /// The caller looks for a partial file of an earlier fetch.
    AwaitPartial,
    /// The caller asks the server whether it serves ranges; the partial file
    /// holds `partial` bytes.
    AwaitProbe { partial: u64 },
    /// The caller asks the server for the archive from byte `resume_from` on.
    AwaitResponse { resume_from: u64 },
    /// The caller stores what the server sends.
    AwaitStored,
    /// The archive is at hand.
    Done,
    /// The fetch has failed.
    Failed,
}

/// What the caller reports of the step that it was asked to take.
#[derive(Debug, Clone, Copy, PartialEq, Eq, Structural)]
pub enum FetchEvent {
    /// The fetch begins.
    Begin,
    /// Whether the archive is in the cache.
    Cached { present: bool },
    /// The length of the partial file, if there is one.
    Partial { length: Option<u64> },
    /// How the server answered the probe.
    Probed { success: bool, accepts_ranges: bool },
    /// Whether the server answered the request with success.
    Response { success: bool },
    /// The archive was stored and given its name.
    Stored,
}

/// What the caller is asked to do next.
#[derive(Debug, Clone, Copy, PartialEq, Eq, Structural)]
pub enum FetchAction {
    /// Use the address itself: it names a local file.
    UseLocal,
    /// Look whether the archive is in the cache.
    CheckCached,
    /// Look for the partial file.
    CheckPartial,
    /// Ask the server whether it serves ranges.
    Probe,
    /// Ask the server for the archive, from byte `resume_from` on.
    Get { resume_from: u64 },
    /// Write what the server sends to the partial file, after what the file
    /// holds if `append` is set and in place of it if not, and give the file
    /// the archive's name.
    Store { append: bool },
    /// Use the archive in the cache.
    UseCached,
    /// Give up.
    Fail { error: PkgError },
}

/// The step that follows where the fetch of a remote or local archive stands
/// in `state` and the caller reports `event`.
pub open spec fn next_fetch(remote: bool, state: FetchState, event: FetchEvent) -> (
    FetchState,
    FetchAction,
) {
    match (state, event) {
        (FetchState::Start, FetchEvent::Begin) => if remote {
            (FetchState::AwaitCached, FetchAction::CheckCached)
        } else {
            (FetchState::Done, FetchAction::UseLocal)
        },
        (FetchState::AwaitCached, FetchEvent::Cached { present }) => if present {
            (FetchState::Done, FetchAction::UseCached)
        } else {
            (FetchState::AwaitPartial, FetchAction::CheckPartial)
        },
        (FetchState::AwaitPartial, FetchEvent::Partial { length }) => match length {
            Some(partial) => (FetchState::AwaitProbe { partial }, FetchAction::Probe),
            None => (
                FetchState::AwaitResponse { resume_from: 0 },
                FetchAction::Get { resume_from: 0 },
            ),
        },
        (FetchState::AwaitProbe { partial }, FetchEvent::Probed { success, accepts_ranges }) => {
            let resume_from = if success && accepts_ranges {
                partial
            } else {
                0
            };
            (FetchState::AwaitResponse { resume_from }, FetchAction::Get { resume_from })
        },
        (FetchState::AwaitResponse { resume_from }, FetchEvent::Response { success }) => if success {
            (FetchState::AwaitStored, FetchAction::Store { append: resume_from > 0 })
        } else {
            (FetchState::Failed, FetchAction::Fail { error: PkgError::DownloadFailed })
        },
        (FetchState::AwaitStored, FetchEvent::Stored) => (FetchState::Done, FetchAction::UseCached),
        _ => (FetchState::Failed, FetchAction::Fail { error: PkgError::Io }),
    }
}

/// Whether a step talks to the server.
pub open spec fn uses_network(action: FetchAction) -> bool {
    action is Probe || action is Get
}

/// The decimal digits of a number.
pub open spec fn decimal_digits(n: nat) -> Seq<char>
    decreases n,
{
    let last = "0123456789"@[(n % 10) as int];
    if n < 10 {
        seq![last]
    } else {
        decimal_digits(n / 10).push(last)
    }
}

/// The range that is asked of the server to resume at byte `resume_from`.
pub open spec fn range_text(resume_from: u64) -> Seq<char> {
    "bytes="@ + decimal_digits(resume_from as nat) + "-"@
}

/// The name of an archive in the cache.
pub open spec fn cached_name(url: Seq<char>, cache_dir: Seq<char>) -> Seq<char> {
    cache_dir + "/"@ + file_name_of(url)
}

/// The name of the partial file of an archive in the cache.
pub open spec fn partial_name(url: Seq<char>, cache_dir: Seq<char>) -> Seq<char> {
    cached_name(url, cache_dir) + "_"@
}

/// Takes one step of the fetch of the archive at `url`.
pub fn download_package_if_needed(url: &str, state: FetchState, event: FetchEvent) -> (r: (
    FetchState,
    FetchAction,
))
    ensures
        r == next_fetch(spec_is_url(url@), state, event),
{
    let remote = is_url(url);
    match (state, event) {
        (FetchState::Start, FetchEvent::Begin) => {
            if remote {
                (FetchState::AwaitCached, FetchAction::CheckCached)
            } else {
                (FetchState::Done, FetchAction::UseLocal)
            }
        },
        (FetchState::AwaitCached, FetchEvent::Cached { present }) => {
            if present {
                (FetchState::Done, FetchAction::UseCached)
            } else {
                (FetchState::AwaitPartial, FetchAction::CheckPartial)
            }
        },
        (FetchState::AwaitPartial, FetchEvent::Partial { length }) => {
            match length {
                Some(partial) => (FetchState::AwaitProbe { partial }, FetchAction::Probe),
                None => (
                    FetchState::AwaitResponse { resume_from: 0 },
                    FetchAction::Get { resume_from: 0 },
                ),
            }
        },
        (FetchState::AwaitProbe { partial }, FetchEvent::Probed { success, accepts_ranges }) => {
            let resume_from = if success && accepts_ranges {
                partial
            } else {
                0
            };
            (FetchState::AwaitResponse { resume_from }, FetchAction::Get { resume_from })
        },
        (FetchState::AwaitResponse { resume_from }, FetchEvent::Response { success }) => {
            if success {
                (FetchState::AwaitStored, FetchAction::Store { append: resume_from > 0 })
            } else {
                (FetchState::Failed, FetchAction::Fail { error: PkgError::DownloadFailed })
            }
        },
        (FetchState::AwaitStored, FetchEvent::Stored) => (FetchState::Done, FetchAction::UseCached),
        _ => (FetchState::Failed, FetchAction::Fail { error: PkgError::Io }),
    }
}

/// The name of the archive at `url` in the cache, and the name of its partial file.
pub fn cache_names(url: &str, cache_dir: &str) -> (r: (String, String))
    ensures
        r.0@ == cached_name(url@, cache_dir@),
        r.1@ == partial_name(url@, cache_dir@),
{
    let file_name = match get_package_fn(url) {
        Some(f) => f,
        None => String::new(),
    };
    let mut target = cache_dir.to_owned();
    target.append("/");
    target.append(file_name.as_str());
    let mut partial = target.clone();
    partial.append("_");
    (target, partial)
}

/// Whether a header value says that the server serves ranges of bytes.
pub fn accepts_byte_ranges(accept_ranges: Option<&str>) -> (r: bool)
    ensures
        r == match accept_ranges {
            Some(value) => value@ == "bytes"@,
            None => false,
        },
{
    match accept_ranges {
        Some(value) => crate::text::same_text(value, "bytes"),
        None => false,
    }
}

/// Writes the range to ask for with the standard library's formatting of
/// integers. Trusted: the result is `bytes=`, the decimal digits of
/// `resume_from` and a hyphen.
#[verifier::external_body]
pub(crate) fn format_range(resume_from: u64) -> (r: String)
    ensures
        r@ == range_text(resume_from),
{
    format!("bytes={resume_from}-")
}

/// The range to ask of the server: none to fetch the whole archive, else
/// the bytes from `resume_from` on.
pub fn range_header(resume_from: u64) -> (r: Option<String>)
    ensures
        match r {
            Some(value) => resume_from > 0 && value@ == range_text(resume_from),
            None => resume_from == 0,
        },
{
    if resume_from > 0 {
        Some(format_range(resume_from))
    } else {
        None
    }
}

/// Where the fetch stands after the first `n` of the reports `events`.
pub open spec fn state_after(remote: bool, events: Seq<FetchEvent>, n: int) -> FetchState
    decreases n,
{
    if n <= 0 {
        FetchState::Start
    } else {
        next_fetch(remote, state_after(remote, events, n - 1), events[n - 1]).0
    }
}

/// The step that the caller is asked to take after report number `k`.
pub open spec fn action_after(remote: bool, events: Seq<FetchEvent>, k: int) -> FetchAction {
    next_fetch(remote, state_after(remote, events, k), events[k]).1
}

/// Whether one of the first `n` reports says that the archive is not in the cache.
pub open spec fn missed(events: Seq<FetchEvent>, n: int) -> bool {
    exists|j: int| 0 <= j < n && #[trigger] events[j] == (FetchEvent::Cached { present: false })
}

/// A fetch is on its way to the server only after the archive was found
/// missing from the cache.
proof fn lemma_on_the_way(remote: bool, events: Seq<FetchEvent>, n: int)
    requires
        0 <= n <= events.len(),
    ensures
        ({
            let state = state_after(remote, events, n);
            state is AwaitPartial || state is AwaitProbe || state is AwaitResponse || state
                is AwaitStored
        }) ==> missed(events, n),
    decreases n,
{
    if n > 0 {
        lemma_on_the_way(remote, events, n - 1);
        if missed(events, n - 1) {
            let j = choose|j: int|
                0 <= j < n - 1 && #[trigger] events[j] == (FetchEvent::Cached { present: false });
            assert(0 <= j < n);
        }
        let state = state_after(remote, events, n);
        if state is AwaitPartial && !missed(events, n - 1) {
            assert(events[n - 1] == (FetchEvent::Cached { present: false }));
        }
    }
}

/// Whatever the caller reports, and in whatever order, the server is asked
/// only after the archive was found missing from the cache: an archive that
/// is in the cache, and a local file, are used without a word to the server.
pub proof fn lemma_network_only_after_miss(remote: bool, events: Seq<FetchEvent>, k: int)
    requires
        0 <= k < events.len(),
        uses_network(action_after(remote, events, k)),
    ensures
        missed(events, k),
{
    lemma_on_the_way(remote, events, k);
}

/// A fetch that finds a partial file asks the server whether it serves
/// ranges. If it does, the archive is asked for from the end of the partial
/// file on, and what comes is appended to the file; if it does not, or if
/// there is no partial file, the whole archive is asked for, and what comes
/// replaces what the file held.
pub proof fn lemma_resume(remote: bool, partial: u64, success: bool, accepts_ranges: bool)
    ensures
        next_fetch(remote, FetchState::AwaitPartial, FetchEvent::Partial { length: Some(partial) })
            == (FetchState::AwaitProbe { partial }, FetchAction::Probe),
        next_fetch(remote, FetchState::AwaitPartial, FetchEvent::Partial { length: None }).1
            == (FetchAction::Get { resume_from: 0 }),
        ({
            let resumed = next_fetch(
                remote,
                FetchState::AwaitProbe { partial },
                FetchEvent::Probed { success, accepts_ranges },
            );
            let from = if success && accepts_ranges {
                partial
            } else {
                0
            };
            &&& resumed == (
                FetchState::AwaitResponse { resume_from: from },
                FetchAction::Get { resume_from: from },
            )
            &&& next_fetch(remote, resumed.0, FetchEvent::Response { success: true }) == (
                FetchState::AwaitStored,
                FetchAction::Store { append: from > 0 },
            )
        }),
{
}

} // verus!
