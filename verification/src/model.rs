//! The records that the installed-package database holds, and the errors that
//! the operations on it report.

use vstd::prelude::*;
use crate::table::NameMap;

verus! {

/// Why an operation was refused. A `request` is the index of the offending
/// entry in the list of requests that the operation was given, a `file` the
/// index of the offending file in its list of staged files.
#[derive(Debug, Clone, Copy, PartialEq, Eq, Structural)]
pub enum PkgError {
    /// The request names a package, or a version of it, that is not installed.
    NotInstalled { request: usize },
    /// The request would install a package that is installed already.
    AlreadyInstalled { request: usize },
    /// No repository offers the package, or the version of it, that is asked for.
    NotAvailable { request: usize },
    /// A file of the package exists under the prefix already.
    FileExists { file: usize },
    /// A file of the new version exists under the prefix and does not belong
    /// to the version that is being replaced.
    ForeignFile { file: usize },
    /// A download did not succeed.
    DownloadFailed,
    /// Some other operation on the file system failed.
    Io,
    /// A package that the operation was made to depend on is not installed.
    PreconditionFailed { request: usize },
    /// A check found this many differences between the records and the prefix.
    CheckFailed { count: usize },
}

/// The index of the request that an error speaks of; -1 if it speaks of none.
pub open spec fn request_of(e: PkgError) -> int {
    match e {
        PkgError::NotInstalled { request } => request as int,
        PkgError::AlreadyInstalled { request } => request as int,
        PkgError::NotAvailable { request } => request as int,
        PkgError::PreconditionFailed { request } => request as int,
        _ => -1,
    }
}

/// `i` is the index of the first request that is refused.
pub open spec fn is_first_refusal(refusals: Seq<Option<PkgError>>, i: int) -> bool {
    &&& 0 <= i < refusals.len()
    &&& refusals[i] is Some
    &&& forall|j: int| 0 <= j < i ==> #[trigger] refusals[j] is None
}

/// No request is refused.
pub open spec fn no_refusal(refusals: Seq<Option<PkgError>>) -> bool {
    forall|j: int| 0 <= j < refusals.len() ==> #[trigger] refusals[j] is None
}

/// `e` is the refusal of the first request that is refused.
pub open spec fn is_first_error(refusals: Seq<Option<PkgError>>, e: PkgError) -> bool {
    is_first_refusal(refusals, request_of(e)) && refusals[request_of(e)] == Some(e)
}

/// A point in time: seconds and nanoseconds since the Unix epoch.
#[derive(Debug, Clone, Copy, PartialEq, Eq, Structural)]
pub struct Timestamp {
    pub secs: u64,
    pub nanos: u32,
}

/// The paths that a package owns: each file with the MD5 digest of its
/// content in hexadecimal, each directory with no digest.
pub type Manifest = NameMap<Option<String>>;

/// What is recorded of an installed package.
#[derive(Debug, Clone, PartialEq)]
pub struct InstalledPackage {
    /// When the package was installed or last updated.
    pub t: Option<Timestamp>,
    /// The version, as the archive's file name gives it.
    pub version: String,
    /// The paths that the package owns, relative to the prefix.
    pub md5sums: Manifest,
    /// The files that the user may edit and that are kept across updates.
    pub backup: Option<Vec<String>>,
}

/// The installed packages by name.
pub type InstalledDb = NameMap<InstalledPackage>;

/// The addresses of the archives that the repositories offer, by package name.
pub type AvailablePackages = NameMap<Vec<String>>;

/// The text of an optional string.
pub open spec fn opt_text(o: Option<String>) -> Option<Seq<char>> {
    match o {
        Some(s) => Some(s@),
        None => None,
    }
}

} // verus!
