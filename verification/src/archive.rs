//! Extracting an archive into the staging directory.

use vstd::prelude::*;
use crate::text::chars_of;

verus! {

/// What an archive tells of one of its entries.
#[derive(Debug, Clone, PartialEq)]
pub struct ArchiveEntry {
    /// The entry's path in the archive.
    pub name: String,
    /// The permission bits, where the archive holds them.
    pub unix_mode: Option<u32>,
    /// When the entry was last modified, in seconds since the Unix epoch,
    /// where the archive tells.
    pub modified: Option<i64>,
}

/// How one entry is extracted.
#[derive(Debug, Clone, PartialEq)]
pub struct ExtractStep {
    /// The path below the staging directory.
    pub name: String,
    /// Whether a directory is made, with all directories above it; else a
    /// file is written, after the directories above it were made.
    pub is_dir: bool,
    /// The permission bits to set.
    pub mode: u32,
    /// The time to set as the time of the last access and of the last
    /// modification; none to leave the times as they are.
    pub modified: Option<i64>,
}

/// The permission bits of an entry for which the archive holds none.
pub open spec fn default_mode() -> u32 {
    0o755
}

/// An entry whose name ends with `/` is a directory.
pub open spec fn names_dir(name: Seq<char>) -> bool {
    name.len() > 0 && name.last() == '/'
}

/// `step` extracts `entry`: under the entry's name, as a directory or as a
/// file, with the permission bits that the archive holds or else the
/// default ones, and with the entry's time.
pub open spec fn extracts(step: ExtractStep, entry: ArchiveEntry) -> bool {
    &&& step.name@ == entry.name@
    &&& step.is_dir == names_dir(entry.name@)
    &&& step.mode == match entry.unix_mode {
        Some(mode) => mode,
        None => default_mode(),
    }
    &&& step.modified == entry.modified
}

/// Plans the extraction of an archive: one step for each entry, in the order
/// of the archive.
pub fn unzip_to(entries: &Vec<ArchiveEntry>) -> (r: Vec<ExtractStep>)
    ensures
        r@.len() == entries@.len(),
        forall|i: int| 0 <= i < entries@.len() ==> extracts(#[trigger] r@[i], entries@[i]),
{
    let mut steps: Vec<ExtractStep> = Vec::new();
    let mut i: usize = 0;
    while i < entries.len()
        invariant
            i <= entries.len(),
            steps@.len() == i,
            forall|j: int| 0 <= j < i ==> extracts(#[trigger] steps@[j], entries@[j]),
        decreases entries.len() - i,
    {
        let entry = &entries[i];
        let chars = chars_of(entry.name.as_str());
        let is_dir = chars.len() > 0 && chars[chars.len() - 1] == '/';
        let mode = match entry.unix_mode {
            Some(mode) => mode,
            None => 0o755,
        };
        steps.push(ExtractStep { name: entry.name.clone(), is_dir, mode, modified: entry.modified });
        i += 1;
    }
    steps
}

} // verus!
