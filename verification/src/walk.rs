//! What a walk through a directory tree has found, as lists of paths.

use vstd::prelude::*;
use crate::paths::{as_unix_path, joined};
use crate::text::texts;

verus! {

/// One entry that a walk has found: the components of its path, relative to
/// the directory where the walk began, and whether it is a directory.
#[derive(Debug, Clone, PartialEq)]
pub struct Found {
    pub components: Vec<String>,
    pub is_dir: bool,
}

/// The path of a found entry.
pub open spec fn path_of(found: Found) -> Seq<char> {
    joined(texts(found.components@), "/"@)
}

/// The paths of what was found: of the directories if `dirs` is set, else of
/// everything else. The directory where the walk began, whose path is empty,
/// is left out.
pub open spec fn found_paths(entries: Seq<Found>, dirs: bool) -> Seq<Seq<char>> {
    entries.filter(|f: Found| f.is_dir == dirs && path_of(f).len() > 0).map_values(
        |f: Found| path_of(f),
    )
}

/// Sorts what a walk has found into the paths of the directories and the
/// paths of the files, each in the order of the walk.
pub fn get_recursive_listing(entries: &Vec<Found>) -> (r: (Vec<String>, Vec<String>))
    ensures
        texts(r.0@) == found_paths(entries@, true),
        texts(r.1@) == found_paths(entries@, false),
{
    let mut ret_dirs: Vec<String> = Vec::new();
    let mut ret_files: Vec<String> = Vec::new();
    let ghost all = entries@;
    let mut i: usize = 0;
    proof {
        reveal(Seq::filter);
        assert(found_paths(all.take(0), true) =~= Seq::<Seq<char>>::empty());
        assert(found_paths(all.take(0), false) =~= Seq::<Seq<char>>::empty());
    }
    while i < entries.len()
        invariant
            i <= entries.len(),
            all == entries@,
            texts(ret_dirs@) == found_paths(all.take(i as int), true),
            texts(ret_files@) == found_paths(all.take(i as int), false),
        decreases entries.len() - i,
    {
        let entry = &entries[i];
        let path_str = as_unix_path(&entry.components, false);
        let ghost p = path_of(*entry);
        let ghost seen = all.take(i as int);
        proof {
            reveal(Seq::filter);
            assert(all.take(i + 1).drop_last() =~= seen);
            assert(all.take(i + 1).last() == *entry);
        }
        if path_str.as_str().unicode_len() > 0 {
            if entry.is_dir {
                let ghost done = texts(ret_dirs@);
                ret_dirs.push(path_str);
                assert(texts(ret_dirs@) =~= done.push(p));
                assert(seen.filter(|f: Found| f.is_dir == true && path_of(f).len() > 0).push(
                    *entry,
                ).map_values(|f: Found| path_of(f)) =~= done.push(p));
            } else {
                let ghost done = texts(ret_files@);
                ret_files.push(path_str);
                assert(texts(ret_files@) =~= done.push(p));
                assert(seen.filter(|f: Found| f.is_dir == false && path_of(f).len() > 0).push(
                    *entry,
                ).map_values(|f: Found| path_of(f)) =~= done.push(p));
            }
        }
        i += 1;
    }
    assert(all.take(entries.len() as int) =~= all);
    (ret_dirs, ret_files)
}

} // verus!
