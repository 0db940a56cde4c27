//! Relative paths under the prefix: side-file names, hidden entries, and the
//! order in which directories are made and removed.

use vstd::prelude::*;
use vstd::utf8::encode_utf8;
use itertools::Itertools;
use crate::text::{chars_of, starts_with, texts};

verus! {

/// The length of a path in bytes.
pub open spec fn byte_len(path: Seq<char>) -> nat {
    encode_utf8(path).len()
}

/// The paths in `paths` that are `n` bytes long, in their order.
pub open spec fn of_length(paths: Seq<Seq<char>>, n: nat) -> Seq<Seq<char>> {
    paths.filter(|p: Seq<char>| byte_len(p) == n)
}

/// `sorted` holds the paths of `given` by ascending length, paths of one
/// length in the order in which `given` has them.
pub open spec fn is_length_ordering(sorted: Seq<Seq<char>>, given: Seq<Seq<char>>) -> bool {
    &&& sorted.len() == given.len()
    &&& forall|i: int, j: int|
        0 <= i < j < sorted.len() ==> byte_len(#[trigger] sorted[i]) <= byte_len(
            #[trigger] sorted[j],
        )
    &&& forall|n: nat| #[trigger] of_length(sorted, n) == of_length(given, n)
}

/// The parts joined, with `sep` between each two.
pub open spec fn joined(parts: Seq<Seq<char>>, sep: Seq<char>) -> Seq<char>
    decreases parts.len(),
{
    if parts.len() == 0 {
        Seq::empty()
    } else if parts.len() == 1 {
        parts[0]
    } else {
        joined(parts.drop_last(), sep) + sep + parts.last()
    }
}

/// An entry that belongs to the package manager itself and is never placed
/// under the prefix.
pub open spec fn is_hidden(path: Seq<char>) -> bool {
    ".atxpkg_"@.is_prefix_of(path)
}

/// The index of the first `/` in `path`, or its length if it has none.
pub open spec fn first_slash(path: Seq<char>) -> int
    decreases path.len(),
{
    if path.len() == 0 || path[0] == '/' {
        0
    } else {
        1 + first_slash(path.skip(1))
    }
}

/// The first component of a path: what stands before its first `/`.
pub open spec fn top_component(path: Seq<char>) -> Seq<char> {
    path.take(first_slash(path))
}

/// Whether a relative path leads nowhere: it holds only `/` and single `.`
/// components, so that joined to a directory it names that directory.
pub open spec fn names_no_entry(path: Seq<char>) -> bool {
    &&& forall|i: int| 0 <= i < path.len() ==> (#[trigger] path[i] == '/' || path[i] == '.')
    &&& forall|i: int| 0 <= i < path.len() - 1 ==> !(#[trigger] path[i] == '.' && path[i + 1] == '.')
}

/// The length of a path in bytes.
pub fn path_length(path: &String) -> (r: usize)
    ensures
        r == byte_len(path@),
{
    path.as_str().as_bytes().len()
}

/// Orders paths by length with `sorted_by_key` of itertools, which collects
/// them and sorts with the stable `sort_by_key` of the standard library.
/// Trusted: the result holds the given paths by ascending length in bytes,
/// and paths of equal length keep their order.
#[verifier::external_body]
pub(crate) fn sorted_by_length(paths: Vec<String>) -> (r: Vec<String>)
    ensures
        is_length_ordering(texts(r@), texts(paths@)),
{
    paths.into_iter().sorted_by_key(|p| path_length(p)).collect()
}

/// Whether a list of strings is in ascending order.
pub open spec fn is_ascending(v: Seq<Seq<char>>) -> bool {
    forall|i: int, j: int|
        0 <= i < j < v.len() ==> crate::text::text_less(#[trigger] v[i], #[trigger] v[j]) || v[i]
            == v[j]
}

/// Sorts strings with `sorted` of itertools, which collects them and sorts
/// with `sort` of the standard library. Trusted: the result holds the given
/// strings, each as often as given, in ascending order; strings are ordered
/// by their bytes, which for UTF-8 is the order of their code points.
#[verifier::external_body]
pub(crate) fn sorted_texts(v: Vec<String>) -> (r: Vec<String>)
    ensures
        is_ascending(texts(r@)),
        texts(r@).to_multiset() == texts(v@).to_multiset(),
{
    v.into_iter().sorted().collect()
}

/// Joins strings with `join` of itertools. Trusted: the result is the parts
/// in their order with `sep` between each two, and empty for no parts.
#[verifier::external_body]
pub(crate) fn join_with(parts: &Vec<String>, sep: &str) -> (r: String)
    ensures
        r@ == joined(texts(parts@), sep@),
{
    parts.iter().join(sep)
}

/// Writes a path with `/` between its components; an absolute path gets a
/// leading `/`.
pub fn as_unix_path(components: &Vec<String>, absolute: bool) -> (r: String)
    ensures
        r@ == if absolute {
            "/"@ + joined(texts(components@), "/"@)
        } else {
            joined(texts(components@), "/"@)
        },
{
    let body = join_with(components, "/");
    if absolute {
        let mut r = "/".to_owned();
        r.append(body.as_str());
        r
    } else {
        body
    }
}

/// Whether an entry belongs to the package manager itself.
pub fn hidden(path: &str) -> (r: bool)
    ensures
        r == is_hidden(path@),
{
    let chars = chars_of(path);
    let mark = chars_of(".atxpkg_");
    starts_with(&chars, &mark)
}

/// The path with `suffix` appended.
pub fn with_suffix(path: &str, suffix: &str) -> (r: String)
    ensures
        r@ == path@ + suffix@,
{
    let mut r = path.to_owned();
    r.append(suffix);
    r
}

/// Whether a relative path leads nowhere.
pub fn leads_nowhere(path: &str) -> (r: bool)
    ensures
        r == names_no_entry(path@),
{
    let chars = chars_of(path);
    let mut i: usize = 0;
    while i < chars.len()
        invariant
            chars@ == path@,
            i <= chars.len(),
            forall|j: int| 0 <= j < i ==> (#[trigger] chars@[j] == '/' || chars@[j] == '.'),
            forall|j: int| 0 <= j < i - 1 ==> !(#[trigger] chars@[j] == '.' && chars@[j + 1] == '.'),
        decreases chars.len() - i,
    {
        let c = chars[i];
        if c != '/' && c != '.' {
            return false;
        }
        if i > 0 && c == '.' && chars[i - 1] == '.' {
            assert(chars@[i - 1] == '.' && chars@[i - 1 + 1] == '.');
            return false;
        }
        i += 1;
    }
    true
}

/// The first component of a path.
pub fn first_component(path: &str) -> (r: String)
    ensures
        r@ == top_component(path@),
{
    let chars = chars_of(path);
    let mut i: usize = 0;
    assert(path@.skip(0) =~= path@);
    while i < chars.len() && chars[i] != '/'
        invariant
            chars@ == path@,
            i <= chars.len(),
            first_slash(path@) == i + first_slash(path@.skip(i as int)),
        decreases chars.len() - i,
    {
        assert(path@.skip(i as int).skip(1) =~= path@.skip(i + 1));
        i += 1;
    }
    assert(path@.take(i as int) =~= path@.subrange(0, i as int));
    crate::text::slice_string(path, 0, i)
}

} // verus!
