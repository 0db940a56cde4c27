//! What the command line is turned into before an operation runs.

use vstd::prelude::*;
use crate::lines::{entries_in, read_lines};
use crate::model::InstalledDb;
use crate::paths::{is_ascending, sorted_texts};
use crate::text::{chars_of, copy_strings, slice_string, texts};

verus! {

/// The index of the first comma in `s`, or the length of `s` if it has none.
pub open spec fn first_comma(s: Seq<char>) -> int
    decreases s.len(),
{
    if s.len() == 0 || s[0] == ',' {
        0
    } else {
        1 + first_comma(s.skip(1))
    }
}

/// The parts of a text between its commas, in their order.
pub open spec fn comma_parts(s: Seq<char>) -> Seq<Seq<char>>
    decreases s.len(),
{
    let k = first_comma(s);
    if 0 <= k < s.len() {
        seq![s.take(k)] + comma_parts(s.skip(k + 1))
    } else {
        seq![s]
    }
}

/// A package as it is shown: its name, and after a hyphen its version if
/// one is given.
pub open spec fn shown(name: Seq<char>, version: Seq<char>) -> Seq<char> {
    if version.len() == 0 {
        name
    } else {
        name + "-"@ + version
    }
}

proof fn lemma_first_comma_is(s: Seq<char>, k: int)
    requires
        0 <= k <= s.len(),
        forall|j: int| 0 <= j < k ==> #[trigger] s[j] != ',',
        k < s.len() ==> s[k] == ',',
    ensures
        first_comma(s) == k,
    decreases k,
{
    if k > 0 {
        assert(s[0] != ',');
        assert forall|j: int| 0 <= j < k - 1 implies #[trigger] s.skip(1)[j] != ',' by {
            assert(s[j + 1] != ',');
        }
        lemma_first_comma_is(s.skip(1), k - 1);
    }
}

/// The repositories to use: the cache, and then the entries of the
/// configuration file, if there is one.
pub fn repo_list(cache_dir: &str, config: Option<&str>) -> (r: Vec<String>)
    ensures
        texts(r@) == seq![cache_dir@] + match config {
            Some(content) => entries_in(content@),
            None => Seq::empty(),
        },
{
    let mut repos: Vec<String> = Vec::new();
    repos.push(cache_dir.to_owned());
    assert(texts(repos@) =~= seq![cache_dir@]);
    match config {
        Some(content) => {
            let mut lines = read_lines(content);
            let ghost first = texts(repos@);
            let ghost rest = texts(lines@);
            repos.append(&mut lines);
            assert(texts(repos@) =~= first + rest);
        },
        None => {
            assert(texts(repos@) =~= seq![cache_dir@] + Seq::<Seq<char>>::empty());
        },
    }
    repos
}

/// The packages that an operation works on: those asked for, or with none
/// asked for all installed packages in ascending order of their names.
pub fn requests_or_all(packages: Vec<String>, installed_packages: &InstalledDb) -> (r: Vec<String>)
    ensures
        packages@.len() > 0 ==> texts(r@) == texts(packages@),
        packages@.len() == 0 ==> is_ascending(texts(r@)) && texts(r@).to_multiset()
            == installed_packages.keys().to_multiset(),
{
    if packages.len() > 0 {
        return copy_strings(&packages);
    }
    let mut names: Vec<String> = Vec::new();
    let mut i: usize = 0;
    while i < installed_packages.len()
        invariant
            i <= installed_packages.keys().len(),
            names@.len() == i,
            texts(names@) == installed_packages.keys().take(i as int),
        decreases installed_packages.keys().len() - i,
    {
        let ghost done = texts(names@);
        names.push(installed_packages.key_at(i).clone());
        assert(texts(names@) =~= done.push(installed_packages.keys()[i as int]));
        assert(texts(names@) =~= installed_packages.keys().take(i + 1));
        i += 1;
    }
    assert(installed_packages.keys().take(i as int) =~= installed_packages.keys());
    sorted_texts(names)
}

/// The names in a list whose entries are separated by commas.
pub fn split_names(list: &str) -> (r: Vec<String>)
    ensures
        texts(r@) == comma_parts(list@),
{
    let chars = chars_of(list);
    let n = chars.len();
    let mut out: Vec<String> = Vec::new();
    let mut start: usize = 0;
    assert(list@.skip(0) =~= list@);
    assert(Seq::<Seq<char>>::empty() + comma_parts(list@) =~= comma_parts(list@));
    loop
        invariant
            chars@ == list@,
            n == chars.len(),
            start <= n,
            comma_parts(list@) == texts(out@) + comma_parts(list@.skip(start as int)),
        decreases n - start,
    {
        let ghost rest = list@.skip(start as int);
        let mut k: usize = start;
        while k < n && chars[k] != ','
            invariant
                chars@ == list@,
                n == chars.len(),
                start <= k <= n,
                rest == list@.skip(start as int),
                forall|j: int| 0 <= j < k - start ==> #[trigger] rest[j] != ',',
            decreases n - k,
        {
            assert(rest[k - start] == chars@[k as int]);
            k += 1;
        }
        proof {
            if k < n {
                assert(rest[k - start] == chars@[k as int]);
            }
            lemma_first_comma_is(rest, k - start);
            assert(rest.take(k - start) =~= list@.subrange(start as int, k as int));
        }
        let ghost done = texts(out@);
        out.push(slice_string(list, start, k));
        assert(texts(out@) =~= done.push(rest.take(k - start)));
        if k == n {
            assert(rest.take(k - start) =~= rest);
            assert(done + seq![rest] =~= done.push(rest));
            return out;
        }
        assert(rest.skip(k - start + 1) =~= list@.skip(k + 1));
        assert(done + (seq![rest.take(k - start)] + comma_parts(rest.skip(k - start + 1)))
            =~= done.push(rest.take(k - start)) + comma_parts(rest.skip(k - start + 1)));
        start = k + 1;
    }
}

/// A package as it is shown.
pub fn describe(name: &str, version: &str) -> (r: String)
    ensures
        r@ == shown(name@, version@),
{
    let mut text = name.to_owned();
    if version.unicode_len() > 0 {
        text.append("-");
        text.append(version);
    }
    text
}

} // verus!
