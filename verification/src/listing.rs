//! What a repository lists: the archives in a directory, and the links in
//! the index page of a remote repository.

use vstd::prelude::*;
use crate::lines::{is_space, is_space_char};
use crate::names::archive_suffix;
use crate::text::{chars_of, ends_with, matches_at, slice_string, texts};

verus! {

/// A quotation mark.
pub open spec fn is_quote(c: char) -> bool {
    c == '"' || c == '\''
}

/// A character that may stand in the address of a link.
pub open spec fn is_address_char(c: char) -> bool {
    !is_quote(c) && !is_space(c) && c != '>'
}

/// The first index from `i` on that holds no white space, or the length of `s`.
pub open spec fn after_spaces(s: Seq<char>, i: int) -> int
    decreases s.len() - i,
{
    if 0 <= i < s.len() && is_space(s[i]) {
        after_spaces(s, i + 1)
    } else {
        i
    }
}

/// The first index from `i` on that holds no address character, or the length of `s`.
pub open spec fn address_end(s: Seq<char>, i: int) -> int
    decreases s.len() - i,
{
    if 0 <= i < s.len() && is_address_char(s[i]) {
        address_end(s, i + 1)
    } else {
        i
    }
}

/// A link that starts at index `i`: the word `href`, an equals sign with or
/// without white space around it, and an address with or without a quotation
/// mark before it and after it. The result gives where the address starts,
/// where it ends, and where the link ends.
pub open spec fn link_at(s: Seq<char>, i: int) -> Option<(int, int, int)> {
    if 0 <= i && i + 4 <= s.len() && s.subrange(i, i + 4) == "href"@ {
        let a = after_spaces(s, i + 4);
        if a < s.len() && s[a] == '=' {
            let b = after_spaces(s, a + 1);
            let v = if b < s.len() && is_quote(s[b]) {
                b + 1
            } else {
                b
            };
            let e = address_end(s, v);
            if e > v {
                Some(
                    (
                        v,
                        e,
                        if e < s.len() && is_quote(s[e]) {
                            e + 1
                        } else {
                            e
                        },
                    ),
                )
            } else {
                None
            }
        } else {
            None
        }
    } else {
        None
    }
}

/// The addresses of the links in `s` from index `i` on, in their order. A
/// link is looked for at each index in turn, and after a link at its end.
pub open spec fn links_from(s: Seq<char>, i: int) -> Seq<Seq<char>>
    decreases s.len() - i,
{
    if i < 0 || i >= s.len() {
        Seq::empty()
    } else {
        match link_at(s, i) {
            Some((v, e, m)) => if i < m <= s.len() && 0 <= v <= e <= s.len() {
                seq![s.subrange(v, e)] + links_from(s, m)
            } else {
                Seq::empty()
            },
            None => links_from(s, i + 1),
        }
    }
}

/// The addresses in `links` that end like a package archive, each below `url`.
pub open spec fn archive_links(url: Seq<char>, links: Seq<Seq<char>>) -> Seq<Seq<char>> {
    links.filter(|l: Seq<char>| archive_suffix().is_suffix_of(l)).map_values(
        |l: Seq<char>| url + "/"@ + l,
    )
}

/// The paths in `paths` that end like a package archive and are no directories.
pub open spec fn archive_files(entries: Seq<(Seq<char>, bool)>) -> Seq<Seq<char>> {
    entries.filter(|e: (Seq<char>, bool)| !e.1 && archive_suffix().is_suffix_of(e.0)).map_values(
        |e: (Seq<char>, bool)| e.0,
    )
}

/// The texts of a list of paths, each with the mark of a directory.
pub open spec fn entry_texts(v: Seq<(String, bool)>) -> Seq<(Seq<char>, bool)> {
    Seq::new(v.len(), |i: int| (v[i].0@, v[i].1))
}

/// A link lies within the text: its address starts after the word `href`,
/// is not empty, and ends where the link ends or one character before.
pub proof fn lemma_link_bounds(s: Seq<char>, i: int)
    requires
        link_at(s, i) is Some,
    ensures
        ({
            let (v, e, m) = link_at(s, i).unwrap();
            i + 4 < v < e <= m <= s.len() && m <= e + 1
        }),
{
    lemma_after_spaces(s, i + 4);
    let a = after_spaces(s, i + 4);
    lemma_after_spaces(s, a + 1);
    let b = after_spaces(s, a + 1);
    let v = if b < s.len() && is_quote(s[b]) {
        b + 1
    } else {
        b
    };
    lemma_address_end(s, v);
}

proof fn lemma_after_spaces(s: Seq<char>, i: int)
    requires
        0 <= i <= s.len(),
    ensures
        i <= after_spaces(s, i) <= s.len(),
    decreases s.len() - i,
{
    if i < s.len() && is_space(s[i]) {
        lemma_after_spaces(s, i + 1);
    }
}

proof fn lemma_address_end(s: Seq<char>, i: int)
    requires
        0 <= i <= s.len(),
    ensures
        i <= address_end(s, i) <= s.len(),
    decreases s.len() - i,
{
    if i < s.len() && is_address_char(s[i]) {
        lemma_address_end(s, i + 1);
    }
}

/// The first index from `i` on that holds no white space.
fn skip_spaces(chars: &Vec<char>, i: usize) -> (r: usize)
    requires
        i <= chars.len(),
    ensures
        r == after_spaces(chars@, i as int),
        i <= r <= chars.len(),
{
    let mut k: usize = i;
    while k < chars.len() && is_space_char(chars[k])
        invariant
            i <= k <= chars.len(),
            after_spaces(chars@, i as int) == after_spaces(chars@, k as int),
        decreases chars.len() - k,
    {
        k += 1;
    }
    k
}

/// The first index from `i` on that holds no address character.
fn skip_address(chars: &Vec<char>, i: usize) -> (r: usize)
    requires
        i <= chars.len(),
    ensures
        r == address_end(chars@, i as int),
        i <= r <= chars.len(),
{
    let mut k: usize = i;
    while k < chars.len() && !(chars[k] == '"' || chars[k] == '\'') && !is_space_char(chars[k])
        && chars[k] != '>'
        invariant
            i <= k <= chars.len(),
            address_end(chars@, i as int) == address_end(chars@, k as int),
        decreases chars.len() - k,
    {
        k += 1;
    }
    k
}

/// The link that starts at index `i`, if there is one.
fn find_link(chars: &Vec<char>, i: usize, word: &Vec<char>) -> (r: Option<(usize, usize, usize)>)
    requires
        word@ == "href"@,
        i < chars.len(),
    ensures
        match r {
            Some((v, e, m)) => link_at(chars@, i as int) == Some((v as int, e as int, m as int))
                && i < v < e <= m <= chars.len(),
            None => link_at(chars@, i as int) is None,
        },
{
    proof {
        reveal_strlit("href");
    }
    if !matches_at(chars, i, word) {
        return None;
    }
    let a = skip_spaces(chars, i + 4);
    if !(a < chars.len() && chars[a] == '=') {
        return None;
    }
    let b = skip_spaces(chars, a + 1);
    let v = if b < chars.len() && (chars[b] == '"' || chars[b] == '\'') {
        b + 1
    } else {
        b
    };
    let e = skip_address(chars, v);
    if e > v {
        let m = if e < chars.len() && (chars[e] == '"' || chars[e] == '\'') {
            e + 1
        } else {
            e
        };
        Some((v, e, m))
    } else {
        None
    }
}

/// The addresses of the links in the text of a page, in their order.
pub fn extract_links(body: &str) -> (r: Vec<String>)
    ensures
        texts(r@) == links_from(body@, 0),
{
    let chars = chars_of(body);
    let word = chars_of("href");
    let n = chars.len();
    let mut out: Vec<String> = Vec::new();
    let mut i: usize = 0;
    while i < n
        invariant
            chars@ == body@,
            word@ == "href"@,
            n == chars.len(),
            i <= n,
            links_from(body@, 0) == texts(out@) + links_from(body@, i as int),
        decreases n - i,
    {
        match find_link(&chars, i, &word) {
            Some((v, e, m)) => {
                let ghost done = texts(out@);
                out.push(slice_string(body, v, e));
                assert(texts(out@) =~= done.push(body@.subrange(v as int, e as int)));
                assert(done + (seq![body@.subrange(v as int, e as int)] + links_from(
                    body@,
                    m as int,
                )) =~= done.push(body@.subrange(v as int, e as int)) + links_from(body@, m as int));
                i = m;
            },
            None => {
                i += 1;
            },
        }
    }
    assert(texts(out@) + Seq::<Seq<char>>::empty() =~= texts(out@));
    out
}

/// The archives that the index page of a remote repository links to: the
/// addresses of its links that end like a package archive, each below `url`.
pub fn get_repo_listing_http(url: &str, body: &str) -> (r: Vec<String>)
    ensures
        texts(r@) == archive_links(url@, links_from(body@, 0)),
{
    let links = extract_links(body);
    let suffix = chars_of(".atxpkg.zip");
    let ghost all = texts(links@);
    let ghost wanted = |l: Seq<char>| archive_suffix().is_suffix_of(l);
    let ghost below = |l: Seq<char>| url@ + "/"@ + l;
    let mut files: Vec<String> = Vec::new();
    let mut i: usize = 0;
    proof {
        reveal(Seq::filter);
        assert(all.take(0).filter(wanted).map_values(below) =~= Seq::<Seq<char>>::empty());
    }
    while i < links.len()
        invariant
            i <= links.len(),
            all == texts(links@),
            suffix@ == archive_suffix(),
            wanted == (|l: Seq<char>| archive_suffix().is_suffix_of(l)),
            below == (|l: Seq<char>| url@ + "/"@ + l),
            texts(files@) == all.take(i as int).filter(wanted).map_values(below),
        decreases links.len() - i,
    {
        let link = &links[i];
        proof {
            reveal(Seq::filter);
            assert(all.take(i + 1).drop_last() =~= all.take(i as int));
            assert(all.take(i + 1).last() == link@);
        }
        let chars = chars_of(link.as_str());
        if ends_with(&chars, &suffix) {
            let ghost done = texts(files@);
            let mut full = url.to_owned();
            full.append("/");
            full.append(link.as_str());
            files.push(full);
            assert(texts(files@) =~= done.push(below(link@)));
            assert(all.take(i as int).filter(wanted).push(link@).map_values(below) =~= done.push(
                below(link@),
            ));
        }
        i += 1;
    }
    assert(all.take(links.len() as int) =~= all);
    files
}

/// The archives in a directory: of what was found in it, the paths that are
/// no directories and end like a package archive.
pub fn get_repo_listing_dir(entries: &Vec<(String, bool)>) -> (r: Vec<String>)
    ensures
        texts(r@) == archive_files(entry_texts(entries@)),
{
    let suffix = chars_of(".atxpkg.zip");
    let ghost all = entry_texts(entries@);
    let ghost wanted = |e: (Seq<char>, bool)| !e.1 && archive_suffix().is_suffix_of(e.0);
    let ghost path = |e: (Seq<char>, bool)| e.0;
    let mut ret: Vec<String> = Vec::new();
    let mut i: usize = 0;
    proof {
        reveal(Seq::filter);
        assert(all.take(0).filter(wanted).map_values(path) =~= Seq::<Seq<char>>::empty());
    }
    while i < entries.len()
        invariant
            i <= entries.len(),
            all == entry_texts(entries@),
            suffix@ == archive_suffix(),
            wanted == (|e: (Seq<char>, bool)| !e.1 && archive_suffix().is_suffix_of(e.0)),
            path == (|e: (Seq<char>, bool)| e.0),
            texts(ret@) == all.take(i as int).filter(wanted).map_values(path),
        decreases entries.len() - i,
    {
        proof {
            reveal(Seq::filter);
            assert(all.take(i + 1).drop_last() =~= all.take(i as int));
            assert(all.take(i + 1).last() == (entries@[i as int].0@, entries@[i as int].1));
        }
        let chars = chars_of(entries[i].0.as_str());
        if !entries[i].1 && ends_with(&chars, &suffix) {
            let ghost done = texts(ret@);
            ret.push(entries[i].0.clone());
            assert(texts(ret@) =~= done.push(entries@[i as int].0@));
            assert(all.take(i as int).filter(wanted).push(all[i as int]).map_values(path)
                =~= done.push(entries@[i as int].0@));
        }
        i += 1;
    }
    assert(all.take(entries.len() as int) =~= all);
    ret
}

} // verus!
