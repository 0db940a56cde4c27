//! Package file names: `<name>-<version>.atxpkg.zip`, and the requests
//! `<name>` and `<name>-<version>` that refer to them.

use vstd::prelude::*;
use crate::compare::version_greater;
use crate::text::{
    chars_of, contains_char, matches_at, same_text, slice_string, starts_with, texts,
};
use crate::version::{
    is_digit, is_version, lemma_tuple_less_transitive, lemma_tuple_order_total, tuple_less,
    version_tuple,
};

verus! {

/// The ending of every package archive's file name.
pub open spec fn archive_suffix() -> Seq<char> {
    ".atxpkg.zip"@
}

/// A character that may stand in the version part of a package file name.
pub open spec fn is_version_char(c: char) -> bool {
    is_digit(c) || c == '.' || c == '-'
}

/// A non-empty run of digits, dots and hyphens.
pub open spec fn is_version_text(v: Seq<char>) -> bool {
    v.len() > 0 && forall|i: int| 0 <= i < v.len() ==> is_version_char(#[trigger] v[i])
}

/// What may follow a package name, and the version it gives: nothing or the
/// archive suffix alone (no version), or a hyphen and a version, with or
/// without the archive suffix. `None` if `t` is none of these.
pub open spec fn tail_version(t: Seq<char>) -> Option<Seq<char>> {
    if t.len() == 0 || t == archive_suffix() {
        Some(Seq::empty())
    } else if t[0] == '-' {
        let v = t.skip(1);
        let w = v.take(v.len() - archive_suffix().len());
        if is_version_text(v) {
            Some(v)
        } else if archive_suffix().is_suffix_of(v) && is_version_text(w) {
            Some(w)
        } else {
            None
        }
    } else {
        None
    }
}

/// The first index from `n` on at which the name may end: what follows is
/// accepted by `tail_version`. The end of `s` always is such an index.
pub open spec fn split_point(s: Seq<char>, n: int) -> int
    decreases s.len() - n,
{
    if n >= s.len() {
        s.len() as int
    } else if tail_version(s.skip(n)) is Some {
        n
    } else {
        split_point(s, n + 1)
    }
}

/// The name and the version that a request or a package file name holds. The
/// name is the shortest non-empty beginning that leaves an accepted tail; the
/// version is empty if none is written. An empty text, or one that holds a
/// line break, gives two empty strings.
pub open spec fn split_name_version(s: Seq<char>) -> (Seq<char>, Seq<char>) {
    if s.len() == 0 || s.contains('\n') {
        (Seq::empty(), Seq::empty())
    } else {
        let n = split_point(s, 1);
        (s.take(n), tail_version(s.skip(n)).unwrap())
    }
}

/// The package name in a request or a package file name.
pub open spec fn package_name(s: Seq<char>) -> Seq<char> {
    split_name_version(s).0
}

/// The version in a request or a package file name; empty if none is written.
pub open spec fn package_version(s: Seq<char>) -> Seq<char> {
    split_name_version(s).1
}

/// The index of the last `c` in `s`, or -1 if there is none.
pub open spec fn last_index_of(s: Seq<char>, c: char) -> int
    decreases s.len(),
{
    if s.len() == 0 {
        -1
    } else if s.last() == c {
        s.len() - 1
    } else {
        last_index_of(s.drop_last(), c)
    }
}

/// The file name that a path or URL ends with: what follows its last `/`.
pub open spec fn file_name_of(url: Seq<char>) -> Seq<char> {
    url.skip(last_index_of(url, '/') + 1)
}

/// Whether `s` is an HTTP or HTTPS address.
pub open spec fn spec_is_url(s: Seq<char>) -> bool {
    "http://"@.is_prefix_of(s) || "https://"@.is_prefix_of(s)
}

/// The version in the file name that `url` ends with.
pub open spec fn url_version(url: Seq<char>) -> Seq<char> {
    package_version(file_name_of(url))
}

/// The package name in the file name that `url` ends with.
pub open spec fn url_name(url: Seq<char>) -> Seq<char> {
    package_name(file_name_of(url))
}

/// The numbers of the version in the file name that `url` ends with.
pub open spec fn url_tuple(url: Seq<char>) -> Seq<u64> {
    version_tuple(url_version(url))
}

/// Whether every address in `urls` holds a version.
pub open spec fn all_versioned(urls: Seq<Seq<char>>) -> bool {
    forall|i: int| 0 <= i < urls.len() ==> is_version(url_version(#[trigger] urls[i]))
}

/// `i` is the index of the first address in `urls` whose version is `version`.
pub open spec fn is_first_with_version(urls: Seq<Seq<char>>, version: Seq<char>, i: int) -> bool {
    &&& 0 <= i < urls.len()
    &&& url_version(urls[i]) == version
    &&& forall|j: int| 0 <= j < i ==> url_version(#[trigger] urls[j]) != version
}

/// No address in `urls` has the version `version`.
pub open spec fn none_with_version(urls: Seq<Seq<char>>, version: Seq<char>) -> bool {
    forall|j: int| 0 <= j < urls.len() ==> url_version(#[trigger] urls[j]) != version
}

/// `m` is the index of the first address in `urls` with the greatest version:
/// every earlier address has a smaller version, no later one a greater.
pub open spec fn is_first_max(urls: Seq<Seq<char>>, m: int) -> bool {
    &&& 0 <= m < urls.len()
    &&& forall|j: int| 0 <= j < m ==> tuple_less(url_tuple(#[trigger] urls[j]), url_tuple(urls[m]))
    &&& forall|j: int|
        m < j < urls.len() ==> !tuple_less(url_tuple(urls[m]), url_tuple(#[trigger] urls[j]))
}

/// A character that may stand in a package name: an ASCII letter or digit,
/// `_`, `-` or `.`.
pub open spec fn is_name_char(c: char) -> bool {
    ('a' <= c && c <= 'z') || ('A' <= c && c <= 'Z') || is_digit(c) || c == '_' || c == '-' || c
        == '.'
}

/// A digit or a dot.
pub open spec fn is_dotted_char(c: char) -> bool {
    is_digit(c) || c == '.'
}

/// `s` holds, with its hyphens at `h1` and `h2` and the archive suffix at `e`,
/// a name character, a hyphen, digits and dots, a hyphen, digits, and the
/// archive suffix.
pub open spec fn is_package_file_match(s: Seq<char>, h1: int, h2: int, e: int) -> bool {
    &&& 1 <= h1 && h1 + 1 < h2 && h2 + 1 < e && e + archive_suffix().len() <= s.len()
    &&& is_name_char(s[h1 - 1])
    &&& s[h1] == '-'
    &&& forall|i: int| h1 < i < h2 ==> is_dotted_char(#[trigger] s[i])
    &&& s[h2] == '-'
    &&& forall|i: int| h2 < i < e ==> is_digit(#[trigger] s[i])
    &&& s.subrange(e, e + archive_suffix().len()) == archive_suffix()
}

/// Whether `s` holds the name of a package archive:
/// `<name>-<digits and dots>-<digits>.atxpkg.zip`.
pub open spec fn spec_is_valid_package_fn(s: Seq<char>) -> bool {
    exists|h1: int, h2: int, e: int| is_package_file_match(s, h1, h2, e)
}

pub proof fn lemma_last_index_of(s: Seq<char>, c: char, k: int)
    requires
        -1 <= k < s.len(),
        k >= 0 ==> s[k] == c,
        forall|j: int| k < j < s.len() ==> #[trigger] s[j] != c,
    ensures
        last_index_of(s, c) == k,
    decreases s.len(),
{
    if s.len() > 0 && s.last() != c {
        lemma_last_index_of(s.drop_last(), c, k);
    }
}

/// Whether `s` is an HTTP or HTTPS address.
pub fn is_url(s: &str) -> (r: bool)
    ensures
        r == spec_is_url(s@),
{
    let chars = chars_of(s);
    let plain = chars_of("http://");
    let secure = chars_of("https://");
    starts_with(&chars, &plain) || starts_with(&chars, &secure)
}

/// The file name at the end of a path or URL.
pub fn get_package_fn(url: &str) -> (r: Option<String>)
    ensures
        r is Some,
        r.unwrap()@ == file_name_of(url@),
{
    let chars = chars_of(url);
    let mut i: usize = chars.len();
    while i > 0 && chars[i - 1] != '/'
        invariant
            i <= chars.len(),
            forall|j: int| i <= j < chars.len() ==> #[trigger] chars@[j] != '/',
        decreases i,
    {
        i -= 1;
    }
    proof {
        lemma_last_index_of(chars@, '/', i - 1);
    }
    Some(slice_string(url, i, chars.len()))
}

/// Whether `chars[from..to]` holds digits, dots and hyphens only.
fn only_version_chars(chars: &Vec<char>, from: usize, to: usize) -> (r: bool)
    requires
        from <= to <= chars.len(),
    ensures
        r == (forall|i: int| from <= i < to ==> is_version_char(#[trigger] chars@[i])),
{
    let mut i: usize = from;
    while i < to
        invariant
            from <= i <= to <= chars.len(),
            forall|j: int| from <= j < i ==> is_version_char(#[trigger] chars@[j]),
        decreases to - i,
    {
        let c = chars[i];
        if !((c >= '0' && c <= '9') || c == '.' || c == '-') {
            return false;
        }
        i += 1;
    }
    true
}

/// The range of `chars` that holds the version, if what follows index `n`
/// is accepted as the tail of a package name.
fn tail_version_at(chars: &Vec<char>, n: usize, suffix: &Vec<char>) -> (r: Option<(usize, usize)>)
    requires
        n <= chars.len(),
        suffix@ == archive_suffix(),
    ensures
        r is Some <==> tail_version(chars@.skip(n as int)) is Some,
        r matches Some((from, to)) ==> from <= to <= chars.len() && chars@.subrange(
            from as int,
            to as int,
        ) == tail_version(chars@.skip(n as int)).unwrap(),
{
    let len = chars.len();
    let ghost t = chars@.skip(n as int);
    if n == len {
        assert(chars@.subrange(n as int, n as int) =~= Seq::<char>::empty());
        return Some((n, n));
    }
    let whole = len - n == suffix.len() && matches_at(chars, n, suffix);
    assert(whole == (t == archive_suffix())) by {
        if n + suffix.len() == len {
            assert(chars@.subrange(n as int, n + suffix.len()) =~= t);
        }
    }
    if whole {
        assert(chars@.subrange(n as int, n as int) =~= Seq::<char>::empty());
        return Some((n, n));
    }
    assert(t[0] == chars@[n as int]);
    if chars[n] != '-' {
        return None;
    }
    let ghost v = t.skip(1);
    assert(v =~= chars@.subrange(n + 1, len as int));
    assert(forall|i: int| 0 <= i < v.len() ==> v[i] == chars@[n + 1 + i]);
    if n + 1 < len && only_version_chars(chars, n + 1, len) {
        assert(is_version_text(v));
        return Some((n + 1, len));
    }
    assert(!is_version_text(v)) by {
        if is_version_text(v) {
            assert forall|i: int| n + 1 <= i < len implies is_version_char(
                #[trigger] chars@[i],
            ) by {
                assert(is_version_char(v[i - (n + 1)]));
            }
        }
    }
    if len - (n + 1) < suffix.len() {
        return None;
    }
    let cut = len - suffix.len();
    let ghost w = v.take(v.len() - archive_suffix().len());
    assert(w =~= chars@.subrange(n + 1, cut as int));
    assert(forall|i: int| 0 <= i < w.len() ==> w[i] == chars@[n + 1 + i]);
    let tailed = matches_at(chars, cut, suffix);
    assert(tailed == archive_suffix().is_suffix_of(v)) by {
        assert(v.subrange(v.len() - suffix@.len(), v.len() as int) =~= chars@.subrange(
            cut as int,
            cut + suffix.len(),
        ));
    }
    if tailed && n + 1 < cut && only_version_chars(chars, n + 1, cut) {
        assert(is_version_text(w));
        return Some((n + 1, cut));
    }
    assert(!(archive_suffix().is_suffix_of(v) && is_version_text(w))) by {
        if tailed && is_version_text(w) {
            assert forall|i: int| n + 1 <= i < cut implies is_version_char(
                #[trigger] chars@[i],
            ) by {
                assert(is_version_char(w[i - (n + 1)]));
            }
        }
    }
    None
}

/// Splits a request or a package file name into the package name and the
/// version; the version is empty if none is written.
pub fn split_package_name_version(pkg_spec: &str) -> (r: (String, String))
    ensures
        r.0@ == package_name(pkg_spec@),
        r.1@ == package_version(pkg_spec@),
{
    let chars = chars_of(pkg_spec);
    let len = chars.len();
    if len == 0 || contains_char(&chars, '\n') {
        return (String::new(), String::new());
    }
    let suffix = chars_of(".atxpkg.zip");
    let mut n: usize = 1;
    loop
        invariant
            chars@ == pkg_spec@,
            len == chars.len(),
            suffix@ == archive_suffix(),
            1 <= n <= len,
            !pkg_spec@.contains('\n'),
            split_point(chars@, 1) == split_point(chars@, n as int),
        decreases len - n,
    {
        match tail_version_at(&chars, n, &suffix) {
            Some((from, to)) => {
                assert(split_point(chars@, n as int) == n) by {
                    if n == len {
                    }
                }
                assert(pkg_spec@.take(n as int) =~= pkg_spec@.subrange(0, n as int));
                let name = slice_string(pkg_spec, 0, n);
                let version = slice_string(pkg_spec, from, to);
                return (name, version);
            },
            None => {
                assert(n < len) by {
                    if n == len {
                        assert(chars@.skip(n as int).len() == 0);
                    }
                }
                n += 1;
            },
        }
    }
}

/// The package name in a request or a package file name.
pub fn get_package_name(fn_: &str) -> (r: String)
    ensures
        r@ == package_name(fn_@),
{
    split_package_name_version(fn_).0
}

/// The version in a request or a package file name; empty if none is written.
pub fn get_package_version(fn_: &str) -> (r: String)
    ensures
        r@ == package_version(fn_@),
{
    split_package_name_version(fn_).1
}

/// The start of the longest run of digits, or of digits and dots if `dots` is
/// set, that ends just before index `end`.
fn run_start(chars: &Vec<char>, end: usize, dots: bool) -> (r: usize)
    requires
        end <= chars.len(),
    ensures
        r <= end,
        forall|i: int| r <= i < end ==> is_dotted_char(#[trigger] chars@[i]) && (dots || is_digit(chars@[i])),
        r > 0 ==> !(is_dotted_char(chars@[r - 1]) && (dots || is_digit(chars@[r - 1]))),
{
    let mut j: usize = end;
    while j > 0 && ((chars[j - 1] >= '0' && chars[j - 1] <= '9') || (dots && chars[j - 1] == '.'))
        invariant
            j <= end <= chars.len(),
            forall|i: int| j <= i < end ==> is_dotted_char(#[trigger] chars@[i]) && (dots || is_digit(chars@[i])),
        decreases j,
    {
        j -= 1;
    }
    j
}

/// Whether a package file name with the archive suffix at index `e` ends there.
fn package_file_ends_at(chars: &Vec<char>, e: usize, suffix: &Vec<char>) -> (r: bool)
    requires
        suffix@ == archive_suffix(),
    ensures
        r == exists|h1: int, h2: int| is_package_file_match(chars@, h1, h2, e as int),
{
    let ghost s = chars@;
    if !matches_at(chars, e, suffix) {
        return false;
    }
    let j = run_start(chars, e, false);
    if j == e || j == 0 || chars[j - 1] != '-' {
        assert forall|h1: int, h2: int| !is_package_file_match(s, h1, h2, e as int) by {
            if is_package_file_match(s, h1, h2, e as int) {
                if j > h2 + 1 {
                    assert(is_digit(s[j - 1]));
                } else if j < h2 + 1 {
                    assert(is_digit(s[h2]));
                }
            }
        }
        return false;
    }
    let h2 = j - 1;
    let k = run_start(chars, h2, true);
    if k == h2 || k == 0 || chars[k - 1] != '-' || k == 1 {
        assert forall|h1: int, g2: int| !is_package_file_match(s, h1, g2, e as int) by {
            if is_package_file_match(s, h1, g2, e as int) {
                if j > g2 + 1 {
                    assert(is_digit(s[j - 1]));
                } else if j < g2 + 1 {
                    assert(is_digit(s[g2]));
                }
                if k > h1 + 1 {
                    assert(is_dotted_char(s[k - 1]));
                } else if k < h1 + 1 {
                    assert(is_dotted_char(s[h1]));
                }
            }
        }
        return false;
    }
    let h1 = k - 1;
    let c = chars[h1 - 1];
    let named = (c >= 'a' && c <= 'z') || (c >= 'A' && c <= 'Z') || (c >= '0' && c <= '9') || c
        == '_' || c == '-' || c == '.';
    if named {
        assert(is_package_file_match(s, h1 as int, h2 as int, e as int));
    } else {
        assert forall|g1: int, g2: int| !is_package_file_match(s, g1, g2, e as int) by {
            if is_package_file_match(s, g1, g2, e as int) {
                if j > g2 + 1 {
                    assert(is_digit(s[j - 1]));
                } else if j < g2 + 1 {
                    assert(is_digit(s[g2]));
                }
                if k > g1 + 1 {
                    assert(is_dotted_char(s[k - 1]));
                } else if k < g1 + 1 {
                    assert(is_dotted_char(s[g1]));
                }
            }
        }
    }
    named
}

/// Whether `fn_` holds the name of a package archive.
pub fn is_valid_package_fn(fn_: &str) -> (r: bool)
    ensures
        r == spec_is_valid_package_fn(fn_@),
{
    let chars = chars_of(fn_);
    let suffix = chars_of(".atxpkg.zip");
    let mut e: usize = 0;
    while e < chars.len()
        invariant
            chars@ == fn_@,
            suffix@ == archive_suffix(),
            e <= chars.len(),
            forall|h1: int, h2: int, g: int|
                g < e ==> !#[trigger] is_package_file_match(chars@, h1, h2, g),
        decreases chars.len() - e,
    {
        if package_file_ends_at(&chars, e, &suffix) {
            return true;
        }
        e += 1;
    }
    proof {
        reveal_strlit(".atxpkg.zip");
    }
    false
}

/// The version in the file name that `url` ends with.
pub fn version_of_url(url: &str) -> (r: String)
    ensures
        r@ == url_version(url@),
{
    match get_package_fn(url) {
        Some(file_name) => get_package_version(file_name.as_str()),
        None => String::new(),
    }
}

/// The package name in the file name that `url` ends with.
pub fn name_of_url(url: &str) -> (r: String)
    ensures
        r@ == url_name(url@),
{
    match get_package_fn(url) {
        Some(file_name) => get_package_name(file_name.as_str()),
        None => String::new(),
    }
}

/// The index of the first address in `urls` whose version is `version`.
pub fn specific_version_index(urls: &Vec<String>, version: &str) -> (r: Option<usize>)
    ensures
        match r {
            Some(i) => is_first_with_version(texts(urls@), version@, i as int),
            None => none_with_version(texts(urls@), version@),
        },
{
    let mut i: usize = 0;
    while i < urls.len()
        invariant
            i <= urls.len(),
            forall|j: int| 0 <= j < i ==> url_version(#[trigger] texts(urls@)[j]) != version@,
        decreases urls.len() - i,
    {
        let v = version_of_url(urls[i].as_str());
        if same_text(v.as_str(), version) {
            return Some(i);
        }
        i += 1;
    }
    None
}

/// The first address in `urls` whose version is `version`, if there is one.
pub fn get_specific_version_url(urls: Vec<String>, version: &str) -> (r: Option<String>)
    ensures
        match r {
            Some(url) => exists|i: int|
                #![trigger texts(urls@)[i]]
                is_first_with_version(texts(urls@), version@, i) && url@ == texts(urls@)[i],
            None => none_with_version(texts(urls@), version@),
        },
{
    match specific_version_index(&urls, version) {
        Some(i) => {
            let url = urls[i].clone();
            assert(url@ == texts(urls@)[i as int]);
            Some(url)
        },
        None => None,
    }
}

/// The index of the first address in `urls` with the greatest version.
pub fn max_version_index(urls: &Vec<String>) -> (r: Option<usize>)
    requires
        urls.len() >= 2 ==> all_versioned(texts(urls@)),
    ensures
        match r {
            Some(m) => is_first_max(texts(urls@), m as int),
            None => urls.len() == 0,
        },
{
    if urls.len() == 0 {
        return None;
    }
    let ghost views = texts(urls@);
    let mut m: usize = 0;
    let mut i: usize = 1;
    while i < urls.len()
        invariant
            views == texts(urls@),
            urls.len() >= 2 ==> all_versioned(views),
            1 <= i <= urls.len(),
            m < i,
            forall|j: int| 0 <= j < m ==> tuple_less(url_tuple(#[trigger] views[j]), url_tuple(views[m as int])),
            forall|j: int|
                m < j < i ==> !tuple_less(url_tuple(views[m as int]), url_tuple(#[trigger] views[j])),
        decreases urls.len() - i,
    {
        let candidate = version_of_url(urls[i].as_str());
        let best = version_of_url(urls[m].as_str());
        assert(is_version(url_version(views[i as int])));
        assert(is_version(url_version(views[m as int])));
        if version_greater(candidate.as_str(), best.as_str()) {
            proof {
                let top = url_tuple(views[i as int]);
                let old_top = url_tuple(views[m as int]);
                assert forall|j: int| 0 <= j < i implies tuple_less(
                    url_tuple(#[trigger] views[j]),
                    top,
                ) by {
                    let t = url_tuple(views[j]);
                    if j < m {
                        lemma_tuple_less_transitive(t, old_top, top);
                    } else if j > m {
                        lemma_tuple_order_total(old_top, t);
                        if t != old_top {
                            lemma_tuple_less_transitive(t, old_top, top);
                        }
                    }
                }
            }
            m = i;
        }
        i += 1;
    }
    Some(m)
}

/// The address in `urls` with the greatest version; of several with that
/// version, the first. `None` if `urls` is empty.
pub fn get_max_version_url(urls: Vec<String>) -> (r: Option<String>)
    requires
        urls.len() >= 2 ==> all_versioned(texts(urls@)),
    ensures
        match r {
            Some(url) => exists|m: int|
                #![trigger texts(urls@)[m]]
                is_first_max(texts(urls@), m) && url@ == texts(urls@)[m],
            None => urls.len() == 0,
        },
{
    match max_version_index(&urls) {
        Some(m) => {
            let url = urls[m].clone();
            assert(url@ == texts(urls@)[m as int]);
            Some(url)
        },
        None => None,
    }
}

/// The greatest version among the addresses in `urls`. `None` if `urls` is empty.
pub fn get_max_version(urls: Vec<String>) -> (r: Option<String>)
    requires
        urls.len() >= 2 ==> all_versioned(texts(urls@)),
    ensures
        match r {
            Some(version) => exists|m: int|
                #![trigger texts(urls@)[m]]
                is_first_max(texts(urls@), m) && version@ == url_version(texts(urls@)[m]),
            None => urls.len() == 0,
        },
{
    match max_version_index(&urls) {
        Some(m) => {
            let version = version_of_url(urls[m].as_str());
            assert(version@ == url_version(texts(urls@)[m as int]));
            Some(version)
        },
        None => None,
    }
}

} // verus!
