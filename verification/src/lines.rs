//! Text files that hold one entry a line: the list of repositories, and an
//! archive's list of files that are the user's to edit.

use vstd::prelude::*;
use crate::text::{chars_of, slice_string, texts};

verus! {

/// A white-space character.
pub open spec fn is_space(c: char) -> bool {
    let n = c as u32;
    ||| (0x09 <= n && n <= 0x0d)
    ||| n == 0x20
    ||| n == 0x85
    ||| n == 0xa0
    ||| n == 0x1680
    ||| (0x2000 <= n && n <= 0x200a)
    ||| n == 0x2028
    ||| n == 0x2029
    ||| n == 0x202f
    ||| n == 0x205f
    ||| n == 0x3000
}

/// The index of the first line break in `s`, or the length of `s` if it has none.
pub open spec fn first_break(s: Seq<char>) -> int
    decreases s.len(),
{
    if s.len() == 0 || s[0] == '\n' {
        0
    } else {
        1 + first_break(s.skip(1))
    }
}

/// `s` without the white space at its start.
pub open spec fn trim_start(s: Seq<char>) -> Seq<char>
    decreases s.len(),
{
    if s.len() > 0 && is_space(s[0]) {
        trim_start(s.skip(1))
    } else {
        s
    }
}

/// `s` without the white space at its end.
pub open spec fn trim_end(s: Seq<char>) -> Seq<char>
    decreases s.len(),
{
    if s.len() > 0 && is_space(s.last()) {
        trim_end(s.drop_last())
    } else {
        s
    }
}

/// `s` without the white space at its start and at its end.
pub open spec fn trimmed(s: Seq<char>) -> Seq<char> {
    trim_end(trim_start(s))
}

/// A line that holds an entry: it is not empty and does not start with `#`.
pub open spec fn is_entry(line: Seq<char>) -> bool {
    line.len() > 0 && line[0] != '#'
}

/// The entries of a text: its lines, each without the white space around it,
/// but for the empty ones and the comments.
pub open spec fn entries_in(s: Seq<char>) -> Seq<Seq<char>>
    decreases s.len(),
{
    let k = first_break(s);
    let line = trimmed(s.take(k));
    let rest = if 0 <= k < s.len() {
        entries_in(s.skip(k + 1))
    } else {
        Seq::empty()
    };
    if is_entry(line) {
        seq![line] + rest
    } else {
        rest
    }
}

/// The first line break is the first index that holds one.
pub proof fn lemma_first_break_is(s: Seq<char>, k: int)
    requires
        0 <= k <= s.len(),
        forall|j: int| 0 <= j < k ==> #[trigger] s[j] != '\n',
        k < s.len() ==> s[k] == '\n',
    ensures
        first_break(s) == k,
    decreases k,
{
    if k > 0 {
        assert(s[0] != '\n');
        assert forall|j: int| 0 <= j < k - 1 implies #[trigger] s.skip(1)[j] != '\n' by {
            assert(s[j + 1] != '\n');
        }
        lemma_first_break_is(s.skip(1), k - 1);
    }
}

/// Whether `c` is a white-space character.
pub fn is_space_char(c: char) -> (r: bool)
    ensures
        r == is_space(c),
{
    let n = c as u32;
    (0x09 <= n && n <= 0x0d) || n == 0x20 || n == 0x85 || n == 0xa0 || n == 0x1680 || (0x2000
        <= n && n <= 0x200a) || n == 0x2028 || n == 0x2029 || n == 0x202f || n == 0x205f || n
        == 0x3000
}

/// The range of `chars[from..to]` that is left when the white space at its
/// start and at its end is taken away.
pub fn trim_range(chars: &Vec<char>, from: usize, to: usize) -> (r: (usize, usize))
    requires
        from <= to <= chars.len(),
    ensures
        from <= r.0 <= r.1 <= to,
        chars@.subrange(r.0 as int, r.1 as int) == trimmed(chars@.subrange(from as int, to as int)),
{
    let ghost part = chars@.subrange(from as int, to as int);
    let mut a: usize = from;
    while a < to && is_space_char(chars[a])
        invariant
            from <= a <= to <= chars.len(),
            trim_start(chars@.subrange(from as int, to as int)) == trim_start(
                chars@.subrange(a as int, to as int),
            ),
        decreases to - a,
    {
        assert(chars@.subrange(a as int, to as int).skip(1) =~= chars@.subrange(a + 1, to as int));
        a += 1;
    }
    assert(trim_start(part) == chars@.subrange(a as int, to as int));
    let mut b: usize = to;
    while b > a && is_space_char(chars[b - 1])
        invariant
            a <= b <= to <= chars.len(),
            trim_end(chars@.subrange(a as int, to as int)) == trim_end(
                chars@.subrange(a as int, b as int),
            ),
        decreases b,
    {
        assert(chars@.subrange(a as int, b as int).drop_last() =~= chars@.subrange(
            a as int,
            b - 1,
        ));
        b -= 1;
    }
    (a, b)
}

/// The entries of a text that holds one entry a line. White space around
/// an entry is dropped, and so are empty lines and lines that start with `#`.
pub fn read_lines(content: &str) -> (r: Vec<String>)
    ensures
        texts(r@) == entries_in(content@),
{
    let chars = chars_of(content);
    let n = chars.len();
    let mut out: Vec<String> = Vec::new();
    let mut start: usize = 0;
    assert(content@.skip(0) =~= content@);
    loop
        invariant
            chars@ == content@,
            n == chars.len(),
            start <= n,
            entries_in(content@) == texts(out@) + entries_in(content@.skip(start as int)),
        decreases n - start,
    {
        let ghost rest = content@.skip(start as int);
        let mut k: usize = start;
        while k < n && chars[k] != '\n'
            invariant
                chars@ == content@,
                n == chars.len(),
                start <= k <= n,
                rest == content@.skip(start as int),
                forall|j: int| 0 <= j < k - start ==> #[trigger] rest[j] != '\n',
            decreases n - k,
        {
            assert(rest[k - start] == chars@[k as int]);
            k += 1;
        }
        proof {
            if k < n {
                assert(rest[k - start] == chars@[k as int]);
            }
            lemma_first_break_is(rest, k - start);
            assert(rest.take(k - start) =~= chars@.subrange(start as int, k as int));
        }
        let (a, b) = trim_range(&chars, start, k);
        let ghost line = chars@.subrange(a as int, b as int);
        if a < b && chars[a] != '#' {
            let ghost done = texts(out@);
            out.push(slice_string(content, a, b));
            assert(texts(out@) =~= done.push(line));
            assert(is_entry(line));
            assert(done + (seq![line] + entries_in(rest.skip(k - start + 1))) =~= done.push(line)
                + entries_in(rest.skip(k - start + 1)));
        } else {
            assert(!is_entry(line)) by {
                if a < b {
                    assert(line[0] == chars@[a as int]);
                }
            }
        }
        if k == n {
            assert(texts(out@) + Seq::<Seq<char>>::empty() =~= texts(out@));
            return out;
        }
        assert(rest.skip(k - start + 1) =~= content@.skip(k + 1));
        start = k + 1;
    }
}

} // verus!
