//! Package versions: dotted and hyphenated runs of unsigned integers, ordered
//! as tuples of numbers.

use vstd::prelude::*;
use crate::text::chars_of;

verus! {

/// An ASCII decimal digit.
pub open spec fn is_digit(c: char) -> bool {
    '0' <= c && c <= '9'
}

/// The two characters that separate the numbers of a version.
pub open spec fn is_separator(c: char) -> bool {
    c == '.' || c == '-'
}

/// The value of a decimal digit.
pub open spec fn digit_value(c: char) -> nat {
    (c as u32 - '0' as u32) as nat
}

/// The number that a string of decimal digits denotes.
pub open spec fn decimal(s: Seq<char>) -> nat
    decreases s.len(),
{
    if s.len() == 0 {
        0
    } else {
        decimal(s.drop_last()) * 10 + digit_value(s.last())
    }
}

/// A non-empty string of digits whose value fits in 64 bits.
pub open spec fn is_number(s: Seq<char>) -> bool {
    &&& s.len() > 0
    &&& forall|i: int| 0 <= i < s.len() ==> is_digit(#[trigger] s[i])
    &&& decimal(s) <= u64::MAX
}

/// The index of the first separator in `s`, or the length of `s` if it has none.
pub open spec fn first_separator(s: Seq<char>) -> int
    decreases s.len(),
{
    if s.len() == 0 || is_separator(s[0]) {
        0
    } else {
        1 + first_separator(s.skip(1))
    }
}

/// Whether `s` is a version: numbers separated by single `.` or `-` characters.
pub open spec fn is_version(s: Seq<char>) -> bool
    decreases s.len(),
{
    let k = first_separator(s);
    is_number(s.take(k)) && (0 <= k < s.len() ==> is_version(s.skip(k + 1)))
}

/// The numbers of a version, in the order in which they are written.
pub open spec fn version_tuple(s: Seq<char>) -> Seq<u64>
    decreases s.len(),
{
    let k = first_separator(s);
    let head = seq![decimal(s.take(k)) as u64];
    if 0 <= k < s.len() {
        head + version_tuple(s.skip(k + 1))
    } else {
        head
    }
}

/// Lexicographic order on tuples of numbers: the first position at which the
/// tuples differ decides, and a proper prefix comes before its extensions.
pub open spec fn tuple_less(a: Seq<u64>, b: Seq<u64>) -> bool {
    exists|k: int|
        0 <= k <= a.len() && k <= b.len() && #[trigger] a.take(k) == b.take(k) && (if k
            == a.len() {
            k < b.len()
        } else {
            k < b.len() && a[k] < b[k]
        })
}

pub proof fn lemma_first_separator_bounds(s: Seq<char>)
    ensures
        0 <= first_separator(s) <= s.len(),
        first_separator(s) < s.len() ==> is_separator(s[first_separator(s)]),
        forall|j: int| 0 <= j < first_separator(s) ==> !is_separator(#[trigger] s[j]),
    decreases s.len(),
{
    if s.len() == 0 || is_separator(s[0]) {
    } else {
        let t = s.skip(1);
        lemma_first_separator_bounds(t);
        let k = first_separator(t);
        assert forall|j: int| 0 <= j < 1 + k implies !is_separator(#[trigger] s[j]) by {
            if j > 0 {
                assert(s[j] == t[j - 1]);
            }
        }
        if k < t.len() {
            assert(s[1 + k] == t[k]);
        }
    }
}

/// The first separator is the first index that holds one.
pub proof fn lemma_first_separator_is(s: Seq<char>, k: int)
    requires
        0 <= k <= s.len(),
        forall|j: int| 0 <= j < k ==> !is_separator(#[trigger] s[j]),
        k < s.len() ==> is_separator(s[k]),
    ensures
        first_separator(s) == k,
{
    lemma_first_separator_bounds(s);
    let f = first_separator(s);
    if f < k {
        assert(is_separator(s[f]));
    } else if k < f {
        assert(!is_separator(s[k]));
    }
}

/// Appending a digit to a string of digits multiplies its value by ten and
/// adds the digit.
proof fn lemma_decimal_push(s: Seq<char>, c: char)
    ensures
        decimal(s.push(c)) == decimal(s) * 10 + digit_value(c),
{
    assert(s.push(c).drop_last() =~= s);
}

/// The value of a string is at least the value of each of its prefixes.
proof fn lemma_decimal_prefix(s: Seq<char>, k: int)
    requires
        0 <= k <= s.len(),
    ensures
        decimal(s.take(k)) <= decimal(s),
    decreases s.len(),
{
    if k == s.len() {
        assert(s.take(k) =~= s);
    } else {
        lemma_decimal_prefix(s.drop_last(), k);
        assert(s.drop_last().take(k) =~= s.take(k));
    }
}

/// Reads the number written in `chars[from..to]`, if that range is a number.
fn parse_number(chars: &Vec<char>, from: usize, to: usize) -> (r: Option<u64>)
    requires
        from <= to <= chars.len(),
    ensures
        r is Some <==> is_number(chars@.subrange(from as int, to as int)),
        r matches Some(v) ==> v == decimal(chars@.subrange(from as int, to as int)),
{
    let ghost part = chars@.subrange(from as int, to as int);
    if from == to {
        return None;
    }
    let mut value: u64 = 0;
    let mut i: usize = from;
    while i < to
        invariant
            from <= i <= to <= chars.len(),
            part == chars@.subrange(from as int, to as int),
            forall|j: int| 0 <= j < i - from ==> is_digit(#[trigger] part[j]),
            value == decimal(part.take(i - from)),
        decreases to - i,
    {
        let c = chars[i];
        assert(part[i - from] == c);
        if !(c >= '0' && c <= '9') {
            return None;
        }
        let d: u64 = (c as u32 - '0' as u32) as u64;
        proof {
            assert(part.take(i - from + 1) =~= part.take(i - from).push(c));
            lemma_decimal_push(part.take(i - from), c);
            lemma_decimal_prefix(part, i - from + 1);
        }
        if value > (u64::MAX - d) / 10 {
            return None;
        }
        value = value * 10 + d;
        i += 1;
    }
    assert(part.take(to - from) =~= part);
    Some(value)
}

/// Reads a version, if `ver` is one.
pub fn parse_version(ver: &str) -> (r: Option<Vec<u64>>)
    ensures
        r is Some <==> is_version(ver@),
        r matches Some(v) ==> v@ == version_tuple(ver@),
{
    let chars = chars_of(ver);
    let n = chars.len();
    let mut out: Vec<u64> = Vec::new();
    let mut start: usize = 0;
    assert(ver@.skip(0) =~= ver@);
    loop
        invariant
            chars@ == ver@,
            n == chars.len(),
            start <= n,
            is_version(ver@) == is_version(ver@.skip(start as int)),
            version_tuple(ver@) == out@ + version_tuple(ver@.skip(start as int)),
        decreases n - start,
    {
        let ghost rest = ver@.skip(start as int);
        let mut k: usize = start;
        while k < n && !(chars[k] == '.' || chars[k] == '-')
            invariant
                chars@ == ver@,
                n == chars.len(),
                start <= k <= n,
                rest == ver@.skip(start as int),
                forall|j: int| 0 <= j < k - start ==> !is_separator(#[trigger] rest[j]),
            decreases n - k,
        {
            assert(rest[k - start] == chars@[k as int]);
            k += 1;
        }
        proof {
            if k < n {
                assert(rest[k - start] == chars@[k as int]);
            }
            lemma_first_separator_is(rest, k - start);
            assert(rest.take(k - start) =~= chars@.subrange(start as int, k as int));
        }
        match parse_number(&chars, start, k) {
            None => {
                return None;
            },
            Some(v) => {
                out.push(v);
                if k == n {
                    assert(version_tuple(ver@) == out@);
                    return Some(out);
                }
                proof {
                    assert(rest.skip(k - start + 1) =~= ver@.skip(k + 1));
                    assert(version_tuple(rest) == seq![v] + version_tuple(rest.skip(k - start + 1)));
                    assert(out@ + version_tuple(ver@.skip(k + 1)) =~= version_tuple(ver@));
                }
                start = k + 1;
            },
        }
    }
}

/// Whether `ver` is a version.
pub fn is_version_string(ver: &str) -> (r: bool)
    ensures
        r == is_version(ver@),
{
    parse_version(ver).is_some()
}

/// The numbers of the version `ver`.
pub fn split_ver(ver: &str) -> (r: Vec<u64>)
    requires
        is_version(ver@),
    ensures
        r@ == version_tuple(ver@),
{
    match parse_version(ver) {
        Some(v) => v,
        None => Vec::new(),
    }
}

/// Of two different tuples, one comes before the other; no tuple comes
/// before itself, and no two tuples come before each other.
pub proof fn lemma_tuple_order_total(a: Seq<u64>, b: Seq<u64>)
    ensures
        tuple_less(a, b) || a == b || tuple_less(b, a),
        !(tuple_less(a, b) && a == b),
        !(tuple_less(a, b) && tuple_less(b, a)),
{
    if tuple_less(a, b) {
        let k = choose|k: int|
            0 <= k <= a.len() && k <= b.len() && #[trigger] a.take(k) == b.take(k) && (if k
                == a.len() {
                k < b.len()
            } else {
                k < b.len() && a[k] < b[k]
            });
        if k < a.len() {
            assert(a[k] != b[k]);
        }
        if tuple_less(b, a) {
            let m = choose|m: int|
                0 <= m <= b.len() && m <= a.len() && #[trigger] b.take(m) == a.take(m) && (if m
                    == b.len() {
                    m < a.len()
                } else {
                    m < a.len() && b[m] < a[m]
                });
            if k < m {
                assert(b.take(m)[k] == a.take(m)[k]);
            } else if m < k {
                assert(a.take(k)[m] == b.take(k)[m]);
            }
        }
    } else if a != b {
        assert(a.take(0) =~= b.take(0));
        lemma_tuples_differ(a, b, 0);
    }
}

/// The order on tuples is transitive.
pub proof fn lemma_tuple_less_transitive(a: Seq<u64>, b: Seq<u64>, c: Seq<u64>)
    requires
        tuple_less(a, b),
        tuple_less(b, c),
    ensures
        tuple_less(a, c),
{
    let k1 = choose|k: int|
        0 <= k <= a.len() && k <= b.len() && #[trigger] a.take(k) == b.take(k) && (if k
            == a.len() {
            k < b.len()
        } else {
            k < b.len() && a[k] < b[k]
        });
    let k2 = choose|k: int|
        0 <= k <= b.len() && k <= c.len() && #[trigger] b.take(k) == c.take(k) && (if k
            == b.len() {
            k < c.len()
        } else {
            k < c.len() && b[k] < c[k]
        });
    let k = if k1 <= k2 { k1 } else { k2 };
    assert(a.take(k) =~= c.take(k)) by {
        assert forall|i: int| 0 <= i < k implies a[i] == c[i] by {
            assert(a.take(k1)[i] == b.take(k1)[i]);
            assert(b.take(k2)[i] == c.take(k2)[i]);
        }
    }
    if k1 < k2 {
        assert(b.take(k2)[k1] == c.take(k2)[k1]);
    } else if k2 < k1 {
        assert(a.take(k1)[k2] == b.take(k1)[k2]);
    }
    assert(a.take(k) == c.take(k));
}

/// Two tuples that agree on their first `i` numbers and are not equal are
/// ordered one way or the other.
proof fn lemma_tuples_differ(a: Seq<u64>, b: Seq<u64>, i: int)
    requires
        0 <= i <= a.len(),
        i <= b.len(),
        a.take(i) == b.take(i),
        a != b,
    ensures
        tuple_less(a, b) || tuple_less(b, a),
    decreases a.len() - i,
{
    if i == a.len() {
        if i == b.len() {
            assert(a.take(i) =~= a);
            assert(b.take(i) =~= b);
        } else {
            assert(a.take(i) == b.take(i));
        }
    } else if i == b.len() {
        assert(b.take(i) == a.take(i));
    } else if a[i] == b[i] {
        assert(a.take(i + 1) =~= a.take(i).push(a[i]));
        assert(b.take(i + 1) =~= b.take(i).push(b[i]));
        lemma_tuples_differ(a, b, i + 1);
    } else if a[i] < b[i] {
        assert(a.take(i) == b.take(i));
    } else {
        assert(b.take(i) == a.take(i));
    }
}

/// Orders two tuples of numbers: -1 if `a` comes first, 1 if `b` does, 0 if
/// they are equal.
pub fn rank_tuples(a: &Vec<u64>, b: &Vec<u64>) -> (r: i8)
    ensures
        r == -1 || r == 0 || r == 1,
        r == -1 <==> tuple_less(a@, b@),
        r == 0 <==> a@ == b@,
        r == 1 <==> tuple_less(b@, a@),
{
    let mut i: usize = 0;
    assert(a@.take(0) =~= b@.take(0));
    while i < a.len() && i < b.len()
        invariant
            i <= a.len(),
            i <= b.len(),
            a@.take(i as int) == b@.take(i as int),
        decreases a.len() - i,
    {
        proof {
            lemma_tuple_order_total(a@, b@);
        }
        if a[i] < b[i] {
            return -1;
        }
        if a[i] > b[i] {
            assert(b@.take(i as int) == a@.take(i as int));
            return 1;
        }
        assert(a@.take(i + 1) =~= a@.take(i as int).push(a@[i as int]));
        assert(b@.take(i + 1) =~= b@.take(i as int).push(b@[i as int]));
        i += 1;
    }
    proof {
        lemma_tuple_order_total(a@, b@);
    }
    if i < b.len() {
        -1
    } else if i < a.len() {
        assert(b@.take(i as int) == a@.take(i as int));
        1
    } else {
        assert(a@.take(i as int) =~= a@);
        assert(b@.take(i as int) =~= b@);
        0
    }
}

} // verus!
