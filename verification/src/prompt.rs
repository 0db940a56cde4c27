//! Asking the user whether to go ahead.

use vstd::prelude::*;
use crate::lines::{trim_range, trimmed};
use crate::text::{chars_of, same_text};

verus! {

/// What a line of input says.
#[derive(Debug, Clone, Copy, PartialEq, Eq, Structural)]
pub enum Reply {
    Yes,
    No,
    /// The line is empty and there is no default: the question is asked again.
    Again,
    /// The line is neither a yes nor a no: the user is told so, and the
    /// question is asked again.
    Invalid,
}

/// A letter in lower case; every other character is left as it is.
pub open spec fn lower(c: char) -> char {
    if 'A' <= c && c <= 'Z' {
        ((c as u8 + 32) as u8) as char
    } else {
        c
    }
}

/// A text in lower case.
pub open spec fn lowered(s: Seq<char>) -> Seq<char> {
    Seq::new(s.len(), |i: int| lower(s[i]))
}

/// What a line of input says, given the default answer `y`, `n` or none: the
/// line counts without the white space around it and without regard to case.
pub open spec fn reply_of(line: Seq<char>, default: Seq<char>) -> Reply {
    let answer = lowered(trimmed(line));
    if answer == "y"@ || answer == "yes"@ {
        Reply::Yes
    } else if answer == "n"@ || answer == "no"@ {
        Reply::No
    } else if answer.len() == 0 {
        if default == "y"@ {
            Reply::Yes
        } else if default == "n"@ {
            Reply::No
        } else {
            Reply::Again
        }
    } else {
        Reply::Invalid
    }
}

/// What is put after the question: the answers to choose from, the default
/// one in upper case.
pub open spec fn choices(default: Seq<char>) -> Seq<char> {
    if default == "y"@ {
        " [Y/n] "@
    } else if default == "n"@ {
        " [y/N] "@
    } else {
        " [y/n] "@
    }
}

/// Whether the user has to be asked: neither `yes` nor `no` was given beforehand.
pub open spec fn asks_user(yes: bool, no: bool) -> bool {
    !no && !yes
}

/// Whether the operation goes ahead: not if `no` was given beforehand; else
/// if `yes` was given, or the user said yes.
pub open spec fn goes_ahead(yes: bool, no: bool, said_yes: bool) -> bool {
    !no && (yes || said_yes)
}

/// Whether the characters of `chars[from..to]`, in lower case, are `word`.
fn is_word(chars: &Vec<char>, from: usize, to: usize, word: &str) -> (r: bool)
    requires
        from <= to <= chars.len(),
    ensures
        r == (lowered(chars@.subrange(from as int, to as int)) == word@),
{
    let letters = chars_of(word);
    let ghost part = chars@.subrange(from as int, to as int);
    if letters.len() != to - from {
        return false;
    }
    let mut i: usize = 0;
    while i < letters.len()
        invariant
            from <= to <= chars.len(),
            letters.len() == to - from,
            letters@ == word@,
            part == chars@.subrange(from as int, to as int),
            i <= letters.len(),
            forall|j: int| 0 <= j < i ==> lowered(part)[j] == letters@[j],
        decreases letters.len() - i,
    {
        let c = chars[from + i];
        let folded = if c >= 'A' && c <= 'Z' {
            ((c as u8) + 32) as char
        } else {
            c
        };
        assert(folded == lower(part[i as int]));
        if folded != letters[i] {
            assert(lowered(part)[i as int] != word@[i as int]);
            return false;
        }
        i += 1;
    }
    assert(lowered(part) =~= word@);
    true
}

/// Reads the user's answer from a line of input.
pub fn read_reply(line: &str, default: &str) -> (r: Reply)
    ensures
        r == reply_of(line@, default@),
{
    let chars = chars_of(line);
    let (a, b) = trim_range(&chars, 0, chars.len());
    assert(chars@.subrange(0, chars.len() as int) =~= chars@);
    if is_word(&chars, a, b, "y") || is_word(&chars, a, b, "yes") {
        Reply::Yes
    } else if is_word(&chars, a, b, "n") || is_word(&chars, a, b, "no") {
        Reply::No
    } else if a == b {
        if same_text(default, "y") {
            Reply::Yes
        } else if same_text(default, "n") {
            Reply::No
        } else {
            Reply::Again
        }
    } else {
        Reply::Invalid
    }
}

/// The question as it is shown: the prompt, and the answers to choose from.
pub fn yes_no(prompt: &str, default: &str) -> (r: String)
    ensures
        r@ == prompt@ + choices(default@),
{
    let mut question = prompt.to_owned();
    if same_text(default, "y") {
        question.append(" [Y/n] ");
    } else if same_text(default, "n") {
        question.append(" [y/N] ");
    } else {
        question.append(" [y/n] ");
    }
    question
}

/// Whether the user has to be asked.
pub fn needs_reply(yes: bool, no: bool) -> (r: bool)
    ensures
        r == asks_user(yes, no),
{
    !no && !yes
}

/// Whether the operation goes ahead.
pub fn confirmed(yes: bool, no: bool, said_yes: bool) -> (r: bool)
    ensures
        r == goes_ahead(yes, no, said_yes),
{
    !(no || !(yes || said_yes))
}

} // verus!
