//! How the values of a GraphML recording are written: numbers with a sign,
//! times that may come as decimals, and truth values in any case of letters.

use crate::text::{bounded_value, chars_of, read_unsigned, same_text};
use vstd::prelude::*;

verus! {

/// The number of the machine's signed range that a text spells: an optional
/// `+` or `-`, then at least one decimal digit.
pub open spec fn isize_value(s: Seq<char>) -> Option<isize> {
    if s.len() > 0 && s[0] == '-' {
        let body = s.drop_first();
        if body.len() > 0 && body[0] != '+' {
            match bounded_value(body, 10, (isize::MAX + 1) as nat) {
                Some(n) => Some((0 - n) as isize),
                None => None,
            }
        } else {
            None
        }
    } else {
        match bounded_value(s, 10, isize::MAX as nat) {
            Some(n) => Some(n as isize),
            None => None,
        }
    }
}

/// The 64-bit number that a text spells.
pub open spec fn u64_value(s: Seq<char>) -> Option<u64> {
    match bounded_value(s, 10, u64::MAX as nat) {
        Some(n) => Some(n as u64),
        None => None,
    }
}

/// How much of `s` is left when every `c` at its end is taken off.
pub open spec fn trimmed_len(s: Seq<char>, c: char) -> int
    decreases s.len(),
{
    if s.len() > 0 && s.last() == c {
        trimmed_len(s.drop_last(), c)
    } else {
        s.len() as int
    }
}

/// The text of a time without what follows its whole part: a time that is
/// written with a point loses the zeros at its end, then the points at its
/// end.
pub open spec fn time_text(s: Seq<char>) -> Seq<char> {
    if s.contains('.') {
        let cut = s.take(trimmed_len(s, '0'));
        cut.take(trimmed_len(cut, '.'))
    } else {
        s
    }
}

/// The time that a text gives. A time written with a point must spell a
/// whole number once it is cut; another text that spells no number gives the
/// time zero.
pub open spec fn timestamp_value(s: Seq<char>) -> Option<isize> {
    if s.contains('.') {
        isize_value(time_text(s))
    } else {
        match isize_value(s) {
            Some(at) => Some(at),
            None => Some(0),
        }
    }
}

/// Whether `s` is `word`, which is in small letters, in any case of letters.
pub open spec fn is_word_loosely(s: Seq<char>, word: Seq<char>) -> bool {
    s.len() == word.len() && forall|i: int|
        0 <= i < s.len() ==> #[trigger] s[i] == word[i] || (65 <= s[i] as u32 <= 90 && s[i] as u32
            + 32 == word[i] as u32)
}

/// The truth value that a text gives, in any case of letters.
pub open spec fn loose_bool_value(s: Seq<char>) -> Option<bool> {
    if is_word_loosely(s, "true"@) {
        Some(true)
    } else if is_word_loosely(s, "false"@) {
        Some(false)
    } else {
        None
    }
}

/// The truth value that a text gives: `true` or `false`.
pub open spec fn bool_value(s: Seq<char>) -> Option<bool> {
    if s == "true"@ {
        Some(true)
    } else if s == "false"@ {
        Some(false)
    } else {
        None
    }
}

/// Reads a signed number from the characters of `text` up to `to`.
pub fn read_isize(text: &Vec<char>, to: usize) -> (r: Option<isize>)
    requires
        to <= text.len(),
    ensures
        r == isize_value(text@.take(to as int)),
{
    let ghost s = text@.take(to as int);
    assert(s =~= text@.subrange(0, to as int));
    if to > 0 && text[0] == '-' {
        assert(s.drop_first() =~= text@.subrange(1, to as int));
        if to > 1 && text[1] != '+' {
            match read_unsigned(text, 1, to, 10, isize::MAX as u128 + 1) {
                Some(n) => {
                    if n == isize::MAX as u128 + 1 {
                        Some(isize::MIN)
                    } else {
                        Some(0 - (n as isize))
                    }
                },
                None => None,
            }
        } else {
            None
        }
    } else {
        match read_unsigned(text, 0, to, 10, isize::MAX as u128) {
            Some(n) => Some(n as isize),
            None => None,
        }
    }
}

/// How much of the first `to` characters of `text` is left when every `c` at
/// their end is taken off.
pub fn trim_end(text: &Vec<char>, to: usize, c: char) -> (left: usize)
    requires
        to <= text.len(),
    ensures
        left == trimmed_len(text@.take(to as int), c),
        left <= to,
{
    let mut left: usize = to;
    while left > 0 && text[left - 1] == c
        invariant
            left <= to <= text.len(),
            trimmed_len(text@.take(to as int), c) == trimmed_len(text@.take(left as int), c),
        decreases left,
    {
        assert(text@.take(left as int).last() == text@[left - 1]);
        assert(text@.take(left as int).drop_last() =~= text@.take(left - 1));
        left = left - 1;
    }
    proof {
        if left > 0 {
            assert(text@.take(left as int).last() == text@[left - 1]);
        }
    }
    left
}

/// Whether the character `c` stands in `text`.
pub fn has_char(text: &Vec<char>, c: char) -> (has: bool)
    ensures
        has == text@.contains(c),
{
    let mut i: usize = 0;
    while i < text.len()
        invariant
            i <= text@.len(),
            forall|j: int| 0 <= j < i ==> text@[j] != c,
        decreases text@.len() - i,
    {
        if text[i] == c {
            return true;
        }
        i = i + 1;
    }
    false
}

/// Reads a time.
pub fn parse_timestamp(v: &str) -> (r: Option<isize>)
    ensures
        r == timestamp_value(v@),
{
    let text = chars_of(v);
    if has_char(&text, '.') {
        let cut = trim_end(&text, text.len(), '0');
        assert(text@.take(text@.len() as int) =~= text@);
        let left = trim_end(&text, cut, '.');
        assert(text@.take(cut as int).take(left as int) =~= text@.take(left as int));
        read_isize(&text, left)
    } else {
        assert(text@.take(text@.len() as int) =~= text@);
        match read_isize(&text, text.len()) {
            Some(at) => Some(at),
            None => Some(0),
        }
    }
}

/// Reads a 64-bit number.
pub fn parse_u64(v: &str) -> (r: Option<u64>)
    ensures
        r == u64_value(v@),
{
    let text = chars_of(v);
    assert(text@.subrange(0, text@.len() as int) =~= v@);
    match read_unsigned(&text, 0, text.len(), 10, u64::MAX as u128) {
        Some(n) => Some(n as u64),
        None => None,
    }
}

/// Whether `v` is `word`, which is in small letters, in any case of letters.
pub fn word_loosely(v: &str, word: &str) -> (is: bool)
    ensures
        is == is_word_loosely(v@, word@),
{
    let text = chars_of(v);
    let want = chars_of(word);
    if text.len() != want.len() {
        return false;
    }
    let mut i: usize = 0;
    while i < text.len()
        invariant
            i <= text@.len(),
            text@.len() == want@.len(),
            text@ == v@,
            want@ == word@,
            forall|j: int|
                0 <= j < i ==> #[trigger] text@[j] == want@[j] || (65 <= text@[j] as u32 <= 90
                    && text@[j] as u32 + 32 == want@[j] as u32),
        decreases text@.len() - i,
    {
        let c: u32 = text[i] as u32;
        let w: u32 = want[i] as u32;
        let same = text[i] == want[i] || (65 <= c && c <= 90 && c + 32 == w);
        if !same {
            assert(!(text@[i as int] == want@[i as int] || (65 <= text@[i as int] as u32 <= 90
                && text@[i as int] as u32 + 32 == want@[i as int] as u32)));
            return false;
        }
        i = i + 1;
    }
    true
}

/// Reads a truth value in any case of letters.
pub fn parse_loose_bool(v: &str) -> (r: Option<bool>)
    ensures
        r == loose_bool_value(v@),
{
    if word_loosely(v, "true") {
        Some(true)
    } else if word_loosely(v, "false") {
        Some(false)
    } else {
        None
    }
}

/// Reads a truth value.
pub fn parse_bool(v: &str) -> (r: Option<bool>)
    ensures
        r == bool_value(v@),
{
    if same_text(v, "true") {
        Some(true)
    } else if same_text(v, "false") {
        Some(false)
    } else {
        None
    }
}

} // verus!
