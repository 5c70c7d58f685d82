//! Unsigned numbers as text: how they are read and how they are written.
//!
//! Reading follows the rules of the standard library's integer parsing (an
//! optional `+`, then one or more digits of the radix, the value within the
//! bound of the type). Writing gives the shortest decimal form, or upper-case
//! hexadecimal digits padded with zeros to a fixed width.

use vstd::prelude::*;

verus! {

/// The value of `c` as a digit of `radix` (10 or 16), if it is one.
pub open spec fn digit_of(c: char, radix: nat) -> Option<nat> {
    let code = c as u32 as nat;
    if 48 <= code <= 57 {
        Some((code - 48) as nat)
    } else if radix == 16 && 97 <= code <= 102 {
        Some((code - 87) as nat)
    } else if radix == 16 && 65 <= code <= 70 {
        Some((code - 55) as nat)
    } else {
        None
    }
}

/// Every character of `s` is a digit of `radix`.
pub open spec fn all_digits(s: Seq<char>, radix: nat) -> bool {
    forall|i: int| 0 <= i < s.len() ==> (#[trigger] digit_of(s[i], radix)) is Some
}

/// The number that the digits of `s` spell, most significant digit first.
pub open spec fn digits_value(s: Seq<char>, radix: nat) -> nat
    decreases s.len(),
{
    if s.len() == 0 {
        0
    } else {
        digits_value(s.drop_last(), radix) * radix + match digit_of(s.last(), radix) {
            Some(d) => d,
            None => 0,
        }
    }
}

/// The text without one leading `+`, if it has one.
pub open spec fn unsigned_body(s: Seq<char>) -> Seq<char> {
    if s.len() > 0 && s[0] == '+' {
        s.drop_first()
    } else {
        s
    }
}

/// The number that `s` spells: an optional `+`, then at least one digit.
pub open spec fn unsigned_value(s: Seq<char>, radix: nat) -> Option<nat> {
    let body = unsigned_body(s);
    if body.len() > 0 && all_digits(body, radix) {
        Some(digits_value(body, radix))
    } else {
        None
    }
}

/// The number that `s` spells, if it is at most `max`.
pub open spec fn bounded_value(s: Seq<char>, radix: nat, max: nat) -> Option<nat> {
    match unsigned_value(s, radix) {
        Some(n) => if n <= max {
            Some(n)
        } else {
            None
        },
        None => None,
    }
}

/// The character that writes the digit `d` (upper case above nine).
pub open spec fn digit_char(d: nat) -> char {
    if d == 0 {
        '0'
    } else if d == 1 {
        '1'
    } else if d == 2 {
        '2'
    } else if d == 3 {
        '3'
    } else if d == 4 {
        '4'
    } else if d == 5 {
        '5'
    } else if d == 6 {
        '6'
    } else if d == 7 {
        '7'
    } else if d == 8 {
        '8'
    } else if d == 9 {
        '9'
    } else if d == 10 {
        'A'
    } else if d == 11 {
        'B'
    } else if d == 12 {
        'C'
    } else if d == 13 {
        'D'
    } else if d == 14 {
        'E'
    } else {
        'F'
    }
}

/// The shortest decimal form of `n`.
pub open spec fn decimal_text(n: nat) -> Seq<char>
    decreases n,
{
    if n < 10 {
        seq![digit_char(n)]
    } else {
        decimal_text(n / 10).push(digit_char(n % 10))
    }
}

/// The last `width` hexadecimal digits of `n`, upper case.
pub open spec fn hex_text(n: nat, width: nat) -> Seq<char>
    decreases width,
{
    if width == 0 {
        Seq::empty()
    } else {
        hex_text(n / 16, (width - 1) as nat).push(digit_char(n % 16))
    }
}

/// `radix` to the power `k`.
pub open spec fn radix_power(radix: nat, k: nat) -> nat
    decreases k,
{
    if k == 0 {
        1
    } else {
        radix_power(radix, (k - 1) as nat) * radix
    }
}

/// A decimal text in its shortest form: digits only, no leading zero but for
/// the number zero itself.
pub open spec fn is_plain_decimal(s: Seq<char>) -> bool {
    &&& s.len() > 0
    &&& all_digits(s, 10)
    &&& (s.len() > 1 ==> s[0] != '0')
}

/// A text of upper-case hexadecimal digits.
pub open spec fn is_upper_hex(s: Seq<char>) -> bool {
    forall|i: int|
        0 <= i < s.len() ==> {
            let code = (#[trigger] s[i]) as u32;
            48 <= code <= 57 || 65 <= code <= 70
        }
}

/// Each digit character is read back as the digit it writes.
pub proof fn lemma_digit_char_value(d: nat, radix: nat)
    requires
        d < radix,
        radix == 10 || radix == 16,
    ensures
        digit_of(digit_char(d), radix) == Some(d),
        digit_char(d) != '+',
        digit_char(d) != ':',
        (digit_char(d) == '0') == (d == 0),
        48 <= digit_char(d) as u32 <= 57 || 65 <= digit_char(d) as u32 <= 70,
{
}

/// A digit of the decimal or upper-case hexadecimal kind is written back as
/// itself.
pub proof fn lemma_digit_of_char(c: char, radix: nat)
    requires
        radix == 10 || radix == 16,
        digit_of(c, radix) is Some,
        48 <= c as u32 <= 57 || 65 <= c as u32 <= 70,
    ensures
        digit_char(digit_of(c, radix).unwrap()) == c,
        digit_of(c, radix).unwrap() < radix,
{
}

/// The value of a text bounds the value of each of its prefixes.
pub proof fn lemma_prefix_value(s: Seq<char>, k: int, radix: nat)
    requires
        0 <= k <= s.len(),
        radix >= 1,
    ensures
        digits_value(s.take(k), radix) <= digits_value(s, radix),
    decreases s.len(),
{
    if k == s.len() {
        assert(s.take(k) =~= s);
    } else {
        lemma_prefix_value(s.drop_last(), k, radix);
        assert(s.drop_last().take(k) =~= s.take(k));
        let v = digits_value(s.drop_last(), radix);
        assert(v * radix >= v) by (nonlinear_arith)
            requires
                radix >= 1,
                v >= 0,
        ;
    }
}

/// Reading a text one digit further.
pub proof fn lemma_value_step(s: Seq<char>, k: int, radix: nat)
    requires
        0 <= k < s.len(),
    ensures
        digits_value(s.take(k + 1), radix) == digits_value(s.take(k), radix) * radix + match digit_of(
            s[k],
            radix,
        ) {
            Some(d) => d,
            None => 0,
        },
{
    assert(s.take(k + 1).drop_last() =~= s.take(k));
    assert(s.take(k + 1).last() == s[k]);
}

/// The decimal form of a number is plain and spells that number.
pub proof fn lemma_decimal_text(n: nat)
    ensures
        is_plain_decimal(decimal_text(n)),
        digits_value(decimal_text(n), 10) == n,
        unsigned_value(decimal_text(n), 10) == Some(n),
        forall|i: int| 0 <= i < decimal_text(n).len() ==> (#[trigger] decimal_text(n)[i]) != ':',
        n > 0 ==> decimal_text(n)[0] != '0',
    decreases n,
{
    let s = decimal_text(n);
    if n < 10 {
        lemma_digit_char_value(n, 10);
        assert(s.drop_last() =~= Seq::<char>::empty());
        assert(digits_value(s.drop_last(), 10) == 0);
        assert(s.last() == digit_char(n));
    } else {
        let p = decimal_text(n / 10);
        lemma_decimal_text(n / 10);
        lemma_digit_char_value(n % 10, 10);
        assert(s.drop_last() =~= p);
        assert(s.last() == digit_char(n % 10));
        assert(s[0] == p[0]);
        assert forall|i: int| 0 <= i < s.len() implies (#[trigger] digit_of(s[i], 10)) is Some by {
            if i < p.len() {
                assert(s[i] == p[i]);
            }
        }
        assert forall|i: int| 0 <= i < s.len() implies (#[trigger] s[i]) != ':' by {
            if i < p.len() {
                assert(s[i] == p[i]);
            }
        }
    }
    assert(s[0] != '+') by {
        assert(digit_of(s[0], 10) is Some);
    }
    assert(unsigned_body(s) == s);
}

/// A plain decimal text is the decimal form of the number it spells.
pub proof fn lemma_plain_decimal(s: Seq<char>)
    requires
        is_plain_decimal(s),
    ensures
        decimal_text(digits_value(s, 10)) == s,
        s.len() > 1 ==> digits_value(s, 10) >= 10,
    decreases s.len(),
{
    let d = digit_of(s.last(), 10).unwrap();
    assert(digit_of(s.last(), 10) is Some);
    lemma_digit_of_char(s.last(), 10);
    if s.len() == 1 {
        assert(s.drop_last() =~= Seq::<char>::empty());
        assert(digits_value(s.drop_last(), 10) == 0);
        assert(digits_value(s, 10) == d);
        assert(decimal_text(d) =~= s);
    } else {
        let p = s.drop_last();
        assert forall|i: int| 0 <= i < p.len() implies (#[trigger] digit_of(p[i], 10)) is Some by {
            assert(p[i] == s[i]);
        }
        assert(p[0] == s[0]);
        lemma_plain_decimal(p);
        let v = digits_value(p, 10);
        assert(v >= 1) by {
            if p.len() == 1 {
                assert(p.drop_last() =~= Seq::<char>::empty());
                assert(digits_value(p.drop_last(), 10) == 0);
                assert(digit_of(p[0], 10) is Some);
                assert(p.last() == p[0]);
            }
        }
        assert(digits_value(s, 10) == v * 10 + d);
        assert((v * 10 + d) / 10 == v);
        assert((v * 10 + d) % 10 == d);
        assert(decimal_text(v * 10 + d) =~= s);
    }
}

/// The fixed-width hexadecimal form has that width and is upper case; where
/// the number is below sixteen to the width, the form spells it.
pub proof fn lemma_hex_text(n: nat, width: nat)
    ensures
        hex_text(n, width).len() == width,
        is_upper_hex(hex_text(n, width)),
        all_digits(hex_text(n, width), 16),
        n < radix_power(16, width) ==> digits_value(hex_text(n, width), 16) == n,
        forall|i: int| 0 <= i < width ==> (#[trigger] hex_text(n, width)[i]) != '+',
    decreases width,
{
    let s = hex_text(n, width);
    if width == 0 {
    } else {
        let w = (width - 1) as nat;
        let p = hex_text(n / 16, w);
        lemma_hex_text(n / 16, w);
        lemma_digit_char_value(n % 16, 16);
        assert(s.drop_last() =~= p);
        assert(s.last() == digit_char(n % 16));
        assert forall|i: int| 0 <= i < s.len() implies (#[trigger] digit_of(s[i], 16)) is Some by {
            if i < p.len() {
                assert(s[i] == p[i]);
            }
        }
        assert forall|i: int| 0 <= i < s.len() implies {
            let code = (#[trigger] s[i]) as u32;
            48 <= code <= 57 || 65 <= code <= 70
        } by {
            if i < p.len() {
                assert(s[i] == p[i]);
            }
        }
        assert forall|i: int| 0 <= i < s.len() implies (#[trigger] s[i]) != '+' by {
            if i < p.len() {
                assert(s[i] == p[i]);
            }
        }
    }
}

/// A power of a positive radix is positive.
pub proof fn lemma_power_positive(radix: nat, k: nat)
    requires
        radix >= 1,
    ensures
        radix_power(radix, k) >= 1,
    decreases k,
{
    if k > 0 {
        lemma_power_positive(radix, (k - 1) as nat);
        let p = radix_power(radix, (k - 1) as nat);
        assert(p * radix >= 1) by (nonlinear_arith)
            requires
                p >= 1,
                radix >= 1,
        ;
    }
}

/// A text of digits spells a number below the radix to the power of its
/// length.
pub proof fn lemma_value_below_power(s: Seq<char>, radix: nat)
    requires
        radix == 10 || radix == 16,
        all_digits(s, radix),
    ensures
        digits_value(s, radix) < radix_power(radix, s.len()),
    decreases s.len(),
{
    if s.len() > 0 {
        let p = s.drop_last();
        assert forall|i: int| 0 <= i < p.len() implies (#[trigger] digit_of(p[i], radix)) is Some by {
            assert(p[i] == s[i]);
        }
        lemma_value_below_power(p, radix);
        assert(digit_of(s.last(), radix) is Some);
        let d = digit_of(s.last(), radix).unwrap();
        let v = digits_value(p, radix);
        let m = radix_power(radix, p.len());
        assert(v * radix + d < m * radix) by (nonlinear_arith)
            requires
                v < m,
                d < radix,
        ;
    }
}

/// An upper-case hexadecimal text is the fixed-width form of the number it
/// spells.
pub proof fn lemma_upper_hex(s: Seq<char>)
    requires
        is_upper_hex(s),
    ensures
        all_digits(s, 16),
        hex_text(digits_value(s, 16), s.len()) == s,
    decreases s.len(),
{
    assert forall|i: int| 0 <= i < s.len() implies (#[trigger] digit_of(s[i], 16)) is Some by {
        let code = s[i] as u32;
        assert(48 <= code <= 57 || 65 <= code <= 70);
    }
    if s.len() == 0 {
        assert(hex_text(digits_value(s, 16), 0) =~= s);
    } else {
        let p = s.drop_last();
        assert forall|i: int| 0 <= i < p.len() implies {
            let code = (#[trigger] p[i]) as u32;
            48 <= code <= 57 || 65 <= code <= 70
        } by {
            assert(p[i] == s[i]);
        }
        lemma_upper_hex(p);
        let c = s.last();
        assert(48 <= c as u32 <= 57 || 65 <= c as u32 <= 70) by {
            assert(c == s[s.len() - 1]);
        }
        lemma_digit_of_char(c, 16);
        let d = digit_of(c, 16).unwrap();
        let v = digits_value(p, 16);
        assert((v * 16 + d) / 16 == v);
        assert((v * 16 + d) % 16 == d);
        assert(hex_text(v * 16 + d, s.len()) =~= s);
    }
}

/// The digit that `c` writes in `radix`, if any.
pub fn read_digit(c: char, radix: u32) -> (r: Option<u32>)
    requires
        radix == 10 || radix == 16,
    ensures
        r is Some == digit_of(c, radix as nat) is Some,
        r is Some ==> r.unwrap() as nat == digit_of(c, radix as nat).unwrap() && r.unwrap() < radix,
{
    let code: u32 = c as u32;
    if 48 <= code && code <= 57 {
        Some(code - 48)
    } else if radix == 16 && 97 <= code && code <= 102 {
        Some(code - 87)
    } else if radix == 16 && 65 <= code && code <= 70 {
        Some(code - 55)
    } else {
        None
    }
}

/// Reads the characters of `text` from `from` up to `to` as an unsigned number
/// of at most `max`.
pub fn read_unsigned(text: &Vec<char>, from: usize, to: usize, radix: u32, max: u128) -> (r: Option<
    u128,
>)
    requires
        from <= to <= text.len(),
        radix == 10 || radix == 16,
    ensures
        r is Some == bounded_value(text@.subrange(from as int, to as int), radix as nat, max as nat) is Some,
        r is Some ==> r.unwrap() as nat == bounded_value(
            text@.subrange(from as int, to as int),
            radix as nat,
            max as nat,
        ).unwrap(),
{
    let ghost whole = text@.subrange(from as int, to as int);
    let mut start: usize = from;
    if start < to && text[start] == '+' {
        start = start + 1;
    }
    let ghost body = unsigned_body(whole);
    assert(body =~= text@.subrange(start as int, to as int)) by {
        if from < to {
            assert(whole[0] == text@[from as int]);
        }
    }
    if start == to {
        return None;
    }
    let mut acc: u128 = 0;
    let mut i: usize = start;
    while i < to
        invariant
            from <= start <= i <= to <= text.len(),
            start < to,
            radix == 10 || radix == 16,
            whole == text@.subrange(from as int, to as int),
            body == unsigned_body(whole),
            body == text@.subrange(start as int, to as int),
            all_digits(body.take(i - start), radix as nat),
            acc as nat == digits_value(body.take(i - start), radix as nat),
            acc <= max,
        decreases to - i,
    {
        let ghost k = (i - start) as int;
        proof {
            lemma_value_step(body, k, radix as nat);
            assert(body[k] == text@[i as int]);
        }
        let digit = read_digit(text[i], radix);
        match digit {
            None => {
                assert(digit_of(body[k], radix as nat) is None);
                return None;
            },
            Some(d) => {
                let next = match acc.checked_mul(radix as u128) {
                    Some(m) => m.checked_add(d as u128),
                    None => None,
                };
                let ghost grown = digits_value(body.take(k + 1), radix as nat);
                proof {
                    lemma_prefix_value(body, k + 1, radix as nat);
                }
                match next {
                    Some(n) => {
                        if n > max {
                            return None;
                        }
                        acc = n;
                    },
                    None => {
                        return None;
                    },
                }
                proof {
                    assert forall|j: int| 0 <= j < k + 1 implies (#[trigger] digit_of(
                        body.take(k + 1)[j],
                        radix as nat,
                    )) is Some by {
                        if j < k {
                            assert(body.take(k)[j] == body.take(k + 1)[j]);
                        }
                    }
                }
                i = i + 1;
            },
        }
    }
    assert(body.take(i - start) =~= body);
    Some(acc)
}

/// The character that writes the digit `d`.
pub fn write_digit(d: u8) -> (c: char)
    requires
        d < 16,
    ensures
        c == digit_char(d as nat),
{
    match d {
        0 => '0',
        1 => '1',
        2 => '2',
        3 => '3',
        4 => '4',
        5 => '5',
        6 => '6',
        7 => '7',
        8 => '8',
        9 => '9',
        10 => 'A',
        11 => 'B',
        12 => 'C',
        13 => 'D',
        14 => 'E',
        _ => 'F',
    }
}

/// `String::push` appends the character to the end of the string.
pub assume_specification[ String::push ](s: &mut String, c: char)
    ensures
        final(s)@ == old(s)@.push(c),
;

/// Two string slices are equal exactly when they hold the same characters.
pub assume_specification[ <str as PartialEq>::eq ](a: &str, b: &str) -> (r: bool)
    ensures
        r == (a@ == b@),
;

/// Whether two texts hold the same characters.
pub fn same_text(a: &str, b: &str) -> (r: bool)
    ensures
        r == (a@ == b@),
{
    <str as PartialEq>::eq(a, b)
}

/// The characters of `v`, one by one.
pub fn chars_of(v: &str) -> (chars: Vec<char>)
    ensures
        chars@ == v@,
{
    let n: usize = v.unicode_len();
    let mut chars: Vec<char> = Vec::new();
    let mut i: usize = 0;
    while i < n
        invariant
            i <= n,
            n == v@.len(),
            chars@ == v@.take(i as int),
        decreases n - i,
    {
        chars.push(v.get_char(i));
        i = i + 1;
        assert(chars@ =~= v@.take(i as int));
    }
    assert(v@.take(n as int) =~= v@);
    chars
}

/// Appends the decimal form of `n` to `out`.
pub fn push_decimal(out: &mut String, n: usize)
    ensures
        final(out)@ == old(out)@ + decimal_text(n as nat),
    decreases n,
{
    if n < 10 {
        out.push(write_digit(n as u8));
        assert(out@ =~= old(out)@ + decimal_text(n as nat));
    } else {
        push_decimal(out, n / 10);
        out.push(write_digit((n % 10) as u8));
        assert(out@ =~= old(out)@ + decimal_text(n as nat));
    }
}

/// Appends the last `width` hexadecimal digits of `n` to `out`.
pub fn push_hex(out: &mut String, n: u128, width: usize)
    ensures
        final(out)@ == old(out)@ + hex_text(n as nat, width as nat),
    decreases width,
{
    if width == 0 {
        assert(out@ =~= old(out)@ + hex_text(n as nat, 0));
    } else {
        push_hex(out, n / 16, width - 1);
        out.push(write_digit((n % 16) as u8));
        assert(out@ =~= old(out)@ + hex_text(n as nat, width as nat));
    }
}

/// Whether the text `a` comes before the text `b` in the order of texts:
/// character by character, a shorter text before its extensions.
pub open spec fn text_lt(a: Seq<char>, b: Seq<char>) -> bool
    decreases a.len(),
{
    if b.len() == 0 {
        false
    } else if a.len() == 0 {
        true
    } else if a[0] != b[0] {
        (a[0] as u32) < (b[0] as u32)
    } else {
        text_lt(a.drop_first(), b.drop_first())
    }
}

/// Whether the text `a` comes before the text `b` in the order of texts.
pub fn text_before(a: &str, b: &str) -> (before: bool)
    ensures
        before == text_lt(a@, b@),
{
    let left = chars_of(a);
    let right = chars_of(b);
    let mut i: usize = 0;
    assert(a@.skip(0) =~= a@ && b@.skip(0) =~= b@);
    while i < left.len() && i < right.len()
        invariant
            i <= left@.len(),
            i <= right@.len(),
            left@ == a@,
            right@ == b@,
            text_lt(a@, b@) == text_lt(a@.skip(i as int), b@.skip(i as int)),
        decreases left@.len() - i,
    {
        let ghost x = a@.skip(i as int);
        let ghost y = b@.skip(i as int);
        assert(x[0] == left@[i as int] && y[0] == right@[i as int]);
        assert(x.drop_first() =~= a@.skip(i + 1));
        assert(y.drop_first() =~= b@.skip(i + 1));
        if left[i] != right[i] {
            return (left[i] as u32) < (right[i] as u32);
        }
        i = i + 1;
    }
    i < right.len()
}

/// The number of the machine's range that a text spells in decimal.
pub open spec fn usize_value(s: Seq<char>) -> Option<usize> {
    match bounded_value(s, 10, usize::MAX as nat) {
        Some(n) => Some(n as usize),
        None => None,
    }
}

/// Reads a number of the machine's range from its decimal text.
pub fn parse_usize(v: &str) -> (r: Option<usize>)
    ensures
        r == usize_value(v@),
{
    let text = chars_of(v);
    assert(text@.subrange(0, text@.len() as int) =~= v@);
    match read_unsigned(&text, 0, text.len(), 10, usize::MAX as u128) {
        Some(n) => Some(n as usize),
        None => None,
    }
}

} // verus!
