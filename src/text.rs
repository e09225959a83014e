//! Characters and decimal text: the lexical layer under expressions.
use vstd::prelude::*;

use vstd::string::*;

verus! {

/// The characters of the Unicode `White_Space` property, the set that
/// `char::is_whitespace` and `str::split_whitespace` go by.
pub open spec fn is_white_space(c: char) -> bool {
    ||| '\u{9}' <= c <= '\u{d}'
    ||| c == ' '
    ||| c == '\u{85}'
    ||| c == '\u{a0}'
    ||| c == '\u{1680}'
    ||| '\u{2000}' <= c <= '\u{200a}'
    ||| c == '\u{2028}'
    ||| c == '\u{2029}'
    ||| c == '\u{202f}'
    ||| c == '\u{205f}'
    ||| c == '\u{3000}'
}

/// Whether `c` is white space.
pub fn white_space(c: char) -> (r: bool)
    ensures
        r == is_white_space(c),
{
    ('\u{9}' <= c && c <= '\u{d}') || c == ' ' || c == '\u{85}' || c == '\u{a0}' || c == '\u{1680}'
        || ('\u{2000}' <= c && c <= '\u{200a}') || c == '\u{2028}' || c == '\u{2029}' || c
        == '\u{202f}' || c == '\u{205f}' || c == '\u{3000}'
}

/// `s` with every white-space character removed, the others kept in order.
pub open spec fn strip_white_space(s: Seq<char>) -> Seq<char>
    decreases s.len(),
{
    if s.len() == 0 {
        s
    } else if is_white_space(s.last()) {
        strip_white_space(s.drop_last())
    } else {
        strip_white_space(s.drop_last()).push(s.last())
    }
}

/// Relies on `String::push`, which appends one character to the end of the string.
pub assume_specification[ String::push ](s: &mut String, ch: char)
    ensures
        final(s)@ == old(s)@.push(ch),
;

/// Dropping white space a second time changes nothing.
pub proof fn lemma_strip_idempotent(s: Seq<char>)
    ensures
        strip_white_space(strip_white_space(s)) == strip_white_space(s),
    decreases s.len(),
{
    if s.len() > 0 {
        lemma_strip_idempotent(s.drop_last());
        let t = strip_white_space(s.drop_last());
        if !is_white_space(s.last()) {
            assert(t.push(s.last()).drop_last() == t);
        }
    }
}

/// `s` without white space, both as a `String` and as its characters.
pub fn strip_white_space_of(s: &str) -> (r: (String, Vec<char>))
    ensures
        r.0@ == strip_white_space(s@),
        r.1@ == strip_white_space(s@),
{
    broadcast use group_string_axioms;

    let mut out = String::new();
    let mut chars: Vec<char> = Vec::new();
    let ghost mut seen: Seq<char> = Seq::empty();
    for c in it: s.chars()
        invariant
            it.seq() == s@,
            seen == s@.take(it.index() as int),
            out@ == strip_white_space(seen),
            chars@ == out@,
    {
        proof {
            assert(seen.push(c).drop_last() == seen);
        }
        if !white_space(c) {
            out.push(c);
            chars.push(c);
        }
        proof {
            seen = seen.push(c);
        }
    }
    assert(seen == s@);
    (out, chars)
}

pub open spec fn is_digit(c: char) -> bool {
    '0' <= c <= '9'
}

pub open spec fn digit_value(c: char) -> nat {
    (c as u32 - '0' as u32) as nat
}

pub open spec fn all_digits(s: Seq<char>) -> bool {
    forall|i: int| 0 <= i < s.len() ==> is_digit(#[trigger] s[i])
}

/// The number that a run of decimal digits denotes (leading zeros allowed).
pub open spec fn digits_value(s: Seq<char>) -> nat
    decreases s.len(),
{
    if s.len() == 0 {
        0
    } else {
        10 * digits_value(s.drop_last()) + digit_value(s.last())
    }
}

/// The integer that `s` writes: an optional `+` or `-` and one or more decimal
/// digits, the grammar that `str::parse` accepts for signed integers.
pub open spec fn signed_value(s: Seq<char>) -> Option<int> {
    if s.len() > 1 && (s[0] == '+' || s[0] == '-') && all_digits(s.drop_first()) {
        if s[0] == '-' {
            Some(-digits_value(s.drop_first()))
        } else {
            Some(digits_value(s.drop_first()) as int)
        }
    } else if s.len() > 0 && all_digits(s) {
        Some(digits_value(s) as int)
    } else {
        None
    }
}

/// The integer that `s` writes: an optional `+` and one or more decimal digits,
/// the grammar that `str::parse` accepts for unsigned integers.
pub open spec fn unsigned_value(s: Seq<char>) -> Option<int> {
    if s.len() > 1 && s[0] == '+' && all_digits(s.drop_first()) {
        Some(digits_value(s.drop_first()) as int)
    } else if s.len() > 0 && all_digits(s) {
        Some(digits_value(s) as int)
    } else {
        None
    }
}

/// What `s.parse::<i8>()` gives: the value that `s` writes, if it is an `i8`.
pub open spec fn i8_value(s: Seq<char>) -> Option<i8> {
    match signed_value(s) {
        Some(x) => if i8::MIN <= x <= i8::MAX {
            Some(x as i8)
        } else {
            None
        },
        None => None,
    }
}

/// What `s.parse::<u8>()` gives: the value that `s` writes, if it is a `u8`.
pub open spec fn u8_value(s: Seq<char>) -> Option<u8> {
    match unsigned_value(s) {
        Some(x) => if x <= u8::MAX {
            Some(x as u8)
        } else {
            None
        },
        None => None,
    }
}

/// Whether `c` is a decimal digit.
pub fn digit(c: char) -> (r: bool)
    ensures
        r == is_digit(c),
{
    '0' <= c && c <= '9'
}

/// The value of the digits `v[lo..hi]`, exact up to 1000; any larger value
/// comes back as some number above 1000.
fn digits_capped(v: &Vec<char>, lo: usize, hi: usize) -> (r: u32)
    requires
        lo <= hi <= v@.len(),
        all_digits(v@.subrange(lo as int, hi as int)),
    ensures
        digits_value(v@.subrange(lo as int, hi as int)) <= 1000 ==> r == digits_value(
            v@.subrange(lo as int, hi as int),
        ),
        digits_value(v@.subrange(lo as int, hi as int)) > 1000 ==> r > 1000,
{
    let mut acc: u32 = 0;
    let mut i = lo;
    while i < hi
        invariant
            lo <= i <= hi <= v@.len(),
            all_digits(v@.subrange(lo as int, hi as int)),
            digits_value(v@.subrange(lo as int, i as int)) <= 1000 ==> acc == digits_value(
                v@.subrange(lo as int, i as int),
            ),
            digits_value(v@.subrange(lo as int, i as int)) > 1000 ==> acc > 1000,
            acc <= 10009,
        decreases hi - i,
    {
        let c = v[i];
        assert(v@.subrange(lo as int, i + 1).drop_last() == v@.subrange(lo as int, i as int));
        assert(is_digit(v@.subrange(lo as int, hi as int)[i - lo]));
        if acc <= 1000 {
            acc = acc * 10 + (c as u32 - '0' as u32);
        }
        i = i + 1;
    }
    acc
}

/// Parses `v[lo..hi]` as `str::parse::<i8>` does.
pub fn parse_i8(v: &Vec<char>, lo: usize, hi: usize) -> (r: Option<i8>)
    requires
        lo <= hi <= v@.len(),
    ensures
        r == i8_value(v@.subrange(lo as int, hi as int)),
{
    let ghost s = v@.subrange(lo as int, hi as int);
    if hi - lo > 1 && (v[lo] == '+' || v[lo] == '-') {
        assert(s.drop_first() == v@.subrange(lo + 1, hi as int));
        if !all_digits_in(v, lo + 1, hi) {
            return None;
        }
        let n = digits_capped(v, lo + 1, hi);
        if v[lo] == '-' {
            if n <= 128 {
                Some((0 - n as i32) as i8)
            } else {
                None
            }
        } else if n <= 127 {
            Some(n as i8)
        } else {
            None
        }
    } else if hi - lo > 0 && all_digits_in(v, lo, hi) {
        let n = digits_capped(v, lo, hi);
        if n <= 127 {
            Some(n as i8)
        } else {
            None
        }
    } else {
        None
    }
}

/// Parses `v[lo..hi]` as `str::parse::<u8>` does.
pub fn parse_u8(v: &Vec<char>, lo: usize, hi: usize) -> (r: Option<u8>)
    requires
        lo <= hi <= v@.len(),
    ensures
        r == u8_value(v@.subrange(lo as int, hi as int)),
{
    let ghost s = v@.subrange(lo as int, hi as int);
    if hi - lo > 1 && v[lo] == '+' {
        assert(s.drop_first() == v@.subrange(lo + 1, hi as int));
        if !all_digits_in(v, lo + 1, hi) {
            return None;
        }
        let n = digits_capped(v, lo + 1, hi);
        if n <= 255 {
            Some(n as u8)
        } else {
            None
        }
    } else if hi - lo > 0 && all_digits_in(v, lo, hi) {
        let n = digits_capped(v, lo, hi);
        if n <= 255 {
            Some(n as u8)
        } else {
            None
        }
    } else {
        None
    }
}

/// Whether every character of `v[lo..hi]` is a decimal digit.
pub fn all_digits_in(v: &Vec<char>, lo: usize, hi: usize) -> (r: bool)
    requires
        lo <= hi <= v@.len(),
    ensures
        r == all_digits(v@.subrange(lo as int, hi as int)),
{
    let mut i = lo;
    while i < hi
        invariant
            lo <= i <= hi <= v@.len(),
            forall|j: int| lo <= j < i ==> is_digit(#[trigger] v@[j]),
        decreases hi - i,
    {
        if !digit(v[i]) {
            assert(!is_digit(v@.subrange(lo as int, hi as int)[i - lo]));
            return false;
        }
        i = i + 1;
    }
    assert forall|j: int| 0 <= j < hi - lo implies is_digit(
        #[trigger] v@.subrange(lo as int, hi as int)[j],
    ) by {
        assert(v@.subrange(lo as int, hi as int)[j] == v@[lo + j]);
    }
    true
}

/// The character of the decimal digit `d` (below ten).
pub open spec fn digit_char(d: nat) -> char {
    ((d + 48) as u8) as char
}

/// The decimal digits of `n`, most significant first, without leading zeros.
pub open spec fn decimal(n: nat) -> Seq<char>
    decreases n,
{
    if n < 10 {
        seq![digit_char(n)]
    } else {
        decimal(n / 10).push(digit_char(n % 10))
    }
}

/// `n` in decimal, with a `-` before a negative value (`{}` formatting).
pub open spec fn int_text(n: int) -> Seq<char> {
    if n < 0 {
        seq!['-'] + decimal((-n) as nat)
    } else {
        decimal(n as nat)
    }
}

/// `n` in decimal, with its sign always written (`{:+}` formatting).
pub open spec fn signed_text(n: int) -> Seq<char> {
    if n < 0 {
        int_text(n)
    } else {
        seq!['+'] + decimal(n as nat)
    }
}

/// The characters of `s`.
pub fn chars_of(s: &str) -> (r: Vec<char>)
    ensures
        r@ == s@,
{
    broadcast use group_string_axioms;

    let mut chars: Vec<char> = Vec::new();
    let ghost mut seen: Seq<char> = Seq::empty();
    for c in it: s.chars()
        invariant
            it.seq() == s@,
            seen == s@.take(it.index() as int),
            chars@ == seen,
    {
        chars.push(c);
        proof {
            seen = seen.push(c);
        }
    }
    assert(seen == s@);
    chars
}

/// Appends the decimal digits of `n` to `out`.
pub fn push_decimal(out: &mut String, n: u128)
    ensures
        final(out)@ == old(out)@ + decimal(n as nat),
    decreases n,
{
    if n >= 10 {
        push_decimal(out, n / 10);
    }
    out.push(((n % 10) as u8 + 48) as char);
}

/// Appends `n` to `out` as `{}` formats it.
pub fn push_int(out: &mut String, n: i128)
    ensures
        final(out)@ == old(out)@ + int_text(n as int),
{
    if n < 0 {
        out.push('-');
        push_decimal(out, (-(n + 1)) as u128 + 1);
    } else {
        push_decimal(out, n as u128);
    }
}

/// Appends `n` to `out` as `{:+}` formats it.
pub fn push_signed(out: &mut String, n: i128)
    ensures
        final(out)@ == old(out)@ + signed_text(n as int),
{
    if n < 0 {
        push_int(out, n);
    } else {
        out.push('+');
        push_decimal(out, n as u128);
    }
}

/// Appends the characters of `s` to `out`.
pub fn push_all(out: &mut String, s: &str)
    ensures
        final(out)@ == old(out)@ + s@,
{
    broadcast use group_string_axioms;

    let ghost start = out@;
    let ghost mut seen: Seq<char> = Seq::empty();
    for c in it: s.chars()
        invariant
            it.seq() == s@,
            seen == s@.take(it.index() as int),
            out@ == start + seen,
    {
        out.push(c);
        proof {
            seen = seen.push(c);
        }
    }
    assert(seen == s@);
}

} // verus!
