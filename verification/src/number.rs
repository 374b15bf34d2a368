//! Numbers as text: decimal rendering of integers, reading of decimal integers,
//! and the grammar of floating-point literals.
//!
//! Coordinates travel through this library as decimal text. A text is kept as
//! a coordinate exactly when it is a floating-point literal in the sense of
//! [`is_float_literal`], so that a consumer can always convert it.
use crate::text::{split, split_on, tail, texts, to_chars, to_text, Separator};
use vstd::prelude::*;

verus! {

/// One of the ten decimal digits.
pub open spec fn is_digit(c: char) -> bool {
    0x30 <= c as u32 <= 0x39
}

/// The number that a decimal digit denotes.
pub open spec fn digit_value(c: char) -> int {
    c as u32 - 0x30
}

/// The decimal digit of a number below ten.
pub open spec fn digit_char(d: int) -> char {
    if d == 0 {
        '0'
    } else if d == 1 {
        '1'
    } else if d == 2 {
        '2'
    } else if d == 3 {
        '3'
    } else if d == 4 {
        '4'
    } else if d == 5 {
        '5'
    } else if d == 6 {
        '6'
    } else if d == 7 {
        '7'
    } else if d == 8 {
        '8'
    } else {
        '9'
    }
}

/// The decimal digits of `n`, most significant first, without leading zeros.
pub open spec fn decimal_text(n: nat) -> Seq<char>
    decreases n,
{
    if n < 10 {
        seq![digit_char(n as int)]
    } else {
        decimal_text(n / 10).push(digit_char((n % 10) as int))
    }
}

/// The decimal text of an integer: a minus sign before the digits of a
/// negative one.
pub open spec fn signed_decimal_text(n: int) -> Seq<char> {
    if n < 0 {
        seq!['-'] + decimal_text((-n) as nat)
    } else {
        decimal_text(n as nat)
    }
}

/// The number that a run of decimal digits denotes.
pub open spec fn digits_value(s: Seq<char>) -> nat
    decreases s.len(),
{
    if s.len() == 0 {
        0
    } else {
        (digits_value(s.drop_last()) * 10 + digit_value(s.last())) as nat
    }
}

/// Nothing but digits, or nothing at all.
pub open spec fn all_digits(s: Seq<char>) -> bool {
    forall|i: int| 0 <= i < s.len() ==> is_digit(#[trigger] s[i])
}

/// One digit or more, and nothing else.
pub open spec fn is_digits(s: Seq<char>) -> bool {
    s.len() > 0 && all_digits(s)
}

/// 1 where `s` starts with `+` or `-`, else 0.
pub open spec fn sign_len(s: Seq<char>) -> int {
    if s.len() > 0 && (s[0] == '+' || s[0] == '-') {
        1
    } else {
        0
    }
}

/// `s` without its leading sign, if it has one.
pub open spec fn unsigned(s: Seq<char>) -> Seq<char> {
    s.skip(sign_len(s))
}

/// The integer that `s` denotes: an optional sign, then one digit or more,
/// and a value within the 32-bit signed range.
pub open spec fn decimal_i32(s: Seq<char>) -> Option<i32> {
    let body = unsigned(s);
    let magnitude = digits_value(body);
    let value = if s.len() > 0 && s[0] == '-' {
        -magnitude
    } else {
        magnitude as int
    };
    if is_digits(body) && i32::MIN <= value <= i32::MAX {
        Some(value as i32)
    } else {
        None
    }
}

/// Digits with at most one point among them, and at least one digit.
pub open spec fn is_mantissa(s: Seq<char>) -> bool {
    let parts = split(s, Separator::Char('.'));
    &&& parts.len() <= 2
    &&& forall|k: int| 0 <= k < parts.len() ==> all_digits(#[trigger] parts[k])
    &&& s.len() > parts.len() - 1
}

/// A mantissa, or a mantissa, `e` or `E`, and a signed run of digits.
pub open spec fn is_decimal(s: Seq<char>) -> bool {
    let parts = split(s, Separator::Either('e', 'E'));
    ||| parts.len() == 1 && is_mantissa(parts[0])
    ||| parts.len() == 2 && is_mantissa(parts[0]) && is_digits(unsigned(parts[1]))
}

/// `s` is spelled with the letters of `lower`, each in either case; `upper`
/// holds the same letters in upper case.
pub open spec fn is_word(s: Seq<char>, lower: Seq<char>, upper: Seq<char>) -> bool {
    &&& s.len() == lower.len()
    &&& forall|i: int| 0 <= i < s.len() ==> (#[trigger] s[i]) == lower[i] || s[i] == upper[i]
}

/// One of the names `inf`, `infinity` and `nan`, in any case.
pub open spec fn is_special(s: Seq<char>) -> bool {
    ||| is_word(s, seq!['i', 'n', 'f'], seq!['I', 'N', 'F'])
    ||| is_word(
        s,
        seq!['i', 'n', 'f', 'i', 'n', 'i', 't', 'y'],
        seq!['I', 'N', 'F', 'I', 'N', 'I', 'T', 'Y'],
    )
    ||| is_word(s, seq!['n', 'a', 'n'], seq!['N', 'A', 'N'])
}

/// The grammar of floating-point literals: an optional sign, then either a
/// special name or a decimal number with an optional exponent.
pub open spec fn is_float_literal(s: Seq<char>) -> bool {
    is_special(unsigned(s)) || is_decimal(unsigned(s))
}

fn digit_of(d: u64) -> (c: char)
    requires
        d < 10,
    ensures
        c == digit_char(d as int),
{
    if d == 0 {
        '0'
    } else if d == 1 {
        '1'
    } else if d == 2 {
        '2'
    } else if d == 3 {
        '3'
    } else if d == 4 {
        '4'
    } else if d == 5 {
        '5'
    } else if d == 6 {
        '6'
    } else if d == 7 {
        '7'
    } else if d == 8 {
        '8'
    } else {
        '9'
    }
}

/// Appends the decimal text of `n` to `out`.
pub fn push_decimal(out: &mut Vec<char>, n: u64)
    ensures
        final(out)@ == old(out)@ + decimal_text(n as nat),
    decreases n,
{
    if n >= 10 {
        push_decimal(out, n / 10);
    }
    out.push(digit_of(n % 10));
    assert(out@ =~= old(out)@ + decimal_text(n as nat));
}

/// Writes an unsigned integer in decimal.
pub fn decimal_of_u64(n: u64) -> (r: String)
    ensures
        r@ == decimal_text(n as nat),
{
    let mut chars: Vec<char> = Vec::new();
    push_decimal(&mut chars, n);
    assert(chars@ =~= decimal_text(n as nat));
    to_text(&chars)
}

/// Writes a signed integer in decimal.
pub fn decimal_of_i32(n: i32) -> (r: String)
    ensures
        r@ == signed_decimal_text(n as int),
{
    let mut chars: Vec<char> = Vec::new();
    if n < 0 {
        chars.push('-');
        let magnitude: u64 = (-(n as i64)) as u64;
        push_decimal(&mut chars, magnitude);
    } else {
        push_decimal(&mut chars, n as u64);
    }
    assert(chars@ =~= signed_decimal_text(n as int));
    to_text(&chars)
}

/// Whether the character is a decimal digit.
pub fn char_is_digit(c: char) -> (r: bool)
    ensures
        r == is_digit(c),
{
    let n: u32 = c as u32;
    0x30 <= n && n <= 0x39
}

/// Whether the text holds nothing but digits.
pub fn check_all_digits(chars: &Vec<char>) -> (r: bool)
    ensures
        r == all_digits(chars@),
{
    let mut i: usize = 0;
    while i < chars.len()
        invariant
            i <= chars.len(),
            forall|k: int| 0 <= k < i ==> is_digit(#[trigger] chars@[k]),
        decreases chars.len() - i,
    {
        if !char_is_digit(chars[i]) {
            return false;
        }
        i += 1;
    }
    true
}

/// The characters after the leading sign, if there is one.
pub fn without_sign(chars: &Vec<char>) -> (r: Vec<char>)
    ensures
        r@ == unsigned(chars@),
{
    if chars.len() > 0 && (chars[0] == '+' || chars[0] == '-') {
        tail(chars, 1)
    } else {
        tail(chars, 0)
    }
}

proof fn lemma_digits_value_grows(s: Seq<char>, i: int)
    requires
        0 <= i <= s.len(),
        all_digits(s),
    ensures
        digits_value(s.take(i)) <= digits_value(s),
    decreases s.len() - i,
{
    if i == s.len() {
        assert(s.take(i) =~= s);
    } else {
        let rest = s.drop_last();
        assert forall|k: int| 0 <= k < rest.len() implies is_digit(#[trigger] rest[k]) by {
            assert(rest[k] == s[k]);
        }
        lemma_digits_value_grows(rest, i);
        assert(rest.take(i) =~= s.take(i));
        assert(is_digit(s[s.len() - 1]));
    }
}

/// Reads a decimal integer of 32 bits.
pub fn parse_decimal_i32(text: &str) -> (r: Option<i32>)
    ensures
        r == decimal_i32(text@),
{
    let chars = to_chars(text);
    let negative = chars.len() > 0 && chars[0] == '-';
    let body = without_sign(&chars);
    if body.len() == 0 || !check_all_digits(&body) {
        return None;
    }
    let limit: u64 = 0x8000_0000;
    let mut magnitude: u64 = 0;
    let mut i: usize = 0;
    assert(body@.take(0) =~= Seq::<char>::empty());
    while i < body.len()
        invariant
            i <= body.len(),
            all_digits(body@),
            body@ == unsigned(text@),
            magnitude == digits_value(body@.take(i as int)),
            magnitude <= limit,
            limit == 0x8000_0000,
        decreases body.len() - i,
    {
        let c = body[i];
        assert(is_digit(body@[i as int]));
        let code: u32 = c as u32;
        let d: u64 = (code - 0x30) as u64;
        proof {
            let prefix = body@.take(i + 1);
            assert(prefix.drop_last() =~= body@.take(i as int));
            assert(prefix.last() == c);
            assert(digits_value(prefix) == digits_value(prefix.drop_last()) * 10 + digit_value(c));
        }
        let next: u64 = magnitude * 10 + d;
        if next > limit {
            proof {
                lemma_digits_value_grows(body@, i + 1);
            }
            return None;
        }
        magnitude = next;
        i += 1;
    }
    assert(body@.take(i as int) =~= body@);
    if negative {
        Some((-(magnitude as i64)) as i32)
    } else if magnitude < limit {
        Some(magnitude as i32)
    } else {
        None
    }
}

fn spells(chars: &Vec<char>, lower: &Vec<char>, upper: &Vec<char>) -> (r: bool)
    requires
        lower.len() == upper.len(),
    ensures
        r == is_word(chars@, lower@, upper@),
{
    if chars.len() != lower.len() {
        return false;
    }
    let mut i: usize = 0;
    while i < chars.len()
        invariant
            i <= chars.len(),
            chars.len() == lower.len(),
            lower.len() == upper.len(),
            forall|k: int| 0 <= k < i ==> (#[trigger] chars@[k]) == lower@[k] || chars@[k] == upper@[k],
        decreases chars.len() - i,
    {
        if chars[i] != lower[i] && chars[i] != upper[i] {
            return false;
        }
        i += 1;
    }
    true
}

fn check_special(chars: &Vec<char>) -> (r: bool)
    ensures
        r == is_special(chars@),
{
    let inf = vec!['i', 'n', 'f'];
    let inf_upper = vec!['I', 'N', 'F'];
    let infinity = vec!['i', 'n', 'f', 'i', 'n', 'i', 't', 'y'];
    let infinity_upper = vec!['I', 'N', 'F', 'I', 'N', 'I', 'T', 'Y'];
    let nan = vec!['n', 'a', 'n'];
    let nan_upper = vec!['N', 'A', 'N'];
    assert(inf@ =~= seq!['i', 'n', 'f']);
    assert(inf_upper@ =~= seq!['I', 'N', 'F']);
    assert(infinity@ =~= seq!['i', 'n', 'f', 'i', 'n', 'i', 't', 'y']);
    assert(infinity_upper@ =~= seq!['I', 'N', 'F', 'I', 'N', 'I', 'T', 'Y']);
    assert(nan@ =~= seq!['n', 'a', 'n']);
    assert(nan_upper@ =~= seq!['N', 'A', 'N']);
    spells(chars, &inf, &inf_upper) || spells(chars, &infinity, &infinity_upper) || spells(
        chars,
        &nan,
        &nan_upper,
    )
}

fn check_mantissa(chars: &Vec<char>) -> (r: bool)
    ensures
        r == is_mantissa(chars@),
{
    let parts = split_on(chars, Separator::Char('.'));
    if parts.len() > 2 || chars.len() < parts.len() {
        return false;
    }
    let mut k: usize = 0;
    while k < parts.len()
        invariant
            k <= parts.len(),
            texts(parts@) == split(chars@, Separator::Char('.')),
            forall|j: int| 0 <= j < k ==> all_digits(#[trigger] texts(parts@)[j]),
        decreases parts.len() - k,
    {
        if !check_all_digits(&parts[k]) {
            assert(!all_digits(texts(parts@)[k as int]));
            return false;
        }
        k += 1;
    }
    true
}

fn check_decimal(chars: &Vec<char>) -> (r: bool)
    ensures
        r == is_decimal(chars@),
{
    let parts = split_on(chars, Separator::Either('e', 'E'));
    assert(texts(parts@)[0] == parts[0]@);
    if parts.len() == 1 {
        check_mantissa(&parts[0])
    } else if parts.len() == 2 {
        assert(texts(parts@)[1] == parts[1]@);
        let exponent = without_sign(&parts[1]);
        check_mantissa(&parts[0]) && exponent.len() > 0 && check_all_digits(&exponent)
    } else {
        false
    }
}

/// Whether the text is a floating-point literal.
pub fn check_float_literal(chars: &Vec<char>) -> (r: bool)
    ensures
        r == is_float_literal(chars@),
{
    let body = without_sign(chars);
    check_special(&body) || check_decimal(&body)
}

} // verus!
