//! Numbers of the language: IEEE-754 binary64 values, held as their 64-bit
//! patterns.
//!
//! Classification, negation, equality and ordering are computed on the bit
//! pattern directly. Rounded arithmetic and the conversions from and to decimal
//! text are done by the `rustc_apfloat` software implementation.

use vstd::prelude::*;
use vstd::string::*;
use crate::text::{chars_of, push_char};
use rustc_apfloat::ieee::Double;
use rustc_apfloat::Float;

verus! {

/// The sign bit of a binary64 pattern.
pub const SIGN_MASK: u64 = 0x8000_0000_0000_0000;

/// The exponent field of a binary64 pattern; also the pattern of +infinity.
pub const EXPONENT_MASK: u64 = 0x7ff0_0000_0000_0000;

/// Everything but the sign bit.
pub const MAGNITUDE_MASK: u64 = 0x7fff_ffff_ffff_ffff;

/// The largest precision, in significant decimal digits, tried when searching
/// for the shortest text of a number.
pub const MAX_DIGITS: usize = 17;

/// The precision at which every integral binary64 value is written in full.
pub const FULL_DIGITS: usize = 400;

/// The pattern without its sign bit.
pub open spec fn magnitude(bits: u64) -> u64 {
    bits & MAGNITUDE_MASK
}

/// The pattern is a NaN: exponent all ones, fraction not zero.
pub open spec fn is_nan(bits: u64) -> bool {
    magnitude(bits) > EXPONENT_MASK
}

/// The pattern is +infinity or -infinity.
pub open spec fn is_infinite(bits: u64) -> bool {
    magnitude(bits) == EXPONENT_MASK
}

/// The pattern is +0 or -0.
pub open spec fn is_zero(bits: u64) -> bool {
    magnitude(bits) == 0
}

/// The sign bit is set.
pub open spec fn is_negative(bits: u64) -> bool {
    bits & SIGN_MASK != 0
}

/// The place of a non-NaN pattern on the number line: patterns of one sign are
/// ordered by magnitude, and both zeros share the place 0.
pub open spec fn rank(bits: u64) -> int {
    if is_negative(bits) {
        -(magnitude(bits) as int)
    } else {
        magnitude(bits) as int
    }
}

/// IEEE-754 equality: a NaN equals nothing, +0 equals -0, and any other value
/// equals only itself.
pub open spec fn spec_equal(a: u64, b: u64) -> bool {
    !is_nan(a) && !is_nan(b) && (a == b || (is_zero(a) && is_zero(b)))
}

/// IEEE-754 `<`: false whenever a NaN is involved.
pub open spec fn spec_less(a: u64, b: u64) -> bool {
    !is_nan(a) && !is_nan(b) && rank(a) < rank(b)
}

/// IEEE-754 `<=`: false whenever a NaN is involved.
pub open spec fn spec_less_equal(a: u64, b: u64) -> bool {
    !is_nan(a) && !is_nan(b) && rank(a) <= rank(b)
}

/// IEEE-754 negation flips the sign bit and nothing else.
pub open spec fn spec_negate(bits: u64) -> u64 {
    bits ^ SIGN_MASK
}

/// Whether the pattern is a NaN.
pub fn nan(bits: u64) -> (r: bool)
    ensures
        r == is_nan(bits),
{
    (bits & MAGNITUDE_MASK) > EXPONENT_MASK
}

/// Whether the pattern is an infinity.
pub fn infinite(bits: u64) -> (r: bool)
    ensures
        r == is_infinite(bits),
{
    (bits & MAGNITUDE_MASK) == EXPONENT_MASK
}

/// Whether the pattern is a zero.
pub fn zero(bits: u64) -> (r: bool)
    ensures
        r == is_zero(bits),
{
    (bits & MAGNITUDE_MASK) == 0
}

/// Whether the sign bit is set.
pub fn negative(bits: u64) -> (r: bool)
    ensures
        r == is_negative(bits),
{
    (bits & SIGN_MASK) != 0
}

/// The pattern with its sign bit flipped.
pub fn negate(bits: u64) -> (r: u64)
    ensures
        r == spec_negate(bits),
{
    bits ^ SIGN_MASK
}

/// IEEE-754 equality.
pub fn equal(a: u64, b: u64) -> (r: bool)
    ensures
        r == spec_equal(a, b),
{
    if nan(a) || nan(b) {
        false
    } else {
        a == b || (zero(a) && zero(b))
    }
}

/// IEEE-754 `<`.
pub fn less(a: u64, b: u64) -> (r: bool)
    ensures
        r == spec_less(a, b),
{
    if nan(a) || nan(b) {
        return false;
    }
    let ma: u64 = a & MAGNITUDE_MASK;
    let mb: u64 = b & MAGNITUDE_MASK;
    if negative(a) {
        if negative(b) {
            ma > mb
        } else {
            ma != 0 || mb != 0
        }
    } else if negative(b) {
        false
    } else {
        ma < mb
    }
}

/// IEEE-754 `<=`.
pub fn less_equal(a: u64, b: u64) -> (r: bool)
    ensures
        r == spec_less_equal(a, b),
{
    if nan(a) || nan(b) {
        return false;
    }
    let ma: u64 = a & MAGNITUDE_MASK;
    let mb: u64 = b & MAGNITUDE_MASK;
    if negative(a) {
        if negative(b) {
            ma >= mb
        } else {
            true
        }
    } else if negative(b) {
        ma == 0 && mb == 0
    } else {
        ma <= mb
    }
}

/// Equality of numbers is reflexive on everything but NaN.
pub proof fn lemma_equal_reflexive(a: u64)
    ensures
        spec_equal(a, a) == !is_nan(a),
{
}

/// Equality of numbers is symmetric.
pub proof fn lemma_equal_symmetric(a: u64, b: u64)
    ensures
        spec_equal(a, b) == spec_equal(b, a),
{
}

/// Equality of numbers is transitive.
pub proof fn lemma_equal_transitive(a: u64, b: u64, c: u64)
    requires
        spec_equal(a, b),
        spec_equal(b, c),
    ensures
        spec_equal(a, c),
{
}

/// The sum of two binary64 values, rounded to nearest, ties to even.
pub uninterp spec fn sum_bits(a: u64, b: u64) -> u64;

/// The difference of two binary64 values, rounded to nearest, ties to even.
pub uninterp spec fn difference_bits(a: u64, b: u64) -> u64;

/// The product of two binary64 values, rounded to nearest, ties to even.
pub uninterp spec fn product_bits(a: u64, b: u64) -> u64;

/// The quotient of two binary64 values, rounded to nearest, ties to even.
pub uninterp spec fn quotient_bits(a: u64, b: u64) -> u64;

/// The binary64 value nearest to an unsigned integer.
pub uninterp spec fn integer_bits(n: u64) -> u64;

/// The binary64 value that a decimal text denotes, if the text is a number.
pub uninterp spec fn decimal_bits(text: Seq<char>) -> Option<u64>;

/// The decimal text of a binary64 value at a given number of significant
/// digits.
pub uninterp spec fn formatted(bits: u64, precision: usize) -> Seq<char>;

/// `Double + Double` of `rustc_apfloat`, on bit patterns. The addition rounds
/// to nearest, ties to even; the result is a function of the two patterns.
#[verifier::external_body]
pub(crate) fn sum(a: u64, b: u64) -> (r: u64)
    ensures
        r == sum_bits(a, b),
{
    (Double::from_bits(a as u128) + Double::from_bits(b as u128)).value.to_bits() as u64
}

/// `Double - Double` of `rustc_apfloat`, on bit patterns. The subtraction
/// rounds to nearest, ties to even; the result is a function of the two
/// patterns.
#[verifier::external_body]
pub(crate) fn difference(a: u64, b: u64) -> (r: u64)
    ensures
        r == difference_bits(a, b),
{
    (Double::from_bits(a as u128) - Double::from_bits(b as u128)).value.to_bits() as u64
}

/// `Double * Double` of `rustc_apfloat`, on bit patterns. The multiplication
/// rounds to nearest, ties to even; the result is a function of the two
/// patterns.
#[verifier::external_body]
pub(crate) fn product(a: u64, b: u64) -> (r: u64)
    ensures
        r == product_bits(a, b),
{
    (Double::from_bits(a as u128) * Double::from_bits(b as u128)).value.to_bits() as u64
}

/// `Double / Double` of `rustc_apfloat`, on bit patterns. The division rounds
/// to nearest, ties to even. A zero divisor is no failure: the crate's
/// `div_r` answers NaN where the dividend is NaN or zero, and an infinity for
/// every other dividend.
#[verifier::external_body]
pub(crate) fn quotient(a: u64, b: u64) -> (r: u64)
    ensures
        r == quotient_bits(a, b),
        is_zero(b) ==> is_nan(r) || is_infinite(r),
{
    (Double::from_bits(a as u128) / Double::from_bits(b as u128)).value.to_bits() as u64
}

/// `Double::from_u128` of `rustc_apfloat`: the binary64 value nearest to an
/// unsigned integer, as a bit pattern.
#[verifier::external_body]
pub(crate) fn from_integer(n: u64) -> (r: u64)
    ensures
        r == integer_bits(n),
{
    Double::from_u128(n as u128).value.to_bits() as u64
}

/// `Double::from_str` of `rustc_apfloat`: the correctly rounded value of a
/// decimal text, or `None` where the crate rejects the text.
#[verifier::external_body]
pub(crate) fn parse_decimal(text: &str) -> (r: Option<u64>)
    ensures
        r == decimal_bits(text@),
{
    match text.parse::<Double>() {
        Ok(value) => Some(value.to_bits() as u64),
        Err(_) => None,
    }
}

/// The `Display` of `rustc_apfloat`'s `Double`, asked for `precision`
/// significant digits and for positional notation wherever the crate offers
/// it. The text is a function of the pattern and the precision.
#[verifier::external_body]
pub(crate) fn format_decimal(bits: u64, precision: usize) -> (r: String)
    requires
        1 <= precision <= FULL_DIGITS,
    ensures
        r@ == formatted(bits, precision),
{
    format!("{:400.1$}", Double::from_bits(bits as u128), precision)
}

/// A text holds the exponent mark of scientific notation.
pub open spec fn has_exponent_mark(text: Seq<char>) -> bool {
    text.contains('E')
}

/// The least precision from `from` on, up to the largest one tried, at which
/// the text of `bits` reads back as `bits`.
pub open spec fn shortest_precision(bits: u64, from: usize) -> usize
    decreases MAX_DIGITS - from,
{
    if from >= MAX_DIGITS || decimal_bits(formatted(bits, from)) == Some(bits) {
        from
    } else {
        shortest_precision(bits, (from + 1) as usize)
    }
}

/// The largest exponent that is written out in zeros.
pub const MAX_EXPONENT: usize = 400;

/// A decimal digit.
pub open spec fn is_decimal_digit(c: char) -> bool {
    '0' <= c && c <= '9'
}

/// The value of a decimal digit.
pub open spec fn digit_value(c: char) -> nat {
    if c == '1' {
        1
    } else if c == '2' {
        2
    } else if c == '3' {
        3
    } else if c == '4' {
        4
    } else if c == '5' {
        5
    } else if c == '6' {
        6
    } else if c == '7' {
        7
    } else if c == '8' {
        8
    } else if c == '9' {
        9
    } else {
        0
    }
}

/// The place of the first exponent mark from `i` on, or the end of the text.
pub open spec fn mark_position(text: Seq<char>, i: int) -> int
    decreases text.len() - i,
{
    if 0 <= i < text.len() && text[i] != 'E' {
        mark_position(text, i + 1)
    } else {
        i
    }
}

/// The digits of `text[i..to]` behind those of `acc`, the point left out;
/// `None` where anything else stands there.
pub open spec fn significand(text: Seq<char>, i: int, to: int, acc: Seq<char>) -> Option<Seq<char>>
    decreases to - i,
{
    if i >= to {
        Some(acc)
    } else if text[i] == '.' {
        significand(text, i + 1, to, acc)
    } else if is_decimal_digit(text[i]) {
        significand(text, i + 1, to, acc.push(text[i]))
    } else {
        None
    }
}

/// The number that the digits `text[i..]` spell behind those that gave
/// `acc`; `None` where anything else stands there or the number is too large
/// to write so many zeros.
pub open spec fn exponent_value(text: Seq<char>, i: int, acc: nat) -> Option<nat>
    decreases text.len() - i,
{
    if !(0 <= i < text.len()) {
        Some(acc)
    } else if is_decimal_digit(text[i]) && acc * 10 + digit_value(text[i]) <= MAX_EXPONENT {
        exponent_value(text, i + 1, acc * 10 + digit_value(text[i]))
    } else {
        None
    }
}

/// The digits without the zeros at their end; one digit is always left.
pub open spec fn without_trailing_zeros(digits: Seq<char>) -> Seq<char>
    decreases digits.len(),
{
    if digits.len() > 1 && digits.last() == '0' {
        without_trailing_zeros(digits.drop_last())
    } else {
        digits
    }
}

/// So many zeros.
pub open spec fn zeros(n: nat) -> Seq<char>
    decreases n,
{
    if n == 0 {
        Seq::empty()
    } else {
        zeros((n - 1) as nat).push('0')
    }
}

/// A text in scientific notation, `d.dddE+x` with or without a sign, written
/// without the exponent: the digits, and zeros up to the place that the
/// exponent gives to the first digit. `None` where the text is of another
/// form, or its digits go beyond the point.
pub open spec fn positional(text: Seq<char>) -> Option<Seq<char>> {
    let start: int = if text.len() > 0 && text[0] == '-' {
        1
    } else {
        0
    };
    let at = mark_position(text, start);
    if at + 2 >= text.len() || text[at + 1] != '+' {
        None
    } else {
        match significand(text, start, at, Seq::empty()) {
            None => None,
            Some(digits) => match exponent_value(text, at + 2, 0) {
                None => None,
                Some(exponent) => {
                    let kept = without_trailing_zeros(digits);
                    if kept.len() == 0 || exponent + 1 < kept.len() {
                        None
                    } else {
                        Some(text.subrange(0, start) + kept + zeros((exponent + 1 - kept.len()) as nat))
                    }
                },
            },
        }
    }
}

/// The text of a finite number other than zero: the shortest text that reads
/// back as the number. Where that text comes in scientific notation, it is
/// written out with zeros, or, failing that, the number is written in full.
pub open spec fn finite_text(bits: u64) -> Seq<char> {
    let short = formatted(bits, shortest_precision(bits, 1));
    if has_exponent_mark(short) {
        match positional(short) {
            Some(text) => text,
            None => formatted(bits, FULL_DIGITS),
        }
    } else {
        short
    }
}

/// The text that `print` writes for a number.
pub open spec fn text_of(bits: u64) -> Seq<char> {
    if is_nan(bits) {
        "NaN"@
    } else if is_infinite(bits) {
        if is_negative(bits) {
            "-inf"@
        } else {
            "inf"@
        }
    } else if is_zero(bits) {
        if is_negative(bits) {
            "-0"@
        } else {
            "0"@
        }
    } else {
        finite_text(bits)
    }
}

/// Whether a text holds the exponent mark.
pub fn contains_exponent_mark(text: &str) -> (r: bool)
    ensures
        r == has_exponent_mark(text@),
{
    let n = text.unicode_len();
    let mut i: usize = 0;
    while i < n
        invariant
            n == text@.len(),
            i <= n,
            forall|k: int| 0 <= k < i ==> text@[k] != 'E',
        decreases n - i,
    {
        if text.get_char(i) == 'E' {
            return true;
        }
        i = i + 1;
    }
    false
}

/// The text that `print` writes for a number.
pub fn to_text(bits: u64) -> (r: String)
    ensures
        r@ == text_of(bits),
{
    if nan(bits) {
        return String::from_str("NaN");
    }
    if infinite(bits) {
        if negative(bits) {
            return String::from_str("-inf");
        }
        return String::from_str("inf");
    }
    if zero(bits) {
        if negative(bits) {
            return String::from_str("-0");
        }
        return String::from_str("0");
    }
    let mut precision: usize = 1;
    let mut short = format_decimal(bits, precision);
    while precision < MAX_DIGITS && !same_number(parse_decimal(short.as_str()), bits)
        invariant
            1 <= precision <= MAX_DIGITS,
            short@ == formatted(bits, precision),
            shortest_precision(bits, 1) == shortest_precision(bits, precision),
        decreases MAX_DIGITS - precision,
    {
        precision = precision + 1;
        short = format_decimal(bits, precision);
    }
    if contains_exponent_mark(short.as_str()) {
        match to_positional(short.as_str()) {
            Some(text) => text,
            None => format_decimal(bits, FULL_DIGITS),
        }
    } else {
        short
    }
}

fn decimal_digit(c: char) -> (r: bool)
    ensures
        r == is_decimal_digit(c),
{
    '0' <= c && c <= '9'
}

fn value_of_digit(c: char) -> (r: usize)
    ensures
        r == digit_value(c),
        r <= 9,
{
    if c == '1' {
        1
    } else if c == '2' {
        2
    } else if c == '3' {
        3
    } else if c == '4' {
        4
    } else if c == '5' {
        5
    } else if c == '6' {
        6
    } else if c == '7' {
        7
    } else if c == '8' {
        8
    } else if c == '9' {
        9
    } else {
        0
    }
}

/// A text in scientific notation written without the exponent.
pub fn to_positional(text: &str) -> (r: Option<String>)
    ensures
        match r {
            Some(written) => positional(text@) == Some(written@),
            None => positional(text@) is None,
        },
{
    let chars = chars_of(text);
    let n = chars.len();
    let start: usize = if n > 0 && chars[0] == '-' {
        1
    } else {
        0
    };
    let mut at: usize = start;
    while at < n && chars[at] != 'E'
        invariant
            start <= at <= n,
            n == chars.len(),
            mark_position(chars@, start as int) == mark_position(chars@, at as int),
        decreases n - at,
    {
        at = at + 1;
    }
    if n - at <= 2 || chars[at + 1] != '+' {
        return None;
    }
    let mut digits: Vec<char> = Vec::new();
    let mut i: usize = start;
    while i < at
        invariant
            start <= i <= at < n,
            n == chars.len(),
            chars@ == text@,
            start as int == (if text@.len() > 0 && text@[0] == '-' {
                1int
            } else {
                0int
            }),
            at as int == mark_position(chars@, start as int),
            at + 2 < n,
            chars@[at + 1] == '+',
            significand(chars@, start as int, at as int, Seq::empty()) == significand(
                chars@,
                i as int,
                at as int,
                digits@,
            ),
        decreases at - i,
    {
        let c = chars[i];
        if c == '.' {
        } else if decimal_digit(c) {
            digits.push(c);
        } else {
            return None;
        }
        i = i + 1;
    }
    let mut exponent: usize = 0;
    let mut j: usize = at + 2;
    while j < n
        invariant
            at + 2 <= j <= n,
            n == chars.len(),
            chars@ == text@,
            start as int == (if text@.len() > 0 && text@[0] == '-' {
                1int
            } else {
                0int
            }),
            at as int == mark_position(chars@, start as int),
            chars@[at + 1] == '+',
            significand(chars@, start as int, at as int, Seq::empty()) == Some(digits@),
            exponent <= MAX_EXPONENT,
            exponent_value(chars@, at + 2, 0) == exponent_value(chars@, j as int, exponent as nat),
        decreases n - j,
    {
        let c = chars[j];
        if !decimal_digit(c) {
            return None;
        }
        let next = exponent * 10 + value_of_digit(c);
        if next > MAX_EXPONENT {
            return None;
        }
        exponent = next;
        j = j + 1;
    }
    let mut kept: usize = digits.len();
    assert(digits@.subrange(0, kept as int) =~= digits@);
    while kept > 1 && digits[kept - 1] == '0'
        invariant
            kept <= digits.len(),
            without_trailing_zeros(digits@) == without_trailing_zeros(digits@.subrange(0, kept as int)),
        decreases kept,
    {
        assert(digits@.subrange(0, kept as int).drop_last() =~= digits@.subrange(0, kept - 1));
        kept = kept - 1;
    }
    if kept == 0 || exponent + 1 < kept {
        assert(digits@.subrange(0, kept as int).len() == kept);
        return None;
    }
    assert(digits@.subrange(0, kept as int).len() == kept);
    let mut written = String::new();
    if start == 1 {
        push_char(&mut written, chars[0]);
    }
    assert(written@ =~= chars@.subrange(0, start as int));
    let mut k: usize = 0;
    while k < kept
        invariant
            k <= kept <= digits.len(),
            written@ == chars@.subrange(0, start as int) + digits@.subrange(0, k as int),
        decreases kept - k,
    {
        push_char(&mut written, digits[k]);
        assert(digits@.subrange(0, k as int).push(digits@[k as int]) =~= digits@.subrange(0, k + 1));
        assert(written@ =~= chars@.subrange(0, start as int) + digits@.subrange(0, k + 1));
        k = k + 1;
    }
    let fill = exponent + 1 - kept;
    let mut z: usize = 0;
    while z < fill
        invariant
            z <= fill,
            written@ == chars@.subrange(0, start as int) + digits@.subrange(0, kept as int) + zeros(z as nat),
        decreases fill - z,
    {
        push_char(&mut written, '0');
        assert(written@ =~= chars@.subrange(0, start as int) + digits@.subrange(0, kept as int) + zeros(
            (z + 1) as nat,
        ));
        z = z + 1;
    }
    Some(written)
}

/// Whether a parsed text gave exactly this pattern.
pub fn same_number(parsed: Option<u64>, bits: u64) -> (r: bool)
    ensures
        r == (parsed == Some(bits)),
{
    match parsed {
        Some(value) => value == bits,
        None => false,
    }
}

} // verus!
