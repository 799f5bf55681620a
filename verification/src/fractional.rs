//! Literal text for numbers with a fractional part.
//!
//! A number arrives here as its decimal rendering; this module checks the
//! rendering and marks it with the precision of its type.

use vstd::prelude::*;
use vstd::string::*;
use crate::decimal::{all_digits, is_digit};
use crate::text::chars_of;

verus! {

/// The two precisions a number with a fractional part can have.
#[derive(Clone, Copy, Debug, PartialEq, Eq, Structural)]
pub enum Precision {
    Single,
    Double,
}

/// A number with a fractional part, as plain data.
pub enum Fractional {
    /// A finite number, in decimal notation.
    Finite(String),
    /// The value that is not a number.
    NotANumber,
    /// Positive infinity.
    PositiveInfinity,
    /// Negative infinity.
    NegativeInfinity,
}

/// What to do with a value that has no decimal notation.
#[derive(Clone, Copy, Debug, PartialEq, Eq, Structural)]
pub enum NonFinitePolicy {
    /// Refuse to write the value.
    Reject,
    /// Write a reference to the constant that names the value.
    NamedConstant,
}

/// Why a number was not written.
#[derive(Clone, Copy, Debug, PartialEq, Eq, Structural)]
pub enum FractionalError {
    /// The value is not finite and the policy is to reject such values.
    NonFinite,
    /// The rendering of a finite value is not in decimal notation.
    NotDecimal,
}

/// The suffix that marks a literal as being of the given precision.
pub open spec fn precision_suffix(precision: Precision) -> Seq<char> {
    match precision {
        Precision::Single => "_f32"@,
        Precision::Double => "_f64"@,
    }
}

/// The name of the type of the given precision.
pub open spec fn precision_type(precision: Precision) -> Seq<char> {
    match precision {
        Precision::Single => "f32"@,
        Precision::Double => "f64"@,
    }
}

/// Whether `s` is digits, or digits, a point and digits.
pub open spec fn is_unsigned_decimal(s: Seq<char>) -> bool {
    ||| s.len() > 0 && all_digits(s)
    ||| exists|p: int|
        0 < p < s.len() - 1 && #[trigger] s[p] == '.' && all_digits(s.take(p)) && all_digits(
            s.skip(p + 1),
        )
}

/// Whether `s` is a number in decimal notation: an optional minus sign,
/// digits and, optionally, a point followed by more digits.
pub open spec fn is_decimal_number(s: Seq<char>) -> bool {
    if s.len() > 0 && s[0] == '-' {
        is_unsigned_decimal(s.skip(1))
    } else {
        is_unsigned_decimal(s)
    }
}

/// The number `rendering` written with a decimal point: as it is where it
/// holds a point, and with a point and a zero after it where it is whole.
pub open spec fn pointed(rendering: Seq<char>) -> Seq<char> {
    if rendering.contains('.') {
        rendering
    } else {
        rendering + ".0"@
    }
}

/// The reference to the constant that names a value without decimal
/// notation.
pub open spec fn named_constant(value: Fractional, precision: Precision) -> Seq<char> {
    match value {
        Fractional::NotANumber => precision_type(precision) + "::NAN"@,
        Fractional::PositiveInfinity => precision_type(precision) + "::INFINITY"@,
        Fractional::NegativeInfinity => precision_type(precision) + "::NEG_INFINITY"@,
        Fractional::Finite(_) => Seq::empty(),
    }
}

/// What writing `value` at the given precision under the given policy
/// comes to.
pub open spec fn fractional_literal(
    value: Fractional,
    precision: Precision,
    policy: NonFinitePolicy,
) -> Result<Seq<char>, FractionalError> {
    match value {
        Fractional::Finite(rendering) => if is_decimal_number(rendering@) {
            Ok(pointed(rendering@) + precision_suffix(precision))
        } else {
            Err(FractionalError::NotDecimal)
        },
        _ => match policy {
            NonFinitePolicy::Reject => Err(FractionalError::NonFinite),
            NonFinitePolicy::NamedConstant => Ok(named_constant(value, precision)),
        },
    }
}

/// Whether `c` is a decimal digit.
pub fn is_digit_char(c: char) -> (digit: bool)
    ensures
        digit == is_digit(c),
{
    let code = c as u32;
    48 <= code && code <= 57
}

/// Whether the characters of `chars` from position `start` on are digits,
/// or digits, a point and digits.
fn is_unsigned_decimal_from(chars: &Vec<char>, start: usize) -> (decimal: bool)
    requires
        start <= chars.len(),
    ensures
        decimal == is_unsigned_decimal(chars@.skip(start as int)),
{
    let ghost body = chars@.skip(start as int);
    let n = chars.len();
    let mut i: usize = start;
    while i < n && is_digit_char(chars[i])
        invariant
            start <= i <= n,
            n == chars.len(),
            body == chars@.skip(start as int),
            forall|k: int| 0 <= k < i - start ==> is_digit(#[trigger] body[k]),
        decreases n - i,
    {
        i += 1;
    }
    if i == n {
        return i > start;
    }
    let ghost stop = i - start;
    assert(!is_digit(body[stop]));
    if chars[i] != '.' || i == start {
        proof {
            assert forall|p: int|
                0 < p < body.len() - 1 && #[trigger] body[p] == '.' implies !(all_digits(
                body.take(p),
            ) && all_digits(body.skip(p + 1))) by {
                if p > stop {
                    assert(body.take(p)[stop] == body[stop]);
                } else if p < stop {
                    assert(is_digit(body[p]));
                }
            }
        }
        return false;
    }
    let mut j: usize = i + 1;
    while j < n && is_digit_char(chars[j])
        invariant
            start <= i < j <= n,
            n == chars.len(),
            body == chars@.skip(start as int),
            forall|k: int| i - start < k < j - start ==> is_digit(#[trigger] body[k]),
        decreases n - j,
    {
        j += 1;
    }
    let decimal = j == n && j > i + 1;
    proof {
        if decimal {
            assert(all_digits(body.take(stop)));
            assert(all_digits(body.skip(stop + 1)));
            assert(body[stop] == '.');
        } else {
            assert forall|p: int|
                0 < p < body.len() - 1 && #[trigger] body[p] == '.' implies !(all_digits(
                body.take(p),
            ) && all_digits(body.skip(p + 1))) by {
                if p > stop {
                    assert(body.take(p)[stop] == body[stop]);
                } else if p < stop {
                    assert(is_digit(body[p]));
                } else {
                    assert(j < n);
                    assert(body.skip(p + 1)[j - start - p - 1] == body[j - start]);
                    assert(!is_digit(body[j - start]));
                }
            }
        }
    }
    decimal
}

/// Whether `rendering` is a number in decimal notation.
pub fn is_decimal_rendering(rendering: &str) -> (decimal: bool)
    ensures
        decimal == is_decimal_number(rendering@),
{
    let chars = chars_of(rendering);
    if chars.len() > 0 && chars[0] == '-' {
        is_unsigned_decimal_from(&chars, 1)
    } else {
        assert(chars@.skip(0) == chars@);
        is_unsigned_decimal_from(&chars, 0)
    }
}

/// Whether `rendering` holds a decimal point.
pub fn holds_point(rendering: &str) -> (found: bool)
    ensures
        found == rendering@.contains('.'),
{
    let chars = chars_of(rendering);
    let mut i: usize = 0;
    while i < chars.len()
        invariant
            i <= chars.len(),
            chars@ == rendering@,
            forall|k: int| 0 <= k < i ==> chars@[k] != '.',
        decreases chars.len() - i,
    {
        if chars[i] == '.' {
            assert(rendering@[i as int] == '.');
            return true;
        }
        i += 1;
    }
    false
}

/// The name of the type of the given precision, as text.
fn precision_type_text(precision: Precision) -> (name: &'static str)
    ensures
        name@ == precision_type(precision),
{
    match precision {
        Precision::Single => "f32",
        Precision::Double => "f64",
    }
}

/// Writes `value` as a literal of the given precision.
///
/// A finite value in decimal notation is written as its digits, with a
/// decimal point, followed by the suffix of its precision; a whole number
/// gets a point and a zero. For a value that is not finite the caller
/// decides: under [`NonFinitePolicy::Reject`] it is refused, under
/// [`NonFinitePolicy::NamedConstant`] the constant that names it is
/// referred to.
pub fn fractional_to_code_text(
    value: &Fractional,
    precision: Precision,
    policy: NonFinitePolicy,
) -> (result: Result<String, FractionalError>)
    ensures
        match fractional_literal(*value, precision, policy) {
            Ok(text) => result is Ok && result->Ok_0@ == text,
            Err(error) => result == Err::<String, FractionalError>(error),
        },
{
    match value {
        Fractional::Finite(rendering) => {
            if is_decimal_rendering(rendering.as_str()) {
                let mut text = rendering.clone();
                if !holds_point(rendering.as_str()) {
                    text.append(".0");
                }
                match precision {
                    Precision::Single => text.append("_f32"),
                    Precision::Double => text.append("_f64"),
                }
                Ok(text)
            } else {
                Err(FractionalError::NotDecimal)
            }
        },
        _ => {
            match policy {
                NonFinitePolicy::Reject => Err(FractionalError::NonFinite),
                NonFinitePolicy::NamedConstant => {
                    let mut text = String::from_str(precision_type_text(precision));
                    match value {
                        Fractional::NotANumber => text.append("::NAN"),
                        Fractional::PositiveInfinity => text.append("::INFINITY"),
                        _ => text.append("::NEG_INFINITY"),
                    }
                    Ok(text)
                },
            }
        },
    }
}

} // verus!
