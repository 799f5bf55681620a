use static_prebuild::decimal::{digit_to_char, push_decimal, push_signed_decimal};
use static_prebuild::fractional::{
    fractional_to_code_text, holds_point, is_decimal_rendering, is_digit_char, Fractional,
    FractionalError, NonFinitePolicy, Precision,
};
use static_prebuild::literal::{
    bool_literal_text, int_suffix_text, push_escaped_char, push_str_literal, signed_literal,
    str_literal_text, string_literal_text, unsigned_literal, IntKind,
};
use static_prebuild::TextBuildable;

fn fractional_of(value: f64) -> Fractional {
    if value.is_nan() {
        Fractional::NotANumber
    } else if value == f64::INFINITY {
        Fractional::PositiveInfinity
    } else if value == f64::NEG_INFINITY {
        Fractional::NegativeInfinity
    } else {
        Fractional::Finite(format!("{}", value))
    }
}

#[test]
fn integers_at_their_limits() {
    assert_eq!(i8::MIN.to_code_text(), "-128_i8");
    assert_eq!(i8::MAX.to_code_text(), "127_i8");
    assert_eq!(i16::MIN.to_code_text(), "-32768_i16");
    assert_eq!(i16::MAX.to_code_text(), "32767_i16");
    assert_eq!(i32::MIN.to_code_text(), "-2147483648_i32");
    assert_eq!(i32::MAX.to_code_text(), "2147483647_i32");
    assert_eq!(i64::MIN.to_code_text(), "-9223372036854775808_i64");
    assert_eq!(i64::MAX.to_code_text(), "9223372036854775807_i64");
    assert_eq!(u8::MAX.to_code_text(), "255_u8");
    assert_eq!(u16::MAX.to_code_text(), "65535_u16");
    assert_eq!(u32::MAX.to_code_text(), "4294967295_u32");
    assert_eq!(u64::MAX.to_code_text(), "18446744073709551615_u64");
}

#[test]
fn small_integers() {
    assert_eq!(0i32.to_code_text(), "0_i32");
    assert_eq!(0u64.to_code_text(), "0_u64");
    assert_eq!(9u8.to_code_text(), "9_u8");
    assert_eq!(10u8.to_code_text(), "10_u8");
    assert_eq!((-1i64).to_code_text(), "-1_i64");
    assert_eq!((-10i16).to_code_text(), "-10_i16");
    assert_eq!(100i8.to_code_text(), "100_i8");
    assert_eq!(1000000007u32.to_code_text(), "1000000007_u32");
}

#[test]
fn integer_round_trip_keeps_value_and_width() {
    let text = 59942211i32.to_code_text();
    assert_eq!(text, "59942211_i32");
    let digits = text.strip_suffix("_i32").unwrap();
    assert_eq!(digits.parse::<i32>().unwrap(), 59942211);
    assert_eq!(59942211_i32, 59942211i32);

    for value in [i64::MIN, -1, 0, 1, 42, i64::MAX] {
        let text = value.to_code_text();
        let digits = text.strip_suffix("_i64").unwrap();
        assert_eq!(digits.parse::<i64>().unwrap(), value);
    }
    for value in [0u16, 1, 9, 10, 99, 100, 65535] {
        let text = value.to_code_text();
        let digits = text.strip_suffix("_u16").unwrap();
        assert_eq!(digits.parse::<u16>().unwrap(), value);
    }
}

#[test]
fn literals_by_kind() {
    assert_eq!(signed_literal(-5, IntKind::I8), "-5_i8");
    assert_eq!(signed_literal(7, IntKind::I64), "7_i64");
    assert_eq!(unsigned_literal(7, IntKind::U32), "7_u32");
    assert_eq!(int_suffix_text(IntKind::I8), "_i8");
    assert_eq!(int_suffix_text(IntKind::I16), "_i16");
    assert_eq!(int_suffix_text(IntKind::I32), "_i32");
    assert_eq!(int_suffix_text(IntKind::I64), "_i64");
    assert_eq!(int_suffix_text(IntKind::U8), "_u8");
    assert_eq!(int_suffix_text(IntKind::U16), "_u16");
    assert_eq!(int_suffix_text(IntKind::U32), "_u32");
    assert_eq!(int_suffix_text(IntKind::U64), "_u64");
}

#[test]
fn decimal_notation() {
    let mut out = String::from("n=");
    push_decimal(&mut out, 0);
    assert_eq!(out, "n=0");
    push_decimal(&mut out, 907);
    assert_eq!(out, "n=0907");
    push_signed_decimal(&mut out, -45);
    assert_eq!(out, "n=0907-45");
    push_signed_decimal(&mut out, 45);
    assert_eq!(out, "n=0907-4545");
    for d in 0u8..10 {
        assert_eq!(digit_to_char(d), char::from(b'0' + d));
    }
}

#[test]
fn truth_values() {
    assert_eq!(true.to_code_text(), "true");
    assert_eq!(false.to_code_text(), "false");
    assert_eq!(bool_literal_text(true), "true");
    assert_eq!(bool_literal_text(false), "false");
    assert_eq!(true.to_code_text().parse::<bool>().unwrap(), true);
    assert_eq!(false.to_code_text().parse::<bool>().unwrap(), false);
}

#[test]
fn plain_strings() {
    assert_eq!("test".to_string().to_code_text(), "\"test\".to_string()");
    assert_eq!(String::new().to_code_text(), "\"\".to_string()");
    assert_eq!("caf\u{e9} \u{1F600}".to_string().to_code_text(), "\"caf\u{e9} \u{1F600}\".to_string()");
    assert_eq!(string_literal_text("a b"), "\"a b\".to_string()");
    assert_eq!(str_literal_text("a b"), "\"a b\"");
}

#[test]
fn strings_with_marks_are_escaped() {
    assert_eq!("say \"hi\"".to_string().to_code_text(), "\"say \\\"hi\\\"\".to_string()");
    assert_eq!("a\\b".to_string().to_code_text(), "\"a\\\\b\".to_string()");
    assert_eq!("line\nbreak".to_string().to_code_text(), "\"line\\nbreak\".to_string()");
    assert_eq!("cr\rtab\tnul\0".to_string().to_code_text(), "\"cr\\rtab\\tnul\\0\".to_string()");
    assert_eq!("\\\"".to_string().to_code_text(), "\"\\\\\\\"\".to_string()");

    let mut out = String::new();
    push_escaped_char(&mut out, 'x');
    push_escaped_char(&mut out, '"');
    push_escaped_char(&mut out, '\\');
    push_escaped_char(&mut out, '\n');
    assert_eq!(out, "x\\\"\\\\\\n");

    let mut out = String::from("let s = ");
    push_str_literal(&mut out, "a\"b");
    assert_eq!(out, "let s = \"a\\\"b\"");
}

/// Undoes the escaping of a quoted literal, as a compiler would.
fn unescape(quoted: &str) -> String {
    let inner = quoted.strip_prefix('"').unwrap().strip_suffix('"').unwrap();
    let mut out = String::new();
    let mut chars = inner.chars();
    while let Some(c) = chars.next() {
        if c == '\\' {
            match chars.next().unwrap() {
                'n' => out.push('\n'),
                'r' => out.push('\r'),
                't' => out.push('\t'),
                '0' => out.push('\0'),
                other => out.push(other),
            }
        } else {
            assert_ne!(c, '"');
            out.push(c);
        }
    }
    out
}

#[test]
fn string_round_trip() {
    for written in ["", "test", "a\"b", "\\", "\\n", "\n\r\t\0", "\"\"", "tr\\\"icky\\", "\u{1F600}"] {
        let text = written.to_string().to_code_text();
        let quoted = text.strip_suffix(".to_string()").unwrap();
        assert_eq!(unescape(quoted), written);
    }
}

#[test]
fn finite_fractions() {
    let reject = NonFinitePolicy::Reject;
    assert_eq!(
        fractional_to_code_text(&fractional_of(35.5), Precision::Single, reject),
        Ok("35.5_f32".to_string())
    );
    assert_eq!(
        fractional_to_code_text(&fractional_of(38.5), Precision::Double, reject),
        Ok("38.5_f64".to_string())
    );
    assert_eq!(
        fractional_to_code_text(&fractional_of(1.0), Precision::Double, reject),
        Ok("1.0_f64".to_string())
    );
    assert_eq!(
        fractional_to_code_text(&fractional_of(-0.25), Precision::Single, reject),
        Ok("-0.25_f32".to_string())
    );
    assert_eq!(
        fractional_to_code_text(
            &Fractional::Finite("0.1".to_string()),
            Precision::Double,
            NonFinitePolicy::NamedConstant
        ),
        Ok("0.1_f64".to_string())
    );
}

#[test]
fn whole_numbers_get_a_decimal_point() {
    let reject = NonFinitePolicy::Reject;
    for (value, expected) in [(1.0f64, "1.0_f64"), (0.0, "0.0_f64"), (-0.0, "-0.0_f64"), (-7.0, "-7.0_f64"), (1e21, "1000000000000000000000.0_f64")] {
        let text = fractional_to_code_text(&fractional_of(value), Precision::Double, reject).unwrap();
        assert_eq!(text, expected);
        assert!(text.contains('.'));
        assert!(text.ends_with("_f64"));
    }
    assert_eq!(1.0_f64, 1.0);
    assert_eq!(
        fractional_to_code_text(&Fractional::Finite("12".to_string()), Precision::Single, reject),
        Ok("12.0_f32".to_string())
    );
    assert!(holds_point("1.5") && holds_point("-0.25"));
    assert!(!holds_point("15") && !holds_point("") && !holds_point("-3"));
}

#[test]
fn every_finite_literal_holds_a_point() {
    for value in [35.5f64, 38.5, 0.0, -1.5, 1e10, 0.000001, 3.0, f64::MAX, f64::MIN_POSITIVE] {
        let text =
            fractional_to_code_text(&fractional_of(value), Precision::Double, NonFinitePolicy::Reject)
                .unwrap();
        assert_eq!(text.matches('.').count(), 1);
    }
}

#[test]
fn fraction_round_trip_keeps_value_and_precision() {
    for value in [35.5f64, 38.5, 0.0, -1.5, 1e10, 0.000001, f64::MAX, f64::MIN_POSITIVE] {
        let text =
            fractional_to_code_text(&fractional_of(value), Precision::Double, NonFinitePolicy::Reject)
                .unwrap();
        let digits = text.strip_suffix("_f64").unwrap();
        assert_eq!(digits.parse::<f64>().unwrap(), value);
    }
}

#[test]
fn values_that_are_not_finite() {
    for value in [f64::NAN, f64::INFINITY, f64::NEG_INFINITY] {
        assert_eq!(
            fractional_to_code_text(&fractional_of(value), Precision::Double, NonFinitePolicy::Reject),
            Err(FractionalError::NonFinite)
        );
    }
    let named = NonFinitePolicy::NamedConstant;
    assert_eq!(
        fractional_to_code_text(&Fractional::NotANumber, Precision::Single, named),
        Ok("f32::NAN".to_string())
    );
    assert_eq!(
        fractional_to_code_text(&Fractional::PositiveInfinity, Precision::Double, named),
        Ok("f64::INFINITY".to_string())
    );
    assert_eq!(
        fractional_to_code_text(&Fractional::NegativeInfinity, Precision::Double, named),
        Ok("f64::NEG_INFINITY".to_string())
    );
    assert!(f32::NAN.is_nan());
    assert_eq!(f64::INFINITY, 1.0 / 0.0);
    assert_eq!(f64::NEG_INFINITY, -1.0 / 0.0);
}

#[test]
fn renderings_that_are_not_decimal() {
    for rendering in ["", "-", ".", ".5", "5.", "-.5", "1e5", "NaN", "inf", "-inf", "1.2.3", "1,5", "+1", " 1", "1 ", "--1", "1-", "0x10"] {
        assert!(!is_decimal_rendering(rendering), "{:?}", rendering);
        assert_eq!(
            fractional_to_code_text(
                &Fractional::Finite(rendering.to_string()),
                Precision::Double,
                NonFinitePolicy::NamedConstant
            ),
            Err(FractionalError::NotDecimal)
        );
    }
    for rendering in ["0", "-0", "7", "12345678901234567890", "0.5", "-12.0625", "00.10"] {
        assert!(is_decimal_rendering(rendering), "{:?}", rendering);
    }
    assert!(is_digit_char('0') && is_digit_char('9') && is_digit_char('5'));
    assert!(!is_digit_char('/') && !is_digit_char(':') && !is_digit_char('a'));
}
