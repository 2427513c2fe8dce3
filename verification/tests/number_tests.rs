use yamaha_rcp_to_osc::{osc_to_rcp_arg, rcp_to_osc_type, FloatLiteral, TypedValue};

fn float(literal: &str) -> TypedValue {
    TypedValue::Float(FloatLiteral::new(literal).unwrap())
}

/// What std makes of a token: an `i32` first, then an `f32`, else text.
fn expected(token: &str) -> TypedValue {
    if let Ok(i) = token.parse::<i32>() {
        TypedValue::Integer(i)
    } else if token.parse::<f32>().is_ok() {
        float(token)
    } else {
        TypedValue::Text(token.to_string())
    }
}

fn infer(token: &str) -> TypedValue {
    rcp_to_osc_type(&token.to_string())
}

#[test]
fn integers_at_the_limits() {
    assert_eq!(infer("2147483647"), TypedValue::Integer(i32::MAX));
    assert_eq!(infer("-2147483648"), TypedValue::Integer(i32::MIN));
    assert_eq!(infer("2147483648"), float("2147483648"));
    assert_eq!(infer("-2147483649"), float("-2147483649"));
    assert_eq!(
        infer("99999999999999999999999999"),
        float("99999999999999999999999999")
    );
}

#[test]
fn integers_with_signs_and_zeros() {
    assert_eq!(infer("+5"), TypedValue::Integer(5));
    assert_eq!(infer("-0"), TypedValue::Integer(0));
    assert_eq!(infer("007"), TypedValue::Integer(7));
    assert_eq!(infer("0"), TypedValue::Integer(0));
    assert_eq!(infer("-12"), TypedValue::Integer(-12));
    assert_eq!(infer("0000000000000000000000042"), TypedValue::Integer(42));
}

#[test]
fn tokens_that_are_no_numbers() {
    for token in ["", "-", "+", "1_000", " 5", "5 ", "0x10", "--1", "+-1", "1-", "abc", "\"5\""] {
        assert_eq!(infer(token), TypedValue::Text(token.to_string()), "token {:?}", token);
    }
}

#[test]
fn float_literals() {
    for token in [
        "3.14", "1.", ".5", "1e5", "1E5", "1e+5", "1e-5", "-1.5e10", "+.5", "0.0", "1.e1", ".1e1",
        "inf", "-inf", "+inf", "infinity", "-Infinity", "INF", "NaN", "nan", "-nan", "+NAN",
        "1e99999999999", "00.100",
    ] {
        assert_eq!(infer(token), float(token), "token {:?}", token);
    }
}

#[test]
fn tokens_that_are_no_float_literals() {
    for token in [
        ".", "e5", "1e", "1e+", "1e-", ".e1", "1.5.2", "1..2", "1e5.5", "1e5e5", "0x1p3", "1f",
        "infinit", "in", "infinityy", "na", "nann", "+", "-.", "1 .5", "i nf", "1,5",
    ] {
        assert_eq!(infer(token), TypedValue::Text(token.to_string()), "token {:?}", token);
    }
}

#[test]
fn inference_agrees_with_std() {
    let samples = [
        "42", "-42", "+42", "4.2", "-4.2", "+4.2", "4.", ".2", ".", "4e2", "4E2", "4e", "e2",
        "4e+2", "4e-2", "4e+", "4.2e1", "4.2e-1", ".2e1", "4.e1", ".e1", "inf", "Inf", "iNf",
        "infinity", "INFINITY", "infinit", "nan", "NaN", "NAN", "-nan", "+inf", "-infinity", "",
        "-", "+", "++1", "1+", "1-1", "1e1e1", "1.1.1", "2147483647", "2147483648", "-2147483648",
        "-2147483649", "4294967296", "0", "-0", "+0", "00", "0.0", "-0.0", "1_0", "0x10", "0b1",
        "1f32", "1.0f", " 1", "1 ", "\t1", "a", "test", "\"1\"", "\u{661}", "\u{ff11}", "1\u{661}",
        "\u{130}nf", "\u{131}nf", "na\u{144}", "\u{221e}", "1e\u{661}", "3.14", "1e400", "1e-400",
        "000000000000000000000000000000000000001", "123456789012345678901234567890",
        "0.000000000000000000000000000000000000000000000000001", "+.e", "-e1", "+e1", "1e+-1",
        "e", "E", ".e", "1.e", "1.E+", "nan1", "inf.", ".inf", "1inf", "-", "--", "+-", "-+1",
    ];
    for token in samples {
        assert_eq!(infer(token), expected(token), "token {:?}", token);
    }
}

#[test]
fn integers_are_written_in_decimal() {
    for v in [
        0, 1, -1, 7, 9, 10, 11, 99, 100, 101, 12345, -12345, 1000000, i32::MAX, i32::MIN,
        i32::MAX - 1, i32::MIN + 1, 2147480000, -2147480000,
    ] {
        assert_eq!(osc_to_rcp_arg(&TypedValue::Integer(v)).unwrap(), v.to_string());
    }
    assert_eq!(osc_to_rcp_arg(&TypedValue::Integer(i32::MIN)).unwrap(), "-2147483648");
    assert_eq!(osc_to_rcp_arg(&TypedValue::Integer(-7)).unwrap(), "-7");
}

#[test]
fn written_integers_read_back() {
    for v in [0, 1, -1, 10, -10, 42, 1234567890, i32::MAX, i32::MIN] {
        let token = osc_to_rcp_arg(&TypedValue::Integer(v)).unwrap();
        assert_eq!(rcp_to_osc_type(&token), TypedValue::Integer(v));
    }
}

#[test]
fn floats_are_written_as_their_literal() {
    assert_eq!(osc_to_rcp_arg(&float("3.14")).unwrap(), "3.14");
    assert_eq!(osc_to_rcp_arg(&float("-0.5")).unwrap(), "-0.5");
    assert_eq!(osc_to_rcp_arg(&float("inf")).unwrap(), "inf");
}

#[test]
fn text_is_written_between_quotes() {
    let render = |s: &str| osc_to_rcp_arg(&TypedValue::Text(s.to_string())).unwrap();
    assert_eq!(render("test"), "\"test\"");
    assert_eq!(render("\"already\""), "\"already\"");
    assert_eq!(render(""), "\"\"");
    assert_eq!(render("\""), "\"");
    assert_eq!(render("\"open"), "\"\"open\"");
    assert_eq!(render("close\""), "\"close\"\"");
    assert_eq!(render("two words"), "\"two words\"");
    assert_eq!(render("\"\""), "\"\"");
}

#[test]
fn a_value_of_another_type_has_no_token() {
    assert_eq!(
        osc_to_rcp_arg(&TypedValue::Unsupported),
        Err(yamaha_rcp_to_osc::TranslateError::UnsupportedArgumentType)
    );
}

#[test]
fn only_a_literal_makes_a_float() {
    for token in ["3.14", "-1e5", "inf", "NaN", "42", ".5", "5."] {
        let literal = FloatLiteral::new(token).unwrap();
        assert_eq!(literal.as_str(), token);
        assert!(token.parse::<f32>().is_ok());
    }
    for token in ["", "abc", "1 2", "\"1.5\"", "1.5 ", ".", "1e", "0x10"] {
        assert_eq!(FloatLiteral::new(token), None, "token {:?}", token);
        assert!(token.parse::<f32>().is_err());
    }
}

#[test]
fn every_written_float_is_a_literal() {
    for number in [
        0.0f32, -0.0, 1.0, -1.0, 3.14, 0.1, 1e10, 1e-10, 1e38, 1e-38, 16777216.0, 0.333333343,
        f32::MAX, f32::MIN, f32::MIN_POSITIVE, f32::EPSILON, f32::INFINITY, f32::NEG_INFINITY,
        f32::NAN,
    ] {
        let written = number.to_string();
        let literal = FloatLiteral::new(&written).unwrap();
        assert_eq!(osc_to_rcp_arg(&TypedValue::Float(literal)).unwrap(), written);
    }
}
