use roblox_fast_flag_editor::text::decimal_string;
use roblox_fast_flag_editor::text::{chars_of, trim_text};
use roblox_fast_flag_editor::value_type::{
    classify_lowered, classify_value, infer_type_label, parse_i64, parses_as_f64, type_label,
    JsonScalar,
};

fn int_of(s: &str) -> Option<i64> {
    parse_i64(&chars_of(s))
}

fn float_ok(s: &str) -> bool {
    parses_as_f64(&chars_of(s))
}

#[test]
fn parse_i64_accepts_what_std_accepts() {
    for s in ["0", "42", "-7", "+5", "007", "-0", "9223372036854775807", "-9223372036854775808"] {
        assert_eq!(int_of(s), s.parse::<i64>().ok(), "{s}");
    }
    assert_eq!(int_of("9223372036854775807"), Some(i64::MAX));
    assert_eq!(int_of("-9223372036854775808"), Some(i64::MIN));
    assert_eq!(int_of("+5"), Some(5));
}

#[test]
fn parse_i64_rejects_what_std_rejects() {
    for s in ["", "-", "+", "1.0", " 1", "1 ", "9223372036854775808", "-9223372036854775809",
              "99999999999999999999999", "12a", "0x10", "--1", "١"] {
        assert_eq!(int_of(s), None, "{s}");
        assert!(s.parse::<i64>().is_err(), "{s}");
    }
}

#[test]
fn f64_syntax_agrees_with_std() {
    let cases = [
        "1", "1.", ".5", "1.5", "-1.5", "+.5", "1e5", "1E5", "1e+5", "1e-5", "2.5E-3", "inf",
        "INF", "-inf", "infinity", "+Infinity", "nan", "NaN", "-nan", "1e400", "", ".", "e5",
        "1e", "1e+", "1.2.3", " 1", "1 ", "0x10", "infinit", "nana", "1_000", "+", "-", "..5",
        "5..", "1e5.5", "١",
    ];
    for s in cases {
        assert_eq!(float_ok(s), s.parse::<f64>().is_ok(), "{s}");
    }
}

#[test]
fn classify_value_examples() {
    assert!(matches!(classify_value("true"), JsonScalar::Bool(true)));
    assert!(matches!(classify_value("False"), JsonScalar::Bool(false)));
    assert!(matches!(classify_value("TRUE"), JsonScalar::Bool(true)));
    assert!(matches!(classify_value("42"), JsonScalar::Integer(42)));
    assert!(matches!(classify_value("-3"), JsonScalar::Integer(-3)));
    assert!(matches!(classify_value("3.14"), JsonScalar::Decimal(ref t) if t == "3.14"));
    assert!(matches!(classify_value("9223372036854775808"), JsonScalar::Decimal(_)));
    assert!(matches!(classify_value("nan"), JsonScalar::Decimal(ref t) if t == "nan"));
    assert!(matches!(classify_value("some-string"), JsonScalar::Text(ref t) if t == "some-string"));
    assert!(matches!(classify_value(""), JsonScalar::Text(ref t) if t.is_empty()));
    assert!(matches!(classify_value("truex"), JsonScalar::Text(_)));
}

#[test]
fn classify_lowered_uses_the_lowered_text() {
    assert!(matches!(classify_lowered("X", "true"), JsonScalar::Bool(true)));
    assert!(matches!(classify_lowered("true", "x"), JsonScalar::Text(_)));
}

#[test]
fn type_labels() {
    assert_eq!(infer_type_label(""), "string (empty)");
    assert_eq!(infer_type_label("true"), "boolean");
    assert_eq!(infer_type_label("FALSE"), "boolean");
    assert_eq!(infer_type_label("42"), "integer");
    assert_eq!(infer_type_label("-42"), "integer");
    assert_eq!(infer_type_label("3.14"), "float");
    assert_eq!(infer_type_label("inf"), "float");
    assert_eq!(infer_type_label("some-string"), "string");
    assert_eq!(type_label("abc", "true"), "boolean");
}

#[test]
fn type_label_agrees_with_written_type() {
    for s in ["true", "False", "12", "-1", "1.5", "1e3", "nan", "text", "1.2.3"] {
        let label = infer_type_label(s);
        let kind = match classify_value(s) {
            JsonScalar::Bool(_) => "boolean",
            JsonScalar::Integer(_) => "integer",
            JsonScalar::Decimal(_) => "float",
            JsonScalar::Text(_) => "string",
        };
        assert_eq!(label, kind, "{s}");
    }
}

#[test]
fn trim_removes_unicode_white_space() {
    for s in ["  a b  ", "\t\n x\r\n", "\u{3000}k\u{a0}", "", "   ", "\u{85}v\u{2028}", "no"] {
        assert_eq!(trim_text(s), s.trim(), "{s:?}");
    }
}

#[test]
fn decimal_string_writes_numbers() {
    assert_eq!(decimal_string(0), "0");
    assert_eq!(decimal_string(7), "7");
    assert_eq!(decimal_string(10), "10");
    assert_eq!(decimal_string(1203), "1203");
    assert_eq!(decimal_string(usize::MAX), usize::MAX.to_string());
}
