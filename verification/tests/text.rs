use eir_svc::metric::{Amount, Metric};
use eir_svc::text::{
    chars_of, contains_text, decimal_int_text, decimal_text, ellipsize, eq_ignore_ascii_case,
    joined, lines_of, parse_i64, parse_nat, sort_texts, split_whitespace, strip_text_prefix,
    trimmed, with_single_spaces,
};

#[test]
fn texts_are_trimmed_split_and_joined() {
    assert_eq!(trimmed("\u{2003} a b \n"), "a b");
    assert_eq!(split_whitespace(" a\t b\u{a0}c "), ["a", "b", "c"]);
    assert_eq!(joined(&vec!["a".into(), "b".into()], ", "), "a, b");
    assert_eq!(with_single_spaces(" a \n b "), "a b");
    assert_eq!(lines_of("a\r\nb\n\nc"), ["a", "b", "", "c"]);
    assert!(lines_of("").is_empty());
    assert_eq!(chars_of("äb"), ['ä', 'b']);
    assert_eq!(ellipsize("abcdef", 4), "abc…");
    assert_eq!(ellipsize("abcd", 4), "abcd");
    assert_eq!(strip_text_prefix("abc", "ab").as_deref(), Some("c"));
    assert_eq!(strip_text_prefix("abc", "b"), None);
    assert!(contains_text("abcabd", "abd"));
    assert!(!contains_text("ab", "abd"));
    assert!(eq_ignore_ascii_case("aÄz", "AÄZ"));
    assert!(!eq_ignore_ascii_case("ä", "Ä"));
}

#[test]
fn numbers_are_read_and_written() {
    assert_eq!(parse_nat("+0042", u64::MAX), Some(42));
    assert_eq!(parse_nat("18446744073709551615", u64::MAX), Some(u64::MAX));
    assert_eq!(parse_nat("18446744073709551616", u64::MAX), None);
    assert_eq!(parse_nat("256", 255), None);
    assert_eq!(parse_nat("", 255), None);
    assert_eq!(parse_nat("-1", 255), None);
    assert_eq!(parse_i64("-9223372036854775808"), Some(i64::MIN));
    assert_eq!(parse_i64("9223372036854775808"), None);
    assert_eq!(decimal_text(0), "0");
    assert_eq!(decimal_text(u64::MAX), "18446744073709551615");
    assert_eq!(decimal_int_text(i64::MIN), "-9223372036854775808");
}

#[test]
fn the_order_of_arrival_does_not_matter() {
    let list = |texts: &[&str]| texts.iter().map(|t| t.to_string()).collect::<Vec<String>>();
    let sorted = ["", "B", "a", "ab", "ä"];
    assert_eq!(sort_texts(list(&["ä", "ab", "", "a", "B"])), sorted);
    assert_eq!(sort_texts(list(&["B", "a", "", "ä", "ab"])), sorted);
}

#[test]
fn bit_patterns_compare_as_their_numbers() {
    let values = [
        f32::NEG_INFINITY,
        -1.5,
        -0.0,
        0.0,
        f32::MIN_POSITIVE,
        1.5,
        f32::INFINITY,
        f32::NAN,
    ];
    let metric = |x: f32| Metric { bits: x.to_bits() };
    for a in values {
        for b in values {
            assert_eq!(metric(a).less_than(metric(b)), a < b, "{a} < {b}");
        }
        assert_eq!(metric(a).is_finite(), a.is_finite());
    }
    assert_eq!(metric(f32::NAN).or_zero(), metric(0.0));
    assert_eq!(metric(-1.5).or_zero(), metric(-1.5));
    let amount = |x: f64| Amount { bits: x.to_bits() };
    assert_eq!(amount(f64::INFINITY).or_zero(), amount(0.0));
    assert_eq!(amount(2.5).or_zero(), amount(2.5));
}
