use transit_sync::number::{
    check_float_literal, decimal_of_i32, decimal_of_u64, parse_decimal_i32,
};
use transit_sync::text::{
    char_is_whitespace, split_on, split_tokens, to_chars, to_text, trimmed, Separator,
};

fn pieces(text: &str, sep: Separator) -> Vec<String> {
    split_on(&to_chars(text), sep).iter().map(|p| to_text(p)).collect()
}

#[test]
fn chars_and_text_round_trip() {
    let text = "ÇAMLICA 34A – güzergâh";
    assert_eq!(to_text(&to_chars(text)), text);
    assert_eq!(to_chars("ab"), vec!['a', 'b']);
    assert_eq!(to_chars(""), Vec::<char>::new());
}

#[test]
fn whitespace_is_the_unicode_property() {
    for n in 0u32..0x11_0000 {
        if let Some(c) = char::from_u32(n) {
            assert_eq!(char_is_whitespace(c), c.is_whitespace(), "U+{:04X}", n);
        }
    }
}

#[test]
fn split_keeps_empty_pieces() {
    assert_eq!(pieces("a|b||c", Separator::Char('|')), vec!["a", "b", "", "c"]);
    assert_eq!(pieces("", Separator::Char('|')), vec![""]);
    assert_eq!(pieces("|", Separator::Char('|')), vec!["", ""]);
    assert_eq!(pieces("1e5E6", Separator::Either('e', 'E')), vec!["1", "5", "6"]);
    assert_eq!(pieces("a b\tc", Separator::Whitespace), vec!["a", "b", "c"]);
}

#[test]
fn split_agrees_with_the_standard_library() {
    for text in ["", "a", ",", "a,b", ",a,,b,", "x,y,z", ",,,"] {
        let expected: Vec<String> = text.split(',').map(|p| p.to_string()).collect();
        assert_eq!(pieces(text, Separator::Char(',')), expected, "{:?}", text);
    }
}

#[test]
fn tokens_agree_with_the_standard_library() {
    for text in ["", "  ", "a", " a  b ", "10.0 20.0", "\t1\n2\u{a0}3\u{2003}4 ", "x\u{3000}y"] {
        let expected: Vec<String> = text.split_whitespace().map(|p| p.to_string()).collect();
        let found: Vec<String> = split_tokens(&to_chars(text)).iter().map(|p| to_text(p)).collect();
        assert_eq!(found, expected, "{:?}", text);
    }
}

#[test]
fn trimming_agrees_with_the_standard_library() {
    for text in ["", " ", "  a  ", "a", "\t KADIKÖY - ÜSKÜDAR \n", " a b ", "\u{a0}x\u{2009}", "   "] {
        assert_eq!(trimmed(text), text.trim(), "{:?}", text);
    }
}

#[test]
fn decimal_text_of_unsigned() {
    assert_eq!(decimal_of_u64(0), "0");
    assert_eq!(decimal_of_u64(7), "7");
    assert_eq!(decimal_of_u64(10), "10");
    assert_eq!(decimal_of_u64(302), "302");
    assert_eq!(decimal_of_u64(u64::MAX), "18446744073709551615");
    for n in [1u64, 9, 99, 100, 101, 4294967295, 1234567890123] {
        assert_eq!(decimal_of_u64(n), n.to_string());
    }
}

#[test]
fn decimal_text_of_signed() {
    assert_eq!(decimal_of_i32(0), "0");
    assert_eq!(decimal_of_i32(-1), "-1");
    assert_eq!(decimal_of_i32(42), "42");
    assert_eq!(decimal_of_i32(i32::MAX), "2147483647");
    assert_eq!(decimal_of_i32(i32::MIN), "-2147483648");
}

#[test]
fn decimal_integers_are_read() {
    assert_eq!(parse_decimal_i32("0"), Some(0));
    assert_eq!(parse_decimal_i32("10234"), Some(10234));
    assert_eq!(parse_decimal_i32("+17"), Some(17));
    assert_eq!(parse_decimal_i32("-17"), Some(-17));
    assert_eq!(parse_decimal_i32("007"), Some(7));
    assert_eq!(parse_decimal_i32("2147483647"), Some(i32::MAX));
    assert_eq!(parse_decimal_i32("-2147483648"), Some(i32::MIN));
    assert_eq!(parse_decimal_i32("2147483648"), None);
    assert_eq!(parse_decimal_i32("-2147483649"), None);
    assert_eq!(parse_decimal_i32("99999999999999999999999"), None);
    assert_eq!(parse_decimal_i32(""), None);
    assert_eq!(parse_decimal_i32("-"), None);
    assert_eq!(parse_decimal_i32("+"), None);
    assert_eq!(parse_decimal_i32("12a"), None);
    assert_eq!(parse_decimal_i32(" 12"), None);
    assert_eq!(parse_decimal_i32("1.5"), None);
}

#[test]
fn decimal_integers_agree_with_the_standard_library() {
    for text in [
        "", "0", "-0", "+0", "1", "-1", "+1", "00012", "2147483647", "2147483648", "-2147483648",
        "-2147483649", "4294967296", "++1", "--1", "+-1", "1-", "１２", "12 ", "0x10",
        "123456789012345678901234567890",
    ] {
        assert_eq!(parse_decimal_i32(text), text.parse::<i32>().ok(), "{:?}", text);
    }
}

#[test]
fn float_literals_agree_with_the_standard_library() {
    for text in [
        "", "0", "1", "10.0", "11.5", "-3.25", "+3.25", ".5", "5.", ".", "-.5", "+5.", "1e5",
        "1E5", "1e+5", "1e-5", "1e", "e5", "1e5.0", "1.5e10", "1.5e", ".e5", "1..5", "1.2.3",
        "1e5e6", "inf", "-inf", "+inf", "INF", "Infinity", "-INFINITY", "infinit", "nan", "NaN",
        "-nan", "nano", "abc", "1a", "a1", " 1", "1 ", "--1", "+-1", "1,5", "0x10", "1_000",
        "27.142826", "38.4237", "1e400", "00.100", "+", "-", "1e+", "1e-", "٣", "1.e3", ".1e3",
        "infinityy", "in", "iNf", "nAn",
    ] {
        assert_eq!(
            check_float_literal(&to_chars(text)),
            text.parse::<f64>().is_ok(),
            "{:?}",
            text
        );
    }
}
