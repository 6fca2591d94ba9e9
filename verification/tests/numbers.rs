use baud::{decimal_text, parse_baud_rate};

#[test]
fn baud_rate_parses_like_u32_from_str_after_trim() {
    for text in [
        "9600", " 115200 ", "\t42\n", "+7", "0", "4294967295", "4294967296", "", "  ", "+", "-1",
        "12a", "1 2", "00000000000000000031", "\u{3000}5\u{a0}", "++1", "99999999999999999999",
    ] {
        assert_eq!(parse_baud_rate(text), text.trim().parse::<u32>().ok(), "{text:?}");
    }
}

#[test]
fn baud_rate_values() {
    assert_eq!(parse_baud_rate(" 250000 "), Some(250000));
    assert_eq!(parse_baud_rate("fast"), None);
}

#[test]
fn decimal_text_matches_to_string() {
    for n in [0u32, 7, 10, 99, 100, 9600, 115200, u32::MAX] {
        assert_eq!(decimal_text(n), n.to_string());
    }
}
