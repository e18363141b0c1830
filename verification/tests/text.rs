use airouter_proxy::text::{decimal, join, parse_unsigned, same_text, trim_trailing};

#[test]
fn numbers_are_read_as_written() {
    for text in ["", "+", "-1", " 1", "1 ", "1_0", "0x1", "１", "++1", "1+"] {
        assert_eq!(parse_unsigned(text, u64::MAX), None, "{text:?}");
        assert!(text.parse::<u64>().is_err(), "{text:?}");
    }
    for text in ["0", "+0", "007", "65535", "18446744073709551615"] {
        assert_eq!(parse_unsigned(text, u64::MAX), text.parse::<u64>().ok(), "{text:?}");
    }
    assert_eq!(parse_unsigned("18446744073709551616", u64::MAX), None);
    assert_eq!(parse_unsigned("65535", 65535), Some(65535));
    assert_eq!(parse_unsigned("65536", 65535), None);
    assert_eq!(parse_unsigned("3", 5), Some(3));
    assert_eq!(parse_unsigned("6", 5), None);
}

#[test]
fn numbers_are_written_in_base_ten() {
    for n in [0, 7, 10, 8080, 65535, u64::MAX] {
        assert_eq!(decimal(n), n.to_string());
    }
}

#[test]
fn texts_are_compared_and_trimmed() {
    assert!(same_text("é", "é"));
    assert!(!same_text("e", "é"));
    assert!(!same_text("a", "A"));
    assert!(same_text("", ""));
    assert_eq!(trim_trailing("http://u//", '/'), "http://u");
    assert_eq!(trim_trailing("//", '/'), "");
    assert_eq!(trim_trailing("é/x", '/'), "é/x");
    assert_eq!(join("a", "", "c"), "ac");
}
