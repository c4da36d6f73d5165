use p2p_storage::text::{parse_u64, split_ascii_whitespace, u64_to_decimal};

#[test]
fn split_skips_every_kind_of_ascii_whitespace() {
    let parts = split_ascii_whitespace("  p 12\t1.2.3.4:80\n btc\r\x0c");
    assert_eq!(parts, vec!["p", "12", "1.2.3.4:80", "btc"]);
}

#[test]
fn split_of_blank_text_is_empty() {
    assert!(split_ascii_whitespace("").is_empty());
    assert!(split_ascii_whitespace(" \n\t ").is_empty());
}

#[test]
fn split_keeps_non_ascii_characters_inside_words() {
    let parts = split_ascii_whitespace("caf\u{e9} \u{a0}x");
    assert_eq!(parts, vec!["caf\u{e9}", "\u{a0}x"]);
}

#[test]
fn decimal_numerals_match_to_string() {
    for n in [0u64, 7, 10, 1234, 65535, 128000000, u64::MAX] {
        assert_eq!(u64_to_decimal(n), n.to_string());
    }
}

#[test]
fn parse_u64_accepts_what_from_str_accepts() {
    for s in ["0", "42", "+42", "007", "18446744073709551615"] {
        assert_eq!(parse_u64(s), s.parse::<u64>().ok());
        assert!(parse_u64(s).is_some());
    }
}

#[test]
fn parse_u64_rejects_what_from_str_rejects() {
    for s in ["", "+", "-1", "12a", " 1", "18446744073709551616", "++1", "1+"] {
        assert_eq!(parse_u64(s), None);
        assert!(s.parse::<u64>().is_err());
    }
}

#[test]
fn parse_reads_back_decimal() {
    for n in [0u64, 9, 99, 100, 4294967296, u64::MAX] {
        assert_eq!(parse_u64(&u64_to_decimal(n)), Some(n));
    }
}
