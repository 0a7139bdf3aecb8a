use conduit::text::{
    chars_of, contains_str, parse_u16, split_lines, split_words, starts_with_str, trimmed,
};

#[test]
fn parse_u16_accepts_what_std_accepts() {
    for s in ["0", "80", "8080", "65535", "+1", "007", "+65535", "00000000000080"] {
        assert_eq!(parse_u16(s), s.parse::<u16>().ok(), "{:?}", s);
    }
    assert_eq!(parse_u16("80"), Some(80));
    assert_eq!(parse_u16("65535"), Some(65535));
    assert_eq!(parse_u16("+12"), Some(12));
}

#[test]
fn parse_u16_rejects_what_std_rejects() {
    for s in ["", "+", "-", "-1", "65536", "99999999999", " 80", "80 ", "8O", "++1", "1.0", "١"] {
        assert_eq!(parse_u16(s), None, "{:?}", s);
        assert_eq!(s.parse::<u16>().ok(), None, "{:?}", s);
    }
}

#[test]
fn split_lines_matches_std() {
    for s in ["", "a", "a\n", "a\nb", "a\r\nb\r\n", "\n", "\n\n", "a\rb", "a\r", "x\n\ny", "é\n中"] {
        let expected: Vec<String> = s.lines().map(|l| l.to_string()).collect();
        assert_eq!(split_lines(s), expected, "{:?}", s);
    }
}

#[test]
fn split_words_matches_std() {
    for s in ["", "  ", "a", " a  b ", "-A POSTROUTING -o eth0 -j MASQUERADE", "a\tb\nc", "x\u{3000}y\u{a0}z"] {
        let expected: Vec<String> = s.split_whitespace().map(|l| l.to_string()).collect();
        assert_eq!(split_words(s), expected, "{:?}", s);
    }
}

#[test]
fn trimmed_matches_std() {
    for s in ["", " 1\n", "1", "\t 1 \r\n", " ", "a b", "\u{2003}x\u{3000}"] {
        assert_eq!(trimmed(s), s.trim(), "{:?}", s);
    }
}

#[test]
fn contains_and_starts_with() {
    assert!(contains_str("-A POSTROUTING -o eth0 -j MASQUERADE", "MASQUERADE"));
    assert!(!contains_str("MASQ", "MASQUERADE"));
    assert!(contains_str("abc", ""));
    assert!(contains_str("Error: x", "Error"));
    assert!(contains_str("错误: x", "错误"));
    assert!(starts_with_str("veth123", "veth"));
    assert!(!starts_with_str("eth0", "veth"));
    assert!(starts_with_str("br-", "br-"));
    assert!(!starts_with_str("br", "br-"));
}

#[test]
fn chars_of_keeps_order() {
    assert_eq!(chars_of("中a"), vec!['中', 'a']);
}
