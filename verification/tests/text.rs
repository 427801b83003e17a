use feishu_gateway::text::{
    is_white_space, join, parse_unsigned, remove_first, split_at_char, str_eq, trim, write_int,
};

#[test]
fn white_space_is_that_of_std() {
    for v in 0..=0x10FFFFu32 {
        if let Some(c) = char::from_u32(v) {
            assert_eq!(is_white_space(c), c.is_whitespace(), "U+{v:X}");
        }
    }
}

#[test]
fn trim_agrees_with_std() {
    for s in ["", " ", "a", "  a b\t\n", "\u{3000}飛書\u{A0}", "\u{200B}x"] {
        assert_eq!(trim(s), s.trim());
    }
}

#[test]
fn remove_first_agrees_with_std() {
    let cases = [
        ("@_user_1 a @_user_1", "@_user_1"),
        ("aaa", "aa"),
        ("abc", ""),
        ("", ""),
        ("", "a"),
        ("你好世界", "世"),
        ("abc", "abcd"),
        ("xaab", "aab"),
    ];
    for (s, key) in cases {
        assert_eq!(remove_first(s, key), s.replacen(key, "", 1));
    }
}

#[test]
fn parse_unsigned_agrees_with_std() {
    let cases = [
        "0", "+7", "007", "", "+", "-1", "++1", "1x", " 1", "18446744073709551615",
        "18446744073709551616", "99999999999999999999999", "٣",
    ];
    for s in cases {
        assert_eq!(parse_unsigned(s, u64::MAX), s.parse::<u64>().ok(), "{s}");
    }
    assert_eq!(parse_unsigned("255", 255), Some(255));
    assert_eq!(parse_unsigned("256", 255), None);
}

#[test]
fn write_int_agrees_with_std() {
    for n in [0, 1, -1, 9, 10, -10, 10003, i64::MAX, i64::MIN] {
        assert_eq!(write_int(n), n.to_string());
    }
}

#[test]
fn written_number_reads_back() {
    for n in [0i64, 5, 10, 987654321, i64::MAX] {
        assert_eq!(parse_unsigned(&write_int(n), u64::MAX), Some(n as u64));
    }
}

#[test]
fn split_agrees_with_std() {
    for s in ["", ",", "a,b", ",a,,b,", "無,分"] {
        let expected: Vec<String> = s.split(',').map(|p| p.to_string()).collect();
        assert_eq!(split_at_char(s, ','), expected);
    }
}

#[test]
fn texts_are_compared_and_joined() {
    assert!(str_eq("飛書", "飛書"));
    assert!(!str_eq("a", "ab"));
    assert!(!str_eq("a", "b"));
    assert_eq!(join("飛", "書"), "飛書");
    assert_eq!(join("", "x"), "x");
}
