use feishu_gateway::chunk::{fits_limit, split_text};
use feishu_gateway::format::{split_message, truncate_chars};

#[test]
fn split_text_short() {
    let chunks = split_text("hello", 100);
    assert_eq!(chunks, vec!["hello"]);
}

#[test]
fn split_text_exact_limit() {
    let text = "a".repeat(100);
    let chunks = split_text(&text, 100);
    assert_eq!(chunks.len(), 1);
}

#[test]
fn split_text_chinese_utf8_safe() {
    // Each Chinese char is 3 bytes. 20 chars = 60 bytes.
    // Limit 10 would land mid-char without boundary check.
    let text = "你好世界測試飛書中文聊天消息分割安全驗證完成";
    let chunks = split_text(text, 10);
    assert!(chunks.len() > 1);
    let reassembled: String = chunks.concat();
    assert_eq!(reassembled, text);
}

#[test]
fn split_text_search_start_char_boundary() {
    // The search window starts 200 bytes before the end of a chunk, which can lie within a
    // character. 300 Chinese chars (900 bytes) with limit=500 force that.
    let text: String = "飛書".repeat(150); // 300 chars, 900 bytes
    let chunks = split_text(&text, 500);
    assert!(chunks.len() >= 2);
    let reassembled: String = chunks.concat();
    assert_eq!(reassembled, text);
}

#[test]
fn split_text_long_breaks_at_newline() {
    let text = format!("{}\n{}", "a".repeat(50), "b".repeat(50));
    let chunks = split_text(&text, 60);
    assert_eq!(chunks.len(), 2);
    assert!(chunks[0].ends_with('\n'));
}

#[test]
fn split_text_prefers_newline_to_later_space() {
    assert_eq!(split_text("ab\ncd ef gh", 7), vec!["ab\n", "cd ef ", "gh"]);
}

#[test]
fn split_text_breaks_at_space() {
    assert_eq!(split_text("aa bb cc", 7), vec!["aa bb ", "cc"]);
}

#[test]
fn split_text_ignores_breaks_before_the_window() {
    let text = format!("a {}", "b".repeat(400));
    let chunks = split_text(&text, 300);
    assert_eq!(chunks[0].len(), 300);
    assert_eq!(chunks[1].len(), 102);
}

#[test]
fn split_text_empty() {
    assert!(split_text("", 10).is_empty());
    assert!(split_text("", 0).is_empty());
}

#[test]
fn split_text_keeps_the_limit() {
    let text = "飛書 and 中文\nmixed with words ".repeat(40);
    for limit in [4, 7, 30, 250, 1000] {
        let chunks = split_text(&text, limit);
        assert!(chunks.iter().all(|c| !c.is_empty() && c.len() <= limit));
        assert_eq!(chunks.concat(), text);
    }
}

#[test]
fn fits_limit_measures_characters() {
    assert!(fits_limit("abc", 1));
    assert!(!fits_limit("abc", 0));
    assert!(!fits_limit("é", 1));
    assert!(fits_limit("飛", 3));
    assert!(!fits_limit("飛", 2));
    assert!(!fits_limit("a👍", 3));
    assert!(fits_limit("a👍", 4));
    assert!(fits_limit("", 0));
}

#[test]
fn split_message_short() {
    assert_eq!(split_message("hello", 10), vec!["hello"]);
    assert_eq!(split_message("", 10), vec![""]);
}

#[test]
fn split_message_at_lines() {
    assert_eq!(split_message("aaaa\nbbbb\ncc", 9), vec!["aaaa\nbbbb", "cc"]);
    assert_eq!(split_message("aaaa\nbbbb\ncc", 8), vec!["aaaa", "bbbb\ncc"]);
}

#[test]
fn split_message_cuts_long_line() {
    assert_eq!(split_message("abcdefg", 3), vec!["abc", "def", "g"]);
    assert_eq!(split_message("x\nabcde", 3), vec!["x", "abc", "de"]);
}

#[test]
fn split_message_keeps_fitting_lines_whole() {
    let text = "aaaaaaaaaaa\nbbb\n\ncccccccc\ndd\neeeeeeeeeeeee";
    for limit in 3..12 {
        let chunks = split_message(text, limit);
        for line in text.split('\n').filter(|l| !l.is_empty() && l.len() <= limit) {
            assert!(chunks.iter().any(|c| c.split('\n').any(|p| p == line)), "{limit} {line}");
        }
    }
}

#[test]
fn split_message_counts_characters() {
    assert_eq!(split_message("飛書飛書", 4), vec!["飛書飛書"]);
    assert_eq!(split_message("飛書飛書", 3), vec!["飛書飛", "書"]);
}

#[test]
fn split_message_without_room() {
    assert_eq!(split_message("ab", 0), vec!["", "a", "b"]);
}

#[test]
fn truncate_chars_cuts_at_characters() {
    assert_eq!(truncate_chars("hello", 3), "hel");
    assert_eq!(truncate_chars("hello", 5), "hello");
    assert_eq!(truncate_chars("hello", 9), "hello");
    assert_eq!(truncate_chars("飛書中文", 2), "飛書");
    assert_eq!(truncate_chars("abc", 0), "");
}
