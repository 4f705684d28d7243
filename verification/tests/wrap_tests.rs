use gemini_chat_tui::wrap::wrap_text;
use unicode_width::UnicodeWidthStr;

#[test]
fn wrap_keeps_short_text_on_one_line() {
    let lines = wrap_text("hello world", 20);
    assert_eq!(lines, vec!["hello world".to_string()]);
}

#[test]
fn wrap_packs_words_greedily() {
    let lines = wrap_text("aaa bbb ccc ddd", 10);
    assert_eq!(lines, vec!["aaa bbb".to_string(), "ccc ddd".to_string()]);
}

#[test]
fn wrap_breaks_a_word_wider_than_the_budget() {
    let lines = wrap_text("abcdefghijklmnop", 10);
    assert_eq!(lines, vec!["abcdefghij".to_string(), "klmnop".to_string()]);
}

#[test]
fn wrap_of_empty_text_is_one_empty_line() {
    assert_eq!(wrap_text("", 10), vec![String::new()]);
    assert_eq!(wrap_text("   \t  ", 10), vec![String::new()]);
}

#[test]
fn wrap_grants_the_minimum_budget() {
    // A requested width below the floor is widened to ten columns.
    let lines = wrap_text("abcdefghijkl", 0);
    assert_eq!(lines, vec!["abcdefghij".to_string(), "kl".to_string()]);
}

#[test]
fn wrap_measures_display_width_not_characters() {
    // Each of these characters is two columns wide, so five of them fill
    // a ten-column line even though they are only five characters.
    let lines = wrap_text("你好你好你好", 10);
    assert_eq!(lines, vec!["你好你好你".to_string(), "好".to_string()]);
}

#[test]
fn wrap_lines_stay_within_the_budget() {
    let text = "The quick brown fox jumps over the lazy dog near the river bank today";
    for width in [10usize, 14, 23, 41] {
        for line in wrap_text(text, width) {
            assert!(line.as_str().width() <= width);
        }
    }
}

#[test]
fn wrap_collapses_whitespace_when_joined_back() {
    let lines = wrap_text("a\tb\n   c  d", 20);
    assert_eq!(lines.join(" "), "a b c d");
    let lines = wrap_text("  one   two  three four five six  ", 9);
    assert_eq!(lines.join(" "), "one two three four five six");
}
