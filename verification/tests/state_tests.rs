use gemini_chat_tui::parse_api_key_input;
use gemini_chat_tui::state::AppState;

#[test]
fn api_key_input_is_trimmed() {
    assert_eq!(parse_api_key_input("  my-key \n"), Some("my-key".to_string()));
    assert_eq!(parse_api_key_input("two words"), Some("two words".to_string()));
    assert_eq!(parse_api_key_input(""), None);
    assert_eq!(parse_api_key_input(" \t\n"), None);
}

#[test]
fn default_state_is_empty_and_idle() {
    let s = AppState::default();
    assert_eq!(s.messages.len(), 0);
    assert_eq!(s.input, "");
    assert_eq!(s.input_cursor, 0);
    assert_eq!(s.scroll_offset, 0);
    assert!(!s.is_loading);
    assert_eq!(s.status_message, "Ready to chat with Gemini! 🚀");
    assert_eq!(s.animation_frame, 0);
}

#[test]
fn insert_then_delete_restores_buffer_and_cursor() {
    let mut s = AppState::default();
    for c in "hello".chars() {
        s.insert_char(c);
    }
    s.move_cursor_left();
    s.move_cursor_left();
    let before_input = s.input.clone();
    let before_cursor = s.input_cursor;
    s.insert_char('X');
    s.delete_char();
    assert_eq!(s.input, before_input);
    assert_eq!(s.input_cursor, before_cursor);
}

#[test]
fn insert_in_the_middle() {
    let mut s = AppState::default();
    s.insert_char('a');
    s.insert_char('c');
    s.move_cursor_left();
    s.insert_char('b');
    assert_eq!(s.input, "abc");
    assert_eq!(s.input_cursor, 2);
}

#[test]
fn cursor_counts_characters_not_bytes() {
    let mut s = AppState::default();
    s.insert_char('é');
    s.insert_char('ü');
    assert_eq!(s.input_cursor, 2);
    s.delete_char();
    assert_eq!(s.input, "é");
    assert_eq!(s.input_cursor, 1);
}

#[test]
fn cursor_never_leaves_the_buffer() {
    let mut s = AppState::default();
    s.insert_char('a');
    s.insert_char('b');
    for _ in 0..20 {
        s.move_cursor_left();
        assert!(s.input_cursor <= s.input.chars().count());
    }
    assert_eq!(s.input_cursor, 0);
    for _ in 0..20 {
        s.move_cursor_right();
        assert!(s.input_cursor <= s.input.chars().count());
    }
    assert_eq!(s.input_cursor, 2);
}

#[test]
fn delete_at_the_start_does_nothing() {
    let mut s = AppState::default();
    s.insert_char('a');
    s.move_cursor_left();
    s.delete_char();
    assert_eq!(s.input, "a");
    assert_eq!(s.input_cursor, 0);
}

#[test]
fn add_message_scrolls_to_the_new_entry() {
    let mut s = AppState::default();
    s.add_message("first".to_string(), true);
    assert_eq!(s.scroll_offset, 0);
    s.add_message("second".to_string(), false);
    assert_eq!(s.scroll_offset, 1);
    assert_eq!(s.messages.len(), 2);
    assert_eq!(s.messages[0].content, "first");
    assert!(s.messages[0].is_user);
    assert_eq!(s.messages[1].content, "second");
    assert!(!s.messages[1].is_user);
}

#[test]
fn clear_input_resets_buffer_and_cursor() {
    let mut s = AppState::default();
    s.insert_char('x');
    s.insert_char('y');
    s.clear_input();
    assert_eq!(s.input, "");
    assert_eq!(s.input_cursor, 0);
}

#[test]
fn animation_wraps_at_its_period() {
    let mut s = AppState::default();
    for _ in 0..99 {
        s.increment_animation();
    }
    assert_eq!(s.animation_frame, 99);
    s.increment_animation();
    assert_eq!(s.animation_frame, 0);
}
