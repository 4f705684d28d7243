use gemini_chat_tui::events::{apply_event, handle_key, AppEvent, KeyInput};
use gemini_chat_tui::state::AppState;

fn type_text(s: &mut AppState, text: &str) {
    for c in text.chars() {
        let sent = handle_key(s, KeyInput::Char(c));
        assert!(sent.is_none());
    }
}

#[test]
fn send_while_idle_then_reply() {
    let mut s = AppState::default();
    type_text(&mut s, "Hello");
    let sent = handle_key(&mut s, KeyInput::Enter);
    assert_eq!(sent, Some("Hello".to_string()));
    assert!(s.is_loading);
    assert_eq!(s.messages.len(), 1);
    assert!(s.messages[0].is_user);
    assert_eq!(s.messages[0].content, "Hello");
    assert_eq!(s.input, "");
    assert_eq!(s.status_message, "Sending message to Gemini...");

    apply_event(&mut s, AppEvent::GeminiResponse("Hi there".to_string()));
    assert!(!s.is_loading);
    assert_eq!(s.messages.len(), 2);
    assert!(!s.messages[1].is_user);
    assert_eq!(s.messages[1].content, "Hi there");
    assert_eq!(s.status_message, "Response received! 🎉");
}

#[test]
fn send_while_awaiting_is_rejected() {
    let mut s = AppState::default();
    type_text(&mut s, "first");
    let sent = handle_key(&mut s, KeyInput::Enter);
    assert!(sent.is_some());
    type_text(&mut s, "second");
    let again = handle_key(&mut s, KeyInput::Enter);
    assert!(again.is_none());
    assert_eq!(s.messages.len(), 1);
    assert!(s.is_loading);
}

#[test]
fn escape_while_awaiting_cancels_the_visible_effect() {
    let mut s = AppState::default();
    type_text(&mut s, "ping");
    handle_key(&mut s, KeyInput::Enter);
    assert!(s.is_loading);
    let sent = handle_key(&mut s, KeyInput::Escape);
    assert!(sent.is_none());
    assert!(!s.is_loading);
    assert_eq!(s.messages.len(), 1);
    assert_eq!(s.status_message, "Message cancelled");
}

#[test]
fn late_reply_after_escape_is_still_applied() {
    let mut s = AppState::default();
    type_text(&mut s, "ping");
    handle_key(&mut s, KeyInput::Enter);
    handle_key(&mut s, KeyInput::Escape);
    apply_event(&mut s, AppEvent::GeminiResponse("late".to_string()));
    assert_eq!(s.messages.len(), 2);
    assert_eq!(s.messages[1].content, "late");
}

#[test]
fn escape_while_idle_changes_nothing() {
    let mut s = AppState::default();
    type_text(&mut s, "abc");
    let status = s.status_message.clone();
    handle_key(&mut s, KeyInput::Escape);
    assert!(!s.is_loading);
    assert_eq!(s.input, "abc");
    assert_eq!(s.status_message, status);
}

#[test]
fn blank_input_is_not_sent() {
    let mut s = AppState::default();
    type_text(&mut s, "   \t ");
    let sent = handle_key(&mut s, KeyInput::Enter);
    assert!(sent.is_none());
    assert_eq!(s.messages.len(), 0);
    assert!(!s.is_loading);
}

#[test]
fn an_error_event_becomes_a_remote_message() {
    let mut s = AppState::default();
    type_text(&mut s, "q");
    handle_key(&mut s, KeyInput::Enter);
    apply_event(&mut s, AppEvent::GeminiError("boom".to_string()));
    assert!(!s.is_loading);
    assert_eq!(s.messages.len(), 2);
    assert!(!s.messages[1].is_user);
    assert_eq!(s.messages[1].content, "❌ Error: boom");
    assert_eq!(s.status_message, "Error occurred 😞");
}

#[test]
fn tick_event_advances_the_animation() {
    let mut s = AppState::default();
    apply_event(&mut s, AppEvent::Tick);
    assert_eq!(s.animation_frame, 1);
}

#[test]
fn editing_keys_edit_the_buffer() {
    let mut s = AppState::default();
    type_text(&mut s, "ab");
    handle_key(&mut s, KeyInput::Left);
    handle_key(&mut s, KeyInput::Backspace);
    assert_eq!(s.input, "b");
    assert_eq!(s.input_cursor, 0);
    handle_key(&mut s, KeyInput::Right);
    assert_eq!(s.input_cursor, 1);
}
