use gemini_chat_tui::clock::format_timestamp;
use gemini_chat_tui::render::{
    input_cursor_column, render_loading_bubble, render_message_bubble, spinner_glyph,
    title_color_index, SpanKind, UiSpan,
};
use gemini_chat_tui::state::ChatMessage;
use gemini_chat_tui::transport::{
    extract_reply, request_failed_message, GeminiResponse, ResponseCandidate, ResponseContent,
    ResponsePart, TransportError,
};
use unicode_width::UnicodeWidthStr;

fn line_text(spans: &[UiSpan]) -> String {
    let mut s = String::new();
    for sp in spans {
        s.push_str(&sp.text);
    }
    s
}

#[test]
fn timestamps_format_as_clock_readings() {
    assert_eq!(format_timestamp(Some(0)), "00:00:00");
    assert_eq!(format_timestamp(Some(3661)), "01:01:01");
    assert_eq!(format_timestamp(Some(86399)), "23:59:59");
    assert_eq!(format_timestamp(Some(86400)), "00:00:00");
    assert_eq!(format_timestamp(None), "??:??:??");
}

#[test]
fn spinner_cycles_through_ten_glyphs() {
    assert_eq!(spinner_glyph(0), '⠋');
    assert_eq!(spinner_glyph(9), '⠏');
    assert_eq!(spinner_glyph(10), '⠋');
    assert_eq!(spinner_glyph(23), spinner_glyph(3));
}

#[test]
fn title_colors_shift_with_the_animation() {
    assert_eq!(title_color_index(0, 0, 6), 0);
    assert_eq!(title_color_index(3, 10, 6), 5);
    assert_eq!(title_color_index(5, 5, 6), 0);
    for p in 0..20 {
        for f in 0..20 {
            assert!(title_color_index(p, f, 6) < 6);
        }
    }
}

#[test]
fn cursor_column_is_one_past_the_border() {
    assert_eq!(input_cursor_column(0, 0), 1);
    assert_eq!(input_cursor_column(2, 3), 6);
    assert_eq!(input_cursor_column(65535, 3), 65535);
}

#[test]
fn remote_bubble_is_a_rectangle_with_the_text_inside() {
    let msg = ChatMessage {
        content: "hi **there** friend".to_string(),
        is_user: false,
        timestamp_secs: Some(0),
    };
    let lines = render_message_bubble(&msg, 40);
    assert_eq!(lines.len(), 3);
    let top = line_text(&lines[0]);
    assert!(top.contains("🤖 Gemini 00:00:00"));
    assert!(top.starts_with("╭─ "));
    assert!(top.ends_with("╮"));
    let body = line_text(&lines[1]);
    assert!(body.contains("hi there friend"));
    assert!(!body.contains("**"));
    let bottom = line_text(&lines[2]);
    assert!(bottom.starts_with("╰"));
    assert!(bottom.ends_with("╯"));
    let w = top.as_str().width();
    for l in &lines {
        assert_eq!(line_text(l).as_str().width(), w);
    }
}

#[test]
fn user_bubble_is_right_aligned_and_prefixed() {
    let msg = ChatMessage {
        content: "hello".to_string(),
        is_user: true,
        timestamp_secs: Some(3661),
    };
    let area: u16 = 50;
    let lines = render_message_bubble(&msg, area);
    assert_eq!(lines.len(), 3);
    let body = line_text(&lines[1]);
    assert!(body.contains("You: hello"));
    let top = line_text(&lines[0]);
    assert!(top.contains("You 01:01:01"));
    // Right-aligned: every line starts with the same pad and ends two
    // columns short of the area's right edge.
    assert!(matches!(lines[0][0].kind, SpanKind::Pad));
    let w = top.as_str().width();
    for l in &lines {
        assert_eq!(line_text(l).as_str().width(), w);
    }
    assert_eq!(w, area as usize - 2);
}

#[test]
fn long_messages_wrap_inside_the_bubble() {
    let msg = ChatMessage {
        content: "one two three four five six seven eight nine ten eleven twelve".to_string(),
        is_user: false,
        timestamp_secs: None,
    };
    let lines = render_message_bubble(&msg, 30);
    assert!(lines.len() > 3);
    let w = line_text(&lines[0]).as_str().width();
    for l in &lines {
        assert_eq!(line_text(l).as_str().width(), w);
    }
}

#[test]
fn loading_bubble_shows_the_spinner_line() {
    let lines = render_loading_bubble(0);
    assert_eq!(lines.len(), 3);
    assert!(line_text(&lines[0]).contains("Gemini is thinking..."));
    let body = line_text(&lines[1]);
    assert!(body.contains("⠋ Processing your message..."));
    let w = line_text(&lines[0]).as_str().width();
    for l in &lines {
        assert_eq!(line_text(l).as_str().width(), w);
    }
}

#[test]
fn loading_bubble_borders_glyph_by_glyph() {
    let lines = render_loading_bubble(0);
    assert_eq!(line_text(&lines[0]), "╭─ Gemini is thinking... ──────╮");
    assert_eq!(line_text(&lines[1]), "│ ⠋ Processing your message... │");
    assert_eq!(
        line_text(&lines[2]),
        format!("╰{}╯", "─".repeat(30))
    );
}

fn reply_with(parts: Vec<&str>) -> GeminiResponse {
    GeminiResponse {
        candidates: vec![ResponseCandidate {
            content: ResponseContent {
                parts: parts
                    .into_iter()
                    .map(|t| ResponsePart { text: t.to_string() })
                    .collect(),
            },
        }],
    }
}

#[test]
fn extract_reply_takes_the_first_part() {
    let r = reply_with(vec!["answer", "extra"]);
    assert_eq!(extract_reply(&r), Ok("answer".to_string()));
}

#[test]
fn extract_reply_without_candidates_is_an_error() {
    let r = GeminiResponse { candidates: vec![] };
    assert_eq!(extract_reply(&r), Err(TransportError::NoCandidates));
    assert_eq!(
        TransportError::NoCandidates.message(),
        "No candidates found in response"
    );
}

#[test]
fn extract_reply_without_parts_is_an_error() {
    let r = reply_with(vec![]);
    assert_eq!(extract_reply(&r), Err(TransportError::NoParts));
    assert_eq!(TransportError::NoParts.message(), "No response parts found");
}

#[test]
fn failed_requests_carry_the_body_text() {
    assert_eq!(
        request_failed_message("status 500"),
        "API request failed: status 500"
    );
}
