use gemini_chat_tui::markup::{parse_markdown_spans, RunStyle};

#[test]
fn plain_text_is_one_plain_run() {
    let runs = parse_markdown_spans("hello world");
    assert_eq!(runs.len(), 1);
    assert_eq!(runs[0].text, "hello world");
    assert!(matches!(runs[0].style, RunStyle::Plain));
}

#[test]
fn bold_between_markers() {
    let runs = parse_markdown_spans("a **b** c");
    assert_eq!(runs.len(), 3);
    assert_eq!(runs[0].text, "a ");
    assert!(matches!(runs[0].style, RunStyle::Plain));
    assert_eq!(runs[1].text, "b");
    assert!(matches!(runs[1].style, RunStyle::Bold));
    assert_eq!(runs[2].text, " c");
    assert!(matches!(runs[2].style, RunStyle::Plain));
}

#[test]
fn unterminated_marker_stays_literal() {
    let runs = parse_markdown_spans("a **b");
    assert_eq!(runs.len(), 1);
    assert_eq!(runs[0].text, "a **b");
    assert!(matches!(runs[0].style, RunStyle::Plain));
}

#[test]
fn empty_bold_run_is_kept() {
    let runs = parse_markdown_spans("****");
    assert_eq!(runs.len(), 1);
    assert_eq!(runs[0].text, "");
    assert!(matches!(runs[0].style, RunStyle::Bold));
}

#[test]
fn single_stars_are_plain() {
    let runs = parse_markdown_spans("a*b*c");
    assert_eq!(runs.len(), 1);
    assert_eq!(runs[0].text, "a*b*c");
    assert!(matches!(runs[0].style, RunStyle::Plain));
}

#[test]
fn several_bold_segments() {
    let runs = parse_markdown_spans("**a** and **b**");
    assert_eq!(runs.len(), 3);
    assert_eq!(runs[0].text, "a");
    assert!(matches!(runs[0].style, RunStyle::Bold));
    assert_eq!(runs[1].text, " and ");
    assert!(matches!(runs[1].style, RunStyle::Plain));
    assert_eq!(runs[2].text, "b");
    assert!(matches!(runs[2].style, RunStyle::Bold));
}

#[test]
fn single_stars_inside_bold_are_literal() {
    let runs = parse_markdown_spans("**a *b* c**");
    assert_eq!(runs.len(), 1);
    assert_eq!(runs[0].text, "a *b* c");
    assert!(matches!(runs[0].style, RunStyle::Bold));
}

#[test]
fn no_characters_are_lost() {
    for input in ["", "*", "**", "***", "x **y", "**y** z **", "a**b**c**d"] {
        let runs = parse_markdown_spans(input);
        let mut rebuilt = String::new();
        for r in &runs {
            match r.style {
                RunStyle::Bold => {
                    rebuilt.push_str("**");
                    rebuilt.push_str(&r.text);
                    rebuilt.push_str("**");
                }
                RunStyle::Plain => rebuilt.push_str(&r.text),
            }
        }
        assert_eq!(rebuilt, input);
    }
}
