use sqwok::tui::app::ChatSummary;
use sqwok::tui::command_bar::{CommandAction, CommandBarState, MAX_VISIBLE_SUGGESTIONS};

fn chat(uuid: &str, topic: &str) -> ChatSummary {
    ChatSummary { uuid: uuid.to_string(), topic: topic.to_string(), description: None, member_count: 2 }
}

fn labels(b: &CommandBarState) -> Vec<String> {
    b.suggestions.iter().map(|s| s.label.clone()).collect()
}

#[test]
fn empty_input_lists_everything_sorted() {
    let mut b = CommandBarState::new();
    b.update_suggestions(&[chat("0123456789", "General")]);
    assert_eq!(
        labels(&b),
        vec![
            "/block", "/contacts", "/invite", "/join", "/members", "/quit", "/rotate", "/search", "/settings",
            "/switch General"
        ]
    );
    let sw = b.suggestions.last().unwrap();
    assert_eq!(sw.description, "01234567");
    assert!(matches!(&sw.action, CommandAction::SwitchChat(u) if u == "0123456789"));
    let q = &b.suggestions[5];
    assert_eq!(q.description, "Exit sqwok");
    assert!(matches!(q.action, CommandAction::Quit));
}

#[test]
fn prefix_filters_by_name_or_short_form() {
    let mut b = CommandBarState::new();
    b.input = "S".to_string();
    b.update_suggestions(&[chat("abcdefghij", "Zeta")]);
    assert_eq!(labels(&b), vec!["/search", "/settings", "/switch Zeta"]);
    b.input = "co".to_string();
    b.update_suggestions(&[]);
    assert_eq!(labels(&b), vec!["/contacts"]);
    b.input = "rot".to_string();
    b.update_suggestions(&[]);
    assert_eq!(labels(&b), vec!["/rotate"]);
    b.input = "zzz".to_string();
    b.update_suggestions(&[]);
    assert!(b.suggestions.is_empty());
    assert!(b.execute().is_none());
}

#[test]
fn join_with_code() {
    let mut b = CommandBarState::new();
    b.input = "join  ABC-123 ".to_string();
    b.update_suggestions(&[]);
    assert_eq!(labels(&b), vec!["/join abc-123"]);
    assert_eq!(b.suggestions[0].description, "Redeem invite code");
    match b.execute() {
        Some(CommandAction::JoinByCode(code)) => assert_eq!(code, "abc-123"),
        _ => panic!("expected join"),
    }
}

#[test]
fn join_without_code_offers_nothing() {
    let mut b = CommandBarState::new();
    b.input = "join ".to_string();
    b.update_suggestions(&[]);
    assert!(b.suggestions.is_empty());
    b.input = "jo".to_string();
    b.update_suggestions(&[]);
    assert_eq!(labels(&b), vec!["/join"]);
}

#[test]
fn selection_wraps_and_scrolls() {
    let mut b = CommandBarState::new();
    b.update_suggestions(&[]);
    assert_eq!(b.suggestions.len(), 9);
    b.select_prev();
    assert_eq!(b.selected_suggestion, 8);
    assert_eq!(b.scroll_offset, 8 + 1 - MAX_VISIBLE_SUGGESTIONS);
    b.select_next();
    assert_eq!(b.selected_suggestion, 0);
    assert_eq!(b.scroll_offset, 0);
    for _ in 0..7 {
        b.select_next();
    }
    assert_eq!(b.selected_suggestion, 7);
    assert_eq!(b.scroll_offset, 1);
    assert!(matches!(b.execute(), Some(CommandAction::Search)));
}

#[test]
fn next_then_prev_returns_and_keeps_the_window() {
    let mut b = CommandBarState::new();
    b.update_suggestions(&[]);
    let n = b.suggestions.len();
    for s in 0..n {
        while b.selected_suggestion != s {
            b.select_next();
        }
        b.select_next();
        assert!(b.scroll_offset <= b.selected_suggestion && b.selected_suggestion < b.scroll_offset + MAX_VISIBLE_SUGGESTIONS);
        b.select_prev();
        assert_eq!(b.selected_suggestion, s);
        assert!(b.scroll_offset <= b.selected_suggestion && b.selected_suggestion < b.scroll_offset + MAX_VISIBLE_SUGGESTIONS);
        assert_eq!(b.input, "");
    }
}
