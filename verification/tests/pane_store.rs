use sqwok::tui::pane::{current_mention_query, InputTarget, Pane};
use sqwok::tui::store::{DisplayMessage, TuiMessageStore};

fn msg(uuid: &str, seq: i64, thread: Option<&str>) -> DisplayMessage {
    DisplayMessage {
        uuid: uuid.to_string(),
        sender_uuid: "s".to_string(),
        sender_name: "S".to_string(),
        body: String::new(),
        timestamp: String::new(),
        global_seq: seq,
        thread_uuid: thread.map(String::from),
        reply_to_uuid: None,
        pending: false,
        read: false,
        mentions_me: false,
        mentioned_names: vec![],
    }
}

fn editing_main() -> Pane {
    let mut p = Pane::new();
    p.set_editing(Some(InputTarget::MainChat));
    p
}

#[test]
fn targets() {
    assert_eq!(InputTarget::MainChat.indent(), 0);
    assert_eq!(InputTarget::Thread("t".to_string()).indent(), 1);
    assert_eq!(InputTarget::Reply("r".to_string(), "t".to_string()).indent(), 2);
    assert_eq!(
        InputTarget::Reply("r".to_string(), "t".to_string()).to_wire_uuids(),
        (Some("t".to_string()), Some("r".to_string()))
    );
    assert_eq!(InputTarget::Thread("t".to_string()).to_wire_uuids(), (Some("t".to_string()), None));
    assert!(InputTarget::MainChat.same(&InputTarget::MainChat));
    assert!(!InputTarget::MainChat.same(&InputTarget::Thread("t".to_string())));
}

#[test]
fn push_pop_and_cursor() {
    let mut p = editing_main();
    for c in "héllo".chars() {
        p.push_char(c);
    }
    assert_eq!(p.input_text(&InputTarget::MainChat), "héllo");
    assert_eq!(p.input_cursor(&InputTarget::MainChat), 5);
    p.move_cursor_left();
    p.move_cursor_left();
    p.pop_char();
    assert_eq!(p.input_text(&InputTarget::MainChat), "hélo");
    assert_eq!(p.input_cursor(&InputTarget::MainChat), 2);
    p.move_cursor_to_start();
    p.pop_char();
    assert_eq!(p.input_text(&InputTarget::MainChat), "hélo");
    p.move_cursor_to_end();
    assert_eq!(p.input_cursor(&InputTarget::MainChat), 4);
    p.move_cursor_right();
    assert_eq!(p.input_cursor(&InputTarget::MainChat), 4);
}

#[test]
fn control_characters_are_ignored_but_tab_is_kept() {
    let mut p = editing_main();
    p.push_char('\u{7}');
    p.push_char('\t');
    p.push_char('\n');
    assert_eq!(p.input_text(&InputTarget::MainChat), "\t");
}

#[test]
fn input_is_capped_at_4096_bytes() {
    let mut p = editing_main();
    for _ in 0..5000 {
        p.push_char('a');
    }
    assert_eq!(p.input_text(&InputTarget::MainChat).len(), 4096);
}

#[test]
fn nothing_happens_without_an_edited_input() {
    let mut p = Pane::new();
    p.push_char('x');
    p.insert_str_at_cursor("abc");
    assert_eq!(p.input_text(&InputTarget::MainChat), "");
    assert!(p.take_input().is_none());
}

#[test]
fn insert_and_delete_back_to_at() {
    let mut p = editing_main();
    p.insert_str_at_cursor("hi @jo");
    assert_eq!(p.delete_back_to_at(), Some((3, "jo".to_string())));
    assert_eq!(p.input_text(&InputTarget::MainChat), "hi ");
    assert_eq!(p.input_cursor(&InputTarget::MainChat), 3);
    assert_eq!(p.delete_back_to_at(), None);
    p.complete_mention("<@u>jo</@> ");
    assert_eq!(p.input_text(&InputTarget::MainChat), "hi ");
    p.push_char('@');
    p.push_char('j');
    p.complete_mention("<@u>jo</@> ");
    assert_eq!(p.input_text(&InputTarget::MainChat), "hi <@u>jo</@> ");
    assert_eq!(p.input_cursor(&InputTarget::MainChat), 14);
}

#[test]
fn take_input_drops_blank_text() {
    let mut p = editing_main();
    p.insert_str_at_cursor("  \t ");
    assert!(p.take_input().is_none());
    assert!(p.editing().is_none());
    assert_eq!(p.input_text(&InputTarget::MainChat), "");
    let mut p = editing_main();
    p.insert_str_at_cursor(" x ");
    assert_eq!(p.take_input(), Some(" x ".to_string()));
}

#[test]
fn inputs_are_kept_per_target() {
    let mut p = editing_main();
    p.push_char('a');
    p.set_editing(Some(InputTarget::Thread("t".to_string())));
    p.push_char('b');
    assert_eq!(p.input_text(&InputTarget::MainChat), "a");
    assert_eq!(p.input_text(&InputTarget::Thread("t".to_string())), "b");
}

#[test]
fn expansion_state() {
    let mut p = Pane::new();
    p.expand("t".to_string());
    assert!(p.is_expanded(&"t".to_string()));
    p.collapse(&"t".to_string());
    assert!(!p.is_expanded(&"t".to_string()));
    p.collapse_sub("r".to_string());
    assert!(p.is_sub_collapsed(&"r".to_string()));
    p.expand_sub(&"r".to_string());
    assert!(!p.is_sub_collapsed(&"r".to_string()));
    p.set_selected(4);
    p.clear_view_state();
    assert_eq!(p.selected(), 0);
}

#[test]
fn mention_queries() {
    assert_eq!(current_mention_query("hi @al", 6), Some("al".to_string()));
    assert_eq!(current_mention_query("hi @al", 4), Some("".to_string()));
    assert_eq!(current_mention_query("hi @al x", 8), None);
    assert_eq!(current_mention_query("hello", 5), None);
    assert_eq!(current_mention_query("a@b@c", 5), Some("c".to_string()));
}

#[test]
fn store_orders_top_level_by_server_position() {
    let mut s = TuiMessageStore::new();
    assert_eq!(s.low_water(), i64::MAX);
    assert!(s.has_more_above());
    s.insert(msg("c", 30, None));
    s.insert(msg("a", 10, None));
    s.insert(msg("b", 20, None));
    s.insert(msg("a", 10, None));
    assert_eq!(s.top_level(), &vec!["a".to_string(), "b".to_string(), "c".to_string()]);
    assert_eq!(s.low_water(), 10);
    s.insert(msg("z", 0, None));
    assert_eq!(s.low_water(), 10);
    assert_eq!(s.top_level()[0], "z");
}

#[test]
fn store_threads() {
    let mut s = TuiMessageStore::new();
    s.insert(msg("root", 1, None));
    s.insert(msg("r1", 2, Some("root")));
    s.insert(msg("r2", 3, Some("root")));
    s.insert(msg("r1", 2, Some("root")));
    assert_eq!(s.reply_count(&"root".to_string()), 2);
    assert_eq!(s.replies(&"root".to_string()), vec!["r1".to_string(), "r2".to_string()]);
    assert_eq!(s.reply_count(&"none".to_string()), 0);
    assert_eq!(s.top_level().len(), 1);
    let (unread, mention) = s.unread_status(&["r1".to_string(), "nope".to_string()]);
    assert!(unread);
    assert!(!mention);
}

#[test]
fn store_confirm_moves_top_level_message() {
    let mut s = TuiMessageStore::new();
    s.insert(msg("a", 10, None));
    s.insert(msg("p", i64::MAX, None));
    s.insert(msg("b", 20, None));
    assert_eq!(s.top_level(), &vec!["a".to_string(), "b".to_string(), "p".to_string()]);
    assert!(s.confirm(&"p".to_string(), 15, "text".to_string()));
    assert_eq!(s.top_level(), &vec!["a".to_string(), "p".to_string(), "b".to_string()]);
    let m = s.get(&"p".to_string()).unwrap();
    assert_eq!(m.global_seq, 15);
    assert_eq!(m.body, "text");
    assert!(!m.pending);
    assert!(!s.confirm(&"q".to_string(), 1, String::new()));
    assert_eq!(s.top_level().len(), 3);
}

#[test]
fn store_clear() {
    let mut s = TuiMessageStore::new();
    s.insert(msg("a", 5, None));
    s.set_has_more_above(false);
    s.clear();
    assert!(s.top_level().is_empty());
    assert!(s.get(&"a".to_string()).is_none());
    assert_eq!(s.low_water(), i64::MAX);
    assert!(s.has_more_above());
}

#[test]
fn word_motions() {
    let mut p = editing_main();
    p.insert_str_at_cursor("one  two three");
    p.move_cursor_word_back();
    assert_eq!(p.input_cursor(&InputTarget::MainChat), 9);
    p.move_cursor_word_back();
    assert_eq!(p.input_cursor(&InputTarget::MainChat), 5);
    p.move_cursor_word_back();
    assert_eq!(p.input_cursor(&InputTarget::MainChat), 0);
    p.move_cursor_word_back();
    assert_eq!(p.input_cursor(&InputTarget::MainChat), 0);
    p.move_cursor_word_forward();
    assert_eq!(p.input_cursor(&InputTarget::MainChat), 3);
    p.move_cursor_word_forward();
    assert_eq!(p.input_cursor(&InputTarget::MainChat), 8);
    p.move_cursor_to_end();
    p.move_cursor_word_forward();
    assert_eq!(p.input_cursor(&InputTarget::MainChat), 14);
}

#[test]
fn word_deletion() {
    let mut p = editing_main();
    p.insert_str_at_cursor("one two three");
    p.delete_word_back();
    assert_eq!(p.input_text(&InputTarget::MainChat), "one two ");
    assert_eq!(p.input_cursor(&InputTarget::MainChat), 8);
    p.move_cursor_to_start();
    p.delete_word_forward();
    assert_eq!(p.input_text(&InputTarget::MainChat), " two ");
    assert_eq!(p.input_cursor(&InputTarget::MainChat), 0);
    p.pop_char_forward();
    assert_eq!(p.input_text(&InputTarget::MainChat), "two ");
    p.move_cursor_to_end();
    p.pop_char_forward();
    assert_eq!(p.input_text(&InputTarget::MainChat), "two ");
}
