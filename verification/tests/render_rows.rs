use sqwok::tui::mention::NameCache;
use sqwok::tui::pane::{InputTarget, Pane};
use sqwok::tui::render_rows::{build, AuthorColor, Gutter, RenderRow};
use sqwok::tui::store::{DisplayMessage, TuiMessageStore};
use sqwok::tui::str_map::StrMap;
use sqwok::tui::uuid_set::UuidSet;

fn msg(uuid: &str, sender: &str, seq: i64, thread: Option<&str>, reply_to: Option<&str>) -> DisplayMessage {
    DisplayMessage {
        uuid: uuid.to_string(),
        sender_uuid: sender.to_string(),
        sender_name: format!("name-{}", sender),
        body: format!("body of {}", uuid),
        timestamp: "2026-03-22T10:15:00Z".to_string(),
        global_seq: seq,
        thread_uuid: thread.map(String::from),
        reply_to_uuid: reply_to.map(String::from),
        pending: false,
        read: true,
        mentions_me: false,
        mentioned_names: vec![],
    }
}

fn run(pane: &Pane, store: &TuiMessageStore, typing: &[(Option<String>, Option<String>)], blocked: &UuidSet) -> Vec<RenderRow> {
    let me = "me".to_string();
    let members = vec!["alice".to_string(), "bob".to_string()];
    let names = NameCache::new();
    let ages: StrMap<u64> = StrMap::new();
    build(pane, store, &me, &members, &names, &ages, typing, blocked)
}

#[test]
fn empty_store_has_only_main_input() {
    let pane = Pane::new();
    let store = TuiMessageStore::new();
    let rows = run(&pane, &store, &[], &UuidSet::new());
    assert_eq!(rows.len(), 1);
    match &rows[0] {
        RenderRow::Input { thread_uuid, reply_to_uuid, indent, is_active, content, cursor } => {
            assert!(thread_uuid.is_none());
            assert!(reply_to_uuid.is_none());
            assert_eq!(*indent, 0);
            assert!(!*is_active);
            assert_eq!(content, "");
            assert_eq!(*cursor, 0);
        }
        _ => panic!("expected input row"),
    }
}

#[test]
fn messages_in_order_then_input() {
    let pane = Pane::new();
    let mut store = TuiMessageStore::new();
    store.insert(msg("m2", "bob", 2, None, None));
    store.insert(msg("m1", "alice", 1, None, None));
    store.insert(msg("m3", "me", 3, None, None));
    let rows = run(&pane, &store, &[], &UuidSet::new());
    assert_eq!(rows.len(), 4);
    let uuids: Vec<String> = rows
        .iter()
        .filter_map(|r| match r {
            RenderRow::Message { uuid, .. } => Some(uuid.clone()),
            _ => None,
        })
        .collect();
    assert_eq!(uuids, vec!["m1", "m2", "m3"]);
    match &rows[0] {
        RenderRow::Message { author, author_color, indent, gutter, timestamp, .. } => {
            assert_eq!(author, "name-alice");
            assert_eq!(*author_color, AuthorColor::Member(0));
            assert_eq!(*indent, 0);
            assert_eq!(*gutter, Gutter::NoThread);
            assert_eq!(timestamp, "2026-03-22T10:15:00Z");
        }
        _ => panic!(),
    }
    match &rows[1] {
        RenderRow::Message { author_color, .. } => assert_eq!(*author_color, AuthorColor::Member(1)),
        _ => panic!(),
    }
    match &rows[2] {
        RenderRow::Message { author_color, .. } => assert_eq!(*author_color, AuthorColor::Accent),
        _ => panic!(),
    }
}

#[test]
fn thread_collapsed_by_default() {
    let pane = Pane::new();
    let mut store = TuiMessageStore::new();
    store.insert(msg("root", "alice", 1, None, None));
    store.insert(msg("r1", "bob", 2, Some("root"), None));
    store.insert(msg("r2", "bob", 3, Some("root"), None));
    let rows = run(&pane, &store, &[], &UuidSet::new());
    assert_eq!(rows.len(), 2);
    match &rows[0] {
        RenderRow::CollapsedThread { uuid, reply_count, preview, is_unread, .. } => {
            assert_eq!(uuid, "root");
            assert_eq!(*reply_count, 2);
            assert_eq!(preview, "body of root");
            assert!(!*is_unread);
        }
        _ => panic!("expected collapsed thread"),
    }
}

#[test]
fn expanded_thread_shows_replies_and_thread_input() {
    let mut pane = Pane::new();
    pane.expand("root".to_string());
    let mut store = TuiMessageStore::new();
    store.insert(msg("root", "alice", 1, None, None));
    store.insert(msg("r1", "bob", 2, Some("root"), None));
    store.insert(msg("s1", "alice", 3, Some("root"), Some("r1")));
    let rows = run(&pane, &store, &[], &UuidSet::new());
    // root, r1, s1, thread input, main input (reply input only when active)
    assert_eq!(rows.len(), 5);
    match &rows[0] {
        RenderRow::Message { gutter, .. } => assert_eq!(*gutter, Gutter::Expanded),
        _ => panic!(),
    }
    match &rows[1] {
        RenderRow::Message { uuid, indent, thread_uuid, gutter, .. } => {
            assert_eq!(uuid, "r1");
            assert_eq!(*indent, 1);
            assert_eq!(thread_uuid.as_deref(), Some("root"));
            assert_eq!(*gutter, Gutter::Expanded);
        }
        _ => panic!(),
    }
    match &rows[2] {
        RenderRow::Message { uuid, indent, reply_to_uuid, .. } => {
            assert_eq!(uuid, "s1");
            assert_eq!(*indent, 2);
            assert_eq!(reply_to_uuid.as_deref(), Some("r1"));
        }
        _ => panic!(),
    }
    match &rows[3] {
        RenderRow::Input { thread_uuid, indent, .. } => {
            assert_eq!(thread_uuid.as_deref(), Some("root"));
            assert_eq!(*indent, 1);
        }
        _ => panic!(),
    }
    assert!(matches!(&rows[4], RenderRow::Input { indent: 0, .. }));
}

#[test]
fn collapsed_subthread_counts_hidden_replies() {
    let mut pane = Pane::new();
    pane.expand("root".to_string());
    pane.collapse_sub("r1".to_string());
    let mut store = TuiMessageStore::new();
    store.insert(msg("root", "alice", 1, None, None));
    store.insert(msg("r1", "bob", 2, Some("root"), None));
    let mut s1 = msg("s1", "alice", 3, Some("root"), Some("r1"));
    s1.read = false;
    s1.mentions_me = true;
    store.insert(s1);
    let rows = run(&pane, &store, &[], &UuidSet::new());
    assert_eq!(rows.len(), 4);
    match &rows[1] {
        RenderRow::Message { collapsed_sub_count, gutter, is_unread, mentions_me, .. } => {
            assert_eq!(*collapsed_sub_count, Some(1));
            assert_eq!(*gutter, Gutter::Collapsed);
            assert!(*is_unread);
            assert!(*mentions_me);
        }
        _ => panic!(),
    }
}

#[test]
fn blocked_author_thread_is_hidden() {
    let pane = Pane::new();
    let mut store = TuiMessageStore::new();
    store.insert(msg("m1", "alice", 1, None, None));
    store.insert(msg("m2", "bob", 2, None, None));
    let mut blocked = UuidSet::new();
    blocked.insert("bob".to_string());
    let rows = run(&pane, &store, &[], &blocked);
    assert_eq!(rows.len(), 2);
    assert!(matches!(&rows[0], RenderRow::Message { uuid, .. } if uuid == "m1"));
}

#[test]
fn typing_indicator_before_main_input() {
    let pane = Pane::new();
    let store = TuiMessageStore::new();
    let rows = run(&pane, &store, &[(None, None)], &UuidSet::new());
    assert_eq!(rows.len(), 2);
    assert!(matches!(rows[0], RenderRow::TypingIndicator { indent: 0 }));
}

#[test]
fn active_reply_input_is_shown() {
    let mut pane = Pane::new();
    pane.expand("root".to_string());
    pane.set_editing(Some(InputTarget::Reply("r1".to_string(), "root".to_string())));
    pane.push_char('h');
    pane.push_char('i');
    let mut store = TuiMessageStore::new();
    store.insert(msg("root", "alice", 1, None, None));
    store.insert(msg("r1", "bob", 2, Some("root"), None));
    let rows = run(&pane, &store, &[], &UuidSet::new());
    // root, r1, reply input, thread input, main input
    assert_eq!(rows.len(), 5);
    match &rows[2] {
        RenderRow::Input { thread_uuid, reply_to_uuid, indent, is_active, content, cursor } => {
            assert_eq!(thread_uuid.as_deref(), Some("root"));
            assert_eq!(reply_to_uuid.as_deref(), Some("r1"));
            assert_eq!(*indent, 2);
            assert!(*is_active);
            assert_eq!(content, "hi");
            assert_eq!(*cursor, 2);
        }
        _ => panic!(),
    }
}

#[test]
fn rows_never_nest_deeper_than_two() {
    let mut pane = Pane::new();
    pane.expand("root".to_string());
    let mut store = TuiMessageStore::new();
    store.insert(msg("root", "alice", 1, None, None));
    store.insert(msg("d1", "bob", 2, Some("root"), None));
    store.insert(msg("d2", "alice", 3, Some("root"), Some("d1")));
    store.insert(msg("d3", "bob", 4, Some("root"), Some("d2")));
    let typing = vec![
        (Some("root".to_string()), None),
        (Some("root".to_string()), Some("d1".to_string())),
    ];
    let rows = run(&pane, &store, &typing, &UuidSet::new());
    let depth = |r: &RenderRow| match r {
        RenderRow::Message { indent, .. } => *indent,
        RenderRow::CollapsedThread { .. } => 0,
        RenderRow::Input { indent, .. } => *indent,
        RenderRow::TypingIndicator { indent } => *indent,
    };
    assert!(rows.iter().all(|r| depth(r) <= 2));
    assert!(rows.iter().any(|r| matches!(r, RenderRow::Message { uuid, indent: 2, .. } if uuid == "d2")));
}
