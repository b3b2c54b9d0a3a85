use sqwok::tui::input::{KeyCode, KeyInput, Modifiers};
use sqwok::tui::modals::{
    ttl_option, use_limit_option, BlockAction, BlockFocus, BlockUsersAction, BlockUsersModalState, ConfigureFocus,
    Contact, ContactsAction, ContactsModalState, InviteModalState, InviteStep, SearchAction, SearchModalState,
    SearchResult,
};

fn key(code: KeyCode) -> KeyInput {
    KeyInput { code, mods: Modifiers { shift: false, ctrl: false, alt: false, other: false } }
}

fn ctrl(c: char) -> KeyInput {
    KeyInput { code: KeyCode::Char(c), mods: Modifiers { shift: false, ctrl: true, alt: false, other: false } }
}

fn contact(uuid: &str, name: &str) -> Contact {
    Contact { uuid: uuid.to_string(), screenname: name.to_string(), last_seen_chat: None, updated_at: 0 }
}

#[test]
fn ttl_and_limit_options() {
    assert_eq!(ttl_option(0), ("1h", "1 hour"));
    assert_eq!(ttl_option(1), ("24h", "24 hours"));
    assert_eq!(ttl_option(2), ("7d", "7 days"));
    assert_eq!(use_limit_option(0), None);
    assert_eq!(use_limit_option(3), Some(5));
    assert_eq!(use_limit_option(6), Some(50));
}

#[test]
fn invite_configure_navigation() {
    let mut s = InviteModalState::new();
    assert_eq!(s.step, InviteStep::Configure);
    assert_eq!(s.ttl_selection, 1);
    assert!(!s.handle_input(key(KeyCode::Down)));
    assert_eq!(s.ttl_selection, 2);
    assert!(!s.handle_input(key(KeyCode::Down)));
    assert_eq!(s.ttl_selection, 2);
    assert!(!s.handle_input(key(KeyCode::Tab)));
    assert_eq!(s.configure_focus, ConfigureFocus::UseLimit);
    for _ in 0..10 {
        s.handle_input(key(KeyCode::Down));
    }
    assert_eq!(s.use_limit_idx, 6);
    assert_eq!(s.use_limit(), Some(50));
    s.handle_input(key(KeyCode::Up));
    assert_eq!(s.use_limit(), Some(25));
    assert!(!s.handle_input(key(KeyCode::Enter)));
    assert_eq!(s.step, InviteStep::Creating);
}

#[test]
fn invite_escape_closes() {
    let mut s = InviteModalState::new();
    assert!(s.handle_input(key(KeyCode::Esc)));
}

#[test]
fn search_typing_and_selection() {
    let mut s = SearchModalState::new();
    assert!(matches!(s.handle_input(key(KeyCode::Char('a'))), SearchAction::QueryChanged));
    assert!(matches!(s.handle_input(key(KeyCode::Char('b'))), SearchAction::QueryChanged));
    assert_eq!(s.query, "ab");
    assert!(matches!(s.handle_input(ctrl('x')), SearchAction::Continue));
    assert_eq!(s.query, "ab");
    assert!(matches!(s.handle_input(key(KeyCode::Backspace)), SearchAction::QueryChanged));
    assert_eq!(s.query, "a");
    s.results = vec![
        SearchResult { uuid: "u1".to_string(), screenname: "ann".to_string() },
        SearchResult { uuid: "u2".to_string(), screenname: "abe".to_string() },
    ];
    s.handle_input(key(KeyCode::Down));
    s.handle_input(key(KeyCode::Down));
    assert_eq!(s.selected, 1);
    match s.handle_input(key(KeyCode::Enter)) {
        SearchAction::SelectUser(u) => assert_eq!(u, "u2"),
        _ => panic!("expected a selection"),
    }
    assert!(matches!(s.handle_input(key(KeyCode::Esc)), SearchAction::Close));
}

#[test]
fn search_enter_without_results_closes() {
    let mut s = SearchModalState::new();
    assert!(matches!(s.handle_input(key(KeyCode::Enter)), SearchAction::Close));
}

#[test]
fn contacts_filter_is_case_insensitive() {
    let mut s = ContactsModalState::new(vec![contact("1", "Alice"), contact("2", "bob"), contact("3", "MALLORY")]);
    assert_eq!(s.filtered(), vec![0, 1, 2]);
    s.handle_input(key(KeyCode::Char('A')));
    s.handle_input(key(KeyCode::Char('l')));
    assert_eq!(s.filter, "Al");
    assert_eq!(s.filtered(), vec![0, 2]);
    s.handle_input(key(KeyCode::Down));
    s.handle_input(key(KeyCode::Down));
    assert_eq!(s.selected, 1);
    s.handle_input(key(KeyCode::Backspace));
    assert_eq!(s.selected, 0);
    assert_eq!(s.filter, "A");
    assert_eq!(s.handle_input(key(KeyCode::Esc)), ContactsAction::Close);
}

#[test]
fn block_users_confirm_flow() {
    let mut s = BlockUsersModalState::new(vec![("b1".to_string(), "Bad".to_string())]);
    s.suggestions = vec![("x1".to_string(), "Xena".to_string()), ("y2".to_string(), "Yuri".to_string())];
    s.handle_input(key(KeyCode::Down));
    assert_eq!(s.selected_suggestion, 1);
    s.handle_input(key(KeyCode::Down));
    assert_eq!(s.selected_suggestion, 1);
    assert!(matches!(s.handle_input(key(KeyCode::Enter)), BlockUsersAction::Continue));
    assert_eq!(s.confirm, Some(("y2".to_string(), "Yuri".to_string(), BlockAction::Block)));
    // other keys wait for an answer
    assert!(matches!(s.handle_input(key(KeyCode::Down)), BlockUsersAction::Continue));
    assert!(s.confirm.is_some());
    match s.handle_input(key(KeyCode::Char('y'))) {
        BlockUsersAction::Block(u, n) => {
            assert_eq!(u, "y2");
            assert_eq!(n, "Yuri");
        }
        _ => panic!("expected a block"),
    }
    assert!(s.confirm.is_none());
}

#[test]
fn block_users_unblock_and_decline() {
    let mut s = BlockUsersModalState::new(vec![("b1".to_string(), "Bad".to_string())]);
    s.handle_input(key(KeyCode::Tab));
    assert_eq!(s.focus, BlockFocus::Blocked);
    s.handle_input(key(KeyCode::Enter));
    assert_eq!(s.confirm, Some(("b1".to_string(), "Bad".to_string(), BlockAction::Unblock)));
    s.handle_input(key(KeyCode::Char('n')));
    assert!(s.confirm.is_none());
    s.handle_input(key(KeyCode::Enter));
    match s.handle_input(key(KeyCode::Char('Y'))) {
        BlockUsersAction::Unblock(u, _) => assert_eq!(u, "b1"),
        _ => panic!("expected an unblock"),
    }
}

#[test]
fn block_users_search_typing() {
    let mut s = BlockUsersModalState::new(vec![]);
    s.handle_input(key(KeyCode::Char('q')));
    s.handle_input(key(KeyCode::Char('z')));
    assert_eq!(s.search_input, "qz");
    s.handle_input(key(KeyCode::Backspace));
    assert_eq!(s.search_input, "q");
    // typing goes nowhere while the blocked list has the focus
    s.handle_input(key(KeyCode::Tab));
    s.handle_input(key(KeyCode::Char('w')));
    assert_eq!(s.search_input, "q");
    // enter on an empty list asks nothing
    s.handle_input(key(KeyCode::Enter));
    assert!(s.confirm.is_none());
    assert!(matches!(s.handle_input(key(KeyCode::Esc)), BlockUsersAction::Close));
}

#[test]
fn search_results_merge_without_duplicates() {
    let mut s = SearchModalState::new();
    s.query = "an".to_string();
    let r = |u: &str, n: &str| SearchResult { uuid: u.to_string(), screenname: n.to_string() };
    s.merge_results(&"an".to_string(), vec![r("1", "ann"), r("2", "andy")]);
    assert_eq!(s.results.len(), 2);
    assert_eq!(s.last_searched, "an");
    s.merge_results(&"an".to_string(), vec![r("2", "andy"), r("3", "anton")]);
    let uuids: Vec<&str> = s.results.iter().map(|x| x.uuid.as_str()).collect();
    assert_eq!(uuids, vec!["1", "2", "3"]);
    // stale results for an older query are dropped
    s.merge_results(&"a".to_string(), vec![r("9", "al")]);
    assert_eq!(s.results.len(), 3);
    assert_eq!(s.last_searched, "an");
}

#[test]
fn revoked_invite_leaves_the_list() {
    use_invite_list();
}

fn use_invite_list() {
    let mut s = InviteModalState::new();
    let inv = |c: &str| sqwok::tui::modals::InviteInfo {
        code: c.to_string(),
        display_code: c.to_uppercase(),
        expires_at: String::new(),
        uses_remaining: None,
    };
    s.active_invites = vec![inv("a"), inv("b"), inv("a")];
    s.remove_invite(&"a".to_string());
    assert_eq!(s.active_invites.len(), 1);
    assert_eq!(s.active_invites[0].code, "b");
    s.remove_invite(&"zz".to_string());
    assert_eq!(s.active_invites.len(), 1);
}
