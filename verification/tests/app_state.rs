use sqwok::net::invites::normalize_invite_code;
use sqwok::tui::app::{modal_opened_by, split_server_chats, AppState, ChatSummary, ConnStatus, Member, ModalKind, Mode};
use sqwok::tui::command_bar::CommandAction;
use sqwok::tui::editing::EditEffect;
use sqwok::tui::incoming::{classify_event, FrameEvent};
use sqwok::tui::input::EditCommand;
use sqwok::tui::pane::InputTarget;
use sqwok::tui::mention::mentions_user;
use sqwok::tui::store::DisplayMessage;

fn msg(uuid: &str, sender: &str, seq: i64) -> DisplayMessage {
    DisplayMessage {
        uuid: uuid.to_string(),
        sender_uuid: sender.to_string(),
        sender_name: sender.to_string(),
        body: format!("body {}", uuid),
        timestamp: "2026-03-22T00:00:00Z".to_string(),
        global_seq: seq,
        thread_uuid: None,
        reply_to_uuid: None,
        pending: false,
        read: true,
        mentions_me: false,
        mentioned_names: vec![],
    }
}

fn member(uuid: &str, name: &str) -> Member {
    Member { uuid: uuid.to_string(), screenname: name.to_string(), online: true }
}

fn chat_state() -> AppState {
    let mut app = AppState::new("me".to_string(), "Me".to_string());
    app.mode = Mode::Chat;
    app.members = vec![member("me", "Me"), member("a1", "alice"), member("b2", "bob")];
    app.msg_store.insert(msg("m1", "a1", 1));
    app.msg_store.insert(msg("m2", "b2", 3));
    app
}

fn edited_text(app: &AppState) -> String {
    let pane = app.panes.active();
    match pane.editing() {
        Some(t) => pane.input_text(t),
        None => String::new(),
    }
}

#[test]
fn new_state_starts_in_picker() {
    let app = AppState::new("me".to_string(), "Me".to_string());
    assert_eq!(app.mode, Mode::ChatPicker);
    assert_eq!(app.panes.len(), 1);
    assert!(app.toast.is_none());
    assert_eq!(app.render_row_count(), 1);
}

#[test]
fn moving_onto_input_starts_editing() {
    let mut app = chat_state();
    assert_eq!(app.render_row_count(), 3);
    app.move_selection(10);
    assert_eq!(app.panes.active().selected(), 2);
    assert_eq!(app.panes.active().editing(), Some(&InputTarget::MainChat));
    app.move_selection(-1);
    assert_eq!(app.panes.active().selected(), 1);
    assert!(app.panes.active().editing().is_none());
    app.move_selection(-100);
    assert_eq!(app.panes.active().selected(), 0);
}

#[test]
fn typing_and_sending() {
    let mut app = chat_state();
    app.move_selection(10);
    assert_eq!(app.apply_edit(EditCommand::Type('h')), EditEffect::Typed);
    assert_eq!(app.apply_edit(EditCommand::Type('i')), EditEffect::Typed);
    assert_eq!(edited_text(&app), "hi");
    assert_eq!(app.apply_edit(EditCommand::Send), EditEffect::Send);
    // not connected: nothing is taken, a notice shows
    assert!(app.take_outgoing(1000).is_none());
    let toast = app.toast.as_ref().unwrap();
    assert_eq!(toast.text, "Cannot send: not connected");
    assert_eq!(toast.expires_ms, 4000);
    assert_eq!(edited_text(&app), "hi");
    app.connection_status = ConnStatus::Connected;
    let out = app.take_outgoing(2000).unwrap();
    assert_eq!(out.text, "hi");
    assert!(out.thread_uuid.is_none());
    assert!(out.reply_to_uuid.is_none());
    assert!(app.panes.active().editing().is_none());
}

#[test]
fn blank_input_is_not_sent() {
    let mut app = chat_state();
    app.connection_status = ConnStatus::Connected;
    app.move_selection(10);
    app.apply_edit(EditCommand::Type(' '));
    assert!(app.take_outgoing(0).is_none());
    assert!(app.panes.active().editing().is_none());
}

#[test]
fn pending_message_is_shown_then_confirmed() {
    let mut app = chat_state();
    app.connection_status = ConnStatus::Connected;
    app.move_selection(10);
    app.apply_edit(EditCommand::Type('y'));
    let out = app.take_outgoing(0).unwrap();
    app.add_pending("p1".to_string(), "2026-03-22T00:00:05Z".to_string(), out, 500);
    let m = app.msg_store.get(&"p1".to_string()).unwrap();
    assert!(m.pending);
    assert_eq!(m.global_seq, i64::MAX);
    assert_eq!(m.sender_uuid, "me");
    assert_eq!(m.body, "y");
    assert_eq!(app.msg_store.top_level(), &vec!["m1".to_string(), "m2".to_string(), "p1".to_string()]);
    assert_eq!(app.panes.active().selected(), app.render_row_count() - 1);
    assert_eq!(app.highlights.get(&"p1".to_string()), Some(&500));

    // the server echoes it back at position 2, between m1 and m2
    let mut echoed = msg("p1", "me", 2);
    echoed.body = "y".to_string();
    app.receive_message(echoed, 900);
    let m = app.msg_store.get(&"p1".to_string()).unwrap();
    assert!(!m.pending);
    assert_eq!(m.global_seq, 2);
    assert_eq!(app.msg_store.top_level(), &vec!["m1".to_string(), "p1".to_string(), "m2".to_string()]);
    assert_eq!(app.highlights.get(&"p1".to_string()), Some(&900));
}

#[test]
fn received_new_message_is_added() {
    let mut app = chat_state();
    app.receive_message(msg("m3", "a1", 3), 10);
    assert_eq!(app.msg_store.top_level().len(), 3);
    assert_eq!(app.msg_store.top_level()[2], "m3");
    assert_eq!(app.highlights.get(&"m3".to_string()), Some(&10));
}

#[test]
fn mention_popup_follows_typing() {
    let mut app = chat_state();
    app.move_selection(10);
    app.apply_edit(EditCommand::Type('@'));
    {
        let p = app.mention_popup.as_ref().unwrap();
        assert_eq!(p.query, "");
        assert_eq!(p.matches, vec![("a1".to_string(), "alice".to_string()), ("b2".to_string(), "bob".to_string())]);
    }
    app.apply_edit(EditCommand::Type('B'));
    {
        let p = app.mention_popup.as_ref().unwrap();
        assert_eq!(p.query, "B");
        assert_eq!(p.matches, vec![("b2".to_string(), "bob".to_string())]);
        assert_eq!(p.selected, 0);
    }
    app.apply_edit(EditCommand::Backspace);
    {
        let p = app.mention_popup.as_ref().unwrap();
        assert_eq!(p.query, "");
        assert_eq!(p.matches.len(), 2);
    }
    app.apply_edit(EditCommand::PopupDown);
    assert_eq!(app.mention_popup.as_ref().unwrap().selected, 1);
    app.apply_edit(EditCommand::PopupDown);
    assert_eq!(app.mention_popup.as_ref().unwrap().selected, 1);
    app.apply_edit(EditCommand::PopupUp);
    assert_eq!(app.mention_popup.as_ref().unwrap().selected, 0);
    assert_eq!(app.apply_edit(EditCommand::CompleteMention), EditEffect::Continue);
    assert!(app.mention_popup.is_none());
    assert_eq!(edited_text(&app), "<@a1>alice</@> ");
}

#[test]
fn completing_mention_replaces_partial_query() {
    let mut app = chat_state();
    app.move_selection(10);
    for c in "hi @al".chars() {
        app.apply_edit(EditCommand::Type(c));
    }
    assert_eq!(app.mention_popup.as_ref().unwrap().matches.len(), 1);
    app.apply_edit(EditCommand::CompleteMention);
    assert_eq!(edited_text(&app), "hi <@a1>alice</@> ");
    assert!(mentions_user(&edited_text(&app), "a1"));
    assert!(!mentions_user(&edited_text(&app), "b2"));
}

#[test]
fn word_keys_while_editing() {
    let mut app = chat_state();
    app.move_selection(10);
    for c in "say @hello world".chars() {
        app.apply_edit(EditCommand::Type(c));
    }
    // the popup follows the typed query; nobody matches "hello world"
    assert!(app.mention_popup.as_ref().unwrap().matches.is_empty());
    app.apply_edit(EditCommand::WordBack);
    assert!(app.mention_popup.is_none());
    app.apply_edit(EditCommand::DeleteWordBack);
    assert_eq!(edited_text(&app), "say world");
    app.apply_edit(EditCommand::WordForward);
    app.apply_edit(EditCommand::CursorToStart);
    app.apply_edit(EditCommand::DeleteWordForward);
    assert_eq!(edited_text(&app), " world");
    app.apply_edit(EditCommand::DeleteForward);
    assert_eq!(edited_text(&app), "world");
}

#[test]
fn backspacing_past_at_closes_popup() {
    let mut app = chat_state();
    app.move_selection(10);
    app.apply_edit(EditCommand::Type('@'));
    assert!(app.mention_popup.is_some());
    app.apply_edit(EditCommand::Backspace);
    assert!(app.mention_popup.is_none());
    assert_eq!(edited_text(&app), "");
}

#[test]
fn cursor_left_past_at_closes_popup() {
    let mut app = chat_state();
    app.move_selection(10);
    app.apply_edit(EditCommand::Type('x'));
    app.apply_edit(EditCommand::Type('@'));
    app.apply_edit(EditCommand::CursorLeft);
    assert!(app.mention_popup.is_none());
}

#[test]
fn escape_stops_editing() {
    let mut app = chat_state();
    app.move_selection(10);
    app.apply_edit(EditCommand::Type('@'));
    app.apply_edit(EditCommand::ClosePopup);
    assert!(app.mention_popup.is_none());
    assert!(app.panes.active().editing().is_some());
    app.apply_edit(EditCommand::StopEditing);
    assert!(app.panes.active().editing().is_none());
    assert_eq!(app.panes.active().selected(), 2);
}

#[test]
fn end_jumps_to_latest_and_stops_editing() {
    let mut app = chat_state();
    app.move_selection(10);
    app.move_selection(-2);
    app.panes.active();
    app.move_selection(2);
    app.apply_edit(EditCommand::JumpToLatest);
    assert!(app.panes.active().editing().is_none());
    assert_eq!(app.panes.active().selected(), 2);
}

#[test]
fn cursor_keys_move_within_input() {
    let mut app = chat_state();
    app.move_selection(10);
    for c in "abc".chars() {
        app.apply_edit(EditCommand::Type(c));
    }
    app.apply_edit(EditCommand::CursorToStart);
    app.apply_edit(EditCommand::Type('X'));
    assert_eq!(edited_text(&app), "Xabc");
    app.apply_edit(EditCommand::CursorToEnd);
    app.apply_edit(EditCommand::CursorLeft);
    app.apply_edit(EditCommand::Backspace);
    assert_eq!(edited_text(&app), "Xac");
    app.apply_edit(EditCommand::CursorRight);
    app.apply_edit(EditCommand::Type('!'));
    assert_eq!(edited_text(&app), "Xac!");
}

#[test]
fn quit_changes_nothing() {
    let mut app = chat_state();
    assert_eq!(app.apply_edit(EditCommand::Quit), EditEffect::Quit);
    assert_eq!(app.panes.active().selected(), 0);
}

#[test]
fn presence_state_replaces_members() {
    let mut app = chat_state();
    app.apply_presence_state(vec![("x".to_string(), "Xavier".to_string()), ("me".to_string(), "Me".to_string())]);
    assert_eq!(app.members.len(), 2);
    assert_eq!(app.members[0].uuid, "x");
    assert_eq!(app.members[0].screenname, "Xavier");
    assert!(app.members.iter().all(|m| m.online));
    assert_eq!(app.name_cache.get(&"x".to_string()), Some(&"Xavier".to_string()));
}

#[test]
fn presence_diff_marks_leaves_and_reports_arrivals() {
    let mut app = chat_state();
    let arrivals = app.apply_presence_diff(
        vec!["a1".to_string(), "b2".to_string()],
        vec![
            ("b2".to_string(), "bobby".to_string()),
            ("c3".to_string(), "carol".to_string()),
            ("me".to_string(), "Me".to_string()),
        ],
    );
    // b2 is a metadata update (in both), me is ourselves: only c3 arrives
    assert_eq!(arrivals, vec!["c3".to_string()]);
    assert_eq!(app.members.len(), 4);
    assert!(!app.members[1].online); // a1 left
    assert!(app.members[2].online); // b2 came back
    assert_eq!(app.members[2].screenname, "bobby");
    assert_eq!(app.members[3].uuid, "c3");
    assert_eq!(app.name_cache.get(&"c3".to_string()), Some(&"carol".to_string()));
}

#[test]
fn member_removed_self_and_other() {
    let mut app = chat_state();
    app.current_chat = Some("chat".to_string());
    assert!(!app.handle_member_removed(&"a1".to_string(), 100));
    assert_eq!(app.members.len(), 2);
    assert_eq!(app.toast.as_ref().unwrap().text, "a1 was removed \u{2014} rotating keys");
    assert_eq!(app.toast.as_ref().unwrap().expires_ms, 4100);
    assert!(app.handle_member_removed(&"me".to_string(), 100));
    assert_eq!(app.mode, Mode::ChatPicker);
    assert!(app.current_chat.is_none());
    assert!(app.members.is_empty());
    assert_eq!(app.toast.as_ref().unwrap().text, "You were removed from this chat");
}

#[test]
fn invitations_flow() {
    let mut app = AppState::new("me".to_string(), "Me".to_string());
    app.handle_chat_added("c1".to_string(), "Topic".to_string(), Some("bob".to_string()), 42, 1000);
    assert_eq!(app.invitations.len(), 1);
    assert_eq!(app.toast.as_ref().unwrap().text, "New invitation: Topic");
    assert_eq!(app.toast.as_ref().unwrap().expires_ms, 6000);
    app.handle_chat_added("c1".to_string(), "Topic".to_string(), None, 43, 2000);
    assert_eq!(app.invitations.len(), 1);
    assert_eq!(app.accept_invitation(5), None);
    assert_eq!(app.accept_invitation(0), Some("c1".to_string()));
    assert!(app.invitations.is_empty());
    assert_eq!(app.chat_list.len(), 1);
    assert_eq!(app.chat_list[0].uuid, "c1");
}

#[test]
fn ack_only_when_high_water_grows() {
    let mut app = AppState::new("me".to_string(), "Me".to_string());
    assert!(app.take_ack_due(5));
    assert!(!app.take_ack_due(5));
    assert!(!app.take_ack_due(3));
    assert!(app.take_ack_due(6));
    assert_eq!(app.last_acked, 6);
}

#[test]
fn tick_fades_highlights() {
    let mut app = AppState::new("me".to_string(), "Me".to_string());
    app.highlights.insert("old".to_string(), 0);
    app.highlights.insert("new".to_string(), 1500);
    app.tick(2000);
    assert!(app.highlights.get(&"old".to_string()).is_none());
    assert_eq!(app.highlights.get(&"new".to_string()), Some(&1500));
}

#[test]
fn events_are_classified() {
    assert_eq!(classify_event("msg:new"), FrameEvent::NewMessage);
    assert_eq!(classify_event("msg:buffered"), FrameEvent::MessageBatch);
    assert_eq!(classify_event("sync:push"), FrameEvent::MessageBatch);
    assert_eq!(classify_event("presence_state"), FrameEvent::PresenceState);
    assert_eq!(classify_event("presence_diff"), FrameEvent::PresenceDiff);
    assert_eq!(classify_event("member:removed"), FrameEvent::MemberRemoved);
    assert_eq!(classify_event("key:request"), FrameEvent::Channel);
    assert_eq!(classify_event("phx_reply"), FrameEvent::Channel);
    assert_eq!(classify_event("sync:assign"), FrameEvent::SyncAssign);
    assert_eq!(classify_event("msg:newer"), FrameEvent::Ignored);
    assert_eq!(classify_event(""), FrameEvent::Ignored);
}

#[test]
fn panes_split_focus_close() {
    let mut app = AppState::new("me".to_string(), "Me".to_string());
    app.split_pane_vertical();
    assert_eq!(app.panes.len(), 2);
    assert_eq!(app.panes.active_idx(), 1);
    app.focus_pane(1);
    assert_eq!(app.panes.active_idx(), 0);
    app.focus_pane(-1);
    assert_eq!(app.panes.active_idx(), 1);
    app.close_pane();
    assert_eq!(app.panes.len(), 1);
    app.close_pane();
    assert_eq!(app.panes.len(), 1);
}

#[test]
fn server_chats_split_into_known_and_invitations() {
    let chat = |u: &str, t: &str| ChatSummary { uuid: u.to_string(), topic: t.to_string(), description: None, member_count: 1 };
    let (known, inv) = split_server_chats(vec![chat("a", "A"), chat("b", "B"), chat("c", "C")], vec!["b".to_string()], 77);
    assert_eq!(known.len(), 1);
    assert_eq!(known[0].uuid, "b");
    assert_eq!(inv.len(), 2);
    assert_eq!(inv[0].chat_uuid, "a");
    assert_eq!(inv[1].topic, "C");
    assert_eq!(inv[1].received_at, 77);
    assert!(inv[0].invited_by.is_none());
    // first run: everything is known
    let (known, inv) = split_server_chats(vec![chat("a", "A"), chat("b", "B")], vec![], 0);
    assert_eq!(known.len(), 2);
    assert!(inv.is_empty());
}

#[test]
fn invite_codes_are_normalized() {
    assert_eq!(normalize_invite_code("sqwok-abcd-ef12"), "ABCDEF12");
    assert_eq!(normalize_invite_code("ABCD-EF12"), "ABCDEF12");
    assert_eq!(normalize_invite_code("abcd"), "ABCD");
    assert_eq!(normalize_invite_code("x-sqwok-1"), "XSQWOK1");
    assert_eq!(normalize_invite_code(""), "");
}

#[test]
fn redeemed_chat_joins_the_list_once() {
    let mut app = AppState::new("me".to_string(), "Me".to_string());
    app.add_redeemed_chat("c9".to_string(), String::new());
    assert_eq!(app.chat_list.len(), 1);
    assert_eq!(app.chat_list[0].topic, "Chat");
    app.add_redeemed_chat("c9".to_string(), "Other".to_string());
    assert_eq!(app.chat_list.len(), 1);
    app.add_redeemed_chat("c8".to_string(), "Named".to_string());
    assert_eq!(app.chat_list[1].topic, "Named");
}

#[test]
fn leaving_a_chat() {
    let mut app = chat_state();
    app.add_redeemed_chat("c1".to_string(), "One".to_string());
    app.add_redeemed_chat("c2".to_string(), "Two".to_string());
    app.current_chat = Some("c1".to_string());
    app.pending_leave_chat = true;
    app.leave_chat_done(100);
    assert_eq!(app.chat_list.len(), 1);
    assert_eq!(app.chat_list[0].uuid, "c2");
    assert!(app.current_chat.is_none());
    assert_eq!(app.mode, Mode::ChatPicker);
    assert!(app.members.is_empty());
    assert!(app.msg_store.top_level().is_empty());
    assert!(!app.pending_leave_chat);
    assert_eq!(app.toast.as_ref().unwrap().text, "Left chat");
    assert_eq!(app.toast.as_ref().unwrap().expires_ms, 3100);
}

#[test]
fn typing_notifications_are_throttled() {
    let mut app = chat_state();
    assert_eq!(app.take_typing_notify(10_000), None);
    assert_eq!(app.last_typing_notify_ms, None);
    let mut pane = app.panes.take_active();
    pane.set_editing(Some(InputTarget::Reply("m2".to_string(), "m1".to_string())));
    app.panes.put_active(pane);
    assert_eq!(app.take_typing_notify(10_000), Some((Some("m1".to_string()), Some("m2".to_string()))));
    assert_eq!(app.take_typing_notify(12_999), None);
    assert_eq!(app.last_typing_notify_ms, Some(10_000));
    assert_eq!(app.take_typing_notify(13_000), Some((Some("m1".to_string()), Some("m2".to_string()))));
    assert_eq!(app.last_typing_notify_ms, Some(13_000));
}

#[test]
fn commands_open_their_dialogs() {
    assert_eq!(modal_opened_by(&CommandAction::MemberList), Some(ModalKind::MemberList));
    assert_eq!(modal_opened_by(&CommandAction::InviteCreate), Some(ModalKind::InviteCreate));
    assert_eq!(modal_opened_by(&CommandAction::BlockUsers), Some(ModalKind::BlockUsers));
    assert_eq!(modal_opened_by(&CommandAction::Quit), None);
    assert_eq!(modal_opened_by(&CommandAction::SwitchChat("c".to_string())), None);
}
