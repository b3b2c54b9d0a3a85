//! What editing keys do to the state: typing into the active pane's input,
//! moving its cursor, and keeping the mention popup in step with the text.

use vstd::prelude::*;

use super::app::{same_but_selection, AppState, ConnStatus, Member, Toast};
use super::input::{mention_matches, offered, EditCommand, MentionPopup};
use super::mention::{close_tag, extract_mentioned_names, mention_needle, mentioned_from, occurs_at, open_tag};
use super::pane::{last_at_before, text_at, InputTarget};
use super::store::DisplayMessage;
use crate::text::all_whitespace;
use super::pane::{current_mention_query, mention_query, word_end_after, word_start_before, Pane};
use super::render_rows::{key_wire, row_ctx};
use crate::text::{push_char, push_str};

verus! {

/// What the event loop does after an editing key.
#[derive(Debug, Clone, Copy, PartialEq, Eq)]
pub enum EditEffect {
    /// Nothing more.
    Continue,
    /// Leave the program.
    Quit,
    /// Send the input being edited.
    Send,
    /// A character was typed: the peers may be told that the user is typing.
    Typed,
}

/// The text a completed mention leaves in the input: `<@uuid>name</@> `.
pub open spec fn mention_tag(uuid: Seq<char>, name: Seq<char>) -> Seq<char> {
    open_tag() + uuid + seq!['>'] + name + close_tag() + seq![' ']
}

/// Completing a mention of `uuid` leaves the input mentioning `uuid`: where
/// the `@` was, the text now holds `<@uuid>`, which `mentions_user` finds.
pub proof fn law_completed_mention_is_found(o: Pane, p: Pane, uuid: Seq<char>, name: Seq<char>)
    requires
        p.mention_completed_from(&o, mention_tag(uuid, name)),
        o.editing_key() is Some,
        o.texts().contains_key(o.editing_key()->Some_0),
        o.edit_cursor() <= o.edit_text().len(),
        last_at_before(o.edit_text(), o.edit_cursor()) is Some,
    ensures
        occurs_at(p.edit_text(), mention_needle(uuid), last_at_before(o.edit_text(), o.edit_cursor())->Some_0),
{
    let s = o.edit_text();
    let cur = o.edit_cursor();
    let at = last_at_before(s, cur)->Some_0;
    lemma_last_at_before_bounds(s, cur);
    let tag = mention_tag(uuid, name);
    let t = s.take(at) + tag + s.skip(cur);
    assert(p.edit_text() == t);
    let needle = mention_needle(uuid);
    assert(t.subrange(at, at + needle.len()) =~= needle);
}

proof fn lemma_last_at_before_bounds(s: Seq<char>, cur: int)
    ensures
        last_at_before(s, cur) matches Some(a) ==> 0 <= a < cur,
    decreases cur,
{
    if cur > 0 && s[cur - 1] != '@' {
        lemma_last_at_before_bounds(s, cur - 1);
    }
}

/// `p` is a popup for `query`: the members it offers and the first one
/// selected.
pub open spec fn popup_for(p: Option<MentionPopup>, members: Seq<Member>, me: Seq<char>, query: Seq<char>) -> bool {
    p matches Some(pp) && pp.query@ == query && pp.selected == 0
        && pp.matches@.map_values(|m: (String, String)| (m.0@, m.1@)) == offered(members, me, query)
}

/// The mention query at the cursor of the input `p` edits, if any.
pub open spec fn query_at_cursor(p: Pane) -> Option<Seq<char>> {
    match p.editing_key() {
        None => None,
        Some(_) => mention_query(p.edit_text(), p.edit_cursor()),
    }
}

/// The popup follows `q`: it offers the members for `q`, or is closed when
/// there is no query.
pub open spec fn popup_follows(p: Option<MentionPopup>, members: Seq<Member>, me: Seq<char>, q: Option<Seq<char>>) -> bool {
    match q {
        Some(q) => popup_for(p, members, me, q),
        None => p is None,
    }
}

fn mention_tag_text(uuid: &String, name: &String) -> (r: String)
    ensures
        r@ == mention_tag(uuid@, name@),
{
    let mut s = String::new();
    push_str(&mut s, "<@");
    push_str(&mut s, uuid.as_str());
    push_char(&mut s, '>');
    push_str(&mut s, name.as_str());
    push_str(&mut s, "</@>");
    push_char(&mut s, ' ');
    proof {
        reveal_strlit("<@");
        reveal_strlit("</@>");
        assert(s@ =~= mention_tag(uuid@, name@));
    }
    s
}

/// A message ready to go out: its text and where it goes.
pub struct Outgoing {
    pub text: String,
    pub thread_uuid: Option<String>,
    pub reply_to_uuid: Option<String>,
}

/// How long the notice about a refused send stays up.
pub const SEND_REFUSED_TOAST_MS: u64 = 3000;

/// `now + d`, stopping at the end of `u64`.
pub open spec fn later_by(now: u64, d: u64) -> u64 {
    if now + d > u64::MAX { u64::MAX } else { (now + d) as u64 }
}

/// The `(thread_uuid, reply_to_uuid)` a message typed at the input with key
/// `k` carries.
pub open spec fn wire_uuids(k: (int, Seq<char>, Seq<char>)) -> (Option<Seq<char>>, Option<Seq<char>>) {
    if k.0 == 0 {
        (None, None)
    } else if k.0 == 1 {
        (Some(k.1), None)
    } else {
        (Some(k.2), Some(k.1))
    }
}

/// An optional string as a character sequence.
pub open spec fn opt_view(o: Option<String>) -> Option<Seq<char>> {
    match o {
        Some(s) => Some(s@),
        None => None,
    }
}

impl AppState {
    /// A popup for `query`, the first match selected.
    fn popup_with_query(&self, query: String) -> (p: MentionPopup)
        ensures
            popup_for(Some(p), self.members@, self.my_uuid@, query@),
    {
        let matches = mention_matches(self.members.as_slice(), &self.my_uuid, query.as_str());
        MentionPopup { query, matches, selected: 0 }
    }

    /// The popup for the mention query at the active input's cursor, or none.
    fn popup_at_cursor(&self) -> (p: Option<MentionPopup>)
        ensures
            popup_follows(p, self.members@, self.my_uuid@, query_at_cursor(self.active_pane_spec())),
    {
        let pane = self.panes.active();
        match pane.editing() {
            None => None,
            Some(t) => {
                let content = pane.input_text(t);
                let cursor = pane.input_cursor(t);
                match current_mention_query(content.as_str(), cursor) {
                    Some(q) => Some(self.popup_with_query(q)),
                    None => None,
                }
            },
        }
    }

    /// Carry out an editing key on the active pane and the mention popup.
    pub fn apply_edit(&mut self, cmd: EditCommand) -> (r: EditEffect)
        ensures
            final(self).same_besides_view(old(self)),
            final(self).active_replaced(old(self)),
            ({
                let o = *old(self);
                let f = *final(self);
                let op = o.active_pane_spec();
                let fp = f.active_pane_spec();
                let members = o.members@;
                let me = o.my_uuid@;
                match cmd {
                    EditCommand::Quit => r == EditEffect::Quit && f == o,
                    EditCommand::Send => r == EditEffect::Send && f == o,
                    EditCommand::Nothing => r == EditEffect::Continue && f == o,
                    EditCommand::DeleteForward => {
                        &&& r == EditEffect::Continue
                        &&& f.mention_popup == o.mention_popup
                        &&& op.edit_cursor() < op.edit_text().len() ==> fp.deleted_between_from(&op, op.edit_cursor(),
                            op.edit_cursor() + 1)
                        &&& op.edit_cursor() >= op.edit_text().len() ==> fp == op
                    },
                    EditCommand::PopupUp => {
                        &&& r == EditEffect::Continue
                        &&& fp == op
                        &&& match o.mention_popup {
                            None => f.mention_popup is None,
                            Some(pp) => f.mention_popup matches Some(fq) && fq.query@ == pp.query@
                                && fq.matches@ == pp.matches@
                                && fq.selected == (if pp.selected > 0 { pp.selected - 1 } else { pp.selected as int }),
                        }
                    },
                    EditCommand::PopupDown => {
                        &&& r == EditEffect::Continue
                        &&& fp == op
                        &&& match o.mention_popup {
                            None => f.mention_popup is None,
                            Some(pp) => f.mention_popup matches Some(fq) && fq.query@ == pp.query@
                                && fq.matches@ == pp.matches@
                                && fq.selected == (if pp.selected + 1 < pp.matches@.len() {
                                    pp.selected + 1
                                } else {
                                    pp.selected as int
                                }),
                        }
                    },
                    EditCommand::CompleteMention => {
                        &&& r == EditEffect::Continue
                        &&& f.mention_popup is None
                        &&& match o.mention_popup {
                            Some(pp) => if pp.selected < pp.matches@.len() {
                                fp.mention_completed_from(&op, mention_tag(pp.matches@[pp.selected as int].0@,
                                    pp.matches@[pp.selected as int].1@))
                            } else {
                                fp == op
                            },
                            None => fp == op,
                        }
                    },
                    EditCommand::ClosePopup => r == EditEffect::Continue && fp == op && f.mention_popup is None,
                    EditCommand::StopEditing => {
                        &&& r == EditEffect::Continue
                        &&& f.mention_popup is None
                        &&& fp.editing_key() is None
                        &&& fp.selected_row() == op.selected_row()
                        &&& same_but_selection(&op, &fp)
                    },
                    EditCommand::MoveSelectionUp => r == EditEffect::Continue && f.selection_moved_from(&o, -1),
                    EditCommand::MoveSelectionDown => r == EditEffect::Continue && f.selection_moved_from(&o, 1),
                    EditCommand::JumpToLatest => {
                        let n = o.nav_rows_for(&fp).len();
                        &&& r == EditEffect::Continue
                        &&& f.mention_popup is None
                        &&& fp.editing_key() is None
                        &&& same_but_selection(&op, &fp)
                        &&& fp.selected_row() == (if n > 0 { n - 1 } else { op.selected_row() as int })
                    },
                    EditCommand::CursorToStart => {
                        r == EditEffect::Continue && f.mention_popup is None && fp.cursor_moved_from(&op, 0)
                    },
                    EditCommand::CursorToEnd => {
                        r == EditEffect::Continue && f.mention_popup is None
                            && fp.cursor_moved_from(&op, op.edit_text().len() as int)
                    },
                    EditCommand::WordBack => {
                        r == EditEffect::Continue && f.mention_popup is None
                            && fp.cursor_moved_from(&op, word_start_before(op.edit_text(), op.edit_cursor()))
                    },
                    EditCommand::WordForward => {
                        r == EditEffect::Continue && f.mention_popup is None
                            && fp.cursor_moved_from(&op, word_end_after(op.edit_text(), op.edit_cursor()))
                    },
                    EditCommand::DeleteWordBack => {
                        r == EditEffect::Continue && f.mention_popup is None
                            && fp.deleted_between_from(&op, word_start_before(op.edit_text(), op.edit_cursor()),
                                op.edit_cursor())
                    },
                    EditCommand::DeleteWordForward => {
                        r == EditEffect::Continue && f.mention_popup is None
                            && fp.deleted_between_from(&op, op.edit_cursor(), word_end_after(op.edit_text(), op.edit_cursor()))
                    },
                    EditCommand::Type(c) => {
                        &&& r == EditEffect::Typed
                        &&& fp.typed_from(&op, c)
                        &&& if c == '@' {
                            popup_for(f.mention_popup, members, me, Seq::empty())
                        } else {
                            match o.mention_popup {
                                Some(pp) => popup_for(f.mention_popup, members, me, pp.query@.push(c)),
                                None => f.mention_popup is None,
                            }
                        }
                    },
                    EditCommand::Backspace => {
                        &&& r == EditEffect::Continue
                        &&& fp.backspaced_from(&op)
                        &&& if o.mention_popup is Some {
                            popup_follows(f.mention_popup, members, me, query_at_cursor(fp))
                        } else {
                            f.mention_popup is None
                        }
                    },
                    EditCommand::CursorLeft => {
                        &&& r == EditEffect::Continue
                        &&& fp.cursor_moved_from(&op, op.left_of_cursor())
                        &&& if o.mention_popup is Some && query_at_cursor(fp) is Some {
                            f.mention_popup == o.mention_popup
                        } else {
                            f.mention_popup is None
                        }
                    },
                    EditCommand::CursorRight => {
                        r == EditEffect::Continue && fp.cursor_moved_from(&op, op.right_of_cursor())
                            && f.mention_popup == o.mention_popup
                    },
                }
            }),
    {
        let ai = self.panes.active_idx();
        let ghost i = ai as int;
        proof {
            assert(self.panes.all() =~= self.panes.all().update(i, self.active_pane_spec()));
        }
        match cmd {
            EditCommand::Quit => EditEffect::Quit,
            EditCommand::Send => EditEffect::Send,
            EditCommand::Nothing => EditEffect::Continue,
            EditCommand::DeleteForward => {
                let mut pane = self.panes.take_active();
                pane.pop_char_forward();
                self.panes.put_active(pane);
                proof {
                    assert(self.panes.all() =~= old(self).panes.all().update(i, self.active_pane_spec()));
                }
                EditEffect::Continue
            },
            EditCommand::PopupUp => {
                match &mut self.mention_popup {
                    Some(p) => p.select_up(),
                    None => {},
                }
                EditEffect::Continue
            },
            EditCommand::PopupDown => {
                match &mut self.mention_popup {
                    Some(p) => p.select_down(),
                    None => {},
                }
                EditEffect::Continue
            },
            EditCommand::CompleteMention => {
                let popup = self.mention_popup.take();
                if let Some(p) = popup {
                    if p.selected < p.matches.len() {
                        let tag = mention_tag_text(&p.matches[p.selected].0, &p.matches[p.selected].1);
                        let mut pane = self.panes.take_active();
                        pane.complete_mention(tag.as_str());
                        self.panes.put_active(pane);
                        proof {
                            assert(self.panes.all() =~= old(self).panes.all().update(i, self.active_pane_spec()));
                        }
                    }
                }
                EditEffect::Continue
            },
            EditCommand::ClosePopup => {
                self.mention_popup = None;
                EditEffect::Continue
            },
            EditCommand::StopEditing => {
                self.mention_popup = None;
                self.stop_editing();
                EditEffect::Continue
            },
            EditCommand::MoveSelectionUp => {
                self.move_selection(-1);
                EditEffect::Continue
            },
            EditCommand::MoveSelectionDown => {
                self.move_selection(1);
                EditEffect::Continue
            },
            EditCommand::JumpToLatest => {
                self.mention_popup = None;
                self.stop_editing();
                let ghost mid = *self;
                self.jump_to_latest();
                proof {
                    assert(self.panes.all() =~= old(self).panes.all().update(i, self.active_pane_spec()));
                    let fp = self.active_pane_spec();
                    let mp = mid.active_pane_spec();
                    assert(mid.nav_rows() == mid.nav_rows_for(&mp));
                    assert(row_ctx(&mp, &mid.msg_store, mid.my_uuid@, mid.members@.map_values(|m: Member| m.uuid),
                        mid.name_cache@, Map::empty(), mid.typing_indicators@, mid.blocked_uuids@)
                        == row_ctx(&fp, &mid.msg_store, mid.my_uuid@, mid.members@.map_values(|m: Member| m.uuid),
                        mid.name_cache@, Map::empty(), mid.typing_indicators@, mid.blocked_uuids@));
                    assert(mid.nav_rows_for(&mp) == mid.nav_rows_for(&fp));
                    assert(mid.nav_rows() == old(self).nav_rows_for(&fp));
                }
                EditEffect::Continue
            },
            EditCommand::CursorToStart => {
                self.mention_popup = None;
                let mut pane = self.panes.take_active();
                pane.move_cursor_to_start();
                self.panes.put_active(pane);
                proof {
                    assert(self.panes.all() =~= old(self).panes.all().update(i, self.active_pane_spec()));
                }
                EditEffect::Continue
            },
            EditCommand::CursorToEnd => {
                self.mention_popup = None;
                let mut pane = self.panes.take_active();
                pane.move_cursor_to_end();
                self.panes.put_active(pane);
                proof {
                    assert(self.panes.all() =~= old(self).panes.all().update(i, self.active_pane_spec()));
                }
                EditEffect::Continue
            },
            EditCommand::WordBack | EditCommand::WordForward | EditCommand::DeleteWordBack
            | EditCommand::DeleteWordForward => {
                self.mention_popup = None;
                let mut pane = self.panes.take_active();
                match cmd {
                    EditCommand::WordBack => pane.move_cursor_word_back(),
                    EditCommand::WordForward => pane.move_cursor_word_forward(),
                    EditCommand::DeleteWordBack => pane.delete_word_back(),
                    _ => pane.delete_word_forward(),
                }
                self.panes.put_active(pane);
                proof {
                    assert(self.panes.all() =~= old(self).panes.all().update(i, self.active_pane_spec()));
                }
                EditEffect::Continue
            },
            EditCommand::Type(c) => {
                let mut pane = self.panes.take_active();
                pane.push_char(c);
                self.panes.put_active(pane);
                proof {
                    assert(self.panes.all() =~= old(self).panes.all().update(i, self.active_pane_spec()));
                }
                if c == '@' {
                    let p = self.popup_with_query(String::new());
                    self.mention_popup = Some(p);
                } else {
                    let old_popup = self.mention_popup.take();
                    if let Some(pp) = old_popup {
                        let mut q = pp.query;
                        push_char(&mut q, c);
                        let p = self.popup_with_query(q);
                        self.mention_popup = Some(p);
                    }
                }
                EditEffect::Typed
            },
            EditCommand::Backspace => {
                let mut pane = self.panes.take_active();
                pane.pop_char();
                self.panes.put_active(pane);
                proof {
                    assert(self.panes.all() =~= old(self).panes.all().update(i, self.active_pane_spec()));
                }
                if self.mention_popup.is_some() {
                    let p = self.popup_at_cursor();
                    self.mention_popup = p;
                }
                EditEffect::Continue
            },
            EditCommand::CursorLeft => {
                let mut pane = self.panes.take_active();
                pane.move_cursor_left();
                self.panes.put_active(pane);
                proof {
                    assert(self.panes.all() =~= old(self).panes.all().update(i, self.active_pane_spec()));
                }
                if self.mention_popup.is_some() {
                    let p = self.popup_at_cursor();
                    if p.is_none() {
                        self.mention_popup = None;
                    }
                }
                EditEffect::Continue
            },
            EditCommand::CursorRight => {
                let mut pane = self.panes.take_active();
                pane.move_cursor_right();
                self.panes.put_active(pane);
                proof {
                    assert(self.panes.all() =~= old(self).panes.all().update(i, self.active_pane_spec()));
                }
                EditEffect::Continue
            },
        }
    }

    /// Take the active input for sending. While not connected nothing is
    /// taken and a notice says so for three seconds. Otherwise editing stops
    /// and the input's text goes (its cursor too); a blank text is dropped.
    pub fn take_outgoing(&mut self, now_ms: u64) -> (r: Option<Outgoing>)
        ensures
            ({
                let o = *old(self);
                let f = *final(self);
                let op = o.active_pane_spec();
                let fp = f.active_pane_spec();
                if !(o.connection_status is Connected) {
                    &&& r is None
                    &&& f.panes == o.panes
                    &&& f.mention_popup == o.mention_popup
                    &&& f.toast matches Some(t) && t.text@ == "Cannot send: not connected"@
                        && t.expires_ms == later_by(now_ms, SEND_REFUSED_TOAST_MS)
                } else {
                    &&& f.toast == o.toast
                    &&& f.mention_popup == o.mention_popup
                    &&& f.active_replaced(&o)
                    &&& fp.editing_key() is None
                    &&& fp.selected_row() == op.selected_row()
                    &&& fp.expanded_threads() == op.expanded_threads()
                    &&& fp.collapsed_subthreads() == op.collapsed_subthreads()
                    &&& match op.editing_key() {
                        None => r is None && fp.texts() == op.texts() && fp.cursors() == op.cursors(),
                        Some(k) => {
                            &&& fp.texts() == op.texts().remove(k)
                            &&& fp.cursors() == op.cursors().remove(k)
                            &&& if all_whitespace(text_at(op.texts(), k)) {
                                r is None
                            } else {
                                r matches Some(out) && out.text@ == text_at(op.texts(), k)
                                    && (opt_view(out.thread_uuid), opt_view(out.reply_to_uuid)) == wire_uuids(k)
                            }
                        },
                    }
                }
            }),
            final(self).mode == old(self).mode,
            final(self).members == old(self).members,
            final(self).msg_store == old(self).msg_store,
            final(self).my_uuid == old(self).my_uuid,
            final(self).connection_status == old(self).connection_status,
    {
        let connected = match &self.connection_status {
            ConnStatus::Connected => true,
            _ => false,
        };
        if !connected {
            let expires = if now_ms > u64::MAX - SEND_REFUSED_TOAST_MS { u64::MAX } else { now_ms + SEND_REFUSED_TOAST_MS };
            let text = String::from_str("Cannot send: not connected");
            proof {
                reveal_strlit("Cannot send: not connected");
            }
            self.toast = Some(Toast { text, expires_ms: expires });
            return None;
        }
        let target: Option<InputTarget> = match self.panes.active().editing() {
            Some(t) => Some(t.duplicate()),
            None => None,
        };
        let mut pane = self.panes.take_active();
        let taken = pane.take_input();
        self.panes.put_active(pane);
        proof {
            assert(self.panes.all() =~= old(self).panes.all().update(old(self).panes.active_index() as int,
                self.active_pane_spec()));
        }
        match (taken, target) {
            (Some(text), Some(t)) => {
                let (thread_uuid, reply_to_uuid) = t.to_wire_uuids();
                Some(Outgoing { text, thread_uuid, reply_to_uuid })
            },
            _ => None,
        }
    }

    /// Show a message the user just sent, before the server places it: it
    /// sorts after everything, is marked pending and highlighted from
    /// `now_ms`, and the selection moves to the last row.
    pub fn add_pending(&mut self, uuid: String, timestamp: String, out: Outgoing, now_ms: u64)
        ensures
            ({
                let o = *old(self);
                let f = *final(self);
                let msg = f.msg_store.messages()[uuid@];
                &&& f.msg_store.messages().contains_key(uuid@)
                &&& msg.uuid@ == uuid@ && msg.sender_uuid@ == o.my_uuid@ && msg.sender_name@ == o.my_screenname@
                &&& msg.body@ == out.text@ && msg.timestamp@ == timestamp@
                &&& msg.global_seq == i64::MAX && msg.pending && msg.read && !msg.mentions_me
                &&& opt_view(msg.thread_uuid) == opt_view(out.thread_uuid)
                &&& opt_view(msg.reply_to_uuid) == opt_view(out.reply_to_uuid)
                &&& msg.mentioned_names@.map_values(|n: String| n@) == mentioned_from(out.text@, o.name_cache@, 0)
                &&& f.highlights@ == o.highlights@.insert(uuid@, now_ms)
                &&& f.active_replaced(&o)
                &&& f.mention_popup == o.mention_popup
                &&& same_but_selection(&o.active_pane_spec(), &f.active_pane_spec())
                &&& f.active_pane_spec().editing_key() == o.active_pane_spec().editing_key()
                &&& f.active_pane_spec().selected_row() == (if f.nav_rows().len() > 0 {
                    f.nav_rows().len() - 1
                } else {
                    o.active_pane_spec().selected_row() as int
                })
            }),
    {
        let names = extract_mentioned_names(out.text.as_str(), &self.name_cache);
        let msg = DisplayMessage {
            uuid: uuid.clone(),
            sender_uuid: self.my_uuid.clone(),
            sender_name: self.my_screenname.clone(),
            body: out.text,
            timestamp,
            global_seq: i64::MAX,
            thread_uuid: out.thread_uuid,
            reply_to_uuid: out.reply_to_uuid,
            pending: true,
            read: true,
            mentions_me: false,
            mentioned_names: names,
        };
        self.highlights.insert(uuid, now_ms);
        self.msg_store.insert(msg);
        self.jump_to_latest();
    }

    /// Stop editing in the active pane.
    fn stop_editing(&mut self)
        ensures
            final(self).same_besides_view(old(self)),
            final(self).mention_popup == old(self).mention_popup,
            final(self).active_replaced(old(self)),
            final(self).active_pane_spec().editing_key() is None,
            final(self).active_pane_spec().selected_row() == old(self).active_pane_spec().selected_row(),
            same_but_selection(&old(self).active_pane_spec(), &final(self).active_pane_spec()),
    {
        let mut pane = self.panes.take_active();
        pane.set_editing(None);
        self.panes.put_active(pane);
        proof {
            assert(self.panes.all() =~= old(self).panes.all().update(old(self).panes.active_index() as int,
                self.active_pane_spec()));
        }
    }
}

/// How often a typing notification may go out while the user types.
pub const TYPING_NOTIFY_MS: u64 = 3000;

/// A typing notification is due at `now`: something is being edited and
/// none went out in the last `TYPING_NOTIFY_MS` milliseconds.
pub open spec fn typing_notify_due(editing: Option<(int, Seq<char>, Seq<char>)>, last: Option<u64>, now: u64) -> bool {
    &&& editing is Some
    &&& match last {
        None => true,
        Some(l) => l + TYPING_NOTIFY_MS <= now,
    }
}

impl AppState {
    /// A key was typed into the active input: the `(thread, reply-to)` place
    /// to announce as typing when a notification is due, its time then
    /// recorded; otherwise `None` and nothing changes.
    pub fn take_typing_notify(&mut self, now_ms: u64) -> (r: Option<(Option<String>, Option<String>)>)
        ensures
            ({
                let k = old(self).active_pane_spec().editing_key();
                let due = typing_notify_due(k, old(self).last_typing_notify_ms, now_ms);
                &&& r is Some <==> due
                &&& due ==> (r matches Some((t, rr)) && (opt_view(t), opt_view(rr)) == key_wire(k.unwrap()))
                &&& *final(self) == (AppState {
                    last_typing_notify_ms: if due { Some(now_ms) } else { old(self).last_typing_notify_ms },
                    ..*old(self)
                })
            }),
    {
        let wire = match self.panes.active().editing() {
            Some(t) => t.to_wire_uuids(),
            None => return None,
        };
        if let Some(last) = self.last_typing_notify_ms {
            if now_ms < last || now_ms - last < TYPING_NOTIFY_MS {
                return None;
            }
        }
        self.last_typing_notify_ms = Some(now_ms);
        Some(wire)
    }
}

} // verus!
