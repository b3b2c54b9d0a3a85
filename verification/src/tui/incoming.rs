//! What the interface does with frames from the server: which handling an
//! event asks for, and how a received message reaches the display store.

use vstd::prelude::*;

use super::app::AppState;
use super::store::DisplayMessage;
use crate::text::chars_of;

verus! {

/// The handling a frame's event asks for.
#[derive(Debug, Clone, Copy, PartialEq, Eq)]
pub enum FrameEvent {
    /// `msg:new`: one message.
    NewMessage,
    /// `msg:buffered` and `sync:push`: a batch of messages, each handled as
    /// `msg:new`.
    MessageBatch,
    /// `presence_state`: the full member list.
    PresenceState,
    /// `presence_diff`: members leaving and joining.
    PresenceDiff,
    /// `member:removed`.
    MemberRemoved,
    /// `key:distribute`, `key:request`, `phx_reply`, `phx_error`: handled by
    /// the chat channel.
    Channel,
    /// `sync:assign`: handled by the chat channel, then the assigned range
    /// is sent.
    SyncAssign,
    /// Anything else: ignored.
    Ignored,
}

/// The handling the event named `e` asks for.
pub open spec fn event_kind(e: Seq<char>) -> FrameEvent {
    if e == "msg:new"@ {
        FrameEvent::NewMessage
    } else if e == "msg:buffered"@ || e == "sync:push"@ {
        FrameEvent::MessageBatch
    } else if e == "presence_state"@ {
        FrameEvent::PresenceState
    } else if e == "presence_diff"@ {
        FrameEvent::PresenceDiff
    } else if e == "member:removed"@ {
        FrameEvent::MemberRemoved
    } else if e == "key:distribute"@ || e == "key:request"@ || e == "phx_reply"@ || e == "phx_error"@ {
        FrameEvent::Channel
    } else if e == "sync:assign"@ {
        FrameEvent::SyncAssign
    } else {
        FrameEvent::Ignored
    }
}

/// Whether the characters of `s` are those of `lit`.
fn same_text(s: &[char], lit: &str) -> (r: bool)
    ensures
        r == (s@ == lit@),
{
    let l = chars_of(lit);
    if s.len() != l.len() {
        return false;
    }
    let mut i: usize = 0;
    while i < s.len()
        invariant
            s@.len() == l@.len(),
            l@ == lit@,
            i <= s@.len(),
            forall|k: int| 0 <= k < i ==> s@[k] == l@[k],
        decreases s@.len() - i,
    {
        if s[i] != l[i] {
            return false;
        }
        i += 1;
    }
    assert(s@ =~= l@);
    true
}

/// The handling the event `event` asks for.
pub fn classify_event(event: &str) -> (r: FrameEvent)
    ensures
        r == event_kind(event@),
{
    let e = chars_of(event);
    let s = e.as_slice();
    if same_text(s, "msg:new") {
        FrameEvent::NewMessage
    } else if same_text(s, "msg:buffered") || same_text(s, "sync:push") {
        FrameEvent::MessageBatch
    } else if same_text(s, "presence_state") {
        FrameEvent::PresenceState
    } else if same_text(s, "presence_diff") {
        FrameEvent::PresenceDiff
    } else if same_text(s, "member:removed") {
        FrameEvent::MemberRemoved
    } else if same_text(s, "key:distribute") || same_text(s, "key:request") || same_text(s, "phx_reply")
        || same_text(s, "phx_error") {
        FrameEvent::Channel
    } else if same_text(s, "sync:assign") {
        FrameEvent::SyncAssign
    } else {
        FrameEvent::Ignored
    }
}

impl AppState {
    /// A message arrived: one shown while pending is confirmed in place (no
    /// longer pending, at its server position, with the received text);
    /// any other is added. Either way it is highlighted from `now_ms`.
    pub fn receive_message(&mut self, msg: DisplayMessage, now_ms: u64)
        ensures
            ({
                let u = msg.uuid@;
                if old(self).msg_store.messages().contains_key(u) {
                    final(self).msg_store.confirmed_from(&old(self).msg_store, u, msg.global_seq, msg.body)
                } else {
                    final(self).msg_store.inserted_from(&old(self).msg_store, msg)
                }
            }),
            final(self).highlights@ == old(self).highlights@.insert(msg.uuid@, now_ms),
            final(self).panes == old(self).panes,
            final(self).members == old(self).members,
            final(self).mention_popup == old(self).mention_popup,
    {
        let uuid = msg.uuid.clone();
        if self.msg_store.get(&uuid).is_some() {
            let seq = msg.global_seq;
            self.msg_store.confirm(&uuid, seq, msg.body);
        } else {
            self.msg_store.insert(msg);
        }
        self.highlights.insert(uuid, now_ms);
    }
}

} // verus!
