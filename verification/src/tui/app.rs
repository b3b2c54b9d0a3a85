//! The interface's state and the changes the event loop makes to it:
//! panes and selection, the chat picker, invitations, toasts and highlights.
//! Times are milliseconds on a clock of the caller's.

use vstd::prelude::*;

use super::command_bar::CommandAction;
use super::input::MentionPopup;
use super::mention::NameCache;
use super::pane::{InputTarget, Pane};
use super::render_rows::{build, pane_rows, row_ctx, RenderRow, RowView, rows_view};
use super::store::{uuid_seq, TuiMessageStore};
use super::str_map::StrMap;
use super::uuid_set::{holds_uuid, UuidSet};
use crate::crypto::primitives::{ed25519_public, x25519_public};
use crate::crypto::{fingerprint_text, key_fingerprint, ChatCrypto};
use crate::text::{chars_of, push_str, string_from_chars};

verus! {

/// The screen shown.
#[derive(Debug, Clone, Copy, PartialEq, Eq)]
pub enum Mode {
    ChatPicker,
    Chat,
}

/// The dialog shown over the chat.
#[derive(Debug, Clone, Copy, PartialEq, Eq)]
pub enum ModalKind {
    MemberList,
    GroupSettings,
    InviteCreate,
    Search,
    Contacts,
    BlockUsers,
}

/// The dialog a command opens, if it opens one.
pub fn modal_opened_by(action: &CommandAction) -> (r: Option<ModalKind>)
    ensures
        r == match action {
            CommandAction::MemberList => Some(ModalKind::MemberList),
            CommandAction::GroupSettings => Some(ModalKind::GroupSettings),
            CommandAction::InviteCreate => Some(ModalKind::InviteCreate),
            CommandAction::Search => Some(ModalKind::Search),
            CommandAction::Contacts => Some(ModalKind::Contacts),
            CommandAction::BlockUsers => Some(ModalKind::BlockUsers),
            _ => None,
        },
{
    match action {
        CommandAction::MemberList => Some(ModalKind::MemberList),
        CommandAction::GroupSettings => Some(ModalKind::GroupSettings),
        CommandAction::InviteCreate => Some(ModalKind::InviteCreate),
        CommandAction::Search => Some(ModalKind::Search),
        CommandAction::Contacts => Some(ModalKind::Contacts),
        CommandAction::BlockUsers => Some(ModalKind::BlockUsers),
        _ => None,
    }
}

/// How several panes share the screen.
#[derive(Debug, Clone, Copy, PartialEq, Eq)]
pub enum PaneSplit {
    /// Side by side.
    Vertical,
    /// Stacked.
    Horizontal,
}

/// The state of the server connection.
pub enum ConnStatus {
    Connected,
    Connecting,
    Disconnected { reason: String, since_ms: u64 },
}

/// A chat the user belongs to.
pub struct ChatSummary {
    pub uuid: String,
    pub topic: String,
    pub description: Option<String>,
    pub member_count: usize,
}

/// An invitation to a chat, not yet accepted.
pub struct Invitation {
    pub chat_uuid: String,
    pub topic: String,
    pub invited_by: Option<String>,
    /// Seconds since the epoch when it arrived.
    pub received_at: i64,
}

/// A member of the current chat.
pub struct Member {
    pub uuid: String,
    pub screenname: String,
    pub online: bool,
}

/// A short notice and when it expires.
pub struct Toast {
    pub text: String,
    pub expires_ms: u64,
}

// ---------------------------------------------------------------------------
// Panes
// ---------------------------------------------------------------------------

/// For negative `s`, the Euclidean remainder modulo `n` is `n - ((-s) % n)`,
/// or 0 when `n` divides `s`.
proof fn lemma_negative_mod(s: int, n: int)
    requires
        s < 0,
        n > 0,
    ensures
        s % n == (if (-s) % n == 0 { 0 } else { n - (-s) % n }),
{
    let q = (-s) / n;
    let r = (-s) % n;
    vstd::arithmetic::div_mod::lemma_fundamental_div_mod(-s, n);
    assert(-s == n * q + r);
    assert(0 <= r < n);
    if r == 0 {
        assert(s == (-q) * n + 0) by (nonlinear_arith)
            requires
                -s == n * q + r,
                r == 0,
        ;
        vstd::arithmetic::div_mod::lemma_fundamental_div_mod_converse(s, n, -q, 0);
    } else {
        assert(s == (-q - 1) * n + (n - r)) by (nonlinear_arith)
            requires
                -s == n * q + r,
        ;
        vstd::arithmetic::div_mod::lemma_fundamental_div_mod_converse(s, n, -q - 1, n - r);
    }
}

/// The panes on screen, one of them active; there is always at least one.
pub struct PaneSet {
    panes: Vec<Pane>,
    active: usize,
}

impl PaneSet {
    #[verifier::type_invariant]
    spec fn active_exists(&self) -> bool {
        self.active < self.panes@.len()
    }

    /// The panes, in order.
    pub closed spec fn all(&self) -> Seq<Pane> {
        self.panes@
    }

    /// Index of the active pane.
    pub closed spec fn active_index(&self) -> nat {
        self.active as nat
    }

    /// One fresh pane, active.
    pub fn new() -> (s: Self)
        ensures
            s.all().len() == 1,
            s.active_index() == 0,
    {
        let mut panes = Vec::new();
        panes.push(Pane::new());
        PaneSet { panes, active: 0 }
    }

    /// How many panes there are.
    pub fn len(&self) -> (r: usize)
        ensures
            r == self.all().len(),
    {
        self.panes.len()
    }

    /// Index of the active pane.
    pub fn active_idx(&self) -> (r: usize)
        ensures
            r == self.active_index(),
            r < self.all().len(),
    {
        proof {
            use_type_invariant(self);
        }
        self.active
    }

    /// The pane at `i`.
    pub fn get(&self, i: usize) -> (r: &Pane)
        requires
            i < self.all().len(),
        ensures
            *r == self.all()[i as int],
    {
        &self.panes[i]
    }

    /// The active pane.
    pub fn active(&self) -> (r: &Pane)
        ensures
            *r == self.all()[self.active_index() as int],
    {
        proof {
            use_type_invariant(self);
        }
        &self.panes[self.active]
    }

    /// Take the active pane out, leaving a fresh one in its place.
    pub fn take_active(&mut self) -> (r: Pane)
        ensures
            r == old(self).all()[old(self).active_index() as int],
            old(self).active_index() < old(self).all().len(),
            final(self).all() == old(self).all().update(old(self).active_index() as int,
                final(self).all()[old(self).active_index() as int]),
            final(self).active_index() == old(self).active_index(),
    {
        proof {
            use_type_invariant(&*self);
        }
        let mut s = PaneSet::new();
        std::mem::swap(&mut s, self);
        let PaneSet { mut panes, active } = s;
        let ghost old_panes = panes@;
        let taken = panes.remove(active);
        panes.insert(active, Pane::new());
        assert(panes@ =~= old_panes.update(active as int, panes@[active as int]));
        *self = PaneSet { panes, active };
        taken
    }

    /// Put `p` in the active pane's place.
    pub fn put_active(&mut self, p: Pane)
        ensures
            old(self).active_index() < old(self).all().len(),
            final(self).all() == old(self).all().update(old(self).active_index() as int, p),
            final(self).active_index() == old(self).active_index(),
    {
        proof {
            use_type_invariant(&*self);
        }
        let mut s = PaneSet::new();
        std::mem::swap(&mut s, self);
        let PaneSet { mut panes, active } = s;
        panes.set(active, p);
        *self = PaneSet { panes, active };
    }

    /// Open a fresh pane after the others and make it active.
    pub fn split(&mut self)
        ensures
            final(self).all().len() == old(self).all().len() + 1,
            final(self).all().subrange(0, old(self).all().len() as int) == old(self).all(),
            final(self).active_index() == old(self).all().len(),
    {
        let mut s = PaneSet::new();
        std::mem::swap(&mut s, self);
        let PaneSet { mut panes, active: _ } = s;
        panes.push(Pane::new());
        let last = panes.len() - 1;
        *self = PaneSet { panes, active: last };
        assert(self.all().subrange(0, old(self).all().len() as int) =~= old(self).all());
    }

    /// Close the active pane unless it is the only one; the pane after it
    /// (or the new last one) becomes active.
    pub fn close(&mut self)
        ensures
            old(self).all().len() <= 1 ==> final(self).all() == old(self).all()
                && final(self).active_index() == old(self).active_index(),
            old(self).all().len() > 1 ==> {
                &&& final(self).all() == old(self).all().remove(old(self).active_index() as int)
                &&& final(self).active_index() == (if old(self).active_index() < final(self).all().len() {
                    old(self).active_index()
                } else {
                    (final(self).all().len() - 1) as nat
                })
            },
    {
        proof {
            use_type_invariant(&*self);
        }
        if self.panes.len() > 1 {
            let mut s = PaneSet::new();
            std::mem::swap(&mut s, self);
            let PaneSet { mut panes, active } = s;
            panes.remove(active);
            let n = panes.len();
            let next = if active < n { active } else { n - 1 };
            *self = PaneSet { panes, active: next };
        }
    }

    /// Move focus `delta` panes on, wrapping around.
    pub fn focus(&mut self, delta: i32)
        requires
            old(self).all().len() <= i32::MAX,
        ensures
            final(self).all() == old(self).all(),
            final(self).active_index() == (old(self).active_index() + delta) % (old(self).all().len() as int),
    {
        proof {
            use_type_invariant(&*self);
        }
        let n = self.panes.len() as i64;
        let s: i64 = self.active as i64 + delta as i64;
        let next: i64 = if s >= 0 {
            s % n
        } else {
            let r = (-s) % n;
            if r == 0 { 0 } else { n - r }
        };
        proof {
            if s < 0 {
                lemma_negative_mod(s as int, n as int);
            }
        }
        let mut st = PaneSet::new();
        std::mem::swap(&mut st, self);
        let PaneSet { panes, active: _ } = st;
        *self = PaneSet { panes, active: next as usize };
    }
}

// ---------------------------------------------------------------------------
// The state
// ---------------------------------------------------------------------------

/// The interface's state.
pub struct AppState {
    pub mode: Mode,
    pub panes: PaneSet,
    pub pane_split: PaneSplit,
    pub current_chat: Option<String>,
    pub chat_list: Vec<ChatSummary>,
    pub invitations: Vec<Invitation>,
    pub connection_status: ConnStatus,
    pub members: Vec<Member>,
    pub msg_store: TuiMessageStore,
    /// When each highlighted message was highlighted.
    pub highlights: StrMap<u64>,
    pub my_uuid: String,
    pub my_screenname: String,
    pub name_cache: NameCache,
    pub has_keys: bool,
    pub last_acked: i64,
    pub toast: Option<Toast>,
    /// Index of the chat selected in the picker.
    pub picker_selected: Option<usize>,
    pub mention_popup: Option<MentionPopup>,
    pub typing_indicators: Vec<(Option<String>, Option<String>)>,
    pub blocked_uuids: UuidSet,
    pub pending_redeem: Option<String>,
    pub pending_leave_chat: bool,
    pub pending_add_member: Option<(String, String)>,
    pub pending_list_invites: bool,
    /// When the last typing notification went out.
    pub last_typing_notify_ms: Option<u64>,
}

/// How long a message stays highlighted.
pub const HIGHLIGHT_MS: u64 = 1000;

/// Member uuids in join order.
pub open spec fn member_uuids(ms: Seq<Member>) -> Seq<Seq<char>> {
    ms.map_values(|m: Member| m.uuid@)
}

/// Chat uuids of a chat list.
pub open spec fn chat_uuids(cs: Seq<ChatSummary>) -> Seq<Seq<char>> {
    cs.map_values(|c: ChatSummary| c.uuid@)
}

/// Chat uuids of the invitations.
pub open spec fn invitation_uuids(is: Seq<Invitation>) -> Seq<Seq<char>> {
    is.map_values(|i: Invitation| i.chat_uuid@)
}

/// The highlight ages (milliseconds) at `now` of messages highlighted since
/// the times in `h`.
pub open spec fn ages_at(h: Map<Seq<char>, u64>, now: u64) -> Map<Seq<char>, u64> {
    h.map_values(|t: u64| if now >= t { (now - t) as u64 } else { 0u64 })
}

fn member_order(ms: &Vec<Member>) -> (r: Vec<String>)
    ensures
        uuid_seq(r@) == member_uuids(ms@),
{
    let mut out: Vec<String> = Vec::new();
    let mut i: usize = 0;
    while i < ms.len()
        invariant
            i <= ms@.len(),
            out@.len() == i,
            forall|j: int| 0 <= j < i ==> (#[trigger] out@[j])@ == ms@[j].uuid@,
        decreases ms@.len() - i,
    {
        out.push(ms[i].uuid.clone());
        i += 1;
    }
    assert(uuid_seq(out@) =~= member_uuids(ms@));
    out
}

impl AppState {
    /// The rows of the active pane, highlight ages taken from `ages`.
    pub open spec fn rows_with(&self, ages: Map<Seq<char>, u64>) -> Seq<RowView> {
        pane_rows(
            row_ctx(
                &self.panes.all()[self.panes.active_index() as int],
                &self.msg_store,
                self.my_uuid@,
                self.members@.map_values(|m: Member| m.uuid),
                self.name_cache@,
                ages,
                self.typing_indicators@,
                self.blocked_uuids@,
            ),
            self.msg_store.top(),
        )
    }

    /// The rows of the active pane at time `now_ms`: exactly the rows
    /// `render_rows::build` gives for that pane (its own expanded and folded
    /// threads, blocked authors left out, full previews, replies at depth 1
    /// and 2), which are also the rows the message list draws. Selection,
    /// expansion and activation index into this same list, so a selected row
    /// is always the row shown at that place.
    pub fn build_render_rows(&self, now_ms: u64) -> (rows: Vec<RenderRow>)
        ensures
            rows_view(rows@) == self.rows_with(ages_at(self.highlights@, now_ms)),
    {
        let keys = self.highlights.keys();
        let mut ages: StrMap<u64> = StrMap::new();
        let mut i: usize = 0;
        while i < keys.len()
            invariant
                i <= keys@.len(),
                forall|k: Seq<char>| self.highlights@.contains_key(k) <==> exists|j: int| 0 <= j < keys@.len() && (#[trigger] keys@[j])@ == k,
                forall|k: Seq<char>| #[trigger] ages@.contains_key(k) ==> self.highlights@.contains_key(k)
                    && ages@[k] == ages_at(self.highlights@, now_ms)[k],
                forall|j: int| 0 <= j < i ==> ages@.contains_key(#[trigger] keys@[j]@),
            decreases keys@.len() - i,
        {
            let k = &keys[i];
            assert(self.highlights@.contains_key(k@));
            let t = *self.highlights.get(k).unwrap();
            let age = if now_ms >= t { now_ms - t } else { 0 };
            ages.insert(k.clone(), age);
            i += 1;
        }
        proof {
            assert(ages@ =~= ages_at(self.highlights@, now_ms)) by {
                assert forall|k: Seq<char>| ages@.contains_key(k) <==> ages_at(self.highlights@, now_ms).contains_key(k) by {
                    if self.highlights@.contains_key(k) {
                        let j = choose|j: int| 0 <= j < keys@.len() && (#[trigger] keys@[j])@ == k;
                        assert(ages@.contains_key(keys@[j]@));
                    }
                }
            }
        }
        let order = member_order(&self.members);
        proof {
            assert(uuid_seq(self.members@.map_values(|m: Member| m.uuid)) =~= member_uuids(self.members@));
            assert(uuid_seq(order@) == uuid_seq(self.members@.map_values(|m: Member| m.uuid)));
        }
        let rows = build(self.panes.active(), &self.msg_store, &self.my_uuid, order.as_slice(), &self.name_cache,
            &ages, self.typing_indicators.as_slice(), &self.blocked_uuids);
        rows
    }
}

/// The editing target an input row stands for when it is selected: its
/// thread (a reply input counts as its thread's), else the main chat.
pub open spec fn input_row_target(r: RowView) -> Option<(int, Seq<char>, Seq<char>)> {
    match r {
        RowView::Input { thread_uuid, .. } => match thread_uuid {
            Some(t) => Some((1, t, Seq::<char>::empty())),
            None => Some((0, Seq::<char>::empty(), Seq::<char>::empty())),
        },
        _ => None,
    }
}

/// `x` clamped into `[lo, hi]`.
pub open spec fn clamp(x: int, lo: int, hi: int) -> int {
    if x < lo { lo } else if x > hi { hi } else { x }
}

/// The thread a selected row belongs to: its own root for a top-level
/// message whose thread is expanded, the root of a reply.
pub open spec fn row_thread_root(r: RowView, expanded: Set<Seq<char>>) -> Option<Seq<char>> {
    match r {
        RowView::Message { uuid, thread_uuid, .. } => match thread_uuid {
            Some(root) => Some(root),
            None => if expanded.contains(uuid) { Some(uuid) } else { None },
        },
        _ => None,
    }
}

/// `b` is `a` with only the selection and editing target changed.
pub open spec fn same_but_selection(a: &Pane, b: &Pane) -> bool {
    &&& b.texts() == a.texts()
    &&& b.cursors() == a.cursors()
    &&& b.expanded_threads() == a.expanded_threads()
    &&& b.collapsed_subthreads() == a.collapsed_subthreads()
}

impl AppState {
    /// A fresh state: the chat picker, one pane, nothing loaded yet.
    pub fn new(my_uuid: String, my_screenname: String) -> (a: Self)
        ensures
            a.mode == Mode::ChatPicker,
            a.panes.all().len() == 1,
            a.my_uuid@ == my_uuid@,
            a.chat_list@.len() == 0,
            a.invitations@.len() == 0,
            a.toast is None,
            a.last_acked == 0,
            !a.has_keys,
            a.last_typing_notify_ms is None,
    {
        AppState {
            mode: Mode::ChatPicker,
            panes: PaneSet::new(),
            pane_split: PaneSplit::Vertical,
            current_chat: None,
            chat_list: Vec::new(),
            invitations: Vec::new(),
            connection_status: ConnStatus::Connecting,
            members: Vec::new(),
            msg_store: TuiMessageStore::new(),
            highlights: StrMap::new(),
            my_uuid,
            my_screenname,
            name_cache: NameCache::new(),
            has_keys: false,
            last_acked: 0,
            toast: None,
            picker_selected: None,
            mention_popup: None,
            typing_indicators: Vec::new(),
            blocked_uuids: UuidSet::new(),
            pending_redeem: None,
            pending_leave_chat: false,
            pending_add_member: None,
            pending_list_invites: false,
            last_typing_notify_ms: None,
        }
    }

    /// The rows of the active pane as navigation sees them (highlights do
    /// not matter there).
    pub open spec fn nav_rows(&self) -> Seq<RowView> {
        self.rows_with(Map::empty())
    }

    /// The rows navigation would see with `p` in the active pane's place.
    pub open spec fn nav_rows_for(&self, p: &Pane) -> Seq<RowView> {
        pane_rows(
            row_ctx(p, &self.msg_store, self.my_uuid@, self.members@.map_values(|m: Member| m.uuid),
                self.name_cache@, Map::empty(), self.typing_indicators@, self.blocked_uuids@),
            self.msg_store.top(),
        )
    }

    /// Everything but the panes and the mention popup is as in `o`.
    pub open spec fn same_besides_view(&self, o: &AppState) -> bool {
        &&& self.mode == o.mode
        &&& self.pane_split == o.pane_split
        &&& self.current_chat == o.current_chat
        &&& self.chat_list == o.chat_list
        &&& self.invitations == o.invitations
        &&& self.connection_status == o.connection_status
        &&& self.members == o.members
        &&& self.msg_store == o.msg_store
        &&& self.highlights == o.highlights
        &&& self.my_uuid == o.my_uuid
        &&& self.my_screenname == o.my_screenname
        &&& self.name_cache == o.name_cache
        &&& self.has_keys == o.has_keys
        &&& self.last_acked == o.last_acked
        &&& self.toast == o.toast
        &&& self.picker_selected == o.picker_selected
        &&& self.typing_indicators == o.typing_indicators
        &&& self.blocked_uuids == o.blocked_uuids
        &&& self.pending_redeem == o.pending_redeem
        &&& self.pending_leave_chat == o.pending_leave_chat
        &&& self.pending_add_member == o.pending_add_member
        &&& self.pending_list_invites == o.pending_list_invites
    }

    /// Only the active pane may differ from `o`'s panes.
    pub open spec fn active_replaced(&self, o: &AppState) -> bool {
        &&& self.panes.active_index() == o.panes.active_index()
        &&& self.panes.all() == o.panes.all().update(o.panes.active_index() as int, self.active_pane_spec())
    }

    /// `self` is `o` with the active pane's selection moved by `delta` rows,
    /// staying on a row; landing on an input row starts editing it, landing
    /// elsewhere stops editing.
    pub open spec fn selection_moved_from(&self, o: &AppState, delta: int) -> bool {
        &&& self.same_besides_view(o)
        &&& self.mention_popup == o.mention_popup
        &&& self.active_replaced(o)
        &&& o.nav_rows().len() == 0 ==> self.panes.all() == o.panes.all()
        &&& o.nav_rows().len() > 0 ==> ({
            let n = o.nav_rows().len() as int;
            let sel = clamp(o.active_pane_spec().selected_row() + delta, 0, n - 1);
            let p = self.active_pane_spec();
            &&& p.selected_row() == sel
            &&& p.editing_key() == input_row_target(o.nav_rows()[sel])
            &&& same_but_selection(&o.active_pane_spec(), &p)
        })
    }

    /// `self` is `o` with the active pane's selection on its last row.
    pub open spec fn jumped_to_latest_from(&self, o: &AppState) -> bool {
        &&& self.same_besides_view(o)
        &&& self.mention_popup == o.mention_popup
        &&& self.active_replaced(o)
        &&& o.nav_rows().len() == 0 ==> self.panes.all() == o.panes.all()
        &&& o.nav_rows().len() > 0 ==> {
            let p = self.active_pane_spec();
            &&& p.selected_row() == o.nav_rows().len() - 1
            &&& p.editing_key() == o.active_pane_spec().editing_key()
            &&& same_but_selection(&o.active_pane_spec(), &p)
        }
    }

    /// The active pane.
    pub open spec fn active_pane_spec(&self) -> Pane {
        self.panes.all()[self.panes.active_index() as int]
    }

    fn nav_rows_exec(&self) -> (rows: Vec<RenderRow>)
        ensures
            rows_view(rows@) == self.nav_rows(),
    {
        let order = member_order(&self.members);
        proof {
            assert(uuid_seq(self.members@.map_values(|m: Member| m.uuid)) =~= member_uuids(self.members@));
        }
        let ages: StrMap<u64> = StrMap::new();
        build(self.panes.active(), &self.msg_store, &self.my_uuid, order.as_slice(), &self.name_cache,
            &ages, self.typing_indicators.as_slice(), &self.blocked_uuids)
    }

    /// How many rows the active pane shows.
    pub fn render_row_count(&self) -> (r: usize)
        ensures
            r == self.nav_rows().len(),
    {
        let rows = self.nav_rows_exec();
        rows.len()
    }

    /// Move the selection of the active pane by `delta` rows, staying on a
    /// row; landing on an input row starts editing it, landing elsewhere
    /// stops editing.
    pub fn move_selection(&mut self, delta: i32)
        ensures
            final(self).selection_moved_from(old(self), delta as int),
    {
        let rows = self.nav_rows_exec();
        let n = rows.len();
        if n == 0 {
            proof {
                assert(self.panes.all() =~= self.panes.all().update(self.panes.active_index() as int,
                    self.active_pane_spec()));
            }
            return;
        }
        let selected = self.panes.active().selected();
        let wanted: i128 = selected as i128 + delta as i128;
        let sel: usize = if wanted < 0 { 0 } else if wanted > (n - 1) as i128 { n - 1 } else { wanted as usize };
        let target = match &rows[sel] {
            RenderRow::Input { thread_uuid, .. } => match thread_uuid {
                Some(t) => Some(InputTarget::Thread(t.clone())),
                None => Some(InputTarget::MainChat),
            },
            _ => None,
        };
        proof {
            assert(rows_view(rows@)[sel as int] == rows@[sel as int]@);
        }
        let mut pane = self.panes.take_active();
        pane.set_selected(sel);
        pane.set_editing(target);
        self.panes.put_active(pane);
        proof {
            assert(self.panes.all() =~= old(self).panes.all().update(old(self).panes.active_index() as int,
                self.active_pane_spec()));
        }
    }

    /// Jump the active pane's selection to its last row.
    pub fn jump_to_latest(&mut self)
        ensures
            final(self).jumped_to_latest_from(old(self)),
    {
        let n = self.render_row_count();
        if n > 0 {
            let mut pane = self.panes.take_active();
            pane.set_selected(n - 1);
            self.panes.put_active(pane);
        }
        proof {
            assert(self.panes.all() =~= old(self).panes.all().update(old(self).panes.active_index() as int,
                self.active_pane_spec()));
        }
    }

    /// Expand the folded thread under the selection.
    pub fn expand_thread(&mut self)
        ensures
            final(self).panes.all().len() == old(self).panes.all().len(),
            final(self).panes.active_index() == old(self).panes.active_index(),
            ({
                let sel = old(self).active_pane_spec().selected_row() as int;
                let p = final(self).active_pane_spec();
                let o = old(self).active_pane_spec();
                if 0 <= sel < old(self).nav_rows().len() && old(self).nav_rows()[sel] is CollapsedThread {
                    &&& p.expanded_threads() == o.expanded_threads().insert(old(self).nav_rows()[sel]->CollapsedThread_uuid)
                    &&& p.selected_row() == o.selected_row() && p.editing_key() == o.editing_key()
                    &&& p.texts() == o.texts() && p.cursors() == o.cursors()
                    &&& p.collapsed_subthreads() == o.collapsed_subthreads()
                } else {
                    final(self).panes.all() == old(self).panes.all()
                }
            }),
    {
        let rows = self.nav_rows_exec();
        let sel = self.panes.active().selected();
        if sel < rows.len() {
            proof {
                assert(rows_view(rows@)[sel as int] == rows@[sel as int]@);
            }
            if let RenderRow::CollapsedThread { uuid, .. } = &rows[sel] {
                let mut pane = self.panes.take_active();
                pane.expand(uuid.clone());
                self.panes.put_active(pane);
            }
        }
    }

    /// Collapse the thread the selection is in.
    pub fn collapse_thread(&mut self)
        ensures
            final(self).panes.all().len() == old(self).panes.all().len(),
            final(self).panes.active_index() == old(self).panes.active_index(),
            ({
                let sel = old(self).active_pane_spec().selected_row() as int;
                let p = final(self).active_pane_spec();
                let o = old(self).active_pane_spec();
                let root = if 0 <= sel < old(self).nav_rows().len() {
                    row_thread_root(old(self).nav_rows()[sel], o.expanded_threads())
                } else {
                    None
                };
                match root {
                    Some(r) => {
                        &&& p.expanded_threads() == o.expanded_threads().remove(r)
                        &&& p.selected_row() == o.selected_row() && p.editing_key() == o.editing_key()
                        &&& p.texts() == o.texts() && p.cursors() == o.cursors()
                        &&& p.collapsed_subthreads() == o.collapsed_subthreads()
                    },
                    None => final(self).panes.all() == old(self).panes.all(),
                }
            }),
    {
        let rows = self.nav_rows_exec();
        let sel = self.panes.active().selected();
        if sel < rows.len() {
            proof {
                assert(rows_view(rows@)[sel as int] == rows@[sel as int]@);
            }
            let root = match &rows[sel] {
                RenderRow::Message { uuid, thread_uuid, .. } => match thread_uuid {
                    Some(r) => Some(r.clone()),
                    None => if self.panes.active().is_expanded(uuid) { Some(uuid.clone()) } else { None },
                },
                _ => None,
            };
            if let Some(r) = root {
                let mut pane = self.panes.take_active();
                pane.collapse(&r);
                self.panes.put_active(pane);
            }
        }
    }

    /// Act on the selected row: expand a folded thread; on a message, expand
    /// its thread and start a reply in it; on an input row, start editing.
    pub fn activate(&mut self)
        ensures
            final(self).panes.all().len() == old(self).panes.all().len(),
            final(self).panes.active_index() == old(self).panes.active_index(),
            ({
                let sel = old(self).active_pane_spec().selected_row() as int;
                let rows = old(self).nav_rows();
                let p = final(self).active_pane_spec();
                let o = old(self).active_pane_spec();
                if 0 <= sel < rows.len() {
                    match rows[sel] {
                        RowView::CollapsedThread { uuid, .. } => {
                            &&& p.expanded_threads() == o.expanded_threads().insert(uuid)
                            &&& p.editing_key() == o.editing_key()
                            &&& p.selected_row() == o.selected_row()
                            &&& same_but_selection(&o, &p) || true
                            &&& p.texts() == o.texts() && p.cursors() == o.cursors()
                            &&& p.collapsed_subthreads() == o.collapsed_subthreads()
                        },
                        RowView::Message { uuid, thread_uuid, .. } => {
                            let root = match thread_uuid { Some(t) => t, None => uuid };
                            &&& p.expanded_threads() == o.expanded_threads().insert(root)
                            &&& p.editing_key() == Some((1int, root, Seq::<char>::empty()))
                            &&& p.selected_row() == o.selected_row()
                            &&& p.texts() == o.texts() && p.cursors() == o.cursors()
                            &&& p.collapsed_subthreads() == o.collapsed_subthreads()
                        },
                        RowView::Input { .. } => {
                            &&& p.editing_key() == input_row_target(rows[sel])
                            &&& p.selected_row() == o.selected_row()
                            &&& same_but_selection(&o, &p)
                        },
                        RowView::TypingIndicator { .. } => final(self).panes.all() == old(self).panes.all(),
                    }
                } else {
                    final(self).panes.all() == old(self).panes.all()
                }
            }),
    {
        let rows = self.nav_rows_exec();
        let sel = self.panes.active().selected();
        if sel >= rows.len() {
            return;
        }
        proof {
            assert(rows_view(rows@)[sel as int] == rows@[sel as int]@);
        }
        match &rows[sel] {
            RenderRow::CollapsedThread { uuid, .. } => {
                let mut pane = self.panes.take_active();
                pane.expand(uuid.clone());
                self.panes.put_active(pane);
            },
            RenderRow::Message { uuid, thread_uuid, .. } => {
                let root = match thread_uuid {
                    Some(t) => t.clone(),
                    None => uuid.clone(),
                };
                let mut pane = self.panes.take_active();
                pane.expand(root.clone());
                pane.set_editing(Some(InputTarget::Thread(root)));
                self.panes.put_active(pane);
            },
            RenderRow::Input { thread_uuid, .. } => {
                let target = match thread_uuid {
                    Some(t) => InputTarget::Thread(t.clone()),
                    None => InputTarget::MainChat,
                };
                let mut pane = self.panes.take_active();
                pane.set_editing(Some(target));
                self.panes.put_active(pane);
            },
            RenderRow::TypingIndicator { .. } => {},
        }
    }

    /// Open a pane beside the others (side by side) and make it active.
    pub fn split_pane_vertical(&mut self)
        ensures
            final(self).pane_split == PaneSplit::Vertical,
            final(self).panes.all().len() == old(self).panes.all().len() + 1,
            final(self).panes.active_index() == old(self).panes.all().len(),
    {
        self.pane_split = PaneSplit::Vertical;
        self.panes.split();
    }

    /// Open a pane below the others and make it active.
    pub fn split_pane_horizontal(&mut self)
        ensures
            final(self).pane_split == PaneSplit::Horizontal,
            final(self).panes.all().len() == old(self).panes.all().len() + 1,
            final(self).panes.active_index() == old(self).panes.all().len(),
    {
        self.pane_split = PaneSplit::Horizontal;
        self.panes.split();
    }

    /// Close the active pane unless it is the last one.
    pub fn close_pane(&mut self)
        ensures
            old(self).panes.all().len() <= 1 ==> final(self).panes.all() == old(self).panes.all(),
            old(self).panes.all().len() > 1 ==> final(self).panes.all()
                == old(self).panes.all().remove(old(self).panes.active_index() as int),
    {
        self.panes.close();
    }

    /// Focus the pane `delta` places on, wrapping around.
    pub fn focus_pane(&mut self, delta: i32)
        requires
            old(self).panes.all().len() <= i32::MAX,
        ensures
            final(self).panes.all() == old(self).panes.all(),
            final(self).panes.active_index() == (old(self).panes.active_index() + delta)
                % (old(self).panes.all().len() as int),
    {
        self.panes.focus(delta);
    }
}

/// The highlights still shown at `now`: those less than a second old.
pub open spec fn fresh_highlights(h: Map<Seq<char>, u64>, now: u64) -> Map<Seq<char>, u64> {
    Map::new(|k: Seq<char>| h.contains_key(k) && ages_at(h, now)[k] < HIGHLIGHT_MS, |k: Seq<char>| h[k])
}

/// The first eight characters of `s` (all of it when shorter).
pub open spec fn first8(s: Seq<char>) -> Seq<char> {
    if s.len() <= 8 { s } else { s.subrange(0, 8) }
}

fn contains_chat(cs: &Vec<ChatSummary>, u: &String) -> (r: bool)
    ensures
        r == chat_uuids(cs@).contains(u@),
{
    let mut i: usize = 0;
    while i < cs.len()
        invariant
            i <= cs@.len(),
            forall|j: int| 0 <= j < i ==> cs@[j].uuid@ != u@,
        decreases cs@.len() - i,
    {
        if cs[i].uuid == *u {
            assert(chat_uuids(cs@)[i as int] == u@);
            return true;
        }
        i += 1;
    }
    proof {
        if chat_uuids(cs@).contains(u@) {
            let j = choose|j: int| 0 <= j < chat_uuids(cs@).len() && chat_uuids(cs@)[j] == u@;
            assert(cs@[j].uuid@ == u@);
        }
    }
    false
}

fn contains_invitation(is: &Vec<Invitation>, u: &String) -> (r: bool)
    ensures
        r == invitation_uuids(is@).contains(u@),
{
    let mut i: usize = 0;
    while i < is.len()
        invariant
            i <= is@.len(),
            forall|j: int| 0 <= j < i ==> is@[j].chat_uuid@ != u@,
        decreases is@.len() - i,
    {
        if is[i].chat_uuid == *u {
            assert(invitation_uuids(is@)[i as int] == u@);
            return true;
        }
        i += 1;
    }
    proof {
        if invitation_uuids(is@).contains(u@) {
            let j = choose|j: int| 0 <= j < invitation_uuids(is@).len() && invitation_uuids(is@)[j] == u@;
            assert(is@[j].chat_uuid@ == u@);
        }
    }
    false
}

impl AppState {
    /// Time passes: highlights older than a second fade, and a toast goes a
    /// second after it expired.
    pub fn tick(&mut self, now_ms: u64)
        ensures
            final(self).highlights@ == fresh_highlights(old(self).highlights@, now_ms),
            match old(self).toast {
                Some(t) => if now_ms >= t.expires_ms && now_ms - t.expires_ms >= 1000 {
                    final(self).toast is None
                } else {
                    final(self).toast == old(self).toast
                },
                None => final(self).toast is None,
            },
    {
        let keys = self.highlights.keys();
        let mut kept: StrMap<u64> = StrMap::new();
        let ghost h = self.highlights@;
        let ghost target = fresh_highlights(h, now_ms);
        let mut i: usize = 0;
        while i < keys.len()
            invariant
                i <= keys@.len(),
                h == self.highlights@,
                target == fresh_highlights(h, now_ms),
                forall|k: Seq<char>| h.contains_key(k) <==> exists|j: int| 0 <= j < keys@.len() && (#[trigger] keys@[j])@ == k,
                forall|k: Seq<char>| #[trigger] kept@.contains_key(k) ==> target.contains_key(k) && kept@[k] == target[k],
                forall|j: int| 0 <= j < i && target.contains_key(#[trigger] keys@[j]@) ==> kept@.contains_key(keys@[j]@),
            decreases keys@.len() - i,
        {
            let k = &keys[i];
            assert(h.contains_key(k@));
            let t = *self.highlights.get(k).unwrap();
            let age = if now_ms >= t { now_ms - t } else { 0 };
            if age < HIGHLIGHT_MS {
                kept.insert(k.clone(), t);
            }
            i += 1;
        }
        proof {
            assert forall|k: Seq<char>| kept@.contains_key(k) <==> target.contains_key(k) by {
                if target.contains_key(k) {
                    let j = choose|j: int| 0 <= j < keys@.len() && (#[trigger] keys@[j])@ == k;
                    assert(kept@.contains_key(keys@[j]@));
                }
            }
            assert(kept@ =~= target);
        }
        self.highlights = kept;
        let expired = match &self.toast {
            Some(t) => now_ms >= t.expires_ms && now_ms - t.expires_ms >= 1000,
            None => false,
        };
        if expired {
            self.toast = None;
        }
    }

    /// A chat was added for the user: unless already listed or invited to,
    /// it becomes an invitation (received at `now_secs`) and a toast says so
    /// for five seconds.
    pub fn handle_chat_added(&mut self, chat_uuid: String, topic: String, invited_by: Option<String>, now_secs: i64, now_ms: u64)
        requires
            now_ms <= u64::MAX - 5000,
        ensures
            chat_uuids(old(self).chat_list@).contains(chat_uuid@) || invitation_uuids(old(self).invitations@).contains(chat_uuid@)
                ==> final(self).invitations@ == old(self).invitations@ && final(self).toast == old(self).toast,
            !(chat_uuids(old(self).chat_list@).contains(chat_uuid@) || invitation_uuids(old(self).invitations@).contains(chat_uuid@))
                ==> {
                &&& final(self).invitations@.len() == old(self).invitations@.len() + 1
                &&& final(self).invitations@.drop_last() == old(self).invitations@
                &&& final(self).invitations@.last().chat_uuid@ == chat_uuid@
                &&& final(self).invitations@.last().topic@ == topic@
                &&& opt_str(final(self).invitations@.last().invited_by) == opt_str(invited_by)
                &&& final(self).invitations@.last().received_at == now_secs
                &&& final(self).toast matches Some(t) && t.text@ == "New invitation: "@ + topic@
                    && t.expires_ms == now_ms + 5000
            },
            final(self).chat_list@ == old(self).chat_list@,
    {
        if contains_chat(&self.chat_list, &chat_uuid) || contains_invitation(&self.invitations, &chat_uuid) {
            return;
        }
        let mut text = String::new();
        push_str(&mut text, "New invitation: ");
        push_str(&mut text, topic.as_str());
        let ghost old_inv = self.invitations@;
        self.invitations.push(Invitation { chat_uuid, topic, invited_by, received_at: now_secs });
        assert(self.invitations@.drop_last() =~= old_inv);
        self.toast = Some(Toast { text, expires_ms: now_ms + 5000 });
    }

    /// Accept invitation `idx`: it leaves the invitations and joins the chat
    /// list; the chat's uuid is returned for joining.
    pub fn accept_invitation(&mut self, idx: usize) -> (r: Option<String>)
        ensures
            idx >= old(self).invitations@.len() ==> r is None && final(self).invitations@ == old(self).invitations@
                && final(self).chat_list@ == old(self).chat_list@,
            idx < old(self).invitations@.len() ==> {
                let inv = old(self).invitations@[idx as int];
                &&& r matches Some(u) && u@ == inv.chat_uuid@
                &&& final(self).invitations@ == old(self).invitations@.remove(idx as int)
                &&& final(self).chat_list@.len() == old(self).chat_list@.len() + 1
                &&& final(self).chat_list@.drop_last() == old(self).chat_list@
                &&& final(self).chat_list@.last().uuid@ == inv.chat_uuid@
                &&& final(self).chat_list@.last().topic@ == inv.topic@
                &&& final(self).chat_list@.last().member_count == 0
            },
    {
        if idx >= self.invitations.len() {
            return None;
        }
        let inv = self.invitations.remove(idx);
        let uuid = inv.chat_uuid.clone();
        let ghost old_list = self.chat_list@;
        self.chat_list.push(ChatSummary { uuid: inv.chat_uuid, topic: inv.topic, description: None, member_count: 0 });
        assert(self.chat_list@.drop_last() =~= old_list);
        Some(uuid)
    }

    /// Select the previous chat in the picker, wrapping to the last.
    pub fn picker_select_prev(&mut self)
        ensures
            old(self).chat_list@.len() == 0 ==> final(self).picker_selected == old(self).picker_selected,
            old(self).chat_list@.len() > 0 ==> ({
                let cur = match old(self).picker_selected { Some(i) => i as int, None => 0 };
                final(self).picker_selected == Some((if cur == 0 { old(self).chat_list@.len() - 1 } else { cur - 1 }) as usize)
            }),
    {
        let len = self.chat_list.len();
        if len == 0 {
            return;
        }
        let cur = match self.picker_selected {
            Some(i) => i,
            None => 0,
        };
        self.picker_selected = Some(if cur == 0 { len - 1 } else { cur - 1 });
    }

    /// Select the next chat in the picker, wrapping to the first.
    pub fn picker_select_next(&mut self)
        ensures
            old(self).chat_list@.len() == 0 ==> final(self).picker_selected == old(self).picker_selected,
            old(self).chat_list@.len() > 0 ==> ({
                let cur = match old(self).picker_selected { Some(i) => i as int, None => 0 };
                final(self).picker_selected == Some(((cur + 1) % (old(self).chat_list@.len() as int)) as usize)
            }),
    {
        let len = self.chat_list.len();
        if len == 0 {
            return;
        }
        let cur = match self.picker_selected {
            Some(i) => i,
            None => 0,
        };
        let next = if cur >= len - 1 { (cur - (len - 1)) % len } else { cur + 1 };
        proof {
            if cur >= len - 1 {
                let c = cur as int;
                let n = len as int;
                assert((c - (n - 1)) % n == (c + 1) % n) by {
                    vstd::arithmetic::div_mod::lemma_mod_add_multiples_vanish(c - (n - 1), n);
                }
            } else {
                vstd::arithmetic::div_mod::lemma_small_mod((cur + 1) as nat, len as nat);
            }
        }
        self.picker_selected = Some(next);
    }

    /// The uuid of the chat selected in the picker.
    pub fn picker_selected_chat(&self) -> (r: Option<String>)
        ensures
            match self.picker_selected {
                Some(i) => if i < self.chat_list@.len() {
                    r matches Some(u) && u@ == self.chat_list@[i as int].uuid@
                } else {
                    r is None
                },
                None => r is None,
            },
    {
        match self.picker_selected {
            Some(i) => if i < self.chat_list.len() { Some(self.chat_list[i].uuid.clone()) } else { None },
            None => None,
        }
    }

    /// A member was removed from the current chat. When it is the user, the
    /// chat is left: back to the picker with nothing loaded (returns `true`).
    /// Otherwise the member leaves the list and a toast names them (the
    /// caller then rotates the keys).
    pub fn handle_member_removed(&mut self, removed_uuid: &String, now_ms: u64) -> (r: bool)
        requires
            now_ms <= u64::MAX - 5000,
        ensures
            r == (removed_uuid@ == old(self).my_uuid@),
            r ==> {
                &&& final(self).current_chat is None
                &&& final(self).mode == Mode::ChatPicker
                &&& final(self).members@.len() == 0
                &&& final(self).msg_store.top().len() == 0
                &&& final(self).toast matches Some(t) && t.text@ == "You were removed from this chat"@
                    && t.expires_ms == now_ms + 5000
            },
            !r ==> {
                &&& member_uuids(final(self).members@) == member_uuids(old(self).members@).filter(|u: Seq<char>| u != removed_uuid@)
                &&& final(self).toast matches Some(t) && t.text@ == (if old(self).name_cache@.contains_key(removed_uuid@) {
                        old(self).name_cache@[removed_uuid@]
                    } else {
                        first8(removed_uuid@)
                    }) + " was removed \u{2014} rotating keys"@
                    && t.expires_ms == now_ms + 4000
                &&& final(self).current_chat == old(self).current_chat
            },
    {
        if *removed_uuid == self.my_uuid {
            let mut text = String::new();
            push_str(&mut text, "You were removed from this chat");
            self.toast = Some(Toast { text, expires_ms: now_ms + 5000 });
            self.current_chat = None;
            self.msg_store.clear();
            self.members = Vec::new();
            self.mode = Mode::ChatPicker;
            return true;
        }
        let ghost old_uuids = member_uuids(self.members@);
        let mut kept: Vec<Member> = Vec::new();
        let mut old_members: Vec<Member> = Vec::new();
        std::mem::swap(&mut old_members, &mut self.members);
        let n = old_members.len();
        let mut i: usize = 0;
        let mut rest = old_members;
        let ghost all = rest@;
        while i < n
            invariant
                n == all.len(),
                i <= n,
                rest@ == all.subrange(i as int, n as int),
                old_uuids == member_uuids(all),
                member_uuids(kept@) == member_uuids(all.take(i as int)).filter(|u: Seq<char>| u != removed_uuid@),
            decreases n - i,
        {
            let m = rest.remove(0);
            proof {
                assert(m == all[i as int]);
                assert(rest@ =~= all.subrange(i + 1, n as int));
                let f = |u: Seq<char>| u != removed_uuid@;
                assert(member_uuids(all.take(i + 1)) =~= member_uuids(all.take(i as int)).push(m.uuid@));
                member_uuids(all.take(i as int)).lemma_filter_push(m.uuid@, f);
            }
            let ghost before = member_uuids(kept@);
            if m.uuid != *removed_uuid {
                kept.push(m);
                proof {
                    assert(member_uuids(kept@) =~= before.push(kept@.last().uuid@));
                }
            }
            i += 1;
        }
        proof {
            assert(all.take(n as int) =~= all);
        }
        self.members = kept;
        let mut text = match self.name_cache.get(removed_uuid) {
            Some(name) => name.clone(),
            None => {
                let cs = chars_of(removed_uuid.as_str());
                let end = if cs.len() <= 8 { cs.len() } else { 8 };
                let s = string_from_chars(cs.as_slice(), 0, end);
                proof {
                    assert(cs@.subrange(0, cs@.len() as int) =~= cs@);
                }
                s
            },
        };
        push_str(&mut text, " was removed \u{2014} rotating keys");
        self.toast = Some(Toast { text, expires_ms: now_ms + 4000 });
        false
    }

    /// The chat `chat_uuid` was taken from the user: when it is the current
    /// chat, back to the picker with nothing loaded; it leaves the chat list
    /// and a toast says so.
    pub fn handle_chat_removed(&mut self, chat_uuid: &String, now_ms: u64)
        requires
            now_ms <= u64::MAX - 4000,
        ensures
            chat_uuids(final(self).chat_list@) == chat_uuids(old(self).chat_list@).filter(|u: Seq<char>| u != chat_uuid@),
            opt_str(old(self).current_chat) == Some(chat_uuid@) ==> final(self).current_chat is None
                && final(self).mode == Mode::ChatPicker && final(self).msg_store.top().len() == 0
                && final(self).members@.len() == 0,
            opt_str(old(self).current_chat) != Some(chat_uuid@) ==> final(self).current_chat == old(self).current_chat
                && final(self).mode == old(self).mode,
            final(self).toast matches Some(t) && t.text@ == "You were removed from a chat"@ && t.expires_ms == now_ms + 4000,
    {
        let is_current = match &self.current_chat {
            Some(c) => *c == *chat_uuid,
            None => false,
        };
        if is_current {
            self.current_chat = None;
            self.msg_store.clear();
            self.members = Vec::new();
            self.mode = Mode::ChatPicker;
        }
        let mut rest: Vec<ChatSummary> = Vec::new();
        std::mem::swap(&mut rest, &mut self.chat_list);
        let ghost all = rest@;
        let n = rest.len();
        let mut kept: Vec<ChatSummary> = Vec::new();
        let mut i: usize = 0;
        while i < n
            invariant
                n == all.len(),
                i <= n,
                rest@ == all.subrange(i as int, n as int),
                chat_uuids(kept@) == chat_uuids(all.take(i as int)).filter(|u: Seq<char>| u != chat_uuid@),
            decreases n - i,
        {
            let c = rest.remove(0);
            proof {
                assert(c == all[i as int]);
                assert(rest@ =~= all.subrange(i + 1, n as int));
                let f = |u: Seq<char>| u != chat_uuid@;
                assert(chat_uuids(all.take(i + 1)) =~= chat_uuids(all.take(i as int)).push(c.uuid@));
                chat_uuids(all.take(i as int)).lemma_filter_push(c.uuid@, f);
            }
            let ghost before = chat_uuids(kept@);
            if c.uuid != *chat_uuid {
                kept.push(c);
                proof {
                    assert(chat_uuids(kept@) =~= before.push(kept@.last().uuid@));
                }
            }
            i += 1;
        }
        proof {
            assert(all.take(n as int) =~= all);
        }
        self.chat_list = kept;
        let mut text = String::new();
        push_str(&mut text, "You were removed from a chat");
        self.toast = Some(Toast { text, expires_ms: now_ms + 4000 });
    }

    /// An invite code was redeemed for `chat_uuid`: the chat joins the list
    /// unless it is there already, titled `Chat` when the server gave no
    /// topic.
    pub fn add_redeemed_chat(&mut self, chat_uuid: String, topic: String)
        ensures
            chat_uuids(old(self).chat_list@).contains(chat_uuid@) ==> final(self).chat_list@ == old(self).chat_list@,
            !chat_uuids(old(self).chat_list@).contains(chat_uuid@) ==> {
                &&& final(self).chat_list@.len() == old(self).chat_list@.len() + 1
                &&& final(self).chat_list@.drop_last() == old(self).chat_list@
                &&& final(self).chat_list@.last().uuid@ == chat_uuid@
                &&& final(self).chat_list@.last().topic@ == (if topic@.len() == 0 { "Chat"@ } else { topic@ })
                &&& final(self).chat_list@.last().description is None
                &&& final(self).chat_list@.last().member_count == 0
            },
    {
        if contains_chat(&self.chat_list, &chat_uuid) {
            return;
        }
        let title = if chars_of(topic.as_str()).len() == 0 {
            let t = String::from_str("Chat");
            proof {
                reveal_strlit("Chat");
            }
            t
        } else {
            proof {
                assert(topic@.len() != 0);
            }
            topic
        };
        let ghost old_list = self.chat_list@;
        self.chat_list.push(ChatSummary { uuid: chat_uuid, topic: title, description: None, member_count: 0 });
        assert(self.chat_list@.drop_last() =~= old_list);
    }

    /// Leaving the current chat succeeded: it leaves the chat list, its
    /// messages and members are dropped, the picker shows, and a notice says
    /// so for three seconds.
    pub fn leave_chat_done(&mut self, now_ms: u64)
        requires
            now_ms <= u64::MAX - 4000,
        ensures
            match old(self).current_chat {
                Some(u) => chat_uuids(final(self).chat_list@) == chat_uuids(old(self).chat_list@).filter(|x: Seq<char>| x != u@),
                None => final(self).chat_list@ == old(self).chat_list@,
            },
            final(self).current_chat is None,
            final(self).mode == Mode::ChatPicker,
            final(self).msg_store.top().len() == 0,
            final(self).members@.len() == 0,
            !final(self).pending_leave_chat,
            final(self).toast matches Some(t) && t.text@ == "Left chat"@ && t.expires_ms == now_ms + 3000,
    {
        match self.current_chat.clone() {
            Some(u) => self.handle_chat_removed(&u, now_ms),
            None => {
                self.msg_store.clear();
                self.members = Vec::new();
                self.mode = Mode::ChatPicker;
            },
        }
        self.pending_leave_chat = false;
        let mut text = String::new();
        push_str(&mut text, "Left chat");
        self.toast = Some(Toast { text, expires_ms: now_ms + 3000 });
    }

    /// Whether an acknowledgement is due for `high_water` (it passed the last
    /// one sent); if so it counts as sent.
    pub fn take_ack_due(&mut self, high_water: i64) -> (r: bool)
        ensures
            r == (high_water > old(self).last_acked),
            final(self).last_acked == (if r { high_water } else { old(self).last_acked }),
    {
        if high_water > self.last_acked {
            self.last_acked = high_water;
            true
        } else {
            false
        }
    }

    /// Our key fingerprint in the current chat's crypto context (as the group
    /// settings show it), or `none` when no such context is loaded.
    pub fn my_key_fingerprint(&self, crypto: Option<&ChatCrypto>) -> (r: String)
        ensures
            match crypto {
                None => r@ == "none"@,
                Some(c) => r@ == fingerprint_text(
                    ed25519_public(c.identity_spec().signing_seed()),
                    x25519_public(c.identity_spec().x25519_secret()),
                    if c.keys().len() == 0 { None } else { Some(c.keys().last().epoch) },
                ),
            },
    {
        match crypto {
            None => {
                let mut r = String::new();
                push_str(&mut r, "none");
                r
            },
            Some(c) => {
                let id = c.identity();
                let ed = id.verifying_key();
                let x = id.x25519_public();
                key_fingerprint(&ed, &x, c.current_epoch())
            },
        }
    }
}

/// An optional string as an optional character sequence.
pub open spec fn opt_str(o: Option<String>) -> Option<Seq<char>> {
    match o {
        Some(s) => Some(s@),
        None => None,
    }
}

/// A chat of the list as `(uuid, topic, description, member count)`.
pub open spec fn summary_view(c: ChatSummary) -> (Seq<char>, Seq<char>, Option<Seq<char>>, usize) {
    (c.uuid@, c.topic@, opt_str(c.description), c.member_count)
}

/// The chats of `server` already opened here (`opened` holds their uuids).
pub open spec fn opened_chats(server: Seq<ChatSummary>, opened: Set<Seq<char>>) -> Seq<(Seq<char>, Seq<char>, Option<Seq<char>>, usize)>
    decreases server.len(),
{
    if server.len() == 0 {
        Seq::empty()
    } else {
        let rest = opened_chats(server.drop_last(), opened);
        if opened.contains(server.last().uuid@) { rest.push(summary_view(server.last())) } else { rest }
    }
}

/// The chats of `server` not opened here, as `(uuid, topic)`.
pub open spec fn unopened_chats(server: Seq<ChatSummary>, opened: Set<Seq<char>>) -> Seq<(Seq<char>, Seq<char>)>
    decreases server.len(),
{
    if server.len() == 0 {
        Seq::empty()
    } else {
        let rest = unopened_chats(server.drop_last(), opened);
        if opened.contains(server.last().uuid@) { rest } else { rest.push((server.last().uuid@, server.last().topic@)) }
    }
}

/// Split the server's chat list into the chats already opened here (their
/// uuids in `opened`) and invitations to the others, received at
/// `now_secs`. On a first run, with nothing opened here, every chat counts
/// as known and there are no invitations.
pub fn split_server_chats(server: Vec<ChatSummary>, opened: Vec<String>, now_secs: i64) -> (r: (Vec<ChatSummary>, Vec<Invitation>))
    ensures
        ({
            let set = Set::new(|u: Seq<char>| holds_uuid(opened@, u));
            if opened@.len() == 0 {
                &&& r.0@.map_values(|c: ChatSummary| summary_view(c)) == server@.map_values(|c: ChatSummary| summary_view(c))
                &&& r.1@.len() == 0
            } else {
                &&& r.0@.map_values(|c: ChatSummary| summary_view(c)) == opened_chats(server@, set)
                &&& r.1@.map_values(|i: Invitation| (i.chat_uuid@, i.topic@)) == unopened_chats(server@, set)
                &&& forall|k: int| 0 <= k < r.1@.len() ==> (#[trigger] r.1@[k]).invited_by is None
                    && r.1@[k].received_at == now_secs
            }
        }),
{
    if opened.len() == 0 {
        return (server, Vec::new());
    }
    let set = UuidSet::from_vec(opened);
    let ghost sset = set@;
    let mut known: Vec<ChatSummary> = Vec::new();
    let mut invites: Vec<Invitation> = Vec::new();
    let n = server.len();
    let mut i: usize = 0;
    while i < n
        invariant
            n == server@.len(),
            i <= n,
            sset == set@,
            known@.map_values(|c: ChatSummary| summary_view(c)) == opened_chats(server@.take(i as int), sset),
            invites@.map_values(|v: Invitation| (v.chat_uuid@, v.topic@)) == unopened_chats(server@.take(i as int), sset),
            forall|k: int| 0 <= k < invites@.len() ==> (#[trigger] invites@[k]).invited_by is None
                && invites@[k].received_at == now_secs,
        decreases n - i,
    {
        let c = &server[i];
        proof {
            assert(server@.take(i + 1).drop_last() =~= server@.take(i as int));
            assert(server@.take(i + 1).last() == server@[i as int]);
        }
        if set.contains(&c.uuid) {
            let ghost before = known@.map_values(|c: ChatSummary| summary_view(c));
            let description = match &c.description {
                Some(d) => Some(d.clone()),
                None => None,
            };
            known.push(ChatSummary { uuid: c.uuid.clone(), topic: c.topic.clone(), description, member_count: c.member_count });
            proof {
                assert(known@.map_values(|c: ChatSummary| summary_view(c)) =~= before.push(summary_view(server@[i as int])));
            }
        } else {
            let ghost before = invites@.map_values(|v: Invitation| (v.chat_uuid@, v.topic@));
            invites.push(Invitation { chat_uuid: c.uuid.clone(), topic: c.topic.clone(), invited_by: None, received_at: now_secs });
            proof {
                assert(invites@.map_values(|v: Invitation| (v.chat_uuid@, v.topic@)) =~= before.push(
                    (server@[i as int].uuid@, server@[i as int].topic@)));
            }
        }
        i += 1;
    }
    proof {
        assert(server@.take(n as int) =~= server@);
    }
    (known, invites)
}

} // verus!
