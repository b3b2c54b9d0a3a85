//! The flat list of rows a chat pane shows: messages, folded threads,
//! typing indicators and input lines, in display order.

use vstd::prelude::*;

use super::mention::{resolve_name, NameCache};
use super::pane::{cursor_at, text_at, InputTarget, Pane};
use super::store::{any_known, replies_of, uuid_seq, DisplayMessage, TuiMessageStore};
use super::str_map::StrMap;
use super::uuid_set::UuidSet;

verus! {

/// The thread marker in a row's left margin.
#[derive(Debug, Clone, Copy, PartialEq, Eq)]
pub enum Gutter {
    /// No thread hangs off the row.
    NoThread,
    Collapsed,
    Expanded,
}

/// The colour an author's name is drawn in: the accent for the user,
/// otherwise the palette entry of the author's place among the members.
#[derive(Debug, Clone, Copy, PartialEq, Eq)]
pub enum AuthorColor {
    Accent,
    Member(usize),
}

/// One row of a chat pane.
pub enum RenderRow {
    Message {
        uuid: String,
        author: String,
        author_color: AuthorColor,
        body: String,
        /// The message's timestamp as received; the screen formats it.
        timestamp: String,
        indent: u8,
        thread_uuid: Option<String>,
        reply_to_uuid: Option<String>,
        is_pending: bool,
        /// Milliseconds since the message was highlighted, if it is.
        highlight_age: Option<u64>,
        /// For a depth-1 message whose replies are folded: how many there are.
        collapsed_sub_count: Option<usize>,
        /// Someone is typing in this depth-1 message's folded replies.
        sub_typing_active: bool,
        gutter: Gutter,
        /// This message, or a folded reply below it, is unread.
        is_unread: bool,
        /// This message, or a folded reply below it, mentions the user.
        mentions_me: bool,
        mentioned_names: Vec<String>,
    },
    CollapsedThread {
        uuid: String,
        author: String,
        author_color: AuthorColor,
        preview: String,
        reply_count: u32,
        timestamp: String,
        typing_active: bool,
        is_unread: bool,
        mentions_me: bool,
    },
    Input {
        thread_uuid: Option<String>,
        reply_to_uuid: Option<String>,
        indent: u8,
        is_active: bool,
        content: String,
        /// Cursor position as a character index within `content`.
        cursor: usize,
    },
    TypingIndicator {
        indent: u8,
    },
}

/// A row with its strings taken as character sequences.
pub enum RowView {
    Message {
        uuid: Seq<char>,
        author: Seq<char>,
        author_color: AuthorColor,
        body: Seq<char>,
        timestamp: Seq<char>,
        indent: u8,
        thread_uuid: Option<Seq<char>>,
        reply_to_uuid: Option<Seq<char>>,
        is_pending: bool,
        highlight_age: Option<u64>,
        collapsed_sub_count: Option<usize>,
        sub_typing_active: bool,
        gutter: Gutter,
        is_unread: bool,
        mentions_me: bool,
        mentioned_names: Seq<Seq<char>>,
    },
    CollapsedThread {
        uuid: Seq<char>,
        author: Seq<char>,
        author_color: AuthorColor,
        preview: Seq<char>,
        reply_count: u32,
        timestamp: Seq<char>,
        typing_active: bool,
        is_unread: bool,
        mentions_me: bool,
    },
    Input {
        thread_uuid: Option<Seq<char>>,
        reply_to_uuid: Option<Seq<char>>,
        indent: u8,
        is_active: bool,
        content: Seq<char>,
        cursor: usize,
    },
    TypingIndicator {
        indent: u8,
    },
}

/// An optional string as an optional character sequence.
pub open spec fn opt_view(o: Option<String>) -> Option<Seq<char>> {
    match o {
        Some(s) => Some(s@),
        None => None,
    }
}

impl View for RenderRow {
    type V = RowView;

    open spec fn view(&self) -> RowView {
        match self {
            RenderRow::Message {
                uuid, author, author_color, body, timestamp, indent, thread_uuid, reply_to_uuid, is_pending,
                highlight_age, collapsed_sub_count, sub_typing_active, gutter, is_unread, mentions_me,
                mentioned_names,
            } => RowView::Message {
                uuid: uuid@,
                author: author@,
                author_color: *author_color,
                body: body@,
                timestamp: timestamp@,
                indent: *indent,
                thread_uuid: opt_view(*thread_uuid),
                reply_to_uuid: opt_view(*reply_to_uuid),
                is_pending: *is_pending,
                highlight_age: *highlight_age,
                collapsed_sub_count: *collapsed_sub_count,
                sub_typing_active: *sub_typing_active,
                gutter: *gutter,
                is_unread: *is_unread,
                mentions_me: *mentions_me,
                mentioned_names: uuid_seq(mentioned_names@),
            },
            RenderRow::CollapsedThread {
                uuid, author, author_color, preview, reply_count, timestamp, typing_active, is_unread, mentions_me,
            } => RowView::CollapsedThread {
                uuid: uuid@,
                author: author@,
                author_color: *author_color,
                preview: preview@,
                reply_count: *reply_count,
                timestamp: timestamp@,
                typing_active: *typing_active,
                is_unread: *is_unread,
                mentions_me: *mentions_me,
            },
            RenderRow::Input { thread_uuid, reply_to_uuid, indent, is_active, content, cursor } => RowView::Input {
                thread_uuid: opt_view(*thread_uuid),
                reply_to_uuid: opt_view(*reply_to_uuid),
                indent: *indent,
                is_active: *is_active,
                content: content@,
                cursor: *cursor,
            },
            RenderRow::TypingIndicator { indent } => RowView::TypingIndicator { indent: *indent },
        }
    }
}

/// The rows as views.
pub open spec fn rows_view(rows: Seq<RenderRow>) -> Seq<RowView> {
    rows.map_values(|r: RenderRow| r@)
}

/// Everything the rows of a pane depend on.
pub struct RowCtx {
    pub expanded: Set<Seq<char>>,
    pub collapsed_subs: Set<Seq<char>>,
    pub editing: Option<(int, Seq<char>, Seq<char>)>,
    pub texts: Map<(int, Seq<char>, Seq<char>), Seq<char>>,
    pub cursors: Map<(int, Seq<char>, Seq<char>), usize>,
    pub msgs: Map<Seq<char>, DisplayMessage>,
    pub threads: Map<Seq<char>, Seq<Seq<char>>>,
    pub me: Seq<char>,
    pub members: Seq<Seq<char>>,
    pub names: Map<Seq<char>, Seq<char>>,
    pub ages: Map<Seq<char>, u64>,
    pub typing: Seq<(Option<Seq<char>>, Option<Seq<char>>)>,
    pub blocked: Set<Seq<char>>,
}

/// The typing indicators as character sequences.
pub open spec fn typing_view(t: Seq<(Option<String>, Option<String>)>) -> Seq<(Option<Seq<char>>, Option<Seq<char>>)> {
    t.map_values(|p: (Option<String>, Option<String>)| (opt_view(p.0), opt_view(p.1)))
}

/// The first position of `x` in `s`, or the length of `s`.
pub open spec fn position_of(s: Seq<Seq<char>>, x: Seq<char>) -> int
    decreases s.len(),
{
    if s.len() == 0 {
        0
    } else if s[0] == x {
        0
    } else {
        1 + position_of(s.drop_first(), x)
    }
}

/// The colour of an author's name.
pub open spec fn color_of(me: Seq<char>, members: Seq<Seq<char>>, sender: Seq<char>) -> AuthorColor {
    if sender == me {
        AuthorColor::Accent
    } else {
        let p = position_of(members, sender);
        AuthorColor::Member(if p < members.len() { p as usize } else { 0 })
    }
}

/// Someone is typing somewhere in the thread rooted at `root`.
pub open spec fn typing_in_thread(c: RowCtx, root: Seq<char>) -> bool {
    exists|i: int| 0 <= i < c.typing.len() && (#[trigger] c.typing[i]).0 == Some(root)
}

/// Someone is typing a reply to the depth-1 message `uuid`.
pub open spec fn typing_in_sub(c: RowCtx, uuid: Seq<char>) -> bool {
    exists|i: int| 0 <= i < c.typing.len() && (#[trigger] c.typing[i]).1 == Some(uuid)
}

/// Someone is typing exactly at `key`.
pub open spec fn typing_at(c: RowCtx, key: (Option<Seq<char>>, Option<Seq<char>>)) -> bool {
    exists|i: int| 0 <= i < c.typing.len() && c.typing[i] == key
}

/// The highlight age of a message.
pub open spec fn age_of(c: RowCtx, u: Seq<char>) -> Option<u64> {
    if c.ages.contains_key(u) { Some(c.ages[u]) } else { None }
}

/// The row of message `m` (uuid `u`) at `indent`.
pub open spec fn message_row(
    c: RowCtx,
    u: Seq<char>,
    m: DisplayMessage,
    indent: u8,
    thread_uuid: Option<Seq<char>>,
    reply_to_uuid: Option<Seq<char>>,
    collapsed_sub_count: Option<usize>,
    sub_typing_active: bool,
    gutter: Gutter,
    is_unread: bool,
    mentions_me: bool,
) -> RowView {
    RowView::Message {
        uuid: u,
        author: resolve_name(c.names, m.sender_uuid@, m.sender_name@),
        author_color: color_of(c.me, c.members, m.sender_uuid@),
        body: m.body@,
        timestamp: m.timestamp@,
        indent,
        thread_uuid,
        reply_to_uuid,
        is_pending: m.pending,
        highlight_age: age_of(c, u),
        collapsed_sub_count,
        sub_typing_active,
        gutter,
        is_unread,
        mentions_me,
        mentioned_names: uuid_seq(m.mentioned_names@),
    }
}

/// The `(thread_uuid, reply_to_uuid)` of an input target, by its key.
pub open spec fn key_wire(k: (int, Seq<char>, Seq<char>)) -> (Option<Seq<char>>, Option<Seq<char>>) {
    if k.0 == 0 {
        (None, None)
    } else if k.0 == 1 {
        (Some(k.1), None)
    } else {
        (Some(k.2), Some(k.1))
    }
}

/// The input row of the target with key `k`.
pub open spec fn input_row(c: RowCtx, k: (int, Seq<char>, Seq<char>)) -> RowView {
    RowView::Input {
        thread_uuid: key_wire(k).0,
        reply_to_uuid: key_wire(k).1,
        indent: k.0 as u8,
        is_active: c.editing == Some(k),
        content: text_at(c.texts, k),
        cursor: cursor_at(c.cursors, c.texts, k) as usize,
    }
}

/// The rows closing a level: a typing indicator when someone types there,
/// then the input row (for replies only while it is being edited).
pub open spec fn footer(c: RowCtx, k: (int, Seq<char>, Seq<char>), only_when_active: bool) -> Seq<RowView> {
    (if typing_at(c, key_wire(k)) { seq![RowView::TypingIndicator { indent: k.0 as u8 }] } else { Seq::empty() })
        + (if only_when_active && c.editing != Some(k) { Seq::empty() } else { seq![input_row(c, k)] })
}

/// A depth-1 reply: known, with no message it answers (an unknown reply
/// counts as depth 1 too).
pub open spec fn is_depth1(c: RowCtx, u: Seq<char>) -> bool {
    !c.msgs.contains_key(u) || c.msgs[u].reply_to_uuid is None
}

/// A known message that answers `d1`.
pub open spec fn answers(c: RowCtx, u: Seq<char>, d1: Seq<char>) -> bool {
    c.msgs.contains_key(u) && opt_view(c.msgs[u].reply_to_uuid) == Some(d1)
}

/// The replies among `rs` that answer `d1`, in order.
pub open spec fn answers_to(c: RowCtx, rs: Seq<Seq<char>>, d1: Seq<char>) -> Seq<Seq<char>>
    decreases rs.len(),
{
    if rs.len() == 0 {
        Seq::empty()
    } else if answers(c, rs.last(), d1) {
        answers_to(c, rs.drop_last(), d1).push(rs.last())
    } else {
        answers_to(c, rs.drop_last(), d1)
    }
}

/// A message is shown: it is known and its author is not blocked.
pub open spec fn shown(c: RowCtx, u: Seq<char>) -> bool {
    c.msgs.contains_key(u) && !c.blocked.contains(c.msgs[u].sender_uuid@)
}

/// The depth-2 rows of thread `root` for the replies `ds`.
pub open spec fn depth2_rows(c: RowCtx, root: Seq<char>, ds: Seq<Seq<char>>) -> Seq<RowView>
    decreases ds.len(),
{
    if ds.len() == 0 {
        Seq::empty()
    } else {
        let u = ds.last();
        let rest = depth2_rows(c, root, ds.drop_last());
        if shown(c, u) {
            let m = c.msgs[u];
            rest.push(message_row(c, u, m, 2, Some(root), opt_view(m.reply_to_uuid), None, false, Gutter::NoThread,
                !m.read, m.mentions_me))
        } else {
            rest
        }
    }
}

/// The rows of depth-1 reply `u` of thread `root` (whose replies are `all`):
/// its message row, then unless folded its own replies and reply input.
pub open spec fn depth1_block(c: RowCtx, root: Seq<char>, all: Seq<Seq<char>>, u: Seq<char>) -> Seq<RowView> {
    let m = c.msgs[u];
    let ds = answers_to(c, all, u);
    let folded = c.collapsed_subs.contains(u);
    let gutter = if folded { Gutter::Collapsed } else if ds.len() > 0 { Gutter::Expanded } else { Gutter::NoThread };
    let row = message_row(c, u, m, 1, Some(root), None, if folded { Some(ds.len() as usize) } else { None },
        typing_in_sub(c, u), gutter,
        !m.read || (folded && any_known(c.msgs, ds, |x: DisplayMessage| !x.read)),
        m.mentions_me || (folded && any_known(c.msgs, ds, |x: DisplayMessage| x.mentions_me)));
    seq![row] + (if folded { Seq::empty() } else { depth2_rows(c, root, ds) + footer(c, (2, u, root), true) })
}

/// The rows of the depth-1 replies among `rs` in thread `root`.
pub open spec fn depth1_rows(c: RowCtx, root: Seq<char>, all: Seq<Seq<char>>, rs: Seq<Seq<char>>) -> Seq<RowView>
    decreases rs.len(),
{
    if rs.len() == 0 {
        Seq::empty()
    } else {
        let u = rs.last();
        let rest = depth1_rows(c, root, all, rs.drop_last());
        if is_depth1(c, u) && shown(c, u) { rest + depth1_block(c, root, all, u) } else { rest }
    }
}

/// The rows of the thread rooted at top-level message `u`: a folded header
/// when it has replies and is not expanded; otherwise its message row and,
/// when expanded, its replies and thread input.
pub open spec fn thread_rows(c: RowCtx, u: Seq<char>) -> Seq<RowView> {
    if !shown(c, u) {
        Seq::empty()
    } else {
        let m = c.msgs[u];
        let replies = replies_of(c.threads, u);
        let open = c.expanded.contains(u);
        if replies.len() > 0 && !open {
            seq![RowView::CollapsedThread {
                uuid: u,
                author: resolve_name(c.names, m.sender_uuid@, m.sender_name@),
                author_color: color_of(c.me, c.members, m.sender_uuid@),
                preview: m.body@,
                reply_count: replies.len() as u32,
                timestamp: m.timestamp@,
                typing_active: typing_in_thread(c, u),
                is_unread: !m.read || any_known(c.msgs, replies, |x: DisplayMessage| !x.read),
                mentions_me: m.mentions_me || any_known(c.msgs, replies, |x: DisplayMessage| x.mentions_me),
            }]
        } else {
            seq![message_row(c, u, m, 0, None, opt_view(m.reply_to_uuid), None, false,
                if replies.len() > 0 { Gutter::Expanded } else { Gutter::NoThread }, !m.read, m.mentions_me)]
                + (if open { depth1_rows(c, u, replies, replies) + footer(c, (1, u, Seq::empty()), false) } else { Seq::empty() })
        }
    }
}

/// The rows of the top-level messages `ts`, in order.
pub open spec fn top_rows(c: RowCtx, ts: Seq<Seq<char>>) -> Seq<RowView>
    decreases ts.len(),
{
    if ts.len() == 0 { Seq::empty() } else { top_rows(c, ts.drop_last()) + thread_rows(c, ts.last()) }
}

/// All rows of a pane: every thread, then the main input.
pub open spec fn pane_rows(c: RowCtx, top: Seq<Seq<char>>) -> Seq<RowView> {
    top_rows(c, top) + footer(c, (0, Seq::empty(), Seq::empty()), false)
}

/// The context of `build`'s arguments.
pub open spec fn row_ctx(
    pane: &Pane,
    store: &TuiMessageStore,
    my_uuid: Seq<char>,
    member_order: Seq<String>,
    name_cache: Map<Seq<char>, Seq<char>>,
    highlight_ages: Map<Seq<char>, u64>,
    typing: Seq<(Option<String>, Option<String>)>,
    blocked: Set<Seq<char>>,
) -> RowCtx {
    RowCtx {
        expanded: pane.expanded_threads(),
        collapsed_subs: pane.collapsed_subthreads(),
        editing: pane.editing_key(),
        texts: pane.texts(),
        cursors: pane.cursors(),
        msgs: store.messages(),
        threads: store.thread_map(),
        me: my_uuid,
        members: uuid_seq(member_order),
        names: name_cache,
        ages: highlight_ages,
        typing: typing_view(typing),
        blocked,
    }
}

// ---------------------------------------------------------------------------
// Building the rows
// ---------------------------------------------------------------------------

/// The arguments of `build`, together.
struct RowInputs<'a> {
    pane: &'a Pane,
    store: &'a TuiMessageStore,
    my_uuid: &'a String,
    members: &'a [String],
    names: &'a NameCache,
    ages: &'a StrMap<u64>,
    typing: &'a [(Option<String>, Option<String>)],
    blocked: &'a UuidSet,
}

impl<'a> RowInputs<'a> {
    spec fn ctx(&self) -> RowCtx {
        row_ctx(self.pane, self.store, self.my_uuid@, self.members@, self.names@, self.ages@, self.typing@, self.blocked@)
    }
}

fn clone_opt(o: &Option<String>) -> (r: Option<String>)
    ensures
        opt_view(r) == opt_view(*o),
{
    match o {
        Some(s) => Some(s.clone()),
        None => None,
    }
}

fn clone_strings(v: &Vec<String>) -> (r: Vec<String>)
    ensures
        uuid_seq(r@) == uuid_seq(v@),
{
    let mut out: Vec<String> = Vec::new();
    let mut i: usize = 0;
    while i < v.len()
        invariant
            i <= v@.len(),
            out@.len() == i,
            uuid_seq(out@) == uuid_seq(v@).take(i as int),
        decreases v@.len() - i,
    {
        let c = v[i].clone();
        assert(c@ == v@[i as int]@);
        out.push(c);
        proof {
            assert(uuid_seq(out@) =~= uuid_seq(v@).take(i + 1));
        }
        i += 1;
    }
    proof {
        assert(uuid_seq(v@).take(v@.len() as int) =~= uuid_seq(v@));
    }
    out
}

fn opt_eq(a: &Option<String>, b: &Option<String>) -> (r: bool)
    ensures
        r == (opt_view(*a) == opt_view(*b)),
{
    match (a, b) {
        (Some(x), Some(y)) => *x == *y,
        (None, None) => true,
        _ => false,
    }
}

/// The name shown for an author.
fn display_name(names: &NameCache, sender: &String, fallback: &String) -> (r: String)
    ensures
        r@ == resolve_name(names@, sender@, fallback@),
{
    match names.get(sender) {
        Some(n) => n.clone(),
        None => fallback.clone(),
    }
}

/// The colour of an author's name.
fn author_color(my_uuid: &String, members: &[String], sender: &String) -> (r: AuthorColor)
    ensures
        r == color_of(my_uuid@, uuid_seq(members@), sender@),
{
    if *sender == *my_uuid {
        return AuthorColor::Accent;
    }
    let ghost s = uuid_seq(members@);
    let mut i: usize = 0;
    assert(s.skip(0) =~= s);
    while i < members.len()
        invariant
            i <= members@.len(),
            s == uuid_seq(members@),
            sender@ != my_uuid@,
            position_of(s, sender@) == i + position_of(s.skip(i as int), sender@),
        decreases members@.len() - i,
    {
        assert(s.skip(i as int)[0] == members@[i as int]@);
        if members[i] == *sender {
            assert(position_of(s.skip(i as int), sender@) == 0);
            return AuthorColor::Member(i);
        }
        assert(s.skip(i as int).drop_first() =~= s.skip(i + 1));
        i += 1;
    }
    assert(s.skip(i as int).len() == 0);
    AuthorColor::Member(0)
}

impl<'a> RowInputs<'a> {
    fn typing_in_thread(&self, root: &String) -> (r: bool)
        ensures
            r == typing_in_thread(self.ctx(), root@),
    {
        let ghost t = typing_view(self.typing@);
        let mut i: usize = 0;
        while i < self.typing.len()
            invariant
                i <= self.typing@.len(),
                t == typing_view(self.typing@),
                t == self.ctx().typing,
                forall|k: int| 0 <= k < i ==> (#[trigger] t[k]).0 != Some(root@),
            decreases self.typing@.len() - i,
        {
            assert(t[i as int].0 == opt_view(self.typing@[i as int].0));
            if let Some(x) = &self.typing[i].0 {
                if *x == *root {
                    return true;
                }
            }
            i += 1;
        }
        false
    }

    fn typing_in_sub(&self, uuid: &String) -> (r: bool)
        ensures
            r == typing_in_sub(self.ctx(), uuid@),
    {
        let ghost t = typing_view(self.typing@);
        let mut i: usize = 0;
        while i < self.typing.len()
            invariant
                i <= self.typing@.len(),
                t == typing_view(self.typing@),
                t == self.ctx().typing,
                forall|k: int| 0 <= k < i ==> (#[trigger] t[k]).1 != Some(uuid@),
            decreases self.typing@.len() - i,
        {
            assert(t[i as int].1 == opt_view(self.typing@[i as int].1));
            if let Some(x) = &self.typing[i].1 {
                if *x == *uuid {
                    return true;
                }
            }
            i += 1;
        }
        false
    }

    fn typing_at(&self, thread: &Option<String>, reply: &Option<String>) -> (r: bool)
        ensures
            r == typing_at(self.ctx(), (opt_view(*thread), opt_view(*reply))),
    {
        let ghost t = typing_view(self.typing@);
        let mut i: usize = 0;
        while i < self.typing.len()
            invariant
                i <= self.typing@.len(),
                t == typing_view(self.typing@),
                t == self.ctx().typing,
                forall|k: int| 0 <= k < i ==> t[k] != (opt_view(*thread), opt_view(*reply)),
            decreases self.typing@.len() - i,
        {
            assert(t[i as int] == (opt_view(self.typing@[i as int].0), opt_view(self.typing@[i as int].1)));
            if opt_eq(&self.typing[i].0, thread) && opt_eq(&self.typing[i].1, reply) {
                return true;
            }
            i += 1;
        }
        false
    }

    fn age(&self, u: &String) -> (r: Option<u64>)
        ensures
            r == age_of(self.ctx(), u@),
    {
        match self.ages.get(u) {
            Some(a) => Some(*a),
            None => None,
        }
    }

    fn is_shown(&self, u: &String) -> (r: bool)
        ensures
            r == shown(self.ctx(), u@),
    {
        match self.store.get(u) {
            Some(m) => !self.blocked.contains(&m.sender_uuid),
            None => false,
        }
    }

    fn push_message_row(
        &self,
        rows: &mut Vec<RenderRow>,
        u: &String,
        m: &DisplayMessage,
        indent: u8,
        thread_uuid: Option<String>,
        reply_to_uuid: Option<String>,
        collapsed_sub_count: Option<usize>,
        sub_typing_active: bool,
        gutter: Gutter,
        is_unread: bool,
        mentions_me: bool,
    )
        ensures
            rows_view(final(rows)@) == rows_view(old(rows)@).push(message_row(self.ctx(), u@, *m, indent,
                opt_view(thread_uuid), opt_view(reply_to_uuid), collapsed_sub_count, sub_typing_active, gutter,
                is_unread, mentions_me)),
    {
        let row = RenderRow::Message {
            uuid: u.clone(),
            author: display_name(self.names, &m.sender_uuid, &m.sender_name),
            author_color: author_color(self.my_uuid, self.members, &m.sender_uuid),
            body: m.body.clone(),
            timestamp: m.timestamp.clone(),
            indent,
            thread_uuid,
            reply_to_uuid,
            is_pending: m.pending,
            highlight_age: self.age(u),
            collapsed_sub_count,
            sub_typing_active,
            gutter,
            is_unread,
            mentions_me,
            mentioned_names: clone_strings(&m.mentioned_names),
        };
        rows.push(row);
        proof {
            assert(rows_view(rows@) =~= rows_view(old(rows)@).push(row@));
        }
    }

    /// The typing indicator (if any) and the input row of `target`.
    fn push_footer(&self, rows: &mut Vec<RenderRow>, target: InputTarget, only_when_active: bool)
        ensures
            rows_view(final(rows)@) == rows_view(old(rows)@) + footer(self.ctx(), target.key(), only_when_active),
    {
        let ghost c = self.ctx();
        let ghost k = target.key();
        let (thread_uuid, reply_to_uuid) = target.to_wire_uuids();
        assert((opt_view(thread_uuid), opt_view(reply_to_uuid)) == key_wire(k));
        let indent = target.indent();
        let typing = self.typing_at(&thread_uuid, &reply_to_uuid);
        let ghost before = rows_view(rows@);
        if typing {
            rows.push(RenderRow::TypingIndicator { indent });
            proof {
                assert(rows_view(rows@) =~= before.push(RowView::TypingIndicator { indent: k.0 as u8 }));
            }
        }
        let ghost mid = rows_view(rows@);
        let is_active = match self.pane.editing() {
            Some(t) => t.same(&target),
            None => false,
        };
        assert(is_active == (c.editing == Some(k)));
        if !(only_when_active && !is_active) {
            let content = self.pane.input_text(&target);
            let cursor = self.pane.input_cursor(&target);
            let row = RenderRow::Input { thread_uuid, reply_to_uuid, indent, is_active, content, cursor };
            assert(row@ == input_row(c, k));
            rows.push(row);
            proof {
                assert(rows_view(rows@) =~= mid.push(input_row(c, k)));
            }
        }
        proof {
            let f = footer(c, k, only_when_active);
            assert(rows_view(rows@) =~= before + f);
        }
    }

    /// The replies among `all` that answer `d1`.
    fn answers_to(&self, all: &Vec<String>, d1: &String) -> (r: Vec<String>)
        ensures
            uuid_seq(r@) == answers_to(self.ctx(), uuid_seq(all@), d1@),
    {
        let ghost c = self.ctx();
        let ghost s = uuid_seq(all@);
        let mut out: Vec<String> = Vec::new();
        let mut i: usize = 0;
        while i < all.len()
            invariant
                i <= all@.len(),
                s == uuid_seq(all@),
                c == self.ctx(),
                uuid_seq(out@) == answers_to(c, s.take(i as int), d1@),
            decreases all@.len() - i,
        {
            assert(s.take(i + 1).drop_last() =~= s.take(i as int));
            assert(s.take(i + 1).last() == all@[i as int]@);
            let answers = match self.store.get(&all[i]) {
                Some(m) => opt_eq(&m.reply_to_uuid, &Some(d1.clone())),
                None => false,
            };
            if answers {
                let ghost before = uuid_seq(out@);
                out.push(all[i].clone());
                proof {
                    assert(uuid_seq(out@) =~= before.push(s[i as int]));
                }
            }
            i += 1;
        }
        proof {
            assert(s.take(all@.len() as int) =~= s);
        }
        out
    }

    fn push_depth2_rows(&self, rows: &mut Vec<RenderRow>, root: &String, ds: &Vec<String>)
        ensures
            rows_view(final(rows)@) == rows_view(old(rows)@) + depth2_rows(self.ctx(), root@, uuid_seq(ds@)),
    {
        let ghost c = self.ctx();
        let ghost s = uuid_seq(ds@);
        let ghost start = rows_view(rows@);
        let mut i: usize = 0;
        while i < ds.len()
            invariant
                i <= ds@.len(),
                s == uuid_seq(ds@),
                c == self.ctx(),
                rows_view(rows@) == start + depth2_rows(c, root@, s.take(i as int)),
            decreases ds@.len() - i,
        {
            assert(s.take(i + 1).drop_last() =~= s.take(i as int));
            assert(s.take(i + 1).last() == ds@[i as int]@);
            let ghost before = rows_view(rows@);
            if self.is_shown(&ds[i]) {
                let m = self.store.get(&ds[i]).unwrap();
                self.push_message_row(rows, &ds[i], m, 2, Some(root.clone()), clone_opt(&m.reply_to_uuid), None,
                    false, Gutter::NoThread, !m.read, m.mentions_me);
                proof {
                    assert(start + depth2_rows(c, root@, s.take(i + 1)) =~= before.push(rows_view(rows@).last()));
                }
            }
            i += 1;
        }
        proof {
            assert(s.take(ds@.len() as int) =~= s);
        }
    }

    fn push_depth1_block(&self, rows: &mut Vec<RenderRow>, root: &String, all: &Vec<String>, u: &String, m: &DisplayMessage)
        requires
            self.ctx().msgs.contains_key(u@),
            *m == self.ctx().msgs[u@],
        ensures
            rows_view(final(rows)@) == rows_view(old(rows)@) + depth1_block(self.ctx(), root@, uuid_seq(all@), u@),
    {
        let ghost c = self.ctx();
        let ds = self.answers_to(all, u);
        let folded = self.pane.is_sub_collapsed(u);
        let gutter = if folded {
            Gutter::Collapsed
        } else if ds.len() > 0 {
            Gutter::Expanded
        } else {
            Gutter::NoThread
        };
        let (subs_unread, subs_mention) = if folded { self.store.unread_status(ds.as_slice()) } else { (false, false) };
        let count = if folded { Some(ds.len()) } else { None };
        let sub_typing = self.typing_in_sub(u);
        let ghost before = rows_view(rows@);
        self.push_message_row(rows, u, m, 1, Some(root.clone()), None, count, sub_typing, gutter,
            !m.read || subs_unread, m.mentions_me || subs_mention);
        let ghost after_row = rows_view(rows@);
        if !folded {
            self.push_depth2_rows(rows, root, &ds);
            let target = InputTarget::Reply(u.clone(), root.clone());
            self.push_footer(rows, target, true);
        }
        proof {
            let b = depth1_block(c, root@, uuid_seq(all@), u@);
            assert(after_row == before.push(b[0]));
            assert(rows_view(rows@) =~= before + b);
        }
    }

    fn push_depth1_rows(&self, rows: &mut Vec<RenderRow>, root: &String, all: &Vec<String>)
        ensures
            rows_view(final(rows)@) == rows_view(old(rows)@) + depth1_rows(self.ctx(), root@, uuid_seq(all@), uuid_seq(all@)),
    {
        let ghost c = self.ctx();
        let ghost s = uuid_seq(all@);
        let ghost start = rows_view(rows@);
        let mut i: usize = 0;
        while i < all.len()
            invariant
                i <= all@.len(),
                s == uuid_seq(all@),
                c == self.ctx(),
                rows_view(rows@) == start + depth1_rows(c, root@, s, s.take(i as int)),
            decreases all@.len() - i,
        {
            assert(s.take(i + 1).drop_last() =~= s.take(i as int));
            assert(s.take(i + 1).last() == all@[i as int]@);
            let ghost before = rows_view(rows@);
            match self.store.get(&all[i]) {
                Some(m) => {
                    if m.reply_to_uuid.is_none() && !self.blocked.contains(&m.sender_uuid) {
                        self.push_depth1_block(rows, root, all, &all[i], m);
                        proof {
                            assert(start + depth1_rows(c, root@, s, s.take(i + 1)) =~= before + depth1_block(c, root@, s, s[i as int]));
                        }
                    }
                },
                None => {},
            }
            i += 1;
        }
        proof {
            assert(s.take(all@.len() as int) =~= s);
        }
    }

    fn push_thread_rows(&self, rows: &mut Vec<RenderRow>, u: &String)
        ensures
            rows_view(final(rows)@) == rows_view(old(rows)@) + thread_rows(self.ctx(), u@),
    {
        let ghost c = self.ctx();
        let ghost before = rows_view(rows@);
        let m = match self.store.get(u) {
            Some(m) => m,
            None => {
                assert(rows_view(rows@) =~= before + thread_rows(c, u@));
                return;
            },
        };
        if self.blocked.contains(&m.sender_uuid) {
            assert(rows_view(rows@) =~= before + thread_rows(c, u@));
            return;
        }
        let replies = self.store.replies(u);
        let reply_count = replies.len();
        let open = self.pane.is_expanded(u);
        if reply_count > 0 && !open {
            let (replies_unread, replies_mention) = self.store.unread_status(replies.as_slice());
            let row = RenderRow::CollapsedThread {
                uuid: u.clone(),
                author: display_name(self.names, &m.sender_uuid, &m.sender_name),
                author_color: author_color(self.my_uuid, self.members, &m.sender_uuid),
                preview: m.body.clone(),
                reply_count: #[verifier::truncate] (reply_count as u32),
                timestamp: m.timestamp.clone(),
                typing_active: self.typing_in_thread(u),
                is_unread: !m.read || replies_unread,
                mentions_me: m.mentions_me || replies_mention,
            };
            rows.push(row);
            proof {
                assert(rows_view(rows@) =~= before + thread_rows(c, u@));
            }
        } else {
            let gutter = if reply_count > 0 { Gutter::Expanded } else { Gutter::NoThread };
            self.push_message_row(rows, u, m, 0, None, clone_opt(&m.reply_to_uuid), None, false, gutter,
                !m.read, m.mentions_me);
            let ghost after_row = rows_view(rows@);
            if open {
                self.push_depth1_rows(rows, u, &replies);
                self.push_footer(rows, InputTarget::Thread(u.clone()), false);
            }
            proof {
                let t = thread_rows(c, u@);
                assert(after_row == before.push(t[0]));
                assert(rows_view(rows@) =~= before + t);
            }
        }
    }
}

/// Build the rows a pane shows: for each top-level message not written by a
/// blocked user, either a folded thread header or the message (with, when
/// its thread is expanded, the depth-1 replies, their depth-2 replies unless
/// folded, and the reply and thread inputs), then the main chat input.
/// `member_order` lists member uuids in join order (it picks name colours);
/// `highlight_ages` gives, per highlighted message, the milliseconds since it
/// was highlighted.
pub fn build(
    pane: &Pane,
    msg_store: &TuiMessageStore,
    my_uuid: &String,
    member_order: &[String],
    name_cache: &NameCache,
    highlight_ages: &StrMap<u64>,
    typing_indicators: &[(Option<String>, Option<String>)],
    blocked_uuids: &UuidSet,
) -> (rows: Vec<RenderRow>)
    ensures
        rows_view(rows@) == pane_rows(row_ctx(pane, msg_store, my_uuid@, member_order@, name_cache@,
            highlight_ages@, typing_indicators@, blocked_uuids@), msg_store.top()),
{
    let inp = RowInputs {
        pane,
        store: msg_store,
        my_uuid,
        members: member_order,
        names: name_cache,
        ages: highlight_ages,
        typing: typing_indicators,
        blocked: blocked_uuids,
    };
    let ghost c = inp.ctx();
    let mut rows: Vec<RenderRow> = Vec::new();
    let top = msg_store.top_level();
    let ghost s = uuid_seq(top@);
    let mut i: usize = 0;
    proof {
        assert(rows_view(rows@) =~= top_rows(c, s.take(0)));
    }
    while i < top.len()
        invariant
            i <= top@.len(),
            s == uuid_seq(top@),
            c == inp.ctx(),
            rows_view(rows@) == top_rows(c, s.take(i as int)),
        decreases top@.len() - i,
    {
        assert(s.take(i + 1).drop_last() =~= s.take(i as int));
        assert(s.take(i + 1).last() == top@[i as int]@);
        inp.push_thread_rows(&mut rows, &top[i]);
        i += 1;
    }
    proof {
        assert(s.take(top@.len() as int) =~= s);
    }
    inp.push_footer(&mut rows, InputTarget::MainChat, false);
    rows
}

/// The depth a row is drawn at: a folded thread header stands at the top.
pub open spec fn row_depth(r: RowView) -> int {
    match r {
        RowView::Message { indent, .. } => indent as int,
        RowView::CollapsedThread { .. } => 0,
        RowView::Input { indent, .. } => indent as int,
        RowView::TypingIndicator { indent } => indent as int,
    }
}

/// No row of `rows` stands deeper than a reply to a reply.
pub open spec fn within_depth_two(rows: Seq<RowView>) -> bool {
    forall|i: int| 0 <= i < rows.len() ==> row_depth(#[trigger] rows[i]) <= 2
}

proof fn lemma_depth_concat(a: Seq<RowView>, b: Seq<RowView>)
    requires
        within_depth_two(a),
        within_depth_two(b),
    ensures
        within_depth_two(a + b),
{
    assert forall|i: int| 0 <= i < (a + b).len() implies row_depth(#[trigger] (a + b)[i]) <= 2 by {
        if i >= a.len() {
            assert((a + b)[i] == b[i - a.len()]);
        }
    }
}

proof fn lemma_footer_depth(c: RowCtx, k: (int, Seq<char>, Seq<char>), only_when_active: bool)
    requires
        0 <= k.0 <= 2,
    ensures
        within_depth_two(footer(c, k, only_when_active)),
{
    let t: Seq<RowView> = if typing_at(c, key_wire(k)) { seq![RowView::TypingIndicator { indent: k.0 as u8 }] } else { Seq::empty() };
    let n: Seq<RowView> = if only_when_active && c.editing != Some(k) { Seq::empty() } else { seq![input_row(c, k)] };
    assert(within_depth_two(t));
    assert(within_depth_two(n));
    lemma_depth_concat(t, n);
}

proof fn lemma_depth2_rows_depth(c: RowCtx, root: Seq<char>, ds: Seq<Seq<char>>)
    ensures
        within_depth_two(depth2_rows(c, root, ds)),
    decreases ds.len(),
{
    if ds.len() > 0 {
        lemma_depth2_rows_depth(c, root, ds.drop_last());
        let rest = depth2_rows(c, root, ds.drop_last());
        let u = ds.last();
        if shown(c, u) {
            let m = c.msgs[u];
            let row = message_row(c, u, m, 2, Some(root), opt_view(m.reply_to_uuid), None, false, Gutter::NoThread,
                !m.read, m.mentions_me);
            assert(row_depth(row) == 2);
            assert forall|i: int| 0 <= i < rest.push(row).len() implies row_depth(#[trigger] rest.push(row)[i]) <= 2 by {
                if i < rest.len() {
                    assert(rest.push(row)[i] == rest[i]);
                }
            }
        }
    }
}

proof fn lemma_depth1_rows_depth(c: RowCtx, root: Seq<char>, all: Seq<Seq<char>>, rs: Seq<Seq<char>>)
    ensures
        within_depth_two(depth1_rows(c, root, all, rs)),
    decreases rs.len(),
{
    if rs.len() > 0 {
        lemma_depth1_rows_depth(c, root, all, rs.drop_last());
        let u = rs.last();
        if is_depth1(c, u) && shown(c, u) {
            let ds = answers_to(c, all, u);
            let folded = c.collapsed_subs.contains(u);
            let head = seq![depth1_block(c, root, all, u)[0]];
            let tail: Seq<RowView> = if folded { Seq::empty() } else { depth2_rows(c, root, ds) + footer(c, (2, u, root), true) };
            lemma_depth2_rows_depth(c, root, ds);
            lemma_footer_depth(c, (2, u, root), true);
            lemma_depth_concat(depth2_rows(c, root, ds), footer(c, (2, u, root), true));
            assert(depth1_block(c, root, all, u) =~= head + tail);
            assert(within_depth_two(head));
            lemma_depth_concat(head, tail);
            lemma_depth_concat(depth1_rows(c, root, all, rs.drop_last()), depth1_block(c, root, all, u));
        }
    }
}

proof fn lemma_thread_rows_depth(c: RowCtx, u: Seq<char>)
    ensures
        within_depth_two(thread_rows(c, u)),
{
    if shown(c, u) {
        let m = c.msgs[u];
        let replies = replies_of(c.threads, u);
        let open = c.expanded.contains(u);
        if !(replies.len() > 0 && !open) {
            let head = seq![message_row(c, u, m, 0, None, opt_view(m.reply_to_uuid), None, false,
                if replies.len() > 0 { Gutter::Expanded } else { Gutter::NoThread }, !m.read, m.mentions_me)];
            assert(within_depth_two(head));
            lemma_depth1_rows_depth(c, u, replies, replies);
            lemma_footer_depth(c, (1, u, Seq::empty()), false);
            lemma_depth_concat(depth1_rows(c, u, replies, replies), footer(c, (1, u, Seq::empty()), false));
            let tail: Seq<RowView> = if open {
                depth1_rows(c, u, replies, replies) + footer(c, (1, u, Seq::empty()), false)
            } else {
                Seq::empty()
            };
            lemma_depth_concat(head, tail);
        }
    }
}

proof fn lemma_top_rows_depth(c: RowCtx, ts: Seq<Seq<char>>)
    ensures
        within_depth_two(top_rows(c, ts)),
    decreases ts.len(),
{
    if ts.len() > 0 {
        lemma_top_rows_depth(c, ts.drop_last());
        lemma_thread_rows_depth(c, ts.last());
        lemma_depth_concat(top_rows(c, ts.drop_last()), thread_rows(c, ts.last()));
    }
}

/// Law: threads nest at most two levels deep. Every row a pane shows (a
/// message, a folded thread, an input line or a typing indicator) stands at
/// depth 0, 1 or 2: a message, a reply, or a reply to a reply.
pub proof fn law_rows_at_most_depth_two(c: RowCtx, top: Seq<Seq<char>>)
    ensures
        within_depth_two(pane_rows(c, top)),
{
    lemma_top_rows_depth(c, top);
    lemma_footer_depth(c, (0, Seq::empty(), Seq::empty()), false);
    lemma_depth_concat(top_rows(c, top), footer(c, (0, Seq::empty(), Seq::empty()), false));
}

/// Some reply of the thread rooted at `root` is known and unread.
pub open spec fn has_unread_reply(c: RowCtx, root: Seq<char>) -> bool {
    exists|k: int| 0 <= k < replies_of(c.threads, root).len() && {
        let r = #[trigger] replies_of(c.threads, root)[k];
        c.msgs.contains_key(r) && !c.msgs[r].read
    }
}

/// Some reply of the thread rooted at `root` is known and mentions the user.
pub open spec fn has_mentioning_reply(c: RowCtx, root: Seq<char>) -> bool {
    exists|k: int| 0 <= k < replies_of(c.threads, root).len() && {
        let r = #[trigger] replies_of(c.threads, root)[k];
        c.msgs.contains_key(r) && c.msgs[r].mentions_me
    }
}

/// A folded thread header stands for a known root, is unread exactly when
/// the root or one of its known replies is unread, and mentions the user
/// exactly when the root or one of its known replies does; other rows pass.
pub open spec fn header_flags_right(c: RowCtx, r: RowView) -> bool {
    match r {
        RowView::CollapsedThread { uuid, is_unread, mentions_me, .. } => {
            &&& c.msgs.contains_key(uuid)
            &&& is_unread == (!c.msgs[uuid].read || has_unread_reply(c, uuid))
            &&& mentions_me == (c.msgs[uuid].mentions_me || has_mentioning_reply(c, uuid))
        },
        _ => true,
    }
}

/// Every row of `rows` passes `header_flags_right`.
pub open spec fn headers_right(c: RowCtx, rows: Seq<RowView>) -> bool {
    forall|j: int| 0 <= j < rows.len() ==> header_flags_right(c, #[trigger] rows[j])
}

proof fn lemma_headers_concat(c: RowCtx, a: Seq<RowView>, b: Seq<RowView>)
    requires
        headers_right(c, a),
        headers_right(c, b),
    ensures
        headers_right(c, a + b),
{
    assert forall|j: int| 0 <= j < (a + b).len() implies header_flags_right(c, #[trigger] (a + b)[j]) by {
        if j >= a.len() {
            assert((a + b)[j] == b[j - a.len()]);
        } else {
            assert((a + b)[j] == a[j]);
        }
    }
}

proof fn lemma_footer_headers(c: RowCtx, k: (int, Seq<char>, Seq<char>), only_when_active: bool)
    ensures
        headers_right(c, footer(c, k, only_when_active)),
{
    let t: Seq<RowView> = if typing_at(c, key_wire(k)) { seq![RowView::TypingIndicator { indent: k.0 as u8 }] } else { Seq::empty() };
    let n: Seq<RowView> = if only_when_active && c.editing != Some(k) { Seq::empty() } else { seq![input_row(c, k)] };
    assert(headers_right(c, t));
    assert(headers_right(c, n));
    lemma_headers_concat(c, t, n);
}

proof fn lemma_depth2_headers(c: RowCtx, root: Seq<char>, ds: Seq<Seq<char>>)
    ensures
        headers_right(c, depth2_rows(c, root, ds)),
    decreases ds.len(),
{
    if ds.len() > 0 {
        lemma_depth2_headers(c, root, ds.drop_last());
        let rest = depth2_rows(c, root, ds.drop_last());
        let u = ds.last();
        if shown(c, u) {
            let m = c.msgs[u];
            let row = message_row(c, u, m, 2, Some(root), opt_view(m.reply_to_uuid), None, false, Gutter::NoThread,
                !m.read, m.mentions_me);
            assert(headers_right(c, seq![row]));
            lemma_headers_concat(c, rest, seq![row]);
            assert(rest.push(row) =~= rest + seq![row]);
        }
    }
}

proof fn lemma_depth1_headers(c: RowCtx, root: Seq<char>, all: Seq<Seq<char>>, rs: Seq<Seq<char>>)
    ensures
        headers_right(c, depth1_rows(c, root, all, rs)),
    decreases rs.len(),
{
    if rs.len() > 0 {
        lemma_depth1_headers(c, root, all, rs.drop_last());
        let u = rs.last();
        if is_depth1(c, u) && shown(c, u) {
            let ds = answers_to(c, all, u);
            let folded = c.collapsed_subs.contains(u);
            let blk = depth1_block(c, root, all, u);
            let head = seq![blk[0]];
            let tail: Seq<RowView> = if folded { Seq::empty() } else { depth2_rows(c, root, ds) + footer(c, (2, u, root), true) };
            lemma_depth2_headers(c, root, ds);
            lemma_footer_headers(c, (2, u, root), true);
            lemma_headers_concat(c, depth2_rows(c, root, ds), footer(c, (2, u, root), true));
            assert(blk =~= head + tail);
            assert(headers_right(c, head));
            lemma_headers_concat(c, head, tail);
            lemma_headers_concat(c, depth1_rows(c, root, all, rs.drop_last()), blk);
        }
    }
}

proof fn lemma_thread_headers(c: RowCtx, u: Seq<char>)
    ensures
        headers_right(c, thread_rows(c, u)),
{
    if shown(c, u) {
        let m = c.msgs[u];
        let replies = replies_of(c.threads, u);
        let open = c.expanded.contains(u);
        if replies.len() > 0 && !open {
            let rows = thread_rows(c, u);
            assert(rows.len() == 1);
            assert(any_known(c.msgs, replies, |x: DisplayMessage| !x.read) == has_unread_reply(c, u)) by {
                if any_known(c.msgs, replies, |x: DisplayMessage| !x.read) {
                    let i = choose|i: int| 0 <= i < replies.len() && c.msgs.contains_key(#[trigger] replies[i])
                        && (|x: DisplayMessage| !x.read)(c.msgs[replies[i]]);
                    assert(c.msgs.contains_key(replies_of(c.threads, u)[i]) && !c.msgs[replies_of(c.threads, u)[i]].read);
                }
                if has_unread_reply(c, u) {
                    let k = choose|k: int| 0 <= k < replies_of(c.threads, u).len() && {
                        let r = #[trigger] replies_of(c.threads, u)[k];
                        c.msgs.contains_key(r) && !c.msgs[r].read
                    };
                    assert(c.msgs.contains_key(replies[k]) && (|x: DisplayMessage| !x.read)(c.msgs[replies[k]]));
                }
            }
            assert(any_known(c.msgs, replies, |x: DisplayMessage| x.mentions_me) == has_mentioning_reply(c, u)) by {
                if any_known(c.msgs, replies, |x: DisplayMessage| x.mentions_me) {
                    let i = choose|i: int| 0 <= i < replies.len() && c.msgs.contains_key(#[trigger] replies[i])
                        && (|x: DisplayMessage| x.mentions_me)(c.msgs[replies[i]]);
                    assert(c.msgs.contains_key(replies_of(c.threads, u)[i]) && c.msgs[replies_of(c.threads, u)[i]].mentions_me);
                }
                if has_mentioning_reply(c, u) {
                    let k = choose|k: int| 0 <= k < replies_of(c.threads, u).len() && {
                        let r = #[trigger] replies_of(c.threads, u)[k];
                        c.msgs.contains_key(r) && c.msgs[r].mentions_me
                    };
                    assert(c.msgs.contains_key(replies[k]) && (|x: DisplayMessage| x.mentions_me)(c.msgs[replies[k]]));
                }
            }
            assert(header_flags_right(c, rows[0]));
        } else {
            let head = seq![message_row(c, u, m, 0, None, opt_view(m.reply_to_uuid), None, false,
                if replies.len() > 0 { Gutter::Expanded } else { Gutter::NoThread }, !m.read, m.mentions_me)];
            assert(headers_right(c, head));
            lemma_depth1_headers(c, u, replies, replies);
            lemma_footer_headers(c, (1, u, Seq::empty()), false);
            lemma_headers_concat(c, depth1_rows(c, u, replies, replies), footer(c, (1, u, Seq::empty()), false));
            let tail: Seq<RowView> = if open {
                depth1_rows(c, u, replies, replies) + footer(c, (1, u, Seq::empty()), false)
            } else {
                Seq::empty()
            };
            lemma_headers_concat(c, head, tail);
        }
    }
}

proof fn lemma_top_headers(c: RowCtx, ts: Seq<Seq<char>>)
    ensures
        headers_right(c, top_rows(c, ts)),
    decreases ts.len(),
{
    if ts.len() > 0 {
        lemma_top_headers(c, ts.drop_last());
        lemma_thread_headers(c, ts.last());
        lemma_headers_concat(c, top_rows(c, ts.drop_last()), thread_rows(c, ts.last()));
    }
}

/// Law: in every pane's rows, a folded thread header is marked unread
/// exactly when its root message or any known reply in its thread is unread,
/// and marked as mentioning the user exactly when the root or any known reply
/// mentions the user; it always stands for a known message.
pub proof fn law_folded_thread_flags(c: RowCtx, top: Seq<Seq<char>>)
    ensures
        forall|j: int| 0 <= j < pane_rows(c, top).len() ==> match #[trigger] pane_rows(c, top)[j] {
            RowView::CollapsedThread { uuid, is_unread, mentions_me, .. } => {
                &&& c.msgs.contains_key(uuid)
                &&& is_unread == (!c.msgs[uuid].read || exists|k: int| 0 <= k < replies_of(c.threads, uuid).len()
                    && c.msgs.contains_key(#[trigger] replies_of(c.threads, uuid)[k])
                    && !c.msgs[replies_of(c.threads, uuid)[k]].read)
                &&& mentions_me == (c.msgs[uuid].mentions_me || exists|k: int| 0 <= k < replies_of(c.threads, uuid).len()
                    && c.msgs.contains_key(#[trigger] replies_of(c.threads, uuid)[k])
                    && c.msgs[replies_of(c.threads, uuid)[k]].mentions_me)
            },
            _ => true,
        },
{
    lemma_top_headers(c, top);
    lemma_footer_headers(c, (0, Seq::empty(), Seq::empty()), false);
    lemma_headers_concat(c, top_rows(c, top), footer(c, (0, Seq::empty(), Seq::empty()), false));
    let rows = pane_rows(c, top);
    assert forall|j: int| 0 <= j < rows.len() implies match #[trigger] rows[j] {
        RowView::CollapsedThread { uuid, is_unread, mentions_me, .. } => {
            &&& c.msgs.contains_key(uuid)
            &&& is_unread == (!c.msgs[uuid].read || exists|k: int| 0 <= k < replies_of(c.threads, uuid).len()
                && c.msgs.contains_key(#[trigger] replies_of(c.threads, uuid)[k])
                && !c.msgs[replies_of(c.threads, uuid)[k]].read)
            &&& mentions_me == (c.msgs[uuid].mentions_me || exists|k: int| 0 <= k < replies_of(c.threads, uuid).len()
                && c.msgs.contains_key(#[trigger] replies_of(c.threads, uuid)[k])
                && c.msgs[replies_of(c.threads, uuid)[k]].mentions_me)
        },
        _ => true,
    } by {
        assert(header_flags_right(c, rows[j]));
    }
}

} // verus!
