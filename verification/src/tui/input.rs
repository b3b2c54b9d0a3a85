//! What each key does: the key handling of the chat picker, the message
//! list, the input being edited and the command bar, as commands that the
//! event loop carries out, and the member list of the mention popup.

use vstd::prelude::*;

use crate::text::{chars_of, lowercase_of, to_lowercase};
use super::app::Member;

verus! {

/// A key, as the terminal reports it.
#[derive(Debug, Clone, Copy, PartialEq, Eq)]
pub enum KeyCode {
    Char(char),
    Enter,
    Esc,
    Up,
    Down,
    Left,
    Right,
    Tab,
    Backspace,
    End,
    /// Any other key.
    Other,
}

/// The modifier keys held with a key; `other` covers super, hyper and meta.
#[derive(Debug, Clone, Copy, PartialEq, Eq)]
pub struct Modifiers {
    pub shift: bool,
    pub ctrl: bool,
    pub alt: bool,
    pub other: bool,
}

/// A key press.
#[derive(Debug, Clone, Copy, PartialEq, Eq)]
pub struct KeyInput {
    pub code: KeyCode,
    pub mods: Modifiers,
}

/// A terminal event.
#[derive(Debug, Clone, Copy, PartialEq, Eq)]
pub enum InputEvent {
    Key(KeyInput),
    /// A resize, a mouse or focus event.
    Other,
}

/// What the event loop does after an event.
#[derive(Debug, Clone, Copy, PartialEq, Eq)]
pub enum Action {
    Continue,
    Quit,
}

/// No modifier held.
pub open spec fn no_mods(m: Modifiers) -> bool {
    !m.shift && !m.ctrl && !m.alt && !m.other
}

/// Exactly control held.
pub open spec fn only_ctrl(m: Modifiers) -> bool {
    !m.shift && m.ctrl && !m.alt && !m.other
}

/// Exactly alt held.
pub open spec fn only_alt(m: Modifiers) -> bool {
    !m.shift && !m.ctrl && m.alt && !m.other
}

/// Exactly shift held.
pub open spec fn only_shift(m: Modifiers) -> bool {
    m.shift && !m.ctrl && !m.alt && !m.other
}

fn is_none(m: Modifiers) -> (r: bool)
    ensures
        r == no_mods(m),
{
    !m.shift && !m.ctrl && !m.alt && !m.other
}

fn is_ctrl(m: Modifiers) -> (r: bool)
    ensures
        r == only_ctrl(m),
{
    !m.shift && m.ctrl && !m.alt && !m.other
}

fn is_alt(m: Modifiers) -> (r: bool)
    ensures
        r == only_alt(m),
{
    !m.shift && !m.ctrl && m.alt && !m.other
}

fn is_shift(m: Modifiers) -> (r: bool)
    ensures
        r == only_shift(m),
{
    m.shift && !m.ctrl && !m.alt && !m.other
}

/// Who gets an event: the command bar when open, else an open modal, else
/// the screen of the current mode.
#[derive(Debug, Clone, Copy, PartialEq, Eq)]
pub enum Route {
    CommandBar,
    Modal,
    Picker,
    Chat,
    Editing,
}

/// Route an event from what is open: the command bar intercepts all input,
/// then a modal; in the chat screen an input being edited takes the keys.
pub fn route(command_bar_open: bool, modal_open: bool, in_chat: bool, editing: bool) -> (r: Route)
    ensures
        r == (if command_bar_open {
            Route::CommandBar
        } else if modal_open {
            Route::Modal
        } else if !in_chat {
            Route::Picker
        } else if editing {
            Route::Editing
        } else {
            Route::Chat
        }),
{
    if command_bar_open {
        Route::CommandBar
    } else if modal_open {
        Route::Modal
    } else if !in_chat {
        Route::Picker
    } else if editing {
        Route::Editing
    } else {
        Route::Chat
    }
}

/// What a key does in the chat picker.
#[derive(Debug, Clone, Copy, PartialEq, Eq)]
pub enum PickerCommand {
    Quit,
    SelectPrev,
    SelectNext,
    JoinSelected,
    AcceptFirstInvitation,
    OpenCommandBar,
    Nothing,
}

/// The picker's key table: ctrl-c quits, arrows move, Enter joins, `i`
/// accepts the first invitation, `/` opens the command bar.
pub open spec fn picker_table(ev: InputEvent) -> PickerCommand {
    match ev {
        InputEvent::Key(k) => match k.code {
            KeyCode::Char(c) => if only_ctrl(k.mods) && c == 'c' {
                PickerCommand::Quit
            } else if no_mods(k.mods) && c == 'i' {
                PickerCommand::AcceptFirstInvitation
            } else if no_mods(k.mods) && c == '/' {
                PickerCommand::OpenCommandBar
            } else {
                PickerCommand::Nothing
            },
            KeyCode::Up => if no_mods(k.mods) { PickerCommand::SelectPrev } else { PickerCommand::Nothing },
            KeyCode::Down => if no_mods(k.mods) { PickerCommand::SelectNext } else { PickerCommand::Nothing },
            KeyCode::Enter => if no_mods(k.mods) { PickerCommand::JoinSelected } else { PickerCommand::Nothing },
            _ => PickerCommand::Nothing,
        },
        InputEvent::Other => PickerCommand::Nothing,
    }
}

/// What a key does in the chat picker.
pub fn picker_command(ev: InputEvent) -> (r: PickerCommand)
    ensures
        r == picker_table(ev),
{
    match ev {
        InputEvent::Key(k) => match k.code {
            KeyCode::Char(c) => if is_ctrl(k.mods) && c == 'c' {
                PickerCommand::Quit
            } else if is_none(k.mods) && c == 'i' {
                PickerCommand::AcceptFirstInvitation
            } else if is_none(k.mods) && c == '/' {
                PickerCommand::OpenCommandBar
            } else {
                PickerCommand::Nothing
            },
            KeyCode::Up => if is_none(k.mods) { PickerCommand::SelectPrev } else { PickerCommand::Nothing },
            KeyCode::Down => if is_none(k.mods) { PickerCommand::SelectNext } else { PickerCommand::Nothing },
            KeyCode::Enter => if is_none(k.mods) { PickerCommand::JoinSelected } else { PickerCommand::Nothing },
            _ => PickerCommand::Nothing,
        },
        InputEvent::Other => PickerCommand::Nothing,
    }
}

/// What a key does in the message list (no input being edited).
#[derive(Debug, Clone, Copy, PartialEq, Eq)]
pub enum ChatCommand {
    Quit,
    /// Move up, loading older messages first when at the top.
    ScrollUp,
    ScrollDown,
    ExpandThread,
    CollapseThread,
    Activate,
    SplitVertical,
    SplitHorizontal,
    ClosePane,
    FocusPrevPane,
    FocusNextPane,
    OpenCommandBar,
    JumpToLatest,
    CloseModal,
    Nothing,
}

/// The message list's key table.
pub open spec fn chat_table(ev: InputEvent) -> ChatCommand {
    match ev {
        InputEvent::Key(k) => match k.code {
            KeyCode::Char(c) => if only_ctrl(k.mods) && c == 'c' {
                ChatCommand::Quit
            } else if only_alt(k.mods) && c == '\\' {
                ChatCommand::SplitVertical
            } else if only_alt(k.mods) && c == '-' {
                ChatCommand::SplitHorizontal
            } else if only_alt(k.mods) && c == 'w' {
                ChatCommand::ClosePane
            } else if no_mods(k.mods) && c == '/' {
                ChatCommand::OpenCommandBar
            } else {
                ChatCommand::Nothing
            },
            KeyCode::Up => if no_mods(k.mods) { ChatCommand::ScrollUp } else { ChatCommand::Nothing },
            KeyCode::Down => if no_mods(k.mods) { ChatCommand::ScrollDown } else { ChatCommand::Nothing },
            KeyCode::Right => if no_mods(k.mods) {
                ChatCommand::ExpandThread
            } else if only_alt(k.mods) {
                ChatCommand::FocusNextPane
            } else {
                ChatCommand::Nothing
            },
            KeyCode::Left => if no_mods(k.mods) {
                ChatCommand::CollapseThread
            } else if only_alt(k.mods) {
                ChatCommand::FocusPrevPane
            } else {
                ChatCommand::Nothing
            },
            KeyCode::Enter => if no_mods(k.mods) { ChatCommand::Activate } else { ChatCommand::Nothing },
            KeyCode::End => if no_mods(k.mods) { ChatCommand::JumpToLatest } else { ChatCommand::Nothing },
            KeyCode::Esc => if no_mods(k.mods) { ChatCommand::CloseModal } else { ChatCommand::Nothing },
            _ => ChatCommand::Nothing,
        },
        InputEvent::Other => ChatCommand::Nothing,
    }
}

/// What a key does in the message list.
pub fn chat_command(ev: InputEvent) -> (r: ChatCommand)
    ensures
        r == chat_table(ev),
{
    match ev {
        InputEvent::Key(k) => match k.code {
            KeyCode::Char(c) => if is_ctrl(k.mods) && c == 'c' {
                ChatCommand::Quit
            } else if is_alt(k.mods) && c == '\\' {
                ChatCommand::SplitVertical
            } else if is_alt(k.mods) && c == '-' {
                ChatCommand::SplitHorizontal
            } else if is_alt(k.mods) && c == 'w' {
                ChatCommand::ClosePane
            } else if is_none(k.mods) && c == '/' {
                ChatCommand::OpenCommandBar
            } else {
                ChatCommand::Nothing
            },
            KeyCode::Up => if is_none(k.mods) { ChatCommand::ScrollUp } else { ChatCommand::Nothing },
            KeyCode::Down => if is_none(k.mods) { ChatCommand::ScrollDown } else { ChatCommand::Nothing },
            KeyCode::Right => if is_none(k.mods) {
                ChatCommand::ExpandThread
            } else if is_alt(k.mods) {
                ChatCommand::FocusNextPane
            } else {
                ChatCommand::Nothing
            },
            KeyCode::Left => if is_none(k.mods) {
                ChatCommand::CollapseThread
            } else if is_alt(k.mods) {
                ChatCommand::FocusPrevPane
            } else {
                ChatCommand::Nothing
            },
            KeyCode::Enter => if is_none(k.mods) { ChatCommand::Activate } else { ChatCommand::Nothing },
            KeyCode::End => if is_none(k.mods) { ChatCommand::JumpToLatest } else { ChatCommand::Nothing },
            KeyCode::Esc => if is_none(k.mods) { ChatCommand::CloseModal } else { ChatCommand::Nothing },
            _ => ChatCommand::Nothing,
        },
        InputEvent::Other => ChatCommand::Nothing,
    }
}

/// What a key does while an input is being edited.
#[derive(Debug, Clone, Copy, PartialEq, Eq)]
pub enum EditCommand {
    Quit,
    /// Move the mention popup's selection up (not past the top).
    PopupUp,
    /// Move the mention popup's selection down (not past the end).
    PopupDown,
    CompleteMention,
    ClosePopup,
    Send,
    /// Close the popup and stop editing.
    StopEditing,
    MoveSelectionUp,
    MoveSelectionDown,
    /// Close the popup, stop editing and jump to the newest row.
    JumpToLatest,
    CursorToStart,
    CursorToEnd,
    WordBack,
    WordForward,
    DeleteWordBack,
    DeleteForward,
    DeleteWordForward,
    /// Type the character (then keep the mention popup in step).
    Type(char),
    /// Delete back (then keep the mention popup in step).
    Backspace,
    CursorLeft,
    CursorRight,
    Nothing,
}

/// The editing key table. While the mention popup is open, Up, Down, Enter,
/// Tab and Esc work the popup.
pub open spec fn editing_table(ev: InputEvent, popup_open: bool) -> EditCommand {
    match ev {
        InputEvent::Key(k) => match k.code {
            KeyCode::Char(c) => if c == 'c' && only_ctrl(k.mods) {
                EditCommand::Quit
            } else if c == 'a' && only_ctrl(k.mods) {
                EditCommand::CursorToStart
            } else if c == 'e' && only_ctrl(k.mods) {
                EditCommand::CursorToEnd
            } else if c == 'b' && only_alt(k.mods) {
                EditCommand::WordBack
            } else if c == 'f' && only_alt(k.mods) {
                EditCommand::WordForward
            } else if c == 'd' && only_ctrl(k.mods) {
                EditCommand::DeleteForward
            } else if c == 'd' && only_alt(k.mods) {
                EditCommand::DeleteWordForward
            } else if no_mods(k.mods) || only_shift(k.mods) {
                EditCommand::Type(c)
            } else {
                EditCommand::Nothing
            },
            KeyCode::Up => if popup_open { EditCommand::PopupUp } else { EditCommand::MoveSelectionUp },
            KeyCode::Down => if popup_open { EditCommand::PopupDown } else { EditCommand::MoveSelectionDown },
            KeyCode::Enter => if popup_open { EditCommand::CompleteMention } else { EditCommand::Send },
            KeyCode::Tab => if popup_open { EditCommand::CompleteMention } else { EditCommand::Nothing },
            KeyCode::Esc => if popup_open { EditCommand::ClosePopup } else { EditCommand::StopEditing },
            KeyCode::End => EditCommand::JumpToLatest,
            KeyCode::Backspace => if only_alt(k.mods) { EditCommand::DeleteWordBack } else { EditCommand::Backspace },
            KeyCode::Left => EditCommand::CursorLeft,
            KeyCode::Right => EditCommand::CursorRight,
            KeyCode::Other => EditCommand::Nothing,
        },
        InputEvent::Other => EditCommand::Nothing,
    }
}

/// What a key does while an input is being edited.
pub fn editing_command(ev: InputEvent, popup_open: bool) -> (r: EditCommand)
    ensures
        r == editing_table(ev, popup_open),
{
    match ev {
        InputEvent::Key(k) => match k.code {
            KeyCode::Char(c) => if c == 'c' && is_ctrl(k.mods) {
                EditCommand::Quit
            } else if c == 'a' && is_ctrl(k.mods) {
                EditCommand::CursorToStart
            } else if c == 'e' && is_ctrl(k.mods) {
                EditCommand::CursorToEnd
            } else if c == 'b' && is_alt(k.mods) {
                EditCommand::WordBack
            } else if c == 'f' && is_alt(k.mods) {
                EditCommand::WordForward
            } else if c == 'd' && is_ctrl(k.mods) {
                EditCommand::DeleteForward
            } else if c == 'd' && is_alt(k.mods) {
                EditCommand::DeleteWordForward
            } else if is_none(k.mods) || is_shift(k.mods) {
                EditCommand::Type(c)
            } else {
                EditCommand::Nothing
            },
            KeyCode::Up => if popup_open { EditCommand::PopupUp } else { EditCommand::MoveSelectionUp },
            KeyCode::Down => if popup_open { EditCommand::PopupDown } else { EditCommand::MoveSelectionDown },
            KeyCode::Enter => if popup_open { EditCommand::CompleteMention } else { EditCommand::Send },
            KeyCode::Tab => if popup_open { EditCommand::CompleteMention } else { EditCommand::Nothing },
            KeyCode::Esc => if popup_open { EditCommand::ClosePopup } else { EditCommand::StopEditing },
            KeyCode::End => EditCommand::JumpToLatest,
            KeyCode::Backspace => if is_alt(k.mods) { EditCommand::DeleteWordBack } else { EditCommand::Backspace },
            KeyCode::Left => EditCommand::CursorLeft,
            KeyCode::Right => EditCommand::CursorRight,
            KeyCode::Other => EditCommand::Nothing,
        },
        InputEvent::Other => EditCommand::Nothing,
    }
}

/// What a key does in the command bar.
#[derive(Debug, Clone, Copy, PartialEq, Eq)]
pub enum BarCommand {
    Close,
    Execute,
    SelectPrev,
    /// Select the next suggestion and complete the input to it.
    Complete,
    SelectNext,
    Type(char),
    Backspace,
    Nothing,
}

/// The command bar's key table: characters typed without control or alt
/// extend the input.
pub open spec fn bar_table(ev: InputEvent) -> BarCommand {
    match ev {
        InputEvent::Key(k) => match k.code {
            KeyCode::Esc => BarCommand::Close,
            KeyCode::Enter => BarCommand::Execute,
            KeyCode::Up => BarCommand::SelectPrev,
            KeyCode::Down => BarCommand::SelectNext,
            KeyCode::Tab => BarCommand::Complete,
            KeyCode::Char(c) => if !k.mods.ctrl && !k.mods.alt { BarCommand::Type(c) } else { BarCommand::Nothing },
            KeyCode::Backspace => BarCommand::Backspace,
            _ => BarCommand::Nothing,
        },
        InputEvent::Other => BarCommand::Nothing,
    }
}

/// What a key does in the command bar.
pub fn command_bar_command(ev: InputEvent) -> (r: BarCommand)
    ensures
        r == bar_table(ev),
{
    match ev {
        InputEvent::Key(k) => match k.code {
            KeyCode::Esc => BarCommand::Close,
            KeyCode::Enter => BarCommand::Execute,
            KeyCode::Up => BarCommand::SelectPrev,
            KeyCode::Down => BarCommand::SelectNext,
            KeyCode::Tab => BarCommand::Complete,
            KeyCode::Char(c) => if !k.mods.ctrl && !k.mods.alt { BarCommand::Type(c) } else { BarCommand::Nothing },
            KeyCode::Backspace => BarCommand::Backspace,
            _ => BarCommand::Nothing,
        },
        InputEvent::Other => BarCommand::Nothing,
    }
}

// ---------------------------------------------------------------------------
// The mention popup
// ---------------------------------------------------------------------------

/// The popup offered while a mention is typed.
pub struct MentionPopup {
    pub query: String,
    /// `(uuid, screenname)` of each member offered.
    pub matches: Vec<(String, String)>,
    pub selected: usize,
}

/// `p` begins `s`.
pub open spec fn is_prefix(p: Seq<char>, s: Seq<char>) -> bool {
    p.len() <= s.len() && s.subrange(0, p.len() as int) == p
}

/// Whether `p` begins `s`.
pub fn starts_with_chars(s: &[char], p: &[char]) -> (r: bool)
    ensures
        r == is_prefix(p@, s@),
{
    if p.len() > s.len() {
        return false;
    }
    let mut i: usize = 0;
    while i < p.len()
        invariant
            p@.len() <= s@.len(),
            i <= p@.len(),
            forall|k: int| 0 <= k < i ==> s@[k] == p@[k],
        decreases p@.len() - i,
    {
        if s[i] != p[i] {
            assert(s@.subrange(0, p@.len() as int)[i as int] != p@[i as int]);
            return false;
        }
        i += 1;
    }
    assert(s@.subrange(0, p@.len() as int) =~= p@);
    true
}

/// The members offered for `query`: every member but the user whose
/// lower-cased screenname begins with the lower-cased query, in member order.
pub open spec fn offered(members: Seq<Member>, me: Seq<char>, query: Seq<char>) -> Seq<(Seq<char>, Seq<char>)>
    decreases members.len(),
{
    if members.len() == 0 {
        Seq::empty()
    } else {
        let rest = offered(members.drop_last(), me, query);
        let m = members.last();
        if m.uuid@ != me && is_prefix(lowercase_of(query), lowercase_of(m.screenname@)) {
            rest.push((m.uuid@, m.screenname@))
        } else {
            rest
        }
    }
}

/// The members to offer in the mention popup for `query`.
pub fn mention_matches(members: &[Member], my_uuid: &String, query: &str) -> (r: Vec<(String, String)>)
    ensures
        r@.map_values(|p: (String, String)| (p.0@, p.1@)) == offered(members@, my_uuid@, query@),
{
    let q = to_lowercase(query);
    let qc = chars_of(q.as_str());
    let mut out: Vec<(String, String)> = Vec::new();
    let mut i: usize = 0;
    while i < members.len()
        invariant
            i <= members@.len(),
            qc@ == lowercase_of(query@),
            out@.map_values(|p: (String, String)| (p.0@, p.1@)) == offered(members@.take(i as int), my_uuid@, query@),
        decreases members@.len() - i,
    {
        let m = &members[i];
        proof {
            assert(members@.take(i + 1).drop_last() =~= members@.take(i as int));
            assert(members@.take(i + 1).last() == members@[i as int]);
        }
        let ghost before = out@.map_values(|p: (String, String)| (p.0@, p.1@));
        if m.uuid != *my_uuid {
            let name = to_lowercase(m.screenname.as_str());
            let nc = chars_of(name.as_str());
            if starts_with_chars(nc.as_slice(), qc.as_slice()) {
                out.push((m.uuid.clone(), m.screenname.clone()));
                proof {
                    assert(out@.map_values(|p: (String, String)| (p.0@, p.1@)) =~= before.push((m.uuid@, m.screenname@)));
                }
            }
        }
        i += 1;
    }
    proof {
        assert(members@.take(members@.len() as int) =~= members@);
    }
    out
}

impl MentionPopup {
    /// Move the selection up, stopping at the first match.
    pub fn select_up(&mut self)
        ensures
            final(self).selected == (if old(self).selected > 0 { old(self).selected - 1 } else { old(self).selected as int }),
            final(self).matches@ == old(self).matches@,
            final(self).query@ == old(self).query@,
    {
        if self.selected > 0 {
            self.selected -= 1;
        }
    }

    /// Move the selection down, stopping at the last match.
    pub fn select_down(&mut self)
        ensures
            final(self).selected == (if old(self).selected + 1 < old(self).matches@.len() {
                old(self).selected + 1
            } else {
                old(self).selected as int
            }),
            final(self).matches@ == old(self).matches@,
            final(self).query@ == old(self).query@,
    {
        let max = if self.matches.len() > 0 { self.matches.len() - 1 } else { 0 };
        if self.selected < max {
            self.selected += 1;
        }
    }
}

/// Law: the mention popup offers, in member order, exactly the members other
/// than the user whose screenname begins with the query, both compared in
/// lower case: every such member is offered, and everything offered is such
/// a member (with its own uuid and screenname).
pub proof fn law_mention_popup_matches_case_insensitively(members: Seq<Member>, me: Seq<char>, query: Seq<char>)
    ensures
        forall|k: int| 0 <= k < members.len() ==> {
            let m = #[trigger] members[k];
            let lq = lowercase_of(query);
            let ln = lowercase_of(m.screenname@);
            (m.uuid@ != me && lq.len() <= ln.len() && ln.subrange(0, lq.len() as int) == lq)
                ==> offered(members, me, query).contains((m.uuid@, m.screenname@))
        },
        forall|j: int| 0 <= j < offered(members, me, query).len() ==> exists|k: int| {
            &&& 0 <= k < members.len()
            &&& #[trigger] offered(members, me, query)[j] == (members[k].uuid@, members[k].screenname@)
            &&& members[k].uuid@ != me
            &&& lowercase_of(query).len() <= lowercase_of(members[k].screenname@).len()
            &&& lowercase_of(members[k].screenname@).subrange(0, lowercase_of(query).len() as int) == lowercase_of(query)
        },
    decreases members.len(),
{
    if members.len() > 0 {
        let pre = members.drop_last();
        law_mention_popup_matches_case_insensitively(pre, me, query);
        let rest = offered(pre, me, query);
        let r = offered(members, me, query);
        let m = members.last();
        assert forall|k: int| 0 <= k < members.len() implies {
            let mk = #[trigger] members[k];
            let lq = lowercase_of(query);
            let ln = lowercase_of(mk.screenname@);
            (mk.uuid@ != me && lq.len() <= ln.len() && ln.subrange(0, lq.len() as int) == lq)
                ==> r.contains((mk.uuid@, mk.screenname@))
        } by {
            let mk = members[k];
            let lq = lowercase_of(query);
            let ln = lowercase_of(mk.screenname@);
            if mk.uuid@ != me && lq.len() <= ln.len() && ln.subrange(0, lq.len() as int) == lq {
                if k < pre.len() {
                    assert(pre[k] == mk);
                    let j = choose|j: int| 0 <= j < rest.len() && rest[j] == (mk.uuid@, mk.screenname@);
                    if is_prefix(lowercase_of(query), lowercase_of(m.screenname@)) && m.uuid@ != me {
                        assert(r[j] == rest[j]);
                    }
                    assert(r[j] == (mk.uuid@, mk.screenname@));
                } else {
                    assert(mk == m);
                    assert(r[rest.len() as int] == (mk.uuid@, mk.screenname@));
                }
            }
        }
        assert forall|j: int| 0 <= j < r.len() implies exists|k: int| {
            &&& 0 <= k < members.len()
            &&& #[trigger] r[j] == (members[k].uuid@, members[k].screenname@)
            &&& members[k].uuid@ != me
            &&& lowercase_of(query).len() <= lowercase_of(members[k].screenname@).len()
            &&& lowercase_of(members[k].screenname@).subrange(0, lowercase_of(query).len() as int) == lowercase_of(query)
        } by {
            if j < rest.len() {
                assert(r[j] == rest[j]);
                let k = choose|k: int| {
                    &&& 0 <= k < pre.len()
                    &&& #[trigger] rest[j] == (pre[k].uuid@, pre[k].screenname@)
                    &&& pre[k].uuid@ != me
                    &&& lowercase_of(query).len() <= lowercase_of(pre[k].screenname@).len()
                    &&& lowercase_of(pre[k].screenname@).subrange(0, lowercase_of(query).len() as int) == lowercase_of(query)
                };
                assert(members[k] == pre[k]);
            } else {
                let k = members.len() - 1;
                assert(members[k] == m);
            }
        }
    }
}

} // verus!
