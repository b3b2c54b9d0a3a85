//! The command bar: `/`-commands suggested as the user types, chats to
//! switch to, and the suggestion list's selection and scrolling.

use vstd::prelude::*;

use super::app::ChatSummary;
use super::input::{is_prefix, starts_with_chars};
use super::layout::{words_of};
use crate::text::{all_whitespace, char_whitespace, chars_of, is_whitespace, lowercase_of, push_str, string_from_chars, to_lowercase};

verus! {

/// What a command does.
#[derive(Debug)]
pub enum CommandAction {
    SwitchChat(String),
    MemberList,
    GroupSettings,
    InviteCreate,
    Search,
    Contacts,
    JoinByCode(String),
    RotateKeys,
    BlockUsers,
    Quit,
}

/// A command action with its strings as character sequences.
pub enum ActionView {
    SwitchChat(Seq<char>),
    MemberList,
    GroupSettings,
    InviteCreate,
    Search,
    Contacts,
    JoinByCode(Seq<char>),
    RotateKeys,
    BlockUsers,
    Quit,
}

impl View for CommandAction {
    type V = ActionView;

    open spec fn view(&self) -> ActionView {
        match self {
            CommandAction::SwitchChat(u) => ActionView::SwitchChat(u@),
            CommandAction::MemberList => ActionView::MemberList,
            CommandAction::GroupSettings => ActionView::GroupSettings,
            CommandAction::InviteCreate => ActionView::InviteCreate,
            CommandAction::Search => ActionView::Search,
            CommandAction::Contacts => ActionView::Contacts,
            CommandAction::JoinByCode(c) => ActionView::JoinByCode(c@),
            CommandAction::RotateKeys => ActionView::RotateKeys,
            CommandAction::BlockUsers => ActionView::BlockUsers,
            CommandAction::Quit => ActionView::Quit,
        }
    }
}

impl CommandAction {
    /// A copy of this action.
    pub fn duplicate(&self) -> (r: CommandAction)
        ensures
            r@ == self@,
    {
        match self {
            CommandAction::SwitchChat(u) => CommandAction::SwitchChat(u.clone()),
            CommandAction::MemberList => CommandAction::MemberList,
            CommandAction::GroupSettings => CommandAction::GroupSettings,
            CommandAction::InviteCreate => CommandAction::InviteCreate,
            CommandAction::Search => CommandAction::Search,
            CommandAction::Contacts => CommandAction::Contacts,
            CommandAction::JoinByCode(c) => CommandAction::JoinByCode(c.clone()),
            CommandAction::RotateKeys => CommandAction::RotateKeys,
            CommandAction::BlockUsers => CommandAction::BlockUsers,
            CommandAction::Quit => CommandAction::Quit,
        }
    }
}

/// A suggested command.
pub struct CommandSuggestion {
    pub label: String,
    pub description: String,
    pub action: CommandAction,
}

/// A suggestion as character sequences.
pub type SuggestionView = (Seq<char>, Seq<char>, ActionView);

/// The suggestions as views.
pub open spec fn suggestions_view(s: Seq<CommandSuggestion>) -> Seq<(Seq<char>, Seq<char>, ActionView)> {
    s.map_values(|x: CommandSuggestion| (x.label@, x.description@, x.action@))
}

/// Suggestion rows shown at once.
pub const MAX_VISIBLE_SUGGESTIONS: usize = 7;

/// `a` sorts strictly before `b`, character by character (the order of
/// `String`'s comparison: UTF-8 bytes compare as code points do).
pub open spec fn lex_lt(a: Seq<char>, b: Seq<char>) -> bool
    decreases a.len(),
{
    if a.len() == 0 {
        b.len() > 0
    } else if b.len() == 0 {
        false
    } else if a[0] != b[0] {
        a[0] < b[0]
    } else {
        lex_lt(a.drop_first(), b.drop_first())
    }
}

fn lex_less(a: &[char], b: &[char]) -> (r: bool)
    ensures
        r == lex_lt(a@, b@),
{
    let mut i: usize = 0;
    proof {
        assert(a@.skip(0) =~= a@);
        assert(b@.skip(0) =~= b@);
    }
    while i < a.len() && i < b.len() && a[i] == b[i]
        invariant
            i <= a@.len(),
            i <= b@.len(),
            lex_lt(a@, b@) == lex_lt(a@.skip(i as int), b@.skip(i as int)),
        decreases a@.len() - i,
    {
        proof {
            assert(a@.skip(i as int).drop_first() =~= a@.skip(i + 1));
            assert(b@.skip(i as int).drop_first() =~= b@.skip(i + 1));
        }
        i += 1;
    }
    proof {
        if i < a.len() {
            assert(a@.skip(i as int)[0] == a@[i as int]);
        }
        if i < b.len() {
            assert(b@.skip(i as int)[0] == b@[i as int]);
        }
    }
    if i == a.len() {
        i < b.len()
    } else if i == b.len() {
        false
    } else {
        a[i] < b[i]
    }
}

/// The position where a suggestion labelled `l` goes in `s`: before the
/// first one whose label sorts after `l`.
pub open spec fn insert_pos(s: Seq<(Seq<char>, Seq<char>, ActionView)>, l: Seq<char>) -> int
    decreases s.len(),
{
    if s.len() == 0 {
        0
    } else if lex_lt(l, s[0].0) {
        0
    } else {
        1 + insert_pos(s.drop_first(), l)
    }
}

/// `s` sorted by label, suggestions with equal labels in their order: each
/// suggestion in turn goes before the first already placed whose label sorts
/// after its own.
pub open spec fn sorted_by_label(s: Seq<(Seq<char>, Seq<char>, ActionView)>) -> Seq<(Seq<char>, Seq<char>, ActionView)>
    decreases s.len(),
{
    if s.len() == 0 {
        s
    } else {
        let r = sorted_by_label(s.drop_last());
        r.insert(insert_pos(r, s.last().0), s.last())
    }
}

proof fn lemma_insert_pos(s: Seq<(Seq<char>, Seq<char>, ActionView)>, l: Seq<char>)
    ensures
        0 <= insert_pos(s, l) <= s.len(),
    decreases s.len(),
{
    if s.len() > 0 && !lex_lt(l, s[0].0) {
        lemma_insert_pos(s.drop_first(), l);
    }
}

/// The fixed commands: name, short form, description.
pub open spec fn fixed_commands() -> Seq<(Seq<char>, Seq<char>, Seq<char>)> {
    seq![
        ("members"@, "m"@, "Show member list"@),
        ("settings"@, "set"@, "Group settings"@),
        ("invite"@, "inv"@, "Create invite code"@),
        ("search"@, "sr"@, "Find users by screenname"@),
        ("contacts"@, "co"@, "Local contacts"@),
        ("join"@, "j"@, "Join by invite code"@),
        ("rotate"@, "rot"@, "Rotate encryption keys"@),
        ("block"@, "bl"@, "Manage blocked users"@),
        ("quit"@, "q"@, "Exit sqwok"@),
    ]
}

/// The action of fixed command `i`.
pub open spec fn fixed_action(i: int) -> ActionView {
    if i == 0 {
        ActionView::MemberList
    } else if i == 1 {
        ActionView::GroupSettings
    } else if i == 2 {
        ActionView::InviteCreate
    } else if i == 3 {
        ActionView::Search
    } else if i == 4 {
        ActionView::Contacts
    } else if i == 5 {
        ActionView::JoinByCode(Seq::empty())
    } else if i == 6 {
        ActionView::RotateKeys
    } else if i == 7 {
        ActionView::BlockUsers
    } else {
        ActionView::Quit
    }
}

/// The fixed commands offered for the (lower-cased) input `q`, in order.
pub open spec fn fixed_offered(q: Seq<char>, n: int) -> Seq<(Seq<char>, Seq<char>, ActionView)>
    decreases n,
{
    if n <= 0 {
        Seq::empty()
    } else {
        let rest = fixed_offered(q, n - 1);
        let c = fixed_commands()[n - 1];
        if is_prefix(q, c.0) || is_prefix(q, c.1) || q.len() == 0 {
            rest.push((seq!['/'] + c.0, c.2, fixed_action(n - 1)))
        } else {
            rest
        }
    }
}

/// The text `join `.
pub open spec fn join_prefix() -> Seq<char> {
    "join "@
}

/// `s` with every leading `join ` removed.
pub open spec fn strip_join(s: Seq<char>) -> Seq<char>
    decreases s.len(),
{
    if s.len() >= 5 && s.subrange(0, 5) == join_prefix() {
        strip_join(s.subrange(5, s.len() as int))
    } else {
        s
    }
}

/// The first position of `s` that is not white space (its length if none).
pub open spec fn first_non_ws(s: Seq<char>, i: int) -> int
    decreases s.len() - i,
{
    if i < 0 || i >= s.len() { s.len() as int } else if char_whitespace(s[i]) { first_non_ws(s, i + 1) } else { i }
}

/// The end of `s` once trailing white space is dropped.
pub open spec fn last_non_ws_end(s: Seq<char>, j: int) -> int
    decreases j,
{
    if j <= 0 { 0 } else if char_whitespace(s[j - 1]) { last_non_ws_end(s, j - 1) } else { j }
}

/// `s` without leading and trailing white space (`str::trim`).
pub open spec fn trimmed(s: Seq<char>) -> Seq<char> {
    let a = first_non_ws(s, 0);
    let b = last_non_ws_end(s, s.len() as int);
    if a < b { s.subrange(a, b) } else { Seq::empty() }
}

/// The invite code typed after `join `.
pub open spec fn join_code(q: Seq<char>) -> Seq<char> {
    trimmed(strip_join(q))
}

/// The first eight characters of `s` (all of it when shorter).
pub open spec fn prefix8(s: Seq<char>) -> Seq<char> {
    if s.len() <= 8 { s } else { s.subrange(0, 8) }
}

/// The switch suggestions for `chats`.
pub open spec fn switch_offered(chats: Seq<ChatSummary>) -> Seq<(Seq<char>, Seq<char>, ActionView)> {
    chats.map_values(|c: ChatSummary| ("/switch "@ + c.topic@, prefix8(c.uuid@), ActionView::SwitchChat(c.uuid@)))
}

/// The suggestions for the input `input` with chats `chats`: the fixed
/// commands whose name or short form the lower-cased input begins (all of
/// them for an empty input); for `join <code>` only the redeem suggestion;
/// every chat to switch to when the input begins `switch`; sorted by label
/// unless it is the redeem suggestion.
pub open spec fn suggestions_for(input: Seq<char>, chats: Seq<ChatSummary>) -> Seq<(Seq<char>, Seq<char>, ActionView)> {
    let q = lowercase_of(input);
    let joining = is_prefix(join_prefix(), q);
    let code = join_code(q);
    let base = if joining && code.len() > 0 {
        seq![("/join "@ + code, "Redeem invite code"@, ActionView::JoinByCode(code))]
    } else {
        fixed_offered(q, 9)
    };
    let all = if is_prefix(q, "switch"@) || q.len() == 0 { base + switch_offered(chats) } else { base };
    if !joining || all.len() == 0 { sorted_by_label(all) } else { all }
}

proof fn lemma_sorted_keeps(s: Seq<(Seq<char>, Seq<char>, ActionView)>, x: (Seq<char>, Seq<char>, ActionView))
    requires
        s.contains(x),
    ensures
        sorted_by_label(s).contains(x),
    decreases s.len(),
{
    let r = sorted_by_label(s.drop_last());
    let p = insert_pos(r, s.last().0);
    lemma_insert_pos(r, s.last().0);
    let t = r.insert(p, s.last());
    if x == s.last() {
        assert(t[p] == x);
    } else {
        let j = choose|j: int| 0 <= j < s.len() && s[j] == x;
        assert(j < s.len() - 1);
        assert(s.drop_last()[j] == x);
        lemma_sorted_keeps(s.drop_last(), x);
        let m = choose|m: int| 0 <= m < r.len() && r[m] == x;
        if m < p {
            assert(t[m] == x);
        } else {
            assert(t[m + 1] == x);
        }
    }
}

proof fn lemma_fixed_offered_has(q: Seq<char>, n: int, i: int)
    requires
        0 <= i < n <= 9,
        is_prefix(q, fixed_commands()[i].0) || is_prefix(q, fixed_commands()[i].1) || q.len() == 0,
    ensures
        fixed_offered(q, n).contains((seq!['/'] + fixed_commands()[i].0, fixed_commands()[i].2, fixed_action(i))),
    decreases n,
{
    let item = (seq!['/'] + fixed_commands()[i].0, fixed_commands()[i].2, fixed_action(i));
    let rest = fixed_offered(q, n - 1);
    if i == n - 1 {
        assert(fixed_offered(q, n) == rest.push(item));
        assert(rest.push(item)[rest.len() as int] == item);
    } else {
        lemma_fixed_offered_has(q, n - 1, i);
        let j = choose|j: int| 0 <= j < rest.len() && rest[j] == item;
        let c = fixed_commands()[n - 1];
        if is_prefix(q, c.0) || is_prefix(q, c.1) || q.len() == 0 {
            assert(rest.push((seq!['/'] + c.0, c.2, fixed_action(n - 1)))[j] == item);
        }
    }
}

/// Law: each fixed command is offered whenever the lower-cased input begins
/// its short form (`sr` for `/search`, `inv` for `/invite`, ...), whatever
/// chats there are: the suggestions then hold `/name` with its description
/// and action.
pub proof fn law_short_forms_are_offered(input: Seq<char>, chats: Seq<ChatSummary>, i: int)
    requires
        0 <= i < 9,
        ({
            let q = lowercase_of(input);
            let short = fixed_commands()[i].1;
            q.len() <= short.len() && short.subrange(0, q.len() as int) == q
        }),
    ensures
        suggestions_for(input, chats).contains(
            (seq!['/'] + fixed_commands()[i].0, fixed_commands()[i].2, fixed_action(i))),
{
    reveal_strlit("m");
    reveal_strlit("set");
    reveal_strlit("inv");
    reveal_strlit("sr");
    reveal_strlit("co");
    reveal_strlit("j");
    reveal_strlit("rot");
    reveal_strlit("bl");
    reveal_strlit("q");
    reveal_strlit("join ");
    let q = lowercase_of(input);
    let item = (seq!['/'] + fixed_commands()[i].0, fixed_commands()[i].2, fixed_action(i));
    assert(fixed_commands()[i].1.len() <= 3);
    assert(!is_prefix(join_prefix(), q));
    lemma_fixed_offered_has(q, 9, i);
    let base = fixed_offered(q, 9);
    let all = if is_prefix(q, "switch"@) || q.len() == 0 { base + switch_offered(chats) } else { base };
    assert(all.contains(item)) by {
        let j = choose|j: int| 0 <= j < base.len() && base[j] == item;
        assert(all[j] == item);
    }
    lemma_sorted_keeps(all, item);
}

/// The command bar's state.
pub struct CommandBarState {
    pub input: String,
    pub suggestions: Vec<CommandSuggestion>,
    pub selected_suggestion: usize,
    pub scroll_offset: usize,
}

fn fixed_entry(i: usize) -> (r: (&'static str, &'static str, &'static str, CommandAction))
    requires
        i < 9,
    ensures
        (r.0@, r.1@, r.2@) == fixed_commands()[i as int],
        r.3@ == fixed_action(i as int),
{
    proof {
        reveal_strlit("members");
        reveal_strlit("m");
        reveal_strlit("Show member list");
        reveal_strlit("settings");
        reveal_strlit("set");
        reveal_strlit("Group settings");
        reveal_strlit("invite");
        reveal_strlit("inv");
        reveal_strlit("Create invite code");
        reveal_strlit("search");
        reveal_strlit("sr");
        reveal_strlit("Find users by screenname");
        reveal_strlit("contacts");
        reveal_strlit("co");
        reveal_strlit("Local contacts");
        reveal_strlit("join");
        reveal_strlit("j");
        reveal_strlit("Join by invite code");
        reveal_strlit("rotate");
        reveal_strlit("rot");
        reveal_strlit("Rotate encryption keys");
        reveal_strlit("block");
        reveal_strlit("bl");
        reveal_strlit("Manage blocked users");
        reveal_strlit("quit");
        reveal_strlit("q");
        reveal_strlit("Exit sqwok");
    }
    if i == 0 {
        ("members", "m", "Show member list", CommandAction::MemberList)
    } else if i == 1 {
        ("settings", "set", "Group settings", CommandAction::GroupSettings)
    } else if i == 2 {
        ("invite", "inv", "Create invite code", CommandAction::InviteCreate)
    } else if i == 3 {
        ("search", "sr", "Find users by screenname", CommandAction::Search)
    } else if i == 4 {
        ("contacts", "co", "Local contacts", CommandAction::Contacts)
    } else if i == 5 {
        let empty = String::new();
        ("join", "j", "Join by invite code", CommandAction::JoinByCode(empty))
    } else if i == 6 {
        ("rotate", "rot", "Rotate encryption keys", CommandAction::RotateKeys)
    } else if i == 7 {
        ("block", "bl", "Manage blocked users", CommandAction::BlockUsers)
    } else {
        ("quit", "q", "Exit sqwok", CommandAction::Quit)
    }
}

/// The characters of a string literal.
fn lit_chars(s: &str) -> (r: Vec<char>)
    ensures
        r@ == s@,
{
    chars_of(s)
}

/// Whether `join ` stands in `s` at `i`.
fn join_at(s: &[char], i: usize) -> (r: bool)
    requires
        i <= s@.len(),
    ensures
        r == (s@.len() - i >= 5 && s@.subrange(i as int, i + 5) == join_prefix()),
{
    proof {
        reveal_strlit("join ");
    }
    if s.len() - i < 5 {
        return false;
    }
    let r = s[i] == 'j' && s[i + 1] == 'o' && s[i + 2] == 'i' && s[i + 3] == 'n' && s[i + 4] == ' ';
    proof {
        let t = s@.subrange(i as int, i + 5);
        if r {
            assert(t =~= join_prefix());
        } else if t == join_prefix() {
            assert(t[0] == 'j' && t[1] == 'o' && t[2] == 'i' && t[3] == 'n' && t[4] == ' ');
        }
    }
    r
}

/// `s` with every leading `join ` removed, as the position where the rest
/// starts.
fn strip_join_exec(s: &[char]) -> (r: usize)
    ensures
        r <= s@.len(),
        s@.subrange(r as int, s@.len() as int) == strip_join(s@),
{
    let mut i: usize = 0;
    let n = s.len();
    proof {
        assert(s@.subrange(0, s@.len() as int) =~= s@);
    }
    while join_at(s, i)
        invariant
            n == s@.len(),
            i <= s@.len(),
            strip_join(s@) == strip_join(s@.subrange(i as int, s@.len() as int)),
        decreases s@.len() - i,
    {
        proof {
            let t = s@.subrange(i as int, s@.len() as int);
            assert(t.subrange(0, 5) =~= s@.subrange(i as int, i + 5));
            assert(t.subrange(5, t.len() as int) =~= s@.subrange(i + 5, s@.len() as int));
        }
        i += 5;
    }
    proof {
        let t = s@.subrange(i as int, s@.len() as int);
        if t.len() >= 5 {
            assert(t.subrange(0, 5) =~= s@.subrange(i as int, i + 5));
        }
    }
    i
}

/// `s[lo..]` without leading and trailing white space, as positions.
pub(crate) fn trim_range(s: &[char], lo: usize) -> (r: (usize, usize))
    requires
        lo <= s@.len(),
    ensures
        r.0 <= r.1 <= s@.len(),
        s@.subrange(r.0 as int, r.1 as int) == trimmed(s@.subrange(lo as int, s@.len() as int)),
{
    let ghost t = s@.subrange(lo as int, s@.len() as int);
    let mut a = lo;
    while a < s.len() && is_whitespace(s[a])
        invariant
            lo <= a <= s@.len(),
            t == s@.subrange(lo as int, s@.len() as int),
            first_non_ws(t, 0) == first_non_ws(t, a - lo),
        decreases s@.len() - a,
    {
        a += 1;
    }
    let mut b = s.len();
    while b > a && is_whitespace(s[b - 1])
        invariant
            a <= b <= s@.len(),
            t == s@.subrange(lo as int, s@.len() as int),
            last_non_ws_end(t, t.len() as int) == last_non_ws_end(t, b - lo),
            forall|k: int| b <= k < s@.len() ==> char_whitespace(#[trigger] s@[k]),
        decreases b,
    {
        b -= 1;
    }
    proof {
        let fa = first_non_ws(t, 0);
        assert(fa == a - lo);
        if b > a {
            assert(last_non_ws_end(t, b - lo) == b - lo);
            assert(s@.subrange(a as int, b as int) =~= t.subrange(a - lo, b - lo));
        } else {
            assert(s@.subrange(a as int, b as int) =~= Seq::<char>::empty());
            lemma_last_end_le(t, b - lo, a - lo);
        }
    }
    (a, b)
}

/// When everything from `a` on is white space (as far as `j`), the trimmed
/// end lies at or before `a`.
proof fn lemma_last_end_le(t: Seq<char>, j: int, a: int)
    requires
        0 <= j <= a,
        first_non_ws(t, 0) == a,
    ensures
        last_non_ws_end(t, j) <= a,
    decreases j,
{
    if j > 0 && char_whitespace(t[j - 1]) {
        lemma_last_end_le(t, j - 1, a);
    }
}

/// The first visible row once the selection `sel` is brought into a window
/// of `visible` rows that started at `off`: the window moves only as far as
/// it must.
pub open spec fn scrolled_to(sel: int, off: int, visible: int) -> int {
    if sel < off {
        sel
    } else if sel >= off + visible {
        sel + 1 - visible
    } else {
        off
    }
}

impl CommandBarState {
    /// An empty bar.
    pub fn new() -> (b: Self)
        ensures
            b.input@ == Seq::<char>::empty(),
            b.suggestions@.len() == 0,
            b.selected_suggestion == 0,
            b.scroll_offset == 0,
    {
        CommandBarState { input: String::new(), suggestions: Vec::new(), selected_suggestion: 0, scroll_offset: 0 }
    }

    /// Recompute the suggestions for the current input, selecting the first.
    pub fn update_suggestions(&mut self, chats: &[ChatSummary])
        ensures
            suggestions_view(final(self).suggestions@) == suggestions_for(old(self).input@, chats@),
            final(self).input@ == old(self).input@,
            final(self).selected_suggestion == 0,
            final(self).scroll_offset == 0,
    {
        let q = to_lowercase(self.input.as_str());
        let qc = chars_of(q.as_str());
        let jp = lit_chars("join ");
        let joining = starts_with_chars(qc.as_slice(), jp.as_slice());
        let mut list = base_suggestions(qc.as_slice(), joining);
        let sw = lit_chars("switch");
        if starts_with_chars(sw.as_slice(), qc.as_slice()) || qc.len() == 0 {
            add_switch_suggestions(&mut list, chats);
        }
        if !joining || list.len() == 0 {
            list = sort_by_label(list);
        }
        self.suggestions = list;
        self.selected_suggestion = 0;
        self.scroll_offset = 0;
    }

    /// Keep the selection within the `visible` rows shown.
    pub fn adjust_scroll(&mut self, visible: usize)
        requires
            old(self).selected_suggestion < usize::MAX,
        ensures
            final(self).scroll_offset == scrolled_to(old(self).selected_suggestion as int,
                old(self).scroll_offset as int, visible as int),
            final(self).selected_suggestion == old(self).selected_suggestion,
            final(self).suggestions@ == old(self).suggestions@,
            final(self).input@ == old(self).input@,
    {
        if self.selected_suggestion < self.scroll_offset {
            self.scroll_offset = self.selected_suggestion;
        } else if self.selected_suggestion - self.scroll_offset >= visible {
            self.scroll_offset = self.selected_suggestion + 1 - visible;
        }
    }

    /// Select the previous suggestion, wrapping to the last.
    pub fn select_prev(&mut self)
        ensures
            old(self).suggestions@.len() == 0 ==> final(self).selected_suggestion == old(self).selected_suggestion
                && final(self).scroll_offset == old(self).scroll_offset,
            old(self).suggestions@.len() > 0 ==> final(self).selected_suggestion == (if old(self).selected_suggestion == 0 {
                old(self).suggestions@.len() - 1
            } else {
                old(self).selected_suggestion - 1
            }),
            old(self).suggestions@.len() > 0 ==> final(self).scroll_offset == scrolled_to(
                final(self).selected_suggestion as int, old(self).scroll_offset as int, MAX_VISIBLE_SUGGESTIONS as int),
            old(self).suggestions@.len() > 0 ==> final(self).scroll_offset <= final(self).selected_suggestion
                < final(self).scroll_offset + MAX_VISIBLE_SUGGESTIONS,
            final(self).suggestions@ == old(self).suggestions@,
            final(self).input@ == old(self).input@,
    {
        if self.suggestions.len() > 0 {
            if self.selected_suggestion == 0 {
                self.selected_suggestion = self.suggestions.len() - 1;
            } else {
                self.selected_suggestion -= 1;
            }
            self.adjust_scroll(MAX_VISIBLE_SUGGESTIONS);
        }
    }

    /// Select the next suggestion, wrapping to the first.
    pub fn select_next(&mut self)
        ensures
            old(self).suggestions@.len() == 0 ==> final(self).selected_suggestion == old(self).selected_suggestion
                && final(self).scroll_offset == old(self).scroll_offset,
            old(self).suggestions@.len() > 0 ==> final(self).selected_suggestion
                == (old(self).selected_suggestion + 1) % (old(self).suggestions@.len() as int),
            old(self).suggestions@.len() > 0 ==> final(self).scroll_offset == scrolled_to(
                final(self).selected_suggestion as int, old(self).scroll_offset as int, MAX_VISIBLE_SUGGESTIONS as int),
            old(self).suggestions@.len() > 0 ==> final(self).scroll_offset <= final(self).selected_suggestion
                < final(self).scroll_offset + MAX_VISIBLE_SUGGESTIONS,
            final(self).suggestions@ == old(self).suggestions@,
            final(self).input@ == old(self).input@,
    {
        let n = self.suggestions.len();
        if n > 0 {
            let cur = self.selected_suggestion;
            let next = if cur >= n - 1 { (cur - (n - 1)) % n } else { cur + 1 };
            proof {
                if cur >= n - 1 {
                    let c = cur as int;
                    let m = n as int;
                    assert((c - (m - 1)) % m == (c + 1) % m) by {
                        vstd::arithmetic::div_mod::lemma_mod_add_multiples_vanish(c - (m - 1), m);
                    }
                } else {
                    vstd::arithmetic::div_mod::lemma_small_mod((cur + 1) as nat, n as nat);
                }
            }
            self.selected_suggestion = next;
            self.adjust_scroll(MAX_VISIBLE_SUGGESTIONS);
        }
    }

    /// The action of the selected suggestion.
    pub fn execute(&self) -> (r: Option<CommandAction>)
        ensures
            self.selected_suggestion < self.suggestions@.len() ==> (r matches Some(a)
                && a@ == self.suggestions@[self.selected_suggestion as int].action@),
            self.selected_suggestion >= self.suggestions@.len() ==> r is None,
    {
        if self.selected_suggestion < self.suggestions.len() {
            Some(self.suggestions[self.selected_suggestion].action.duplicate())
        } else {
            None
        }
    }
}

/// Law: with `n` suggestions and `sel` selected, `select_next` then
/// `select_prev` selects `sel` again (the selection after each step is as
/// their contracts give it).
pub proof fn law_next_then_prev_returns(sel: int, n: int)
    requires
        0 <= sel < n,
    ensures
        ({
            let next = (sel + 1) % n;
            (if next == 0 { n - 1 } else { next - 1 }) == sel
        }),
{
    if sel + 1 < n {
        vstd::arithmetic::div_mod::lemma_small_mod((sel + 1) as nat, n as nat);
    } else {
        vstd::arithmetic::div_mod::lemma_mod_self_0(n);
    }
}

/// The position where a suggestion labelled `l` goes among `sorted`.
fn find_insert_pos(sorted: &Vec<CommandSuggestion>, l: &[char]) -> (r: usize)
    ensures
        r as int == insert_pos(suggestions_view(sorted@), l@),
{
    let ghost sv = suggestions_view(sorted@);
    let mut j: usize = 0;
    proof {
        assert(sv.skip(0) =~= sv);
    }
    while j < sorted.len()
        invariant
            j <= sorted@.len(),
            sv == suggestions_view(sorted@),
            insert_pos(sv, l@) == j + insert_pos(sv.skip(j as int), l@),
        decreases sorted@.len() - j,
    {
        let lc = chars_of(sorted[j].label.as_str());
        proof {
            assert(sv.skip(j as int)[0] == sv[j as int]);
        }
        if lex_less(l, lc.as_slice()) {
            return j;
        }
        proof {
            assert(sv.skip(j as int).drop_first() =~= sv.skip(j + 1));
        }
        j += 1;
    }
    j
}

/// Sort suggestions by label, keeping the order of equal labels.
fn sort_by_label(list: Vec<CommandSuggestion>) -> (r: Vec<CommandSuggestion>)
    ensures
        suggestions_view(r@) == sorted_by_label(suggestions_view(list@)),
{
    let ghost all = suggestions_view(list@);
    let mut rest = list;
    let mut sorted: Vec<CommandSuggestion> = Vec::new();
    let n = rest.len();
    let mut i: usize = 0;
    while i < n
        invariant
            n == all.len(),
            i <= n,
            rest@.len() == n - i,
            suggestions_view(rest@) == all.subrange(i as int, n as int),
            suggestions_view(sorted@) == sorted_by_label(all.take(i as int)),
        decreases n - i,
    {
        let ghost old_rest = rest@;
        let x = rest.remove(0);
        proof {
            assert(suggestions_view(old_rest)[0] == all.subrange(i as int, n as int)[0]);
            assert((x.label@, x.description@, x.action@) == all[i as int]);
            assert forall|k: int| 0 <= k < rest@.len() implies #[trigger] suggestions_view(rest@)[k] == all.subrange(i + 1, n as int)[k] by {
                assert(rest@[k] == old_rest[k + 1]);
                assert(suggestions_view(old_rest)[k + 1] == all.subrange(i as int, n as int)[k + 1]);
            }
            assert(suggestions_view(rest@) =~= all.subrange(i + 1, n as int));
            assert(all.take(i + 1).drop_last() =~= all.take(i as int));
            assert(all.take(i + 1).last() == all[i as int]);
        }
        let lc = chars_of(x.label.as_str());
        let pos = find_insert_pos(&sorted, lc.as_slice());
        proof {
            lemma_insert_pos(suggestions_view(sorted@), x.label@);
        }
        let ghost before = suggestions_view(sorted@);
        sorted.insert(pos, x);
        proof {
            assert(suggestions_view(sorted@) =~= before.insert(pos as int, all[i as int]));
        }
        i += 1;
    }
    proof {
        assert(all.take(n as int) =~= all);
    }
    sorted
}

/// The fixed commands offered for the lower-cased input `qc`.
fn fixed_suggestions(qc: &[char]) -> (list: Vec<CommandSuggestion>)
    ensures
        suggestions_view(list@) == fixed_offered(qc@, 9),
{
    let mut list: Vec<CommandSuggestion> = Vec::new();
    let mut i: usize = 0;
    while i < 9
        invariant
            i <= 9,
            suggestions_view(list@) == fixed_offered(qc@, i as int),
        decreases 9 - i,
    {
        let (full, short, desc, action) = fixed_entry(i);
        let fc = lit_chars(full);
        let sc = lit_chars(short);
        if starts_with_chars(fc.as_slice(), qc) || starts_with_chars(sc.as_slice(), qc) || qc.len() == 0 {
            let mut label = String::new();
            push_str(&mut label, "/");
            push_str(&mut label, full);
            let mut d = String::new();
            push_str(&mut d, desc);
            let ghost before = suggestions_view(list@);
            proof {
                reveal_strlit("/");
                assert(label@ =~= seq!['/'] + full@);
            }
            list.push(CommandSuggestion { label, description: d, action });
            proof {
                assert(suggestions_view(list@) =~= before.push(suggestions_view(list@).last()));
            }
        }
        i += 1;
    }
    list
}

/// The suggestions before the chats: the redeem suggestion for `join
/// <code>`, else the fixed commands offered.
fn base_suggestions(qc: &[char], joining: bool) -> (list: Vec<CommandSuggestion>)
    requires
        joining == is_prefix(join_prefix(), qc@),
    ensures
        suggestions_view(list@) == (if joining && join_code(qc@).len() > 0 {
            seq![("/join "@ + join_code(qc@), "Redeem invite code"@, ActionView::JoinByCode(join_code(qc@)))]
        } else {
            fixed_offered(qc@, 9)
        }),
{
    let skip = strip_join_exec(qc);
    let (ca, cb) = trim_range(qc, skip);
    if joining && cb > ca {
        let code = string_from_chars(qc, ca, cb);
        let mut label = String::new();
        push_str(&mut label, "/join ");
        push_str(&mut label, code.as_str());
        let mut d = String::new();
        push_str(&mut d, "Redeem invite code");
        let mut list: Vec<CommandSuggestion> = Vec::new();
        list.push(CommandSuggestion { label, description: d, action: CommandAction::JoinByCode(code) });
        proof {
            assert(suggestions_view(list@) =~= seq![("/join "@ + join_code(qc@), "Redeem invite code"@,
                ActionView::JoinByCode(join_code(qc@)))]);
        }
        list
    } else {
        fixed_suggestions(qc)
    }
}

/// Add a switch suggestion for each chat.
fn add_switch_suggestions(list: &mut Vec<CommandSuggestion>, chats: &[ChatSummary])
    ensures
        suggestions_view(final(list)@) == suggestions_view(old(list)@) + switch_offered(chats@),
{
    let ghost base = suggestions_view(list@);
    let mut k: usize = 0;
    proof {
        assert(switch_offered(chats@.take(0)) =~= Seq::<(Seq<char>, Seq<char>, ActionView)>::empty());
        assert(base + switch_offered(chats@.take(0)) =~= base);
    }
    while k < chats.len()
        invariant
            k <= chats@.len(),
            suggestions_view(list@) == base + switch_offered(chats@.take(k as int)),
        decreases chats@.len() - k,
    {
        let c = &chats[k];
        let mut label = String::new();
        push_str(&mut label, "/switch ");
        push_str(&mut label, c.topic.as_str());
        let uc = chars_of(c.uuid.as_str());
        let end = if uc.len() <= 8 { uc.len() } else { 8 };
        let d = string_from_chars(uc.as_slice(), 0, end);
        proof {
            assert(uc@.subrange(0, uc@.len() as int) =~= uc@);
        }
        let ghost before = suggestions_view(list@);
        list.push(CommandSuggestion { label, description: d, action: CommandAction::SwitchChat(c.uuid.clone()) });
        proof {
            assert(suggestions_view(list@) =~= before.push(suggestions_view(list@).last()));
            assert(chats@.take(k + 1) =~= chats@.take(k as int).push(chats@[k as int]));
            assert(switch_offered(chats@.take(k + 1)) =~= switch_offered(chats@.take(k as int)).push(
                suggestions_view(list@).last()));
            assert(base + switch_offered(chats@.take(k + 1)) =~= before.push(suggestions_view(list@).last()));
        }
        k += 1;
    }
    proof {
        assert(chats@.take(chats@.len() as int) =~= chats@);
    }
}

} // verus!
