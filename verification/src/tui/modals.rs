//! The modal dialogs' state and what their keys do: invite creation, user
//! search, contacts and blocking.

use vstd::prelude::*;

use super::input::{no_mods, only_shift, InputEvent, KeyCode, KeyInput};
use super::mention::occurs_at;
use crate::text::{chars_of, lowercase_of, push_char, string_from_chars, to_lowercase};

verus! {

/// Invite lifetimes offered: the server's code and a label.
pub open spec fn ttl_option_count() -> usize {
    3
}

/// Use limits offered.
pub open spec fn use_limit_option_count() -> usize {
    7
}

/// The invite lifetime at `i`: its server code and its label.
pub fn ttl_option(i: usize) -> (r: (&'static str, &'static str))
    requires
        i < ttl_option_count(),
    ensures
        i == 0 ==> r.0@ == "1h"@ && r.1@ == "1 hour"@,
        i == 1 ==> r.0@ == "24h"@ && r.1@ == "24 hours"@,
        i == 2 ==> r.0@ == "7d"@ && r.1@ == "7 days"@,
{
    if i == 0 { ("1h", "1 hour") } else if i == 1 { ("24h", "24 hours") } else { ("7d", "7 days") }
}

/// The use limit at `i`.
pub open spec fn use_limit_at(i: int) -> Option<u32> {
    if i == 0 {
        None
    } else if i == 1 {
        Some(1)
    } else if i == 2 {
        Some(2)
    } else if i == 3 {
        Some(5)
    } else if i == 4 {
        Some(10)
    } else if i == 5 {
        Some(25)
    } else {
        Some(50)
    }
}

/// The use limit at `i`: unlimited, then 1, 2, 5, 10, 25 and 50 uses.
pub fn use_limit_option(i: usize) -> (r: Option<u32>)
    requires
        i < use_limit_option_count(),
    ensures
        r == use_limit_at(i as int),
{
    if i == 0 {
        None
    } else if i == 1 {
        Some(1)
    } else if i == 2 {
        Some(2)
    } else if i == 3 {
        Some(5)
    } else if i == 4 {
        Some(10)
    } else if i == 5 {
        Some(25)
    } else {
        Some(50)
    }
}

/// The steps of creating an invite.
#[derive(Debug, Clone, Copy, PartialEq, Eq)]
pub enum InviteStep {
    Configure,
    Creating,
    Display,
}

/// Which choice the configure step's arrows change.
#[derive(Debug, Clone, Copy, PartialEq, Eq)]
pub enum ConfigureFocus {
    Ttl,
    UseLimit,
}

/// An invite of the current chat.
pub struct InviteInfo {
    pub code: String,
    pub display_code: String,
    pub expires_at: String,
    pub uses_remaining: Option<u32>,
}

/// The codes of a list of invites.
pub open spec fn invite_codes(v: Seq<InviteInfo>) -> Seq<Seq<char>> {
    v.map_values(|i: InviteInfo| i.code@)
}

/// The invite dialog.
pub struct InviteModalState {
    pub step: InviteStep,
    pub configure_focus: ConfigureFocus,
    pub ttl_selection: usize,
    pub use_limit_idx: usize,
    pub created_code: Option<String>,
    pub error: Option<String>,
    pub active_invites: Vec<InviteInfo>,
    /// The creation request was sent (so it is not sent twice).
    pub creating_spawned: bool,
    pub selected_invite: usize,
    /// An invite code to revoke, taken by the event loop.
    pub pending_revoke: Option<String>,
}

impl InviteModalState {
    /// A dialog at the configure step, 24 hours and unlimited uses chosen.
    pub fn new() -> (s: Self)
        ensures
            s.step == InviteStep::Configure,
            s.configure_focus == ConfigureFocus::Ttl,
            s.ttl_selection == 1,
            s.use_limit_idx == 0,
            s.created_code is None,
            s.error is None,
            s.active_invites@.len() == 0,
            !s.creating_spawned,
            s.selected_invite == 0,
            s.pending_revoke is None,
    {
        InviteModalState {
            step: InviteStep::Configure,
            configure_focus: ConfigureFocus::Ttl,
            ttl_selection: 1,
            use_limit_idx: 0,
            created_code: None,
            error: None,
            active_invites: Vec::new(),
            creating_spawned: false,
            selected_invite: 0,
            pending_revoke: None,
        }
    }

    /// An invite was revoked: every listed invite with that code goes.
    pub fn remove_invite(&mut self, code: &String)
        ensures
            invite_codes(final(self).active_invites@) == invite_codes(old(self).active_invites@)
                .filter(|c: Seq<char>| c != code@),
            final(self).step == old(self).step,
            final(self).selected_invite == old(self).selected_invite,
    {
        let ghost all = self.active_invites@;
        let mut kept: Vec<InviteInfo> = Vec::new();
        let n = self.active_invites.len();
        let mut i: usize = 0;
        while i < n
            invariant
                n == all.len(),
                self.active_invites@ == all,
                i <= n,
                invite_codes(kept@) == invite_codes(all.take(i as int)).filter(|c: Seq<char>| c != code@),
            decreases n - i,
        {
            let inv = &self.active_invites[i];
            proof {
                let f = |c: Seq<char>| c != code@;
                assert(invite_codes(all.take(i + 1)) =~= invite_codes(all.take(i as int)).push(inv.code@));
                invite_codes(all.take(i as int)).lemma_filter_push(inv.code@, f);
            }
            if inv.code != *code {
                let ghost before = invite_codes(kept@);
                kept.push(InviteInfo {
                    code: inv.code.clone(),
                    display_code: inv.display_code.clone(),
                    expires_at: inv.expires_at.clone(),
                    uses_remaining: inv.uses_remaining,
                });
                proof {
                    assert(invite_codes(kept@) =~= before.push(inv.code@));
                }
            }
            i += 1;
        }
        proof {
            assert(all.take(n as int) =~= all);
        }
        self.active_invites = kept;
    }

    /// The use limit chosen.
    pub fn use_limit(&self) -> (r: Option<u32>)
        requires
            self.use_limit_idx < 7,
        ensures
            r == use_limit_at(self.use_limit_idx as int),
    {
        use_limit_option(self.use_limit_idx)
    }

    /// Handle a key; `true` closes the dialog. Configure: Tab switches the
    /// choice, arrows move within it, Enter starts creating, Esc closes.
    /// Display: Enter or Esc close, arrows move among the invites, `d`
    /// marks the selected one for revoking. While creating, keys do nothing.
    pub fn handle_input(&mut self, key: KeyInput) -> (close: bool)
        ensures
            final(self).active_invites@ == old(self).active_invites@,
            final(self).created_code == old(self).created_code,
            match old(self).step {
                InviteStep::Configure => match key.code {
                    KeyCode::Tab => !close && final(self).configure_focus == (if old(self).configure_focus == ConfigureFocus::Ttl {
                        ConfigureFocus::UseLimit
                    } else {
                        ConfigureFocus::Ttl
                    }) && final(self).step == old(self).step,
                    KeyCode::Up => !close && final(self).step == old(self).step && (if old(self).configure_focus == ConfigureFocus::Ttl {
                        final(self).ttl_selection == (if old(self).ttl_selection > 0 { old(self).ttl_selection - 1 } else { 0 })
                            && final(self).use_limit_idx == old(self).use_limit_idx
                    } else {
                        final(self).use_limit_idx == (if old(self).use_limit_idx > 0 { old(self).use_limit_idx - 1 } else { 0 })
                            && final(self).ttl_selection == old(self).ttl_selection
                    }),
                    KeyCode::Down => !close && final(self).step == old(self).step && (if old(self).configure_focus == ConfigureFocus::Ttl {
                        final(self).ttl_selection == (if old(self).ttl_selection + 1 < 2 { old(self).ttl_selection + 1 } else { 2 })
                            && final(self).use_limit_idx == old(self).use_limit_idx
                    } else {
                        final(self).use_limit_idx == (if old(self).use_limit_idx + 1 < 6 { old(self).use_limit_idx + 1 } else { 6 })
                            && final(self).ttl_selection == old(self).ttl_selection
                    }),
                    KeyCode::Enter => !close && final(self).step == InviteStep::Creating,
                    KeyCode::Esc => close && final(self).step == old(self).step,
                    _ => !close && final(self).step == old(self).step && final(self).ttl_selection == old(self).ttl_selection
                        && final(self).use_limit_idx == old(self).use_limit_idx,
                },
                InviteStep::Display => match key.code {
                    KeyCode::Enter | KeyCode::Esc => close,
                    KeyCode::Up => !close && final(self).selected_invite
                        == (if old(self).selected_invite > 0 { old(self).selected_invite - 1 } else { 0 }),
                    KeyCode::Down => !close && final(self).selected_invite == (if old(self).active_invites@.len() == 0 {
                        old(self).selected_invite as int
                    } else if old(self).selected_invite + 1 <= old(self).active_invites@.len() - 1 {
                        old(self).selected_invite + 1
                    } else {
                        old(self).active_invites@.len() - 1
                    }),
                    KeyCode::Char(c) => !close && (c == 'd' || c == 'D' ==> (if old(self).selected_invite < old(self).active_invites@.len() {
                        final(self).pending_revoke matches Some(code)
                            && code@ == old(self).active_invites@[old(self).selected_invite as int].code@
                    } else {
                        final(self).pending_revoke == old(self).pending_revoke
                    })),
                    _ => !close,
                },
                InviteStep::Creating => !close && final(self).step == InviteStep::Creating,
            },
    {
        match self.step {
            InviteStep::Configure => match key.code {
                KeyCode::Tab => {
                    self.configure_focus = match self.configure_focus {
                        ConfigureFocus::Ttl => ConfigureFocus::UseLimit,
                        ConfigureFocus::UseLimit => ConfigureFocus::Ttl,
                    };
                    false
                },
                KeyCode::Up => {
                    match self.configure_focus {
                        ConfigureFocus::Ttl => {
                            self.ttl_selection = if self.ttl_selection > 0 { self.ttl_selection - 1 } else { 0 };
                        },
                        ConfigureFocus::UseLimit => {
                            self.use_limit_idx = if self.use_limit_idx > 0 { self.use_limit_idx - 1 } else { 0 };
                        },
                    }
                    false
                },
                KeyCode::Down => {
                    match self.configure_focus {
                        ConfigureFocus::Ttl => {
                            self.ttl_selection = if self.ttl_selection < 1 { self.ttl_selection + 1 } else { 2 };
                        },
                        ConfigureFocus::UseLimit => {
                            self.use_limit_idx = if self.use_limit_idx < 5 { self.use_limit_idx + 1 } else { 6 };
                        },
                    }
                    false
                },
                KeyCode::Enter => {
                    self.step = InviteStep::Creating;
                    false
                },
                KeyCode::Esc => true,
                _ => false,
            },
            InviteStep::Display => match key.code {
                KeyCode::Enter | KeyCode::Esc => true,
                KeyCode::Up => {
                    self.selected_invite = if self.selected_invite > 0 { self.selected_invite - 1 } else { 0 };
                    false
                },
                KeyCode::Down => {
                    let n = self.active_invites.len();
                    if n > 0 {
                        self.selected_invite = if self.selected_invite < n - 1 { self.selected_invite + 1 } else { n - 1 };
                    }
                    false
                },
                KeyCode::Char(c) => {
                    if c == 'd' || c == 'D' {
                        if self.selected_invite < self.active_invites.len() {
                            self.pending_revoke = Some(self.active_invites[self.selected_invite].code.clone());
                        }
                    }
                    false
                },
                _ => false,
            },
            InviteStep::Creating => false,
        }
    }
}

/// A user found by a search.
pub struct SearchResult {
    pub uuid: String,
    pub screenname: String,
}

/// What the search dialog asks of the event loop.
pub enum SearchAction {
    Continue,
    Close,
    /// The query changed: search again.
    QueryChanged,
    /// Add this user (by uuid) to the current chat.
    SelectUser(String),
}

/// The user search dialog.
pub struct SearchModalState {
    pub query: String,
    pub results: Vec<SearchResult>,
    pub selected: usize,
    /// The last query sent (to debounce).
    pub last_searched: String,
}

/// `s` without its last character (`String::pop`).
pub fn pop_last_char(s: &mut String)
    ensures
        final(s)@ == (if old(s)@.len() > 0 { old(s)@.drop_last() } else { old(s)@ }),
{
    let chars = chars_of(s.as_str());
    if chars.len() > 0 {
        let t = string_from_chars(chars.as_slice(), 0, chars.len() - 1);
        *s = t;
        assert(s@ =~= old(s)@.drop_last());
    }
}

/// A key types a character: no modifier or shift only.
pub open spec fn typing_mods(k: KeyInput) -> bool {
    no_mods(k.mods) || only_shift(k.mods)
}

/// The user uuids of search results.
pub open spec fn result_uuids(rs: Seq<SearchResult>) -> Seq<Seq<char>> {
    rs.map_values(|r: SearchResult| r.uuid@)
}

/// The uuids of `incoming`, in order, that are not in `existing`.
pub open spec fn fresh_results(incoming: Seq<Seq<char>>, existing: Seq<Seq<char>>) -> Seq<Seq<char>>
    decreases incoming.len(),
{
    if incoming.len() == 0 {
        Seq::empty()
    } else {
        let rest = fresh_results(incoming.drop_last(), existing);
        if existing.contains(incoming.last()) { rest } else { rest.push(incoming.last()) }
    }
}

impl SearchModalState {
    /// An empty search.
    pub fn new() -> (s: Self)
        ensures
            s.query@ == Seq::<char>::empty(),
            s.results@.len() == 0,
            s.selected == 0,
            s.last_searched@ == Seq::<char>::empty(),
    {
        SearchModalState { query: String::new(), results: Vec::new(), selected: 0, last_searched: String::new() }
    }

    /// Handle a key: Esc closes, Enter picks the selected user (closing when
    /// there is none), arrows move, typing and Backspace edit the query.
    /// Search results for `query` arrived. If the query is still the one
    /// typed, each result whose user is not already listed is appended (in
    /// the order given) and the query counts as searched; otherwise the
    /// results are stale and dropped.
    pub fn merge_results(&mut self, query: &String, results: Vec<SearchResult>)
        ensures
            old(self).query@ != query@ ==> final(self).results@ == old(self).results@
                && final(self).last_searched@ == old(self).last_searched@,
            old(self).query@ == query@ ==> {
                &&& result_uuids(final(self).results@) == result_uuids(old(self).results@)
                    + fresh_results(result_uuids(results@), result_uuids(old(self).results@))
                &&& final(self).results@.subrange(0, old(self).results@.len() as int) == old(self).results@
                &&& final(self).last_searched@ == query@
            },
            final(self).query@ == old(self).query@,
            final(self).selected == old(self).selected,
    {
        if self.query != *query {
            return;
        }
        let ghost start = self.results@;
        let ghost existing = result_uuids(start);
        let ghost incoming = result_uuids(results@);
        let n_existing = self.results.len();
        let n = results.len();
        let mut results = results;
        let mut taken: Vec<SearchResult> = Vec::new();
        let mut i: usize = 0;
        while i < n
            invariant
                n == incoming.len(),
                results@.len() == n,
                result_uuids(results@) == incoming,
                i <= n,
                n_existing == start.len(),
                existing == result_uuids(start),
                self.results@ == start,
                result_uuids(taken@) == fresh_results(incoming.take(i as int), existing),
            decreases n - i,
        {
            let r = &results[i];
            proof {
                assert(incoming.take(i + 1).drop_last() =~= incoming.take(i as int));
                assert(incoming[i as int] == r.uuid@);
            }
            let mut known = false;
            let mut j: usize = 0;
            while j < n_existing
                invariant
                    n_existing == start.len(),
                    self.results@ == start,
                    existing == result_uuids(start),
                    j <= n_existing,
                    known == existing.take(j as int).contains(r.uuid@),
                decreases n_existing - j,
            {
                let ghost was = known;
                proof {
                    assert(existing.take(j + 1) =~= existing.take(j as int).push(existing[j as int]));
                    assert(existing[j as int] == self.results@[j as int].uuid@);
                }
                if self.results[j].uuid == r.uuid {
                    known = true;
                }
                proof {
                    let u = r.uuid@;
                    let t = existing.take(j + 1);
                    if existing[j as int] == u {
                        assert(t[j as int] == u);
                    }
                    if t.contains(u) {
                        let k = choose|k: int| 0 <= k < t.len() && t[k] == u;
                        if k < j {
                            assert(existing.take(j as int)[k] == u);
                        }
                    }
                    if was {
                        let k = choose|k: int| 0 <= k < existing.take(j as int).len() && existing.take(j as int)[k] == u;
                        assert(t[k] == u);
                    }
                }
                j += 1;
            }
            proof {
                assert(existing.take(n_existing as int) =~= existing);
            }
            if !known {
                let ghost before = result_uuids(taken@);
                taken.push(SearchResult { uuid: r.uuid.clone(), screenname: r.screenname.clone() });
                proof {
                    assert(result_uuids(taken@) =~= before.push(r.uuid@));
                }
            }
            i += 1;
        }
        proof {
            assert(incoming.take(n as int) =~= incoming);
        }
        let ghost t = taken@;
        self.results.append(&mut taken);
        proof {
            assert(result_uuids(self.results@) =~= result_uuids(start) + result_uuids(t));
            assert(self.results@.subrange(0, start.len() as int) =~= start);
        }
        self.last_searched = query.clone();
    }

    pub fn handle_input(&mut self, key: KeyInput) -> (r: SearchAction)
        ensures
            final(self).results@ == old(self).results@,
            match key.code {
                KeyCode::Esc => r is Close && final(self).query@ == old(self).query@,
                KeyCode::Enter => if old(self).selected < old(self).results@.len() {
                    r matches SearchAction::SelectUser(u) && u@ == old(self).results@[old(self).selected as int].uuid@
                } else {
                    r is Close
                },
                KeyCode::Up => r is Continue && final(self).selected == (if old(self).selected > 0 { old(self).selected - 1 } else { 0 }),
                KeyCode::Down => r is Continue && final(self).selected == (if old(self).selected + 1 < old(self).results@.len() {
                    old(self).selected + 1
                } else {
                    old(self).selected as int
                }),
                KeyCode::Char(c) => if typing_mods(key) {
                    r is QueryChanged && final(self).query@ == old(self).query@.push(c) && final(self).selected == 0
                } else {
                    r is Continue && final(self).query@ == old(self).query@
                },
                KeyCode::Backspace => r is QueryChanged && final(self).selected == 0
                    && final(self).query@ == (if old(self).query@.len() > 0 { old(self).query@.drop_last() } else { old(self).query@ }),
                _ => r is Continue && final(self).query@ == old(self).query@,
            },
    {
        match key.code {
            KeyCode::Esc => SearchAction::Close,
            KeyCode::Enter => {
                if self.selected < self.results.len() {
                    SearchAction::SelectUser(self.results[self.selected].uuid.clone())
                } else {
                    SearchAction::Close
                }
            },
            KeyCode::Up => {
                self.selected = if self.selected > 0 { self.selected - 1 } else { 0 };
                SearchAction::Continue
            },
            KeyCode::Down => {
                if self.selected < self.results.len() && self.selected + 1 < self.results.len() {
                    self.selected += 1;
                }
                SearchAction::Continue
            },
            KeyCode::Char(c) => {
                let m = key.mods;
                if (!m.shift && !m.ctrl && !m.alt && !m.other) || (m.shift && !m.ctrl && !m.alt && !m.other) {
                    push_char(&mut self.query, c);
                    self.selected = 0;
                    SearchAction::QueryChanged
                } else {
                    SearchAction::Continue
                }
            },
            KeyCode::Backspace => {
                pop_last_char(&mut self.query);
                self.selected = 0;
                SearchAction::QueryChanged
            },
            _ => SearchAction::Continue,
        }
    }
}

/// A contact.
pub struct Contact {
    pub uuid: String,
    pub screenname: String,
    pub last_seen_chat: Option<String>,
    pub updated_at: i64,
}

/// What the contacts dialog asks of the event loop.
#[derive(Debug, Clone, Copy, PartialEq, Eq)]
pub enum ContactsAction {
    Continue,
    Close,
}

/// The contacts dialog.
pub struct ContactsModalState {
    pub contacts: Vec<Contact>,
    pub selected: usize,
    pub filter: String,
    /// Topics of the user's chats, by chat uuid.
    pub chat_names: Vec<(String, String)>,
}

/// `sub` occurs in `s`.
pub open spec fn contains_seq(s: Seq<char>, sub: Seq<char>) -> bool {
    exists|i: int| #[trigger] occurs_at(s, sub, i)
}

/// The contacts shown for `filter`: all of them for an empty filter, else
/// those whose lower-cased screenname contains the lower-cased filter.
pub open spec fn shown_contacts(cs: Seq<Contact>, filter: Seq<char>) -> Seq<int>
    decreases cs.len(),
{
    if cs.len() == 0 {
        Seq::empty()
    } else {
        let rest = shown_contacts(cs.drop_last(), filter);
        if filter.len() == 0 || contains_seq(lowercase_of(cs.last().screenname@), lowercase_of(filter)) {
            rest.push(cs.len() - 1)
        } else {
            rest
        }
    }
}

fn contains_chars(s: &[char], sub: &[char]) -> (r: bool)
    ensures
        r == contains_seq(s@, sub@),
{
    if sub.len() > s.len() {
        return false;
    }
    let mut i: usize = 0;
    let n = s.len();
    while i <= s.len() - sub.len()
        invariant
            n == s@.len(),
            sub@.len() <= s@.len(),
            i <= s@.len() - sub@.len() + 1,
            forall|j: int| 0 <= j < i ==> !#[trigger] occurs_at(s@, sub@, j),
        decreases s@.len() - sub@.len() + 1 - i,
    {
        let mut k: usize = 0;
        let mut same = true;
        while k < sub.len()
            invariant
                n == s@.len(),
                i + sub@.len() <= s@.len(),
                k <= sub@.len(),
                same == forall|q: int| 0 <= q < k ==> s@[i + q] == sub@[q],
            decreases sub@.len() - k,
        {
            if s[i + k] != sub[k] {
                same = false;
            }
            k += 1;
        }
        if same {
            assert(s@.subrange(i as int, i + sub@.len()) =~= sub@);
            assert(occurs_at(s@, sub@, i as int));
            return true;
        }
        proof {
            let t = s@.subrange(i as int, i + sub@.len());
            let q = choose|q: int| 0 <= q < sub@.len() && s@[i + q] != sub@[q];
            assert(t[q] != sub@[q]);
        }
        i += 1;
    }
    proof {
        if contains_seq(s@, sub@) {
            let j = choose|j: int| #[trigger] occurs_at(s@, sub@, j);
            assert(j < i);
        }
    }
    false
}

impl ContactsModalState {
    /// A dialog listing `contacts`.
    pub fn new(contacts: Vec<Contact>) -> (s: Self)
        ensures
            s.contacts@ == contacts@,
            s.selected == 0,
            s.filter@ == Seq::<char>::empty(),
            s.chat_names@.len() == 0,
    {
        ContactsModalState { contacts, selected: 0, filter: String::new(), chat_names: Vec::new() }
    }

    /// Positions of the contacts shown for the current filter.
    pub fn filtered(&self) -> (r: Vec<usize>)
        ensures
            r@.map_values(|i: usize| i as int) == shown_contacts(self.contacts@, self.filter@),
    {
        let f = to_lowercase(self.filter.as_str());
        let fc = chars_of(f.as_str());
        let empty = chars_of(self.filter.as_str()).len() == 0;
        let mut out: Vec<usize> = Vec::new();
        let mut i: usize = 0;
        while i < self.contacts.len()
            invariant
                i <= self.contacts@.len(),
                fc@ == lowercase_of(self.filter@),
                empty == (self.filter@.len() == 0),
                out@.map_values(|i: usize| i as int) == shown_contacts(self.contacts@.take(i as int), self.filter@),
            decreases self.contacts@.len() - i,
        {
            proof {
                assert(self.contacts@.take(i + 1).drop_last() =~= self.contacts@.take(i as int));
                assert(self.contacts@.take(i + 1).last() == self.contacts@[i as int]);
            }
            let keep = if empty {
                true
            } else {
                let name = to_lowercase(self.contacts[i].screenname.as_str());
                let nc = chars_of(name.as_str());
                contains_chars(nc.as_slice(), fc.as_slice())
            };
            let ghost before = out@.map_values(|i: usize| i as int);
            if keep {
                out.push(i);
                proof {
                    assert(out@.map_values(|i: usize| i as int) =~= before.push(i as int));
                }
            }
            i += 1;
        }
        proof {
            assert(self.contacts@.take(self.contacts@.len() as int) =~= self.contacts@);
        }
        out
    }

    /// Handle a key: Esc closes, arrows move within the shown contacts,
    /// typing and Backspace edit the filter.
    pub fn handle_input(&mut self, key: KeyInput) -> (r: ContactsAction)
        ensures
            final(self).contacts@ == old(self).contacts@,
            match key.code {
                KeyCode::Esc => r == ContactsAction::Close,
                KeyCode::Up => r == ContactsAction::Continue
                    && final(self).selected == (if old(self).selected > 0 { old(self).selected - 1 } else { 0 }),
                KeyCode::Down => r == ContactsAction::Continue && final(self).selected == ({
                    let n = shown_contacts(old(self).contacts@, old(self).filter@).len();
                    let max = if n > 0 { n - 1 } else { 0 };
                    if old(self).selected < max { old(self).selected + 1 } else { old(self).selected as int }
                }),
                KeyCode::Char(c) => r == ContactsAction::Continue && (if typing_mods(key) {
                    final(self).filter@ == old(self).filter@.push(c) && final(self).selected == 0
                } else {
                    final(self).filter@ == old(self).filter@
                }),
                KeyCode::Backspace => r == ContactsAction::Continue && final(self).selected == 0
                    && final(self).filter@ == (if old(self).filter@.len() > 0 { old(self).filter@.drop_last() } else { old(self).filter@ }),
                _ => r == ContactsAction::Continue,
            },
    {
        match key.code {
            KeyCode::Esc => ContactsAction::Close,
            KeyCode::Up => {
                self.selected = if self.selected > 0 { self.selected - 1 } else { 0 };
                ContactsAction::Continue
            },
            KeyCode::Down => {
                let n = self.filtered().len();
                let max = if n > 0 { n - 1 } else { 0 };
                if self.selected < max {
                    self.selected += 1;
                }
                ContactsAction::Continue
            },
            KeyCode::Char(c) => {
                let m = key.mods;
                if (!m.shift && !m.ctrl && !m.alt && !m.other) || (m.shift && !m.ctrl && !m.alt && !m.other) {
                    push_char(&mut self.filter, c);
                    self.selected = 0;
                }
                ContactsAction::Continue
            },
            KeyCode::Backspace => {
                pop_last_char(&mut self.filter);
                self.selected = 0;
                ContactsAction::Continue
            },
            _ => ContactsAction::Continue,
        }
    }
}

// ---------------------------------------------------------------------------
// Blocking users
// ---------------------------------------------------------------------------

/// Which list of the block dialog has the keys.
#[derive(Debug, Clone, Copy, PartialEq, Eq)]
pub enum BlockFocus {
    /// The search box and the users found.
    Search,
    /// The users already blocked.
    Blocked,
}

/// Whether a confirmation blocks or unblocks.
#[derive(Debug, Clone, Copy, PartialEq, Eq)]
pub enum BlockAction {
    Block,
    Unblock,
}

/// What a key in the block dialog asks of the event loop.
pub enum BlockUsersAction {
    Continue,
    /// Block `(uuid, screenname)`, confirmed.
    Block(String, String),
    /// Unblock `(uuid, screenname)`, confirmed.
    Unblock(String, String),
    Close,
}

/// The block dialog: a search for users to block, the blocked users, and a
/// pending confirmation.
pub struct BlockUsersModalState {
    pub search_input: String,
    /// `(uuid, screenname)` of the users found.
    pub suggestions: Vec<(String, String)>,
    pub selected_suggestion: usize,
    /// `(uuid, screenname)` of the users blocked.
    pub blocked_list: Vec<(String, String)>,
    pub selected_blocked: usize,
    pub focus: BlockFocus,
    /// The user awaiting a yes or no, and what would be done.
    pub confirm: Option<(String, String, BlockAction)>,
}

/// The key is `y` or `Y`.
pub open spec fn is_yes(k: KeyInput) -> bool {
    k.code == KeyCode::Char('y') || k.code == KeyCode::Char('Y')
}

/// The key is `n`, `N` or Esc.
pub open spec fn is_no(k: KeyInput) -> bool {
    k.code == KeyCode::Char('n') || k.code == KeyCode::Char('N') || k.code == KeyCode::Esc
}

/// One step down a list of `n` entries, stopping at the last.
pub open spec fn step_down(sel: usize, n: nat) -> int {
    let max = if n > 0 { n - 1 } else { 0 };
    if sel < max { sel + 1 } else { sel as int }
}

impl BlockUsersModalState {
    /// A dialog listing `blocked`, the search box focused and empty.
    pub fn new(blocked: Vec<(String, String)>) -> (s: Self)
        ensures
            s.search_input@.len() == 0,
            s.suggestions@.len() == 0,
            s.selected_suggestion == 0,
            s.blocked_list@ == blocked@,
            s.selected_blocked == 0,
            s.focus == BlockFocus::Search,
            s.confirm is None,
    {
        BlockUsersModalState {
            search_input: String::new(),
            suggestions: Vec::new(),
            selected_suggestion: 0,
            blocked_list: blocked,
            selected_blocked: 0,
            focus: BlockFocus::Search,
            confirm: None,
        }
    }

    /// Handle a key. While a confirmation is pending, `y` carries it out,
    /// `n` or Esc drops it, other keys do nothing. Otherwise Esc closes, Tab
    /// switches lists, arrows move within the focused list, Enter asks to
    /// block the selected user found (or unblock the selected blocked user),
    /// and typing edits the search while it has the focus.
    pub fn handle_input(&mut self, key: KeyInput) -> (r: BlockUsersAction)
        ensures
            final(self).suggestions@ == old(self).suggestions@,
            final(self).blocked_list@ == old(self).blocked_list@,
            old(self).confirm matches Some(c) ==> ({
                &&& final(self).search_input@ == old(self).search_input@
                &&& final(self).focus == old(self).focus
                &&& final(self).selected_suggestion == old(self).selected_suggestion
                &&& final(self).selected_blocked == old(self).selected_blocked
                &&& if is_yes(key) {
                    &&& final(self).confirm is None
                    &&& match c.2 {
                        BlockAction::Block => r matches BlockUsersAction::Block(u, n) && u@ == c.0@ && n@ == c.1@,
                        BlockAction::Unblock => r matches BlockUsersAction::Unblock(u, n) && u@ == c.0@ && n@ == c.1@,
                    }
                } else if is_no(key) {
                    r is Continue && final(self).confirm is None
                } else {
                    r is Continue && final(self).confirm == old(self).confirm
                }
            }),
            old(self).confirm is None ==> ({
                let o = *old(self);
                let f = *final(self);
                &&& f.focus == (if key.code == KeyCode::Tab {
                    match o.focus { BlockFocus::Search => BlockFocus::Blocked, BlockFocus::Blocked => BlockFocus::Search }
                } else {
                    o.focus
                })
                &&& match key.code {
                    KeyCode::Esc => r is Close && f.confirm is None && f.search_input@ == o.search_input@
                        && f.selected_suggestion == o.selected_suggestion && f.selected_blocked == o.selected_blocked,
                    KeyCode::Tab => r is Continue && f.confirm is None && f.search_input@ == o.search_input@
                        && f.selected_suggestion == o.selected_suggestion && f.selected_blocked == o.selected_blocked,
                    KeyCode::Up => r is Continue && f.confirm is None && f.search_input@ == o.search_input@
                        && if o.focus == BlockFocus::Search {
                            f.selected_suggestion == (if o.selected_suggestion > 0 { o.selected_suggestion - 1 } else { 0 })
                                && f.selected_blocked == o.selected_blocked
                        } else {
                            f.selected_blocked == (if o.selected_blocked > 0 { o.selected_blocked - 1 } else { 0 })
                                && f.selected_suggestion == o.selected_suggestion
                        },
                    KeyCode::Down => r is Continue && f.confirm is None && f.search_input@ == o.search_input@
                        && if o.focus == BlockFocus::Search {
                            f.selected_suggestion == step_down(o.selected_suggestion, o.suggestions@.len())
                                && f.selected_blocked == o.selected_blocked
                        } else {
                            f.selected_blocked == step_down(o.selected_blocked, o.blocked_list@.len())
                                && f.selected_suggestion == o.selected_suggestion
                        },
                    KeyCode::Enter => r is Continue && f.search_input@ == o.search_input@
                        && f.selected_suggestion == o.selected_suggestion && f.selected_blocked == o.selected_blocked
                        && if o.focus == BlockFocus::Search {
                            if o.selected_suggestion < o.suggestions@.len() {
                                f.confirm matches Some(c) && c.0@ == o.suggestions@[o.selected_suggestion as int].0@
                                    && c.1@ == o.suggestions@[o.selected_suggestion as int].1@ && c.2 == BlockAction::Block
                            } else {
                                f.confirm is None
                            }
                        } else {
                            if o.selected_blocked < o.blocked_list@.len() {
                                f.confirm matches Some(c) && c.0@ == o.blocked_list@[o.selected_blocked as int].0@
                                    && c.1@ == o.blocked_list@[o.selected_blocked as int].1@ && c.2 == BlockAction::Unblock
                            } else {
                                f.confirm is None
                            }
                        },
                    KeyCode::Char(ch) => r is Continue && f.confirm is None && f.selected_blocked == o.selected_blocked
                        && if o.focus == BlockFocus::Search && typing_mods(key) {
                            f.search_input@ == o.search_input@.push(ch) && f.selected_suggestion == 0
                        } else {
                            f.search_input@ == o.search_input@ && f.selected_suggestion == o.selected_suggestion
                        },
                    KeyCode::Backspace => r is Continue && f.confirm is None && f.selected_blocked == o.selected_blocked
                        && if o.focus == BlockFocus::Search {
                            f.selected_suggestion == 0 && f.search_input@ == (if o.search_input@.len() > 0 {
                                o.search_input@.drop_last()
                            } else {
                                o.search_input@
                            })
                        } else {
                            f.search_input@ == o.search_input@ && f.selected_suggestion == o.selected_suggestion
                        },
                    _ => r is Continue && f.confirm is None && f.search_input@ == o.search_input@
                        && f.selected_suggestion == o.selected_suggestion && f.selected_blocked == o.selected_blocked,
                }
            }),
    {
        if self.confirm.is_some() {
            let yes = match key.code {
                KeyCode::Char(c) => c == 'y' || c == 'Y',
                _ => false,
            };
            let no = match key.code {
                KeyCode::Char(c) => c == 'n' || c == 'N',
                KeyCode::Esc => true,
                _ => false,
            };
            if yes {
                let c = self.confirm.take();
                match c {
                    Some((uuid, name, action)) => {
                        return match action {
                            BlockAction::Block => BlockUsersAction::Block(uuid, name),
                            BlockAction::Unblock => BlockUsersAction::Unblock(uuid, name),
                        };
                    },
                    None => {
                        return BlockUsersAction::Continue;
                    },
                }
            } else if no {
                self.confirm = None;
            }
            return BlockUsersAction::Continue;
        }
        match key.code {
            KeyCode::Esc => BlockUsersAction::Close,
            KeyCode::Tab => {
                self.focus = match self.focus {
                    BlockFocus::Search => BlockFocus::Blocked,
                    BlockFocus::Blocked => BlockFocus::Search,
                };
                BlockUsersAction::Continue
            },
            KeyCode::Up => {
                match self.focus {
                    BlockFocus::Search => {
                        self.selected_suggestion = if self.selected_suggestion > 0 { self.selected_suggestion - 1 } else { 0 };
                    },
                    BlockFocus::Blocked => {
                        self.selected_blocked = if self.selected_blocked > 0 { self.selected_blocked - 1 } else { 0 };
                    },
                }
                BlockUsersAction::Continue
            },
            KeyCode::Down => {
                match self.focus {
                    BlockFocus::Search => {
                        let n = self.suggestions.len();
                        let max = if n > 0 { n - 1 } else { 0 };
                        if self.selected_suggestion < max {
                            self.selected_suggestion += 1;
                        }
                    },
                    BlockFocus::Blocked => {
                        let n = self.blocked_list.len();
                        let max = if n > 0 { n - 1 } else { 0 };
                        if self.selected_blocked < max {
                            self.selected_blocked += 1;
                        }
                    },
                }
                BlockUsersAction::Continue
            },
            KeyCode::Enter => {
                match self.focus {
                    BlockFocus::Search => {
                        if self.selected_suggestion < self.suggestions.len() {
                            let (u, n) = &self.suggestions[self.selected_suggestion];
                            self.confirm = Some((u.clone(), n.clone(), BlockAction::Block));
                        }
                    },
                    BlockFocus::Blocked => {
                        if self.selected_blocked < self.blocked_list.len() {
                            let (u, n) = &self.blocked_list[self.selected_blocked];
                            self.confirm = Some((u.clone(), n.clone(), BlockAction::Unblock));
                        }
                    },
                }
                BlockUsersAction::Continue
            },
            KeyCode::Char(c) => {
                let m = key.mods;
                let typing = (!m.shift && !m.ctrl && !m.alt && !m.other) || (m.shift && !m.ctrl && !m.alt && !m.other);
                if matches!(self.focus, BlockFocus::Search) && typing {
                    push_char(&mut self.search_input, c);
                    self.selected_suggestion = 0;
                }
                BlockUsersAction::Continue
            },
            KeyCode::Backspace => {
                if matches!(self.focus, BlockFocus::Search) {
                    pop_last_char(&mut self.search_input);
                    self.selected_suggestion = 0;
                }
                BlockUsersAction::Continue
            },
            _ => BlockUsersAction::Continue,
        }
    }
}

} // verus!
