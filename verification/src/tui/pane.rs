//! One view onto a chat: the selected row, which threads are open, and the
//! text being typed into each input of the view.

use vstd::prelude::*;
use vstd::utf8::encode_utf8;

use super::uuid_set::UuidSet;
use crate::text::{
    all_whitespace, char_whitespace, chars_of, is_blank, is_control, is_control_spec, is_whitespace,
    splice_chars, utf8_len_below,
};

verus! {

/// Where typed text goes: the main chat, a thread, or a reply to a message
/// inside a thread.
#[derive(Debug, Clone, PartialEq, Eq, Hash)]
pub enum InputTarget {
    /// The chat itself.
    MainChat,
    /// A thread, by the uuid of its root message.
    Thread(String),
    /// A reply: the uuid of the message replied to, then of the thread root.
    Reply(String, String),
}

impl InputTarget {
    /// What identifies a target: its depth and its uuids.
    pub open spec fn key(&self) -> (int, Seq<char>, Seq<char>) {
        match self {
            InputTarget::MainChat => (0, Seq::empty(), Seq::empty()),
            InputTarget::Thread(root) => (1, root@, Seq::empty()),
            InputTarget::Reply(reply_to, root) => (2, reply_to@, root@),
        }
    }

    /// Indentation depth of the target's input row: 0, 1 or 2.
    pub fn indent(&self) -> (r: u8)
        ensures
            r as int == self.key().0,
    {
        match self {
            InputTarget::MainChat => 0,
            InputTarget::Thread(_) => 1,
            InputTarget::Reply(_, _) => 2,
        }
    }

    /// The `(thread_uuid, reply_to_uuid)` pair a message typed here carries.
    pub fn to_wire_uuids(&self) -> (r: (Option<String>, Option<String>))
        ensures
            match self {
                InputTarget::MainChat => r.0 is None && r.1 is None,
                InputTarget::Thread(root) => r.0 == Some(*root) && r.1 is None,
                InputTarget::Reply(reply_to, root) => r.0 == Some(*root) && r.1 == Some(*reply_to),
            },
    {
        match self {
            InputTarget::MainChat => (None, None),
            InputTarget::Thread(root) => (Some(root.clone()), None),
            InputTarget::Reply(reply_to, root) => (Some(root.clone()), Some(reply_to.clone())),
        }
    }

    /// Whether two targets are the same.
    pub fn same(&self, other: &InputTarget) -> (r: bool)
        ensures
            r == (self.key() == other.key()),
    {
        match (self, other) {
            (InputTarget::MainChat, InputTarget::MainChat) => true,
            (InputTarget::Thread(a), InputTarget::Thread(b)) => *a == *b,
            (InputTarget::Reply(a1, b1), InputTarget::Reply(a2, b2)) => *a1 == *a2 && *b1 == *b2,
            _ => false,
        }
    }

    /// A copy of this target.
    pub fn duplicate(&self) -> (r: InputTarget)
        ensures
            r.key() == self.key(),
    {
        match self {
            InputTarget::MainChat => InputTarget::MainChat,
            InputTarget::Thread(root) => InputTarget::Thread(root.clone()),
            InputTarget::Reply(a, b) => InputTarget::Reply(a.clone(), b.clone()),
        }
    }
}

// ---------------------------------------------------------------------------
// A small map keyed by input target
// ---------------------------------------------------------------------------

/// No two entries share a target.
spec fn targets_distinct<T>(e: Seq<(InputTarget, T)>) -> bool {
    forall|i: int, j: int| 0 <= i < j < e.len() ==> (#[trigger] e[i]).0.key() != (#[trigger] e[j]).0.key()
}

/// Entry `i` is for the target with key `k`.
spec fn target_at<T>(e: Seq<(InputTarget, T)>, k: (int, Seq<char>, Seq<char>), i: int) -> bool {
    0 <= i < e.len() && e[i].0.key() == k
}

/// The map an entry list stands for.
spec fn target_map<T>(e: Seq<(InputTarget, T)>) -> Map<(int, Seq<char>, Seq<char>), T> {
    Map::new(
        |k: (int, Seq<char>, Seq<char>)| exists|i: int| #[trigger] target_at(e, k, i),
        |k: (int, Seq<char>, Seq<char>)| e[choose|i: int| #[trigger] target_at(e, k, i)].1,
    )
}

proof fn lemma_target_map_at<T>(e: Seq<(InputTarget, T)>, i: int)
    requires
        targets_distinct(e),
        0 <= i < e.len(),
    ensures
        target_map(e).contains_key(e[i].0.key()),
        target_map(e)[e[i].0.key()] == e[i].1,
{
    let k = e[i].0.key();
    assert(target_at(e, k, i));
    let c = choose|j: int| #[trigger] target_at(e, k, j);
    assert(target_at(e, k, c));
    if c < i {
        assert(e[c].0.key() != e[i].0.key());
    } else if c > i {
        assert(e[i].0.key() != e[c].0.key());
    }
}

/// Values by input target.
pub struct TargetMap<T> {
    entries: Vec<(InputTarget, T)>,
}

impl<T> View for TargetMap<T> {
    type V = Map<(int, Seq<char>, Seq<char>), T>;

    closed spec fn view(&self) -> Map<(int, Seq<char>, Seq<char>), T> {
        target_map(self.entries@)
    }
}

impl<T> TargetMap<T> {
    #[verifier::type_invariant]
    spec fn distinct(&self) -> bool {
        targets_distinct(self.entries@)
    }

    /// An empty map.
    pub fn new() -> (m: Self)
        ensures
            m@ == Map::<(int, Seq<char>, Seq<char>), T>::empty(),
    {
        let m = TargetMap { entries: Vec::new() };
        assert(m@ =~= Map::<(int, Seq<char>, Seq<char>), T>::empty());
        m
    }

    fn position(&self, t: &InputTarget) -> (r: Option<usize>)
        ensures
            r matches Some(i) ==> i < self.entries@.len() && self.entries@[i as int].0.key() == t.key(),
            r is None ==> forall|i: int| 0 <= i < self.entries@.len() ==> (#[trigger] self.entries@[i]).0.key() != t.key(),
    {
        let mut i: usize = 0;
        while i < self.entries.len()
            invariant
                i <= self.entries@.len(),
                forall|k: int| 0 <= k < i ==> (#[trigger] self.entries@[k]).0.key() != t.key(),
            decreases self.entries@.len() - i,
        {
            if self.entries[i].0.same(t) {
                return Some(i);
            }
            i += 1;
        }
        None
    }

    /// The value for `t`.
    pub fn get(&self, t: &InputTarget) -> (r: Option<&T>)
        ensures
            r is Some <==> self@.contains_key(t.key()),
            r matches Some(v) ==> *v == self@[t.key()],
    {
        proof {
            use_type_invariant(self);
            if self@.contains_key(t.key()) {
                let c = choose|j: int| #[trigger] target_at(self.entries@, t.key(), j);
                assert(target_at(self.entries@, t.key(), c));
            }
        }
        match self.position(t) {
            Some(i) => {
                proof {
                    lemma_target_map_at(self.entries@, i as int);
                }
                Some(&self.entries[i].1)
            },
            None => None,
        }
    }

    /// Set the value for `t`.
    pub fn insert(&mut self, t: InputTarget, v: T)
        ensures
            final(self)@ == old(self)@.insert(t.key(), v),
    {
        proof {
            use_type_invariant(&*self);
        }
        let ghost m = self.entries@;
        let ghost k = t.key();
        let pos = self.position(&t);
        let mut entries: Vec<(InputTarget, T)> = Vec::new();
        std::mem::swap(&mut entries, &mut self.entries);
        match pos {
            Some(i) => {
                entries.set(i, (t, v));
                proof {
                    assert forall|a: int, b: int| 0 <= a < b < entries@.len() implies
                        (#[trigger] entries@[a]).0.key() != (#[trigger] entries@[b]).0.key() by {
                        if a != i && b != i {
                            assert(m[a].0.key() != m[b].0.key());
                        } else if a == i {
                            assert(m[a].0.key() != m[b].0.key());
                        } else {
                            assert(m[a].0.key() != m[b].0.key());
                        }
                    }
                }
            },
            None => {
                entries.push((t, v));
            },
        }
        proof {
            let e2 = entries@;
            let target = target_map(m).insert(k, v);
            let idx: int = match pos { Some(i) => i as int, None => m.len() as int };
            assert(target_at(e2, k, idx));
            assert forall|q: (int, Seq<char>, Seq<char>)| #[trigger] target_map(e2).contains_key(q) <==> target.contains_key(q) by {
                if target_map(e2).contains_key(q) {
                    let j = choose|j: int| #[trigger] target_at(e2, q, j);
                    if j != idx {
                        assert(target_at(m, q, j));
                    }
                }
                if target_map(m).contains_key(q) {
                    let j = choose|j: int| #[trigger] target_at(m, q, j);
                    if j != idx {
                        assert(target_at(e2, q, j));
                    }
                }
            }
            assert forall|q: (int, Seq<char>, Seq<char>)| #[trigger] target_map(e2).contains_key(q) implies target_map(e2)[q] == target[q] by {
                let j = choose|j: int| #[trigger] target_at(e2, q, j);
                lemma_target_map_at(e2, j);
                if j != idx {
                    assert(target_at(m, q, j));
                    lemma_target_map_at(m, j);
                }
            }
            assert(target_map(e2) =~= target);
        }
        self.entries = entries;
    }

    /// Remove the value for `t`, returning it.
    pub fn remove(&mut self, t: &InputTarget) -> (r: Option<T>)
        ensures
            final(self)@ == old(self)@.remove(t.key()),
            r is Some <==> old(self)@.contains_key(t.key()),
            r matches Some(v) ==> v == old(self)@[t.key()],
    {
        proof {
            use_type_invariant(&*self);
            if self@.contains_key(t.key()) {
                let c = choose|j: int| #[trigger] target_at(self.entries@, t.key(), j);
                assert(target_at(self.entries@, t.key(), c));
            }
        }
        let ghost m = self.entries@;
        let ghost k = t.key();
        match self.position(t) {
            Some(i) => {
                proof {
                    lemma_target_map_at(m, i as int);
                }
                let mut entries: Vec<(InputTarget, T)> = Vec::new();
                std::mem::swap(&mut entries, &mut self.entries);
                let (_, v) = entries.remove(i);
                proof {
                    let e2 = entries@;
                    assert forall|a: int, b: int| 0 <= a < b < e2.len() implies
                        (#[trigger] e2[a]).0.key() != (#[trigger] e2[b]).0.key() by {
                        let a0 = if a < i { a } else { a + 1 };
                        let b0 = if b < i { b } else { b + 1 };
                        assert(e2[a] == m[a0]);
                        assert(e2[b] == m[b0]);
                    }
                    let target = target_map(m).remove(k);
                    assert forall|q: (int, Seq<char>, Seq<char>)| #[trigger] target_map(e2).contains_key(q) <==> target.contains_key(q) by {
                        if target_map(e2).contains_key(q) {
                            let j = choose|j: int| #[trigger] target_at(e2, q, j);
                            let j0 = if j < i { j } else { j + 1 };
                            assert(target_at(m, q, j0));
                            assert(j0 != i);
                            assert(q != k) by {
                                if j0 < i { assert(m[j0].0.key() != m[i as int].0.key()); }
                                else { assert(m[i as int].0.key() != m[j0].0.key()); }
                            }
                        }
                        if target.contains_key(q) {
                            let j = choose|j: int| #[trigger] target_at(m, q, j);
                            assert(j != i);
                            let j2 = if j < i { j } else { j - 1 };
                            assert(target_at(e2, q, j2));
                        }
                    }
                    assert forall|q: (int, Seq<char>, Seq<char>)| #[trigger] target_map(e2).contains_key(q) implies target_map(e2)[q] == target[q] by {
                        let j = choose|j: int| #[trigger] target_at(e2, q, j);
                        lemma_target_map_at(e2, j);
                        let j0 = if j < i { j } else { j + 1 };
                        assert(e2[j] == m[j0]);
                        lemma_target_map_at(m, j0);
                    }
                    assert(target_map(e2) =~= target);
                }
                self.entries = entries;
                Some(v)
            },
            None => {
                proof {
                    assert(target_map(m) =~= target_map(m).remove(k));
                }
                None
            },
        }
    }

    /// Remove every value.
    pub fn clear(&mut self)
        ensures
            final(self)@ == Map::<(int, Seq<char>, Seq<char>), T>::empty(),
    {
        self.entries = Vec::new();
        assert(self@ =~= Map::<(int, Seq<char>, Seq<char>), T>::empty());
    }
}

// ---------------------------------------------------------------------------
// The pane
// ---------------------------------------------------------------------------

/// The text typed at the target with key `k`: empty when nothing was typed.
pub open spec fn text_at(inputs: Map<(int, Seq<char>, Seq<char>), Seq<char>>, k: (int, Seq<char>, Seq<char>)) -> Seq<char> {
    if inputs.contains_key(k) { inputs[k] } else { Seq::empty() }
}

/// The cursor (a character index) of the target with key `k`: the end of its
/// text when none was set.
pub open spec fn cursor_at(
    cursors: Map<(int, Seq<char>, Seq<char>), usize>,
    inputs: Map<(int, Seq<char>, Seq<char>), Seq<char>>,
    k: (int, Seq<char>, Seq<char>),
) -> int {
    if cursors.contains_key(k) { cursors[k] as int } else { text_at(inputs, k).len() as int }
}

/// The position of the last `@` before `cur` in `s`.
pub open spec fn last_at_before(s: Seq<char>, cur: int) -> Option<int>
    decreases cur,
{
    if cur <= 0 {
        None
    } else if s[cur - 1] == '@' {
        Some(cur - 1)
    } else {
        last_at_before(s, cur - 1)
    }
}

proof fn lemma_last_at_before(s: Seq<char>, cur: int)
    ensures
        last_at_before(s, cur) matches Some(a) ==> 0 <= a < cur && s[a] == '@'
            && forall|j: int| a < j < cur ==> s[j] != '@',
        last_at_before(s, cur) is None ==> forall|j: int| 0 <= j < cur ==> s[j] != '@',
    decreases cur,
{
    if cur > 0 && s[cur - 1] != '@' {
        lemma_last_at_before(s, cur - 1);
    }
}

/// The position of the last `@` before `cur`.
fn find_last_at(chars: &[char], cur: usize) -> (r: Option<usize>)
    requires
        cur <= chars@.len(),
    ensures
        r is None <==> last_at_before(chars@, cur as int) is None,
        r matches Some(a) ==> last_at_before(chars@, cur as int) == Some(a as int),
{
    let mut k = cur;
    while k > 0
        invariant
            k <= cur <= chars@.len(),
            last_at_before(chars@, cur as int) == last_at_before(chars@, k as int),
        decreases k,
    {
        if chars[k - 1] == '@' {
            return Some(k - 1);
        }
        k -= 1;
    }
    None
}

/// Where a backward word motion from `cur` lands: back over white space,
/// then back over the word before it.
pub open spec fn word_start_before(s: Seq<char>, cur: int) -> int {
    skip_word_back(s, skip_space_back(s, cur))
}

/// Back from `i` over white space.
pub open spec fn skip_space_back(s: Seq<char>, i: int) -> int
    decreases i,
{
    if i <= 0 { 0 } else if char_whitespace(s[i - 1]) { skip_space_back(s, i - 1) } else { i }
}

/// Back from `i` over characters that are not white space.
pub open spec fn skip_word_back(s: Seq<char>, i: int) -> int
    decreases i,
{
    if i <= 0 { 0 } else if !char_whitespace(s[i - 1]) { skip_word_back(s, i - 1) } else { i }
}

/// Where a forward word motion from `cur` lands: over white space, then over
/// the word after it.
pub open spec fn word_end_after(s: Seq<char>, cur: int) -> int {
    skip_word_fwd(s, skip_space_fwd(s, cur))
}

/// Forward from `i` over white space.
pub open spec fn skip_space_fwd(s: Seq<char>, i: int) -> int
    decreases s.len() - i,
{
    if i >= s.len() { s.len() as int } else if char_whitespace(s[i]) { skip_space_fwd(s, i + 1) } else { i }
}

/// Forward from `i` over characters that are not white space.
pub open spec fn skip_word_fwd(s: Seq<char>, i: int) -> int
    decreases s.len() - i,
{
    if i >= s.len() { s.len() as int } else if !char_whitespace(s[i]) { skip_word_fwd(s, i + 1) } else { i }
}

proof fn lemma_skip_back(s: Seq<char>, i: int)
    requires
        0 <= i <= s.len(),
    ensures
        0 <= skip_space_back(s, i) <= i,
        0 <= skip_word_back(s, i) <= i,
    decreases i,
{
    if i > 0 {
        lemma_skip_back(s, i - 1);
    }
}

proof fn lemma_skip_fwd(s: Seq<char>, i: int)
    requires
        0 <= i <= s.len(),
    ensures
        i <= skip_space_fwd(s, i) <= s.len(),
        i <= skip_word_fwd(s, i) <= s.len(),
    decreases s.len() - i,
{
    if i < s.len() {
        lemma_skip_fwd(s, i + 1);
    }
}

fn space_back(s: &[char], i: usize) -> (r: usize)
    requires
        i <= s@.len(),
    ensures
        r == skip_space_back(s@, i as int),
{
    let mut k = i;
    while k > 0 && is_whitespace(s[k - 1])
        invariant
            k <= i <= s@.len(),
            skip_space_back(s@, i as int) == skip_space_back(s@, k as int),
        decreases k,
    {
        k -= 1;
    }
    k
}

fn word_back(s: &[char], i: usize) -> (r: usize)
    requires
        i <= s@.len(),
    ensures
        r == skip_word_back(s@, i as int),
{
    let mut k = i;
    while k > 0 && !is_whitespace(s[k - 1])
        invariant
            k <= i <= s@.len(),
            skip_word_back(s@, i as int) == skip_word_back(s@, k as int),
        decreases k,
    {
        k -= 1;
    }
    k
}

fn space_fwd(s: &[char], i: usize) -> (r: usize)
    requires
        i <= s@.len(),
    ensures
        r == skip_space_fwd(s@, i as int),
{
    let mut k = i;
    while k < s.len() && is_whitespace(s[k])
        invariant
            i <= k <= s@.len(),
            skip_space_fwd(s@, i as int) == skip_space_fwd(s@, k as int),
        decreases s@.len() - k,
    {
        k += 1;
    }
    k
}

fn word_fwd(s: &[char], i: usize) -> (r: usize)
    requires
        i <= s@.len(),
    ensures
        r == skip_word_fwd(s@, i as int),
{
    let mut k = i;
    while k < s.len() && !is_whitespace(s[k])
        invariant
            i <= k <= s@.len(),
            skip_word_fwd(s@, i as int) == skip_word_fwd(s@, k as int),
        decreases s@.len() - k,
    {
        k += 1;
    }
    k
}

/// Every cursor set lies within its text.
spec fn cursors_fit(inputs: Map<(int, Seq<char>, Seq<char>), String>, cursors: Map<(int, Seq<char>, Seq<char>), usize>) -> bool {
    forall|k: (int, Seq<char>, Seq<char>)| cursors.contains_key(k)
        ==> #[trigger] cursors[k] <= text_at(inputs.map_values(|s: String| s@), k).len()
}

/// One view onto a chat: the selected row, the input being edited, the
/// typed text and cursor of each input, and which threads and sub-threads are
/// open. A cursor never lies past the end of its text.
pub struct Pane {
    selected: usize,
    editing: Option<InputTarget>,
    inputs: TargetMap<String>,
    cursors: TargetMap<usize>,
    expanded: UuidSet,
    collapsed_subs: UuidSet,
}

impl Pane {
    #[verifier::type_invariant]
    spec fn cursors_within_text(&self) -> bool {
        cursors_fit(self.inputs@, self.cursors@)
    }

    /// Take the texts and cursors out, leaving none behind.
    fn take_maps(&mut self) -> (r: (TargetMap<String>, TargetMap<usize>))
        ensures
            r.0@ == old(self).inputs@,
            r.1@ == old(self).cursors@,
            cursors_fit(r.0@, r.1@),
            final(self).same_view(old(self)),
    {
        proof {
            use_type_invariant(&*self);
        }
        let mut p = Pane::new();
        std::mem::swap(&mut p, self);
        let Pane { selected, editing, inputs, cursors, expanded, collapsed_subs } = p;
        *self = Pane { selected, editing, inputs: TargetMap::new(), cursors: TargetMap::new(), expanded, collapsed_subs };
        (inputs, cursors)
    }

    /// Put texts and cursors back.
    fn put_maps(&mut self, inputs: TargetMap<String>, cursors: TargetMap<usize>)
        requires
            cursors_fit(inputs@, cursors@),
        ensures
            final(self).inputs@ == inputs@,
            final(self).cursors@ == cursors@,
            final(self).same_view(old(self)),
    {
        let mut p = Pane::new();
        std::mem::swap(&mut p, self);
        let Pane { selected, editing, inputs: _, cursors: _, expanded, collapsed_subs } = p;
        *self = Pane { selected, editing, inputs, cursors, expanded, collapsed_subs };
    }

    /// Index of the selected render row.
    pub closed spec fn selected_row(&self) -> usize {
        self.selected
    }

    /// The key of the input being edited, if any.
    pub closed spec fn editing_key(&self) -> Option<(int, Seq<char>, Seq<char>)> {
        match self.editing {
            Some(t) => Some(t.key()),
            None => None,
        }
    }

    /// The typed text of each input.
    pub closed spec fn texts(&self) -> Map<(int, Seq<char>, Seq<char>), Seq<char>> {
        self.inputs@.map_values(|s: String| s@)
    }

    /// The cursors that were set.
    pub closed spec fn cursors(&self) -> Map<(int, Seq<char>, Seq<char>), usize> {
        self.cursors@
    }

    /// Roots of the expanded threads.
    pub closed spec fn expanded_threads(&self) -> Set<Seq<char>> {
        self.expanded@
    }

    /// Depth-1 messages whose replies are folded away.
    pub closed spec fn collapsed_subthreads(&self) -> Set<Seq<char>> {
        self.collapsed_subs@
    }

    /// Everything but the texts and cursors is as in `other`.
    pub open spec fn same_view(&self, other: &Pane) -> bool {
        &&& self.selected_row() == other.selected_row()
        &&& self.editing_key() == other.editing_key()
        &&& self.expanded_threads() == other.expanded_threads()
        &&& self.collapsed_subthreads() == other.collapsed_subthreads()
    }

    /// The text and cursor of the input being edited.
    pub open spec fn edit_text(&self) -> Seq<char> {
        text_at(self.texts(), self.editing_key()->Some_0)
    }

    /// The cursor of the input being edited.
    pub open spec fn edit_cursor(&self) -> int {
        cursor_at(self.cursors(), self.texts(), self.editing_key()->Some_0)
    }

    /// `self` is `o` with `c` typed at the cursor of the edited input.
    /// Control characters other than tab are ignored, and so is any character
    /// once the text has reached 4096 bytes.
    pub open spec fn typed_from(&self, o: &Pane, c: char) -> bool {
        let k = o.editing_key()->Some_0;
        let s = o.edit_text();
        let cur = o.edit_cursor();
        &&& self.same_view(o)
        &&& if (is_control_spec(c) && c != '\t') || o.editing_key() is None || encode_utf8(s).len() >= 4096 {
            self.texts() == o.texts() && self.cursors() == o.cursors()
        } else {
            &&& self.texts() == o.texts().insert(k, s.take(cur) + seq![c] + s.skip(cur))
            &&& self.cursors() == o.cursors().insert(k, (cur + 1) as usize)
        }
    }

    /// `self` is `o` with the character before the edited input's cursor
    /// deleted.
    pub open spec fn backspaced_from(&self, o: &Pane) -> bool {
        let k = o.editing_key()->Some_0;
        let s = o.edit_text();
        let cur = o.edit_cursor();
        &&& self.same_view(o)
        &&& if o.editing_key() is None || !o.texts().contains_key(k) {
            self.texts() == o.texts() && self.cursors() == o.cursors()
        } else if cur > 0 {
            &&& self.texts() == o.texts().insert(k, s.take(cur - 1) + s.skip(cur))
            &&& self.cursors() == o.cursors().insert(k, (cur - 1) as usize)
        } else {
            &&& self.texts() == o.texts()
            &&& self.cursors() == o.cursors().insert(k, 0usize)
        }
    }

    /// `self` is `o` with the edited input's text between positions `lo` and
    /// `hi` deleted and the cursor at `lo` (nothing changes when no input is
    /// edited).
    pub open spec fn deleted_between_from(&self, o: &Pane, lo: int, hi: int) -> bool {
        let k = o.editing_key()->Some_0;
        let s = o.edit_text();
        &&& self.same_view(o)
        &&& if o.editing_key() is None {
            self.texts() == o.texts() && self.cursors() == o.cursors()
        } else {
            &&& self.texts() == o.texts().insert(k, s.take(lo) + s.skip(hi))
            &&& self.cursors() == o.cursors().insert(k, lo as usize)
        }
    }

    /// `self` is `o` with the edited input's cursor set to `pos` (nothing
    /// changes when no input is edited).
    pub open spec fn cursor_moved_from(&self, o: &Pane, pos: int) -> bool {
        &&& self.same_view(o)
        &&& self.texts() == o.texts()
        &&& o.editing_key() is None ==> self.cursors() == o.cursors()
        &&& o.editing_key() matches Some(k) ==> self.cursors() == o.cursors().insert(k, pos as usize)
    }

    /// One character left of the edited input's cursor, stopping at the start.
    pub open spec fn left_of_cursor(&self) -> int {
        if self.edit_cursor() > 0 { self.edit_cursor() - 1 } else { 0 }
    }

    /// One character right of the edited input's cursor, stopping at the end.
    pub open spec fn right_of_cursor(&self) -> int {
        if self.edit_cursor() < self.edit_text().len() { self.edit_cursor() + 1 } else { self.edit_cursor() }
    }

    /// `self` is `o` with the mention being typed in the edited input (from
    /// the last `@` before the cursor up to the cursor) replaced by `tag`, the
    /// cursor after it; nothing changes when no input with text is edited or
    /// no `@` precedes the cursor.
    pub open spec fn mention_completed_from(&self, o: &Pane, tag: Seq<char>) -> bool {
        let k = o.editing_key()->Some_0;
        let s = o.edit_text();
        let cur = o.edit_cursor();
        &&& self.same_view(o)
        &&& if o.editing_key() is None || !o.texts().contains_key(k) || last_at_before(s, cur) is None {
            self.texts() == o.texts() && self.cursors() == o.cursors()
        } else {
            let at = last_at_before(s, cur)->Some_0;
            &&& self.texts() == o.texts().insert(k, s.take(at) + tag + s.skip(cur))
            &&& self.cursors() == o.cursors().insert(k, (at + tag.len()) as usize)
        }
    }

    /// A pane with nothing selected, edited, typed or expanded.
    pub fn new() -> (p: Self)
        ensures
            p.selected_row() == 0,
            p.editing_key() is None,
            p.texts() == Map::<(int, Seq<char>, Seq<char>), Seq<char>>::empty(),
            p.cursors() == Map::<(int, Seq<char>, Seq<char>), usize>::empty(),
            p.expanded_threads() == Set::<Seq<char>>::empty(),
            p.collapsed_subthreads() == Set::<Seq<char>>::empty(),
    {
        let p = Pane {
            selected: 0,
            editing: None,
            inputs: TargetMap::new(),
            cursors: TargetMap::new(),
            expanded: UuidSet::new(),
            collapsed_subs: UuidSet::new(),
        };
        assert(p.texts() =~= Map::<(int, Seq<char>, Seq<char>), Seq<char>>::empty());
        p
    }

    /// Forget the selection, the edited input, all typed text and which
    /// threads are open.
    pub fn clear_view_state(&mut self)
        ensures
            final(self).selected_row() == 0,
            final(self).editing_key() is None,
            final(self).texts() == Map::<(int, Seq<char>, Seq<char>), Seq<char>>::empty(),
            final(self).cursors() == Map::<(int, Seq<char>, Seq<char>), usize>::empty(),
            final(self).expanded_threads() == Set::<Seq<char>>::empty(),
            final(self).collapsed_subthreads() == Set::<Seq<char>>::empty(),
    {
        proof {
            use_type_invariant(&*self);
        }
        self.expanded = UuidSet::new();
        self.collapsed_subs = UuidSet::new();
        self.selected = 0;
        self.editing = None;
        self.cursors = TargetMap::new();
        self.inputs = TargetMap::new();
        assert(self.texts() =~= Map::<(int, Seq<char>, Seq<char>), Seq<char>>::empty());
    }

    /// Index of the selected render row.
    pub fn selected(&self) -> (r: usize)
        ensures
            r == self.selected_row(),
    {
        self.selected
    }

    /// Select render row `row`.
    pub fn set_selected(&mut self, row: usize)
        ensures
            final(self).selected_row() == row,
            final(self).editing_key() == old(self).editing_key(),
            final(self).texts() == old(self).texts(),
            final(self).cursors() == old(self).cursors(),
            final(self).expanded_threads() == old(self).expanded_threads(),
            final(self).collapsed_subthreads() == old(self).collapsed_subthreads(),
    {
        proof {
            use_type_invariant(&*self);
        }
        self.selected = row;
    }

    /// The input being edited.
    pub fn editing(&self) -> (r: Option<&InputTarget>)
        ensures
            match r {
                Some(t) => self.editing_key() == Some(t.key()),
                None => self.editing_key() is None,
            },
    {
        self.editing.as_ref()
    }

    /// Start editing `target`, or stop editing with `None`.
    pub fn set_editing(&mut self, target: Option<InputTarget>)
        ensures
            final(self).editing_key() == (match target { Some(t) => Some(t.key()), None => None }),
            final(self).selected_row() == old(self).selected_row(),
            final(self).texts() == old(self).texts(),
            final(self).cursors() == old(self).cursors(),
            final(self).expanded_threads() == old(self).expanded_threads(),
            final(self).collapsed_subthreads() == old(self).collapsed_subthreads(),
    {
        proof {
            use_type_invariant(&*self);
        }
        self.editing = target;
    }

    /// Whether the thread rooted at `root` is expanded.
    pub fn is_expanded(&self, root: &String) -> (r: bool)
        ensures
            r == self.expanded_threads().contains(root@),
    {
        self.expanded.contains(root)
    }

    /// Expand the thread rooted at `root`.
    pub fn expand(&mut self, root: String)
        ensures
            final(self).expanded_threads() == old(self).expanded_threads().insert(root@),
            final(self).selected_row() == old(self).selected_row(),
            final(self).editing_key() == old(self).editing_key(),
            final(self).texts() == old(self).texts(),
            final(self).cursors() == old(self).cursors(),
            final(self).collapsed_subthreads() == old(self).collapsed_subthreads(),
    {
        proof {
            use_type_invariant(&*self);
        }
        let mut p = Pane::new();
        std::mem::swap(&mut p, self);
        let Pane { selected, editing, inputs, cursors, mut expanded, mut collapsed_subs } = p;
        expanded.insert(root);
        *self = Pane { selected, editing, inputs, cursors, expanded, collapsed_subs };
    }

    /// Collapse the thread rooted at `root`.
    pub fn collapse(&mut self, root: &String)
        ensures
            final(self).expanded_threads() == old(self).expanded_threads().remove(root@),
            final(self).selected_row() == old(self).selected_row(),
            final(self).editing_key() == old(self).editing_key(),
            final(self).texts() == old(self).texts(),
            final(self).cursors() == old(self).cursors(),
            final(self).collapsed_subthreads() == old(self).collapsed_subthreads(),
    {
        proof {
            use_type_invariant(&*self);
        }
        let mut p = Pane::new();
        std::mem::swap(&mut p, self);
        let Pane { selected, editing, inputs, cursors, mut expanded, mut collapsed_subs } = p;
        expanded.remove(root);
        *self = Pane { selected, editing, inputs, cursors, expanded, collapsed_subs };
    }

    /// Whether the replies to the depth-1 message `uuid` are folded away.
    pub fn is_sub_collapsed(&self, uuid: &String) -> (r: bool)
        ensures
            r == self.collapsed_subthreads().contains(uuid@),
    {
        self.collapsed_subs.contains(uuid)
    }

    /// Fold away the replies to the depth-1 message `uuid`.
    pub fn collapse_sub(&mut self, uuid: String)
        ensures
            final(self).collapsed_subthreads() == old(self).collapsed_subthreads().insert(uuid@),
            final(self).selected_row() == old(self).selected_row(),
            final(self).editing_key() == old(self).editing_key(),
            final(self).texts() == old(self).texts(),
            final(self).cursors() == old(self).cursors(),
            final(self).expanded_threads() == old(self).expanded_threads(),
    {
        proof {
            use_type_invariant(&*self);
        }
        let mut p = Pane::new();
        std::mem::swap(&mut p, self);
        let Pane { selected, editing, inputs, cursors, mut expanded, mut collapsed_subs } = p;
        collapsed_subs.insert(uuid);
        *self = Pane { selected, editing, inputs, cursors, expanded, collapsed_subs };
    }

    /// Show the replies to the depth-1 message `uuid` again.
    pub fn expand_sub(&mut self, uuid: &String)
        ensures
            final(self).collapsed_subthreads() == old(self).collapsed_subthreads().remove(uuid@),
            final(self).selected_row() == old(self).selected_row(),
            final(self).editing_key() == old(self).editing_key(),
            final(self).texts() == old(self).texts(),
            final(self).cursors() == old(self).cursors(),
            final(self).expanded_threads() == old(self).expanded_threads(),
    {
        proof {
            use_type_invariant(&*self);
        }
        let mut p = Pane::new();
        std::mem::swap(&mut p, self);
        let Pane { selected, editing, inputs, cursors, mut expanded, mut collapsed_subs } = p;
        collapsed_subs.remove(uuid);
        *self = Pane { selected, editing, inputs, cursors, expanded, collapsed_subs };
    }

    /// The text typed at `target` (empty when nothing was).
    pub fn input_text(&self, target: &InputTarget) -> (r: String)
        ensures
            r@ == text_at(self.texts(), target.key()),
    {
        match self.inputs.get(target) {
            Some(s) => s.clone(),
            None => String::new(),
        }
    }

    /// The cursor of `target`: the end of its text when none was set.
    pub fn input_cursor(&self, target: &InputTarget) -> (r: usize)
        ensures
            r == cursor_at(self.cursors(), self.texts(), target.key()),
            r <= text_at(self.texts(), target.key()).len(),
    {
        proof {
            use_type_invariant(self);
        }
        match self.cursors.get(target) {
            Some(c) => *c,
            None => {
                let s = self.input_text(target);
                let n = chars_of(s.as_str()).len();
                n
            },
        }
    }

    /// Store `text` and `cursor` for `target`.
    fn write_input(&mut self, target: InputTarget, text: String, cursor: usize)
        requires
            cursor <= text@.len(),
        ensures
            final(self).texts() == old(self).texts().insert(target.key(), text@),
            final(self).cursors() == old(self).cursors().insert(target.key(), cursor),
            final(self).same_view(old(self)),
    {
        proof {
            use_type_invariant(&*self);
        }
        let ghost k = target.key();
        let t2 = target.duplicate();
        let (mut inputs, mut cursors) = self.take_maps();
        let ghost old_texts = inputs@.map_values(|s: String| s@);
        inputs.insert(target, text);
        cursors.insert(t2, cursor);
        proof {
            assert(inputs@.map_values(|s: String| s@) =~= old_texts.insert(k, text@));
        }
        self.put_maps(inputs, cursors);
    }

    /// Store `cursor` for `target`, whose text stays.
    fn write_cursor(&mut self, target: InputTarget, cursor: usize)
        requires
            cursor <= text_at(old(self).texts(), target.key()).len(),
        ensures
            final(self).texts() == old(self).texts(),
            final(self).cursors() == old(self).cursors().insert(target.key(), cursor),
            final(self).same_view(old(self)),
    {
        proof {
            use_type_invariant(&*self);
        }
        let (inputs, mut cursors) = self.take_maps();
        cursors.insert(target, cursor);
        self.put_maps(inputs, cursors);
    }

    /// Type `c` at the cursor of the input being edited. Control characters
    /// other than tab are ignored, and so is any character once the text has
    /// reached 4096 bytes.
    pub fn push_char(&mut self, c: char)
        ensures
            final(self).typed_from(old(self), c),
    {
        if is_control(c) && c != '\t' {
            return;
        }
        let target = match &self.editing {
            Some(t) => t.duplicate(),
            None => return,
        };
        let text = self.input_text(&target);
        let chars = chars_of(text.as_str());
        if !utf8_len_below(chars.as_slice(), 4096) {
            return;
        }
        let cur = self.input_cursor(&target);
        let mut mid: Vec<char> = Vec::new();
        mid.push(c);
        let updated = splice_chars(chars.as_slice(), cur, cur, mid.as_slice());
        proof {
            assert(mid@ =~= seq![c]);
            assert(chars@.subrange(0, cur as int) =~= chars@.take(cur as int));
            assert(chars@.subrange(cur as int, chars@.len() as int) =~= chars@.skip(cur as int));
        }
        let new_len = chars_of(updated.as_str()).len();
        self.write_input(target, updated, cur + 1);
    }

    /// Delete the character before the cursor of the input being edited.
    pub fn pop_char(&mut self)
        ensures
            final(self).backspaced_from(old(self)),
    {
        let target = match &self.editing {
            Some(t) => t.duplicate(),
            None => return,
        };
        if self.inputs.get(&target).is_none() {
            return;
        }
        let text = self.input_text(&target);
        let cur = self.input_cursor(&target);
        if cur > 0 {
            let chars = chars_of(text.as_str());
            let empty: Vec<char> = Vec::new();
            let updated = splice_chars(chars.as_slice(), cur - 1, cur, empty.as_slice());
            proof {
                assert(chars@.subrange(0, cur - 1) =~= chars@.take(cur - 1));
                assert(chars@.subrange(cur as int, chars@.len() as int) =~= chars@.skip(cur as int));
                assert(chars@.take(cur - 1) + empty@ =~= chars@.take(cur - 1));
            }
            self.write_input(target, updated, cur - 1);
        } else {
            self.write_cursor(target, 0);
        }
    }

    /// Move the cursor of the input being edited one character left.
    pub fn move_cursor_left(&mut self)
        ensures
            final(self).cursor_moved_from(old(self), old(self).left_of_cursor()),
    {
        let target = match &self.editing {
            Some(t) => t.duplicate(),
            None => return,
        };
        let cur = self.input_cursor(&target);
        let next = if cur > 0 { cur - 1 } else { cur };
        self.write_cursor(target, next);
    }

    /// Move the cursor of the input being edited one character right, up to
    /// the end of the text.
    pub fn move_cursor_right(&mut self)
        ensures
            final(self).cursor_moved_from(old(self), old(self).right_of_cursor()),
    {
        let target = match &self.editing {
            Some(t) => t.duplicate(),
            None => return,
        };
        let cur = self.input_cursor(&target);
        let len = chars_of(self.input_text(&target).as_str()).len();
        let next = if cur < len { cur + 1 } else { cur };
        self.write_cursor(target, next);
    }

    /// Move the cursor of the input being edited to the start of its text.
    pub fn move_cursor_to_start(&mut self)
        ensures
            final(self).cursor_moved_from(old(self), 0),
    {
        let target = match &self.editing {
            Some(t) => t.duplicate(),
            None => return,
        };
        self.write_cursor(target, 0);
    }

    /// Move the cursor of the input being edited back to the start of the
    /// word before it (over white space, then over the word).
    pub fn move_cursor_word_back(&mut self)
        ensures
            final(self).cursor_moved_from(old(self), word_start_before(old(self).edit_text(), old(self).edit_cursor())),
    {
        proof {
            use_type_invariant(&*self);
        }
        let target = match &self.editing {
            Some(t) => t.duplicate(),
            None => return,
        };
        let text = self.input_text(&target);
        let cur = self.input_cursor(&target);
        let chars = chars_of(text.as_str());
        let a = space_back(chars.as_slice(), cur);
        proof {
            lemma_skip_back(chars@, cur as int);
        }
        let b = word_back(chars.as_slice(), a);
        proof {
            lemma_skip_back(chars@, a as int);
        }
        self.write_cursor(target, b);
    }

    /// Move the cursor of the input being edited forward past the end of
    /// the word after it (over white space, then over the word).
    pub fn move_cursor_word_forward(&mut self)
        ensures
            final(self).cursor_moved_from(old(self), word_end_after(old(self).edit_text(), old(self).edit_cursor())),
    {
        proof {
            use_type_invariant(&*self);
        }
        let target = match &self.editing {
            Some(t) => t.duplicate(),
            None => return,
        };
        let text = self.input_text(&target);
        let cur = self.input_cursor(&target);
        let chars = chars_of(text.as_str());
        let a = space_fwd(chars.as_slice(), cur);
        proof {
            lemma_skip_fwd(chars@, cur as int);
        }
        let b = word_fwd(chars.as_slice(), a);
        proof {
            lemma_skip_fwd(chars@, a as int);
        }
        self.write_cursor(target, b);
    }

    /// Delete the text between `lo` and `hi` (character positions) of the
    /// edited input, leaving the cursor at `lo`.
    fn delete_range(&mut self, target: InputTarget, lo: usize, hi: usize)
        requires
            lo <= hi <= text_at(old(self).texts(), target.key()).len(),
        ensures
            final(self).same_view(old(self)),
            final(self).texts() == old(self).texts().insert(target.key(),
                text_at(old(self).texts(), target.key()).take(lo as int)
                + text_at(old(self).texts(), target.key()).skip(hi as int)),
            final(self).cursors() == old(self).cursors().insert(target.key(), lo),
    {
        let text = self.input_text(&target);
        let chars = chars_of(text.as_str());
        let empty: Vec<char> = Vec::new();
        let updated = splice_chars(chars.as_slice(), lo, hi, empty.as_slice());
        proof {
            assert(chars@.subrange(0, lo as int) =~= chars@.take(lo as int));
            assert(chars@.subrange(hi as int, chars@.len() as int) =~= chars@.skip(hi as int));
            assert(chars@.take(lo as int) + empty@ =~= chars@.take(lo as int));
        }
        self.write_input(target, updated, lo);
    }

    /// Delete from the start of the word before the cursor up to the cursor.
    pub fn delete_word_back(&mut self)
        ensures
            final(self).deleted_between_from(old(self), word_start_before(old(self).edit_text(), old(self).edit_cursor()),
                old(self).edit_cursor()),
    {
        proof {
            use_type_invariant(&*self);
        }
        let target = match &self.editing {
            Some(t) => t.duplicate(),
            None => return,
        };
        let text = self.input_text(&target);
        let cur = self.input_cursor(&target);
        let chars = chars_of(text.as_str());
        let a = space_back(chars.as_slice(), cur);
        proof {
            lemma_skip_back(chars@, cur as int);
        }
        let b = word_back(chars.as_slice(), a);
        proof {
            lemma_skip_back(chars@, a as int);
        }
        self.delete_range(target, b, cur);
    }

    /// Delete from the cursor to the end of the word after it.
    pub fn delete_word_forward(&mut self)
        ensures
            final(self).deleted_between_from(old(self), old(self).edit_cursor(),
                word_end_after(old(self).edit_text(), old(self).edit_cursor())),
    {
        proof {
            use_type_invariant(&*self);
        }
        let target = match &self.editing {
            Some(t) => t.duplicate(),
            None => return,
        };
        let text = self.input_text(&target);
        let cur = self.input_cursor(&target);
        let chars = chars_of(text.as_str());
        let a = space_fwd(chars.as_slice(), cur);
        proof {
            lemma_skip_fwd(chars@, cur as int);
        }
        let b = word_fwd(chars.as_slice(), a);
        proof {
            lemma_skip_fwd(chars@, a as int);
        }
        self.delete_range(target, cur, b);
    }

    /// Delete the character at the cursor of the input being edited.
    pub fn pop_char_forward(&mut self)
        ensures
            old(self).edit_cursor() < old(self).edit_text().len() ==> final(self).deleted_between_from(old(self),
                old(self).edit_cursor(), old(self).edit_cursor() + 1),
            old(self).edit_cursor() >= old(self).edit_text().len() ==> *final(self) == *old(self),
    {
        proof {
            use_type_invariant(&*self);
        }
        let target = match &self.editing {
            Some(t) => t.duplicate(),
            None => return,
        };
        let text = self.input_text(&target);
        let cur = self.input_cursor(&target);
        let n = chars_of(text.as_str()).len();
        if cur >= n {
            return;
        }
        proof {
            assert(old(self).editing_key() is Some);
        }
        self.delete_range(target, cur, cur + 1);
    }

    /// Move the cursor of the input being edited to the end of its text.
    pub fn move_cursor_to_end(&mut self)
        ensures
            final(self).cursor_moved_from(old(self), old(self).edit_text().len() as int),
    {
        let target = match &self.editing {
            Some(t) => t.duplicate(),
            None => return,
        };
        let len = chars_of(self.input_text(&target).as_str()).len();
        self.write_cursor(target, len);
    }

    /// Insert `text` at the cursor of the input being edited and move the
    /// cursor past it.
    pub fn insert_str_at_cursor(&mut self, text: &str)
        ensures
            final(self).same_view(old(self)),
            ({
                let k = old(self).editing_key()->Some_0;
                let s = old(self).edit_text();
                let cur = old(self).edit_cursor();
                if old(self).editing_key() is None {
                    final(self).texts() == old(self).texts() && final(self).cursors() == old(self).cursors()
                } else {
                    &&& final(self).texts() == old(self).texts().insert(k, s.take(cur) + text@ + s.skip(cur))
                    &&& final(self).cursors() == old(self).cursors().insert(k, (cur + text@.len()) as usize)
                }
            }),
    {
        let target = match &self.editing {
            Some(t) => t.duplicate(),
            None => return,
        };
        let current = self.input_text(&target);
        let cur = self.input_cursor(&target);
        let chars = chars_of(current.as_str());
        let ins = chars_of(text);
        let updated = splice_chars(chars.as_slice(), cur, cur, ins.as_slice());
        let updated_chars = chars_of(updated.as_str());
        proof {
            assert(chars@.subrange(0, cur as int) =~= chars@.take(cur as int));
            assert(chars@.subrange(cur as int, chars@.len() as int) =~= chars@.skip(cur as int));
            assert(updated_chars@.len() == chars@.len() + ins@.len());
        }
        let n = ins.len();
        let new_len = updated_chars.len();
        self.write_input(target, updated, cur + n);
    }

    /// Delete back from the cursor of the input being edited to the nearest
    /// `@` before it, that `@` included. Returns where the `@` was and the
    /// text deleted after it, or `None` (changing nothing) when nothing is
    /// being edited, the input holds no text, or no `@` precedes the cursor.
    pub fn delete_back_to_at(&mut self) -> (r: Option<(usize, String)>)
        ensures
            final(self).same_view(old(self)),
            ({
                let k = old(self).editing_key()->Some_0;
                let s = old(self).edit_text();
                let cur = old(self).edit_cursor();
                if old(self).editing_key() is None || !old(self).texts().contains_key(k)
                    || last_at_before(s, cur) is None {
                    &&& r is None
                    &&& final(self).texts() == old(self).texts()
                    &&& final(self).cursors() == old(self).cursors()
                } else {
                    let at = last_at_before(s, cur)->Some_0;
                    &&& r matches Some((a, q)) && a == at && q@ == s.subrange(at + 1, cur)
                    &&& final(self).texts() == old(self).texts().insert(k, s.take(at) + s.skip(cur))
                    &&& final(self).cursors() == (if old(self).cursors().contains_key(k) {
                        old(self).cursors().insert(k, at as usize)
                    } else {
                        old(self).cursors()
                    })
                }
            }),
    {
        proof {
            use_type_invariant(&*self);
        }
        let target = match &self.editing {
            Some(t) => t.duplicate(),
            None => return None,
        };
        if self.inputs.get(&target).is_none() {
            return None;
        }
        let text = self.input_text(&target);
        let cur = self.input_cursor(&target);
        let chars = chars_of(text.as_str());
        let at = match find_last_at(chars.as_slice(), cur) {
            Some(a) => a,
            None => return None,
        };
        proof {
            lemma_last_at_before(chars@, cur as int);
        }
        let query = crate::text::string_from_chars(chars.as_slice(), at + 1, cur);
        let empty: Vec<char> = Vec::new();
        let updated = splice_chars(chars.as_slice(), at, cur, empty.as_slice());
        proof {
            assert(chars@.subrange(0, at as int) =~= chars@.take(at as int));
            assert(chars@.subrange(cur as int, chars@.len() as int) =~= chars@.skip(cur as int));
            assert(chars@.take(at as int) + empty@ =~= chars@.take(at as int));
        }
        let had_cursor = self.cursors.get(&target).is_some();
        if had_cursor {
            self.write_input(target, updated, at);
        } else {
            let ghost k = target.key();
            let (mut inputs, cursors) = self.take_maps();
            let ghost old_texts = inputs@.map_values(|s: String| s@);
            inputs.insert(target, updated);
            proof {
                assert(inputs@.map_values(|s: String| s@) =~= old_texts.insert(k, updated@));
            }
            self.put_maps(inputs, cursors);
        }
        Some((at, query))
    }

    /// Replace the mention being typed (from the last `@` before the cursor
    /// up to the cursor) with `tag`, leaving the cursor after it.
    pub fn complete_mention(&mut self, tag: &str)
        ensures
            final(self).mention_completed_from(old(self), tag@),
    {
        let ghost o = *self;
        let ghost k = o.editing_key()->Some_0;
        let ghost s = o.edit_text();
        let ghost cur = o.edit_cursor();
        proof {
            use_type_invariant(&*self);
        }
        let deleted = self.delete_back_to_at();
        if deleted.is_some() {
            let ghost mid = *self;
            proof {
                let at = last_at_before(s, cur)->Some_0;
                lemma_last_at_before(s, cur);
                assert(mid.edit_text() == s.take(at) + s.skip(cur));
                if !o.cursors().contains_key(k) {
                    assert(cur == s.len());
                    assert(s.skip(cur) =~= Seq::<char>::empty());
                }
                assert(mid.edit_cursor() == at);
                assert((s.take(at) + s.skip(cur)).take(at) =~= s.take(at));
                assert((s.take(at) + s.skip(cur)).skip(at) =~= s.skip(cur));
            }
            self.insert_str_at_cursor(tag);
            proof {
                let at = last_at_before(s, cur)->Some_0;
                assert(s.take(at) + tag@ + s.skip(cur) =~= (s.take(at) + s.skip(cur)).take(at) + tag@
                    + (s.take(at) + s.skip(cur)).skip(at));
                assert(self.texts() =~= o.texts().insert(k, s.take(at) + tag@ + s.skip(cur)));
                assert(self.cursors() =~= o.cursors().insert(k, (at + tag@.len()) as usize));
            }
        }
    }

    /// Stop editing and take the edited input's text away (its cursor too).
    /// Returns the text unless it is blank.
    pub fn take_input(&mut self) -> (r: Option<String>)
        ensures
            final(self).selected_row() == old(self).selected_row(),
            final(self).expanded_threads() == old(self).expanded_threads(),
            final(self).collapsed_subthreads() == old(self).collapsed_subthreads(),
            final(self).editing_key() is None,
            old(self).editing_key() is None ==> r is None && final(self).texts() == old(self).texts()
                && final(self).cursors() == old(self).cursors(),
            old(self).editing_key() matches Some(k) ==> {
                &&& final(self).texts() == old(self).texts().remove(k)
                &&& final(self).cursors() == old(self).cursors().remove(k)
                &&& (if all_whitespace(text_at(old(self).texts(), k)) {
                    r is None
                } else {
                    r matches Some(t) && t@ == text_at(old(self).texts(), k)
                })
            },
    {
        proof {
            use_type_invariant(&*self);
        }
        let target = match &self.editing {
            Some(t) => t.duplicate(),
            None => return None,
        };
        self.editing = None;
        let ghost k = target.key();
        let (mut inputs, mut cursors) = self.take_maps();
        let ghost old_texts = inputs@.map_values(|s: String| s@);
        cursors.remove(&target);
        let removed = inputs.remove(&target);
        proof {
            assert(inputs@.map_values(|s: String| s@) =~= old_texts.remove(k));
        }
        self.put_maps(inputs, cursors);
        let text = match removed {
            Some(t) => t,
            None => String::new(),
        };
        if is_blank(text.as_str()) {
            None
        } else {
            Some(text)
        }
    }
}

/// The mention query being typed: the text between the last `@` before the
/// cursor and the cursor, unless a space lies between them.
pub open spec fn mention_query(content: Seq<char>, cursor: int) -> Option<Seq<char>> {
    match last_at_before(content, cursor) {
        None => None,
        Some(at) => if content.subrange(at + 1, cursor).contains(' ') {
            None
        } else {
            Some(content.subrange(at + 1, cursor))
        },
    }
}

/// The mention query being typed at `cursor` (a character index) in
/// `content`: the text after the last `@` before the cursor, or `None` when
/// there is no such `@` or a space follows it.
pub fn current_mention_query(content: &str, cursor: usize) -> (r: Option<String>)
    requires
        cursor <= content@.len(),
    ensures
        r is None <==> mention_query(content@, cursor as int) is None,
        r matches Some(q) ==> mention_query(content@, cursor as int) == Some(q@),
{
    let chars = chars_of(content);
    let at = match find_last_at(chars.as_slice(), cursor) {
        Some(a) => a,
        None => return None,
    };
    proof {
        lemma_last_at_before(chars@, cursor as int);
    }
    let mut k = at + 1;
    while k < cursor
        invariant
            at + 1 <= k <= cursor <= chars@.len(),
            chars@ == content@,
            last_at_before(content@, cursor as int) == Some(at as int),
            forall|j: int| at + 1 <= j < k ==> chars@[j] != ' ',
        decreases cursor - k,
    {
        if chars[k] == ' ' {
            proof {
                assert(chars@.subrange(at + 1, cursor as int)[k - at - 1] == ' ');
                assert(chars@.subrange(at + 1, cursor as int).contains(' '));
            }
            return None;
        }
        k += 1;
    }
    proof {
        let sub = chars@.subrange(at + 1, cursor as int);
        assert forall|j: int| 0 <= j < sub.len() implies #[trigger] sub[j] != ' ' by {
            assert(sub[j] == chars@[at + 1 + j]);
        }
        assert(!sub.contains(' '));
    }
    Some(crate::text::string_from_chars(chars.as_slice(), at + 1, cursor))
}

} // verus!
