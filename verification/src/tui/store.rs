//! The messages on screen for the current chat: top-level messages in
//! server order, each message by uuid, and the replies of each thread.

use vstd::prelude::*;

use super::str_map::StrMap;

verus! {

/// A message as the interface shows it.
pub struct DisplayMessage {
    pub uuid: String,
    pub sender_uuid: String,
    pub sender_name: String,
    pub body: String,
    pub timestamp: String,
    pub global_seq: i64,
    pub thread_uuid: Option<String>,
    pub reply_to_uuid: Option<String>,
    /// Shown before the server acknowledged it.
    pub pending: bool,
    /// The user has seen it.
    pub read: bool,
    /// It mentions the user.
    pub mentions_me: bool,
    /// The names it mentions, resolved.
    pub mentioned_names: Vec<String>,
}

/// The uuids in `v`, as character sequences.
pub open spec fn uuid_seq(v: Seq<String>) -> Seq<Seq<char>> {
    v.map_values(|s: String| s@)
}

/// No uuid occurs twice.
pub open spec fn no_repeats(s: Seq<Seq<char>>) -> bool {
    forall|i: int, j: int| 0 <= i < j < s.len() ==> s[i] != s[j]
}

/// The message with uuid `u` is known and comes after server position `seq`.
pub open spec fn later_than(msgs: Map<Seq<char>, DisplayMessage>, u: Seq<char>, seq: i64) -> bool {
    msgs.contains_key(u) && msgs[u].global_seq > seq
}

/// The first position at or after `from` whose message comes after `seq`,
/// or the end.
pub open spec fn first_later(top: Seq<Seq<char>>, msgs: Map<Seq<char>, DisplayMessage>, seq: i64, from: int) -> int
    decreases top.len() - from,
{
    if from < 0 || from >= top.len() {
        top.len() as int
    } else if later_than(msgs, top[from], seq) {
        from
    } else {
        first_later(top, msgs, seq, from + 1)
    }
}

proof fn lemma_first_later(top: Seq<Seq<char>>, msgs: Map<Seq<char>, DisplayMessage>, seq: i64, from: int)
    requires
        0 <= from <= top.len(),
    ensures
        from <= first_later(top, msgs, seq, from) <= top.len(),
        first_later(top, msgs, seq, from) < top.len() ==> later_than(msgs, top[first_later(top, msgs, seq, from)], seq),
        forall|j: int| from <= j < first_later(top, msgs, seq, from) ==> !later_than(msgs, #[trigger] top[j], seq),
    decreases top.len() - from,
{
    if from < top.len() && !later_than(msgs, top[from], seq) {
        lemma_first_later(top, msgs, seq, from + 1);
    }
}

/// Every top-level uuid names a known message.
pub open spec fn top_known(top: Seq<Seq<char>>, msgs: Map<Seq<char>, DisplayMessage>) -> bool {
    forall|i: int| 0 <= i < top.len() ==> msgs.contains_key(#[trigger] top[i])
}

/// Top-level messages are in server order.
pub open spec fn top_sorted(top: Seq<Seq<char>>, msgs: Map<Seq<char>, DisplayMessage>) -> bool {
    forall|i: int, j: int| 0 <= i < j < top.len()
        ==> msgs[#[trigger] top[i]].global_seq <= msgs[#[trigger] top[j]].global_seq
}

/// The replies of the thread rooted at `root`, in arrival order.
pub open spec fn replies_of(threads: Map<Seq<char>, Seq<Seq<char>>>, root: Seq<char>) -> Seq<Seq<char>> {
    if threads.contains_key(root) { threads[root] } else { Seq::empty() }
}

/// Some message among `uuids` is known and satisfies `p`.
pub open spec fn any_known(msgs: Map<Seq<char>, DisplayMessage>, uuids: Seq<Seq<char>>, p: spec_fn(DisplayMessage) -> bool) -> bool {
    exists|i: int| 0 <= i < uuids.len() && msgs.contains_key(#[trigger] uuids[i]) && p(msgs[uuids[i]])
}

/// The messages of the current chat as shown.
pub struct TuiMessageStore {
    top_level: Vec<String>,
    by_uuid: StrMap<DisplayMessage>,
    threads: StrMap<Vec<String>>,
    low_water: i64,
    more_above: bool,
}

fn contains_uuid(v: &Vec<String>, u: &String) -> (r: bool)
    ensures
        r == uuid_seq(v@).contains(u@),
{
    let mut i: usize = 0;
    while i < v.len()
        invariant
            i <= v@.len(),
            forall|k: int| 0 <= k < i ==> v@[k]@ != u@,
        decreases v@.len() - i,
    {
        if v[i] == *u {
            proof {
                assert(uuid_seq(v@)[i as int] == u@);
            }
            return true;
        }
        i += 1;
    }
    proof {
        if uuid_seq(v@).contains(u@) {
            let k = choose|k: int| 0 <= k < uuid_seq(v@).len() && uuid_seq(v@)[k] == u@;
            assert(v@[k]@ == u@);
        }
    }
    false
}

/// `top` with every occurrence of `u` left out.
pub open spec fn without(top: Seq<Seq<char>>, u: Seq<char>) -> Seq<Seq<char>>
    decreases top.len(),
{
    if top.len() == 0 {
        top
    } else if top.last() == u {
        without(top.drop_last(), u)
    } else {
        without(top.drop_last(), u).push(top.last())
    }
}

proof fn lemma_without_lacks(top: Seq<Seq<char>>, u: Seq<char>)
    ensures
        !without(top, u).contains(u),
    decreases top.len(),
{
    if top.len() > 0 {
        lemma_without_lacks(top.drop_last(), u);
        if top.last() != u {
            assert forall|i: int| 0 <= i < without(top, u).len() implies without(top, u)[i] != u by {
                if i < without(top.drop_last(), u).len() {
                    assert(without(top, u)[i] == without(top.drop_last(), u)[i]);
                }
            }
        }
    }
}

/// `v` with every occurrence of `u` left out.
fn remove_uuid(v: &Vec<String>, u: &String) -> (r: Vec<String>)
    ensures
        uuid_seq(r@) == without(uuid_seq(v@), u@),
{
    let mut out: Vec<String> = Vec::new();
    let mut i: usize = 0;
    while i < v.len()
        invariant
            i <= v@.len(),
            uuid_seq(out@) == without(uuid_seq(v@.take(i as int)), u@),
        decreases v@.len() - i,
    {
        proof {
            assert(uuid_seq(v@.take(i + 1)).drop_last() =~= uuid_seq(v@.take(i as int)));
            assert(uuid_seq(v@.take(i + 1)).last() == v@[i as int]@);
        }
        if v[i] != *u {
            let ghost before = uuid_seq(out@);
            out.push(v[i].clone());
            proof {
                assert(uuid_seq(out@) =~= before.push(v@[i as int]@));
            }
        }
        i += 1;
    }
    proof {
        assert(v@.take(v@.len() as int) =~= v@);
    }
    out
}

impl TuiMessageStore {
    /// Top-level message uuids, in order.
    pub closed spec fn top(&self) -> Seq<Seq<char>> {
        uuid_seq(self.top_level@)
    }

    /// Every message by uuid.
    pub closed spec fn messages(&self) -> Map<Seq<char>, DisplayMessage> {
        self.by_uuid@
    }

    /// Reply uuids by thread root.
    pub closed spec fn thread_map(&self) -> Map<Seq<char>, Seq<Seq<char>>> {
        self.threads@.map_values(|v: Vec<String>| uuid_seq(v@))
    }

    /// Lowest positive server position seen (`i64::MAX` before any).
    pub closed spec fn low_water_mark(&self) -> i64 {
        self.low_water
    }

    /// Whether older messages may remain to be loaded.
    pub closed spec fn more_above(&self) -> bool {
        self.more_above
    }

    /// `self` is `o` with `msg` added or replaced: a reply joins the end of
    /// its thread, a top-level message goes before the first one the server
    /// placed after it, a uuid already listed keeps its place, and the lowest
    /// positive server position seen is tracked.
    pub open spec fn inserted_from(&self, o: &TuiMessageStore, msg: DisplayMessage) -> bool {
        &&& self.messages() == o.messages().insert(msg.uuid@, msg)
        &&& self.low_water_mark() == (if 0 < msg.global_seq < o.low_water_mark() { msg.global_seq } else { o.low_water_mark() })
        &&& self.more_above() == o.more_above()
        &&& match msg.thread_uuid {
            Some(root) => {
                &&& self.top() == o.top()
                &&& self.thread_map() == o.thread_map().insert(root@, {
                    let r = replies_of(o.thread_map(), root@);
                    if r.contains(msg.uuid@) { r } else { r.push(msg.uuid@) }
                })
            },
            None => {
                &&& self.thread_map() == o.thread_map()
                &&& self.top() == (if o.top().contains(msg.uuid@) {
                    o.top()
                } else {
                    o.top().insert(first_later(o.top(), o.messages(), msg.global_seq, 0), msg.uuid@)
                })
            },
        }
    }

    /// `self` is `o` with the message `uuid` placed at `seq` with `body`, no
    /// longer pending: a top-level one moves to where `seq` puts it, a reply
    /// keeps its place.
    pub open spec fn confirmed_from(&self, o: &TuiMessageStore, uuid: Seq<char>, seq: i64, body: String) -> bool {
        let m = o.messages()[uuid];
        let n = self.messages()[uuid];
        let rest = without(o.top(), uuid);
        &&& self.messages().contains_key(uuid)
        &&& self.messages().remove(uuid) == o.messages().remove(uuid)
        &&& n.uuid@ == uuid && n.sender_uuid == m.sender_uuid && n.sender_name == m.sender_name
        &&& n.timestamp == m.timestamp && n.thread_uuid == m.thread_uuid && n.reply_to_uuid == m.reply_to_uuid
        &&& n.read == m.read && n.mentions_me == m.mentions_me && n.mentioned_names == m.mentioned_names
        &&& !n.pending && n.global_seq == seq && n.body == body
        &&& self.low_water_mark() == (if 0 < seq < o.low_water_mark() { seq } else { o.low_water_mark() })
        &&& self.more_above() == o.more_above()
        &&& self.thread_map() == o.thread_map()
        &&& self.top() == (if m.thread_uuid is None {
            rest.insert(first_later(rest, o.messages().remove(uuid), seq, 0), uuid)
        } else {
            o.top()
        })
    }

    /// Lowest positive server position seen (`i64::MAX` before any), where
    /// paging further back starts.
    pub fn low_water(&self) -> (r: i64)
        ensures
            r == self.low_water_mark(),
    {
        self.low_water
    }

    /// Whether older messages may remain to be loaded.
    pub fn has_more_above(&self) -> (r: bool)
        ensures
            r == self.more_above(),
    {
        self.more_above
    }

    /// Record whether older messages remain to be loaded.
    pub fn set_has_more_above(&mut self, more: bool)
        ensures
            final(self).more_above() == more,
            final(self).low_water_mark() == old(self).low_water_mark(),
            final(self).top() == old(self).top(),
            final(self).messages() == old(self).messages(),
            final(self).thread_map() == old(self).thread_map(),
    {
        self.more_above = more;
    }

    /// An empty store, with everything above still to load.
    pub fn new() -> (s: Self)
        ensures
            s.top() == Seq::<Seq<char>>::empty(),
            s.messages() == Map::<Seq<char>, DisplayMessage>::empty(),
            s.thread_map() == Map::<Seq<char>, Seq<Seq<char>>>::empty(),
            s.low_water_mark() == i64::MAX,
            s.more_above(),
    {
        let s = TuiMessageStore {
            top_level: Vec::new(),
            by_uuid: StrMap::new(),
            threads: StrMap::new(),
            low_water: i64::MAX,
            more_above: true,
        };
        assert(s.top() =~= Seq::<Seq<char>>::empty());
        assert(s.thread_map() =~= Map::<Seq<char>, Seq<Seq<char>>>::empty());
        s
    }

    /// Forget every message.
    pub fn clear(&mut self)
        ensures
            final(self).top() == Seq::<Seq<char>>::empty(),
            final(self).messages() == Map::<Seq<char>, DisplayMessage>::empty(),
            final(self).thread_map() == Map::<Seq<char>, Seq<Seq<char>>>::empty(),
            final(self).low_water_mark() == i64::MAX,
            final(self).more_above(),
    {
        *self = TuiMessageStore::new();
    }

    /// Top-level message uuids, in order.
    pub fn top_level(&self) -> (r: &Vec<String>)
        ensures
            uuid_seq(r@) == self.top(),
    {
        &self.top_level
    }

    /// The message with uuid `uuid`.
    pub fn get(&self, uuid: &String) -> (r: Option<&DisplayMessage>)
        ensures
            r is Some <==> self.messages().contains_key(uuid@),
            r matches Some(m) ==> *m == self.messages()[uuid@],
    {
        self.by_uuid.get(uuid)
    }

    /// The replies of the thread rooted at `root`, in arrival order.
    pub fn replies(&self, root: &String) -> (r: Vec<String>)
        ensures
            uuid_seq(r@) == replies_of(self.thread_map(), root@),
    {
        match self.threads.get(root) {
            Some(v) => {
                let mut out: Vec<String> = Vec::new();
                let mut i: usize = 0;
                while i < v.len()
                    invariant
                        i <= v@.len(),
                        out@.len() == i,
                        uuid_seq(out@) == uuid_seq(v@).take(i as int),
                    decreases v@.len() - i,
                {
                    let c = v[i].clone();
                    assert(c@ == v@[i as int]@);
                    out.push(c);
                    proof {
                        assert(uuid_seq(out@) =~= uuid_seq(v@).take(i + 1));
                    }
                    i += 1;
                }
                proof {
                    assert(uuid_seq(v@).take(v@.len() as int) =~= uuid_seq(v@));
                }
                out
            },
            None => {
                let out: Vec<String> = Vec::new();
                proof {
                    assert(uuid_seq(out@) =~= Seq::<Seq<char>>::empty());
                }
                out
            },
        }
    }

    /// How many replies the thread rooted at `uuid` has.
    pub fn reply_count(&self, uuid: &String) -> (r: usize)
        ensures
            r == replies_of(self.thread_map(), uuid@).len(),
    {
        match self.threads.get(uuid) {
            Some(v) => v.len(),
            None => 0,
        }
    }

    /// Whether any known message among `uuids` is unread, and whether any
    /// mentions the user.
    pub fn unread_status(&self, uuids: &[String]) -> (r: (bool, bool))
        ensures
            r.0 == any_known(self.messages(), uuid_seq(uuids@), |m: DisplayMessage| !m.read),
            r.1 == any_known(self.messages(), uuid_seq(uuids@), |m: DisplayMessage| m.mentions_me),
    {
        let ghost us = uuid_seq(uuids@);
        let mut unread = false;
        let mut mention = false;
        let mut i: usize = 0;
        while i < uuids.len()
            invariant
                i <= uuids@.len(),
                us == uuid_seq(uuids@),
                unread == exists|k: int| 0 <= k < i && self.messages().contains_key(#[trigger] us[k])
                    && !self.messages()[us[k]].read,
                mention == exists|k: int| 0 <= k < i && self.messages().contains_key(#[trigger] us[k])
                    && self.messages()[us[k]].mentions_me,
            decreases uuids@.len() - i,
        {
            match self.by_uuid.get(&uuids[i]) {
                Some(m) => {
                    assert(us[i as int] == uuids@[i as int]@);
                    if !m.read {
                        unread = true;
                    }
                    if m.mentions_me {
                        mention = true;
                    }
                },
                None => {
                    assert(us[i as int] == uuids@[i as int]@);
                },
            }
            i += 1;
        }
        (unread, mention)
    }

    /// Whether the top-level message at `pos` is known and placed after `seq`.
    fn comes_after(&self, pos: usize, seq: i64) -> (r: bool)
        requires
            pos < self.top_level@.len(),
        ensures
            r == later_than(self.messages(), self.top()[pos as int], seq),
    {
        assert(self.top()[pos as int] == self.top_level@[pos as int]@);
        match self.by_uuid.get(&self.top_level[pos]) {
            Some(m) => m.global_seq > seq,
            None => false,
        }
    }

    /// Add or replace a message. A reply joins the end of its thread, a
    /// top-level message goes before the first one the server placed after
    /// it; a uuid already listed keeps its place. The lowest positive server
    /// position seen is tracked.
    pub fn insert(&mut self, msg: DisplayMessage)
        ensures
            final(self).inserted_from(old(self), msg),
            no_repeats(old(self).top()) ==> no_repeats(final(self).top()),
            // Top-level order and knowledge are kept when a new top-level
            // uuid arrives or a listed one keeps its server position.
            top_known(old(self).top(), old(self).messages()) && top_sorted(old(self).top(), old(self).messages())
                && (old(self).top().contains(msg.uuid@) ==> old(self).messages()[msg.uuid@].global_seq == msg.global_seq)
                ==> top_known(final(self).top(), final(self).messages()) && top_sorted(final(self).top(), final(self).messages()),
    {
        let uuid = msg.uuid.clone();
        let seq = msg.global_seq;
        let ghost old_top = self.top();
        let ghost old_msgs = self.messages();
        match &msg.thread_uuid {
            Some(root) => {
                let mut replies = match self.threads.remove(root) {
                    Some(v) => v,
                    None => Vec::new(),
                };
                let ghost old_replies = uuid_seq(replies@);
                proof {
                    assert(old_replies =~= replies_of(old(self).thread_map(), root@));
                }
                if !contains_uuid(&replies, &uuid) {
                    replies.push(uuid.clone());
                    proof {
                        assert(uuid_seq(replies@) =~= old_replies.push(uuid@));
                    }
                }
                self.threads.insert(root.clone(), replies);
                proof {
                    assert(self.thread_map() =~= old(self).thread_map().insert(root@, {
                        let r = replies_of(old(self).thread_map(), root@);
                        if r.contains(msg.uuid@) { r } else { r.push(msg.uuid@) }
                    }));
                }
            },
            None => {
                if !contains_uuid(&self.top_level, &uuid) {
                    let mut pos: usize = 0;
                    while pos < self.top_level.len() && !self.comes_after(pos, seq)
                        invariant
                            pos <= self.top_level@.len(),
                            self.top() == old_top,
                            self.messages() == old_msgs,
                            first_later(old_top, old_msgs, seq, 0) == first_later(old_top, old_msgs, seq, pos as int),
                        decreases self.top_level@.len() - pos,
                    {
                        pos += 1;
                    }
                    assert(pos as int == first_later(old_top, old_msgs, seq, 0));
                    proof {
                        lemma_first_later(old_top, old_msgs, seq, 0);
                    }
                    self.top_level.insert(pos, uuid.clone());
                    proof {
                        assert(self.top() =~= old_top.insert(pos as int, uuid@));
                    }
                }
            },
        }
        if seq > 0 && seq < self.low_water {
            self.low_water = seq;
        }
        self.by_uuid.insert(uuid, msg);
        proof {
            let new_top = self.top();
            let new_msgs = self.messages();
            assert(new_msgs == old_msgs.insert(uuid@, msg));
            if no_repeats(old_top) && msg.thread_uuid is None && !old_top.contains(uuid@) {
                let p = first_later(old_top, old_msgs, seq, 0);
                lemma_first_later(old_top, old_msgs, seq, 0);
                assert forall|i: int, j: int| 0 <= i < j < new_top.len() implies new_top[i] != new_top[j] by {
                    if i == p {
                        assert(new_top[j] == old_top[j - 1]);
                    } else if j == p {
                        assert(new_top[i] == old_top[i]);
                    } else {
                        let i0 = if i < p { i } else { i - 1 };
                        let j0 = if j < p { j } else { j - 1 };
                        assert(new_top[i] == old_top[i0]);
                        assert(new_top[j] == old_top[j0]);
                    }
                }
            }
            if top_known(old_top, old_msgs) && top_sorted(old_top, old_msgs)
                && (old_top.contains(uuid@) ==> old_msgs[uuid@].global_seq == seq) {
                if msg.thread_uuid is None && !old_top.contains(uuid@) {
                    let p = first_later(old_top, old_msgs, seq, 0);
                    lemma_first_later(old_top, old_msgs, seq, 0);
                    assert forall|i: int| 0 <= i < new_top.len() implies new_msgs.contains_key(#[trigger] new_top[i]) by {
                        if i < p {
                            assert(new_top[i] == old_top[i]);
                        } else if i > p {
                            assert(new_top[i] == old_top[i - 1]);
                        }
                    }
                    assert forall|i: int, j: int| 0 <= i < j < new_top.len()
                        implies new_msgs[#[trigger] new_top[i]].global_seq <= new_msgs[#[trigger] new_top[j]].global_seq by {
                        let i0 = if i < p { i } else { i - 1 };
                        let j0 = if j < p { j } else { j - 1 };
                        if i != p {
                            assert(new_top[i] == old_top[i0]);
                            assert(old_top[i0] != uuid@);
                        }
                        if j != p {
                            assert(new_top[j] == old_top[j0]);
                            assert(old_top[j0] != uuid@);
                        }
                        if i == p {
                            // j > p: everything from p on came after `seq`
                            assert(later_than(old_msgs, old_top[p], seq));
                            assert(old_msgs[old_top[p]].global_seq <= old_msgs[old_top[j0]].global_seq || p == j0);
                        } else if j == p {
                            assert(!later_than(old_msgs, old_top[i0], seq));
                        }
                    }
                } else {
                    assert forall|i: int| 0 <= i < new_top.len() implies new_msgs.contains_key(#[trigger] new_top[i]) by {
                        assert(new_top[i] == old_top[i]);
                    }
                    assert forall|i: int, j: int| 0 <= i < j < new_top.len()
                        implies new_msgs[#[trigger] new_top[i]].global_seq <= new_msgs[#[trigger] new_top[j]].global_seq by {
                        assert(new_top[i] == old_top[i]);
                        assert(new_top[j] == old_top[j]);
                        assert(old_msgs[old_top[i]].global_seq <= old_msgs[old_top[j]].global_seq);
                    }
                }
            }
        }
    }

    /// A message shown before the server placed it is placed: it is no
    /// longer pending, takes server position `seq` and the text `body`. A
    /// top-level one moves to where `seq` puts it; a reply keeps its place.
    /// Returns whether the message was known (nothing changes otherwise).
    pub fn confirm(&mut self, uuid: &String, seq: i64, body: String) -> (found: bool)
        ensures
            found == old(self).messages().contains_key(uuid@),
            !found ==> final(self).messages() == old(self).messages() && final(self).top() == old(self).top()
                && final(self).thread_map() == old(self).thread_map()
                && final(self).low_water_mark() == old(self).low_water_mark()
                && final(self).more_above() == old(self).more_above(),
            found ==> final(self).confirmed_from(old(self), uuid@, seq, body),
    {
        let existing = self.by_uuid.remove(uuid);
        let m = match existing {
            Some(m) => m,
            None => {
                proof {
                    assert(self.by_uuid@ =~= old(self).by_uuid@);
                }
                return false;
            },
        };
        let updated = DisplayMessage {
            uuid: uuid.clone(),
            sender_uuid: m.sender_uuid,
            sender_name: m.sender_name,
            body,
            timestamp: m.timestamp,
            global_seq: seq,
            thread_uuid: m.thread_uuid,
            reply_to_uuid: m.reply_to_uuid,
            pending: false,
            read: m.read,
            mentions_me: m.mentions_me,
            mentioned_names: m.mentioned_names,
        };
        if updated.thread_uuid.is_none() {
            let rest = remove_uuid(&self.top_level, uuid);
            self.top_level = rest;
            proof {
                lemma_without_lacks(old(self).top(), uuid@);
            }
            let ghost mid = *self;
            self.insert_as(uuid, updated);
            proof {
                assert(mid.messages() == old(self).messages().remove(uuid@));
                assert(self.messages().remove(uuid@) =~= old(self).messages().remove(uuid@));
            }
        } else {
            if seq > 0 && seq < self.low_water {
                self.low_water = seq;
            }
            self.by_uuid.insert(uuid.clone(), updated);
            proof {
                assert(self.messages().remove(uuid@) =~= old(self).messages().remove(uuid@));
            }
        }
        true
    }

    /// `insert` of `msg` under the key `uuid` (its own uuid).
    fn insert_as(&mut self, uuid: &String, msg: DisplayMessage)
        requires
            msg.uuid@ == uuid@,
            msg.thread_uuid is None,
            !old(self).top().contains(uuid@),
        ensures
            final(self).messages() == old(self).messages().insert(uuid@, msg),
            final(self).low_water_mark() == (if 0 < msg.global_seq < old(self).low_water_mark() { msg.global_seq } else { old(self).low_water_mark() }),
            final(self).more_above() == old(self).more_above(),
            final(self).thread_map() == old(self).thread_map(),
            final(self).top() == old(self).top().insert(first_later(old(self).top(), old(self).messages(), msg.global_seq, 0), uuid@),
    {
        self.insert(msg);
    }
}

} // verus!
