//! Who is in the chat: the member list as presence reports rebuild and
//! update it, and which arrivals must be sent the chat's keys.

use vstd::prelude::*;

use super::app::{AppState, Member};
use super::uuid_set::{holds_uuid, UuidSet};

verus! {

/// A member as `(uuid, screenname, online)`.
pub open spec fn member_view(m: Member) -> (Seq<char>, Seq<char>, bool) {
    (m.uuid@, m.screenname@, m.online)
}

/// The member list as views.
pub open spec fn members_view(ms: Seq<Member>) -> Seq<(Seq<char>, Seq<char>, bool)> {
    ms.map_values(|m: Member| member_view(m))
}

/// `(uuid, screenname)` pairs as views.
pub open spec fn pairs_view(ps: Seq<(String, String)>) -> Seq<(Seq<char>, Seq<char>)> {
    ps.map_values(|p: (String, String)| (p.0@, p.1@))
}

/// The name cache after learning each `(uuid, screenname)` in order.
pub open spec fn cache_with(cache: Map<Seq<char>, Seq<char>>, ps: Seq<(Seq<char>, Seq<char>)>) -> Map<Seq<char>, Seq<char>>
    decreases ps.len(),
{
    if ps.len() == 0 {
        cache
    } else {
        cache_with(cache, ps.drop_last()).insert(ps.last().0, ps.last().1)
    }
}

/// The member list a full presence report gives: everyone listed, online.
pub open spec fn listed_online(ps: Seq<(Seq<char>, Seq<char>)>) -> Seq<(Seq<char>, Seq<char>, bool)> {
    ps.map_values(|p: (Seq<char>, Seq<char>)| (p.0, p.1, true))
}

/// The members with everyone in `leaving` marked offline.
pub open spec fn after_leaves(ms: Seq<(Seq<char>, Seq<char>, bool)>, leaving: Set<Seq<char>>) -> Seq<(Seq<char>, Seq<char>, bool)> {
    ms.map_values(|m: (Seq<char>, Seq<char>, bool)| if leaving.contains(m.0) { (m.0, m.1, false) } else { m })
}

/// The first position of the member with uuid `u`.
pub open spec fn member_pos(ms: Seq<(Seq<char>, Seq<char>, bool)>, u: Seq<char>, from: int) -> Option<int>
    decreases ms.len() - from,
{
    if from < 0 || from >= ms.len() {
        None
    } else if ms[from].0 == u {
        Some(from)
    } else {
        member_pos(ms, u, from + 1)
    }
}

/// The members after `(u, name)` joined: an existing member comes online
/// under the new name, anyone else is added at the end, online.
pub open spec fn after_join(ms: Seq<(Seq<char>, Seq<char>, bool)>, u: Seq<char>, name: Seq<char>) -> Seq<(Seq<char>, Seq<char>, bool)> {
    match member_pos(ms, u, 0) {
        Some(i) => ms.update(i, (u, name, true)),
        None => ms.push((u, name, true)),
    }
}

/// The members after each join in order.
pub open spec fn after_joins(ms: Seq<(Seq<char>, Seq<char>, bool)>, joins: Seq<(Seq<char>, Seq<char>)>) -> Seq<(Seq<char>, Seq<char>, bool)>
    decreases joins.len(),
{
    if joins.len() == 0 {
        ms
    } else {
        let rest = after_joins(ms, joins.drop_last());
        after_join(rest, joins.last().0, joins.last().1)
    }
}

/// The arrivals to send keys to: joins other than the user that are not
/// also leaving (a join paired with a leave is a metadata update), in order.
pub open spec fn arrivals(joins: Seq<(Seq<char>, Seq<char>)>, me: Seq<char>, leaving: Set<Seq<char>>) -> Seq<Seq<char>>
    decreases joins.len(),
{
    if joins.len() == 0 {
        Seq::empty()
    } else {
        let rest = arrivals(joins.drop_last(), me, leaving);
        let u = joins.last().0;
        if u != me && !leaving.contains(u) { rest.push(u) } else { rest }
    }
}

proof fn lemma_member_pos(ms: Seq<(Seq<char>, Seq<char>, bool)>, u: Seq<char>, from: int)
    requires
        0 <= from,
    ensures
        member_pos(ms, u, from) matches Some(i) ==> from <= i < ms.len() && ms[i].0 == u
            && forall|j: int| from <= j < i ==> ms[j].0 != u,
        member_pos(ms, u, from) is None ==> forall|j: int| from <= j < ms.len() ==> ms[j].0 != u,
    decreases ms.len() - from,
{
    if from < ms.len() && ms[from].0 != u {
        lemma_member_pos(ms, u, from + 1);
    }
}

/// The first position of the member with uuid `u`.
fn find_member(ms: &Vec<Member>, u: &String) -> (r: Option<usize>)
    ensures
        match member_pos(members_view(ms@), u@, 0) {
            Some(i) => r matches Some(k) && k as int == i,
            None => r is None,
        },
{
    let mut i: usize = 0;
    while i < ms.len()
        invariant
            i <= ms@.len(),
            member_pos(members_view(ms@), u@, 0) == member_pos(members_view(ms@), u@, i as int),
        decreases ms@.len() - i,
    {
        if ms[i].uuid == *u {
            return Some(i);
        }
        i += 1;
    }
    None
}

impl AppState {
    /// A full presence report: the member list becomes everyone listed, all
    /// online, in the order given, and each name is cached.
    pub fn apply_presence_state(&mut self, listed: Vec<(String, String)>)
        ensures
            members_view(final(self).members@) == listed_online(pairs_view(listed@)),
            final(self).name_cache@ == cache_with(old(self).name_cache@, pairs_view(listed@)),
            final(self).my_uuid == old(self).my_uuid,
            final(self).panes == old(self).panes,
            final(self).msg_store == old(self).msg_store,
    {
        let mut members: Vec<Member> = Vec::new();
        let mut i: usize = 0;
        let n = listed.len();
        while i < n
            invariant
                n == listed@.len(),
                i <= n,
                members_view(members@) == listed_online(pairs_view(listed@.take(i as int))),
                self.name_cache@ == cache_with(old(self).name_cache@, pairs_view(listed@.take(i as int))),
                self.my_uuid == old(self).my_uuid,
                self.panes == old(self).panes,
                self.msg_store == old(self).msg_store,
            decreases n - i,
        {
            let (u, name) = &listed[i];
            proof {
                assert(pairs_view(listed@.take(i + 1)).drop_last() =~= pairs_view(listed@.take(i as int)));
                assert(pairs_view(listed@.take(i + 1)).last() == (u@, name@));
            }
            let ghost prev = members_view(members@);
            self.name_cache.insert(u.clone(), name.clone());
            members.push(Member { uuid: u.clone(), screenname: name.clone(), online: true });
            proof {
                assert(listed_online(pairs_view(listed@.take(i + 1))) =~= listed_online(
                    pairs_view(listed@.take(i as int))).push((u@, name@, true)));
                assert(members_view(members@) =~= prev.push((u@, name@, true)));
            }
            i += 1;
        }
        proof {
            assert(listed@.take(n as int) =~= listed@);
        }
        self.members = members;
    }

    /// A presence change: members in `leaves` go offline; then each join in
    /// order caches its name and brings its member online (adding it when
    /// new). Returns the arrivals to send keys to.
    pub fn apply_presence_diff(&mut self, leaves: Vec<String>, joins: Vec<(String, String)>) -> (r: Vec<String>)
        ensures
            ({
                let leaving = Set::new(|u: Seq<char>| holds_uuid(leaves@, u));
                &&& members_view(final(self).members@) == after_joins(
                    after_leaves(members_view(old(self).members@), leaving), pairs_view(joins@))
                &&& final(self).name_cache@ == cache_with(old(self).name_cache@, pairs_view(joins@))
                &&& r@.map_values(|s: String| s@) == arrivals(pairs_view(joins@), old(self).my_uuid@, leaving)
            }),
            final(self).my_uuid == old(self).my_uuid,
            final(self).panes == old(self).panes,
            final(self).msg_store == old(self).msg_store,
    {
        let leaving = UuidSet::from_vec(leaves);
        let ghost lset = leaving@;
        let ghost start = members_view(self.members@);
        let mut members: Vec<Member> = Vec::new();
        let m = self.members.len();
        let mut i: usize = 0;
        while i < m
            invariant
                m == self.members@.len(),
                i <= m,
                start == members_view(self.members@),
                lset == leaving@,
                members_view(members@) == after_leaves(start, lset).take(i as int),
            decreases m - i,
        {
            let mem = &self.members[i];
            let off = leaving.contains(&mem.uuid);
            let online = if off { false } else { mem.online };
            let ghost prev = members_view(members@);
            members.push(Member { uuid: mem.uuid.clone(), screenname: mem.screenname.clone(), online });
            proof {
                assert(start[i as int] == member_view(self.members@[i as int]));
                assert(after_leaves(start, lset).take(i + 1) =~= after_leaves(start, lset).take(i as int).push(
                    after_leaves(start, lset)[i as int]));
                assert(members_view(members@) =~= prev.push((mem.uuid@, mem.screenname@, online)));
            }
            i += 1;
        }
        proof {
            assert(after_leaves(start, lset).take(m as int) =~= after_leaves(start, lset));
        }
        let ghost base = after_leaves(start, lset);
        let mut arrived: Vec<String> = Vec::new();
        let n = joins.len();
        let mut j: usize = 0;
        while j < n
            invariant
                n == joins@.len(),
                j <= n,
                lset == leaving@,
                members_view(members@) == after_joins(base, pairs_view(joins@.take(j as int))),
                self.name_cache@ == cache_with(old(self).name_cache@, pairs_view(joins@.take(j as int))),
                arrived@.map_values(|s: String| s@) == arrivals(pairs_view(joins@.take(j as int)), old(self).my_uuid@, lset),
                self.my_uuid == old(self).my_uuid,
                self.panes == old(self).panes,
                self.msg_store == old(self).msg_store,
            decreases n - j,
        {
            let (u, name) = &joins[j];
            let ghost before = members_view(members@);
            proof {
                assert(pairs_view(joins@.take(j + 1)).drop_last() =~= pairs_view(joins@.take(j as int)));
                assert(pairs_view(joins@.take(j + 1)).last() == (u@, name@));
            }
            self.name_cache.insert(u.clone(), name.clone());
            match find_member(&members, u) {
                Some(k) => {
                    proof {
                        lemma_member_pos(before, u@, 0);
                    }
                    members.set(k, Member { uuid: u.clone(), screenname: name.clone(), online: true });
                    proof {
                        assert(member_pos(before, u@, 0) == Some(k as int));
                        assert(members_view(members@) =~= before.update(k as int, (u@, name@, true)));
                        assert(members_view(members@) == after_join(before, u@, name@));
                    }
                },
                None => {
                    members.push(Member { uuid: u.clone(), screenname: name.clone(), online: true });
                    proof {
                        assert(member_pos(before, u@, 0) is None);
                        assert(members_view(members@) =~= before.push((u@, name@, true)));
                        assert(members_view(members@) == after_join(before, u@, name@));
                    }
                },
            }
            proof {
                assert(after_joins(base, pairs_view(joins@.take(j + 1))) == after_join(before, u@, name@));
                assert(members_view(members@) == after_join(before, u@, name@));
            }
            let ghost arrived_before = arrived@.map_values(|s: String| s@);
            if *u != self.my_uuid && !leaving.contains(u) {
                arrived.push(u.clone());
                proof {
                    assert(arrived@.map_values(|s: String| s@) =~= arrived_before.push(u@));
                }
            }
            j += 1;
        }
        proof {
            assert(joins@.take(n as int) =~= joins@);
        }
        self.members = members;
        arrived
    }
}

} // verus!
