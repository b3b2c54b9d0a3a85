//! A small set of uuids (thread roots, blocked users), kept as a list
//! without repeats.

use vstd::prelude::*;

verus! {

/// A set of uuid strings.
pub struct UuidSet {
    items: Vec<String>,
}

/// Some item of `v` is `u`.
pub open spec fn holds_uuid(v: Seq<String>, u: Seq<char>) -> bool {
    exists|i: int| 0 <= i < v.len() && (#[trigger] v[i])@ == u
}

impl View for UuidSet {
    type V = Set<Seq<char>>;

    closed spec fn view(&self) -> Set<Seq<char>> {
        Set::new(|u: Seq<char>| holds_uuid(self.items@, u))
    }
}

impl UuidSet {
    /// An empty set.
    pub fn new() -> (s: Self)
        ensures
            s@ == Set::<Seq<char>>::empty(),
    {
        let s = UuidSet { items: Vec::new() };
        assert(s@ =~= Set::<Seq<char>>::empty());
        s
    }

    /// A set of the given uuids.
    pub fn from_vec(items: Vec<String>) -> (s: Self)
        ensures
            s@ == Set::new(|u: Seq<char>| holds_uuid(items@, u)),
    {
        UuidSet { items }
    }

    /// Whether `u` is in the set.
    pub fn contains(&self, u: &String) -> (r: bool)
        ensures
            r == self@.contains(u@),
    {
        let mut i: usize = 0;
        while i < self.items.len()
            invariant
                i <= self.items@.len(),
                forall|k: int| 0 <= k < i ==> (#[trigger] self.items@[k])@ != u@,
            decreases self.items@.len() - i,
        {
            if self.items[i] == *u {
                return true;
            }
            i += 1;
        }
        false
    }

    /// Add `u`.
    pub fn insert(&mut self, u: String)
        ensures
            final(self)@ == old(self)@.insert(u@),
    {
        if !self.contains(&u) {
            let ghost old_items = self.items@;
            self.items.push(u);
            proof {
                assert forall|x: Seq<char>| holds_uuid(self.items@, x) <==> holds_uuid(old_items, x) || x == u@ by {
                    if holds_uuid(self.items@, x) {
                        let i = choose|i: int| 0 <= i < self.items@.len() && (#[trigger] self.items@[i])@ == x;
                        if i < old_items.len() {
                            assert(old_items[i] == self.items@[i]);
                        }
                    }
                    if holds_uuid(old_items, x) {
                        let i = choose|i: int| 0 <= i < old_items.len() && (#[trigger] old_items[i])@ == x;
                        assert(self.items@[i] == old_items[i]);
                    }
                    if x == u@ {
                        assert(self.items@[old_items.len() as int]@ == x);
                    }
                }
                assert(self@ =~= old(self)@.insert(u@));
            }
        } else {
            assert(self@ =~= old(self)@.insert(u@));
        }
    }

    /// Remove `u`.
    pub fn remove(&mut self, u: &String)
        ensures
            final(self)@ == old(self)@.remove(u@),
    {
        let mut kept: Vec<String> = Vec::new();
        let mut i: usize = 0;
        while i < self.items.len()
            invariant
                i <= self.items@.len(),
                forall|x: Seq<char>| holds_uuid(kept@, x) <==> (x != u@ && exists|k: int| 0 <= k < i && (#[trigger] self.items@[k])@ == x),
            decreases self.items@.len() - i,
        {
            let ghost before = kept@;
            if self.items[i] != *u {
                kept.push(self.items[i].clone());
            }
            proof {
                assert forall|x: Seq<char>| holds_uuid(kept@, x) <==> (x != u@ && exists|k: int| 0 <= k < i + 1 && (#[trigger] self.items@[k])@ == x) by {
                    if holds_uuid(kept@, x) {
                        let j = choose|j: int| 0 <= j < kept@.len() && (#[trigger] kept@[j])@ == x;
                        if j < before.len() {
                            assert(kept@[j] == before[j]);
                            assert(holds_uuid(before, x));
                        }
                    }
                    if holds_uuid(before, x) {
                        let j = choose|j: int| 0 <= j < before.len() && (#[trigger] before[j])@ == x;
                        assert(kept@[j] == before[j]);
                    }
                    if x != u@ && exists|k: int| 0 <= k < i + 1 && (#[trigger] self.items@[k])@ == x {
                        let k = choose|k: int| 0 <= k < i + 1 && (#[trigger] self.items@[k])@ == x;
                        if k == i {
                            assert(kept@[kept@.len() - 1]@ == x);
                        }
                    }
                }
            }
            i += 1;
        }
        self.items = kept;
        proof {
            assert(self@ =~= old(self)@.remove(u@));
        }
    }

    /// Remove every uuid.
    pub fn clear(&mut self)
        ensures
            final(self)@ == Set::<Seq<char>>::empty(),
    {
        self.items = Vec::new();
        assert(self@ =~= Set::<Seq<char>>::empty());
    }
}

} // verus!
