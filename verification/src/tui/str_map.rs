//! A small map keyed by uuid strings, kept as a list without repeated keys.

use vstd::prelude::*;

verus! {

/// No two entries share a key.
spec fn keys_distinct<T>(e: Seq<(String, T)>) -> bool {
    forall|i: int, j: int| 0 <= i < j < e.len() ==> (#[trigger] e[i]).0@ != (#[trigger] e[j]).0@
}

/// Entry `i` has key `k`.
spec fn key_at<T>(e: Seq<(String, T)>, k: Seq<char>, i: int) -> bool {
    0 <= i < e.len() && e[i].0@ == k
}

/// The map an entry list stands for.
spec fn key_map<T>(e: Seq<(String, T)>) -> Map<Seq<char>, T> {
    Map::new(
        |k: Seq<char>| exists|i: int| #[trigger] key_at(e, k, i),
        |k: Seq<char>| e[choose|i: int| #[trigger] key_at(e, k, i)].1,
    )
}

proof fn lemma_key_map_at<T>(e: Seq<(String, T)>, i: int)
    requires
        keys_distinct(e),
        0 <= i < e.len(),
    ensures
        key_map(e).contains_key(e[i].0@),
        key_map(e)[e[i].0@] == e[i].1,
{
    let k = e[i].0@;
    assert(key_at(e, k, i));
    let c = choose|j: int| #[trigger] key_at(e, k, j);
    assert(key_at(e, k, c));
    if c < i {
        assert(e[c].0@ != e[i].0@);
    } else if c > i {
        assert(e[i].0@ != e[c].0@);
    }
}

proof fn lemma_key_map_len<T>(e: Seq<(String, T)>)
    requires
        keys_distinct(e),
    ensures
        key_map(e).dom().len() == e.len(),
        key_map(e).dom().finite(),
    decreases e.len(),
{
    if e.len() == 0 {
        assert(key_map(e).dom() =~= Set::<Seq<char>>::empty());
    } else {
        let p = e.drop_last();
        assert forall|i: int, j: int| 0 <= i < j < p.len() implies (#[trigger] p[i]).0@ != (#[trigger] p[j]).0@ by {
            assert(p[i] == e[i] && p[j] == e[j]);
        }
        lemma_key_map_len(p);
        let k = e.last().0@;
        assert(key_map(e).dom() =~= key_map(p).dom().insert(k)) by {
            assert forall|q: Seq<char>| key_map(e).dom().contains(q) <==> key_map(p).dom().insert(k).contains(q) by {
                if key_map(e).dom().contains(q) {
                    let j = choose|j: int| #[trigger] key_at(e, q, j);
                    if j < p.len() {
                        assert(key_at(p, q, j));
                    }
                }
                if key_map(p).dom().contains(q) {
                    let j = choose|j: int| #[trigger] key_at(p, q, j);
                    assert(key_at(e, q, j));
                }
                if q == k {
                    assert(key_at(e, q, e.len() - 1));
                }
            }
        }
        assert(!key_map(p).dom().contains(k)) by {
            if key_map(p).dom().contains(k) {
                let j = choose|j: int| #[trigger] key_at(p, k, j);
                assert(e[j].0@ != e[e.len() - 1].0@);
            }
        }
    }
}

/// Values by string key (a uuid).
pub struct StrMap<T> {
    entries: Vec<(String, T)>,
}

impl<T> View for StrMap<T> {
    type V = Map<Seq<char>, T>;

    closed spec fn view(&self) -> Map<Seq<char>, T> {
        key_map(self.entries@)
    }
}

impl<T> StrMap<T> {
    #[verifier::type_invariant]
    spec fn distinct(&self) -> bool {
        keys_distinct(self.entries@)
    }

    /// An empty map.
    pub fn new() -> (m: Self)
        ensures
            m@ == Map::<Seq<char>, T>::empty(),
    {
        let m = StrMap { entries: Vec::new() };
        assert(m@ =~= Map::<Seq<char>, T>::empty());
        m
    }

    fn position(&self, t: &String) -> (r: Option<usize>)
        ensures
            r matches Some(i) ==> i < self.entries@.len() && self.entries@[i as int].0@ == t@,
            r is None ==> forall|i: int| 0 <= i < self.entries@.len() ==> (#[trigger] self.entries@[i]).0@ != t@,
    {
        let mut i: usize = 0;
        while i < self.entries.len()
            invariant
                i <= self.entries@.len(),
                forall|k: int| 0 <= k < i ==> (#[trigger] self.entries@[k]).0@ != t@,
            decreases self.entries@.len() - i,
        {
            if self.entries[i].0 == *t {
                return Some(i);
            }
            i += 1;
        }
        None
    }

    /// The value for key `t`.
    pub fn get(&self, t: &String) -> (r: Option<&T>)
        ensures
            r is Some <==> self@.contains_key(t@),
            r matches Some(v) ==> *v == self@[t@],
    {
        proof {
            use_type_invariant(self);
            if self@.contains_key(t@) {
                let c = choose|j: int| #[trigger] key_at(self.entries@, t@, j);
                assert(key_at(self.entries@, t@, c));
            }
        }
        match self.position(t) {
            Some(i) => {
                proof {
                    lemma_key_map_at(self.entries@, i as int);
                }
                Some(&self.entries[i].1)
            },
            None => None,
        }
    }

    /// Set the value for key `t`.
    pub fn insert(&mut self, t: String, v: T)
        ensures
            final(self)@ == old(self)@.insert(t@, v),
    {
        proof {
            use_type_invariant(&*self);
        }
        let ghost m = self.entries@;
        let ghost k = t@;
        let pos = self.position(&t);
        let mut entries: Vec<(String, T)> = Vec::new();
        std::mem::swap(&mut entries, &mut self.entries);
        match pos {
            Some(i) => {
                entries.set(i, (t, v));
                proof {
                    assert forall|a: int, b: int| 0 <= a < b < entries@.len() implies
                        (#[trigger] entries@[a]).0@ != (#[trigger] entries@[b]).0@ by {
                        if a != i && b != i {
                            assert(m[a].0@ != m[b].0@);
                        } else if a == i {
                            assert(m[a].0@ != m[b].0@);
                        } else {
                            assert(m[a].0@ != m[b].0@);
                        }
                    }
                }
            },
            None => {
                entries.push((t, v));
            },
        }
        proof {
            let e2 = entries@;
            let target = key_map(m).insert(k, v);
            let idx: int = match pos { Some(i) => i as int, None => m.len() as int };
            assert(key_at(e2, k, idx));
            assert forall|q: Seq<char>| #[trigger] key_map(e2).contains_key(q) <==> target.contains_key(q) by {
                if key_map(e2).contains_key(q) {
                    let j = choose|j: int| #[trigger] key_at(e2, q, j);
                    if j != idx {
                        assert(key_at(m, q, j));
                    }
                }
                if key_map(m).contains_key(q) {
                    let j = choose|j: int| #[trigger] key_at(m, q, j);
                    if j != idx {
                        assert(key_at(e2, q, j));
                    }
                }
            }
            assert forall|q: Seq<char>| #[trigger] key_map(e2).contains_key(q) implies key_map(e2)[q] == target[q] by {
                let j = choose|j: int| #[trigger] key_at(e2, q, j);
                lemma_key_map_at(e2, j);
                if j != idx {
                    assert(key_at(m, q, j));
                    lemma_key_map_at(m, j);
                }
            }
            assert(key_map(e2) =~= target);
        }
        self.entries = entries;
    }

    /// Remove the value for key `t`, returning it.
    pub fn remove(&mut self, t: &String) -> (r: Option<T>)
        ensures
            final(self)@ == old(self)@.remove(t@),
            r is Some <==> old(self)@.contains_key(t@),
            r matches Some(v) ==> v == old(self)@[t@],
    {
        proof {
            use_type_invariant(&*self);
            if self@.contains_key(t@) {
                let c = choose|j: int| #[trigger] key_at(self.entries@, t@, j);
                assert(key_at(self.entries@, t@, c));
            }
        }
        let ghost m = self.entries@;
        let ghost k = t@;
        match self.position(t) {
            Some(i) => {
                proof {
                    lemma_key_map_at(m, i as int);
                }
                let mut entries: Vec<(String, T)> = Vec::new();
                std::mem::swap(&mut entries, &mut self.entries);
                let (_, v) = entries.remove(i);
                proof {
                    let e2 = entries@;
                    assert forall|a: int, b: int| 0 <= a < b < e2.len() implies
                        (#[trigger] e2[a]).0@ != (#[trigger] e2[b]).0@ by {
                        let a0 = if a < i { a } else { a + 1 };
                        let b0 = if b < i { b } else { b + 1 };
                        assert(e2[a] == m[a0]);
                        assert(e2[b] == m[b0]);
                    }
                    let target = key_map(m).remove(k);
                    assert forall|q: Seq<char>| #[trigger] key_map(e2).contains_key(q) <==> target.contains_key(q) by {
                        if key_map(e2).contains_key(q) {
                            let j = choose|j: int| #[trigger] key_at(e2, q, j);
                            let j0 = if j < i { j } else { j + 1 };
                            assert(key_at(m, q, j0));
                            assert(j0 != i);
                            assert(q != k) by {
                                if j0 < i { assert(m[j0].0@ != m[i as int].0@); }
                                else { assert(m[i as int].0@ != m[j0].0@); }
                            }
                        }
                        if target.contains_key(q) {
                            let j = choose|j: int| #[trigger] key_at(m, q, j);
                            assert(j != i);
                            let j2 = if j < i { j } else { j - 1 };
                            assert(key_at(e2, q, j2));
                        }
                    }
                    assert forall|q: Seq<char>| #[trigger] key_map(e2).contains_key(q) implies key_map(e2)[q] == target[q] by {
                        let j = choose|j: int| #[trigger] key_at(e2, q, j);
                        lemma_key_map_at(e2, j);
                        let j0 = if j < i { j } else { j + 1 };
                        assert(e2[j] == m[j0]);
                        lemma_key_map_at(m, j0);
                    }
                    assert(key_map(e2) =~= target);
                }
                self.entries = entries;
                Some(v)
            },
            None => {
                proof {
                    assert(key_map(m) =~= key_map(m).remove(k));
                }
                None
            },
        }
    }

    /// The keys, in insertion order.
    pub fn keys(&self) -> (r: Vec<String>)
        ensures
            forall|k: Seq<char>| self@.contains_key(k) <==> exists|i: int| 0 <= i < r@.len() && (#[trigger] r@[i])@ == k,
            r@.len() == self@.dom().len(),
    {
        proof {
            use_type_invariant(self);
        }
        let mut out: Vec<String> = Vec::new();
        let mut i: usize = 0;
        while i < self.entries.len()
            invariant
                i <= self.entries@.len(),
                out@.len() == i,
                forall|j: int| 0 <= j < i ==> (#[trigger] out@[j])@ == self.entries@[j].0@,
            decreases self.entries@.len() - i,
        {
            let k = self.entries[i].0.clone();
            out.push(k);
            i += 1;
        }
        proof {
            let e = self.entries@;
            assert forall|k: Seq<char>| self@.contains_key(k) <==> exists|i: int| 0 <= i < out@.len() && (#[trigger] out@[i])@ == k by {
                if self@.contains_key(k) {
                    let j = choose|j: int| #[trigger] key_at(e, k, j);
                    assert(out@[j]@ == k);
                }
                if exists|i: int| 0 <= i < out@.len() && (#[trigger] out@[i])@ == k {
                    let j = choose|j: int| 0 <= j < out@.len() && (#[trigger] out@[j])@ == k;
                    assert(key_at(e, k, j));
                }
            }
            lemma_key_map_len(e);
        }
        out
    }

    /// Remove every value.
    pub fn clear(&mut self)
        ensures
            final(self)@ == Map::<Seq<char>, T>::empty(),
    {
        self.entries = Vec::new();
        assert(self@ =~= Map::<Seq<char>, T>::empty());
    }
}

} // verus!
