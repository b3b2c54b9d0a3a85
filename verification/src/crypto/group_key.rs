use vstd::prelude::*;
use vstd::bytes::{spec_u32_from_le_bytes, spec_u32_to_le_bytes, u32_from_le_bytes, u32_to_le_bytes};

use super::primitives::random_key;

verus! {

/// A single epoch key: a 256-bit AES key tagged with its epoch number.
#[derive(Clone, Copy)]
pub struct EpochKey {
    pub epoch: u32,
    pub key: [u8; 32],
}

/// The full key chain for a chat: every epoch key received or generated.
pub struct KeyChain {
    keys: Vec<EpochKey>,
}

/// Why a serialized key chain could not be read back.
#[derive(Debug, Clone, Copy, PartialEq, Eq)]
pub enum KeyChainError {
    /// The byte length is not a multiple of the 36-byte record size.
    Corrupted,
}

/// Size in bytes of one serialized epoch record: 4-byte epoch + 32-byte key.
pub const RECORD_LEN: usize = 36;

// ---------------------------------------------------------------------------
// Specification of the ordering used by the chain
// ---------------------------------------------------------------------------

/// Epochs never decrease along `s`.
pub open spec fn epochs_sorted(s: Seq<EpochKey>) -> bool {
    forall|i: int, j: int| 0 <= i < j < s.len() ==> s[i].epoch <= s[j].epoch
}

/// Epochs strictly increase along `s` (sorted and free of duplicates).
pub open spec fn epochs_strictly_sorted(s: Seq<EpochKey>) -> bool {
    forall|i: int, j: int| 0 <= i < j < s.len() ==> s[i].epoch < s[j].epoch
}

/// Some entry of `s` carries epoch `e`.
pub open spec fn has_epoch(s: Seq<EpochKey>, e: u32) -> bool {
    exists|i: int| 0 <= i < s.len() && s[i].epoch == e
}

/// `i` is the first position of `s` that carries epoch `e`.
pub open spec fn is_first_epoch_index(s: Seq<EpochKey>, e: u32, i: int) -> bool {
    0 <= i < s.len() && s[i].epoch == e && forall|j: int| 0 <= j < i ==> s[j].epoch != e
}

/// The entry a lookup of epoch `e` finds: the first one carrying it
/// (meaningful only when `has_epoch(s, e)`).
pub open spec fn key_for_epoch(s: Seq<EpochKey>, e: u32) -> EpochKey {
    s[choose|i: int| is_first_epoch_index(s, e, i)]
}

proof fn lemma_first_epoch_index_unique(s: Seq<EpochKey>, e: u32, i: int)
    requires
        is_first_epoch_index(s, e, i),
    ensures
        key_for_epoch(s, e) == s[i],
{
    let k = choose|k: int| is_first_epoch_index(s, e, k);
    assert(is_first_epoch_index(s, e, k));
    if k < i {
        assert(s[k].epoch != e);
    } else if k > i {
        assert(s[i].epoch != e);
    }
}

/// Law: in a chain whose epochs strictly increase, looking up the current
/// epoch with `get` finds the current key.
pub proof fn law_current_key_found_by_epoch(kc: &KeyChain)
    requires
        epochs_strictly_sorted(kc@),
        kc@.len() > 0,
    ensures
        has_epoch(kc@, kc@.last().epoch),
        key_for_epoch(kc@, kc@.last().epoch) == kc@.last(),
{
    let s = kc@;
    let i = s.len() - 1;
    assert forall|j: int| 0 <= j < i implies s[j].epoch != s.last().epoch by {
        assert(s[j].epoch < s[i].epoch);
    }
    assert(is_first_epoch_index(s, s.last().epoch, i));
    lemma_first_epoch_index_unique(s, s.last().epoch, i);
}

/// Number of entries of `s` whose epoch is at most `e`.
pub open spec fn count_le(s: Seq<EpochKey>, e: u32) -> nat
    decreases s.len(),
{
    if s.len() == 0 {
        0
    } else {
        (if s[0].epoch <= e { 1nat } else { 0nat }) + count_le(s.drop_first(), e)
    }
}

/// Stable insertion of `x` into a sorted chain: after every entry whose epoch
/// is at most `x.epoch`.
pub open spec fn insert_by_epoch(s: Seq<EpochKey>, x: EpochKey) -> Seq<EpochKey> {
    s.insert(count_le(s, x.epoch) as int, x)
}

/// Stable sort of `s` by epoch (the order `sort_by_key` produces).
pub open spec fn sort_epochs(s: Seq<EpochKey>) -> Seq<EpochKey>
    decreases s.len(),
{
    if s.len() == 0 {
        s
    } else {
        insert_by_epoch(sort_epochs(s.drop_last()), s.last())
    }
}

/// The serialized form: each entry as its epoch (little endian) then its key.
pub open spec fn encode_keys(s: Seq<EpochKey>) -> Seq<u8>
    decreases s.len(),
{
    if s.len() == 0 {
        Seq::empty()
    } else {
        encode_keys(s.drop_last()) + spec_u32_to_le_bytes(s.last().epoch) + s.last().key@
    }
}

// ---------------------------------------------------------------------------
// Lemmas about the ordering
// ---------------------------------------------------------------------------

proof fn lemma_count_le_bounds(s: Seq<EpochKey>, e: u32)
    ensures
        count_le(s, e) <= s.len(),
    decreases s.len(),
{
    if s.len() > 0 {
        lemma_count_le_bounds(s.drop_first(), e);
    }
}

/// In a sorted chain, the entries with epoch at most `e` form a prefix whose
/// length is `count_le(s, e)`.
proof fn lemma_count_le_prefix(s: Seq<EpochKey>, e: u32)
    requires
        epochs_sorted(s),
    ensures
        count_le(s, e) <= s.len(),
        forall|i: int| 0 <= i < count_le(s, e) ==> s[i].epoch <= e,
        forall|i: int| count_le(s, e) <= i < s.len() ==> s[i].epoch > e,
    decreases s.len(),
{
    if s.len() > 0 {
        let t = s.drop_first();
        assert(epochs_sorted(t));
        lemma_count_le_prefix(t, e);
        if s[0].epoch <= e {
            assert forall|i: int| 0 <= i < count_le(s, e) implies s[i].epoch <= e by {
                if i > 0 {
                    assert(s[i] == t[i - 1]);
                }
            }
            assert forall|i: int| count_le(s, e) <= i < s.len() implies s[i].epoch > e by {
                assert(s[i] == t[i - 1]);
            }
        } else {
            assert forall|i: int| 0 <= i < s.len() implies s[i].epoch > e by {
                assert(s[0].epoch <= s[i].epoch);
            }
        }
    }
}

proof fn lemma_insert_by_epoch_sorted(s: Seq<EpochKey>, x: EpochKey)
    requires
        epochs_sorted(s),
    ensures
        epochs_sorted(insert_by_epoch(s, x)),
        insert_by_epoch(s, x).len() == s.len() + 1,
        insert_by_epoch(s, x).to_multiset() =~= s.to_multiset().insert(x),
{
    lemma_count_le_prefix(s, x.epoch);
    let p = count_le(s, x.epoch) as int;
    let r = insert_by_epoch(s, x);
    assert(r.len() == s.len() + 1);
    assert forall|i: int, j: int| 0 <= i < j < r.len() implies r[i].epoch <= r[j].epoch by {
        if j < p {
        } else if j == p {
        } else if i < p {
            assert(r[i] == s[i]);
            assert(r[j] == s[j - 1]);
        } else if i == p {
            assert(r[j] == s[j - 1]);
        } else {
            assert(r[i] == s[i - 1]);
            assert(r[j] == s[j - 1]);
        }
    }
    lemma_insert_multiset(s, p, x);
}

proof fn lemma_insert_multiset(s: Seq<EpochKey>, p: int, x: EpochKey)
    requires
        0 <= p <= s.len(),
    ensures
        s.insert(p, x).to_multiset() =~= s.to_multiset().insert(x),
{
    broadcast use vstd::seq_lib::group_to_multiset_ensures;

    let a = s.subrange(0, p);
    let b = s.subrange(p, s.len() as int);
    assert(s =~= a + b);
    assert(s.insert(p, x) =~= a.push(x) + b);
    vstd::seq_lib::lemma_multiset_commutative(a, b);
    vstd::seq_lib::lemma_multiset_commutative(a.push(x), b);
}

/// The stable sort yields a sorted permutation of its input.
pub proof fn lemma_sort_epochs(s: Seq<EpochKey>)
    ensures
        epochs_sorted(sort_epochs(s)),
        sort_epochs(s).len() == s.len(),
        sort_epochs(s).to_multiset() =~= s.to_multiset(),
    decreases s.len(),
{
    broadcast use vstd::seq_lib::group_to_multiset_ensures;

    if s.len() > 0 {
        lemma_sort_epochs(s.drop_last());
        lemma_insert_by_epoch_sorted(sort_epochs(s.drop_last()), s.last());
        assert(s =~= s.drop_last().push(s.last()));
    }
}

/// Sorting an already sorted chain changes nothing.
proof fn lemma_sort_epochs_sorted_identity(s: Seq<EpochKey>)
    requires
        epochs_sorted(s),
    ensures
        sort_epochs(s) == s,
    decreases s.len(),
{
    if s.len() > 0 {
        let d = s.drop_last();
        assert(epochs_sorted(d));
        lemma_sort_epochs_sorted_identity(d);
        lemma_count_le_prefix(d, s.last().epoch);
        if count_le(d, s.last().epoch) < d.len() {
            let k = count_le(d, s.last().epoch) as int;
            assert(d[k] == s[k]);
            assert(s[k].epoch <= s[s.len() - 1].epoch);
        }
        assert(insert_by_epoch(d, s.last()) =~= s);
    }
}

/// Adding an epoch to a sorted chain inserts it after all smaller-or-equal epochs.
proof fn lemma_sort_push_sorted(s: Seq<EpochKey>, x: EpochKey)
    requires
        epochs_sorted(s),
    ensures
        sort_epochs(s.push(x)) == insert_by_epoch(s, x),
{
    lemma_sort_epochs_sorted_identity(s);
    assert(s.push(x).drop_last() =~= s);
}

proof fn lemma_insert_strict(s: Seq<EpochKey>, x: EpochKey)
    requires
        epochs_strictly_sorted(s),
        !has_epoch(s, x.epoch),
    ensures
        epochs_strictly_sorted(insert_by_epoch(s, x)),
        forall|e: u32| has_epoch(insert_by_epoch(s, x), e) <==> (has_epoch(s, e) || e == x.epoch),
{
    assert(epochs_sorted(s));
    lemma_count_le_prefix(s, x.epoch);
    let p = count_le(s, x.epoch) as int;
    let r = insert_by_epoch(s, x);
    assert forall|i: int, j: int| 0 <= i < j < r.len() implies r[i].epoch < r[j].epoch by {
        if j < p {
        } else if j == p {
            assert(r[i] == s[i]);
            assert(s[i].epoch != x.epoch);
        } else if i < p {
            assert(r[i] == s[i]);
            assert(r[j] == s[j - 1]);
        } else if i == p {
            assert(r[j] == s[j - 1]);
        } else {
            assert(r[i] == s[i - 1]);
            assert(r[j] == s[j - 1]);
        }
    }
    assert forall|e: u32| has_epoch(r, e) <==> (has_epoch(s, e) || e == x.epoch) by {
        if has_epoch(r, e) {
            let i = choose|i: int| 0 <= i < r.len() && r[i].epoch == e;
            if i < p {
                assert(r[i] == s[i]);
            } else if i > p {
                assert(r[i] == s[i - 1]);
            }
        }
        if has_epoch(s, e) {
            let i = choose|i: int| 0 <= i < s.len() && s[i].epoch == e;
            if i < p {
                assert(r[i] == s[i]);
            } else {
                assert(r[i + 1] == s[i]);
            }
        }
        if e == x.epoch {
            assert(r[p] == x);
        }
    }
}

/// Law: a chain whose epochs strictly increase keeps that shape under
/// `add_epoch`, and afterwards holds exactly the epochs it held plus the added
/// one (adding an epoch already present changes nothing).
pub proof fn law_add_epoch_sorted_and_unique(s: Seq<EpochKey>, x: EpochKey)
    requires
        epochs_strictly_sorted(s),
    ensures
        ({
            let r = if has_epoch(s, x.epoch) { s } else { sort_epochs(s.push(x)) };
            &&& epochs_strictly_sorted(r)
            &&& forall|e: u32| has_epoch(r, e) <==> (has_epoch(s, e) || e == x.epoch)
        }),
{
    if !has_epoch(s, x.epoch) {
        lemma_sort_push_sorted(s, x);
        lemma_insert_strict(s, x);
    }
}

proof fn lemma_encode_keys_len(s: Seq<EpochKey>)
    ensures
        encode_keys(s).len() == 36 * s.len(),
    decreases s.len(),
{
    if s.len() > 0 {
        lemma_encode_keys_len(s.drop_last());
        vstd::bytes::lemma_auto_spec_u32_to_from_le_bytes();
        assert(s.last().key@.len() == 32);
    }
}

/// Law: the persistent form determines the chain, so reading back what was
/// written yields the same epochs and keys in the same order.
pub proof fn law_encode_keys_injective(a: Seq<EpochKey>, b: Seq<EpochKey>)
    requires
        encode_keys(a) == encode_keys(b),
    ensures
        a == b,
    decreases a.len(),
{
    lemma_encode_keys_len(a);
    lemma_encode_keys_len(b);
    assert(a.len() == b.len());
    if a.len() > 0 {
        let (da, db) = (a.drop_last(), b.drop_last());
        lemma_encode_keys_len(da);
        lemma_encode_keys_len(db);
        vstd::bytes::lemma_auto_spec_u32_to_from_le_bytes();
        let ea = encode_keys(a);
        let n: int = 36 * (da.len() as int);
        assert(a.last().key@.len() == 32);
        assert(b.last().key@.len() == 32);
        assert(ea.subrange(0, n) =~= encode_keys(da));
        assert(ea.subrange(0, n) =~= encode_keys(db));
        assert(ea.subrange(n, n + 4) =~= spec_u32_to_le_bytes(a.last().epoch));
        assert(ea.subrange(n, n + 4) =~= spec_u32_to_le_bytes(b.last().epoch));
        assert(ea.subrange(n + 4, n + 36) =~= a.last().key@);
        assert(ea.subrange(n + 4, n + 36) =~= b.last().key@);
        assert(spec_u32_from_le_bytes(spec_u32_to_le_bytes(a.last().epoch)) == a.last().epoch);
        assert(spec_u32_from_le_bytes(spec_u32_to_le_bytes(b.last().epoch)) == b.last().epoch);
        assert(a.last().key == b.last().key);
        law_encode_keys_injective(da, db);
        assert(a =~= da.push(a.last()));
        assert(b =~= db.push(b.last()));
    }
}

/// The chain after `add_epoch` of `x`.
pub open spec fn add_step(s: Seq<EpochKey>, x: EpochKey) -> Seq<EpochKey> {
    if has_epoch(s, x.epoch) { s } else { sort_epochs(s.push(x)) }
}

/// The chain after `add_epoch` of each of `xs`, in order.
pub open spec fn add_all(s: Seq<EpochKey>, xs: Seq<EpochKey>) -> Seq<EpochKey>
    decreases xs.len(),
{
    if xs.len() == 0 { s } else { add_step(add_all(s, xs.drop_last()), xs.last()) }
}

/// Law: adding any list of epoch keys one by one to a chain whose epochs
/// strictly increase (an empty one, say) keeps them strictly increasing, so
/// no epoch is held twice, and the chain then holds exactly its epochs and
/// those of the list: nothing is lost.
pub proof fn law_add_epochs_in_turn(s: Seq<EpochKey>, xs: Seq<EpochKey>)
    requires
        epochs_strictly_sorted(s),
    ensures
        epochs_strictly_sorted(add_all(s, xs)),
        forall|e: u32| has_epoch(add_all(s, xs), e) <==> (has_epoch(s, e) || has_epoch(xs, e)),
    decreases xs.len(),
{
    if xs.len() > 0 {
        let pre = xs.drop_last();
        law_add_epochs_in_turn(s, pre);
        law_add_epoch_sorted_and_unique(add_all(s, pre), xs.last());
        assert forall|e: u32| has_epoch(xs, e) <==> (has_epoch(pre, e) || e == xs.last().epoch) by {
            if has_epoch(xs, e) {
                let i = choose|i: int| 0 <= i < xs.len() && xs[i].epoch == e;
                if i < pre.len() {
                    assert(pre[i] == xs[i]);
                }
            }
            if has_epoch(pre, e) {
                let i = choose|i: int| 0 <= i < pre.len() && pre[i].epoch == e;
                assert(xs[i] == pre[i]);
            }
            if e == xs.last().epoch {
                assert(xs[xs.len() - 1].epoch == e);
            }
        }
    }
}

/// Law: record `i` of the persistent form is the `i`-th entry: its epoch in
/// 4 little-endian bytes at `36 * i`, then its 32 key bytes.
pub proof fn law_encoded_record(s: Seq<EpochKey>, i: int)
    requires
        0 <= i < s.len(),
    ensures
        encode_keys(s).subrange(36 * i, 36 * i + 4) == spec_u32_to_le_bytes(s[i].epoch),
        encode_keys(s).subrange(36 * i + 4, 36 * i + 36) == s[i].key@,
    decreases s.len(),
{
    let d = s.drop_last();
    lemma_encode_keys_len(d);
    vstd::bytes::lemma_auto_spec_u32_to_from_le_bytes();
    assert(s.last().key@.len() == 32);
    let e = encode_keys(s);
    if i < d.len() {
        law_encoded_record(d, i);
        assert(e.subrange(36 * i, 36 * i + 4) =~= encode_keys(d).subrange(36 * i, 36 * i + 4));
        assert(e.subrange(36 * i + 4, 36 * i + 36) =~= encode_keys(d).subrange(36 * i + 4, 36 * i + 36));
        assert(d[i] == s[i]);
    } else {
        assert(e.subrange(36 * i, 36 * i + 4) =~= spec_u32_to_le_bytes(s.last().epoch));
        assert(e.subrange(36 * i + 4, 36 * i + 36) =~= s.last().key@);
    }
}

impl View for KeyChain {
    type V = Seq<EpochKey>;

    /// The epoch keys held, in storage order.
    closed spec fn view(&self) -> Seq<EpochKey> {
        self.keys@
    }
}

impl KeyChain {
    /// Create a new key chain with a random epoch-0 key (called by group creator).
    pub fn generate_new() -> (kc: Self)
        ensures
            kc@.len() == 1,
            kc@[0].epoch == 0,
    {
        let key = random_key();
        let mut keys = Vec::new();
        keys.push(EpochKey { epoch: 0, key });
        KeyChain { keys }
    }

    /// Create a key chain from a received set of epoch keys, stably sorted by epoch.
    pub fn from_epochs(epochs: Vec<EpochKey>) -> (kc: Self)
        ensures
            kc@ == sort_epochs(epochs@),
            epochs_sorted(kc@),
            kc@.to_multiset() =~= epochs@.to_multiset(),
    {
        let mut keys: Vec<EpochKey> = Vec::new();
        let n = epochs.len();
        let mut i: usize = 0;
        while i < n
            invariant
                n == epochs@.len(),
                i <= n,
                keys@ == sort_epochs(epochs@.subrange(0, i as int)),
                epochs_sorted(keys@),
            decreases n - i,
        {
            let ek = epochs[i];
            proof {
                let pre = epochs@.subrange(0, i as int);
                assert(epochs@.subrange(0, i + 1).drop_last() =~= pre);
                assert(epochs@.subrange(0, i + 1).last() == ek);
                lemma_insert_by_epoch_sorted(keys@, ek);
            }
            insert_sorted(&mut keys, ek);
            i += 1;
        }
        proof {
            assert(epochs@.subrange(0, n as int) =~= epochs@);
            lemma_sort_epochs(epochs@);
        }
        KeyChain { keys }
    }

    /// The newest epoch number, if the chain holds any key.
    pub fn current_epoch(&self) -> (r: Option<u32>)
        ensures
            r == (if self@.len() == 0 { None } else { Some(self@.last().epoch) }),
    {
        if self.keys.len() == 0 {
            None
        } else {
            Some(self.keys[self.keys.len() - 1].epoch)
        }
    }

    /// Get the key for a specific epoch (for decrypting old messages): the
    /// first entry that carries it.
    pub fn get(&self, epoch: u32) -> (r: Option<&EpochKey>)
        ensures
            r is Some <==> has_epoch(self@, epoch),
            r matches Some(k) ==> *k == key_for_epoch(self@, epoch) && k.epoch == epoch,
    {
        let mut i: usize = 0;
        while i < self.keys.len()
            invariant
                i <= self.keys@.len(),
                forall|j: int| 0 <= j < i ==> self.keys@[j].epoch != epoch,
            decreases self.keys@.len() - i,
        {
            if self.keys[i].epoch == epoch {
                proof {
                    assert(is_first_epoch_index(self@, epoch, i as int));
                    lemma_first_epoch_index_unique(self@, epoch, i as int);
                }
                return Some(&self.keys[i]);
            }
            i += 1;
        }
        None
    }

    /// The newest key, if any.
    pub fn current_key(&self) -> (r: Option<&EpochKey>)
        ensures
            r == (if self@.len() == 0 { None } else { Some(&self@.last()) }),
    {
        if self.keys.len() == 0 {
            None
        } else {
            Some(&self.keys[self.keys.len() - 1])
        }
    }

    /// Append a new epoch, one past the newest, with a fresh random key
    /// (called on member removal re-key).
    pub fn rotate(&mut self) -> (r: &EpochKey)
        requires
            old(self)@.len() > 0,
            old(self)@.last().epoch < u32::MAX,
        ensures
            final(self)@.len() == old(self)@.len() + 1,
            final(self)@.subrange(0, old(self)@.len() as int) == old(self)@,
            final(self)@.last().epoch == old(self)@.last().epoch + 1,
            *r == final(self)@.last(),
    {
        let current = self.keys[self.keys.len() - 1].epoch;
        let key = random_key();
        self.keys.push(EpochKey { epoch: current + 1, key });
        assert(self.keys@.subrange(0, old(self)@.len() as int) =~= old(self)@);
        let last = self.keys.len() - 1;
        &self.keys[last]
    }

    /// Add a received epoch key (from key distribution), unless that epoch is
    /// already present; the chain is then stably re-sorted by epoch.
    pub fn add_epoch(&mut self, epoch_key: EpochKey)
        ensures
            final(self)@ == (if has_epoch(old(self)@, epoch_key.epoch) {
                old(self)@
            } else {
                sort_epochs(old(self)@.push(epoch_key))
            }),
    {
        let mut present = false;
        let mut i: usize = 0;
        while i < self.keys.len()
            invariant
                i <= self.keys@.len(),
                self.keys@ == old(self)@,
                present <==> exists|j: int| 0 <= j < i && self.keys@[j].epoch == epoch_key.epoch,
            decreases self.keys@.len() - i,
        {
            if self.keys[i].epoch == epoch_key.epoch {
                present = true;
            }
            i += 1;
        }
        if !present {
            self.keys.push(epoch_key);
            let mut all: Vec<EpochKey> = Vec::new();
            std::mem::swap(&mut all, &mut self.keys);
            let sorted = KeyChain::from_epochs(all);
            self.keys = sorted.keys;
        }
    }

    /// Read a saved chain back: no saved bytes (no file yet) give no chain;
    /// bytes that are not whole 36-byte records are refused; otherwise the
    /// chain is the records in order, so loading what `to_bytes` saved gives
    /// the same epochs and keys in the same order.
    pub fn load(data: Option<&[u8]>) -> (r: Result<Option<KeyChain>, KeyChainError>)
        ensures
            match data {
                None => r == Ok::<Option<KeyChain>, KeyChainError>(None),
                Some(d) => if d@.len() % 36 != 0 {
                    r == Err::<Option<KeyChain>, KeyChainError>(KeyChainError::Corrupted)
                } else {
                    r matches Ok(Some(kc)) && {
                        &&& encode_keys(kc@) == d@
                        &&& kc@.len() == d@.len() / 36
                        &&& forall|saved: Seq<EpochKey>| encode_keys(saved) == d@ ==> kc@ == saved
                    }
                },
            },
    {
        match data {
            None => Ok(None),
            Some(d) => match KeyChain::from_bytes(d) {
                Ok(kc) => {
                    proof {
                        lemma_encode_keys_len(kc@);
                        assert forall|saved: Seq<EpochKey>| encode_keys(saved) == d@ implies kc@ == saved by {
                            law_encode_keys_injective(kc@, saved);
                        }
                    }
                    Ok(Some(kc))
                },
                Err(e) => Err(e),
            },
        }
    }

    /// All epoch keys, in storage order.
    pub fn all_epochs(&self) -> (r: &[EpochKey])
        ensures
            r@ == self@,
    {
        self.keys.as_slice()
    }

    /// The persistent form: for each entry, its epoch (4 bytes little endian)
    /// followed by its 32-byte key.
    pub fn to_bytes(&self) -> (data: Vec<u8>)
        ensures
            data@ == encode_keys(self@),
    {
        let mut data: Vec<u8> = Vec::new();
        let n = self.keys.len();
        let mut i: usize = 0;
        while i < n
            invariant
                n == self.keys@.len(),
                i <= n,
                data@ == encode_keys(self.keys@.subrange(0, i as int)),
            decreases n - i,
        {
            let ek = self.keys[i];
            let eb = u32_to_le_bytes(ek.epoch);
            let ghost before = data@;
            let mut k: usize = 0;
            while k < 4
                invariant
                    eb@.len() == 4,
                    k <= 4,
                    data@ == before + eb@.subrange(0, k as int),
                decreases 4 - k,
            {
                data.push(eb[k]);
                k += 1;
                assert(eb@.subrange(0, k as int) =~= eb@.subrange(0, k - 1).push(eb@[k - 1]));
            }
            let ghost mid = data@;
            let mut k: usize = 0;
            while k < 32
                invariant
                    k <= 32,
                    ek.key@.len() == 32,
                    data@ == mid + ek.key@.subrange(0, k as int),
                decreases 32 - k,
            {
                data.push(ek.key[k]);
                k += 1;
                assert(ek.key@.subrange(0, k as int) =~= ek.key@.subrange(0, k - 1).push(ek.key@[k - 1]));
            }
            proof {
                assert(eb@.subrange(0, 4) =~= eb@);
                assert(ek.key@.subrange(0, 32) =~= ek.key@);
                let s = self.keys@.subrange(0, i + 1);
                assert(s.drop_last() =~= self.keys@.subrange(0, i as int));
                assert(s.last() == ek);
            }
            i += 1;
        }
        assert(self.keys@.subrange(0, n as int) =~= self.keys@);
        data
    }

    /// Read back the persistent form. Records are kept in file order; a length
    /// that is not a multiple of 36 is rejected.
    pub fn from_bytes(data: &[u8]) -> (r: Result<KeyChain, KeyChainError>)
        ensures
            data@.len() % 36 != 0 ==> r == Err::<KeyChain, KeyChainError>(KeyChainError::Corrupted),
            data@.len() % 36 == 0 ==> (r matches Ok(kc) && encode_keys(kc@) == data@),
    {
        if data.len() % 36 != 0 {
            return Err(KeyChainError::Corrupted);
        }
        let mut keys: Vec<EpochKey> = Vec::new();
        let dlen = data.len();
        let count = dlen / 36;
        assert(count * 36 == data@.len()) by (nonlinear_arith)
            requires
                count == data@.len() / 36,
                data@.len() % 36 == 0,
        ;
        let mut i: usize = 0;
        proof {
            vstd::bytes::lemma_auto_spec_u32_to_from_le_bytes();
        }
        while i < count
            invariant
                count * 36 == data@.len(),
                dlen == data@.len(),
                i <= count,
                keys@.len() == i,
                encode_keys(keys@) == data@.subrange(0, i * 36),
                forall|s: Seq<u8>| s.len() == 4 ==> #[trigger] spec_u32_to_le_bytes(spec_u32_from_le_bytes(s)) == s,
            decreases count - i,
        {
            assert(i * 36 + 36 <= count * 36) by (nonlinear_arith)
                requires
                    i < count,
            ;
            assert(i * 36 + 36 <= dlen);
            let base = i * 36;
            let epoch = u32_from_le_bytes(&data[base..base + 4]);
            let mut key = [0u8; 32];
            let mut k: usize = 0;
            while k < 32
                invariant
                    k <= 32,
                    dlen == data@.len(),
                    base + 36 <= dlen,
                    key@.len() == 32,
                    forall|j: int| 0 <= j < k ==> key@[j] == data@[base + 4 + j],
                decreases 32 - k,
            {
                key[k] = data[base + 4 + k];
                k += 1;
            }
            let ek = EpochKey { epoch, key };
            proof {
                let rec = data@.subrange(base as int, base + 4);
                assert(spec_u32_to_le_bytes(epoch) == rec);
                assert(key@ =~= data@.subrange(base + 4, base + 36));
                assert(keys@.push(ek).drop_last() =~= keys@);
                assert(data@.subrange(0, (i + 1) * 36) =~= data@.subrange(0, i * 36) + rec + data@.subrange(base + 4, base + 36));
            }
            keys.push(ek);
            i += 1;
        }
        assert(data@.subrange(0, count * 36) =~= data@);
        Ok(KeyChain { keys })
    }
}

/// Insert `ek` into the sorted vector after every entry whose epoch is at most
/// its own.
fn insert_sorted(keys: &mut Vec<EpochKey>, ek: EpochKey)
    requires
        epochs_sorted(old(keys)@),
    ensures
        final(keys)@ == insert_by_epoch(old(keys)@, ek),
{
    proof {
        lemma_count_le_prefix(old(keys)@, ek.epoch);
    }
    let mut pos: usize = 0;
    while pos < keys.len() && keys[pos].epoch <= ek.epoch
        invariant
            pos <= keys@.len(),
            keys@ == old(keys)@,
            pos <= count_le(keys@, ek.epoch),
            count_le(keys@, ek.epoch) <= keys@.len(),
            forall|i: int| 0 <= i < count_le(keys@, ek.epoch) ==> keys@[i].epoch <= ek.epoch,
            forall|i: int| count_le(keys@, ek.epoch) <= i < keys@.len() ==> keys@[i].epoch > ek.epoch,
        decreases keys@.len() - pos,
    {
        pos += 1;
    }
    keys.insert(pos, ek);
}

} // verus!
