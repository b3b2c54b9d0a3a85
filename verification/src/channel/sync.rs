//! Sync bookkeeping: which server positions a client holds, reported as
//! contiguous segments, and how a range of stored messages is cut into
//! `sync:push` chunks.

use vstd::prelude::*;

verus! {

/// Messages per `sync:push` frame.
pub const MAX_CHUNK_SIZE: usize = 50;

/// Segments reported at most (on join, catch-up and sync queries).
pub const MAX_SEGMENTS: usize = 10;

/// The maximal runs of consecutive positions in `s`, as `(first, last)`
/// pairs, in order.
pub open spec fn runs(s: Seq<i64>) -> Seq<(i64, i64)>
    decreases s.len(),
{
    if s.len() == 0 {
        Seq::empty()
    } else {
        let r = runs(s.drop_last());
        let x = s.last();
        if r.len() > 0 && r.last().1 + 1 == x {
            r.update(r.len() - 1, (r.last().0, x))
        } else {
            r.push((x, x))
        }
    }
}

/// Strictly increasing.
pub open spec fn strictly_increasing(s: Seq<i64>) -> bool {
    forall|i: int, j: int| 0 <= i < j < s.len() ==> s[i] < s[j]
}

/// `x` lies in one of the segments.
pub open spec fn covered(segs: Seq<(i64, i64)>, x: i64) -> bool {
    exists|k: int| 0 <= k < segs.len() && segs[k].0 <= x <= #[trigger] segs[k].1
}

/// Segments are well formed, in order, and separated by gaps.
pub open spec fn separated(segs: Seq<(i64, i64)>) -> bool {
    &&& forall|k: int| 0 <= k < segs.len() ==> (#[trigger] segs[k]).0 <= segs[k].1
    &&& forall|k: int| 0 < k < segs.len() ==> segs[k - 1].1 + 1 < (#[trigger] segs[k]).0
}

/// The segments of the positions `seqs` (ascending), at most `max` of them:
/// the first `max` maximal runs of consecutive positions.
pub fn segments_from_seqs(seqs: &[i64], max: usize) -> (r: Vec<(i64, i64)>)
    ensures
        r@ == runs(seqs@).take(if runs(seqs@).len() < max { runs(seqs@).len() as int } else { max as int }),
{
    let mut out: Vec<(i64, i64)> = Vec::new();
    let mut i: usize = 0;
    while i < seqs.len()
        invariant
            i <= seqs@.len(),
            out@ == runs(seqs@.take(i as int)),
        decreases seqs@.len() - i,
    {
        let x = seqs[i];
        proof {
            assert(seqs@.take(i + 1).drop_last() =~= seqs@.take(i as int));
            assert(seqs@.take(i + 1).last() == x);
        }
        let n = out.len();
        if n > 0 && out[n - 1].1 < i64::MAX && out[n - 1].1 + 1 == x {
            let first = out[n - 1].0;
            out.set(n - 1, (first, x));
        } else {
            out.push((x, x));
        }
        i += 1;
    }
    proof {
        assert(seqs@.take(seqs@.len() as int) =~= seqs@);
    }
    let mut limited: Vec<(i64, i64)> = Vec::new();
    let mut k: usize = 0;
    while k < out.len() && k < max
        invariant
            out@ == runs(seqs@),
            k <= out@.len(),
            k <= max,
            limited@ == out@.take(k as int),
        decreases out@.len() - k,
    {
        limited.push(out[k]);
        proof {
            assert(out@.take(k + 1) =~= out@.take(k as int).push(out@[k as int]));
        }
        k += 1;
    }
    limited
}

proof fn lemma_contains_last(s: Seq<i64>, y: i64)
    requires
        s.len() > 0,
    ensures
        s.contains(y) <==> s.drop_last().contains(y) || y == s.last(),
{
    let p = s.drop_last();
    if s.contains(y) {
        let j = choose|j: int| 0 <= j < s.len() && s[j] == y;
        if j < s.len() - 1 {
            assert(p[j] == y);
        }
    }
    if p.contains(y) {
        let j = choose|j: int| 0 <= j < p.len() && p[j] == y;
        assert(s[j] == y);
    }
    if y == s.last() {
        assert(s[s.len() - 1] == y);
    }
}

proof fn lemma_covered_extend(r: Seq<(i64, i64)>, x: i64, y: i64)
    requires
        r.len() > 0,
        r.last().1 + 1 == x,
        r.last().0 <= r.last().1,
    ensures
        covered(r.update(r.len() - 1, (r.last().0, x)), y) <==> covered(r, y) || y == x,
{
    let nr = r.update(r.len() - 1, (r.last().0, x));
    let l = r.len() - 1;
    if covered(nr, y) {
        let k = choose|k: int| 0 <= k < nr.len() && nr[k].0 <= y <= #[trigger] nr[k].1;
        if k != l {
            assert(nr[k] == r[k]);
            assert(r[k].0 <= y <= r[k].1);
        } else if y != x {
            assert(r[l].0 <= y <= r[l].1);
        }
    }
    if covered(r, y) {
        let k = choose|k: int| 0 <= k < r.len() && r[k].0 <= y <= #[trigger] r[k].1;
        if k != l {
            assert(nr[k] == r[k]);
        } else {
            assert(nr[l].0 <= y <= nr[l].1);
        }
    }
    if y == x {
        assert(nr[l].0 <= y <= nr[l].1);
    }
}

proof fn lemma_covered_push(r: Seq<(i64, i64)>, x: i64, y: i64)
    ensures
        covered(r.push((x, x)), y) <==> covered(r, y) || y == x,
{
    let nr = r.push((x, x));
    if covered(nr, y) {
        let k = choose|k: int| 0 <= k < nr.len() && nr[k].0 <= y <= #[trigger] nr[k].1;
        if k < r.len() {
            assert(nr[k] == r[k]);
            assert(r[k].0 <= y <= r[k].1);
        }
    }
    if covered(r, y) {
        let k = choose|k: int| 0 <= k < r.len() && r[k].0 <= y <= #[trigger] r[k].1;
        assert(nr[k] == r[k]);
    }
    if y == x {
        assert(nr[r.len() as int].0 <= y <= nr[r.len() as int].1);
    }
}

proof fn lemma_runs(s: Seq<i64>)
    requires
        strictly_increasing(s),
    ensures
        separated(runs(s)),
        forall|x: i64| covered(runs(s), x) <==> s.contains(x),
        s.len() > 0 ==> runs(s).len() > 0 && runs(s).last().1 == s.last(),
    decreases s.len(),
{
    if s.len() > 0 {
        let p = s.drop_last();
        assert forall|i: int, j: int| 0 <= i < j < p.len() implies p[i] < p[j] by {
            assert(p[i] == s[i] && p[j] == s[j]);
        }
        lemma_runs(p);
        let r = runs(p);
        let x = s.last();
        let nr = runs(s);
        if p.len() > 0 {
            assert(p.last() == s[s.len() - 2]);
            assert(p.last() < x);
        }
        let extend = r.len() > 0 && r.last().1 + 1 == x;
        assert forall|y: i64| covered(nr, y) <==> s.contains(y) by {
            lemma_contains_last(s, y);
            if extend {
                lemma_covered_extend(r, x, y);
            } else {
                lemma_covered_push(r, x, y);
            }
        }
        if extend {
            assert forall|k: int| 0 <= k < nr.len() implies (#[trigger] nr[k]).0 <= nr[k].1 by {
                if k < r.len() - 1 {
                    assert(nr[k] == r[k]);
                }
            }
            assert forall|k: int| 0 < k < nr.len() implies nr[k - 1].1 + 1 < (#[trigger] nr[k]).0 by {
                assert(nr[k - 1] == r[k - 1]);
                assert(nr[k].0 == r[k].0);
            }
        } else {
            assert forall|k: int| 0 <= k < nr.len() implies (#[trigger] nr[k]).0 <= nr[k].1 by {
                if k < r.len() {
                    assert(nr[k] == r[k]);
                }
            }
            assert forall|k: int| 0 < k < nr.len() implies nr[k - 1].1 + 1 < (#[trigger] nr[k]).0 by {
                assert(nr[k - 1] == r[k - 1]);
                if k < r.len() {
                    assert(nr[k] == r[k]);
                }
            }
        }
    }
}

/// The segments of an ascending list of positions are well formed, ordered
/// and separated by gaps, and together they hold exactly its positions.
pub proof fn law_runs_cover_positions(s: Seq<i64>)
    requires
        strictly_increasing(s),
    ensures
        separated(runs(s)),
        forall|x: i64| covered(runs(s), x) <==> s.contains(x),
{
    lemma_runs(s);
}

/// The indices `(start, end)` of the chunks of `len` items cut `size` at a
/// time.
pub open spec fn chunk_bounds(len: nat, size: nat, from: nat) -> Seq<(int, int)>
    decreases len - from,
{
    if size == 0 || from >= len {
        Seq::empty()
    } else if len - from <= size {
        seq![(from as int, len as int)]
    } else {
        seq![(from as int, (from + size) as int)] + chunk_bounds(len, size, from + size)
    }
}

/// Where the chunks of `len` items cut `size` at a time (the sync chunk size
/// in practice) start and end.
pub fn chunk_ranges(len: usize, size: usize) -> (r: Vec<(usize, usize)>)
    requires
        size > 0,
    ensures
        r@.map_values(|p: (usize, usize)| (p.0 as int, p.1 as int)) == chunk_bounds(len as nat, size as nat, 0),
{
    let mut out: Vec<(usize, usize)> = Vec::new();
    let mut from: usize = 0;
    while from < len
        invariant
            size > 0,
            from <= len,
            out@.map_values(|p: (usize, usize)| (p.0 as int, p.1 as int)) + chunk_bounds(len as nat, size as nat, from as nat)
                == chunk_bounds(len as nat, size as nat, 0),
        decreases len - from,
    {
        let ghost before = out@.map_values(|p: (usize, usize)| (p.0 as int, p.1 as int));
        let end = if len - from <= size { len } else { from + size };
        out.push((from, end));
        proof {
            assert(out@.map_values(|p: (usize, usize)| (p.0 as int, p.1 as int)) =~= before.push((from as int, end as int)));
            let rest = chunk_bounds(len as nat, size as nat, end as nat);
            if len - from <= size {
                assert(chunk_bounds(len as nat, size as nat, end as nat) =~= Seq::<(int, int)>::empty());
            }
            assert(before + chunk_bounds(len as nat, size as nat, from as nat) =~= before.push((from as int, end as int)) + rest);
        }
        from = end;
    }
    proof {
        assert(chunk_bounds(len as nat, size as nat, from as nat) =~= Seq::<(int, int)>::empty());
        assert(out@.map_values(|p: (usize, usize)| (p.0 as int, p.1 as int)) + Seq::<(int, int)>::empty()
            =~= out@.map_values(|p: (usize, usize)| (p.0 as int, p.1 as int)));
    }
    out
}

proof fn lemma_chunk_bounds(len: nat, size: nat, from: nat)
    requires
        size > 0,
        from <= len,
    ensures
        forall|k: int| 0 <= k < chunk_bounds(len, size, from).len() ==> {
            let b = #[trigger] chunk_bounds(len, size, from)[k];
            &&& b.0 < b.1 <= len
            &&& b.1 - b.0 <= size
            &&& (k + 1 < chunk_bounds(len, size, from).len() ==> b.1 - b.0 == size && b.1 == chunk_bounds(len, size, from)[k + 1].0)
        },
        chunk_bounds(len, size, from).len() > 0 ==> chunk_bounds(len, size, from)[0].0 == from
            && chunk_bounds(len, size, from).last().1 == len,
        chunk_bounds(len, size, from).len() == 0 <==> from == len,
    decreases len - from,
{
    if from < len && len - from > size {
        lemma_chunk_bounds(len, size, from + size);
        let rest = chunk_bounds(len, size, from + size);
        let all = chunk_bounds(len, size, from);
        assert(all == seq![(from as int, (from + size) as int)] + rest);
        assert forall|k: int| 0 <= k < all.len() implies {
            let b = #[trigger] all[k];
            &&& b.0 < b.1 <= len
            &&& b.1 - b.0 <= size
            &&& (k + 1 < all.len() ==> b.1 - b.0 == size && b.1 == all[k + 1].0)
        } by {
            if k > 0 {
                assert(all[k] == rest[k - 1]);
                if k + 1 < all.len() {
                    assert(all[k + 1] == rest[k]);
                }
            } else {
                assert(all[1] == rest[0]);
            }
        }
        assert(all.last() == rest.last());
    }
}

/// Cutting `len` items `size` at a time gives chunks that follow each other
/// without gap or overlap from the first item to the last, each of at most
/// `size` items and all but the last of exactly `size`; no items, no chunks.
pub proof fn law_chunks_partition(len: nat, size: nat)
    requires
        size > 0,
    ensures
        forall|k: int| 0 <= k < chunk_bounds(len, size, 0).len() ==> {
            let b = #[trigger] chunk_bounds(len, size, 0)[k];
            &&& b.0 < b.1 <= len
            &&& b.1 - b.0 <= size
            &&& (k + 1 < chunk_bounds(len, size, 0).len() ==> b.1 - b.0 == size && b.1 == chunk_bounds(len, size, 0)[k + 1].0)
        },
        len > 0 ==> chunk_bounds(len, size, 0)[0].0 == 0 && chunk_bounds(len, size, 0).last().1 == len,
        chunk_bounds(len, size, 0).len() == 0 <==> len == 0,
{
    lemma_chunk_bounds(len, size, 0);
}

/// A stored message as the local store keeps it.
pub struct StoredMessage {
    pub uuid: String,
    pub sender_uuid: String,
    pub thread_uuid: Option<String>,
    pub reply_to_uuid: Option<String>,
    pub global_seq: i64,
    pub key_epoch: i64,
    pub ciphertext: String,
    pub ts: String,
    pub server_ts: String,
    /// Local only: whether the user has seen it.
    pub read: bool,
}

/// A stored message as it is sent to a peer: the local `read` mark left out.
pub struct PeerMessage {
    pub uuid: String,
    pub sender_uuid: String,
    pub thread_uuid: Option<String>,
    pub reply_to_uuid: Option<String>,
    pub global_seq: i64,
    pub key_epoch: i64,
    pub ciphertext: String,
    pub ts: String,
    pub server_ts: String,
}

/// One `sync:push` frame's payload: its recipient and its messages.
pub struct SyncPush {
    pub recipient: String,
    pub messages: Vec<PeerMessage>,
}

/// An optional string as an optional character sequence.
pub open spec fn opt_chars(o: Option<String>) -> Option<Seq<char>> {
    match o {
        Some(s) => Some(s@),
        None => None,
    }
}

/// `p` is `m` without its `read` mark.
pub open spec fn sent_form(p: PeerMessage, m: StoredMessage) -> bool {
    &&& p.uuid@ == m.uuid@
    &&& p.sender_uuid@ == m.sender_uuid@
    &&& opt_chars(p.thread_uuid) == opt_chars(m.thread_uuid)
    &&& opt_chars(p.reply_to_uuid) == opt_chars(m.reply_to_uuid)
    &&& p.global_seq == m.global_seq
    &&& p.key_epoch == m.key_epoch
    &&& p.ciphertext@ == m.ciphertext@
    &&& p.ts@ == m.ts@
    &&& p.server_ts@ == m.server_ts@
}

fn copy_opt(o: &Option<String>) -> (r: Option<String>)
    ensures
        opt_chars(r) == opt_chars(*o),
{
    match o {
        Some(s) => Some(s.clone()),
        None => None,
    }
}

/// The form of a stored message sent to a peer.
fn to_peer(m: &StoredMessage) -> (p: PeerMessage)
    ensures
        sent_form(p, *m),
{
    PeerMessage {
        uuid: m.uuid.clone(),
        sender_uuid: m.sender_uuid.clone(),
        thread_uuid: copy_opt(&m.thread_uuid),
        reply_to_uuid: copy_opt(&m.reply_to_uuid),
        global_seq: m.global_seq,
        key_epoch: m.key_epoch,
        ciphertext: m.ciphertext.clone(),
        ts: m.ts.clone(),
        server_ts: m.server_ts.clone(),
    }
}

/// The `sync:push` payloads answering an assigned range for `requester`:
/// the messages cut `MAX_CHUNK_SIZE` at a time, in order, each without its
/// local `read` mark, every payload addressed to `requester`.
pub fn build_sync_responses(messages: &[StoredMessage], requester: &str) -> (r: Vec<SyncPush>)
    ensures
        r@.len() == chunk_bounds(messages@.len(), MAX_CHUNK_SIZE as nat, 0).len(),
        forall|k: int| 0 <= k < r@.len() ==> {
            let b = chunk_bounds(messages@.len(), MAX_CHUNK_SIZE as nat, 0)[k];
            &&& (#[trigger] r@[k]).recipient@ == requester@
            &&& r@[k].messages@.len() == b.1 - b.0
            &&& forall|j: int| 0 <= j < b.1 - b.0 ==> sent_form(#[trigger] r@[k].messages@[j], messages@[b.0 + j])
        },
{
    let ranges = chunk_ranges(messages.len(), MAX_CHUNK_SIZE);
    let ghost bounds = chunk_bounds(messages@.len(), MAX_CHUNK_SIZE as nat, 0);
    proof {
        lemma_chunk_bounds(messages@.len(), MAX_CHUNK_SIZE as nat, 0);
    }
    let mut out: Vec<SyncPush> = Vec::new();
    let mut k: usize = 0;
    while k < ranges.len()
        invariant
            k <= ranges@.len(),
            bounds == chunk_bounds(messages@.len(), MAX_CHUNK_SIZE as nat, 0),
            ranges@.map_values(|p: (usize, usize)| (p.0 as int, p.1 as int)) == bounds,
            forall|q: int| 0 <= q < bounds.len() ==> {
                let b = #[trigger] bounds[q];
                b.0 < b.1 <= messages@.len()
            },
            out@.len() == k,
            forall|q: int| 0 <= q < k ==> {
                let b = bounds[q];
                &&& (#[trigger] out@[q]).recipient@ == requester@
                &&& out@[q].messages@.len() == b.1 - b.0
                &&& forall|j: int| 0 <= j < b.1 - b.0 ==> sent_form(#[trigger] out@[q].messages@[j], messages@[b.0 + j])
            },
        decreases ranges@.len() - k,
    {
        let (a, b) = ranges[k];
        proof {
            assert(bounds[k as int] == (a as int, b as int));
        }
        let mut chunk: Vec<PeerMessage> = Vec::new();
        let mut i = a;
        while i < b
            invariant
                a <= i <= b <= messages@.len(),
                chunk@.len() == i - a,
                forall|j: int| 0 <= j < i - a ==> sent_form(#[trigger] chunk@[j], messages@[a + j]),
            decreases b - i,
        {
            chunk.push(to_peer(&messages[i]));
            i += 1;
        }
        out.push(SyncPush { recipient: requester.to_string(), messages: chunk });
        k += 1;
    }
    out
}

} // verus!
