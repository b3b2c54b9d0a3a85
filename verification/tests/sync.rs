use sqwok::channel::sync::{build_sync_responses, StoredMessage};
use sqwok::channel::protocol::{next_ref, u64_to_decimal, RefCounter};
use sqwok::channel::sync::{chunk_ranges, segments_from_seqs, MAX_CHUNK_SIZE, MAX_SEGMENTS};

#[test]
fn segments_of_two_runs() {
    let segs = segments_from_seqs(&[1, 2, 3, 6, 7, 8], MAX_SEGMENTS);
    assert_eq!(segs, vec![(1, 3), (6, 8)]);
}

#[test]
fn segments_of_fresh_store_are_empty() {
    let segs = segments_from_seqs(&[], MAX_SEGMENTS);
    assert!(segs.is_empty());
}

#[test]
fn segments_of_isolated_positions() {
    let segs = segments_from_seqs(&[2, 4, 6], MAX_SEGMENTS);
    assert_eq!(segs, vec![(2, 2), (4, 4), (6, 6)]);
}

#[test]
fn segments_are_capped() {
    let seqs: Vec<i64> = (0..30).map(|i| i * 2).collect();
    let segs = segments_from_seqs(&seqs, MAX_SEGMENTS);
    assert_eq!(segs.len(), 10);
    assert_eq!(segs[0], (0, 0));
    assert_eq!(segs[9], (18, 18));
}

#[test]
fn segments_cover_every_position() {
    let seqs = vec![1, 2, 3, 10, 11, 20];
    let segs = segments_from_seqs(&seqs, 100);
    for s in &seqs {
        assert!(segs.iter().any(|(a, b)| a <= s && s <= b));
    }
    for w in segs.windows(2) {
        assert!(w[0].1 + 1 < w[1].0);
    }
}

#[test]
fn chunks_single() {
    assert_eq!(chunk_ranges(10, MAX_CHUNK_SIZE), vec![(0, 10)]);
}

#[test]
fn chunks_at_boundary() {
    let r = chunk_ranges(55, MAX_CHUNK_SIZE);
    assert_eq!(r, vec![(0, 50), (50, 55)]);
    assert_eq!(r[0].1 - r[0].0, 50);
    assert_eq!(r[1].1 - r[1].0, 5);
}

#[test]
fn chunks_of_nothing() {
    assert!(chunk_ranges(0, MAX_CHUNK_SIZE).is_empty());
}

#[test]
fn chunks_exact_multiple() {
    assert_eq!(chunk_ranges(100, 50), vec![(0, 50), (50, 100)]);
}

#[test]
fn decimal_rendering() {
    assert_eq!(u64_to_decimal(0), "0");
    assert_eq!(u64_to_decimal(7), "7");
    assert_eq!(u64_to_decimal(1234567890), "1234567890");
    assert_eq!(u64_to_decimal(u64::MAX), u64::MAX.to_string());
}

#[test]
fn refs_count_up_from_one() {
    let mut c = RefCounter::new();
    assert_eq!(next_ref(&mut c), "1");
    assert_eq!(next_ref(&mut c), "2");
    assert_eq!(next_ref(&mut c), "3");
}

/// The stored messages with sequence numbers `from..=to` among messages
/// `1..=count` (what the store's range query hands out).
fn stored_range(count: i64, from: i64, to: i64) -> Vec<StoredMessage> {
    (1..=count)
        .filter(|i| *i >= from && *i <= to)
        .map(|i| StoredMessage {
            uuid: format!("00000000-0000-0000-0000-{:012}", i),
            sender_uuid: "sender".to_string(),
            thread_uuid: None,
            reply_to_uuid: None,
            global_seq: i,
            key_epoch: 0,
            ciphertext: format!("msg {i}"),
            ts: "2026-03-22T00:00:00Z".to_string(),
            server_ts: "2026-03-22T00:00:01Z".to_string(),
            read: i % 2 == 0,
        })
        .collect()
}

#[test]
fn test_build_sync_responses_single_chunk() {
    let frames = build_sync_responses(&stored_range(10, 1, 10), "req-uuid");
    assert_eq!(frames.len(), 1);
    assert_eq!(frames[0].messages.len(), 10);
}

#[test]
fn test_build_sync_responses_chunks_at_boundary() {
    let frames = build_sync_responses(&stored_range(55, 1, 55), "req-uuid");
    assert_eq!(frames.len(), 2);
    assert_eq!(frames[0].messages.len(), 50);
    assert_eq!(frames[1].messages.len(), 5);
}

#[test]
fn test_build_sync_responses_empty_range() {
    let frames = build_sync_responses(&stored_range(5, 10, 20), "req-uuid");
    assert_eq!(frames.len(), 0);
}

#[test]
fn sync_pushes_keep_order_and_fields() {
    let stored = stored_range(55, 1, 55);
    let frames = build_sync_responses(&stored, "req-uuid");
    let sent: Vec<&str> = frames.iter().flat_map(|f| f.messages.iter().map(|m| m.uuid.as_str())).collect();
    let want: Vec<&str> = stored.iter().map(|m| m.uuid.as_str()).collect();
    assert_eq!(sent, want);
    assert!(frames.iter().all(|f| f.recipient == "req-uuid"));
    assert_eq!(frames[1].messages[4].global_seq, 55);
    assert_eq!(frames[1].messages[4].ciphertext, "msg 55");
}
