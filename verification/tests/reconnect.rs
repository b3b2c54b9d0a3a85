use sqwok::net::reconnect::{
    websocket_url, Backoff, Keepalive, KeepaliveAction, MAX_BACKOFF_SECS, PING_INTERVAL_MS, PONG_TIMEOUT_MS,
};

#[test]
fn backoff_doubles_to_the_cap() {
    let mut b = Backoff::new();
    let waits: Vec<u64> = (0..9).map(|_| b.next_wait()).collect();
    assert_eq!(waits, vec![1, 2, 4, 8, 16, 32, 60, 60, 60]);
    assert_eq!(b.current(), MAX_BACKOFF_SECS);
}

#[test]
fn backoff_reset_returns_to_one() {
    let mut b = Backoff::new();
    b.next_wait();
    b.next_wait();
    assert_eq!(b.current(), 4);
    b.reset();
    assert_eq!(b.current(), 1);
    assert_eq!(b.next_wait(), 1);
}

#[test]
fn websocket_url_https() {
    assert_eq!(
        websocket_url("https://sqwok.example", "abc"),
        "wss://sqwok.example/socket/websocket?token=abc&vsn=1.0.0"
    );
}

#[test]
fn websocket_url_http() {
    assert_eq!(
        websocket_url("http://localhost:4000", "t.k.n"),
        "ws://localhost:4000/socket/websocket?token=t.k.n&vsn=1.0.0"
    );
}

#[test]
fn websocket_url_replaces_every_http() {
    assert_eq!(
        websocket_url("http://httpbin", "x"),
        "ws://wsbin/socket/websocket?token=x&vsn=1.0.0"
    );
}

#[test]
fn keepalive_pings_then_disconnects() {
    let mut k = Keepalive::new(1000);
    assert_eq!(k.deadline(), 1000 + PING_INTERVAL_MS);
    assert_eq!(k.on_timer(31_000), KeepaliveAction::SendPing);
    assert!(k.awaiting_pong);
    assert_eq!(k.deadline(), 31_000 + PONG_TIMEOUT_MS);
    assert_eq!(k.on_timer(41_000), KeepaliveAction::Disconnect);
}

#[test]
fn keepalive_pong_clears_wait() {
    let mut k = Keepalive::new(0);
    assert_eq!(k.on_timer(30_000), KeepaliveAction::SendPing);
    k.on_pong();
    assert!(!k.awaiting_pong);
    assert_eq!(k.deadline(), 60_000);
    assert_eq!(k.on_timer(60_000), KeepaliveAction::SendPing);
}
