//! The reconnect loop's decisions: how long to wait before the next attempt
//! (exponential backoff from 1 s, capped at 60 s, reset by a successful
//! connection), the WebSocket address of an attempt, and when a live
//! connection pings or gives up.

use vstd::prelude::*;

use crate::text::{chars_of, push_str};

verus! {

/// First and smallest wait between attempts, in seconds.
pub const INITIAL_BACKOFF_SECS: u64 = 1;
/// Largest wait between attempts, in seconds.
pub const MAX_BACKOFF_SECS: u64 = 60;
/// Interval between keepalive pings, in milliseconds.
pub const PING_INTERVAL_MS: u64 = 30_000;
/// How long a ping may go unanswered, in milliseconds.
pub const PONG_TIMEOUT_MS: u64 = 10_000;

/// `2^n`.
pub open spec fn pow2(n: nat) -> nat
    decreases n,
{
    if n == 0 { 1 } else { 2 * pow2((n - 1) as nat) }
}

/// The wait after `n` failed attempts in a row: doubling from the initial
/// wait, never above the maximum.
pub open spec fn backoff_after(n: nat) -> u64 {
    if pow2(n) >= MAX_BACKOFF_SECS { MAX_BACKOFF_SECS } else { pow2(n) as u64 }
}

/// The wait before the next reconnect attempt.
pub struct Backoff {
    secs: u64,
}

impl Backoff {
    /// The wait never exceeds the maximum.
    #[verifier::type_invariant]
    spec fn within_cap(&self) -> bool {
        self.secs <= MAX_BACKOFF_SECS
    }

    /// The current wait, in seconds.
    pub closed spec fn wait(&self) -> u64 {
        self.secs
    }

    /// The wait of a fresh loop: one second.
    pub fn new() -> (b: Self)
        ensures
            b.wait() == INITIAL_BACKOFF_SECS,
            b.wait() == backoff_after(0),
    {
        Backoff { secs: INITIAL_BACKOFF_SECS }
    }

    /// The current wait, in seconds.
    pub fn current(&self) -> (r: u64)
        ensures
            r == self.wait(),
    {
        self.secs
    }

    /// A connection succeeded: back to one second.
    pub fn reset(&mut self)
        ensures
            final(self).wait() == INITIAL_BACKOFF_SECS,
    {
        self.secs = INITIAL_BACKOFF_SECS;
    }

    /// An attempt failed or a connection dropped: the wait to sleep now is
    /// returned and the next one doubles, up to the maximum.
    pub fn next_wait(&mut self) -> (r: u64)
        ensures
            r == old(self).wait(),
            final(self).wait() == (if 2 * old(self).wait() > MAX_BACKOFF_SECS { MAX_BACKOFF_SECS as int } else { 2 * old(self).wait() }),
            final(self).wait() <= MAX_BACKOFF_SECS,
    {
        proof {
            use_type_invariant(&*self);
        }
        let r = self.secs;
        let doubled = self.secs * 2;
        self.secs = if doubled > MAX_BACKOFF_SECS { MAX_BACKOFF_SECS } else { doubled };
        r
    }
}

proof fn lemma_pow2_positive(n: nat)
    ensures
        pow2(n) >= 1,
    decreases n,
{
    if n > 0 {
        lemma_pow2_positive((n - 1) as nat);
    }
}

/// After `n` failures in a row since a reset, the wait is `min(2^n, 60)`
/// seconds: it stays within 1 to 60 seconds and one more failure doubles it
/// up to the cap.
pub proof fn law_backoff_doubles_to_cap(n: nat)
    ensures
        backoff_after(n + 1) == (if 2 * backoff_after(n) > MAX_BACKOFF_SECS { MAX_BACKOFF_SECS as int } else { 2 * backoff_after(n) }),
        INITIAL_BACKOFF_SECS <= backoff_after(n) <= MAX_BACKOFF_SECS,
{
    lemma_pow2_positive(n);
    assert(pow2(n + 1) == 2 * pow2(n));
}

/// `s` with every occurrence of `pat`, scanning from the left without
/// overlaps, replaced by `by`.
pub open spec fn replace_all(s: Seq<char>, pat: Seq<char>, by: Seq<char>) -> Seq<char>
    decreases s.len(),
{
    if pat.len() == 0 || s.len() < pat.len() {
        s
    } else if s.subrange(0, pat.len() as int) == pat {
        by + replace_all(s.subrange(pat.len() as int, s.len() as int), pat, by)
    } else {
        seq![s[0]] + replace_all(s.drop_first(), pat, by)
    }
}

/// The text `http`.
pub open spec fn http_text() -> Seq<char> {
    seq!['h', 't', 't', 'p']
}

/// The WebSocket address of a connection attempt: the server address with
/// `http` replaced by `ws`, then `/socket/websocket?token=`, the token and
/// `&vsn=1.0.0`.
pub open spec fn websocket_address(server_url: Seq<char>, token: Seq<char>) -> Seq<char> {
    replace_all(server_url, http_text(), seq!['w', 's']) + "/socket/websocket?token="@ + token + "&vsn=1.0.0"@
}

/// The WebSocket address for `server_url` and `token`.
pub fn websocket_url(server_url: &str, token: &str) -> (r: String)
    ensures
        r@ == websocket_address(server_url@, token@),
{
    let s = chars_of(server_url);
    let mut out = String::new();
    let mut i: usize = 0;
    let ghost pat = http_text();
    proof {
        assert(s@.subrange(0, s@.len() as int) =~= s@);
        assert(out@ + s@ =~= s@);
        assert(out@ + replace_all(s@, pat, seq!['w', 's']) =~= replace_all(s@, pat, seq!['w', 's']));
    }
    while i < s.len()
        invariant
            pat == http_text(),
            s@ == server_url@,
            i <= s@.len(),
            out@ + replace_all(s@.subrange(i as int, s@.len() as int), pat, seq!['w', 's'])
                == replace_all(s@, pat, seq!['w', 's']),
        decreases s@.len() - i,
    {
        let ghost rest = s@.subrange(i as int, s@.len() as int);
        let ghost before = out@;
        if s.len() - i >= 4 && s[i] == 'h' && s[i + 1] == 't' && s[i + 2] == 't' && s[i + 3] == 'p' {
            proof {
                assert(rest.subrange(0, 4) =~= pat);
                assert(rest.subrange(4, rest.len() as int) =~= s@.subrange(i + 4, s@.len() as int));
            }
            crate::text::push_char(&mut out, 'w');
            crate::text::push_char(&mut out, 's');
            proof {
                assert(out@ =~= before + seq!['w', 's']);
                assert(before + (seq!['w', 's'] + replace_all(s@.subrange(i + 4, s@.len() as int), pat, seq!['w', 's']))
                    =~= out@ + replace_all(s@.subrange(i + 4, s@.len() as int), pat, seq!['w', 's']));
            }
            i += 4;
        } else {
            proof {
                if rest.len() >= 4 {
                    if rest.subrange(0, 4) == pat {
                        assert(rest.subrange(0, 4)[0] == 'h');
                        assert(rest.subrange(0, 4)[1] == 't');
                        assert(rest.subrange(0, 4)[2] == 't');
                        assert(rest.subrange(0, 4)[3] == 'p');
                    }
                }
                assert(rest.drop_first() =~= s@.subrange(i + 1, s@.len() as int));
            }
            crate::text::push_char(&mut out, s[i]);
            proof {
                assert(out@ =~= before + seq![s@[i as int]]);
                assert(before + (seq![s@[i as int]] + replace_all(s@.subrange(i + 1, s@.len() as int), pat, seq!['w', 's']))
                    =~= out@ + replace_all(s@.subrange(i + 1, s@.len() as int), pat, seq!['w', 's']));
            }
            i += 1;
        }
    }
    proof {
        assert(s@.subrange(s@.len() as int, s@.len() as int) =~= Seq::<char>::empty());
        assert(out@ + Seq::<char>::empty() =~= out@);
    }
    push_str(&mut out, "/socket/websocket?token=");
    push_str(&mut out, token);
    push_str(&mut out, "&vsn=1.0.0");
    proof {
        assert(s@.subrange(0, s@.len() as int) =~= s@);
    }
    out
}

/// What a live connection does when its timer fires.
#[derive(Debug, Clone, Copy, PartialEq, Eq)]
pub enum KeepaliveAction {
    /// Send a ping and wait for the pong.
    SendPing,
    /// The pong never came: the connection is dead.
    Disconnect,
}

/// The ping state of a live connection; times are milliseconds on a clock
/// of the caller's.
pub struct Keepalive {
    pub awaiting_pong: bool,
    pub next_ping: u64,
    pub pong_deadline: u64,
}

impl Keepalive {
    /// A connection that just opened at `now`: first ping one interval later.
    pub fn new(now: u64) -> (k: Self)
        requires
            now + PING_INTERVAL_MS <= u64::MAX,
        ensures
            !k.awaiting_pong,
            k.next_ping == now + PING_INTERVAL_MS,
    {
        Keepalive { awaiting_pong: false, next_ping: now + PING_INTERVAL_MS, pong_deadline: now }
    }

    /// When the timer fires next: the pong deadline while a pong is awaited,
    /// the next ping otherwise.
    pub fn deadline(&self) -> (r: u64)
        ensures
            r == (if self.awaiting_pong { self.pong_deadline } else { self.next_ping }),
    {
        if self.awaiting_pong { self.pong_deadline } else { self.next_ping }
    }

    /// A pong arrived.
    pub fn on_pong(&mut self)
        ensures
            !final(self).awaiting_pong,
            final(self).next_ping == old(self).next_ping,
    {
        self.awaiting_pong = false;
    }

    /// The timer fired at `now`: give up if a pong was awaited, else ping and
    /// await the pong until `now + 10 s`, the next ping due at `now + 30 s`.
    pub fn on_timer(&mut self, now: u64) -> (r: KeepaliveAction)
        requires
            now + PING_INTERVAL_MS <= u64::MAX,
        ensures
            old(self).awaiting_pong ==> r == KeepaliveAction::Disconnect && *final(self) == *old(self),
            !old(self).awaiting_pong ==> r == KeepaliveAction::SendPing && final(self).awaiting_pong
                && final(self).pong_deadline == now + PONG_TIMEOUT_MS
                && final(self).next_ping == now + PING_INTERVAL_MS,
    {
        if self.awaiting_pong {
            return KeepaliveAction::Disconnect;
        }
        self.awaiting_pong = true;
        self.pong_deadline = now + PONG_TIMEOUT_MS;
        self.next_ping = now + PING_INTERVAL_MS;
        KeepaliveAction::SendPing
    }
}

} // verus!
