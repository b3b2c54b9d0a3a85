//! Frame references: each outgoing frame carries a fresh decimal reference,
//! counted up from 1.

use vstd::prelude::*;

use crate::text::push_char;

verus! {

/// The decimal digits of `n`.
pub open spec fn decimal(n: nat) -> Seq<char>
    decreases n,
{
    if n < 10 {
        seq![digit_char(n)]
    } else {
        decimal(n / 10).push(digit_char(n % 10))
    }
}

/// The character of a decimal digit.
pub open spec fn digit_char(d: nat) -> char {
    if d == 0 { '0' } else if d == 1 { '1' } else if d == 2 { '2' } else if d == 3 { '3' } else if d == 4 { '4' }
    else if d == 5 { '5' } else if d == 6 { '6' } else if d == 7 { '7' } else if d == 8 { '8' } else { '9' }
}

fn digit(d: u64) -> (c: char)
    requires
        d < 10,
    ensures
        c == digit_char(d as nat),
{
    if d == 0 { '0' } else if d == 1 { '1' } else if d == 2 { '2' } else if d == 3 { '3' } else if d == 4 { '4' }
    else if d == 5 { '5' } else if d == 6 { '6' } else if d == 7 { '7' } else if d == 8 { '8' } else { '9' }
}

/// `n` written in decimal.
pub fn u64_to_decimal(n: u64) -> (s: String)
    ensures
        s@ == decimal(n as nat),
    decreases n,
{
    if n < 10 {
        let mut s = String::new();
        push_char(&mut s, digit(n));
        assert(s@ =~= seq![digit_char(n as nat)]);
        s
    } else {
        let mut s = u64_to_decimal(n / 10);
        push_char(&mut s, digit(n % 10));
        s
    }
}

/// The source of frame references.
pub struct RefCounter {
    next: u64,
}

impl RefCounter {
    /// The number the next reference will carry.
    pub closed spec fn upcoming(&self) -> u64 {
        self.next
    }

    /// A counter whose first reference is `1`.
    pub fn new() -> (c: Self)
        ensures
            c.upcoming() == 1,
    {
        RefCounter { next: 1 }
    }
}

/// A fresh frame reference: the counter's number in decimal; the counter
/// moves on by one (wrapping at the end of `u64`).
pub fn next_ref(counter: &mut RefCounter) -> (r: String)
    ensures
        r@ == decimal(old(counter).upcoming() as nat),
        final(counter).upcoming() == (if old(counter).upcoming() == u64::MAX { 0 } else { old(counter).upcoming() + 1 }),
{
    let n = counter.next;
    counter.next = counter.next.wrapping_add(1);
    u64_to_decimal(n)
}

} // verus!
