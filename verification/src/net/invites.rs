//! Invite codes as the user types them.

use vstd::prelude::*;

use crate::text::{chars_of, push_char, to_uppercase, uppercase_of};
use crate::tui::input::{is_prefix, starts_with_chars};

verus! {

/// `s` without the characters `c`.
pub open spec fn without_char(s: Seq<char>, c: char) -> Seq<char>
    decreases s.len(),
{
    if s.len() == 0 {
        s
    } else if s.last() == c {
        without_char(s.drop_last(), c)
    } else {
        without_char(s.drop_last(), c).push(s.last())
    }
}

/// The code the server expects for what the user typed: upper-cased, a
/// leading `SQWOK-` dropped, dashes removed (`sqwok-abcd-ef12` becomes
/// `ABCDEF12`).
pub open spec fn invite_code_of(typed: Seq<char>) -> Seq<char> {
    let u = uppercase_of(typed);
    let rest = if is_prefix("SQWOK-"@, u) { u.skip(6) } else { u };
    without_char(rest, '-')
}

/// Normalize a typed invite code for redeeming.
pub fn normalize_invite_code(typed: &str) -> (r: String)
    ensures
        r@ == invite_code_of(typed@),
{
    let u = to_uppercase(typed);
    let chars = chars_of(u.as_str());
    let prefix = chars_of("SQWOK-");
    proof {
        reveal_strlit("SQWOK-");
    }
    let start: usize = if starts_with_chars(chars.as_slice(), prefix.as_slice()) { 6 } else { 0 };
    let ghost rest = if is_prefix("SQWOK-"@, u@) { u@.skip(6) } else { u@ };
    proof {
        assert(rest =~= chars@.skip(start as int));
    }
    let mut out = String::new();
    let mut i: usize = start;
    while i < chars.len()
        invariant
            start <= i <= chars@.len(),
            rest == chars@.skip(start as int),
            out@ == without_char(chars@.subrange(start as int, i as int), '-'),
        decreases chars@.len() - i,
    {
        let c = chars[i];
        proof {
            assert(chars@.subrange(start as int, i + 1).drop_last() =~= chars@.subrange(start as int, i as int));
        }
        if c != '-' {
            push_char(&mut out, c);
        }
        i += 1;
    }
    proof {
        assert(chars@.subrange(start as int, chars@.len() as int) =~= rest);
    }
    out
}

} // verus!
