//! What registration accepts from the user, and the secret inside the TOTP
//! URI the server sends.

use vstd::prelude::*;
use vstd::utf8::encode_utf8;

use crate::text::{chars_of, is_control, is_control_spec, string_from_chars, utf8_len_below};
use crate::tui::command_bar::{trim_range, trimmed};
use crate::tui::input::{is_prefix, starts_with_chars};

verus! {

/// An email address is accepted when it holds an `@` and takes at most 254
/// bytes.
pub open spec fn email_ok(s: Seq<char>) -> bool {
    s.contains('@') && encode_utf8(s).len() <= 254
}

/// Whether `email` is accepted.
pub fn valid_email(email: &str) -> (r: bool)
    ensures
        r == email_ok(email@),
{
    let chars = chars_of(email);
    let mut has_at = false;
    let mut i: usize = 0;
    while i < chars.len()
        invariant
            i <= chars@.len(),
            has_at == chars@.take(i as int).contains('@'),
        decreases chars@.len() - i,
    {
        let ghost was = has_at;
        proof {
            assert(chars@.take(i + 1) =~= chars@.take(i as int).push(chars@[i as int]));
        }
        if chars[i] == '@' {
            has_at = true;
        }
        proof {
            let t = chars@.take(i + 1);
            if chars@[i as int] == '@' {
                assert(t[i as int] == '@');
            }
            if t.contains('@') {
                let k = choose|k: int| 0 <= k < t.len() && t[k] == '@';
                if k < i {
                    assert(chars@.take(i as int)[k] == '@');
                }
            }
            if was {
                let k = choose|k: int| 0 <= k < chars@.take(i as int).len() && chars@.take(i as int)[k] == '@';
                assert(t[k] == '@');
            }
        }
        i += 1;
    }
    proof {
        assert(chars@.take(chars@.len() as int) =~= chars@);
    }
    has_at && utf8_len_below(chars.as_slice(), 255)
}

/// Why a screen name is refused.
#[derive(Debug, Clone, Copy, PartialEq, Eq)]
pub enum ScreennameError {
    /// Nothing but white space.
    Empty,
    /// More than 30 bytes once trimmed.
    TooLong,
    /// It holds a control character.
    Control,
}

/// The screen name kept for what the user typed: the text trimmed of white
/// space at both ends, which must be non-empty, at most 30 bytes, and free of
/// control characters (checked in that order).
pub open spec fn screenname_result(s: Seq<char>) -> Result<Seq<char>, ScreennameError> {
    let t = trimmed(s);
    if t.len() == 0 {
        Err(ScreennameError::Empty)
    } else if encode_utf8(t).len() > 30 {
        Err(ScreennameError::TooLong)
    } else if exists|i: int| 0 <= i < t.len() && is_control_spec(#[trigger] t[i]) {
        Err(ScreennameError::Control)
    } else {
        Ok(t)
    }
}

/// Check a typed screen name, giving the trimmed name or why it is refused.
pub fn check_screenname(typed: &str) -> (r: Result<String, ScreennameError>)
    ensures
        match screenname_result(typed@) {
            Ok(t) => r matches Ok(name) && name@ == t,
            Err(e) => r == Err::<String, ScreennameError>(e),
        },
{
    let chars = chars_of(typed);
    let (a, b) = trim_range(chars.as_slice(), 0);
    proof {
        assert(chars@.subrange(0, chars@.len() as int) =~= chars@);
    }
    assert(chars@.subrange(a as int, b as int) == trimmed(typed@));
    if a == b {
        assert(trimmed(typed@).len() == 0);
        return Err(ScreennameError::Empty);
    }
    let name = string_from_chars(chars.as_slice(), a, b);
    let nc = chars_of(name.as_str());
    assert(nc@ == trimmed(typed@));
    if !utf8_len_below(nc.as_slice(), 31) {
        assert(encode_utf8(trimmed(typed@)).len() > 30);
        assert(trimmed(typed@).len() != 0);
        return Err(ScreennameError::TooLong);
    }
    let mut i: usize = 0;
    while i < nc.len()
        invariant
            i <= nc@.len(),
            nc@ == trimmed(typed@),
            nc@.len() != 0,
            encode_utf8(nc@).len() <= 30,
            forall|k: int| 0 <= k < i ==> !is_control_spec(nc@[k]),
        decreases nc@.len() - i,
    {
        if is_control(nc[i]) {
            proof {
                assert(is_control_spec(nc@[i as int]));
                assert(trimmed(typed@)[i as int] == nc@[i as int]);
            }
            return Err(ScreennameError::Control);
        }
        i += 1;
    }
    Ok(name)
}

/// An ASCII digit.
pub open spec fn is_digit(c: char) -> bool {
    48 <= c as u32 <= 57
}

fn digit_char(c: char) -> (r: bool)
    ensures
        r == is_digit(c),
{
    let d = c as u32;
    48 <= d && d <= 57
}

/// An authenticator code: exactly six ASCII digits.
pub open spec fn totp_code_ok(s: Seq<char>) -> bool {
    s.len() == 6 && forall|i: int| 0 <= i < 6 ==> #[trigger] is_digit(s[i])
}

/// Whether `code` is an authenticator code.
pub fn valid_totp_code(code: &str) -> (r: bool)
    ensures
        r == totp_code_ok(code@),
{
    let chars = chars_of(code);
    assert(chars@ == code@);
    if chars.len() != 6 {
        return false;
    }
    let mut i: usize = 0;
    while i < 6
        invariant
            chars@.len() == 6,
            chars@ == code@,
            i <= 6,
            forall|k: int| 0 <= k < i ==> #[trigger] is_digit(chars@[k]),
        decreases 6 - i,
    {
        if !digit_char(chars[i]) {
            assert(!is_digit(code@[i as int]));
            return false;
        }
        i += 1;
    }
    true
}

/// The first position at or after `from` holding `c`, or the end.
pub open spec fn next_index(s: Seq<char>, c: char, from: int) -> int
    decreases s.len() - from,
{
    if from < 0 || from >= s.len() {
        s.len() as int
    } else if s[from] == c {
        from
    } else {
        next_index(s, c, from + 1)
    }
}

/// The value of the first `&`-separated parameter of `params` that starts
/// with `secret=`.
pub open spec fn secret_param(params: Seq<char>) -> Option<Seq<char>>
    decreases params.len(),
{
    let e = next_index(params, '&', 0);
    let seg = params.take(e);
    if is_prefix("secret="@, seg) {
        Some(seg.skip(7))
    } else if e >= params.len() {
        None
    } else {
        proof {
            lemma_next_index(params, '&', 0);
        }
        secret_param(params.skip(e + 1))
    }
}

/// The secret of a TOTP URI: in the text between its first `?` and the next
/// `?` (or the end), the value of the first parameter named `secret`.
pub open spec fn totp_secret(uri: Seq<char>) -> Option<Seq<char>> {
    let q = next_index(uri, '?', 0);
    if q >= uri.len() {
        None
    } else {
        secret_param(uri.subrange(q + 1, next_index(uri, '?', q + 1)))
    }
}

pub proof fn lemma_next_index(s: Seq<char>, c: char, from: int)
    requires
        0 <= from <= s.len(),
    ensures
        from <= next_index(s, c, from) <= s.len(),
        next_index(s, c, from) < s.len() ==> s[next_index(s, c, from)] == c,
    decreases s.len() - from,
{
    if from < s.len() && s[from] != c {
        lemma_next_index(s, c, from + 1);
    }
}

/// The first position at or after `from` holding `c`, or the end.
fn find_from(s: &[char], c: char, from: usize) -> (r: usize)
    requires
        from <= s@.len(),
    ensures
        r == next_index(s@, c, from as int),
{
    let mut i = from;
    while i < s.len()
        invariant
            from <= i <= s@.len(),
            next_index(s@, c, from as int) == next_index(s@, c, i as int),
        decreases s@.len() - i,
    {
        if s[i] == c {
            return i;
        }
        i += 1;
    }
    i
}

/// The secret of a TOTP URI, if it carries one.
pub fn extract_totp_secret(uri: &str) -> (r: Option<String>)
    ensures
        match totp_secret(uri@) {
            Some(t) => r matches Some(s) && s@ == t,
            None => r is None,
        },
{
    let chars = chars_of(uri);
    let q = find_from(chars.as_slice(), '?', 0);
    if q >= chars.len() {
        return None;
    }
    proof {
        lemma_next_index(chars@, '?', 0);
    }
    let end = find_from(chars.as_slice(), '?', q + 1);
    proof {
        lemma_next_index(chars@, '?', q + 1);
    }
    let ghost full = chars@.subrange(q + 1, end as int);
    let key = chars_of("secret=");
    proof {
        reveal_strlit("secret=");
    }
    let mut start = q + 1;
    loop
        invariant
            q + 1 <= start <= end <= chars@.len(),
            chars@ == uri@,
            q == next_index(uri@, '?', 0),
            end == next_index(uri@, '?', q + 1),
            full == chars@.subrange(q + 1, end as int),
            key@ == "secret="@,
            secret_param(full) == secret_param(chars@.subrange(start as int, end as int)),
        decreases end - start,
    {
        let ghost p = chars@.subrange(start as int, end as int);
        proof {
            reveal_strlit("secret=");
        }
        let amp = find_from(chars.as_slice(), '&', start);
        let e = if amp < end { amp } else { end };
        proof {
            lemma_next_index(chars@, '&', start as int);
            lemma_next_index_shift(chars@, '&', start as int, end as int);
            assert(next_index(p, '&', 0) == e - start);
        }
        let seg_text = string_from_chars(chars.as_slice(), start, e);
        let seg = chars_of(seg_text.as_str());
        proof {
            assert(seg@ =~= p.take(e - start));
        }
        if starts_with_chars(seg.as_slice(), key.as_slice()) {
            proof {
                reveal_strlit("secret=");
            }
            let value = string_from_chars(seg.as_slice(), 7, seg.len());
            proof {
                assert(value@ =~= seg@.skip(7));
            }
            return Some(value);
        }
        if e >= end {
            return None;
        }
        proof {
            assert(p.skip(e - start + 1) =~= chars@.subrange(e + 1, end as int));
        }
        start = e + 1;
    }
}

/// Finding `c` from `start` within `s[start..end]` agrees with finding it in
/// the whole of `s`, cut at `end`.
proof fn lemma_next_index_shift(s: Seq<char>, c: char, start: int, end: int)
    requires
        0 <= start <= end <= s.len(),
    ensures
        next_index(s.subrange(start, end), c, 0) == (if next_index(s, c, start) < end {
            next_index(s, c, start) - start
        } else {
            end - start
        }),
    decreases end - start,
{
    let p = s.subrange(start, end);
    lemma_next_index(s, c, start);
    if start < end {
        if s[start] == c {
            assert(p[0] == c);
        } else {
            lemma_next_index_shift(s, c, start + 1, end);
            lemma_next_index_tail(p, c);
            assert(p.skip(1) =~= s.subrange(start + 1, end));
        }
    }
}

/// Searching past a first position that does not match is searching the rest.
proof fn lemma_next_index_tail(p: Seq<char>, c: char)
    requires
        p.len() > 0,
        p[0] != c,
    ensures
        next_index(p, c, 0) == next_index(p.skip(1), c, 0) + 1,
{
    lemma_next_index_from(p, c, 1);
}

/// `next_index(p, c, from)` is `next_index(p.skip(from), c, 0) + from`.
proof fn lemma_next_index_from(p: Seq<char>, c: char, from: int)
    requires
        0 <= from <= p.len(),
    ensures
        next_index(p, c, from) == next_index(p.skip(from), c, 0) + from,
    decreases p.len() - from,
{
    let q = p.skip(from);
    if from < p.len() {
        assert(q[0] == p[from]);
        if p[from] != c {
            lemma_next_index_from(p, c, from + 1);
            lemma_next_index_from(q, c, 1);
            assert(q.skip(1) =~= p.skip(from + 1));
        }
    }
}

} // verus!
