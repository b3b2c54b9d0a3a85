//! Verified string helpers, and the few std string functions the library
//! needs beyond what vstd specifies, each behind a trusted wrapper.

use vstd::prelude::*;
use vstd::utf8::{decode_utf8, encode_utf8, valid_utf8};

verus! {

/// UTF-8 decoding of a byte buffer (`String::from_utf8`), which fails exactly
/// when the bytes are not valid UTF-8.
#[verifier::external_body]
pub(crate) fn string_from_utf8(bytes: Vec<u8>) -> (r: Option<String>)
    ensures
        r is Some <==> valid_utf8(bytes@),
        r matches Some(s) ==> s@ == decode_utf8(bytes@),
{
    String::from_utf8(bytes).ok()
}

/// Append one character to a string (`String::push`).
#[verifier::external_body]
pub(crate) fn push_char(s: &mut String, c: char)
    ensures
        final(s)@ == old(s)@.push(c),
{
    s.push(c)
}

/// The characters of a string, in order.
pub fn chars_of(s: &str) -> (v: Vec<char>)
    ensures
        v@ == s@,
{
    broadcast use vstd::string::axiom_spec_iter;
    let mut v: Vec<char> = Vec::new();
    for c in it: s.chars()
        invariant
            it.seq() == s@,
            v@ == s@.subrange(0, it.index()),
    {
        v.push(c);
    }
    v
}

/// The string made of `chars[lo..hi]`.
pub fn string_from_chars(chars: &[char], lo: usize, hi: usize) -> (r: String)
    requires
        lo <= hi <= chars@.len(),
    ensures
        r@ == chars@.subrange(lo as int, hi as int),
{
    let mut r = String::new();
    let mut i = lo;
    while i < hi
        invariant
            lo <= i <= hi <= chars@.len(),
            r@ == chars@.subrange(lo as int, i as int),
        decreases hi - i,
    {
        push_char(&mut r, chars[i]);
        proof {
            assert(chars@.subrange(lo as int, i + 1) =~= chars@.subrange(lo as int, i as int).push(chars@[i as int]));
        }
        i += 1;
    }
    r
}

/// Append a string to another (`String::push_str`).
pub fn push_str(s: &mut String, t: &str)
    ensures
        final(s)@ == old(s)@ + t@,
{
    s.append(t);
}

/// Whether a character is alphabetic or numeric in the Unicode sense
/// (`char::is_alphanumeric`).
pub uninterp spec fn char_alphanumeric(c: char) -> bool;

/// `char::is_alphanumeric`: Unicode alphabetic or numeric.
#[verifier::external_body]
pub(crate) fn is_alphanumeric(c: char) -> (r: bool)
    ensures
        r == char_alphanumeric(c),
{
    c.is_alphanumeric()
}

/// Whether a character has the Unicode `White_Space` property: tab to
/// carriage return, space, next line, no-break space, ogham space mark, the
/// spaces U+2000 to U+200A, line and paragraph separators, narrow no-break
/// space, medium mathematical space and ideographic space.
pub open spec fn char_whitespace(c: char) -> bool {
    ||| ('\u{9}' <= c && c <= '\u{D}')
    ||| c == ' '
    ||| c == '\u{85}'
    ||| c == '\u{A0}'
    ||| c == '\u{1680}'
    ||| ('\u{2000}' <= c && c <= '\u{200A}')
    ||| c == '\u{2028}'
    ||| c == '\u{2029}'
    ||| c == '\u{202F}'
    ||| c == '\u{205F}'
    ||| c == '\u{3000}'
}

/// Whether a character has the Unicode `White_Space` property (what
/// `char::is_whitespace` tests).
pub fn is_whitespace(c: char) -> (r: bool)
    ensures
        r == char_whitespace(c),
{
    ('\u{9}' <= c && c <= '\u{D}') || c == ' ' || c == '\u{85}' || c == '\u{A0}' || c == '\u{1680}'
        || ('\u{2000}' <= c && c <= '\u{200A}') || c == '\u{2028}' || c == '\u{2029}' || c == '\u{202F}'
        || c == '\u{205F}' || c == '\u{3000}'
}

/// Every character of `s` is white space (so `s.trim()` is empty).
pub open spec fn all_whitespace(s: Seq<char>) -> bool {
    forall|i: int| 0 <= i < s.len() ==> #[trigger] char_whitespace(s[i])
}

/// Whether `s` is empty once white space is trimmed from both ends.
pub fn is_blank(s: &str) -> (r: bool)
    ensures
        r == all_whitespace(s@),
{
    let chars = chars_of(s);
    let mut i: usize = 0;
    while i < chars.len()
        invariant
            chars@ == s@,
            i <= chars@.len(),
            forall|k: int| 0 <= k < i ==> #[trigger] char_whitespace(chars@[k]),
        decreases chars@.len() - i,
    {
        if !is_whitespace(chars[i]) {
            return false;
        }
        i += 1;
    }
    true
}

/// A control character: Unicode general category `Cc`, that is U+0000 to
/// U+001F and U+007F to U+009F (`char::is_control`).
pub open spec fn is_control_spec(c: char) -> bool {
    (c as u32) <= 0x1f || (0x7f <= (c as u32) && (c as u32) <= 0x9f)
}

/// Whether `c` is a control character (`char::is_control`).
pub fn is_control(c: char) -> (r: bool)
    ensures
        r == is_control_spec(c),
{
    let v = c as u32;
    v <= 0x1f || (0x7f <= v && v <= 0x9f)
}

/// The string `s[..lo] + mid + s[hi..]` (by characters).
pub fn splice_chars(s: &[char], lo: usize, hi: usize, mid: &[char]) -> (r: String)
    requires
        lo <= hi <= s@.len(),
    ensures
        r@ == s@.subrange(0, lo as int) + mid@ + s@.subrange(hi as int, s@.len() as int),
{
    let mut r = string_from_chars(s, 0, lo);
    let m = string_from_chars(mid, 0, mid.len());
    push_str(&mut r, m.as_str());
    let t = string_from_chars(s, hi, s.len());
    push_str(&mut r, t.as_str());
    proof {
        assert(mid@.subrange(0, mid@.len() as int) =~= mid@);
    }
    r
}

proof fn lemma_encode_utf8_skip(s: Seq<char>, k: int)
    requires
        0 <= k <= s.len(),
    ensures
        encode_utf8(s.skip(k)).len() <= encode_utf8(s).len(),
        s.skip(k).len() <= encode_utf8(s.skip(k)).len(),
    decreases k,
{
    if k == 0 {
        assert(s.skip(0) =~= s);
        lemma_encode_utf8_at_least(s);
    } else {
        lemma_encode_utf8_skip(s, k - 1);
        assert(s.skip(k - 1).drop_first() =~= s.skip(k));
        lemma_encode_utf8_at_least(s.skip(k));
    }
}

proof fn lemma_encode_utf8_at_least(s: Seq<char>)
    ensures
        s.len() <= encode_utf8(s).len(),
    decreases s.len(),
{
    if s.len() > 0 {
        lemma_encode_utf8_at_least(s.drop_first());
    }
}

/// Whether the UTF-8 encoding of `chars` is shorter than `limit` bytes.
pub fn utf8_len_below(chars: &[char], limit: usize) -> (r: bool)
    ensures
        r == (encode_utf8(chars@).len() < limit),
{
    let mut total: usize = 0;
    let mut i = chars.len();
    proof {
        assert(chars@.skip(i as int) =~= Seq::<char>::empty());
    }
    if limit == 0 {
        return false;
    }
    while i > 0
        invariant
            i <= chars@.len(),
            total == encode_utf8(chars@.skip(i as int)).len(),
            total < limit,
        decreases i,
    {
        let c = chars[i - 1];
        let v = c as u32;
        let w: usize = if v <= 0x7f { 1 } else if v <= 0x7ff { 2 } else if v <= 0xffff { 3 } else { 4 };
        proof {
            vstd::utf8::char_is_scalar(c);
            assert(chars@.skip(i - 1).drop_first() =~= chars@.skip(i as int));
            assert(chars@.skip(i - 1)[0] == c);
            assert(encode_utf8(chars@.skip(i - 1)).len() == w + total);
        }
        if w >= limit - total {
            proof {
                lemma_encode_utf8_skip(chars@, i - 1);
            }
            return false;
        }
        total = total + w;
        i -= 1;
    }
    proof {
        assert(chars@.skip(0) =~= chars@);
    }
    true
}

/// The lower-case form of a string (`str::to_lowercase`, Unicode case
/// mapping).
pub uninterp spec fn lowercase_of(s: Seq<char>) -> Seq<char>;

/// A character with ASCII `A`-`Z` mapped to `a`-`z`.
pub open spec fn ascii_lower(c: char) -> char {
    if 'A' <= c && c <= 'Z' { ((c as u32) + 32) as char } else { c }
}

/// `str::to_lowercase`. On ASCII text it lowers `A`-`Z` and keeps every
/// other character (the Unicode lower-case mapping of ASCII).
#[verifier::external_body]
pub(crate) fn to_lowercase(s: &str) -> (r: String)
    ensures
        r@ == lowercase_of(s@),
        (forall|i: int| 0 <= i < s@.len() ==> (#[trigger] s@[i]) < '\u{80}')
            ==> r@ == s@.map_values(|c: char| ascii_lower(c)),
{
    s.to_lowercase()
}

/// The upper-case form of a string (`str::to_uppercase`, Unicode case
/// mapping).
pub uninterp spec fn uppercase_of(s: Seq<char>) -> Seq<char>;

/// `str::to_uppercase`.
#[verifier::external_body]
pub(crate) fn to_uppercase(s: &str) -> (r: String)
    ensures
        r@ == uppercase_of(s@),
{
    s.to_uppercase()
}

/// The lower-case hexadecimal digit of `n` (meaningful for `n < 16`).
pub open spec fn hex_digit(n: u8) -> char {
    if n < 10 { (48 + n) as char } else { (87 + n) as char }
}

/// The two lower-case hexadecimal digits of a byte, high nibble first.
pub open spec fn hex_byte(b: u8) -> Seq<char> {
    seq![hex_digit(b / 16), hex_digit(b % 16)]
}

/// The decimal digits of `n`, most significant first, without leading zeros.
pub open spec fn decimal(n: nat) -> Seq<char>
    decreases n,
{
    if n < 10 {
        seq![(48 + n) as char]
    } else {
        decimal(n / 10).push((48 + n % 10) as char)
    }
}

/// Append the two hexadecimal digits of a byte.
pub fn push_hex_byte(s: &mut String, b: u8)
    ensures
        final(s)@ == old(s)@ + hex_byte(b),
{
    let hi = b / 16;
    let lo = b % 16;
    let c_hi = if hi < 10 { (48 + hi) as char } else { (87 + hi) as char };
    let c_lo = if lo < 10 { (48 + lo) as char } else { (87 + lo) as char };
    push_char(s, c_hi);
    push_char(s, c_lo);
    assert(final(s)@ =~= old(s)@ + hex_byte(b));
}

/// Append the decimal digits of `n`.
pub fn push_decimal(s: &mut String, n: u32)
    ensures
        final(s)@ == old(s)@ + decimal(n as nat),
    decreases n,
{
    if n < 10 {
        push_char(s, (48 + n as u8) as char);
        assert(final(s)@ =~= old(s)@ + decimal(n as nat));
    } else {
        push_decimal(s, n / 10);
        let d = (n % 10) as u8;
        push_char(s, (48 + d) as char);
        assert(final(s)@ =~= old(s)@ + decimal(n as nat));
    }
}

} // verus!
