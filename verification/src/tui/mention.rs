//! Mentions in message bodies. On the wire a mention is the tag
//! `<@uuid>name</@>`; on screen it is `@name`, where the name comes from the
//! name cache when the uuid is known there and from the tag otherwise.

use vstd::prelude::*;

use crate::text::{char_alphanumeric, chars_of, is_alphanumeric, lowercase_of, push_char, push_str, string_from_chars, to_lowercase};

verus! {

// ---------------------------------------------------------------------------
// Searching character sequences
// ---------------------------------------------------------------------------

/// `pat` occurs in `s` at position `i`.
pub open spec fn occurs_at(s: Seq<char>, pat: Seq<char>, i: int) -> bool {
    0 <= i && i + pat.len() <= s.len() && s.subrange(i, i + pat.len()) == pat
}

/// The first position at or after `from` where `pat` occurs in `s`.
pub open spec fn find_from(s: Seq<char>, pat: Seq<char>, from: int) -> Option<int>
    decreases s.len() + 1 - from,
{
    if from < 0 || from + pat.len() > s.len() {
        None
    } else if occurs_at(s, pat, from) {
        Some(from)
    } else {
        find_from(s, pat, from + 1)
    }
}

/// `find_from` gives the first occurrence at or after `from`, or `None` when
/// there is none.
pub proof fn lemma_find_from(s: Seq<char>, pat: Seq<char>, from: int)
    requires
        from >= 0,
    ensures
        find_from(s, pat, from) matches Some(k) ==> {
            &&& from <= k
            &&& occurs_at(s, pat, k)
            &&& forall|j: int| from <= j < k ==> !occurs_at(s, pat, j)
        },
        find_from(s, pat, from) is None ==> forall|j: int| from <= j ==> !occurs_at(s, pat, j),
    decreases s.len() + 1 - from,
{
    if from + pat.len() > s.len() {
    } else if occurs_at(s, pat, from) {
    } else {
        lemma_find_from(s, pat, from + 1);
    }
}

/// Whether `pat` occurs in `s` at position `i`.
fn matches_at(s: &[char], pat: &[char], i: usize) -> (r: bool)
    ensures
        r == occurs_at(s@, pat@, i as int),
{
    if i > s.len() || pat.len() > s.len() - i {
        return false;
    }
    let slen = s.len();
    let mut j: usize = 0;
    while j < pat.len()
        invariant
            slen == s@.len(),
            i + pat@.len() <= s@.len(),
            j <= pat@.len(),
            forall|k: int| 0 <= k < j ==> s@[i + k] == pat@[k],
        decreases pat@.len() - j,
    {
        if s[i + j] != pat[j] {
            proof {
                assert(s@.subrange(i as int, i + pat@.len())[j as int] != pat@[j as int]);
            }
            return false;
        }
        j += 1;
    }
    assert(s@.subrange(i as int, i + pat@.len()) =~= pat@);
    true
}

/// The first position at or after `from` where `pat` occurs in `s`.
pub fn find_sub(s: &[char], pat: &[char], from: usize) -> (r: Option<usize>)
    ensures
        r is None <==> find_from(s@, pat@, from as int) is None,
        r matches Some(k) ==> find_from(s@, pat@, from as int) == Some(k as int),
{
    let mut i = from;
    while i <= s.len() && pat.len() <= s.len() - i
        invariant
            from <= i,
            find_from(s@, pat@, from as int) == find_from(s@, pat@, i as int),
        decreases s@.len() + 1 - i,
    {
        if matches_at(s, pat, i) {
            return Some(i);
        }
        proof {
            if i == s@.len() {
                assert(s@.subrange(i as int, i as int) =~= pat@);
            }
        }
        i += 1;
    }
    None
}

// ---------------------------------------------------------------------------
// UUIDs
// ---------------------------------------------------------------------------

/// An ASCII hexadecimal digit.
pub open spec fn is_hex_digit(c: char) -> bool {
    ('0' <= c && c <= '9') || ('a' <= c && c <= 'f') || ('A' <= c && c <= 'F')
}

/// The shape of a UUID: 36 characters, dashes at positions 8, 13, 18 and
/// 23, hexadecimal digits everywhere else.
pub open spec fn uuid_shaped(s: Seq<char>) -> bool {
    &&& s.len() == 36
    &&& forall|i: int| 0 <= i < 36 ==> {
        if i == 8 || i == 13 || i == 18 || i == 23 { s[i] == '-' } else { is_hex_digit(#[trigger] s[i]) }
    }
}

fn uuid_shaped_range(s: &[char], lo: usize, hi: usize) -> (r: bool)
    requires
        lo <= hi <= s@.len(),
    ensures
        r == uuid_shaped(s@.subrange(lo as int, hi as int)),
{
    if hi - lo != 36 {
        return false;
    }
    let ghost t = s@.subrange(lo as int, hi as int);
    let mut i: usize = 0;
    while i < 36
        invariant
            hi - lo == 36,
            hi <= s@.len(),
            t == s@.subrange(lo as int, hi as int),
            i <= 36,
            forall|k: int| 0 <= k < i ==> {
                if k == 8 || k == 13 || k == 18 || k == 23 { t[k] == '-' } else { is_hex_digit(#[trigger] t[k]) }
            },
        decreases 36 - i,
    {
        let c = s[lo + i];
        assert(c == t[i as int]);
        let ok = if i == 8 || i == 13 || i == 18 || i == 23 {
            c == '-'
        } else {
            ('0' <= c && c <= '9') || ('a' <= c && c <= 'f') || ('A' <= c && c <= 'F')
        };
        if !ok {
            return false;
        }
        i += 1;
    }
    true
}

/// Whether `s` has the shape of a UUID (`8-4-4-4-12` hexadecimal digits).
pub fn is_uuid_like(s: &str) -> (r: bool)
    ensures
        r == uuid_shaped(s@),
{
    let chars = chars_of(s);
    proof {
        assert(chars@.subrange(0, chars@.len() as int) =~= chars@);
    }
    uuid_shaped_range(chars.as_slice(), 0, chars.len())
}

// ---------------------------------------------------------------------------
// The name cache
// ---------------------------------------------------------------------------

/// Display names by user UUID.
pub struct NameCache {
    entries: Vec<(String, String)>,
}

/// No two entries share a key.
spec fn keys_distinct_seq(e: Seq<(String, String)>) -> bool {
    forall|i: int, j: int| 0 <= i < j < e.len() ==> (#[trigger] e[i]).0@ != (#[trigger] e[j]).0@
}

/// Entry `i` has key `k`.
spec fn has_key_at(e: Seq<(String, String)>, k: Seq<char>, i: int) -> bool {
    0 <= i < e.len() && e[i].0@ == k
}

/// The map an entry list stands for.
spec fn entries_map(e: Seq<(String, String)>) -> Map<Seq<char>, Seq<char>> {
    Map::new(
        |k: Seq<char>| exists|i: int| #[trigger] has_key_at(e, k, i),
        |k: Seq<char>| e[choose|i: int| #[trigger] has_key_at(e, k, i)].1@,
    )
}

proof fn lemma_entries_map_at(e: Seq<(String, String)>, i: int)
    requires
        keys_distinct_seq(e),
        0 <= i < e.len(),
    ensures
        entries_map(e).contains_key(e[i].0@),
        entries_map(e)[e[i].0@] == e[i].1@,
{
    let k = e[i].0@;
    assert(has_key_at(e, k, i));
    let c = choose|j: int| #[trigger] has_key_at(e, k, j);
    assert(has_key_at(e, k, c));
    if c < i {
        assert(e[c].0@ != e[i].0@);
    } else if c > i {
        assert(e[i].0@ != e[c].0@);
    }
}

impl View for NameCache {
    type V = Map<Seq<char>, Seq<char>>;

    closed spec fn view(&self) -> Map<Seq<char>, Seq<char>> {
        entries_map(self.entries@)
    }
}

impl NameCache {
    #[verifier::type_invariant]
    spec fn keys_distinct(&self) -> bool {
        keys_distinct_seq(self.entries@)
    }

    /// An empty cache.
    pub fn new() -> (c: Self)
        ensures
            c@ == Map::<Seq<char>, Seq<char>>::empty(),
    {
        let c = NameCache { entries: Vec::new() };
        assert(c@ =~= Map::<Seq<char>, Seq<char>>::empty());
        c
    }

    /// The position of `uuid` among the entries.
    fn position(&self, uuid: &String) -> (r: Option<usize>)
        ensures
            r matches Some(i) ==> i < self.entries@.len() && self.entries@[i as int].0@ == uuid@,
            r is None ==> forall|i: int| 0 <= i < self.entries@.len() ==> (#[trigger] self.entries@[i]).0@ != uuid@,
    {
        let mut i: usize = 0;
        while i < self.entries.len()
            invariant
                i <= self.entries@.len(),
                forall|k: int| 0 <= k < i ==> (#[trigger] self.entries@[k]).0@ != uuid@,
            decreases self.entries@.len() - i,
        {
            if self.entries[i].0 == *uuid {
                return Some(i);
            }
            i += 1;
        }
        None
    }

    /// The name cached for `uuid`.
    pub fn get(&self, uuid: &String) -> (r: Option<&String>)
        ensures
            r is Some <==> self@.contains_key(uuid@),
            r matches Some(name) ==> name@ == self@[uuid@],
    {
        proof {
            use_type_invariant(self);
            if self@.contains_key(uuid@) {
                let c = choose|j: int| #[trigger] has_key_at(self.entries@, uuid@, j);
                assert(has_key_at(self.entries@, uuid@, c));
            }
        }
        match self.position(uuid) {
            Some(i) => {
                proof {
                    lemma_entries_map_at(self.entries@, i as int);
                }
                Some(&self.entries[i].1)
            },
            None => None,
        }
    }

    /// Cache `name` for `uuid`, replacing what was cached for it.
    pub fn insert(&mut self, uuid: String, name: String)
        ensures
            final(self)@ == old(self)@.insert(uuid@, name@),
    {
        proof {
            use_type_invariant(&*self);
        }
        let ghost old_entries = self.entries@;
        let pos = self.position(&uuid);
        let mut entries: Vec<(String, String)> = Vec::new();
        std::mem::swap(&mut entries, &mut self.entries);
        match pos {
            Some(i) => {
                entries.set(i, (uuid, name));
                proof {
                    assert forall|k: int| 0 <= k < entries@.len() && k != i implies
                        (#[trigger] entries@[k]).0@ != entries@[i as int].0@ by {
                        if k < i {
                            assert(old_entries[k].0@ != old_entries[i as int].0@);
                        } else {
                            assert(old_entries[i as int].0@ != old_entries[k].0@);
                        }
                    }
                }
            },
            None => {
                entries.push((uuid, name));
            },
        }
        proof {
            let e2 = entries@;
            let m = old_entries;
            let target = entries_map(m).insert(uuid@, name@);
            let idx: int = match pos { Some(i) => i as int, None => m.len() as int };
            assert(has_key_at(e2, uuid@, idx));
            assert forall|k: Seq<char>| #[trigger] entries_map(e2).contains_key(k) <==> target.contains_key(k) by {
                if entries_map(e2).contains_key(k) {
                    let j = choose|j: int| #[trigger] has_key_at(e2, k, j);
                    if j != idx {
                        assert(has_key_at(m, k, j));
                    }
                }
                if entries_map(m).contains_key(k) {
                    let j = choose|j: int| #[trigger] has_key_at(m, k, j);
                    if j == idx {
                        assert(k == uuid@);
                    } else {
                        assert(has_key_at(e2, k, j));
                    }
                }
            }
            assert forall|k: Seq<char>| #[trigger] entries_map(e2).contains_key(k) implies entries_map(e2)[k] == target[k] by {
                let j = choose|j: int| #[trigger] has_key_at(e2, k, j);
                lemma_entries_map_at(e2, j);
                if j != idx {
                    assert(has_key_at(m, k, j));
                    lemma_entries_map_at(m, j);
                }
            }
            assert(entries_map(e2) =~= target);
        }
        self.entries = entries;
    }
}

// ---------------------------------------------------------------------------
// Mention tags
// ---------------------------------------------------------------------------

/// The opening of a mention tag, `<@`.
pub open spec fn open_tag() -> Seq<char> {
    seq!['<', '@']
}

/// The closing of a mention tag, `</@>`.
pub open spec fn close_tag() -> Seq<char> {
    seq!['<', '/', '@', '>']
}

/// The needle that marks a mention of `uuid`: `<@uuid>`.
pub open spec fn mention_needle(uuid: Seq<char>) -> Seq<char> {
    open_tag() + uuid + seq!['>']
}

/// The mention tag `<@uuid>name</@>` that starts at `i`, if one does: the
/// uuid, the embedded name and the position just past the tag. The uuid runs
/// to the first `>` and must be UUID-shaped; the name runs to the first
/// `</@>` after it.
pub open spec fn tag_at(s: Seq<char>, i: int) -> Option<(Seq<char>, Seq<char>, int)> {
    if !occurs_at(s, open_tag(), i) {
        None
    } else {
        match find_from(s, seq!['>'], i + 2) {
            None => None,
            Some(g) => if !uuid_shaped(s.subrange(i + 2, g)) {
                None
            } else {
                match find_from(s, close_tag(), g + 1) {
                    None => None,
                    Some(c) => Some((s.subrange(i + 2, g), s.subrange(g + 1, c), c + 4)),
                }
            },
        }
    }
}

/// A tag ends after it starts and within the text.
pub proof fn lemma_tag_at(s: Seq<char>, i: int)
    ensures
        tag_at(s, i) matches Some((u, n, next)) ==> i + 2 <= next <= s.len(),
{
    if occurs_at(s, open_tag(), i) {
        lemma_find_from(s, seq!['>'], i + 2);
        if let Some(g) = find_from(s, seq!['>'], i + 2) {
            lemma_find_from(s, close_tag(), g + 1);
        }
    }
}

/// The name shown for a mention of `uuid` whose tag embeds `embedded`.
pub open spec fn resolve_name(cache: Map<Seq<char>, Seq<char>>, uuid: Seq<char>, embedded: Seq<char>) -> Seq<char> {
    if cache.contains_key(uuid) { cache[uuid] } else { embedded }
}

/// The screen form of `s` from position `i` on: each mention tag becomes
/// `@name`, everything else stays as it is.
pub open spec fn rendered_from(s: Seq<char>, cache: Map<Seq<char>, Seq<char>>, i: int) -> Seq<char>
    decreases s.len() - i,
{
    if i < 0 || i >= s.len() {
        Seq::empty()
    } else {
        match tag_at(s, i) {
            Some((uuid, name, next)) => {
                proof {
                    lemma_tag_at(s, i);
                }
                seq!['@'] + resolve_name(cache, uuid, name) + rendered_from(s, cache, next)
            },
            None => if occurs_at(s, open_tag(), i) {
                open_tag() + rendered_from(s, cache, i + 2)
            } else {
                seq![s[i]] + rendered_from(s, cache, i + 1)
            },
        }
    }
}

/// The names mentioned in `s` from position `i` on, as resolved; empty
/// names are left out.
pub open spec fn mentioned_from(s: Seq<char>, cache: Map<Seq<char>, Seq<char>>, i: int) -> Seq<Seq<char>>
    decreases s.len() - i,
{
    if i < 0 || i >= s.len() {
        Seq::empty()
    } else {
        match tag_at(s, i) {
            Some((uuid, name, next)) => {
                proof {
                    lemma_tag_at(s, i);
                }
                let r = resolve_name(cache, uuid, name);
                (if r.len() > 0 { seq![r] } else { Seq::empty() }) + mentioned_from(s, cache, next)
            },
            None => if occurs_at(s, open_tag(), i) {
                mentioned_from(s, cache, i + 2)
            } else {
                mentioned_from(s, cache, i + 1)
            },
        }
    }
}

/// A vector holding `c`.
fn char_vec1(c: char) -> (v: Vec<char>)
    ensures
        v@ == seq![c],
{
    let mut v = Vec::new();
    v.push(c);
    assert(v@ =~= seq![c]);
    v
}

/// The characters of `<@`.
fn open_tag_chars() -> (v: Vec<char>)
    ensures
        v@ == open_tag(),
{
    let mut v = Vec::new();
    v.push('<');
    v.push('@');
    assert(v@ =~= open_tag());
    v
}

/// The characters of `</@>`.
fn close_tag_chars() -> (v: Vec<char>)
    ensures
        v@ == close_tag(),
{
    let mut v = Vec::new();
    v.push('<');
    v.push('/');
    v.push('@');
    v.push('>');
    assert(v@ =~= close_tag());
    v
}

/// Whether `body` holds a mention of `uuid`, that is the text `<@uuid>`.
pub fn mentions_user(body: &str, uuid: &str) -> (r: bool)
    ensures
        r <==> exists|i: int| occurs_at(body@, mention_needle(uuid@), i),
{
    let mut needle = open_tag_chars();
    let u = chars_of(uuid);
    let mut k: usize = 0;
    while k < u.len()
        invariant
            k <= u@.len(),
            needle@ == open_tag() + u@.subrange(0, k as int),
        decreases u@.len() - k,
    {
        needle.push(u[k]);
        proof {
            assert(u@.subrange(0, k + 1) =~= u@.subrange(0, k as int).push(u@[k as int]));
            assert(open_tag() + u@.subrange(0, k + 1) =~= (open_tag() + u@.subrange(0, k as int)).push(u@[k as int]));
        }
        k += 1;
    }
    needle.push('>');
    proof {
        assert(u@.subrange(0, u@.len() as int) =~= u@);
        assert(needle@ =~= mention_needle(uuid@));
    }
    let chars = chars_of(body);
    let found = find_sub(chars.as_slice(), needle.as_slice(), 0);
    proof {
        lemma_find_from(body@, mention_needle(uuid@), 0);
    }
    found.is_some()
}

/// The mention tag starting at `i`, as positions: the `>` after the uuid and
/// the start of `</@>`.
fn parse_tag(s: &[char], i: usize) -> (r: Option<(usize, usize)>)
    ensures
        r is None <==> tag_at(s@, i as int) is None,
        r matches Some((g, c)) ==> i + 2 <= g && g < c && c + 4 <= s@.len()
            && tag_at(s@, i as int) == Some((s@.subrange(i + 2, g as int), s@.subrange(g + 1, c as int), c + 4)),
{
    let n = s.len();
    let open = open_tag_chars();
    if !matches_at(s, open.as_slice(), i) {
        return None;
    }
    let gt = char_vec1('>');
    let g = match find_sub(s, gt.as_slice(), i + 2) {
        Some(g) => g,
        None => return None,
    };
    proof {
        lemma_find_from(s@, seq!['>'], i + 2);
    }
    if !uuid_shaped_range(s, i + 2, g) {
        return None;
    }
    let close = close_tag_chars();
    let c = match find_sub(s, close.as_slice(), g + 1) {
        Some(c) => c,
        None => return None,
    };
    proof {
        lemma_find_from(s@, close_tag(), g + 1);
    }
    Some((g, c))
}

/// Replace every mention tag `<@uuid>name</@>` in `body` by `@name`, with the
/// name from `name_cache` when it knows the uuid and the embedded name
/// otherwise. Text that is not a well-formed tag stays as it is.
pub fn render_body(body: &str, name_cache: &NameCache) -> (r: String)
    ensures
        r@ == rendered_from(body@, name_cache@, 0),
{
    let chars = chars_of(body);
    let s = chars.as_slice();
    let mut result = String::new();
    let mut i: usize = 0;
    while i < s.len()
        invariant
            s@ == body@,
            i <= s@.len(),
            result@ + rendered_from(s@, name_cache@, i as int) == rendered_from(s@, name_cache@, 0),
        decreases s@.len() - i,
    {
        let ghost before = result@;
        let ghost old_i = i as int;
        let ghost piece: Seq<char>;
        match parse_tag(s, i) {
            Some((g, c)) => {
                let uuid = string_from_chars(s, i + 2, g);
                push_char(&mut result, '@');
                match name_cache.get(&uuid) {
                    Some(name) => push_str(&mut result, name.as_str()),
                    None => {
                        let embedded = string_from_chars(s, g + 1, c);
                        push_str(&mut result, embedded.as_str());
                    },
                }
                proof {
                    piece = seq!['@'] + resolve_name(name_cache@, uuid@, s@.subrange(g + 1, c as int));
                    assert(result@ =~= before + piece);
                }
                i = c + 4;
            },
            None => {
                if i + 1 < s.len() && s[i] == '<' && s[i + 1] == '@' {
                    proof {
                        assert(s@.subrange(i as int, i + 2) =~= open_tag());
                    }
                    push_char(&mut result, '<');
                    push_char(&mut result, '@');
                    proof {
                        piece = open_tag();
                        assert(result@ =~= before + piece);
                    }
                    i += 2;
                } else {
                    proof {
                        if occurs_at(s@, open_tag(), i as int) {
                            assert(s@.subrange(i as int, i + 2)[0] == '<');
                            assert(s@.subrange(i as int, i + 2)[1] == '@');
                        }
                    }
                    push_char(&mut result, s[i]);
                    proof {
                        piece = seq![s@[old_i]];
                        assert(result@ =~= before + piece);
                    }
                    i += 1;
                }
            },
        }
        proof {
            let rest = rendered_from(s@, name_cache@, i as int);
            assert(rendered_from(s@, name_cache@, old_i) == piece + rest);
            assert(before + (piece + rest) =~= (before + piece) + rest);
        }
    }
    result
}

/// The names mentioned in `body` (its wire form), in order, each resolved as
/// `render_body` resolves it; mentions that resolve to an empty name are
/// left out.
pub fn extract_mentioned_names(body: &str, name_cache: &NameCache) -> (r: Vec<String>)
    ensures
        r@.map_values(|n: String| n@) == mentioned_from(body@, name_cache@, 0),
{
    let chars = chars_of(body);
    let s = chars.as_slice();
    let mut names: Vec<String> = Vec::new();
    let mut i: usize = 0;
    while i < s.len()
        invariant
            s@ == body@,
            i <= s@.len(),
            names@.map_values(|n: String| n@) + mentioned_from(s@, name_cache@, i as int)
                == mentioned_from(s@, name_cache@, 0),
        decreases s@.len() - i,
    {
        let ghost before = names@.map_values(|n: String| n@);
        let ghost old_i = i as int;
        let ghost piece: Seq<Seq<char>>;
        match parse_tag(s, i) {
            Some((g, c)) => {
                let uuid = string_from_chars(s, i + 2, g);
                let resolved = match name_cache.get(&uuid) {
                    Some(name) => name.clone(),
                    None => string_from_chars(s, g + 1, c),
                };
                proof {
                    let r = resolve_name(name_cache@, uuid@, s@.subrange(g + 1, c as int));
                    assert(resolved@ == r);
                    piece = if r.len() > 0 { seq![r] } else { Seq::empty() };
                }
                if !resolved.as_str().is_empty() {
                    names.push(resolved);
                }
                proof {
                    assert(names@.map_values(|n: String| n@) =~= before + piece);
                }
                i = c + 4;
            },
            None => {
                proof {
                    piece = Seq::empty();
                    assert(names@.map_values(|n: String| n@) =~= before + piece);
                }
                if i + 1 < s.len() && s[i] == '<' && s[i + 1] == '@' {
                    proof {
                        assert(s@.subrange(i as int, i + 2) =~= open_tag());
                    }
                    i += 2;
                } else {
                    proof {
                        if occurs_at(s@, open_tag(), i as int) {
                            assert(s@.subrange(i as int, i + 2)[0] == '<');
                            assert(s@.subrange(i as int, i + 2)[1] == '@');
                        }
                    }
                    i += 1;
                }
            },
        }
        proof {
            let rest = mentioned_from(s@, name_cache@, i as int);
            assert(mentioned_from(s@, name_cache@, old_i) == piece + rest);
            assert(before + (piece + rest) =~= (before + piece) + rest);
        }
    }
    names
}

// ---------------------------------------------------------------------------
// Styling mentions on screen
// ---------------------------------------------------------------------------

/// A character that continues an `@word`: alphanumeric, `_` or `-`.
pub open spec fn is_word_char(c: char) -> bool {
    char_alphanumeric(c) || c == '_' || c == '-'
}

/// The end of the run of word characters that starts at `j`.
pub open spec fn word_end(s: Seq<char>, j: int) -> int
    decreases s.len() - j,
{
    if 0 <= j < s.len() && is_word_char(s[j]) { word_end(s, j + 1) } else { j }
}

/// A word ends at or after its start and within the text.
pub proof fn lemma_word_end(s: Seq<char>, j: int)
    requires
        0 <= j <= s.len(),
    ensures
        j <= word_end(s, j) <= s.len(),
    decreases s.len() - j,
{
    if j < s.len() && is_word_char(s[j]) {
        lemma_word_end(s, j + 1);
    }
}

/// `w` is one of `names`, ignoring case: their lower-case forms (Unicode
/// `str::to_lowercase`) are equal.
pub open spec fn names_match(names: Seq<Seq<char>>, w: Seq<char>) -> bool {
    exists|k: int| 0 <= k < names.len() && lowercase_of(#[trigger] names[k]) == lowercase_of(w)
}

/// The spans of `s` from position `i` on, where the plain run under way
/// started at `seg`: each `@word` whose word is a mentioned name is a span of
/// its own, marked `true`; the text between them forms plain spans.
pub open spec fn spans_from(s: Seq<char>, names: Seq<Seq<char>>, i: int, seg: int) -> Seq<(Seq<char>, bool)>
    decreases s.len() - i,
{
    if i < 0 || i >= s.len() {
        if 0 <= seg < s.len() { seq![(s.subrange(seg, s.len() as int), false)] } else { Seq::empty() }
    } else if s[i] == '@' && names_match(names, s.subrange(i + 1, word_end(s, i + 1))) {
        proof {
            lemma_word_end(s, i + 1);
        }
        let we = word_end(s, i + 1);
        (if seg < i { seq![(s.subrange(seg, i), false)] } else { Seq::empty() })
            + seq![(s.subrange(i, we), true)] + spans_from(s, names, we, we)
    } else {
        spans_from(s, names, i + 1, seg)
    }
}

/// The spans of a rendered line: a single plain span when no name is
/// mentioned or the line is empty.
pub open spec fn body_spans(line: Seq<char>, names: Seq<Seq<char>>) -> Seq<(Seq<char>, bool)> {
    if names.len() == 0 {
        seq![(line, false)]
    } else {
        let r = spans_from(line, names, 0, 0);
        if r.len() == 0 { seq![(line, false)] } else { r }
    }
}

/// The texts of spans, joined.
pub open spec fn span_text(spans: Seq<(Seq<char>, bool)>) -> Seq<char>
    decreases spans.len(),
{
    if spans.len() == 0 { Seq::empty() } else { span_text(spans.drop_last()) + spans.last().0 }
}

/// Whether two character slices are equal.
fn same_chars(a: &[char], b: &[char]) -> (r: bool)
    ensures
        r == (a@ == b@),
{
    if a.len() != b.len() {
        return false;
    }
    let mut t: usize = 0;
    while t < a.len()
        invariant
            a@.len() == b@.len(),
            t <= a@.len(),
            forall|q: int| 0 <= q < t ==> a@[q] == b@[q],
        decreases a@.len() - t,
    {
        if a[t] != b[t] {
            return false;
        }
        t += 1;
    }
    assert(a@ =~= b@);
    true
}

/// The end of the run of word characters that starts at `j`.
fn scan_word(s: &[char], j: usize) -> (r: usize)
    requires
        j <= s@.len(),
    ensures
        r as int == word_end(s@, j as int),
{
    let mut k = j;
    while k < s.len() && (is_alphanumeric(s[k]) || s[k] == '_' || s[k] == '-')
        invariant
            j <= k <= s@.len(),
            word_end(s@, j as int) == word_end(s@, k as int),
        decreases s@.len() - k,
    {
        k += 1;
    }
    k
}

/// Whether `s[lo..hi]` is one of `names`, ignoring case.
fn any_name_matches(names: &[String], s: &[char], lo: usize, hi: usize) -> (r: bool)
    requires
        lo <= hi <= s@.len(),
    ensures
        r == names_match(names@.map_values(|n: String| n@), s@.subrange(lo as int, hi as int)),
{
    let ghost nv = names@.map_values(|n: String| n@);
    let ghost w = s@.subrange(lo as int, hi as int);
    let word = string_from_chars(s, lo, hi);
    let lw = to_lowercase(word.as_str());
    let lw_chars = chars_of(lw.as_str());
    let mut k: usize = 0;
    while k < names.len()
        invariant
            k <= names@.len(),
            nv == names@.map_values(|n: String| n@),
            w == s@.subrange(lo as int, hi as int),
            lw_chars@ == lowercase_of(w),
            forall|m: int| 0 <= m < k ==> lowercase_of(#[trigger] nv[m]) != lowercase_of(w),
        decreases names@.len() - k,
    {
        let ln = to_lowercase(names[k].as_str());
        let ln_chars = chars_of(ln.as_str());
        assert(names@[k as int]@ == nv[k as int]);
        if same_chars(ln_chars.as_slice(), lw_chars.as_slice()) {
            assert(lowercase_of(nv[k as int]) == lowercase_of(w));
            return true;
        }
        k += 1;
    }
    false
}

/// Split a rendered line into `(text, is_mention)` spans so that each
/// `@name` of a mentioned name (case ignored) can be styled on its own.
/// With no mentioned names, or an empty line, the line is one plain span.
pub fn split_body_spans(line: &str, mentioned_names: &[String]) -> (r: Vec<(String, bool)>)
    ensures
        r@.map_values(|p: (String, bool)| (p.0@, p.1))
            == body_spans(line@, mentioned_names@.map_values(|n: String| n@)),
{
    let ghost names = mentioned_names@.map_values(|n: String| n@);
    let mut result: Vec<(String, bool)> = Vec::new();
    if mentioned_names.len() == 0 {
        result.push((line.to_owned(), false));
        proof {
            assert(result@.map_values(|p: (String, bool)| (p.0@, p.1)) =~= seq![(line@, false)]);
        }
        return result;
    }
    let chars = chars_of(line);
    let s = chars.as_slice();
    let mut i: usize = 0;
    let mut seg: usize = 0;
    while i < s.len()
        invariant
            s@ == line@,
            names == mentioned_names@.map_values(|n: String| n@),
            names.len() > 0,
            seg <= i <= s@.len(),
            result@.map_values(|p: (String, bool)| (p.0@, p.1)) + spans_from(s@, names, i as int, seg as int)
                == spans_from(s@, names, 0, 0),
        decreases s@.len() - i,
    {
        let ghost before = result@.map_values(|p: (String, bool)| (p.0@, p.1));
        let ghost old_i = i as int;
        let ghost old_seg = seg as int;
        let mut matched = false;
        if s[i] == '@' {
            let we = scan_word(s, i + 1);
            proof {
                lemma_word_end(s@, i + 1);
            }
            if any_name_matches(mentioned_names, s, i + 1, we) {
                if i > seg {
                    result.push((string_from_chars(s, seg, i), false));
                }
                result.push((string_from_chars(s, i, we), true));
                proof {
                    let piece = (if old_seg < old_i { seq![(s@.subrange(old_seg, old_i), false)] } else { Seq::empty() })
                        + seq![(s@.subrange(old_i, we as int), true)];
                    assert(result@.map_values(|p: (String, bool)| (p.0@, p.1)) =~= before + piece);
                    let rest = spans_from(s@, names, we as int, we as int);
                    assert(spans_from(s@, names, old_i, old_seg) == piece + rest);
                    assert(before + (piece + rest) =~= (before + piece) + rest);
                }
                seg = we;
                i = we;
                matched = true;
            }
        }
        if !matched {
            i += 1;
            proof {
                assert(result@.map_values(|p: (String, bool)| (p.0@, p.1)) == before);
                assert(spans_from(s@, names, old_i, old_seg) == spans_from(s@, names, i as int, seg as int));
            }
        }
    }
    let ghost before = result@.map_values(|p: (String, bool)| (p.0@, p.1));
    if seg < s.len() {
        result.push((string_from_chars(s, seg, s.len()), false));
        proof {
            assert(result@.map_values(|p: (String, bool)| (p.0@, p.1)) =~= before + spans_from(s@, names, i as int, seg as int));
        }
    } else {
        proof {
            assert(before + spans_from(s@, names, i as int, seg as int) =~= before);
        }
    }
    if result.len() == 0 {
        result.push((line.to_owned(), false));
        proof {
            assert(result@.map_values(|p: (String, bool)| (p.0@, p.1)) =~= seq![(line@, false)]);
        }
    }
    result
}

// ---------------------------------------------------------------------------
// Laws
// ---------------------------------------------------------------------------

proof fn lemma_rendered_without_tags(s: Seq<char>, cache: Map<Seq<char>, Seq<char>>, i: int)
    requires
        0 <= i <= s.len(),
        forall|j: int| i <= j < s.len() ==> #[trigger] tag_at(s, j) is None,
    ensures
        rendered_from(s, cache, i) == s.subrange(i, s.len() as int),
    decreases s.len() - i,
{
    if i == s.len() {
        assert(s.subrange(i, i) =~= Seq::<char>::empty());
    } else {
        assert(tag_at(s, i) is None);
        if occurs_at(s, open_tag(), i) {
            lemma_rendered_without_tags(s, cache, i + 2);
            assert(s.subrange(i, s.len() as int) =~= open_tag() + s.subrange(i + 2, s.len() as int));
        } else {
            lemma_rendered_without_tags(s, cache, i + 1);
            assert(s.subrange(i, s.len() as int) =~= seq![s[i]] + s.subrange(i + 1, s.len() as int));
        }
    }
}

/// A body with no well-formed mention tag renders as it is, whatever the
/// name cache holds (stray `<@` and `</@>` included).
pub proof fn law_render_without_tags(s: Seq<char>, cache: Map<Seq<char>, Seq<char>>)
    requires
        forall|j: int| 0 <= j < s.len() ==> #[trigger] tag_at(s, j) is None,
    ensures
        rendered_from(s, cache, 0) == s,
{
    lemma_rendered_without_tags(s, cache, 0);
    assert(s.subrange(0, s.len() as int) =~= s);
}

proof fn lemma_span_text_concat(a: Seq<(Seq<char>, bool)>, b: Seq<(Seq<char>, bool)>)
    ensures
        span_text(a + b) == span_text(a) + span_text(b),
    decreases b.len(),
{
    if b.len() == 0 {
        assert(a + b =~= a);
        assert(span_text(b) =~= Seq::<char>::empty());
        assert(span_text(a) + span_text(b) =~= span_text(a));
    } else {
        lemma_span_text_concat(a, b.drop_last());
        assert((a + b).drop_last() =~= a + b.drop_last());
        assert((a + b).last() == b.last());
        assert(span_text(a) + span_text(b) =~= (span_text(a) + span_text(b.drop_last())) + b.last().0);
    }
}

proof fn lemma_span_text_one(x: (Seq<char>, bool))
    ensures
        span_text(seq![x]) == x.0,
{
    let one = seq![x];
    assert(one.drop_last() =~= Seq::<(Seq<char>, bool)>::empty());
    assert(span_text(one.drop_last()) == Seq::<char>::empty());
    assert(one.last() == x);
    assert(span_text(one) == span_text(one.drop_last()) + one.last().0);
    assert(Seq::<char>::empty() + x.0 =~= x.0);
}

proof fn lemma_spans_cover(s: Seq<char>, names: Seq<Seq<char>>, i: int, seg: int)
    requires
        0 <= seg <= i <= s.len(),
    ensures
        span_text(spans_from(s, names, i, seg)) == s.subrange(seg, s.len() as int),
    decreases s.len() - i,
{
    if i == s.len() {
        if seg < s.len() {
            lemma_span_text_one((s.subrange(seg, s.len() as int), false));
        } else {
            assert(s.subrange(seg, s.len() as int) =~= Seq::<char>::empty());
        }
    } else if s[i] == '@' && names_match(names, s.subrange(i + 1, word_end(s, i + 1))) {
        lemma_word_end(s, i + 1);
        let we = word_end(s, i + 1);
        let head: Seq<(Seq<char>, bool)> = if seg < i { seq![(s.subrange(seg, i), false)] } else { Seq::empty() };
        let mid = seq![(s.subrange(i, we), true)];
        let rest = spans_from(s, names, we, we);
        lemma_spans_cover(s, names, we, we);
        lemma_span_text_concat(head + mid, rest);
        lemma_span_text_concat(head, mid);
        lemma_span_text_one((s.subrange(i, we), true));
        if seg < i {
            lemma_span_text_one((s.subrange(seg, i), false));
        } else {
            assert(span_text(head) =~= Seq::<char>::empty());
        }
        assert(s.subrange(seg, s.len() as int) =~= s.subrange(seg, i) + s.subrange(i, we) + s.subrange(we, s.len() as int));
        assert(span_text(head) + span_text(mid) + span_text(rest) =~= s.subrange(seg, s.len() as int));
    } else {
        lemma_spans_cover(s, names, i + 1, seg);
    }
}

/// Joining the texts of the spans of a line gives the line back: splitting
/// only marks where mentions are.
pub proof fn law_spans_cover_line(line: Seq<char>, names: Seq<Seq<char>>)
    ensures
        span_text(body_spans(line, names)) == line,
{
    if names.len() == 0 {
        lemma_span_text_one((line, false));
    } else {
        lemma_spans_cover(line, names, 0, 0);
        assert(line.subrange(0, line.len() as int) =~= line);
        if spans_from(line, names, 0, 0).len() == 0 {
            lemma_span_text_one((line, false));
        }
    }
}

/// `@name` appears somewhere in `t`.
pub open spec fn shows_mention(t: Seq<char>, name: Seq<char>) -> bool {
    exists|j: int| occurs_at(t, seq!['@'] + name, j)
}

proof fn lemma_occurs_shift(a: Seq<char>, b: Seq<char>, p: Seq<char>, j: int)
    requires
        occurs_at(b, p, j),
    ensures
        occurs_at(a + b, p, j + a.len()),
{
    assert((a + b).subrange(j + a.len(), j + a.len() + p.len()) =~= b.subrange(j, j + p.len()));
}

proof fn lemma_mentions_shown(s: Seq<char>, cache: Map<Seq<char>, Seq<char>>, i: int)
    ensures
        forall|k: int| 0 <= k < mentioned_from(s, cache, i).len() ==> {
            let n = #[trigger] mentioned_from(s, cache, i)[k];
            n.len() > 0 && shows_mention(rendered_from(s, cache, i), n)
        },
    decreases s.len() - i,
{
    if 0 <= i < s.len() {
        let r = rendered_from(s, cache, i);
        let m = mentioned_from(s, cache, i);
        match tag_at(s, i) {
            Some((uuid, name, next)) => {
                lemma_tag_at(s, i);
                lemma_mentions_shown(s, cache, next);
                let nm = resolve_name(cache, uuid, name);
                let head = seq!['@'] + nm;
                let rest_r = rendered_from(s, cache, next);
                let rest_m = mentioned_from(s, cache, next);
                let first: Seq<Seq<char>> = if nm.len() > 0 { seq![nm] } else { Seq::empty() };
                assert(r == head + rest_r);
                assert(m == first + rest_m);
                assert forall|k: int| 0 <= k < m.len() implies {
                    let n = #[trigger] m[k];
                    n.len() > 0 && shows_mention(r, n)
                } by {
                    if k < first.len() {
                        assert(m[k] == nm);
                        assert(r.subrange(0, 1 + nm.len() as int) =~= seq!['@'] + nm);
                        assert(occurs_at(r, seq!['@'] + nm, 0));
                    } else {
                        let n = rest_m[k - first.len()];
                        assert(m[k] == n);
                        let j = choose|j: int| occurs_at(rest_r, seq!['@'] + n, j);
                        lemma_occurs_shift(head, rest_r, seq!['@'] + n, j);
                    }
                }
            },
            None => {
                let step: int = if occurs_at(s, open_tag(), i) { 2 } else { 1 };
                lemma_mentions_shown(s, cache, i + step);
                let head: Seq<char> = if occurs_at(s, open_tag(), i) { open_tag() } else { seq![s[i]] };
                let rest_r = rendered_from(s, cache, i + step);
                assert(r == head + rest_r);
                assert(m == mentioned_from(s, cache, i + step));
                assert forall|k: int| 0 <= k < m.len() implies {
                    let n = #[trigger] m[k];
                    n.len() > 0 && shows_mention(r, n)
                } by {
                    let n = m[k];
                    let j = choose|j: int| occurs_at(rest_r, seq!['@'] + n, j);
                    lemma_occurs_shift(head, rest_r, seq!['@'] + n, j);
                }
            },
        }
    }
}

proof fn lemma_no_tags_no_mentions(s: Seq<char>, cache: Map<Seq<char>, Seq<char>>, i: int)
    requires
        forall|j: int| 0 <= j < s.len() ==> !occurs_at(s, open_tag(), j),
    ensures
        mentioned_from(s, cache, i) == Seq::<Seq<char>>::empty(),
    decreases s.len() - i,
{
    if 0 <= i < s.len() {
        assert(!occurs_at(s, open_tag(), i));
        lemma_no_tags_no_mentions(s, cache, i + 1);
    }
}

/// How many times `<@` occurs in `s` at or after `i`.
pub open spec fn open_tags_from(s: Seq<char>, i: int) -> nat
    decreases s.len() - i,
{
    if i < 0 || i >= s.len() {
        0
    } else {
        (if occurs_at(s, open_tag(), i) { 1nat } else { 0nat }) + open_tags_from(s, i + 1)
    }
}

proof fn lemma_open_tags_monotone(s: Seq<char>, i: int, j: int)
    requires
        0 <= i <= j,
    ensures
        open_tags_from(s, j) <= open_tags_from(s, i),
    decreases j - i,
{
    if i < j {
        lemma_open_tags_monotone(s, i + 1, j);
    }
}

proof fn lemma_mentions_counted(s: Seq<char>, cache: Map<Seq<char>, Seq<char>>, i: int)
    requires
        0 <= i,
    ensures
        mentioned_from(s, cache, i).len() <= open_tags_from(s, i),
    decreases s.len() - i,
{
    if i < s.len() {
        match tag_at(s, i) {
            Some((uuid, name, next)) => {
                lemma_tag_at(s, i);
                lemma_mentions_counted(s, cache, next);
                lemma_open_tags_monotone(s, i + 1, next);
            },
            None => {
                if occurs_at(s, open_tag(), i) {
                    lemma_mentions_counted(s, cache, i + 2);
                    lemma_open_tags_monotone(s, i + 1, i + 2);
                } else {
                    lemma_mentions_counted(s, cache, i + 1);
                }
            },
        }
    }
}

/// Law: every name `extract_mentioned_names` finds is non-empty and shows
/// as `@name` in what `render_body` makes of the same body and cache (same
/// tags, same resolution); there are no more names than occurrences of `<@`,
/// so a body without `<@` mentions nobody.
pub proof fn law_mentioned_names_are_rendered(body: Seq<char>, cache: Map<Seq<char>, Seq<char>>)
    ensures
        forall|k: int| 0 <= k < mentioned_from(body, cache, 0).len() ==> {
            let n = #[trigger] mentioned_from(body, cache, 0)[k];
            n.len() > 0 && shows_mention(rendered_from(body, cache, 0), n)
        },
        (forall|j: int| 0 <= j < body.len() ==> !occurs_at(body, open_tag(), j))
            ==> mentioned_from(body, cache, 0).len() == 0,
        mentioned_from(body, cache, 0).len() <= open_tags_from(body, 0),
{
    lemma_mentions_shown(body, cache, 0);
    lemma_mentions_counted(body, cache, 0);
    if forall|j: int| 0 <= j < body.len() ==> !occurs_at(body, open_tag(), j) {
        lemma_no_tags_no_mentions(body, cache, 0);
    }
}

} // verus!
