//! Text layout for the message list: indentation, word wrapping at display
//! width, how many lines a row takes, and the visible width of terminal text.

use vstd::prelude::*;

use super::render_rows::{RenderRow, RowView};
use crate::channel::protocol::{decimal, u64_to_decimal};
use crate::text::{char_whitespace, chars_of, is_whitespace, push_char, push_str, string_from_chars};

verus! {

/// The display width of a character (`UnicodeWidthChar::width`): `None` for
/// a control character.
pub uninterp spec fn char_display_width(c: char) -> Option<usize>;

/// The display width of a string (`UnicodeWidthStr::width`), which is not
/// always the sum of its characters' widths (emoji and script ligatures).
pub uninterp spec fn str_display_width(s: Seq<char>) -> usize;

/// Printable ASCII: space to tilde.
pub open spec fn printable_ascii(c: char) -> bool {
    ' ' <= c && c <= '~'
}

/// `UnicodeWidthChar::width` of unicode-width: `None` exactly for the C0 and
/// C1 control characters (below U+0020, and U+007F to U+009F), one column for
/// printable ASCII, and a width of at most 3 columns (the crate's tables give
/// widths 0 to 3).
#[verifier::external_body]
fn char_width(c: char) -> (r: Option<usize>)
    ensures
        r == char_display_width(c),
        r matches Some(w) ==> w <= 3,
        printable_ascii(c) ==> r == Some(1usize),
        r is None <==> (c < ' ' || ('\u{7F}' <= c && c < '\u{A0}')),
{
    unicode_width::UnicodeWidthChar::width(c)
}

/// `UnicodeWidthStr::width` of unicode-width; a string of printable ASCII
/// takes one column per character.
#[verifier::external_body]
fn str_width(s: &str) -> (r: usize)
    ensures
        r == str_display_width(s@),
        (forall|i: int| 0 <= i < s@.len() ==> printable_ascii(#[trigger] s@[i])) ==> r == s@.len(),
{
    unicode_width::UnicodeWidthStr::width(s)
}

/// Columns taken by the indentation of a row at `indent`.
pub open spec fn indent_cols(indent: u8) -> usize {
    if indent == 0 { 0 } else if indent == 1 { 5 } else { 8 }
}

/// Columns taken by the indentation of a row at `indent`.
pub fn indent_width(indent: u8) -> (r: usize)
    ensures
        r == indent_cols(indent),
{
    if indent == 0 { 0 } else if indent == 1 { 5 } else { 8 }
}

/// The indentation drawn before a row at `indent`.
pub fn build_indent(indent: u8) -> (r: String)
    ensures
        r@ == (if indent == 0 { ""@ } else if indent == 1 { "  \u{2514}\u{2500} "@ } else { "  \u{2502}  \u{2514}\u{2500} "@ }),
{
    let mut r = String::new();
    if indent == 1 {
        push_str(&mut r, "  \u{2514}\u{2500} ");
    } else if indent > 1 {
        push_str(&mut r, "  \u{2502}  \u{2514}\u{2500} ");
    } else {
        proof {
            reveal_strlit("");
            assert(r@ =~= ""@);
        }
    }
    r
}

/// The most lines a row may take.
pub const AREA_HEIGHT_CAP: usize = 20;

/// The most lines a row may take.
pub fn area_height_cap() -> (r: usize)
    ensures
        r == AREA_HEIGHT_CAP,
{
    AREA_HEIGHT_CAP
}

/// The marker put where the cursor is, so that wrapping accounts for it.
pub open spec fn cursor_marker() -> char {
    '\u{1}'
}

/// `s` with the cursor marker at character `cursor` (at the end when the
/// cursor lies past it).
pub open spec fn with_cursor_marker(s: Seq<char>, cursor: int) -> Seq<char> {
    let c = if cursor < s.len() { cursor } else { s.len() as int };
    s.take(c) + seq![cursor_marker()] + s.skip(c)
}

/// `s` with the cursor marker inserted at character `cursor`.
pub fn insert_cursor_marker(s: &str, cursor: usize) -> (r: String)
    ensures
        r@ == with_cursor_marker(s@, cursor as int),
{
    let chars = chars_of(s);
    let c = if cursor < chars.len() { cursor } else { chars.len() };
    let mut r = string_from_chars(chars.as_slice(), 0, c);
    push_char(&mut r, '\u{1}');
    let tail = string_from_chars(chars.as_slice(), c, chars.len());
    push_str(&mut r, tail.as_str());
    proof {
        assert(chars@.subrange(0, c as int) =~= chars@.take(c as int));
        assert(chars@.subrange(c as int, chars@.len() as int) =~= chars@.skip(c as int));
    }
    r
}

// ---------------------------------------------------------------------------
// Word wrapping
// ---------------------------------------------------------------------------

/// The words of `s`: maximal runs of non-white-space characters.
pub open spec fn words_of(s: Seq<char>) -> Seq<Seq<char>> {
    let st = split_state(s);
    if st.1.len() > 0 { st.0.push(st.1) } else { st.0 }
}

/// Scanning `s`: the finished words and the word under way.
pub open spec fn split_state(s: Seq<char>) -> (Seq<Seq<char>>, Seq<char>)
    decreases s.len(),
{
    if s.len() == 0 {
        (Seq::empty(), Seq::empty())
    } else {
        let st = split_state(s.drop_last());
        let c = s.last();
        if char_whitespace(c) {
            if st.1.len() > 0 { (st.0.push(st.1), Seq::empty()) } else { st }
        } else {
            (st.0, st.1.push(c))
        }
    }
}

/// The words of `s` (`str::split_whitespace`).
pub fn split_words(s: &str) -> (r: Vec<Vec<char>>)
    ensures
        r@.map_values(|w: Vec<char>| w@) == words_of(s@),
{
    let chars = chars_of(s);
    let mut done: Vec<Vec<char>> = Vec::new();
    let mut cur: Vec<char> = Vec::new();
    let mut i: usize = 0;
    while i < chars.len()
        invariant
            chars@ == s@,
            i <= chars@.len(),
            (done@.map_values(|w: Vec<char>| w@), cur@) == split_state(chars@.take(i as int)),
        decreases chars@.len() - i,
    {
        proof {
            assert(chars@.take(i + 1).drop_last() =~= chars@.take(i as int));
            assert(chars@.take(i + 1).last() == chars@[i as int]);
        }
        let c = chars[i];
        let ghost before = done@.map_values(|w: Vec<char>| w@);
        if is_whitespace(c) {
            if cur.len() > 0 {
                let mut w: Vec<char> = Vec::new();
                std::mem::swap(&mut w, &mut cur);
                done.push(w);
                proof {
                    assert(done@.map_values(|w: Vec<char>| w@) =~= before.push(done@.last()@));
                }
            }
        } else {
            cur.push(c);
        }
        i += 1;
    }
    proof {
        assert(chars@.take(chars@.len() as int) =~= chars@);
    }
    if cur.len() > 0 {
        let ghost before = done@.map_values(|w: Vec<char>| w@);
        done.push(cur);
        proof {
            assert(done@.map_values(|w: Vec<char>| w@) =~= before.push(done@.last()@));
        }
    }
    done
}

/// The state of wrapping: finished lines, the line under way and the
/// columns it uses.
pub struct WrapState {
    pub lines: Seq<Seq<char>>,
    pub current: Seq<char>,
    pub col: int,
}

/// Columns available on line `idx`: `first` on the first line, `cont` on
/// the others, at least 1.
pub open spec fn avail_at(idx: int, first: int, cont: int) -> int {
    let w = if idx == 0 { first } else { cont };
    if w < 1 { 1 } else { w }
}

/// The width of a character, control characters counting 0.
pub open spec fn char_cols(c: char) -> int {
    match char_display_width(c) {
        Some(w) => w as int,
        None => 0,
    }
}

/// Put one character of an over-long word: break the line first when the
/// character does not fit and the line is not empty.
pub open spec fn break_char(st: WrapState, c: char, first: int, cont: int) -> WrapState {
    let w = avail_at(st.lines.len() as int, first, cont);
    let st1 = if st.col + char_cols(c) > w && st.col > 0 {
        WrapState { lines: st.lines.push(st.current), current: Seq::empty(), col: 0 }
    } else {
        st
    };
    WrapState { lines: st1.lines, current: st1.current.push(c), col: st1.col + char_cols(c) }
}

/// Put the characters of an over-long word one by one.
pub open spec fn break_word(st: WrapState, word: Seq<char>, first: int, cont: int) -> WrapState
    decreases word.len(),
{
    if word.len() == 0 {
        st
    } else {
        break_char(break_word(st, word.drop_last(), first, cont), word.last(), first, cont)
    }
}

/// Put a word on the line under way: after a space when it fits, else on a
/// new line; a word wider than a whole line is broken by characters.
pub open spec fn place_word(st: WrapState, word: Seq<char>, first: int, cont: int) -> WrapState {
    let ww = str_display_width(word) as int;
    let w = avail_at(st.lines.len() as int, first, cont);
    if st.col == 0 {
        if ww <= w {
            WrapState { lines: st.lines, current: st.current + word, col: ww }
        } else {
            break_word(st, word, first, cont)
        }
    } else if st.col + 1 + ww <= w {
        WrapState { lines: st.lines, current: st.current + seq![' '] + word, col: st.col + 1 + ww }
    } else {
        let st2 = WrapState { lines: st.lines.push(st.current), current: Seq::empty(), col: 0 };
        if ww <= avail_at(st2.lines.len() as int, first, cont) {
            WrapState { lines: st2.lines, current: word, col: ww }
        } else {
            break_word(st2, word, first, cont)
        }
    }
}

/// Wrapping the words `ws` from an empty first line.
pub open spec fn wrap_state(ws: Seq<Seq<char>>, first: int, cont: int) -> WrapState
    decreases ws.len(),
{
    if ws.len() == 0 {
        WrapState { lines: Seq::empty(), current: Seq::empty(), col: 0 }
    } else {
        place_word(wrap_state(ws.drop_last(), first, cont), ws.last(), first, cont)
    }
}

/// The lines of `text` wrapped to `first` columns on the first line and
/// `cont` after; there is always at least one line.
pub open spec fn wrapped(text: Seq<char>, first: int, cont: int) -> Seq<Seq<char>> {
    let st = wrap_state(words_of(text), first, cont);
    st.lines.push(st.current)
}

/// Columns on line `idx`.
fn avail(idx: usize, first: usize, cont: usize) -> (r: usize)
    ensures
        r as int == avail_at(idx as int, first as int, cont as int),
        r >= 1,
{
    let w = if idx == 0 { first } else { cont };
    if w < 1 { 1 } else { w }
}

/// The exec state of wrapping.
struct Wrapper {
    lines: Vec<String>,
    current: String,
    col: usize,
}

impl Wrapper {
    spec fn state(&self) -> WrapState {
        WrapState { lines: self.lines@.map_values(|l: String| l@), current: self.current@, col: self.col as int }
    }

    /// The line under way uses no more columns than the widest line (or a
    /// single wide character) allows.
    spec fn bounded(&self, first: usize, cont: usize) -> bool {
        self.col <= if first > cont { if first > 3 { first } else { 3 } } else { if cont > 3 { cont } else { 3 } }
    }

    fn new_line(&mut self)
        ensures
            final(self).state() == (WrapState { lines: old(self).state().lines.push(old(self).state().current), current: Seq::empty(), col: 0 }),
    {
        let mut line = String::new();
        std::mem::swap(&mut line, &mut self.current);
        let ghost before = self.lines@.map_values(|l: String| l@);
        self.lines.push(line);
        self.col = 0;
        assert(self.lines@.map_values(|l: String| l@) =~= before.push(old(self).current@));
    }

    fn break_word(&mut self, word: &[char], first: usize, cont: usize)
        requires
            old(self).bounded(first, cont),
        ensures
            final(self).state() == break_word(old(self).state(), word@, first as int, cont as int),
            final(self).bounded(first, cont),
    {
        let mut i: usize = 0;
        while i < word.len()
            invariant
                i <= word@.len(),
                self.bounded(first, cont),
                self.state() == break_word(old(self).state(), word@.take(i as int), first as int, cont as int),
            decreases word@.len() - i,
        {
            proof {
                assert(word@.take(i + 1).drop_last() =~= word@.take(i as int));
                assert(word@.take(i + 1).last() == word@[i as int]);
            }
            let c = word[i];
            let cw = match char_width(c) {
                Some(w) => w,
                None => 0,
            };
            let w = avail(self.lines.len(), first, cont);
            if (self.col as u128) + (cw as u128) > (w as u128) && self.col > 0 {
                self.new_line();
            }
            push_char(&mut self.current, c);
            self.col = if self.col == 0 { cw } else { self.col + cw };
            i += 1;
        }
        proof {
            assert(word@.take(word@.len() as int) =~= word@);
        }
    }
}

/// Wrap `text` into lines of at most `first_width` display columns on the
/// first line and `cont_width` after (at least one column each), breaking
/// between words and, for a word wider than a line, between characters.
pub fn wrap_words(text: &str, first_width: usize, cont_width: usize) -> (lines: Vec<String>)
    ensures
        lines@.map_values(|l: String| l@) == wrapped(text@, first_width as int, cont_width as int),
{
    let words = split_words(text);
    let mut st = Wrapper { lines: Vec::new(), current: String::new(), col: 0 };
    proof {
        assert(st.state().lines =~= Seq::<Seq<char>>::empty());
    }
    let mut i: usize = 0;
    let ghost ws = words@.map_values(|w: Vec<char>| w@);
    while i < words.len()
        invariant
            i <= words@.len(),
            ws == words@.map_values(|w: Vec<char>| w@),
            ws == words_of(text@),
            st.bounded(first_width, cont_width),
            st.state() == wrap_state(ws.take(i as int), first_width as int, cont_width as int),
        decreases words@.len() - i,
    {
        proof {
            assert(ws.take(i + 1).drop_last() =~= ws.take(i as int));
            assert(ws.take(i + 1).last() == words@[i as int]@);
        }
        let word = &words[i];
        let ws_str = string_from_chars(word.as_slice(), 0, word.len());
        proof {
            assert(word@.subrange(0, word@.len() as int) =~= word@);
        }
        let ww = str_width(ws_str.as_str());
        let w = avail(st.lines.len(), first_width, cont_width);
        let ghost old_st = st.state();
        if st.col == 0 {
            if ww <= w {
                push_str(&mut st.current, ws_str.as_str());
                st.col = ww;
                assert(st.state() =~= place_word(old_st, word@, first_width as int, cont_width as int));
            } else {
                st.break_word(word.as_slice(), first_width, cont_width);
            }
        } else if (st.col as u128) + 1 + (ww as u128) <= (w as u128) {
            push_char(&mut st.current, ' ');
            push_str(&mut st.current, ws_str.as_str());
            st.col = st.col + 1 + ww;
            assert(st.current@ =~= old_st.current + seq![' '] + word@);
            assert(st.state() =~= place_word(old_st, word@, first_width as int, cont_width as int));
        } else {
            st.new_line();
            let w2 = avail(st.lines.len(), first_width, cont_width);
            if ww <= w2 {
                push_str(&mut st.current, ws_str.as_str());
                st.col = ww;
                assert(st.current@ =~= word@);
                assert(st.state() =~= place_word(old_st, word@, first_width as int, cont_width as int));
            } else {
                st.break_word(word.as_slice(), first_width, cont_width);
            }
        }
        i += 1;
    }
    proof {
        assert(ws.take(words@.len() as int) =~= ws);
    }
    let ghost before = st.lines@.map_values(|l: String| l@);
    let Wrapper { mut lines, current, col: _ } = st;
    lines.push(current);
    assert(lines@.map_values(|l: String| l@) =~= before.push(lines@.last()@));
    lines
}

// ---------------------------------------------------------------------------
// Row heights
// ---------------------------------------------------------------------------

/// `a - b`, or 0 when `b` is larger.
pub open spec fn sat_sub(a: int, b: int) -> int {
    if a >= b { a - b } else { 0 }
}

/// At most `AREA_HEIGHT_CAP` lines, as a row height.
pub open spec fn capped(n: int) -> u16 {
    (if n > AREA_HEIGHT_CAP { AREA_HEIGHT_CAP as int } else { n }) as u16
}

/// The text ` sending...` shown after a message not yet acknowledged.
pub open spec fn pending_suffix(pending: bool) -> Seq<char> {
    if pending { " sending..."@ } else { Seq::empty() }
}

/// How many terminal lines a row takes at `width` columns: an input row
/// being edited wraps its text (with the cursor) after its indentation and
/// a two-column prompt; a message wraps its body (and ` sending...` while
/// pending) after its indentation, author and two spaces, keeping room on the
/// first line for the folded-replies tag and the timestamp; every other row
/// takes one line. Never more than twenty lines.
pub open spec fn row_height(r: RowView, width: u16) -> u16 {
    match r {
        RowView::Input { indent, is_active, content, cursor, .. } => if !is_active || width == 0 {
            1
        } else {
            let prefix = indent_cols(indent) + 2;
            let a = if sat_sub(width as int, prefix) < 1 { 1 } else { sat_sub(width as int, prefix) };
            let n = wrapped(with_cursor_marker(content, cursor as int), a, a).len() as int;
            capped(if n < 1 { 1 } else { n })
        },
        RowView::Message { indent, author, body, timestamp, is_pending, collapsed_sub_count, .. } => if width == 0 {
            1
        } else {
            let prefix = indent_cols(indent) + author.len() + 2;
            let tag = match collapsed_sub_count { Some(n) => 12 + decimal(n as nat).len(), None => 0 };
            let ts = tag + 2 + timestamp.len();
            let first = sat_sub(width as int, prefix + ts);
            let cont = if sat_sub(width as int, prefix) < 1 { 1 } else { sat_sub(width as int, prefix) };
            if first == 0 {
                1
            } else {
                capped(wrapped(body + pending_suffix(is_pending), first, cont).len() as int)
            }
        },
        _ => 1,
    }
}

/// How many terminal lines `row` takes at `width` columns.
pub fn row_visual_height(row: &RenderRow, width: u16) -> (r: u16)
    ensures
        r == row_height(row@, width),
{
    match row {
        RenderRow::Input { indent, is_active, content, cursor, .. } => {
            if !*is_active || width == 0 {
                return 1;
            }
            let prefix = indent_width(*indent) + 2;
            let w = width as usize;
            let a0 = if w >= prefix { w - prefix } else { 0 };
            let a = if a0 < 1 { 1 } else { a0 };
            let marked = insert_cursor_marker(content.as_str(), *cursor);
            let n = wrap_words(marked.as_str(), a, a).len();
            let n1 = if n < 1 { 1 } else { n };
            (if n1 > AREA_HEIGHT_CAP { AREA_HEIGHT_CAP } else { n1 }) as u16
        },
        RenderRow::Message { indent, author, body, timestamp, is_pending, collapsed_sub_count, .. } => {
            if width == 0 {
                return 1;
            }
            let w = width as usize;
            let author_len = chars_of(author.as_str()).len();
            let ts_chars = chars_of(timestamp.as_str()).len();
            let tag: u128 = match collapsed_sub_count {
                Some(n) => 12 + chars_of(u64_to_decimal(*n as u64).as_str()).len() as u128,
                None => 0,
            };
            let prefix: u128 = indent_width(*indent) as u128 + author_len as u128 + 2;
            let ts: u128 = tag + 2 + ts_chars as u128;
            let first: u128 = if (w as u128) >= prefix + ts { w as u128 - (prefix + ts) } else { 0 };
            let c0: u128 = if (w as u128) >= prefix { w as u128 - prefix } else { 0 };
            let cont: u128 = if c0 < 1 { 1 } else { c0 };
            if first == 0 {
                return 1;
            }
            let mut full = body.clone();
            if *is_pending {
                push_str(&mut full, " sending...");
            } else {
                proof {
                    assert(full@ =~= body@ + pending_suffix(false));
                }
            }
            let n = wrap_words(full.as_str(), first as usize, cont as usize).len();
            (if n > AREA_HEIGHT_CAP { AREA_HEIGHT_CAP } else { n }) as u16
        },
        _ => 1,
    }
}

/// Unread rows counted, and whether one of them mentions the user.
pub open spec fn unread_summary(rows: Seq<RowView>) -> (int, bool)
    decreases rows.len(),
{
    if rows.len() == 0 {
        (0, false)
    } else {
        let (n, m) = unread_summary(rows.drop_last());
        let (u, mm) = match rows.last() {
            RowView::Message { is_unread, mentions_me, .. } => (is_unread, is_unread && mentions_me),
            RowView::CollapsedThread { is_unread, mentions_me, .. } => (is_unread, is_unread && mentions_me),
            _ => (false, false),
        };
        (n + if u { 1int } else { 0int }, m || mm)
    }
}

/// Law: one row counts as unread exactly when it is an unread message or an
/// unread folded thread, and it raises the mention flag exactly when it is
/// such a row that also mentions the user; input and typing rows never count.
pub proof fn law_unread_of_one_row(r: RowView)
    ensures
        unread_summary(seq![r]) == match r {
            RowView::Message { is_unread, mentions_me, .. } => (if is_unread { 1int } else { 0int }, is_unread && mentions_me),
            RowView::CollapsedThread { is_unread, mentions_me, .. } => (if is_unread { 1int } else { 0int }, is_unread && mentions_me),
            _ => (0int, false),
        },
{
    assert(seq![r].drop_last() =~= Seq::<RowView>::empty());
    assert(unread_summary(Seq::<RowView>::empty()) == (0int, false));
    assert(seq![r].last() == r);
}

/// Law: counting the rows of `a` then `b` adds up: the unread count of the
/// rows together is the sum, and the mention flag is raised when either part
/// raises it.
pub proof fn law_unread_adds_up(a: Seq<RowView>, b: Seq<RowView>)
    ensures
        unread_summary(a + b).0 == unread_summary(a).0 + unread_summary(b).0,
        unread_summary(a + b).1 == (unread_summary(a).1 || unread_summary(b).1),
    decreases b.len(),
{
    if b.len() == 0 {
        assert(a + b =~= a);
    } else {
        law_unread_adds_up(a, b.drop_last());
        assert((a + b).drop_last() =~= a + b.drop_last());
        assert((a + b).last() == b.last());
    }
}

/// Law: the mention flag is raised exactly when some row is an unread
/// message or unread folded thread that mentions the user, and the count is
/// zero exactly when no message or folded thread is unread.
pub proof fn law_unread_flag_and_zero(rows: Seq<RowView>)
    ensures
        unread_summary(rows).1 <==> exists|j: int| 0 <= j < rows.len() && match #[trigger] rows[j] {
            RowView::Message { is_unread, mentions_me, .. } => is_unread && mentions_me,
            RowView::CollapsedThread { is_unread, mentions_me, .. } => is_unread && mentions_me,
            _ => false,
        },
        unread_summary(rows).0 == 0 <==> forall|j: int| 0 <= j < rows.len() ==> match #[trigger] rows[j] {
            RowView::Message { is_unread, .. } => !is_unread,
            RowView::CollapsedThread { is_unread, .. } => !is_unread,
            _ => true,
        },
        0 <= unread_summary(rows).0 <= rows.len(),
    decreases rows.len(),
{
    if rows.len() > 0 {
        let pre = rows.drop_last();
        law_unread_flag_and_zero(pre);
        assert forall|j: int| 0 <= j < pre.len() implies pre[j] == rows[j] by {}
        let last = rows.len() - 1;
        assert(rows[last] == rows.last());
        if unread_summary(rows).1 {
            if !unread_summary(pre).1 {
                assert(match rows[last] {
                    RowView::Message { is_unread, mentions_me, .. } => is_unread && mentions_me,
                    RowView::CollapsedThread { is_unread, mentions_me, .. } => is_unread && mentions_me,
                    _ => false,
                });
            } else {
                let j = choose|j: int| 0 <= j < pre.len() && match #[trigger] pre[j] {
                    RowView::Message { is_unread, mentions_me, .. } => is_unread && mentions_me,
                    RowView::CollapsedThread { is_unread, mentions_me, .. } => is_unread && mentions_me,
                    _ => false,
                };
                assert(rows[j] == pre[j]);
            }
        }
        if exists|j: int| 0 <= j < rows.len() && match #[trigger] rows[j] {
            RowView::Message { is_unread, mentions_me, .. } => is_unread && mentions_me,
            RowView::CollapsedThread { is_unread, mentions_me, .. } => is_unread && mentions_me,
            _ => false,
        } {
            let j = choose|j: int| 0 <= j < rows.len() && match #[trigger] rows[j] {
                RowView::Message { is_unread, mentions_me, .. } => is_unread && mentions_me,
                RowView::CollapsedThread { is_unread, mentions_me, .. } => is_unread && mentions_me,
                _ => false,
            };
            if j < pre.len() {
                assert(pre[j] == rows[j]);
            }
        }
        if unread_summary(rows).0 == 0 {
            assert forall|j: int| 0 <= j < rows.len() implies match #[trigger] rows[j] {
                RowView::Message { is_unread, .. } => !is_unread,
                RowView::CollapsedThread { is_unread, .. } => !is_unread,
                _ => true,
            } by {
                if j < pre.len() {
                    assert(pre[j] == rows[j]);
                }
            }
        }
        if forall|j: int| 0 <= j < rows.len() ==> match #[trigger] rows[j] {
            RowView::Message { is_unread, .. } => !is_unread,
            RowView::CollapsedThread { is_unread, .. } => !is_unread,
            _ => true,
        } {
            assert forall|j: int| 0 <= j < pre.len() implies match #[trigger] pre[j] {
                RowView::Message { is_unread, .. } => !is_unread,
                RowView::CollapsedThread { is_unread, .. } => !is_unread,
                _ => true,
            } by {
                assert(pre[j] == rows[j]);
            }
            assert(match rows[last] {
                RowView::Message { is_unread, .. } => !is_unread,
                RowView::CollapsedThread { is_unread, .. } => !is_unread,
                _ => true,
            });
        }
    }
}

/// How many rows are unread, and whether an unread one mentions the user.
pub fn count_unread_and_mentions(rows: &[RenderRow]) -> (r: (usize, bool))
    ensures
        (r.0 as int, r.1) == unread_summary(rows@.map_values(|x: RenderRow| x@)),
{
    let ghost v = rows@.map_values(|x: RenderRow| x@);
    let mut count: usize = 0;
    let mut mention = false;
    let mut i: usize = 0;
    while i < rows.len()
        invariant
            i <= rows@.len(),
            v == rows@.map_values(|x: RenderRow| x@),
            (count as int, mention) == unread_summary(v.take(i as int)),
            count <= i,
        decreases rows@.len() - i,
    {
        proof {
            assert(v.take(i + 1).drop_last() =~= v.take(i as int));
            assert(v.take(i + 1).last() == rows@[i as int]@);
        }
        let (u, m) = match &rows[i] {
            RenderRow::Message { is_unread, mentions_me, .. } => (*is_unread, *is_unread && *mentions_me),
            RenderRow::CollapsedThread { is_unread, mentions_me, .. } => (*is_unread, *is_unread && *mentions_me),
            _ => (false, false),
        };
        if u {
            count += 1;
        }
        mention = mention || m;
        i += 1;
    }
    proof {
        assert(v.take(rows@.len() as int) =~= v);
    }
    (count, mention)
}

/// The total of `heights[lo..hi]`.
pub open spec fn lines_between(heights: Seq<u16>, lo: int, hi: int) -> int
    decreases hi - lo,
{
    if hi <= lo { 0 } else { lines_between(heights, lo, hi - 1) + heights[hi - 1] }
}

proof fn lemma_lines_between_grows(heights: Seq<u16>, lo: int, hi: int)
    requires
        lo <= hi,
    ensures
        lines_between(heights, lo - 1, hi) == heights[lo - 1] + lines_between(heights, lo, hi),
    decreases hi - lo,
{
    if hi > lo {
        lemma_lines_between_grows(heights, lo, hi - 1);
        assert(lines_between(heights, lo - 1, hi) == lines_between(heights, lo - 1, hi - 1) + heights[hi - 1]);
        assert(lines_between(heights, lo, hi) == lines_between(heights, lo, hi - 1) + heights[hi - 1]);
    } else {
        reveal_with_fuel(lines_between, 2);
    }
}

/// The first row drawn when row `selected` is selected and the rows take
/// `heights[i]` lines each: walking up from the selection, every row above
/// it whose lines still fit within half of the `visible_height` lines.
pub fn scroll_offset(heights: &[u16], selected: usize, visible_height: u16) -> (r: usize)
    requires
        selected <= heights@.len(),
    ensures
        r <= selected,
        lines_between(heights@, r as int, selected as int) <= visible_height / 2,
        r == 0 || lines_between(heights@, r - 1, selected as int) > visible_height / 2,
{
    let mid: u32 = (visible_height / 2) as u32;
    let mut offset = selected;
    let mut above: u32 = 0;
    while offset > 0
        invariant
            offset <= selected <= heights@.len(),
            above as int == lines_between(heights@, offset as int, selected as int),
            above <= mid,
            mid == visible_height / 2,
        ensures
            offset <= selected,
            above as int == lines_between(heights@, offset as int, selected as int),
            above <= mid,
            offset == 0 || lines_between(heights@, offset - 1, selected as int) > mid,
        decreases offset,
    {
        let h = heights[offset - 1] as u32;
        proof {
            lemma_lines_between_grows(heights@, offset as int, selected as int);
        }
        if above + h > mid {
            break;
        }
        above = above + h;
        offset = offset - 1;
    }
    offset
}

// ---------------------------------------------------------------------------
// Laws of wrapping
// ---------------------------------------------------------------------------

/// `s` without its white space.
pub open spec fn non_space(s: Seq<char>) -> Seq<char>
    decreases s.len(),
{
    if s.len() == 0 {
        s
    } else {
        non_space(s.drop_last()) + if char_whitespace(s.last()) { Seq::empty() } else { seq![s.last()] }
    }
}

/// The lines `ls`, each without its white space, one after the other.
pub open spec fn lines_non_space(ls: Seq<Seq<char>>) -> Seq<char>
    decreases ls.len(),
{
    if ls.len() == 0 { Seq::empty() } else { lines_non_space(ls.drop_last()) + non_space(ls.last()) }
}

/// The words `ws`, one after the other.
pub open spec fn joined(ws: Seq<Seq<char>>) -> Seq<char>
    decreases ws.len(),
{
    if ws.len() == 0 { Seq::empty() } else { joined(ws.drop_last()) + ws.last() }
}

/// No character of `s` is white space.
pub open spec fn space_free(s: Seq<char>) -> bool {
    forall|i: int| 0 <= i < s.len() ==> !char_whitespace(#[trigger] s[i])
}

proof fn lemma_non_space_add(a: Seq<char>, b: Seq<char>)
    ensures
        non_space(a + b) == non_space(a) + non_space(b),
    decreases b.len(),
{
    if b.len() == 0 {
        assert(a + b =~= a);
        assert(non_space(a) + non_space(b) =~= non_space(a));
    } else {
        lemma_non_space_add(a, b.drop_last());
        assert((a + b).drop_last() =~= a + b.drop_last());
        assert((a + b).last() == b.last());
    }
}

proof fn lemma_non_space_free(s: Seq<char>)
    requires
        space_free(s),
    ensures
        non_space(s) == s,
    decreases s.len(),
{
    if s.len() > 0 {
        assert(space_free(s.drop_last()));
        lemma_non_space_free(s.drop_last());
        assert(!char_whitespace(s[s.len() - 1]));
        assert(s.drop_last() + seq![s.last()] =~= s);
    }
}

proof fn lemma_lines_push(ls: Seq<Seq<char>>, x: Seq<char>)
    ensures
        lines_non_space(ls.push(x)) == lines_non_space(ls) + non_space(x),
{
    assert(ls.push(x).drop_last() =~= ls);
}

proof fn lemma_joined_push(ws: Seq<Seq<char>>, x: Seq<char>)
    ensures
        joined(ws.push(x)) == joined(ws) + x,
{
    assert(ws.push(x).drop_last() =~= ws);
}

/// The characters (white space aside) that a wrapping state holds.
pub open spec fn state_text(st: WrapState) -> Seq<char> {
    lines_non_space(st.lines) + non_space(st.current)
}

proof fn lemma_split_state(s: Seq<char>)
    ensures
        joined(split_state(s).0) + split_state(s).1 == non_space(s),
        forall|k: int| 0 <= k < split_state(s).0.len() ==> space_free(#[trigger] split_state(s).0[k]),
        space_free(split_state(s).1),
    decreases s.len(),
{
    if s.len() > 0 {
        lemma_split_state(s.drop_last());
        let st = split_state(s.drop_last());
        let c = s.last();
        if char_whitespace(c) {
            if st.1.len() > 0 {
                lemma_joined_push(st.0, st.1);
                assert(joined(st.0.push(st.1)) + Seq::<char>::empty() =~= joined(st.0) + st.1);
                assert(non_space(s) =~= non_space(s.drop_last()));
                assert forall|k: int| 0 <= k < st.0.push(st.1).len() implies space_free(#[trigger] st.0.push(st.1)[k]) by {
                    if k < st.0.len() {
                        assert(st.0.push(st.1)[k] == st.0[k]);
                    }
                }
            } else {
                assert(non_space(s) =~= non_space(s.drop_last()));
            }
        } else {
            assert(non_space(s) =~= non_space(s.drop_last()) + seq![c]);
            assert(joined(st.0) + st.1.push(c) =~= (joined(st.0) + st.1) + seq![c]);
            assert forall|i: int| 0 <= i < st.1.push(c).len() implies !char_whitespace(#[trigger] st.1.push(c)[i]) by {
                if i < st.1.len() {
                    assert(st.1.push(c)[i] == st.1[i]);
                }
            }
        }
    }
}

proof fn lemma_words_of(s: Seq<char>)
    ensures
        joined(words_of(s)) == non_space(s),
        forall|k: int| 0 <= k < words_of(s).len() ==> space_free(#[trigger] words_of(s)[k]),
{
    lemma_split_state(s);
    let st = split_state(s);
    if st.1.len() > 0 {
        lemma_joined_push(st.0, st.1);
        assert forall|k: int| 0 <= k < st.0.push(st.1).len() implies space_free(#[trigger] st.0.push(st.1)[k]) by {
            if k < st.0.len() {
                assert(st.0.push(st.1)[k] == st.0[k]);
            }
        }
    } else {
        assert(st.1 =~= Seq::<char>::empty());
        assert(joined(st.0) + st.1 =~= joined(st.0));
    }
}

proof fn lemma_new_line_text(st: WrapState)
    ensures
        state_text(WrapState { lines: st.lines.push(st.current), current: Seq::empty(), col: 0 }) == state_text(st),
{
    lemma_lines_push(st.lines, st.current);
    assert(non_space(Seq::<char>::empty()) =~= Seq::<char>::empty());
    assert(lines_non_space(st.lines) + non_space(st.current) + Seq::<char>::empty()
        =~= lines_non_space(st.lines) + non_space(st.current));
}

proof fn lemma_break_word_text(st: WrapState, word: Seq<char>, first: int, cont: int)
    requires
        space_free(word),
    ensures
        state_text(break_word(st, word, first, cont)) == state_text(st) + word,
    decreases word.len(),
{
    if word.len() == 0 {
        assert(state_text(st) + word =~= state_text(st));
    } else {
        assert(space_free(word.drop_last()));
        lemma_break_word_text(st, word.drop_last(), first, cont);
        let pre = break_word(st, word.drop_last(), first, cont);
        let c = word.last();
        assert(!char_whitespace(word[word.len() - 1]));
        let w = avail_at(pre.lines.len() as int, first, cont);
        let st1 = if pre.col + char_cols(c) > w && pre.col > 0 {
            WrapState { lines: pre.lines.push(pre.current), current: Seq::empty(), col: 0 }
        } else {
            pre
        };
        lemma_new_line_text(pre);
        assert(state_text(st1) == state_text(pre));
        lemma_non_space_add(st1.current, seq![c]);
        assert(non_space(seq![c]) =~= Seq::<char>::empty() + seq![c]) by {
            assert(seq![c].drop_last() =~= Seq::<char>::empty());
        }
        assert(st1.current.push(c) =~= st1.current + seq![c]);
        let res = break_char(pre, c, first, cont);
        assert(break_word(st, word, first, cont) == res);
        assert(res.lines == st1.lines && res.current == st1.current.push(c));
        assert(state_text(res) =~= state_text(st1) + seq![c]);
        assert(state_text(st) + word =~= (state_text(st) + word.drop_last()) + seq![c]);
    }
}

proof fn lemma_place_word_text(st: WrapState, word: Seq<char>, first: int, cont: int)
    requires
        space_free(word),
    ensures
        state_text(place_word(st, word, first, cont)) == state_text(st) + word,
{
    lemma_non_space_free(word);
    lemma_non_space_add(st.current, word);
    let st2 = WrapState { lines: st.lines.push(st.current), current: Seq::empty(), col: 0 };
    lemma_new_line_text(st);
    lemma_break_word_text(st, word, first, cont);
    lemma_break_word_text(st2, word, first, cont);
    lemma_non_space_add(st.current + seq![' '], word);
    lemma_non_space_add(st.current, seq![' ']);
    assert(non_space(seq![' ']) =~= Seq::<char>::empty()) by {
        assert(seq![' '].drop_last() =~= Seq::<char>::empty());
    }
    assert(state_text(st) + word =~= lines_non_space(st.lines) + (non_space(st.current) + word));
    assert(lines_non_space(st2.lines) + word =~= (lines_non_space(st.lines) + non_space(st.current)) + word) by {
        lemma_lines_push(st.lines, st.current);
    }
}

proof fn lemma_wrap_state_text(ws: Seq<Seq<char>>, first: int, cont: int)
    requires
        forall|k: int| 0 <= k < ws.len() ==> space_free(#[trigger] ws[k]),
    ensures
        state_text(wrap_state(ws, first, cont)) == joined(ws),
    decreases ws.len(),
{
    if ws.len() == 0 {
        let st = wrap_state(ws, first, cont);
        assert(lines_non_space(st.lines) =~= Seq::<char>::empty());
        assert(non_space(st.current) =~= Seq::<char>::empty());
        assert(state_text(st) =~= Seq::<char>::empty());
    } else {
        assert forall|k: int| 0 <= k < ws.drop_last().len() implies space_free(#[trigger] ws.drop_last()[k]) by {
            assert(ws.drop_last()[k] == ws[k]);
        }
        lemma_wrap_state_text(ws.drop_last(), first, cont);
        assert(space_free(ws[ws.len() - 1]));
        lemma_place_word_text(wrap_state(ws.drop_last(), first, cont), ws.last(), first, cont);
    }
}

/// Law: wrapping loses, adds and reorders nothing but white space: the lines,
/// white space taken out and put one after the other, are the text with its
/// white space taken out, whatever the widths.
pub proof fn law_wrapping_keeps_the_text(text: Seq<char>, first: int, cont: int)
    ensures
        lines_non_space(wrapped(text, first, cont)) == non_space(text),
{
    lemma_words_of(text);
    lemma_wrap_state_text(words_of(text), first, cont);
    let st = wrap_state(words_of(text), first, cont);
    lemma_lines_push(st.lines, st.current);
}

/// Every character of `w` takes one column.
pub open spec fn one_column_chars(w: Seq<char>) -> bool {
    forall|j: int| 0 <= j < w.len() ==> char_cols(#[trigger] w[j]) == 1
}

/// A wrapping state where each character takes one column: the line under
/// way uses as many columns as it has characters, and every line, finished
/// or not, stays within the columns of its position.
pub open spec fn fits(st: WrapState, first: int, cont: int) -> bool {
    &&& st.col == st.current.len()
    &&& st.current.len() <= avail_at(st.lines.len() as int, first, cont)
    &&& forall|i: int| 0 <= i < st.lines.len() ==> (#[trigger] st.lines[i]).len() <= avail_at(i, first, cont)
}

proof fn lemma_new_line_fits(st: WrapState, first: int, cont: int)
    requires
        fits(st, first, cont),
    ensures
        fits(WrapState { lines: st.lines.push(st.current), current: Seq::empty(), col: 0 }, first, cont),
{
    let l2 = st.lines.push(st.current);
    assert forall|i: int| 0 <= i < l2.len() implies (#[trigger] l2[i]).len() <= avail_at(i, first, cont) by {
        if i < st.lines.len() {
            assert(l2[i] == st.lines[i]);
        }
    }
}

proof fn lemma_break_word_fits(st: WrapState, word: Seq<char>, first: int, cont: int)
    requires
        fits(st, first, cont),
        one_column_chars(word),
    ensures
        fits(break_word(st, word, first, cont), first, cont),
    decreases word.len(),
{
    if word.len() > 0 {
        assert(one_column_chars(word.drop_last()));
        lemma_break_word_fits(st, word.drop_last(), first, cont);
        let pre = break_word(st, word.drop_last(), first, cont);
        let c = word.last();
        assert(char_cols(word[word.len() - 1]) == 1);
        let w = avail_at(pre.lines.len() as int, first, cont);
        if pre.col + char_cols(c) > w && pre.col > 0 {
            lemma_new_line_fits(pre, first, cont);
        }
    }
}

proof fn lemma_place_word_fits(st: WrapState, word: Seq<char>, first: int, cont: int)
    requires
        fits(st, first, cont),
        one_column_chars(word),
        str_display_width(word) == word.len(),
    ensures
        fits(place_word(st, word, first, cont), first, cont),
{
    lemma_break_word_fits(st, word, first, cont);
    lemma_new_line_fits(st, first, cont);
    let st2 = WrapState { lines: st.lines.push(st.current), current: Seq::empty(), col: 0 };
    lemma_break_word_fits(st2, word, first, cont);
    if st.col == 0 {
        assert(st.current =~= Seq::<char>::empty());
        assert(st.current + word =~= word);
    }
}

proof fn lemma_wrap_state_fits(ws: Seq<Seq<char>>, first: int, cont: int)
    requires
        forall|k: int| 0 <= k < ws.len() ==> one_column_chars(#[trigger] ws[k])
            && str_display_width(ws[k]) == ws[k].len(),
    ensures
        fits(wrap_state(ws, first, cont), first, cont),
    decreases ws.len(),
{
    if ws.len() > 0 {
        assert forall|k: int| 0 <= k < ws.drop_last().len() implies one_column_chars(#[trigger] ws.drop_last()[k])
            && str_display_width(ws.drop_last()[k]) == ws.drop_last()[k].len() by {
            assert(ws.drop_last()[k] == ws[k]);
        }
        lemma_wrap_state_fits(ws.drop_last(), first, cont);
        assert(one_column_chars(ws[ws.len() - 1]));
        lemma_place_word_fits(wrap_state(ws.drop_last(), first, cont), ws.last(), first, cont);
    }
}

/// Law: when every character takes one column and every word as many
/// columns as it has characters (as for printable ASCII), each wrapped line
/// holds at most as many characters as its width allows: `first` columns on
/// the first line, `cont` after, at least one.
pub proof fn law_wrapped_lines_fit(text: Seq<char>, first: int, cont: int)
    requires
        forall|k: int| 0 <= k < words_of(text).len() ==> one_column_chars(#[trigger] words_of(text)[k])
            && str_display_width(words_of(text)[k]) == words_of(text)[k].len(),
    ensures
        forall|i: int| 0 <= i < wrapped(text, first, cont).len()
            ==> (#[trigger] wrapped(text, first, cont)[i]).len() <= avail_at(i, first, cont),
{
    lemma_wrap_state_fits(words_of(text), first, cont);
    let st = wrap_state(words_of(text), first, cont);
    let ls = st.lines.push(st.current);
    assert forall|i: int| 0 <= i < ls.len() implies (#[trigger] ls[i]).len() <= avail_at(i, first, cont) by {
        if i < st.lines.len() {
            assert(ls[i] == st.lines[i]);
        }
    }
}

/// Words within `line` are separated by single spaces: every white-space
/// character of it is a space with a non-white-space character on each side.
pub open spec fn single_spaced(line: Seq<char>) -> bool {
    forall|j: int| 0 <= j < line.len() && char_whitespace(#[trigger] line[j]) ==> {
        &&& line[j] == ' '
        &&& 0 < j && j + 1 < line.len()
        &&& !char_whitespace(line[j - 1]) && !char_whitespace(line[j + 1])
    }
}

/// Every line of a wrapping state, finished or not, is single-spaced.
pub open spec fn spaced(st: WrapState) -> bool {
    &&& single_spaced(st.current)
    &&& forall|i: int| 0 <= i < st.lines.len() ==> single_spaced(#[trigger] st.lines[i])
}

proof fn lemma_spaced_append(a: Seq<char>, b: Seq<char>)
    requires
        single_spaced(a),
        space_free(b),
    ensures
        single_spaced(a + b),
{
    let ab = a + b;
    assert forall|j: int| 0 <= j < ab.len() && char_whitespace(#[trigger] ab[j]) implies {
        &&& ab[j] == ' '
        &&& 0 < j && j + 1 < ab.len()
        &&& !char_whitespace(ab[j - 1]) && !char_whitespace(ab[j + 1])
    } by {
        if j < a.len() {
            assert(ab[j] == a[j]);
            assert(char_whitespace(a[j]));
            assert(ab[j - 1] == a[j - 1]);
            assert(ab[j + 1] == a[j + 1]);
        } else {
            assert(ab[j] == b[j - a.len()]);
        }
    }
}

proof fn lemma_spaced_join(a: Seq<char>, b: Seq<char>)
    requires
        single_spaced(a),
        a.len() > 0,
        space_free(b),
        b.len() > 0,
    ensures
        single_spaced(a + seq![' '] + b),
{
    let t = a + seq![' '] + b;
    let n = a.len() as int;
    if char_whitespace(a[n - 1]) {
        assert(a[n - 1] == a[n - 1]);
        assert(false);
    }
    assert forall|j: int| 0 <= j < t.len() && char_whitespace(#[trigger] t[j]) implies {
        &&& t[j] == ' '
        &&& 0 < j && j + 1 < t.len()
        &&& !char_whitespace(t[j - 1]) && !char_whitespace(t[j + 1])
    } by {
        if j < n {
            assert(t[j] == a[j]);
            assert(char_whitespace(a[j]));
            assert(t[j - 1] == a[j - 1]);
            if j + 1 < n {
                assert(t[j + 1] == a[j + 1]);
            }
        } else if j == n {
            assert(t[j] == ' ');
            assert(t[j - 1] == a[n - 1]);
            assert(t[j + 1] == b[0]);
        } else {
            assert(t[j] == b[j - n - 1]);
        }
    }
}

proof fn lemma_new_line_spaced(st: WrapState)
    requires
        spaced(st),
    ensures
        spaced(WrapState { lines: st.lines.push(st.current), current: Seq::empty(), col: 0 }),
{
    let l2 = st.lines.push(st.current);
    assert forall|i: int| 0 <= i < l2.len() implies single_spaced(#[trigger] l2[i]) by {
        if i < st.lines.len() {
            assert(l2[i] == st.lines[i]);
        }
    }
}

proof fn lemma_break_word_spaced(st: WrapState, word: Seq<char>, first: int, cont: int)
    requires
        spaced(st),
        space_free(word),
    ensures
        spaced(break_word(st, word, first, cont)),
    decreases word.len(),
{
    if word.len() > 0 {
        assert(space_free(word.drop_last()));
        lemma_break_word_spaced(st, word.drop_last(), first, cont);
        let pre = break_word(st, word.drop_last(), first, cont);
        let c = word.last();
        assert(!char_whitespace(word[word.len() - 1]));
        lemma_new_line_spaced(pre);
        let w = avail_at(pre.lines.len() as int, first, cont);
        let st1 = if pre.col + char_cols(c) > w && pre.col > 0 {
            WrapState { lines: pre.lines.push(pre.current), current: Seq::empty(), col: 0 }
        } else {
            pre
        };
        assert(space_free(seq![c]));
        lemma_spaced_append(st1.current, seq![c]);
        assert(st1.current.push(c) =~= st1.current + seq![c]);
    }
}

proof fn lemma_place_word_spaced(st: WrapState, word: Seq<char>, first: int, cont: int)
    requires
        spaced(st),
        fits(st, first, cont),
        space_free(word),
        word.len() > 0,
    ensures
        spaced(place_word(st, word, first, cont)),
{
    lemma_break_word_spaced(st, word, first, cont);
    lemma_new_line_spaced(st);
    let st2 = WrapState { lines: st.lines.push(st.current), current: Seq::empty(), col: 0 };
    lemma_break_word_spaced(st2, word, first, cont);
    assert(single_spaced(Seq::<char>::empty()));
    lemma_spaced_append(Seq::<char>::empty(), word);
    assert(Seq::<char>::empty() + word =~= word);
    if st.col == 0 {
        assert(st.current =~= Seq::<char>::empty());
        assert(st.current + word =~= word);
    } else {
        lemma_spaced_join(st.current, word);
    }
}

proof fn lemma_split_state_nonempty(s: Seq<char>)
    ensures
        forall|k: int| 0 <= k < split_state(s).0.len() ==> (#[trigger] split_state(s).0[k]).len() > 0,
    decreases s.len(),
{
    if s.len() > 0 {
        lemma_split_state_nonempty(s.drop_last());
        let st = split_state(s.drop_last());
        if char_whitespace(s.last()) && st.1.len() > 0 {
            assert forall|k: int| 0 <= k < st.0.push(st.1).len() implies (#[trigger] st.0.push(st.1)[k]).len() > 0 by {
                if k < st.0.len() {
                    assert(st.0.push(st.1)[k] == st.0[k]);
                }
            }
        }
    }
}

proof fn lemma_words_nonempty(s: Seq<char>)
    ensures
        forall|k: int| 0 <= k < words_of(s).len() ==> (#[trigger] words_of(s)[k]).len() > 0,
{
    lemma_split_state_nonempty(s);
    let st = split_state(s);
    if st.1.len() > 0 {
        assert forall|k: int| 0 <= k < st.0.push(st.1).len() implies (#[trigger] st.0.push(st.1)[k]).len() > 0 by {
            if k < st.0.len() {
                assert(st.0.push(st.1)[k] == st.0[k]);
            }
        }
    }
}

proof fn lemma_wrap_state_spaced(ws: Seq<Seq<char>>, first: int, cont: int)
    requires
        forall|k: int| 0 <= k < ws.len() ==> one_column_chars(#[trigger] ws[k])
            && str_display_width(ws[k]) == ws[k].len() && space_free(ws[k]) && ws[k].len() > 0,
    ensures
        spaced(wrap_state(ws, first, cont)),
    decreases ws.len(),
{
    if ws.len() == 0 {
        assert(single_spaced(Seq::<char>::empty()));
    } else {
        assert forall|k: int| 0 <= k < ws.drop_last().len() implies one_column_chars(#[trigger] ws.drop_last()[k])
            && str_display_width(ws.drop_last()[k]) == ws.drop_last()[k].len() && space_free(ws.drop_last()[k])
            && ws.drop_last()[k].len() > 0 by {
            assert(ws.drop_last()[k] == ws[k]);
        }
        lemma_wrap_state_spaced(ws.drop_last(), first, cont);
        lemma_wrap_state_fits(ws.drop_last(), first, cont);
        assert(space_free(ws[ws.len() - 1]) && ws[ws.len() - 1].len() > 0);
        lemma_place_word_spaced(wrap_state(ws.drop_last(), first, cont), ws.last(), first, cont);
    }
}

/// Law: when every character takes one column and every word as many
/// columns as it has characters, the words on each wrapped line are joined
/// by exactly one space, with no space at either end of a line.
pub proof fn law_wrapped_words_single_spaced(text: Seq<char>, first: int, cont: int)
    requires
        forall|k: int| 0 <= k < words_of(text).len() ==> one_column_chars(#[trigger] words_of(text)[k])
            && str_display_width(words_of(text)[k]) == words_of(text)[k].len(),
    ensures
        forall|i: int| 0 <= i < wrapped(text, first, cont).len()
            ==> single_spaced(#[trigger] wrapped(text, first, cont)[i]),
{
    lemma_words_of(text);
    lemma_words_nonempty(text);
    let ws = words_of(text);
    assert forall|k: int| 0 <= k < ws.len() implies one_column_chars(#[trigger] ws[k])
        && str_display_width(ws[k]) == ws[k].len() && space_free(ws[k]) && ws[k].len() > 0 by {
    }
    lemma_wrap_state_spaced(ws, first, cont);
    let st = wrap_state(ws, first, cont);
    let ls = st.lines.push(st.current);
    assert forall|i: int| 0 <= i < ls.len() implies single_spaced(#[trigger] ls[i]) by {
        if i < st.lines.len() {
            assert(ls[i] == st.lines[i]);
        }
    }
}

/// Where the run of non-white-space characters of `line` that starts at `j`
/// ends; from 0, the length of the line's first word.
pub open spec fn lead_end(line: Seq<char>, j: int) -> int
    decreases line.len() - j,
{
    if 0 <= j < line.len() && !char_whitespace(line[j]) { lead_end(line, j + 1) } else { j }
}

/// Each line but the last was ended because the next line's first word
/// would not have fit after a space: `lines[i]`, a space and the first word
/// of `lines[i + 1]` take more than line `i`'s columns.
pub open spec fn greedy(lines: Seq<Seq<char>>, first: int, cont: int) -> bool {
    forall|i: int| 0 <= i && i + 1 < lines.len()
        ==> (#[trigger] lines[i]).len() + 1 + lead_end(lines[i + 1], 0) > avail_at(i, first, cont)
}

proof fn lemma_lead_end_join(a: Seq<char>, b: Seq<char>, j: int)
    requires
        0 <= j <= a.len(),
    ensures
        lead_end(a + seq![' '] + b, j) == lead_end(a, j),
    decreases a.len() - j,
{
    let t = a + seq![' '] + b;
    if j < a.len() {
        assert(t[j] == a[j]);
        if !char_whitespace(a[j]) {
            lemma_lead_end_join(a, b, j + 1);
        }
    } else {
        assert(t[j] == ' ');
    }
}

proof fn lemma_lead_end_word(w: Seq<char>, j: int)
    requires
        space_free(w),
        0 <= j <= w.len(),
    ensures
        lead_end(w, j) == w.len(),
    decreases w.len() - j,
{
    if j < w.len() {
        lemma_lead_end_word(w, j + 1);
    }
}

/// The words `ws` each fit on any line on their own.
pub open spec fn words_fit(ws: Seq<Seq<char>>, first: int, cont: int) -> bool {
    forall|k: int| 0 <= k < ws.len() ==> {
        &&& one_column_chars(#[trigger] ws[k])
        &&& str_display_width(ws[k]) == ws[k].len()
        &&& space_free(ws[k])
        &&& ws[k].len() > 0
        &&& ws[k].len() <= avail_at(0, first, cont)
        &&& ws[k].len() <= avail_at(1, first, cont)
    }
}

proof fn lemma_wrap_state_greedy(ws: Seq<Seq<char>>, first: int, cont: int)
    requires
        words_fit(ws, first, cont),
    ensures
        ({
            let st = wrap_state(ws, first, cont);
            &&& greedy(st.lines.push(st.current), first, cont)
            &&& st.lines.len() > 0 ==> st.current.len() > 0
        }),
    decreases ws.len(),
{
    if ws.len() > 0 {
        let pre = ws.drop_last();
        assert forall|k: int| 0 <= k < pre.len() implies {
            &&& one_column_chars(#[trigger] pre[k])
            &&& str_display_width(pre[k]) == pre[k].len()
            &&& space_free(pre[k])
            &&& pre[k].len() > 0
            &&& pre[k].len() <= avail_at(0, first, cont)
            &&& pre[k].len() <= avail_at(1, first, cont)
        } by {
            assert(pre[k] == ws[k]);
        }
        lemma_wrap_state_greedy(pre, first, cont);
        lemma_wrap_state_fits(pre, first, cont);
        let st = wrap_state(pre, first, cont);
        let word = ws.last();
        assert(word == ws[ws.len() - 1]);
        let ww = str_display_width(word) as int;
        assert(ww == word.len());
        let w = avail_at(st.lines.len() as int, first, cont);
        assert(word.len() <= w);
        let all = st.lines.push(st.current);
        if st.col == 0 {
            assert(st.current =~= Seq::<char>::empty());
            assert(st.lines.len() == 0);
            let r = place_word(st, word, first, cont);
            assert(r.lines.push(r.current).len() == 1);
        } else if st.col + 1 + ww <= w {
            let cur2 = st.current + seq![' '] + word;
            let all2 = st.lines.push(cur2);
            lemma_lead_end_join(st.current, word, 0);
            assert forall|i: int| 0 <= i && i + 1 < all2.len()
                implies (#[trigger] all2[i]).len() + 1 + lead_end(all2[i + 1], 0) > avail_at(i, first, cont) by {
                assert(all2[i] == all[i]);
                if i + 1 < st.lines.len() {
                    assert(all2[i + 1] == all[i + 1]);
                } else {
                    assert(all2[i + 1] == cur2);
                    assert(all[i + 1] == st.current);
                }
            }
        } else {
            let l2 = st.lines.push(st.current);
            let all2 = l2.push(word);
            assert(avail_at(l2.len() as int, first, cont) >= word.len()) by {
                assert(l2.len() >= 1);
            }
            lemma_lead_end_word(word, 0);
            assert forall|i: int| 0 <= i && i + 1 < all2.len()
                implies (#[trigger] all2[i]).len() + 1 + lead_end(all2[i + 1], 0) > avail_at(i, first, cont) by {
                assert(all2[i] == all[i]);
                if i + 1 < all.len() {
                    assert(all2[i + 1] == all[i + 1]);
                } else {
                    assert(all2[i + 1] == word);
                    assert(all[i] == st.current);
                }
            }
        }
    }
}

/// Law: when every word fits on a line by itself and every character takes
/// one column, wrapping is greedy: a line is ended only when the next word,
/// after a space, would not fit on it (the next line's first word, a space
/// and the line take more than the line's columns).
pub proof fn law_wrapping_is_greedy(text: Seq<char>, first: int, cont: int)
    requires
        forall|k: int| 0 <= k < words_of(text).len() ==> {
            &&& one_column_chars(#[trigger] words_of(text)[k])
            &&& str_display_width(words_of(text)[k]) == words_of(text)[k].len()
            &&& words_of(text)[k].len() <= avail_at(0, first, cont)
            &&& words_of(text)[k].len() <= avail_at(1, first, cont)
        },
    ensures
        greedy(wrapped(text, first, cont), first, cont),
{
    lemma_words_of(text);
    lemma_words_nonempty(text);
    lemma_wrap_state_greedy(words_of(text), first, cont);
}

// ---------------------------------------------------------------------------
// Visible width of terminal text
// ---------------------------------------------------------------------------

/// An ASCII letter (ends an escape sequence).
pub open spec fn ascii_alpha(c: char) -> bool {
    ('a' <= c && c <= 'z') || ('A' <= c && c <= 'Z')
}

/// ASCII white space: space, tab, line feed, form feed, carriage return.
pub open spec fn ascii_ws(c: char) -> bool {
    c == ' ' || c == '\t' || c == '\n' || c == '\u{c}' || c == '\r'
}

/// Scanning terminal text: inside an escape sequence, the visible characters
/// so far, and the count up to the last visible non-space one.
pub open spec fn scan_visible(s: Seq<char>) -> (bool, int, int)
    decreases s.len(),
{
    if s.len() == 0 {
        (false, 0, 0)
    } else {
        let (esc, w, last) = scan_visible(s.drop_last());
        let c = s.last();
        if esc {
            (!ascii_alpha(c), w, last)
        } else if c == '\u{1b}' {
            (true, w, last)
        } else {
            (false, w + 1, if ascii_ws(c) { last } else { w + 1 })
        }
    }
}

fn scan(s: &str) -> (r: (usize, usize))
    ensures
        (r.0 as int, r.1 as int) == (scan_visible(s@).1, scan_visible(s@).2),
{
    let chars = chars_of(s);
    let mut esc = false;
    let mut w: usize = 0;
    let mut last: usize = 0;
    let mut i: usize = 0;
    while i < chars.len()
        invariant
            chars@ == s@,
            i <= chars@.len(),
            (esc, w as int, last as int) == scan_visible(chars@.take(i as int)),
            last <= w <= i,
        decreases chars@.len() - i,
    {
        proof {
            assert(chars@.take(i + 1).drop_last() =~= chars@.take(i as int));
            assert(chars@.take(i + 1).last() == chars@[i as int]);
        }
        let c = chars[i];
        if esc {
            if ('a' <= c && c <= 'z') || ('A' <= c && c <= 'Z') {
                esc = false;
            }
        } else if c == '\u{1b}' {
            esc = true;
        } else {
            w += 1;
            if !(c == ' ' || c == '\t' || c == '\n' || c == '\u{c}' || c == '\r') {
                last = w;
            }
        }
        i += 1;
    }
    proof {
        assert(chars@.take(chars@.len() as int) =~= chars@);
    }
    (w, last)
}

/// The columns `s` takes on a terminal: its characters, escape sequences
/// (from ESC to the next ASCII letter) left out.
pub fn visible_width(s: &str) -> (r: usize)
    ensures
        r as int == scan_visible(s@).1,
{
    scan(s).0
}

/// Like `visible_width`, but only up to the last visible character that is
/// not white space.
pub fn visible_content_width(s: &str) -> (r: usize)
    ensures
        r as int == scan_visible(s@).2,
{
    scan(s).1
}

// ---------------------------------------------------------------------------
// Small labels
// ---------------------------------------------------------------------------

/// How long ago `unix_ts` was at `now` (seconds): `just now` under a minute,
/// then whole minutes, hours or days.
pub open spec fn time_ago(unix_ts: i64, now: i64) -> Seq<char> {
    let diff = now - unix_ts;
    if diff < 60 {
        "just now"@
    } else if diff < 3600 {
        decimal((diff / 60) as nat) + "m ago"@
    } else if diff < 86400 {
        decimal((diff / 3600) as nat) + "h ago"@
    } else {
        decimal((diff / 86400) as nat) + "d ago"@
    }
}

/// How long ago `unix_ts` was at `now`, both in seconds since the epoch.
pub fn format_time_ago(unix_ts: i64, now: i64) -> (r: String)
    requires
        i64::MIN <= now - unix_ts <= i64::MAX,
    ensures
        r@ == time_ago(unix_ts, now),
{
    let diff = now - unix_ts;
    let mut r = String::new();
    if diff < 60 {
        push_str(&mut r, "just now");
    } else if diff < 3600 {
        r = u64_to_decimal((diff / 60) as u64);
        push_str(&mut r, "m ago");
    } else if diff < 86400 {
        r = u64_to_decimal((diff / 3600) as u64);
        push_str(&mut r, "h ago");
    } else {
        r = u64_to_decimal((diff / 86400) as u64);
        push_str(&mut r, "d ago");
    }
    r
}

/// The label of an invite use limit.
pub fn use_limit_label(opt: Option<u32>) -> (r: &'static str)
    ensures
        r@ == match opt {
            None => "Unlimited"@,
            Some(n) => if n == 1 {
                "1 use"@
            } else if n == 2 {
                "2 uses"@
            } else if n == 5 {
                "5 uses"@
            } else if n == 10 {
                "10 uses"@
            } else if n == 25 {
                "25 uses"@
            } else if n == 50 {
                "50 uses"@
            } else {
                "Custom"@
            },
        },
{
    match opt {
        None => "Unlimited",
        Some(1) => "1 use",
        Some(2) => "2 uses",
        Some(5) => "5 uses",
        Some(10) => "10 uses",
        Some(25) => "25 uses",
        Some(50) => "50 uses",
        _ => "Custom",
    }
}

/// Gradient cells at the leading edge of the selection bar: 8 on a
/// true-colour terminal, 4 otherwise.
pub fn selection_fade_steps(truecolor: bool) -> (r: u16)
    ensures
        r == (if truecolor { 8u16 } else { 4u16 }),
{
    if truecolor { 8 } else { 4 }
}

} // verus!
