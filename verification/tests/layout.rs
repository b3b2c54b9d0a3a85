use sqwok::tui::layout::{
    build_indent, count_unread_and_mentions, format_time_ago, indent_width, insert_cursor_marker,
    row_visual_height, scroll_offset, selection_fade_steps, split_words, use_limit_label, visible_content_width,
    visible_width, wrap_words, AREA_HEIGHT_CAP,
};
use sqwok::tui::render_rows::{AuthorColor, Gutter, RenderRow};

fn message_row(author: &str, body: &str, ts: &str, pending: bool, unread: bool, mentions: bool) -> RenderRow {
    RenderRow::Message {
        uuid: "u".to_string(),
        author: author.to_string(),
        author_color: AuthorColor::Accent,
        body: body.to_string(),
        timestamp: ts.to_string(),
        indent: 0,
        thread_uuid: None,
        reply_to_uuid: None,
        is_pending: pending,
        highlight_age: None,
        collapsed_sub_count: None,
        sub_typing_active: false,
        gutter: Gutter::NoThread,
        is_unread: unread,
        mentions_me: mentions,
        mentioned_names: vec![],
    }
}

#[test]
fn wrap_simple() {
    assert_eq!(wrap_words("hello world foo", 11, 11), vec!["hello world", "foo"]);
}

#[test]
fn wrap_empty_gives_one_empty_line() {
    assert_eq!(wrap_words("", 10, 10), vec![""]);
    assert_eq!(wrap_words("   ", 10, 10), vec![""]);
}

#[test]
fn wrap_hard_breaks_long_words() {
    assert_eq!(wrap_words("abcdefghij", 4, 4), vec!["abcd", "efgh", "ij"]);
}

#[test]
fn wrap_first_line_narrower() {
    assert_eq!(wrap_words("aa bb cc dd", 2, 5), vec!["aa", "bb cc", "dd"]);
}

#[test]
fn wrap_collapses_whitespace() {
    assert_eq!(wrap_words("a   b\tc\nd", 20, 20), vec!["a b c d"]);
}

#[test]
fn wrap_zero_width_acts_as_one() {
    assert_eq!(wrap_words("ab", 0, 0), vec!["a", "b"]);
}

#[test]
fn wrap_wide_characters() {
    // each CJK character takes two columns
    assert_eq!(wrap_words("日本語", 4, 4), vec!["日本", "語"]);
}

#[test]
fn words_split_on_whitespace() {
    let w = split_words("  one two\tthree ");
    let w: Vec<String> = w.into_iter().map(|c| c.into_iter().collect()).collect();
    assert_eq!(w, vec!["one", "two", "three"]);
}

#[test]
fn indents() {
    assert_eq!(indent_width(0), 0);
    assert_eq!(indent_width(1), 5);
    assert_eq!(indent_width(2), 8);
    assert_eq!(indent_width(7), 8);
    assert_eq!(build_indent(0), "");
    assert_eq!(build_indent(1), "  └─ ");
    assert_eq!(build_indent(2), "  │  └─ ");
}

#[test]
fn cursor_marker() {
    assert_eq!(insert_cursor_marker("abc", 1), "a\u{1}bc");
    assert_eq!(insert_cursor_marker("abc", 3), "abc\u{1}");
    assert_eq!(insert_cursor_marker("abc", 9), "abc\u{1}");
    assert_eq!(insert_cursor_marker("é", 0), "\u{1}é");
}

#[test]
fn visible_widths_skip_escapes() {
    assert_eq!(visible_width("\x1b[31mred\x1b[0m"), 3);
    assert_eq!(visible_width("plain"), 5);
    assert_eq!(visible_content_width("ab  "), 2);
    assert_eq!(visible_content_width("\x1b[1mab\x1b[0m  "), 2);
    assert_eq!(visible_content_width("   "), 0);
}

#[test]
fn time_ago() {
    assert_eq!(format_time_ago(1000, 1030), "just now");
    assert_eq!(format_time_ago(1000, 1000 + 125), "2m ago");
    assert_eq!(format_time_ago(0, 7200), "2h ago");
    assert_eq!(format_time_ago(0, 3 * 86400 + 5), "3d ago");
    assert_eq!(format_time_ago(100, 50), "just now");
}

#[test]
fn limit_labels() {
    assert_eq!(use_limit_label(None), "Unlimited");
    assert_eq!(use_limit_label(Some(1)), "1 use");
    assert_eq!(use_limit_label(Some(25)), "25 uses");
    assert_eq!(use_limit_label(Some(3)), "Custom");
}

#[test]
fn fade_steps() {
    assert_eq!(selection_fade_steps(true), 8);
    assert_eq!(selection_fade_steps(false), 4);
}

#[test]
fn message_height() {
    // prefix "bob  " (5), suffix "  10:15" (7): first line 40-12 = 28 columns
    let row = message_row("bob", "aaaa bbbb cccc dddd eeee ffff gggg", "10:15", false, false, false);
    assert_eq!(row_visual_height(&row, 40), 2);
    assert_eq!(row_visual_height(&row, 0), 1);
    let short = message_row("bob", "hi", "10:15", false, false, false);
    assert_eq!(row_visual_height(&short, 40), 1);
    // too narrow for anything after the prefix and timestamp
    assert_eq!(row_visual_height(&short, 12), 1);
}

#[test]
fn pending_suffix_counts() {
    // first line: 30 - (5 + 7) = 18 columns; "x sending..." fits, a longer body wraps
    let row = message_row("bob", "123456789", "10:15", true, false, false);
    assert_eq!(row_visual_height(&row, 30), 2);
    let row = message_row("bob", "123456789", "10:15", false, false, false);
    assert_eq!(row_visual_height(&row, 30), 1);
}

#[test]
fn height_is_capped() {
    let body = "w ".repeat(200);
    let row = message_row("bob", &body, "10:15", false, false, false);
    assert_eq!(row_visual_height(&row, 20) as usize, AREA_HEIGHT_CAP);
}

#[test]
fn input_height() {
    let row = RenderRow::Input {
        thread_uuid: None,
        reply_to_uuid: None,
        indent: 0,
        is_active: true,
        content: "aaaa bbbb".to_string(),
        cursor: 9,
    };
    // 8 - 2 = 6 columns: "aaaa", "bbbb\u{1}"
    assert_eq!(row_visual_height(&row, 8), 2);
    let inactive = RenderRow::Input {
        thread_uuid: None,
        reply_to_uuid: None,
        indent: 0,
        is_active: false,
        content: "aaaa bbbb".to_string(),
        cursor: 9,
    };
    assert_eq!(row_visual_height(&inactive, 8), 1);
}

#[test]
fn unread_counts() {
    let rows = vec![
        message_row("a", "x", "t", false, true, false),
        message_row("a", "x", "t", false, false, true),
        message_row("a", "x", "t", false, true, true),
        RenderRow::TypingIndicator { indent: 0 },
    ];
    assert_eq!(count_unread_and_mentions(&rows), (2, true));
    assert_eq!(count_unread_and_mentions(&rows[..2]), (1, false));
    assert_eq!(count_unread_and_mentions(&[]), (0, false));
}

#[test]
fn scroll_offset_keeps_half_the_view_above_selection() {
    // One-line rows, 10 lines visible: five rows stay above the selection.
    let ones = vec![1u16; 20];
    assert_eq!(scroll_offset(&ones, 12, 10), 7);
    assert_eq!(scroll_offset(&ones, 3, 10), 0);
    assert_eq!(scroll_offset(&ones, 0, 10), 0);
    // Tall rows stop the walk early: 3 + 3 > 5.
    let tall = vec![1u16, 3, 3, 1];
    assert_eq!(scroll_offset(&tall, 3, 10), 2);
    assert_eq!(scroll_offset(&tall, 3, 11), 2);
    assert_eq!(scroll_offset(&tall, 3, 12), 1);
    assert_eq!(scroll_offset(&tall, 3, 14), 0);
    // Nothing fits above a selection in a one-line view.
    assert_eq!(scroll_offset(&ones, 5, 1), 5);
}

#[test]
fn wrapping_keeps_text_and_fits_widths() {
    let text = "the quick  brown fox jumps over\tthe lazy dog supercalifragilistic";
    for (first, cont) in [(10usize, 12usize), (5, 5), (1, 3), (0, 0), (40, 8)] {
        let lines = wrap_words(text, first, cont);
        let kept: String = lines.concat().chars().filter(|c| !c.is_whitespace()).collect();
        let orig: String = text.chars().filter(|c| !c.is_whitespace()).collect();
        assert_eq!(kept, orig);
        for (i, l) in lines.iter().enumerate() {
            let limit = if i == 0 { first } else { cont }.max(1);
            assert!(l.chars().count() <= limit, "line {:?} over {}", l, limit);
        }
    }
}

#[test]
fn wrapped_words_single_spaced_and_greedy() {
    let text = "  aa bbb c   dddd ee f  ";
    let lines = wrap_words(text, 6, 5);
    assert_eq!(lines, vec!["aa bbb", "c", "dddd", "ee f"]);
    for l in &lines {
        assert!(!l.starts_with(' ') && !l.ends_with(' ') && !l.contains("  "));
    }
    // Each line was ended because the next first word would not fit.
    for i in 0..lines.len() - 1 {
        let limit = if i == 0 { 6 } else { 5 };
        let next_word = lines[i + 1].split(' ').next().unwrap().len();
        assert!(lines[i].len() + 1 + next_word > limit);
    }
}

#[test]
fn white_space_matches_std_everywhere() {
    for u in 0u32..=0x10FFFF {
        if let Some(c) = char::from_u32(u) {
            assert_eq!(sqwok::text::is_whitespace(c), c.is_whitespace(), "U+{:04X}", u);
        }
    }
}
