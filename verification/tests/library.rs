use gpui_elements::boundaries::{
    find_line_end, find_line_start, next_boundary, next_word_boundary, offset_from_caret,
    previous_boundary, previous_word_boundary, range_from_caret, trim_end, word_range_at,
    NavigationDirection, TextBoundary,
};
use gpui_elements::caret::{Caret, CaretNotify};
use gpui_elements::cursor::{BlinkEffects, CursorBlink, DEFAULT_BLINK_INTERVAL_MS};
use gpui_elements::history::{EditableTextHistory, HistoryEntry, HistoryKind, MAX_HISTORY_LEN};
use gpui_elements::input_state::InputLayoutStyle;
use gpui_elements::layout::{
    build_line_segments, line_intersects_range, logical_line_ranges, TextLineSegment,
};
use gpui_elements::segmentation::{grapheme_last_start, grapheme_second_start, word_indices};
use gpui_elements::storage::{InputStorage, Standard};
use gpui_elements::text::{
    byte_len, char_is_whitespace, char_len_utf16, char_len_utf8, chars_of, is_char_boundary,
    str_slice, string_push, string_push_str, string_replace_range,
};
use gpui_elements::unicode::{
    count_utf16_len, offset_utf16_to_utf8, offset_utf8_to_utf16, UnicodeString,
};

// ------------------------------------------------------------
// UTF-8 / UTF-16 bookkeeping
// ------------------------------------------------------------

#[test]
fn char_widths() {
    assert_eq!(char_len_utf8('a'), 1);
    assert_eq!(char_len_utf8('é'), 2);
    assert_eq!(char_len_utf8('你'), 3);
    assert_eq!(char_len_utf8('😀'), 4);
    assert_eq!(char_len_utf16('a'), 1);
    assert_eq!(char_len_utf16('你'), 1);
    assert_eq!(char_len_utf16('😀'), 2);
}

#[test]
fn text_wrappers() {
    assert_eq!(byte_len("a😀b"), 6);
    assert_eq!(chars_of("a😀b"), vec!['a', '😀', 'b']);
    let mut pushed = String::from("x");
    string_push(&mut pushed, 'é');
    assert_eq!(pushed, "xé");
    string_push_str(&mut pushed, "😀!");
    assert_eq!(pushed, "xé😀!");
    assert_eq!(str_slice("a😀b", 1, 5), "😀");
    assert_eq!(str_slice("a😀b", 0, 0), "");
    let mut s2 = String::from("a😀b");
    string_replace_range(&mut s2, 1, 5, "");
    assert_eq!(s2, "ab");
    string_replace_range(&mut s2, 2, 2, "cd");
    assert_eq!(s2, "abcd");
    assert_eq!(str_slice("hello world", 6, 11), "world");
    let mut s = String::from("hello world");
    string_replace_range(&mut s, 0, 5, "bye");
    assert_eq!(s, "bye world");
    assert!(char_is_whitespace(' '));
    assert!(char_is_whitespace('\u{3000}'));
    assert!(!char_is_whitespace('x'));
}

#[test]
fn char_boundaries() {
    let s = "aé😀";
    assert!(is_char_boundary(s, 0));
    assert!(is_char_boundary(s, 1));
    assert!(!is_char_boundary(s, 2));
    assert!(is_char_boundary(s, 3));
    assert!(!is_char_boundary(s, 5));
    assert!(is_char_boundary(s, 7));
    assert!(!is_char_boundary(s, 8));
}

#[test]
fn utf16_lengths_and_offsets() {
    let s = "a😀b";
    assert_eq!(count_utf16_len(s), 4);
    assert_eq!(offset_utf8_to_utf16(s, 0), 0);
    assert_eq!(offset_utf8_to_utf16(s, 1), 1);
    assert_eq!(offset_utf8_to_utf16(s, 5), 3);
    assert_eq!(offset_utf8_to_utf16(s, 6), 4);
    assert_eq!(offset_utf8_to_utf16(s, 100), 4);
    assert_eq!(offset_utf16_to_utf8(s, 3), 5);
    assert_eq!(offset_utf16_to_utf8(s, 4), 6);
    assert_eq!(offset_utf16_to_utf8(s, 100), 6);
}

#[test]
fn utf8_utf16_offsets_round_trip() {
    let s = "héllo 😀 wörld";
    let mut b = 0;
    for c in s.chars() {
        assert_eq!(offset_utf16_to_utf8(s, offset_utf8_to_utf16(s, b)), b);
        b += c.len_utf8();
    }
    for k in 0..=count_utf16_len(s) {
        let b = offset_utf16_to_utf8(s, k);
        assert!(s.is_char_boundary(b));
        // an offset inside a surrogate pair moves to the end of its character
        let back = offset_utf8_to_utf16(s, b);
        assert!(k <= back && back < k + 2);
    }
}

#[test]
fn unicode_string_on_string() {
    let s = String::from("a😀b");
    assert_eq!(s.len_utf16(), 4);
    assert_eq!(s.len_utf16_cached(), None);
    assert_eq!(s.content_utf8(), "a😀b");
    assert_eq!(s.utf_offset_8to16(5), 3);
    assert_eq!(s.utf_offset_16to8(3), 5);
    assert_eq!(s.utf_range_8to16(&(1..5)), 1..3);
    assert_eq!(s.utf_range_16to8(&(1..3)), 1..5);
}

#[test]
fn standard_storage() {
    let mut storage = Standard::from_str("hello");
    assert_eq!(InputStorage::len(&storage), 5);
    assert_eq!(storage.as_str(), "hello");
    assert_eq!(storage.len_utf16_cached(), None);
    storage.replace_range(0..1, "J");
    assert_eq!(storage.as_str(), "Jello");
    storage.update_utf8(5..5, "😀");
    storage.replace_range(5..5, "😀");
    assert_eq!(storage.as_str(), "Jello😀");
    assert_eq!(storage.len_utf16(), 7);
    storage.emplace("new");
    assert_eq!(storage.as_str(), "new");
    assert_eq!(storage.len_utf16_cached(), None);
    let empty = Standard::default();
    assert_eq!(empty.as_str(), "");
}

// ------------------------------------------------------------
// Boundaries
// ------------------------------------------------------------

#[test]
fn lines_start_and_end() {
    let s = "first\nsecond\nthird";
    assert_eq!(find_line_start(s, 0), 0);
    assert_eq!(find_line_start(s, 3), 0);
    assert_eq!(find_line_start(s, 6), 6);
    assert_eq!(find_line_start(s, 13), 13);
    assert_eq!(find_line_start(s, 100), 13);
    assert_eq!(find_line_end(s, 0), 5);
    assert_eq!(find_line_end(s, 6), 12);
    assert_eq!(find_line_end(s, 13), 18);
    assert_eq!(find_line_end(s, 100), 18);
}

#[test]
fn grapheme_boundaries() {
    let family = "👨‍👩‍👧";
    let s = format!("a{}b", family);
    assert_eq!(previous_boundary(&s, 0), 0);
    assert_eq!(next_boundary(&s, 0), 1);
    assert_eq!(next_boundary(&s, 1), 1 + family.len());
    assert_eq!(previous_boundary(&s, 1 + family.len()), 1);
    assert_eq!(next_boundary(&s, s.len()), s.len());
    assert_eq!(next_boundary(&s, 100), s.len());
    let combining = "e\u{0301}x";
    assert_eq!(next_boundary(combining, 0), 3);
    assert_eq!(previous_boundary(combining, 3), 0);
}

#[test]
fn grapheme_segmentation_wrappers() {
    assert_eq!(grapheme_last_start(""), None);
    assert_eq!(grapheme_last_start("ab"), Some(1));
    assert_eq!(grapheme_last_start("a😀"), Some(1));
    assert_eq!(grapheme_second_start(""), None);
    assert_eq!(grapheme_second_start("a"), None);
    assert_eq!(grapheme_second_start("😀b"), Some(4));
    assert_eq!(word_indices("hello, big world"), vec![(0, 5), (7, 3), (11, 5)]);
    assert_eq!(word_indices("  "), vec![]);
}

#[test]
fn word_boundaries() {
    let s = "hello big world";
    assert_eq!(previous_word_boundary(s, 15), 10);
    assert_eq!(previous_word_boundary(s, 10), 6);
    assert_eq!(previous_word_boundary(s, 3), 0);
    assert_eq!(previous_word_boundary(s, 0), 0);
    assert_eq!(next_word_boundary(s, 0), 5);
    assert_eq!(next_word_boundary(s, 5), 9);
    assert_eq!(next_word_boundary(s, 15), 15);
    assert_eq!(word_range_at(s, 7), (6, 9));
    assert_eq!(word_range_at(s, 5), (0, 5));
    assert_eq!(word_range_at("a  b", 2), (2, 2));
    assert_eq!(word_range_at(s, 100), (10, 15));
}

#[test]
fn trimming_trailing_whitespace() {
    assert_eq!(trim_end("hello  \t"), "hello");
    assert_eq!(trim_end("   "), "");
    assert_eq!(trim_end("a b"), "a b");
}

#[test]
fn offsets_and_ranges_from_caret() {
    let s = "ab\ncd ef";
    assert_eq!(offset_from_caret(s, 4, NavigationDirection::Back, TextBoundary::Document), 0);
    assert_eq!(offset_from_caret(s, 4, NavigationDirection::Forward, TextBoundary::Document), 8);
    assert_eq!(offset_from_caret(s, 4, NavigationDirection::Back, TextBoundary::Line), 3);
    assert_eq!(offset_from_caret(s, 4, NavigationDirection::Forward, TextBoundary::Line), 8);
    assert_eq!(offset_from_caret(s, 4, NavigationDirection::Back, TextBoundary::Graphmeme), 3);
    assert_eq!(offset_from_caret(s, 4, NavigationDirection::Forward, TextBoundary::Word), 5);
    assert_eq!(range_from_caret(s, 4, NavigationDirection::Back, TextBoundary::Line), 3..4);
    assert_eq!(range_from_caret(s, 4, NavigationDirection::Forward, TextBoundary::Word), 4..5);
    assert_eq!(range_from_caret(s, 100, NavigationDirection::Back, TextBoundary::Graphmeme), 7..8);
}

#[test]
fn sanitizing_content_for_layout_styles() {
    let text = "a\r\nb\nc\rd";
    assert_eq!(InputLayoutStyle::SingleLine.sanitize_content(text), "a b c d");
    assert_eq!(InputLayoutStyle::MultiLine.sanitize_content(text), text);
    assert_eq!(InputLayoutStyle::SingleLine.sanitize_content("\r\n\r"), "  ");
}

// ------------------------------------------------------------
// Layout
// ------------------------------------------------------------

#[test]
fn lines_touched_by_a_selection() {
    assert!(line_intersects_range(&(3..3), &(2..4)));
    assert!(!line_intersects_range(&(3..3), &(3..3)));
    assert!(!line_intersects_range(&(3..3), &(4..6)));
    assert!(line_intersects_range(&(0..5), &(4..9)));
    assert!(!line_intersects_range(&(0..5), &(5..9)));
    assert!(!line_intersects_range(&(5..9), &(0..5)));
}

#[test]
fn segment_rows_and_positions() {
    let shaped = TextLineSegment { text_range: 2..6, wrap_boundaries: Some(2), pos_y: 4 };
    assert_eq!(shaped.row_count(), 3);
    assert!(shaped.contains_position(2, false));
    assert!(shaped.contains_position(5, false));
    assert!(!shaped.contains_position(6, false));
    assert!(shaped.contains_position(6, true));
    assert!(!shaped.contains_position(7, true));
    assert!(!shaped.contains_position(1, true));
    let empty = TextLineSegment { text_range: 7..7, wrap_boundaries: None, pos_y: 0 };
    assert_eq!(empty.row_count(), 1);
    assert!(empty.contains_position(7, false));
    assert!(empty.contains_position(7, true));
    assert!(!empty.contains_position(8, true));
}

#[test]
fn segments_of_shaped_lines() {
    // "hello\nworld wide": the first line wraps once, the second twice
    let segments = build_line_segments(&[(5, 1), (10, 2)], 16);
    assert_eq!(segments.len(), 2);
    assert_eq!(segments[0].text_range, 0..6);
    assert_eq!(segments[0].pos_y, 0);
    assert_eq!(segments[0].wrap_boundaries, Some(1));
    assert_eq!(segments[1].text_range, 6..16);
    assert_eq!(segments[1].pos_y, 2);
    assert_eq!(build_line_segments(&[(4, 0)], 4)[0].text_range, 0..4);
    assert!(build_line_segments(&[], 0).is_empty());
}

#[test]
fn last_segment_ends_at_text_end() {
    // "a\nb": two one-byte lines separated by a newline
    let segments = build_line_segments(&[(1, 0), (1, 0)], 3);
    assert_eq!(segments[0].text_range, 0..2);
    assert_eq!(segments[1].text_range, 2..3);
    assert_eq!(segments[1].pos_y, 1);
    // a trailing newline leaves an empty last line
    let segments = build_line_segments(&[(1, 0), (0, 0)], 2);
    assert_eq!(segments[0].text_range, 0..2);
    assert_eq!(segments[1].text_range, 2..2);
}

#[test]
fn logical_lines_of_content() {
    assert_eq!(logical_line_ranges(""), vec![0..0]);
    assert_eq!(logical_line_ranges("abc"), vec![0..3]);
    assert_eq!(logical_line_ranges("a\nbc\n"), vec![0..1, 2..4, 5..5]);
    assert_eq!(logical_line_ranges("\n\n"), vec![0..0, 1..1, 2..2]);
    assert_eq!(logical_line_ranges("é\n😀"), vec![0..2, 3..7]);
}

// ------------------------------------------------------------
// History
// ------------------------------------------------------------

fn entry(range: std::ops::Range<usize>, old_text: &str, new_text_len: usize) -> HistoryEntry {
    HistoryEntry {
        range,
        old_text: old_text.to_string(),
        new_text_len,
        selected_range: 1..3,
        selection_reversed: true,
        timestamp: 42,
    }
}

#[test]
fn patch_undo_and_redo() {
    // "hello" became "hello world" by inserting " world" at 5
    let mut content = String::from("hello world");
    let undo = entry(5..11, "", 6);
    let redo = undo.apply_undo(&mut content);
    assert_eq!(content, "hello");
    assert_eq!(redo.range, 5..5);
    assert_eq!(redo.old_text, " world");
    assert_eq!(redo.new_text_len, 0);
    assert_eq!(redo.selected_range, 1..3);
    assert!(redo.selection_reversed);
    assert_eq!(redo.timestamp, 42);
    let again = redo.apply_redo(&mut content);
    assert_eq!(content, "hello world");
    assert_eq!(again.range, 5..11);
    assert_eq!(again.old_text, "");
    assert_eq!(again.new_text_len, 6);
}

#[test]
fn patch_undo_is_cut_at_the_end_of_the_content() {
    let mut content = String::from("abc");
    let undo = entry(1..9, "XY", 8);
    let redo = undo.apply_undo(&mut content);
    assert_eq!(content, "aXY");
    assert_eq!(redo.old_text, "bc");
    assert_eq!(redo.range, 1..3);
}

#[test]
fn history_records_and_groups() {
    let mut history = EditableTextHistory::default();
    assert!(!history.has_next(HistoryKind::Undo));
    // "a" typed into ""
    history.record("", 0..0, 1, 0..0, 1000);
    assert!(history.has_next(HistoryKind::Undo));
    // "b" typed after it within the grouping interval: the last entry now covers "ab"
    history.record("a", 1..1, 1, 1..1, 1100);
    let taken = history.take(HistoryKind::Undo).unwrap();
    assert_eq!(taken.range, 0..2);
    assert_eq!(taken.new_text_len, 2);
    assert_eq!(taken.old_text, "");
    assert_eq!(taken.selected_range, 0..0);
    assert!(history.take(HistoryKind::Undo).is_none());
    let mut content = String::from("ab");
    let redo = taken.apply_undo(&mut content);
    assert_eq!(content, "");
    history.push(HistoryKind::Redo, redo);
    assert!(history.has_next(HistoryKind::Redo));
    assert_eq!(history.peek(HistoryKind::Redo).unwrap().old_text, "ab");
    // a new entry clears what could be redone
    history.record("ab", 0..2, 0, 0..2, 5000);
    assert!(!history.has_next(HistoryKind::Redo));
    assert_eq!(history.peek(HistoryKind::Undo).unwrap().old_text, "ab");
}

#[test]
fn history_grouping_merges_a_replacement_before_the_entry() {
    let mut history = EditableTextHistory::default();
    // "hello": "X" inserted at 5, then "he" replaced by "J" within the interval
    history.record("hello", 5..5, 1, 5..5, 0);
    history.record("helloX", 0..2, 1, 0..2, 100);
    let entry = history.take(HistoryKind::Undo).unwrap();
    let mut content = String::from("JlloX");
    entry.apply_undo(&mut content);
    assert_eq!(content, "hello");
}

#[test]
fn history_without_grouping_keeps_every_entry() {
    let mut history = EditableTextHistory::default();
    history.set_grouping_interval(0);
    let mut content = String::new();
    for i in 0..3 {
        history.record(&content, i..i, 1, i..i, 7);
        content.push('a');
    }
    let mut n = 0;
    while history.take(HistoryKind::Undo).is_some() {
        n += 1;
    }
    assert_eq!(n, 3);
}

#[test]
fn history_is_bounded() {
    let mut history = EditableTextHistory::default();
    history.set_grouping_interval(0);
    for i in 0..(MAX_HISTORY_LEN + 5) {
        history.record("", 0..0, 1, 0..0, i as u64);
    }
    let mut n = 0;
    while history.take(HistoryKind::Undo).is_some() {
        n += 1;
    }
    assert_eq!(n, MAX_HISTORY_LEN);
}

#[test]
fn whitespace_matches_std() {
    for u in 0..=0x10FFFFu32 {
        if let Some(c) = char::from_u32(u) {
            assert_eq!(char_is_whitespace(c), c.is_whitespace(), "U+{:04X}", u);
        }
    }
}

#[test]
fn disabled_cursor_stays_hidden_when_paused() {
    let mut blink = CursorBlink::new(DEFAULT_BLINK_INTERVAL_MS);
    blink.enable();
    blink.disable();
    assert!(!blink.visible());
    assert_eq!(blink.pause_blinking(), BlinkEffects { notify: false, schedule: None });
    assert!(!blink.visible());
    let mut caret = Caret::default().blink_interval_default();
    caret.update_focus(true);
    caret.update_focus(false);
    caret.on_notify(CaretNotify::PauseBlinking);
    assert!(!caret.visible());
}

// ------------------------------------------------------------
// Cursor blinking and caret
// ------------------------------------------------------------

#[test]
fn cursor_blink_lifecycle() {
    let mut blink = CursorBlink::new(DEFAULT_BLINK_INTERVAL_MS);
    assert!(blink.visible());
    assert_eq!(blink.interval_ms(), 500);
    let e = blink.enable();
    // enabling hides the cursor, then the first tick shows it again
    assert!(blink.visible());
    assert_eq!(e, BlinkEffects { notify: true, schedule: Some(1) });
    assert_eq!(blink.enable(), BlinkEffects { notify: false, schedule: None });
    let e = blink.tick(1);
    assert!(!blink.visible());
    assert_eq!(e.schedule, Some(2));
    // a stale timer has no effect
    assert_eq!(blink.tick(1), BlinkEffects { notify: false, schedule: None });
    assert!(!blink.visible());
    let e = blink.pause_blinking();
    assert!(blink.visible());
    assert_eq!(e, BlinkEffects { notify: true, schedule: Some(3) });
    // ticks are ignored while paused, the pause timer resumes blinking
    assert_eq!(blink.tick(3), BlinkEffects { notify: false, schedule: None });
    let e = blink.resume_after_pause(3);
    assert!(!blink.visible());
    assert_eq!(e.schedule, Some(4));
    let e = blink.disable();
    assert!(!blink.visible());
    assert_eq!(e, BlinkEffects { notify: true, schedule: None });
}

#[test]
fn two_ticks_restore_visibility() {
    let mut blink = CursorBlink::new(100);
    blink.enable();
    let before = blink.visible();
    let g = blink.tick(1).schedule.unwrap();
    blink.tick(g);
    assert_eq!(blink.visible(), before);
}

#[test]
fn caret_follows_focus() {
    let mut caret = Caret::default().blink_interval_default();
    assert!(!caret.visible());
    let (visible, e) = caret.update_focus(true);
    assert!(visible);
    assert_eq!(e, BlinkEffects { notify: true, schedule: Some(1) });
    let (visible, e) = caret.update_focus(true);
    assert!(visible);
    assert_eq!(e, BlinkEffects { notify: false, schedule: None });
    let e = caret.tick(1);
    assert!(!caret.visible());
    assert_eq!(e.schedule, Some(2));
    let e = caret.on_notify(CaretNotify::PauseBlinking);
    assert!(caret.visible());
    assert_eq!(e, BlinkEffects { notify: true, schedule: Some(3) });
    let e = caret.resume_after_pause(3);
    assert_eq!(e.schedule, Some(4));
    let (visible, e) = caret.update_focus(false);
    assert!(!visible);
    assert_eq!(e, BlinkEffects { notify: true, schedule: None });
}

#[test]
fn caret_without_interval_does_not_blink() {
    let mut caret = Caret::default();
    let (visible, e) = caret.update_focus(true);
    assert!(visible);
    assert_eq!(e, BlinkEffects { notify: false, schedule: None });
    assert_eq!(caret.on_notify(CaretNotify::PauseBlinking), BlinkEffects { notify: false, schedule: None });
    let mut caret = Caret::default().blink_interval(250);
    let (visible, _) = caret.update_focus(true);
    assert!(visible);
}
