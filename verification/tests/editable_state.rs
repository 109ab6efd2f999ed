use gpui_elements::boundaries::{
    find_line_end, find_line_start, next_boundary, previous_boundary, word_range_at,
};
use gpui_elements::editable::{EditableTextState, Notification, NotificationLog};
use gpui_elements::boundaries::NavigationDirection;
use gpui_elements::history::HistoryKind;
use gpui_elements::storage::Standard;
use gpui_elements::unicode::UnicodeString;

/// How many reports of the given kind the log holds.
fn count(log: &NotificationLog, kind: Notification) -> usize {
    log.entries().iter().filter(|entry| **entry == kind).count()
}

/// Timestamps (ms) far enough apart that no two edits are grouped in one history entry.
#[derive(Default)]
struct Clock {
    now: u64,
}

impl Clock {
    fn next(&mut self) -> u64 {
        self.now += 1000;
        self.now
    }
}

fn make_state(content: &str, selected_range: std::ops::Range<usize>) -> EditableTextState {
    let mut state = EditableTextState::new(Standard::from_str(content));
    state.set_layout_modes(false, true);
    state.set_selected_range(selected_range);
    state
}

fn make_single_line_state(content: &str, selected_range: std::ops::Range<usize>) -> EditableTextState {
    let mut state = EditableTextState::new(Standard::from_str(content));
    state.set_selected_range(selected_range);
    state
}

fn is_history_kind_available(state: &EditableTextState, kind: HistoryKind) -> bool {
    state.history().map(|history| history.has_next(kind)).unwrap_or_default()
}

fn undo(state: &mut EditableTextState, cx: &mut NotificationLog) {
    assert!(state.history_ready(HistoryKind::Undo));
    state.undo(cx);
}

fn redo(state: &mut EditableTextState, cx: &mut NotificationLog) {
    assert!(state.history_ready(HistoryKind::Redo));
    state.redo(cx);
}

#[test]
fn editable_left_at_start_of_content() {
    let mut cx = NotificationLog::new();
    let mut input = make_state("hello", 0..0);
    input.nav_left(&mut cx);
    assert_eq!(input.raw_selected_range(), 0..0);
}

#[test]
fn editable_left_moves_by_grapheme() {
    let mut cx = NotificationLog::new();
    let mut input = make_state("hello", 3..3);
    input.nav_left(&mut cx);
    assert_eq!(input.raw_selected_range(), 2..2);
}

#[test]
fn editable_left_collapses_selection_to_start() {
    let mut cx = NotificationLog::new();
    let mut input = make_state("hello", 1..4);
    input.nav_left(&mut cx);
    assert_eq!(input.raw_selected_range(), 1..1);
}

#[test]
fn editable_left_stops_at_end_of_line() {
    let mut cx = NotificationLog::new();
    // "ab\ncd" - cursor at position 3 (start of "cd", after newline)
    // Pressing left should move to position 2 (end of "ab", before newline)
    let mut input = make_state("ab\ncd", 3..3);
    input.nav_left(&mut cx);
    assert_eq!(input.raw_selected_range(), 2..2); // cursor at end of line 1
}

#[test]
fn editable_right_at_end_of_content() {
    let mut cx = NotificationLog::new();
    let mut input = make_state("hello", 5..5);
    input.nav_right(&mut cx);
    assert_eq!(input.raw_selected_range(), 5..5);
}

#[test]
fn editable_right_moves_by_grapheme() {
    let mut cx = NotificationLog::new();
    let mut input = make_state("hello", 2..2);
    input.nav_right(&mut cx);
    assert_eq!(input.raw_selected_range(), 3..3);
}

#[test]
fn editable_right_collapses_selection_to_end() {
    let mut cx = NotificationLog::new();
    let mut input = make_state("hello", 1..4);
    input.nav_right(&mut cx);
    assert_eq!(input.raw_selected_range(), 4..4);
}

#[test]
fn editable_right_stops_at_end_of_line() {
    let mut cx = NotificationLog::new();
    // "ab\ncd" - cursor at position 1 (after 'a')
    // Pressing right should move to position 2 (end of "ab", before newline)
    let mut input = make_state("ab\ncd", 1..1);
    input.nav_right(&mut cx);
    assert_eq!(input.raw_selected_range(), 2..2); // cursor at end of line 1
}

#[test]
fn editable_right_crosses_newline() {
    let mut cx = NotificationLog::new();
    // "ab\ncd" - cursor at position 2 (end of "ab", before newline)
    // Pressing right should move to position 3 (after newline, start of "cd")
    let mut input = make_state("ab\ncd", 2..2);
    input.nav_right(&mut cx);
    assert_eq!(input.raw_selected_range(), 3..3); // cursor at start of line 2
}

#[test]
fn editable_left_crosses_newline() {
    let mut cx = NotificationLog::new();
    // "ab\ncd" - cursor at position 2 (end of "ab", before newline)
    // Pressing left should move to position 1 (after 'a')
    let mut input = make_state("ab\ncd", 2..2);
    input.nav_left(&mut cx);
    assert_eq!(input.raw_selected_range(), 1..1);
}

#[test]
fn editable_home_moves_to_line_start() {
    let mut cx = NotificationLog::new();
    let mut input = make_state("first\nsecond", 9..9);
    input.nav_line_start(&mut cx);
    assert_eq!(input.raw_selected_range(), 6..6);
}

#[test]
fn editable_end_moves_to_line_end() {
    let mut cx = NotificationLog::new();
    let mut input = make_state("first\nsecond", 8..8);
    input.nav_line_end(&mut cx);
    assert_eq!(input.raw_selected_range(), 12..12);
}

#[test]
fn editable_move_to_beginning() {
    let mut cx = NotificationLog::new();
    let mut input = make_state("first\nsecond\nthird", 9..9);
    input.nav_start(&mut cx);
    assert_eq!(input.raw_selected_range(), 0..0);
}

#[test]
fn editable_move_to_end() {
    let mut cx = NotificationLog::new();
    let mut input = make_state("first\nsecond\nthird", 0..0);
    input.nav_end(&mut cx);
    assert_eq!(input.raw_selected_range(), 18..18);
}

#[test]
fn editable_word_left_at_start() {
    let mut cx = NotificationLog::new();
    let mut input = make_state("hello world", 0..0);
    input.nav_left_word(&mut cx);
    assert_eq!(input.raw_selected_range(), 0..0);
}

#[test]
fn editable_word_left_stops_at_boundary() {
    let mut cx = NotificationLog::new();
    let mut input = make_state("hello world test", 11..11);
    input.nav_left_word(&mut cx);
    assert_eq!(input.raw_selected_range(), 6..6);
}

#[test]
fn editable_word_right_at_end() {
    let mut cx = NotificationLog::new();
    let mut input = make_state("hello world", 11..11);
    input.nav_right_word(&mut cx);
    assert_eq!(input.raw_selected_range(), 11..11);
}

#[test]
fn editable_word_right_stops_at_boundary() {
    let mut cx = NotificationLog::new();
    let mut input = make_state("hello world test", 0..0);
    input.nav_right_word(&mut cx);
    assert_eq!(input.raw_selected_range(), 5..5);
}

#[test]
fn editable_select_left_extends_selection() {
    let mut cx = NotificationLog::new();
    let mut input = make_state("hello", 3..3);
    input.select_left(&mut cx);
    assert_eq!(input.raw_selected_range(), 2..3);
}

#[test]
fn editable_select_right_extends_selection() {
    let mut cx = NotificationLog::new();
    let mut input = make_state("hello", 2..2);
    input.select_right(&mut cx);
    assert_eq!(input.raw_selected_range(), 3..2);
}

#[test]
fn editable_select_all() {
    let mut cx = NotificationLog::new();
    let mut input = make_state("hello\nworld", 3..3);
    input.select_all(&mut cx);
    assert_eq!(input.raw_selected_range(), 0..11);
}

#[test]
fn editable_select_to_beginning() {
    let mut cx = NotificationLog::new();
    let mut input = make_state("hello world", 6..6);
    input.select_start(&mut cx);
    assert_eq!(input.raw_selected_range(), 0..6);
}

#[test]
fn editable_select_to_end() {
    let mut cx = NotificationLog::new();
    let mut input = make_state("hello world", 6..6);
    input.select_end(&mut cx);
    assert_eq!(input.raw_selected_range(), 11..6);
}

#[test]
fn editable_backspace_deletes_selection() {
    let mut cx = NotificationLog::new();
    let mut clock = Clock::default();
    let mut input = make_state("hello world", 6..11);
    input.backspace(clock.next(), &mut cx);
    assert_eq!(input.storage().content_utf8(), "hello ");
    assert_eq!(input.raw_selected_range(), 6..6);
}

#[test]
fn editable_backspace_deletes_previous_grapheme() {
    let mut cx = NotificationLog::new();
    let mut clock = Clock::default();
    let mut input = make_state("hello", 5..5);
    input.backspace(clock.next(), &mut cx);
    assert_eq!(input.storage().content_utf8(), "hell");
    assert_eq!(input.raw_selected_range(), 4..4);
}

#[test]
fn editable_backspace_at_start_does_nothing() {
    let mut cx = NotificationLog::new();
    let mut clock = Clock::default();
    let mut input = make_state("hello", 0..0);
    input.backspace(clock.next(), &mut cx);
    assert_eq!(input.storage().content_utf8(), "hello");
    assert_eq!(input.raw_selected_range(), 0..0);
}

#[test]
fn editable_backspace_deletes_entire_emoji() {
    let mut cx = NotificationLog::new();
    let mut clock = Clock::default();
    let mut input = make_state("Hi 👋", 7..7);
    input.backspace(clock.next(), &mut cx);
    assert_eq!(input.storage().content_utf8(), "Hi ");
    assert_eq!(input.raw_selected_range(), 3..3);
}

#[test]
fn editable_delete_deletes_selection() {
    let mut cx = NotificationLog::new();
    let mut clock = Clock::default();
    let mut input = make_state("hello world", 0..5);
    input.delete(clock.next(), &mut cx);
    assert_eq!(input.storage().content_utf8(), " world");
    assert_eq!(input.raw_selected_range(), 0..0);
}

#[test]
fn editable_delete_deletes_next_grapheme() {
    let mut cx = NotificationLog::new();
    let mut clock = Clock::default();
    let mut input = make_state("hello", 0..0);
    input.delete(clock.next(), &mut cx);
    assert_eq!(input.storage().content_utf8(), "ello");
    assert_eq!(input.raw_selected_range(), 0..0);
}

#[test]
fn editable_delete_at_end_does_nothing() {
    let mut cx = NotificationLog::new();
    let mut clock = Clock::default();
    let mut input = make_state("hello", 5..5);
    input.delete(clock.next(), &mut cx);
    assert_eq!(input.storage().content_utf8(), "hello");
    assert_eq!(input.raw_selected_range(), 5..5);
}

#[test]
fn editable_enter_inserts_newline() {
    let mut cx = NotificationLog::new();
    let mut clock = Clock::default();
    let mut input = make_state("hello world", 5..5);
    input.set_layout_modes(true, true);
    input.insert_enter(clock.next(), &mut cx);
    assert_eq!(input.storage().content_utf8(), "hello\n world");
    assert_eq!(input.raw_selected_range(), 6..6);
}

#[test]
fn editable_enter_replaces_selection() {
    let mut cx = NotificationLog::new();
    let mut clock = Clock::default();
    let mut input = make_state("hello world", 5..6);
    input.set_layout_modes(true, true);
    input.insert_enter(clock.next(), &mut cx);
    assert_eq!(input.storage().content_utf8(), "hello\nworld");
    assert_eq!(input.raw_selected_range(), 6..6);
}

#[test]
fn editable_copy_with_selection() {
    let mut cx = NotificationLog::new();
    let mut clipboard: Option<String> = None;
    let mut input = make_state("hello world", 6..11);
    if let Some(t) = input.copy() { clipboard = Some(t); }

    assert!(clipboard.is_some());
    assert_eq!(clipboard.as_deref(), Some("world"));
}

#[test]
fn editable_cut_with_selection() {
    let mut cx = NotificationLog::new();
    let mut clock = Clock::default();
    let mut clipboard: Option<String> = None;
    let mut input = make_state("hello world", 0..5);
    if let Some(t) = input.cut(clock.next(), &mut cx) { clipboard = Some(t); }
    assert_eq!(input.storage().content_utf8(), " world");
    assert_eq!(input.raw_selected_range(), 0..0);

    assert_eq!(clipboard.as_deref(), Some("hello"));
}

#[test]
fn editable_paste_inserts_text() {
    let mut cx = NotificationLog::new();
    let mut clock = Clock::default();
    let mut clipboard: Option<String> = None;
    let mut input = make_state("hello world", 5..5);
    clipboard = Some(" there".to_string());
    if let Some(t) = clipboard.clone() { input.paste(&t, clock.next(), &mut cx); }
    assert_eq!(input.storage().content_utf8(), "hello there world");
    assert_eq!(input.raw_selected_range(), 11..11);
}

#[test]
fn editable_movement_with_multibyte_utf8() {
    let mut cx = NotificationLog::new();
    let mut input = make_state("café", 0..0);
    input.nav_right(&mut cx);
    assert_eq!(input.raw_selected_range(), 1..1);
    input.nav_right(&mut cx);
    assert_eq!(input.raw_selected_range(), 2..2);
    input.nav_right(&mut cx);
    assert_eq!(input.raw_selected_range(), 3..3);
    input.nav_right(&mut cx);
    assert_eq!(input.raw_selected_range(), 5..5);
}

#[test]
fn editable_movement_with_emoji() {
    let mut cx = NotificationLog::new();
    let mut input = make_state("a👋b", 0..0);
    input.nav_right(&mut cx);
    assert_eq!(input.raw_selected_range(), 1..1);
    input.nav_right(&mut cx);
    assert_eq!(input.raw_selected_range(), 5..5);
    input.nav_right(&mut cx);
    assert_eq!(input.raw_selected_range(), 6..6);
}

#[test]
fn editable_selection_with_multibyte_characters() {
    let mut cx = NotificationLog::new();
    let mut input = make_state("日本語", 0..0);
    input.select_right(&mut cx);
    assert_eq!(input.raw_selected_range(), 3..0);
    input.select_right(&mut cx);
    assert_eq!(input.raw_selected_range(), 6..0);
    input.select_right(&mut cx);
    assert_eq!(input.raw_selected_range(), 9..0);
}

#[test]
fn editable_find_line_start_and_end() {
    let mut cx = NotificationLog::new();
    let mut input = make_state("first\nsecond\nthird", 0..0);
    assert_eq!(find_line_start(input.storage().content_utf8(), 0), 0);
    assert_eq!(find_line_start(input.storage().content_utf8(), 3), 0);
    assert_eq!(find_line_start(input.storage().content_utf8(), 6), 6);
    assert_eq!(find_line_start(input.storage().content_utf8(), 13), 13);

    assert_eq!(find_line_end(input.storage().content_utf8(), 0), 5);
    assert_eq!(find_line_end(input.storage().content_utf8(), 6), 12);
    assert_eq!(find_line_end(input.storage().content_utf8(), 13), 18);
}

#[test]
fn editable_operations_on_empty_content() {
    let mut cx = NotificationLog::new();
    let mut clock = Clock::default();
    let mut input = make_state("", 0..0);
    input.nav_left(&mut cx);
    assert_eq!(input.raw_selected_range(), 0..0);

    input.nav_right(&mut cx);
    assert_eq!(input.raw_selected_range(), 0..0);

    input.backspace(clock.next(), &mut cx);
    assert_eq!(input.storage().content_utf8(), "");

    input.delete(clock.next(), &mut cx);
    assert_eq!(input.storage().content_utf8(), "");

    input.select_all(&mut cx);
    assert_eq!(input.raw_selected_range(), 0..0);
}

#[test]
fn editable_set_content_resets_selection() {
    let mut cx = NotificationLog::new();
    let mut clock = Clock::default();
    let mut input = make_state("hello world", 3..8);
    input.replace_and_mark_text_in_range(Some(5..7), " w", None, clock.next(), &mut cx);
    assert_eq!(input.storage().content_utf8(), "hello world");
    assert_eq!(input.marked_range(), Some(5..7));
    input.set_selected_range(3..8);
    input.replace_text_in_range(Some(0..11), "new content", clock.next(), &mut cx);
    assert_eq!(input.storage().content_utf8(), "new content");
    assert_eq!(input.raw_selected_range(), 11..11);
    assert_eq!(input.marked_range(), None);
}

#[test]
fn editable_cursor_clamped_to_content_length() {
    let mut cx = NotificationLog::new();
    let mut input = make_state("hello", 100..100);
    input.move_to(1000, &mut cx);
    assert_eq!(input.raw_selected_range(), 5..5);

    input.set_selected_range(0..0);
    input.select_to(1000, &mut cx);
    assert_eq!(input.raw_selected_range(), 5..0);
}

#[test]
fn editable_previous_boundary_at_start() {
    let mut cx = NotificationLog::new();
    let mut input = make_state("hello", 0..0);
    assert_eq!(previous_boundary(input.storage().content_utf8(), 0), 0);
}

#[test]
fn editable_next_boundary_at_end() {
    let mut cx = NotificationLog::new();
    let mut input = make_state("hello", 0..0);
    assert_eq!(next_boundary(input.storage().content_utf8(), 5), 5);
    assert_eq!(next_boundary(input.storage().content_utf8(), 100), 5);
}

#[test]
fn editable_word_range_at_boundary() {
    let mut cx = NotificationLog::new();
    let mut input = make_state("hello world", 0..0);
    let (start, end) = word_range_at(input.storage().content_utf8(), 5);
    assert_eq!(start, 0);
    assert_eq!(end, 5);

    let (start, end) = word_range_at(input.storage().content_utf8(), 8);
    assert_eq!(start, 6);
    assert_eq!(end, 11);
}

#[test]
fn editable_simple_emoji_navigation() {
    let mut cx = NotificationLog::new();
    // 😀 is 4 bytes in UTF-8
    let mut input = make_state("a😀b", 0..0);
    // Move right through: a -> 😀 -> b
    input.nav_right(&mut cx);
    assert_eq!(input.caret_pos(), 1); // after 'a'

    input.nav_right(&mut cx);
    assert_eq!(input.caret_pos(), 5); // after 😀 (1 + 4 bytes)

    input.nav_right(&mut cx);
    assert_eq!(input.caret_pos(), 6); // after 'b'

    // Move left back
    input.nav_left(&mut cx);
    assert_eq!(input.caret_pos(), 5); // before 'b'

    input.nav_left(&mut cx);
    assert_eq!(input.caret_pos(), 1); // before 😀
}

#[test]
fn editable_emoji_with_skin_tone_modifier() {
    let mut cx = NotificationLog::new();
    // 👋🏽 = 👋 (U+1F44B, 4 bytes) + 🏽 (U+1F3FD, 4 bytes) = 8 bytes total
    let emoji = "👋🏽";
    assert_eq!(emoji.len(), 8);

    let mut input = make_state(&format!("a{}b", emoji), 0..0);
    input.nav_right(&mut cx); // past 'a'
    assert_eq!(input.caret_pos(), 1);

    input.nav_right(&mut cx); // past entire emoji with modifier
    assert_eq!(input.caret_pos(), 9); // 1 + 8

    input.nav_left(&mut cx); // back before emoji
    assert_eq!(input.caret_pos(), 1);
}

#[test]
fn editable_zwj_family_emoji() {
    let mut cx = NotificationLog::new();
    // 👨‍👩‍👧 = man + ZWJ + woman + ZWJ + girl
    // Each person emoji is 4 bytes, ZWJ is 3 bytes
    // Total: 4 + 3 + 4 + 3 + 4 = 18 bytes
    let family = "👨‍👩‍👧";
    assert_eq!(family.len(), 18);

    let mut input = make_state(&format!("x{}y", family), 0..0);
    input.nav_right(&mut cx); // past 'x'
    assert_eq!(input.caret_pos(), 1);

    input.nav_right(&mut cx); // past entire ZWJ sequence
    assert_eq!(input.caret_pos(), 19); // 1 + 18

    input.nav_right(&mut cx); // past 'y'
    assert_eq!(input.caret_pos(), 20);
}

#[test]
fn editable_backspace_deletes_emoji_between_ascii() {
    let mut cx = NotificationLog::new();
    let mut clock = Clock::default();
    let mut input = make_state("a😀b", 5..5); // cursor after emoji
    input.backspace(clock.next(), &mut cx);
    assert_eq!(input.storage().content_utf8(), "ab");
    assert_eq!(input.caret_pos(), 1);
}

#[test]
fn editable_backspace_deletes_zwj_sequence() {
    let mut cx = NotificationLog::new();
    let mut clock = Clock::default();
    let family = "👨‍👩‍👧";
    let content = format!("a{}b", family);
    let cursor_pos = 1 + family.len(); // after the family emoji

    let mut input = make_state(&content, cursor_pos..cursor_pos);
    input.backspace(clock.next(), &mut cx);
    assert_eq!(input.storage().content_utf8(), "ab");
    assert_eq!(input.caret_pos(), 1);
}

#[test]
fn editable_delete_removes_entire_emoji() {
    let mut cx = NotificationLog::new();
    let mut clock = Clock::default();
    let mut input = make_state("a😀b", 1..1); // cursor before emoji
    input.delete(clock.next(), &mut cx);
    assert_eq!(input.storage().content_utf8(), "ab");
    assert_eq!(input.caret_pos(), 1);
}

#[test]
fn editable_flag_emoji_navigation() {
    let mut cx = NotificationLog::new();
    // 🇯🇵 = Regional Indicator J (4 bytes) + Regional Indicator P (4 bytes)
    let flag = "🇯🇵";
    assert_eq!(flag.len(), 8);

    let mut input = make_state(&format!("x{}y", flag), 0..0);
    input.nav_right(&mut cx); // past 'x'
    input.nav_right(&mut cx); // past flag (should be single grapheme)
    assert_eq!(input.caret_pos(), 9); // 1 + 8
}

#[test]
fn editable_combining_diacritical_marks() {
    let mut cx = NotificationLog::new();
    // é as e + combining acute accent (U+0301)
    let combining = "e\u{0301}"; // 1 + 2 = 3 bytes
    assert_eq!(combining.len(), 3);

    let mut input = make_state(&format!("a{}b", combining), 0..0);
    input.nav_right(&mut cx); // past 'a'
    assert_eq!(input.caret_pos(), 1);

    input.nav_right(&mut cx); // past e + combining mark (single grapheme)
    assert_eq!(input.caret_pos(), 4); // 1 + 3

    input.nav_left(&mut cx);
    assert_eq!(input.caret_pos(), 1);
}

#[test]
fn editable_multiple_combining_marks() {
    let mut cx = NotificationLog::new();
    // ë́ = e + combining diaeresis (U+0308) + combining acute (U+0301)
    let multi_combining = "e\u{0308}\u{0301}"; // 1 + 2 + 2 = 5 bytes
    assert_eq!(multi_combining.len(), 5);

    let mut input = make_state(&format!("x{}y", multi_combining), 0..0);
    input.nav_right(&mut cx); // past 'x'
    input.nav_right(&mut cx); // past entire combined character
    assert_eq!(input.caret_pos(), 6); // 1 + 5
}

#[test]
fn editable_select_emoji_with_shift() {
    let mut cx = NotificationLog::new();
    let mut input = make_state("a😀b", 1..1); // cursor before emoji
    input.select_right(&mut cx);
    assert_eq!(input.raw_selected_range(), 5..1); // selected the entire emoji
}

#[test]
fn editable_cjk_characters() {
    let mut cx = NotificationLog::new();
    // 你好 - each character is 3 bytes in UTF-8
    let mut input = make_state("a你好b", 0..0);
    input.nav_right(&mut cx); // past 'a'
    assert_eq!(input.caret_pos(), 1);

    input.nav_right(&mut cx); // past 你
    assert_eq!(input.caret_pos(), 4); // 1 + 3

    input.nav_right(&mut cx); // past 好
    assert_eq!(input.caret_pos(), 7); // 4 + 3

    input.nav_right(&mut cx); // past 'b'
    assert_eq!(input.caret_pos(), 8);
}

#[test]
fn editable_mixed_script_text() {
    let mut cx = NotificationLog::new();
    // Mix of ASCII, CJK, and emoji
    let mut input = make_state("Hi你😀", 0..0);
    input.nav_right(&mut cx); // past 'H'
    assert_eq!(input.caret_pos(), 1);

    input.nav_right(&mut cx); // past 'i'
    assert_eq!(input.caret_pos(), 2);

    input.nav_right(&mut cx); // past 你 (3 bytes)
    assert_eq!(input.caret_pos(), 5);

    input.nav_right(&mut cx); // past 😀 (4 bytes)
    assert_eq!(input.caret_pos(), 9);

    // Now go back
    input.nav_left(&mut cx);
    assert_eq!(input.caret_pos(), 5);

    input.nav_left(&mut cx);
    assert_eq!(input.caret_pos(), 2);
}

#[test]
fn editable_variation_selector_emoji() {
    let mut cx = NotificationLog::new();
    // ☺️ = ☺ (U+263A, 3 bytes) + variation selector-16 (U+FE0F, 3 bytes)
    let emoji_presentation = "☺\u{FE0F}";
    assert_eq!(emoji_presentation.len(), 6);

    let mut input = make_state(&format!("a{}b", emoji_presentation), 0..0);
    input.nav_right(&mut cx); // past 'a'
    input.nav_right(&mut cx); // past emoji with variation selector
    assert_eq!(input.caret_pos(), 7); // 1 + 6
}

#[test]
fn editable_keycap_emoji() {
    let mut cx = NotificationLog::new();
    // 1️⃣ = 1 + variation selector + combining enclosing keycap
    let keycap = "1\u{FE0F}\u{20E3}";

    let mut input = make_state(&format!("x{}y", keycap), 0..0);
    input.nav_right(&mut cx); // past 'x'
    input.nav_right(&mut cx); // past keycap sequence
    let expected_pos = 1 + keycap.len();
    assert_eq!(input.caret_pos(), expected_pos);
}

#[test]
fn editable_single_line_enter_does_nothing() {
    let mut cx = NotificationLog::new();
    let mut clock = Clock::default();
    let mut input = make_single_line_state("hello", 5..5);
    input.insert_enter(clock.next(), &mut cx);
    assert_eq!(input.storage().content_utf8(), "hello");
    assert_eq!(input.raw_selected_range(), 5..5);
}

#[test]
fn editable_single_line_up_moves_to_start() {
    let mut cx = NotificationLog::new();
    let mut input = make_single_line_state("hello world", 5..5);
    input.nav_up(None, &mut cx);
    assert_eq!(input.raw_selected_range(), 0..0);
}

#[test]
fn editable_single_line_down_moves_to_end() {
    let mut cx = NotificationLog::new();
    let mut input = make_single_line_state("hello world", 5..5);
    input.nav_down(None, &mut cx);
    assert_eq!(input.raw_selected_range(), 11..11); // "hello world".len() == 11
}

#[test]
fn editable_single_line_select_up_selects_to_start() {
    let mut cx = NotificationLog::new();
    let mut input = make_single_line_state("hello world", 5..5);
    input.select_up(None, &mut cx);
    assert_eq!(input.raw_selected_range(), 0..5);
}

#[test]
fn editable_single_line_select_down_selects_to_end() {
    let mut cx = NotificationLog::new();
    let mut input = make_single_line_state("hello world", 5..5);
    input.select_down(None, &mut cx);
    assert_eq!(input.raw_selected_range(), 11..5); // "hello world".len() == 11
}

#[test]
fn editable_undo_restores_content() {
    let mut cx = NotificationLog::new();
    let mut clock = Clock::default();
    let mut input = make_state("hello", 5..5);

    // Make an edit
    input.replace_text_in_range(None, " world", clock.next(), &mut cx);
    assert_eq!(input.storage().content_utf8(), "hello world");

    // Undo should restore original content
    undo(&mut input, &mut cx);
    assert_eq!(input.storage().content_utf8(), "hello");
}

#[test]
fn editable_redo_restores_undone_content() {
    let mut cx = NotificationLog::new();
    let mut clock = Clock::default();
    let mut input = make_state("hello", 5..5);

    input.replace_text_in_range(None, " world", clock.next(), &mut cx);
    assert_eq!(input.storage().content_utf8(), "hello world");

    undo(&mut input, &mut cx);
    assert_eq!(input.storage().content_utf8(), "hello");

    redo(&mut input, &mut cx);
    assert_eq!(input.storage().content_utf8(), "hello world");
}

#[test]
fn editable_undo_with_no_history_does_nothing() {
    let mut cx = NotificationLog::new();
    let mut input = make_state("hello", 0..0);
    assert!(!is_history_kind_available(&input, HistoryKind::Undo));
    undo(&mut input, &mut cx);
    assert_eq!(input.storage().content_utf8(), "hello");
}

#[test]
fn editable_redo_with_no_history_does_nothing() {
    let mut cx = NotificationLog::new();
    let mut input = make_state("hello", 0..0);
    assert!(!is_history_kind_available(&input, HistoryKind::Redo));
    redo(&mut input, &mut cx);
    assert_eq!(input.storage().content_utf8(), "hello");
}

#[test]
fn editable_undo_restores_selection() {
    let mut cx = NotificationLog::new();
    let mut clock = Clock::default();
    let mut input = make_state("hello world", 0..5);

    // Delete selection
    input.replace_text_in_range(None, "", clock.next(), &mut cx);
    assert_eq!(input.storage().content_utf8(), " world");
    assert_eq!(input.raw_selected_range(), 0..0);

    // Undo should restore content and selection
    undo(&mut input, &mut cx);
    assert_eq!(input.storage().content_utf8(), "hello world");
    assert_eq!(input.raw_selected_range(), 0..5);
}

#[test]
fn editable_multiple_undo_redo() {
    let mut cx = NotificationLog::new();
    let mut clock = Clock::default();
    let mut input = make_state("", 0..0);

    input.replace_text_in_range(None, "a", clock.next(), &mut cx);
    input.replace_text_in_range(None, "b", clock.next(), &mut cx);
    input.replace_text_in_range(None, "c", clock.next(), &mut cx);
    assert_eq!(input.storage().content_utf8(), "abc");

    undo(&mut input, &mut cx);
    assert_eq!(input.storage().content_utf8(), "ab");

    undo(&mut input, &mut cx);
    assert_eq!(input.storage().content_utf8(), "a");

    undo(&mut input, &mut cx);
    assert_eq!(input.storage().content_utf8(), "");

    redo(&mut input, &mut cx);
    assert_eq!(input.storage().content_utf8(), "a");

    redo(&mut input, &mut cx);
    assert_eq!(input.storage().content_utf8(), "ab");

    redo(&mut input, &mut cx);
    assert_eq!(input.storage().content_utf8(), "abc");
}

#[test]
fn editable_new_edit_clears_redo_stack() {
    let mut cx = NotificationLog::new();
    let mut clock = Clock::default();
    let mut input = make_state("hello", 5..5);

    input.replace_text_in_range(None, " world", clock.next(), &mut cx);
    assert_eq!(input.storage().content_utf8(), "hello world");

    undo(&mut input, &mut cx);
    assert_eq!(input.storage().content_utf8(), "hello");
    assert!(is_history_kind_available(&input, HistoryKind::Redo));

    // New edit should clear redo stack
    input.replace_text_in_range(None, "!", clock.next(), &mut cx);
    assert_eq!(input.storage().content_utf8(), "hello!");
    assert!(!is_history_kind_available(&input, HistoryKind::Redo));
}

#[test]
fn editable_can_undo_can_redo() {
    let mut cx = NotificationLog::new();
    let mut clock = Clock::default();
    let mut input = make_state("hello", 5..5);

    assert!(!is_history_kind_available(&input, HistoryKind::Undo));
    assert!(!is_history_kind_available(&input, HistoryKind::Redo));

    input.replace_text_in_range(None, "!", clock.next(), &mut cx);
    assert!(is_history_kind_available(&input, HistoryKind::Undo));
    assert!(!is_history_kind_available(&input, HistoryKind::Redo));

    undo(&mut input, &mut cx);
    assert!(!is_history_kind_available(&input, HistoryKind::Undo));
    assert!(is_history_kind_available(&input, HistoryKind::Redo));

    redo(&mut input, &mut cx);
    assert!(is_history_kind_available(&input, HistoryKind::Undo));
    assert!(!is_history_kind_available(&input, HistoryKind::Redo));
}

#[test]
fn editable_backspace_is_undoable() {
    let mut cx = NotificationLog::new();
    let mut clock = Clock::default();
    let mut input = make_state("hello", 5..5);

    input.backspace(clock.next(), &mut cx);
    assert_eq!(input.storage().content_utf8(), "hell");

    undo(&mut input, &mut cx);
    assert_eq!(input.storage().content_utf8(), "hello");
}

#[test]
fn editable_delete_is_undoable() {
    let mut cx = NotificationLog::new();
    let mut clock = Clock::default();
    let mut input = make_state("hello", 0..0);

    input.delete(clock.next(), &mut cx);
    assert_eq!(input.storage().content_utf8(), "ello");

    undo(&mut input, &mut cx);
    assert_eq!(input.storage().content_utf8(), "hello");
}

#[test]
fn editable_cut_is_undoable() {
    let mut cx = NotificationLog::new();
    let mut clock = Clock::default();
    let mut clipboard: Option<String> = None;
    let mut input = make_state("hello world", 0..5);

    if let Some(t) = input.cut(clock.next(), &mut cx) { clipboard = Some(t); }
    assert_eq!(input.storage().content_utf8(), " world");

    undo(&mut input, &mut cx);
    assert_eq!(input.storage().content_utf8(), "hello world");
}

#[test]
fn editable_cut_line_with_no_selection() {
    let mut cx = NotificationLog::new();
    let mut clock = Clock::default();
    let mut clipboard: Option<String> = None;
    // Cursor in middle line, no selection - should cut entire line including newline
    let mut input = make_state("line1\nline2\nline3", 8..8); // cursor in "line2"
    if let Some(t) = input.cut(clock.next(), &mut cx) { clipboard = Some(t); }
    assert_eq!(input.storage().content_utf8(), "line1\nline3");

    assert_eq!(clipboard.as_deref(), Some("line2\n"));
}

#[test]
fn editable_cut_first_line_with_no_selection() {
    let mut cx = NotificationLog::new();
    let mut clock = Clock::default();
    let mut clipboard: Option<String> = None;
    // Cursor on first line, no selection
    let mut input = make_state("line1\nline2\nline3", 2..2); // cursor in "line1"
    if let Some(t) = input.cut(clock.next(), &mut cx) { clipboard = Some(t); }
    assert_eq!(input.storage().content_utf8(), "line2\nline3");

    assert_eq!(clipboard.as_deref(), Some("line1\n"));
}

#[test]
fn editable_cut_last_line_with_no_selection() {
    let mut cx = NotificationLog::new();
    let mut clock = Clock::default();
    let mut clipboard: Option<String> = None;
    // Cursor on last line, no selection - should include preceding newline
    let mut input = make_state("line1\nline2\nline3", 14..14); // cursor in "line3"
    if let Some(t) = input.cut(clock.next(), &mut cx) { clipboard = Some(t); }
    assert_eq!(input.storage().content_utf8(), "line1\nline2");

    assert_eq!(clipboard.as_deref(), Some("\nline3"));
}

#[test]
fn editable_cut_empty_line() {
    let mut cx = NotificationLog::new();
    let mut clock = Clock::default();
    let mut clipboard: Option<String> = None;
    // Cursor on empty line - should remove that line
    let mut input = make_state("line1\n\nline3", 6..6); // cursor on empty line
    if let Some(t) = input.cut(clock.next(), &mut cx) { clipboard = Some(t); }
    assert_eq!(input.storage().content_utf8(), "line1\nline3");

    assert_eq!(clipboard.as_deref(), Some("\n"));
}

#[test]
fn editable_cut_only_line_with_no_selection() {
    let mut cx = NotificationLog::new();
    let mut clock = Clock::default();
    let mut clipboard: Option<String> = None;
    // Single line content, no selection - should cut entire content
    let mut input = make_state("hello", 2..2);
    if let Some(t) = input.cut(clock.next(), &mut cx) { clipboard = Some(t); }
    assert_eq!(input.storage().content_utf8(), "");

    assert_eq!(clipboard.as_deref(), Some("hello"));
}

#[test]
fn editable_cut_line_is_undoable() {
    let mut cx = NotificationLog::new();
    let mut clock = Clock::default();
    let mut clipboard: Option<String> = None;
    let mut input = make_state("line1\nline2\nline3", 8..8);

    if let Some(t) = input.cut(clock.next(), &mut cx) { clipboard = Some(t); }
    assert_eq!(input.storage().content_utf8(), "line1\nline3");

    undo(&mut input, &mut cx);
    assert_eq!(input.storage().content_utf8(), "line1\nline2\nline3");
}

#[test]
fn editable_paste_is_undoable() {
    let mut cx = NotificationLog::new();
    let mut clock = Clock::default();
    let mut clipboard: Option<String> = None;
    let mut input = make_state("hello", 5..5);
    clipboard = Some(" world".to_string());

    if let Some(t) = clipboard.clone() { input.paste(&t, clock.next(), &mut cx); }
    assert_eq!(input.storage().content_utf8(), "hello world");

    undo(&mut input, &mut cx);
    assert_eq!(input.storage().content_utf8(), "hello");
}

#[test]
fn editable_enter_is_undoable() {
    let mut cx = NotificationLog::new();
    let mut clock = Clock::default();
    let mut input = make_state("hello world", 5..5);
    input.set_layout_modes(true, true);

    input.insert_enter(clock.next(), &mut cx);
    assert_eq!(input.storage().content_utf8(), "hello\n world");

    undo(&mut input, &mut cx);
    assert_eq!(input.storage().content_utf8(), "hello world");
}

#[test]
fn editable_delete_word_left() {
    let mut cx = NotificationLog::new();
    let mut clock = Clock::default();
    // Cursor at end of "hello" in "hello world"
    let mut input = make_state("hello world", 5..5);
    input.delete_word_left(clock.next(), &mut cx);
    assert_eq!(input.storage().content_utf8(), " world");
    assert_eq!(input.raw_selected_range(), 0..0);
}

#[test]
fn editable_delete_word_left_with_selection() {
    let mut cx = NotificationLog::new();
    let mut clock = Clock::default();
    // Selection from 0 to 5 ("hello")
    let mut input = make_state("hello world", 0..5);
    input.delete_word_left(clock.next(), &mut cx);
    assert_eq!(input.storage().content_utf8(), " world");
}

#[test]
fn editable_delete_word_left_at_start() {
    let mut cx = NotificationLog::new();
    let mut clock = Clock::default();
    let mut input = make_state("hello world", 0..0);
    input.delete_word_left(clock.next(), &mut cx);
    assert_eq!(input.storage().content_utf8(), "hello world");
}

#[test]
fn editable_delete_word_right() {
    let mut cx = NotificationLog::new();
    let mut clock = Clock::default();
    // Cursor at start
    let mut input = make_state("hello world", 0..0);
    input.delete_word_right(clock.next(), &mut cx);
    assert_eq!(input.storage().content_utf8(), " world");
    assert_eq!(input.raw_selected_range(), 0..0);
}

#[test]
fn editable_delete_word_right_with_selection() {
    let mut cx = NotificationLog::new();
    let mut clock = Clock::default();
    let mut input = make_state("hello world", 0..5);
    input.delete_word_right(clock.next(), &mut cx);
    assert_eq!(input.storage().content_utf8(), " world");
}

#[test]
fn editable_delete_word_right_at_end() {
    let mut cx = NotificationLog::new();
    let mut clock = Clock::default();
    let mut input = make_state("hello world", 11..11);
    input.delete_word_right(clock.next(), &mut cx);
    assert_eq!(input.storage().content_utf8(), "hello world");
}

#[test]
fn editable_delete_to_beginning_of_line() {
    let mut cx = NotificationLog::new();
    let mut clock = Clock::default();
    let mut input = make_state("hello world", 5..5);
    input.delete_to_line_start(clock.next(), &mut cx);
    assert_eq!(input.storage().content_utf8(), " world");
    assert_eq!(input.raw_selected_range(), 0..0);
}

#[test]
fn editable_delete_to_beginning_of_line_multiline() {
    let mut cx = NotificationLog::new();
    let mut clock = Clock::default();
    // Cursor at position 8 (middle of "line2")
    let mut input = make_state("line1\nline2\nline3", 8..8);
    input.delete_to_line_start(clock.next(), &mut cx);
    assert_eq!(input.storage().content_utf8(), "line1\nne2\nline3");
}

#[test]
fn editable_delete_to_beginning_of_line_at_start() {
    let mut cx = NotificationLog::new();
    let mut clock = Clock::default();
    let mut input = make_state("hello world", 0..0);
    input.delete_to_line_start(clock.next(), &mut cx);
    assert_eq!(input.storage().content_utf8(), "hello world");
}

#[test]
fn editable_delete_to_end_of_line() {
    let mut cx = NotificationLog::new();
    let mut clock = Clock::default();
    let mut input = make_state("hello world", 5..5);
    input.delete_to_line_end(clock.next(), &mut cx);
    assert_eq!(input.storage().content_utf8(), "hello");
    assert_eq!(input.raw_selected_range(), 5..5);
}

#[test]
fn editable_delete_to_end_of_line_multiline() {
    let mut cx = NotificationLog::new();
    let mut clock = Clock::default();
    // Cursor at position 8 (middle of "line2")
    let mut input = make_state("line1\nline2\nline3", 8..8);
    input.delete_to_line_end(clock.next(), &mut cx);
    assert_eq!(input.storage().content_utf8(), "line1\nli\nline3");
}

#[test]
fn editable_delete_to_end_of_line_at_end() {
    let mut cx = NotificationLog::new();
    let mut clock = Clock::default();
    let mut input = make_state("hello world", 11..11);
    input.delete_to_line_end(clock.next(), &mut cx);
    assert_eq!(input.storage().content_utf8(), "hello world");
}

#[test]
fn editable_delete_word_left_is_undoable() {
    let mut cx = NotificationLog::new();
    let mut clock = Clock::default();
    let mut input = make_state("hello world", 5..5);

    input.delete_word_left(clock.next(), &mut cx);
    assert_eq!(input.storage().content_utf8(), " world");

    undo(&mut input, &mut cx);
    assert_eq!(input.storage().content_utf8(), "hello world");
}

#[test]
fn editable_delete_word_right_is_undoable() {
    let mut cx = NotificationLog::new();
    let mut clock = Clock::default();
    let mut input = make_state("hello world", 6..6);

    input.delete_word_right(clock.next(), &mut cx);
    assert_eq!(input.storage().content_utf8(), "hello ");

    undo(&mut input, &mut cx);
    assert_eq!(input.storage().content_utf8(), "hello world");
}

#[test]
fn editable_delete_to_beginning_of_line_is_undoable() {
    let mut cx = NotificationLog::new();
    let mut clock = Clock::default();
    let mut input = make_state("hello world", 5..5);

    input.delete_to_line_start(clock.next(), &mut cx);
    assert_eq!(input.storage().content_utf8(), " world");

    undo(&mut input, &mut cx);
    assert_eq!(input.storage().content_utf8(), "hello world");
}

#[test]
fn editable_delete_to_end_of_line_is_undoable() {
    let mut cx = NotificationLog::new();
    let mut clock = Clock::default();
    let mut input = make_state("hello world", 5..5);

    input.delete_to_line_end(clock.next(), &mut cx);
    assert_eq!(input.storage().content_utf8(), "hello");

    undo(&mut input, &mut cx);
    assert_eq!(input.storage().content_utf8(), "hello world");
}

// ------------------------------------------------------------
// Further behaviour of the editable state
// ------------------------------------------------------------

#[test]
fn editable_edits_report_changes() {
    let mut cx = NotificationLog::new();
    let mut clock = Clock::default();
    let mut input = make_state("hello", 5..5);
    input.backspace(clock.next(), &mut cx);
    assert_eq!(count(&cx, Notification::TextChanged), 1);
    assert!(count(&cx, Notification::Changed) >= 1);
    input.nav_left(&mut cx);
    assert_eq!(count(&cx, Notification::TextChanged), 1);
    assert_eq!(count(&cx, Notification::HistoryPushed), 0);
}

#[test]
fn editable_reversed_selection_is_copied_and_cut() {
    let mut cx = NotificationLog::new();
    let mut clock = Clock::default();
    let mut input = make_state("hello world", 6..6);
    input.select_end(&mut cx);
    assert_eq!(input.raw_selected_range(), 11..6);
    assert_eq!(input.selected_range(), 6..11);
    assert_eq!(input.copy(), Some("world".to_string()));
    assert_eq!(input.cut(clock.next(), &mut cx), Some("world".to_string()));
    assert_eq!(input.storage().content_utf8(), "hello ");
    assert_eq!(input.raw_selected_range(), 6..6);
}

#[test]
fn editable_reversed_selection_collapses_to_its_ends() {
    let mut cx = NotificationLog::new();
    let mut input = make_state("hello world", 8..2);
    input.nav_left(&mut cx);
    assert_eq!(input.raw_selected_range(), 2..2);
    let mut input = make_state("hello world", 8..2);
    input.nav_right(&mut cx);
    assert_eq!(input.raw_selected_range(), 8..8);
}

#[test]
fn editable_selection_direction_follows_the_caret() {
    // the caret (stored first) after the anchor: a forward selection
    let input = make_state("hello", 4..1);
    assert_eq!(input.selection_direction(), Some(NavigationDirection::Forward));
    let input = make_state("hello", 1..4);
    assert_eq!(input.selection_direction(), Some(NavigationDirection::Back));
    let mut cx = NotificationLog::new();
    let mut input = make_state("hello", 2..2);
    input.select_right(&mut cx);
    assert_eq!(input.raw_selected_range(), 3..2);
    assert_eq!(input.selection_direction(), Some(NavigationDirection::Forward));
    let input = make_state("hello", 2..2);
    assert_eq!(input.selection_direction(), None);
}

#[test]
fn editable_input_disabled_ignores_edits() {
    let mut cx = NotificationLog::new();
    let mut clock = Clock::default();
    let mut input = make_single_line_state("hello", 2..4);
    input.backspace(clock.next(), &mut cx);
    input.insert_tab(clock.next(), &mut cx);
    input.paste("x", clock.next(), &mut cx);
    assert_eq!(input.cut(clock.next(), &mut cx), None);
    assert_eq!(input.storage().content_utf8(), "hello");
    assert_eq!(input.raw_selected_range(), 2..4);
    assert_eq!(count(&cx, Notification::TextChanged), 0);
}

#[test]
fn editable_multiline_vertical_moves_follow_the_layout() {
    let mut cx = NotificationLog::new();
    let mut input = make_state("ab\ncd", 4..4);
    input.set_layout_modes(true, true);
    input.nav_up(Some(1), &mut cx);
    assert_eq!(input.raw_selected_range(), 1..1);
    input.nav_down(None, &mut cx);
    assert_eq!(input.raw_selected_range(), 1..1);
    input.select_down(Some(4), &mut cx);
    assert_eq!(input.raw_selected_range(), 4..1);
    input.select_up(Some(100), &mut cx);
    assert_eq!(input.raw_selected_range(), 5..1);
}

#[test]
fn editable_mouse_clicks_select_words_and_lines() {
    let mut cx = NotificationLog::new();
    let mut input = make_state("hello big\nworld", 0..0);
    input.on_mouse_down(7, 1, false, false, &mut cx);
    assert_eq!(input.raw_selected_range(), 7..7);
    input.on_mouse_move(9, &mut cx);
    assert_eq!(input.raw_selected_range(), 9..7);
    input.on_mouse_up();
    input.on_mouse_move(2, &mut cx);
    assert_eq!(input.raw_selected_range(), 9..7);
    input.on_mouse_down(7, 2, true, false, &mut cx);
    assert_eq!(input.raw_selected_range(), 6..9);
    input.on_mouse_down(7, 3, true, false, &mut cx);
    assert_eq!(input.raw_selected_range(), 0..10);
    input.on_mouse_down(12, 3, true, false, &mut cx);
    assert_eq!(input.raw_selected_range(), 10..15);
    // a press elsewhere starts over with a single click
    input.on_mouse_down(3, 2, false, false, &mut cx);
    assert_eq!(input.raw_selected_range(), 3..3);
    input.on_mouse_down(1, 1, false, true, &mut cx);
    assert_eq!(input.raw_selected_range(), 1..3);
}

#[test]
fn editable_ime_ranges_are_in_utf16() {
    let mut cx = NotificationLog::new();
    let mut clock = Clock::default();
    let mut input = make_state("a😀b", 1..5);
    let sel = input.selected_text_range().unwrap();
    assert_eq!(sel.range, 1..3);
    assert!(sel.reversed);
    let mut adjusted = None;
    assert_eq!(input.text_for_range(1..3, &mut adjusted), Some("😀".to_string()));
    assert_eq!(adjusted, Some(1..3));
    assert_eq!(input.text_for_range(3..100, &mut adjusted), Some("b".to_string()));
    assert_eq!(adjusted, Some(3..4));
    assert_eq!(input.marked_text_range(), None);
    // compose "ni" in place of the emoji, caret inside the composition
    input.replace_and_mark_text_in_range(Some(1..3), "ni", Some(1..1), clock.next(), &mut cx);
    assert_eq!(input.storage().content_utf8(), "anib");
    assert_eq!(input.marked_range(), Some(1..3));
    assert_eq!(input.marked_text_range(), Some(1..3));
    assert_eq!(input.raw_selected_range(), 2..2);
    // the composition is replaced by the committed text
    input.replace_text_in_range(None, "你", clock.next(), &mut cx);
    assert_eq!(input.storage().content_utf8(), "a你b");
    assert_eq!(input.marked_range(), None);
    assert_eq!(input.raw_selected_range(), 4..4);
    input.unmark_text();
    assert_eq!(input.marked_range(), None);
}

#[test]
fn editable_escape_collapses_to_start() {
    let mut cx = NotificationLog::new();
    let mut input = make_state("hello", 1..4);
    input.escape(&mut cx);
    assert_eq!(input.raw_selected_range(), 0..0);
}

#[test]
fn editable_replace_text_clamps_and_keeps_history() {
    let mut input = make_state("hello", 0..0);
    input.replace_text(&(3..100), "p!");
    assert_eq!(input.storage().content_utf8(), "help!");
    assert_eq!(input.raw_selected_range(), 5..5);
    input.replace_text(&(4..1), "");
    assert_eq!(input.storage().content_utf8(), "help!");
    assert_eq!(input.raw_selected_range(), 4..4);
    assert!(!is_history_kind_available(&input, HistoryKind::Undo));
}

#[test]
fn editable_replace_bytes_records_the_edit() {
    let mut cx = NotificationLog::new();
    let mut input = make_state("hello", 1..3);
    input.replace_text_in_range_bytes(1..3, "EE", 1000);
    assert_eq!(input.storage().content_utf8(), "hEElo");
    assert_eq!(input.raw_selected_range(), 3..3);
    undo(&mut input, &mut cx);
    assert_eq!(input.storage().content_utf8(), "hello");
    assert_eq!(input.raw_selected_range(), 1..3);
    redo(&mut input, &mut cx);
    assert_eq!(input.storage().content_utf8(), "hEElo");
    assert_eq!(input.raw_selected_range(), 1..3);
}

#[test]
fn editable_grouped_edits_undo_together() {
    let mut cx = NotificationLog::new();
    let mut input = make_state("", 0..0);
    input.replace_text_in_range(None, "a", 1000, &mut cx);
    input.replace_text_in_range(None, "b", 1100, &mut cx);
    assert_eq!(input.storage().content_utf8(), "ab");
    // the second edit extended the first entry: one undo removes both
    undo(&mut input, &mut cx);
    assert_eq!(input.storage().content_utf8(), "");
    assert_eq!(input.raw_selected_range(), 0..0);
    assert!(!is_history_kind_available(&input, HistoryKind::Undo));
    redo(&mut input, &mut cx);
    assert_eq!(input.storage().content_utf8(), "ab");
}

#[test]
fn editable_history_not_ready_when_selection_would_not_fit() {
    let mut cx = NotificationLog::new();
    let mut clock = Clock::default();
    let mut input = make_state("hello", 0..5);
    input.backspace(clock.next(), &mut cx);
    assert_eq!(input.storage().content_utf8(), "");
    undo(&mut input, &mut cx);
    assert_eq!(input.storage().content_utf8(), "hello");
    assert_eq!(input.raw_selected_range(), 0..5);
    // redoing would restore the selection 0..5 in an empty text
    assert!(!input.history_ready(HistoryKind::Redo));
}

#[test]
fn editable_new_state_has_an_empty_history() {
    let input = EditableTextState::new(Standard::from_str("abc"));
    assert_eq!(input.storage().content_utf8(), "abc");
    assert_eq!(input.caret_pos(), 0);
    assert_eq!(input.selected_range(), 0..0);
    assert_eq!(input.marked_range(), None);
    assert!(input.history().is_some());
    assert!(!is_history_kind_available(&input, HistoryKind::Undo));
    assert!(!is_history_kind_available(&input, HistoryKind::Redo));
}

#[test]
fn editable_replace_and_mark_readiness() {
    let input = make_state("ab", 0..0);
    assert!(input.replace_and_mark_ready(&Some(0..1), "x", &None));
    assert!(!input.replace_and_mark_ready(&Some(1..0), "x", &None));
    assert!(input.replace_and_mark_ready(&Some(1..1), "x", &Some(2..2)));
    // the selection would end past the new text "axb"
    assert!(!input.replace_and_mark_ready(&Some(1..1), "x", &Some(3..3)));
}

#[test]
fn editable_cut_then_paste_restores_text() {
    let mut cx = NotificationLog::new();
    let mut clock = Clock::default();
    let mut input = make_state("héllo wörld", 3..8);
    let cut = input.cut(clock.next(), &mut cx).unwrap();
    assert_eq!(cut, "llo w");
    assert_eq!(input.storage().content_utf8(), "héörld");
    input.paste(&cut, clock.next(), &mut cx);
    assert_eq!(input.storage().content_utf8(), "héllo wörld");
    assert_eq!(input.raw_selected_range(), 8..8);
}

#[test]
fn editable_undo_after_edit_leaves_nothing_to_redo_until_undone() {
    let mut cx = NotificationLog::new();
    let mut clock = Clock::default();
    let mut input = make_state("abc", 1..2);
    input.replace_text_in_range(None, "XYZ", clock.next(), &mut cx);
    assert!(!is_history_kind_available(&input, HistoryKind::Redo));
    undo(&mut input, &mut cx);
    assert_eq!(input.storage().content_utf8(), "abc");
    assert_eq!(input.raw_selected_range(), 1..2);
    assert!(is_history_kind_available(&input, HistoryKind::Redo));
}

#[test]
fn editable_select_all_then_delete_empties_text() {
    let mut cx = NotificationLog::new();
    let mut clock = Clock::default();
    let mut input = make_state("héllo\nwörld", 2..2);
    input.select_all(&mut cx);
    input.delete_word_right(clock.next(), &mut cx);
    assert_eq!(input.storage().content_utf8(), "");
    assert_eq!(input.raw_selected_range(), 0..0);
}

#[test]
fn editable_notifications_follow_each_action() {
    let mut clock = Clock::default();
    let mut input = make_state("hello", 5..5);
    let mut log = NotificationLog::new();
    input.backspace(clock.next(), &mut log);
    assert_eq!(log.entries().clone(), vec![Notification::TextChanged, Notification::Changed]);
    let mut log = NotificationLog::new();
    input.nav_left(&mut log);
    assert_eq!(log.entries().clone(), vec![Notification::Changed]);
    // a single-line element moves to the line start
    let mut log = NotificationLog::new();
    input.nav_up(None, &mut log);
    assert_eq!(log.entries().clone(), vec![Notification::Changed]);
    // a multi-line element without a row above does not move
    input.set_layout_modes(true, true);
    let mut log = NotificationLog::new();
    input.nav_up(None, &mut log);
    assert!(log.entries().is_empty());
    input.set_layout_modes(false, true);
    let mut log = NotificationLog::new();
    input.undo(&mut log);
    assert_eq!(log.entries().clone(), vec![Notification::Changed]);
    let mut log = NotificationLog::new();
    input.undo(&mut log);
    assert!(log.entries().is_empty());
}

#[test]
fn editable_cut_without_input_sends_nothing() {
    let mut clock = Clock::default();
    let mut input = make_state("hello", 1..3);
    input.set_layout_modes(false, false);
    let mut log = NotificationLog::new();
    assert_eq!(input.cut(clock.next(), &mut log), None);
    assert!(log.entries().is_empty());
    assert_eq!(input.storage().content_utf8(), "hello");
    input.paste("x", clock.next(), &mut log);
    input.backspace(clock.next(), &mut log);
    assert!(log.entries().is_empty());
}
