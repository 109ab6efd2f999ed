//! The state model of a text input: content, selection, IME marked text and
//! undo/redo history, driven by editing and navigation actions.
use vstd::prelude::*;
use std::ops::Range;
use crate::text::{
    byte_len, byte_slice, char_index, chars_of, is_utf8_boundary, lemma_ends_are_boundaries,
    lemma_index_of_boundary, lemma_slice, lemma_splice, lemma_splice_prefix_boundary, splice,
    str_slice, string_push, string_replace_range, utf16_len, utf8_len,
};
use crate::boundaries::{
    clamp_to_len, find_line_end, find_line_start, floor_boundary, floor_char_boundary,
    lemma_floor_boundary, line_end, line_start, next_boundary,
    next_grapheme, next_word, next_word_boundary, previous_boundary, previous_grapheme,
    previous_word, previous_word_boundary, span_containing, word_range, word_range_at,
    lemma_span_containing, NavigationDirection,
};
use crate::segmentation::word_spans;
use crate::history::{
    apply_patch, can_merge, merge_entry, merged, normalized, patch_applicable, HistoryEntry, Patch, DEFAULT_GROUP_INTERVAL_MS, MAX_HISTORY_LEN,
};
use crate::unicode::{hint_matches, UnicodeString};

verus! {

/// Events emitted by InputState when significant changes occur.
#[derive(Clone, Copy, Debug, PartialEq, Eq, Structural)]
pub enum InputStateEvent {
    /// Emitted when the input gains focus.
    Focus,
    /// Emitted when the input loses focus.
    Blur,
    /// Emitted when the text content changes.
    TextChanged,
    /// Emitted when an undo operation is performed.
    Undo,
    /// Emitted when a redo operation is performed.
    Redo,
}

/// Whether an input holds a single line of text or several.
#[derive(Clone, Copy, Debug, PartialEq, Eq, Structural)]
pub enum InputLayoutStyle {
    /// One line: line breaks are turned into spaces.
    SingleLine,
    /// Several lines, separated by `'\n'`.
    MultiLine,
}

/// The characters of `s` as a single line: each `"\r\n"`, `'\n'` and `'\r'` becomes a space.
pub open spec fn single_line(s: Seq<char>) -> Seq<char>
    decreases s.len(),
{
    if s.len() == 0 {
        Seq::empty()
    } else if s.len() > 1 && s[0] == '\r' && s[1] == '\n' {
        seq![' '] + single_line(s.skip(2))
    } else if s[0] == '\n' || s[0] == '\r' {
        seq![' '] + single_line(s.drop_first())
    } else {
        seq![s[0]] + single_line(s.drop_first())
    }
}

/// The text that an input of the given style keeps of `s`.
pub open spec fn sanitized(style: InputLayoutStyle, s: Seq<char>) -> Seq<char> {
    match style {
        InputLayoutStyle::SingleLine => single_line(s),
        InputLayoutStyle::MultiLine => s,
    }
}

proof fn lemma_single_line_len(s: Seq<char>)
    ensures
        utf8_len(single_line(s)) <= utf8_len(s),
    decreases s.len(),
{
    if s.len() > 0 {
        let c = s[0];
        if s.len() > 1 && s[0] == '\r' && s[1] == '\n' {
            lemma_single_line_len(s.skip(2));
            assert(s =~= seq![s[0]] + (seq![s[1]] + s.skip(2)));
            crate::text::lemma_utf8_len_concat(seq![s[0]], seq![s[1]] + s.skip(2));
            crate::text::lemma_utf8_len_concat(seq![s[1]], s.skip(2));
            crate::text::lemma_utf8_len_concat(seq![' '], single_line(s.skip(2)));
            crate::text::lemma_utf8_len_single(s[0]);
            crate::text::lemma_utf8_len_single(s[1]);
            crate::text::lemma_utf8_len_single(' ');
        } else {
            lemma_single_line_len(s.drop_first());
            assert(s =~= seq![s[0]] + s.drop_first());
            crate::text::lemma_utf8_len_concat(seq![s[0]], s.drop_first());
            crate::text::lemma_utf8_len_single(s[0]);
            crate::text::lemma_utf8_len_single(' ');
            if s[0] == '\n' || s[0] == '\r' {
                crate::text::lemma_utf8_len_concat(seq![' '], single_line(s.drop_first()));
                assert((s[0] as u32) == 10 || (s[0] as u32) == 13);
            } else {
                crate::text::lemma_utf8_len_concat(seq![s[0]], single_line(s.drop_first()));
            }
        }
    }
}

/// A single-line text holds no line break.
pub proof fn lemma_single_line_has_no_breaks(s: Seq<char>)
    ensures
        forall|i: int|
            0 <= i < single_line(s).len() ==> #[trigger] single_line(s)[i] != '\n' && single_line(
                s,
            )[i] != '\r',
    decreases s.len(),
{
    if s.len() > 0 {
        if s.len() > 1 && s[0] == '\r' && s[1] == '\n' {
            lemma_single_line_has_no_breaks(s.skip(2));
            assert forall|i: int| 0 <= i < single_line(s).len() implies #[trigger] single_line(s)[i]
                != '\n' && single_line(s)[i] != '\r' by {
                if i > 0 {
                    assert(single_line(s)[i] == single_line(s.skip(2))[i - 1]);
                }
            }
        } else {
            lemma_single_line_has_no_breaks(s.drop_first());
            assert forall|i: int| 0 <= i < single_line(s).len() implies #[trigger] single_line(s)[i]
                != '\n' && single_line(s)[i] != '\r' by {
                if i > 0 {
                    assert(single_line(s)[i] == single_line(s.drop_first())[i - 1]);
                }
            }
        }
    }
}

impl InputLayoutStyle {
    /// The text an input of this style keeps of `text`: a single-line input keeps no
    /// line break.
    pub fn sanitize_content(&self, text: &str) -> (r: String)
        ensures
            r@ == sanitized(*self, text@),
            utf8_len(r@) <= utf8_len(text@),
            *self == InputLayoutStyle::SingleLine ==> forall|i: int|
                0 <= i < r@.len() ==> #[trigger] r@[i] != '\n' && r@[i] != '\r',
    {
        match self {
            InputLayoutStyle::MultiLine => text.to_owned(),
            InputLayoutStyle::SingleLine => {
                let ghost t = text@;
                let chars = chars_of(text);
                let n = chars.len();
                let mut out = String::new();
                let mut i: usize = 0;
                proof {
                    assert(t.skip(0) =~= t);
                    assert(out@ + single_line(t) =~= single_line(t));
                }
                while i < n
                    invariant
                        chars@ == t,
                        n == t.len(),
                        i <= n,
                        single_line(t) == out@ + single_line(t.skip(i as int)),
                    decreases n - i,
                {
                    let c = chars[i];
                    let ghost rest = t.skip(i as int);
                    if c == '\r' && i + 1 < n && chars[i + 1] == '\n' {
                        proof {
                            assert(rest.skip(2) =~= t.skip(i + 2));
                            assert(single_line(rest) =~= seq![' '] + single_line(rest.skip(2)));
                        }
                        string_push(&mut out, ' ');
                        i = i + 2;
                    } else if c == '\n' || c == '\r' {
                        proof {
                            assert(rest.drop_first() =~= t.skip(i + 1));
                        }
                        string_push(&mut out, ' ');
                        i = i + 1;
                    } else {
                        proof {
                            assert(rest.drop_first() =~= t.skip(i + 1));
                        }
                        string_push(&mut out, c);
                        i = i + 1;
                    }
                    proof {
                        assert(single_line(t) =~= out@ + single_line(t.skip(i as int)));
                    }
                }
                proof {
                    assert(t.skip(n as int) =~= Seq::<char>::empty());
                    assert(out@ =~= single_line(t));
                    lemma_single_line_len(t);
                    lemma_single_line_has_no_breaks(t);
                }
                out
            },
        }
    }
}

/// The mathematical content of an `InputState`.
pub ghost struct InputView {
    pub content: Seq<char>,
    pub utf16_hint: Option<usize>,
    pub layout_style: InputLayoutStyle,
    pub selected: (int, int),
    pub direction: NavigationDirection,
    pub marked: Option<(int, int)>,
    pub is_selecting: bool,
    pub click_count: int,
    pub grouping_interval: int,
    pub undo: Seq<Patch>,
    pub redo: Seq<Patch>,
}

/// Milliseconds from `then` to `now`, or 0 when `then` is later (`Instant::duration_since`).
pub open spec fn elapsed_since(now: int, then: int) -> int {
    if now >= then {
        now - then
    } else {
        0
    }
}

/// `[a, b)` is an ordered range of character boundaries of `s`.
pub open spec fn valid_range(s: Seq<char>, a: int, b: int) -> bool {
    &&& a <= b
    &&& is_utf8_boundary(s, a)
    &&& is_utf8_boundary(s, b)
}

/// Where `set_selected_range(s..e)` puts the selection in `c`: each end clamped to the
/// text and moved back to a character boundary; the cursor goes to the (placed) end `e`,
/// so a range given backwards becomes a selection whose cursor is at its lower end.
pub open spec fn placed_selection(c: Seq<char>, s: int, e: int) -> ((int, int), NavigationDirection) {
    let s1 = floor_boundary(c, clamp_to_len(c, s));
    let e1 = floor_boundary(c, clamp_to_len(c, e));
    if s1 <= e1 {
        ((s1, e1), NavigationDirection::Forward)
    } else {
        ((e1, s1), NavigationDirection::Back)
    }
}

/// The selection an input method edit leaves in the new content `c`, its text of `n`
/// bytes inserted at `a`: the UTF-16 range it asks for, shifted by `a`, or the position
/// after the inserted text.
pub open spec fn marked_selection(
    c: Seq<char>,
    a: int,
    n: int,
    new_selected_utf16: Option<(int, int)>,
) -> ((int, int), NavigationDirection) {
    match new_selected_utf16 {
        Some(r) => placed_selection(
            c,
            crate::unicode::utf16_to_utf8(c, r.0) + a,
            crate::unicode::utf16_to_utf8(c, r.1) + a,
        ),
        None => placed_selection(c, a + n, a + n),
    }
}

/// A placed selection is an ordered range of character boundaries.
pub proof fn lemma_placed_selection(c: Seq<char>, s: int, e: int)
    requires
        0 <= s,
        0 <= e,
    ensures
        valid_range(c, placed_selection(c, s, e).0.0, placed_selection(c, s, e).0.1),
        placed_selection(c, s, e).0.1 <= utf8_len(c),
{
    lemma_floor_boundary(c, clamp_to_len(c, s));
    lemma_floor_boundary(c, clamp_to_len(c, e));
}

impl InputView {
    /// Length of the content in bytes.
    pub open spec fn len(self) -> int {
        utf8_len(self.content) as int
    }

    /// The position of the cursor: the end of the selection it moves.
    pub open spec fn cursor(self) -> int {
        match self.direction {
            NavigationDirection::Back => self.selected.0,
            NavigationDirection::Forward => self.selected.1,
        }
    }

    /// The state invariant: selection and marked range lie on character boundaries,
    /// a remembered UTF-16 length is correct, and each history entry's range ends where
    /// its inserted text ends.
    pub open spec fn wf(self) -> bool {
        &&& valid_range(self.content, self.selected.0, self.selected.1)
        &&& (self.marked matches Some(m) ==> valid_range(self.content, m.0, m.1))
        &&& hint_matches(self.utf16_hint, self.content)
        &&& 0 <= self.click_count <= usize::MAX
        &&& 0 <= self.grouping_interval <= u64::MAX
        &&& forall|i: int| 0 <= i < self.undo.len() ==> #[trigger] self.undo[i] == normalized(self.undo[i])
        &&& forall|i: int| 0 <= i < self.redo.len() ==> #[trigger] self.redo[i] == normalized(self.redo[i])
    }

    /// `o` clamped to the content.
    pub open spec fn clamp(self, o: int) -> int {
        clamp_to_len(self.content, o)
    }

    /// The state after moving the cursor to `o` and collapsing the selection there.
    pub open spec fn moved_to(self, o: int) -> InputView {
        let o = self.clamp(o);
        InputView { selected: (o, o), direction: NavigationDirection::Forward, ..self }
    }

    /// The byte range an edit replaces: the marked (IME) range if any, else the selection.
    pub open spec fn edit_range(self) -> (int, int) {
        match self.marked {
            Some(m) => m,
            None => self.selected,
        }
    }

    /// Whether an edit at time `now` (ms) joins the last history entry: no IME text is
    /// marked, the last entry was made within the grouping interval, and it still
    /// describes the content.
    pub open spec fn joins_entry(self, now: int) -> bool {
        &&& self.marked is None
        &&& self.undo.len() > 0
        &&& elapsed_since(now, self.undo.last().timestamp) < self.grouping_interval
        &&& can_merge(self.undo.last(), self.content)
    }

    /// Whether an edit at time `now` (ms) is recorded as a new history entry: not while
    /// IME text is marked, nor when it joins the last entry.
    pub open spec fn records_edit(self, now: int) -> bool {
        &&& self.marked is None
        &&& !self.joins_entry(now)
    }

    /// The state after recording, for undo, the replacement of the bytes `[a, b)` by
    /// `n` bytes at time `now`: a quick edit extends the last entry, another one (not
    /// made while IME text is marked) starts a new entry; either way nothing is left to
    /// redo.
    pub open spec fn recorded(self, a: int, b: int, n: int, now: int) -> InputView {
        if self.joins_entry(now) {
            InputView {
                undo: self.undo.drop_last().push(
                    merged(self.undo.last(), self.content, a, b, n, now),
                ),
                redo: Seq::empty(),
                ..self
            }
        } else if self.records_edit(now) {
            let p = Patch {
                start: a,
                end: a + n,
                old_text: byte_slice(self.content, a, b),
                new_text_len: n,
                selected_start: self.selected.0,
                selected_end: self.selected.1,
                selection_reversed: self.direction == NavigationDirection::Back,
                timestamp: now,
            };
            let u = self.undo.push(p);
            InputView {
                undo: if u.len() > MAX_HISTORY_LEN {
                    u.drop_first()
                } else {
                    u
                },
                redo: Seq::empty(),
                ..self
            }
        } else {
            self
        }
    }

    /// The state after the bytes `[a, b)` are replaced by `t`: the cursor ends up after
    /// the inserted text and nothing stays marked.
    pub open spec fn replaced(self, a: int, b: int, t: Seq<char>) -> InputView {
        let c = splice(self.content, a, b, t);
        InputView {
            content: c,
            utf16_hint: match self.utf16_hint {
                Some(_) => Some(utf16_len(c) as usize),
                None => None,
            },
            selected: (a + utf8_len(t), a + utf8_len(t)),
            marked: None,
            ..self
        }
    }

    /// The state after replacing the bytes `[a, b)` by `text` (as sanitized for the
    /// layout style), recorded for undo at time `now`.
    pub open spec fn replaced_with(self, a: int, b: int, text: Seq<char>, now: int) -> InputView {
        let t = sanitized(self.layout_style, text);
        self.recorded(a, b, utf8_len(t) as int, now).replaced(a, b, t)
    }

    /// The state after inserting `text` (as sanitized for the layout style) in place of
    /// the marked range or the selection, at time `now`.
    pub open spec fn inserted(self, text: Seq<char>, now: int) -> InputView {
        let (a, b) = self.edit_range();
        self.replaced_with(a, b, text, now)
    }

    /// The byte range an input method edit applies to: the UTF-16 range it names,
    /// else the marked range, else the selection.
    pub open spec fn ime_range(self, range_utf16: Option<(int, int)>) -> (int, int) {
        match range_utf16 {
            Some(r) => (
                crate::unicode::utf16_to_utf8(self.content, r.0) as int,
                crate::unicode::utf16_to_utf8(self.content, r.1) as int,
            ),
            None => self.edit_range(),
        }
    }

    /// The state after an input method replaces its range by `text` and marks the
    /// inserted text as being composed, selecting `new_selected_utf16` within the new
    /// content (shifted to the start of the range, then placed as `set_selected_range`
    /// places a selection), or placing the cursor after it.
    pub open spec fn marked_replaced(
        self,
        range_utf16: Option<(int, int)>,
        text: Seq<char>,
        new_selected_utf16: Option<(int, int)>,
    ) -> InputView {
        let t = sanitized(self.layout_style, text);
        let (a, b) = self.ime_range(range_utf16);
        let c = splice(self.content, a, b, t);
        let n = utf8_len(t) as int;
        InputView {
            content: c,
            utf16_hint: match self.utf16_hint {
                Some(_) => Some(utf16_len(c) as usize),
                None => None,
            },
            marked: if n == 0 {
                None
            } else {
                Some((a, a + n))
            },
            selected: marked_selection(c, a, n, new_selected_utf16).0,
            direction: marked_selection(c, a, n, new_selected_utf16).1,
            ..self
        }
    }

    /// The byte range a cut removes when nothing is selected: the cursor's line with the
    /// newline after it, or, for the last line, with the newline before it.
    pub open spec fn line_cut_range(self) -> (int, int) {
        let c = self.cursor();
        let ls = line_start(self.content, c) as int;
        let le = line_end(self.content, c) as int;
        let cut_end = if le < self.len() {
            le + 1
        } else {
            le
        };
        let cut_start = if le >= self.len() && ls > 0 {
            ls - 1
        } else {
            ls
        };
        (cut_start, cut_end)
    }

    /// The state after a press of the mouse at `pos`: `click_count` presses counted by
    /// the platform, the press landing close to the last one (`same_position`), with or
    /// without shift.
    pub open spec fn mouse_down(
        self,
        pos: int,
        click_count: int,
        same_position: bool,
        shift: bool,
    ) -> InputView {
        let cc = if same_position && click_count > 1 {
            click_count
        } else {
            1
        };
        let v = InputView { is_selecting: true, click_count: cc, ..self };
        if cc == 2 {
            let (ws, we) = word_range(self.content, pos);
            InputView { selected: (ws, we), direction: NavigationDirection::Forward, ..v }
        } else if cc == 3 {
            let ls = line_start(self.content, pos) as int;
            let le = line_end(self.content, pos) as int;
            let lew = if le < self.len() {
                le + 1
            } else {
                le
            };
            InputView { selected: (ls, lew), direction: NavigationDirection::Forward, ..v }
        } else if shift {
            v.selected_to(pos)
        } else {
            v.moved_to(pos)
        }
    }

    /// The state after the selection (or, when it is empty, the range from the cursor
    /// to `o`) is deleted at time `now`.
    pub open spec fn deleted_to(self, o: int, now: int) -> InputView {
        let v = if self.selected.0 == self.selected.1 {
            self.selected_to(o)
        } else {
            self
        };
        v.inserted(Seq::empty(), now)
    }

    /// The state after undoing the last recorded edit.
    pub open spec fn undone(self) -> InputView {
        if self.undo.len() == 0 {
            self
        } else {
            let p = self.undo.last();
            let (c, rev) = apply_patch(p, self.content);
            InputView {
                content: c,
                utf16_hint: None,
                selected: (p.selected_start, p.selected_end),
                direction: if p.selection_reversed {
                    NavigationDirection::Back
                } else {
                    NavigationDirection::Forward
                },
                undo: self.undo.drop_last(),
                redo: self.redo.push(rev),
                ..self
            }
        }
    }

    /// The state after redoing the last undone edit: the cursor goes to the end of the
    /// re-inserted text.
    pub open spec fn redone(self) -> InputView {
        if self.redo.len() == 0 {
            self
        } else {
            let p = self.redo.last();
            let (c, rev) = apply_patch(p, self.content);
            InputView {
                content: c,
                utf16_hint: None,
                selected: (p.start + utf8_len(p.old_text), p.start + utf8_len(p.old_text)),
                direction: NavigationDirection::Forward,
                undo: self.undo.push(rev),
                redo: self.redo.drop_last(),
                ..self
            }
        }
    }

    /// Undo can run without a panic and leaves a well-formed state.
    pub open spec fn undo_ready(self) -> bool {
        self.undo.len() > 0 ==> {
            let p = self.undo.last();
            &&& patch_applicable(p, self.content)
            &&& valid_range(apply_patch(p, self.content).0, p.selected_start, p.selected_end)
            &&& (self.marked matches Some(m) ==> valid_range(
                apply_patch(p, self.content).0,
                m.0,
                m.1,
            ))
        }
    }

    /// Redo can run without a panic and leaves a well-formed state.
    pub open spec fn redo_ready(self) -> bool {
        self.redo.len() > 0 ==> {
            let p = self.redo.last();
            &&& patch_applicable(p, self.content)
            &&& (self.marked matches Some(m) ==> valid_range(
                apply_patch(p, self.content).0,
                m.0,
                m.1,
            ))
        }
    }

    /// Inserting `text` cannot overflow the content's length.
    pub open spec fn fits(self, text: Seq<char>) -> bool {
        utf8_len(self.content) + utf8_len(text) <= usize::MAX
    }

    /// The state after extending the selection (its moving end) to `o`.
    pub open spec fn selected_to(self, o: int) -> InputView {
        let o = self.clamp(o);
        let (a, b) = match self.direction {
            NavigationDirection::Forward => (self.selected.0, o),
            NavigationDirection::Back => (o, self.selected.1),
        };
        if b < a {
            InputView {
                selected: (b, a),
                direction: match self.direction {
                    NavigationDirection::Forward => NavigationDirection::Back,
                    NavigationDirection::Back => NavigationDirection::Forward,
                },
                ..self
            }
        } else {
            InputView { selected: (a, b), ..self }
        }
    }
}

/// `InputState` is the state model for text input components. It handles:
/// - Text content storage and manipulation
/// - Selection and cursor management
/// - Keyboard navigation and editing actions
/// - IME (Input Method Editor) ranges in UTF-16
pub struct InputState {
    /// The true internal text
    content: String,
    /// Cached UTF-16 length of content for faster IME operations. Lazily computed when queried.
    cached_utf16_len: Option<usize>,
    /// The style of layout (single or multiline).
    layout_style: InputLayoutStyle,
    /// The utf-8 character range that is currently selected by the user.
    selected_range: Range<usize>,
    /// The direction of the selection_range. Forward means the cursor is at its end.
    selection_direction: NavigationDirection,
    /// The utf-8 character range of `content` that is currently marked (IME composition).
    marked_range: Option<Range<usize>>,
    /// True while the user is in the act of highlighting a section of the text.
    is_selecting: bool,
    /// The number of times the user has clicked the same spot.
    click_count: usize,
    /// The maximum duration (ms) between changes that are grouped into one history entry.
    history_grouping_interval: u64,
    /// Stack of previous states for undo.
    history_undo_stack: Vec<HistoryEntry>,
    /// Stack of undone states for redo.
    history_redo_stack: Vec<HistoryEntry>,
}

impl View for InputState {
    type V = InputView;

    closed spec fn view(&self) -> InputView {
        InputView {
            content: self.content@,
            utf16_hint: self.cached_utf16_len,
            layout_style: self.layout_style,
            selected: (self.selected_range.start as int, self.selected_range.end as int),
            direction: self.selection_direction,
            marked: match self.marked_range {
                Some(r) => Some((r.start as int, r.end as int)),
                None => None,
            },
            is_selecting: self.is_selecting,
            click_count: self.click_count as int,
            grouping_interval: self.history_grouping_interval as int,
            undo: self.history_undo_stack@.map_values(|e: HistoryEntry| e@),
            redo: self.history_redo_stack@.map_values(|e: HistoryEntry| e@),
        }
    }
}

// External API
impl InputState {
    /// Creates an empty single-line input.
    pub fn new() -> (r: Self)
        ensures
            r@.wf(),
            r@.content == Seq::<char>::empty(),
            r@.utf16_hint is None,
            r@.layout_style == InputLayoutStyle::SingleLine,
            r@.selected == (0int, 0int),
            r@.direction == NavigationDirection::Forward,
            r@.marked is None,
            !r@.is_selecting,
            r@.click_count == 0,
            r@.grouping_interval == DEFAULT_GROUP_INTERVAL_MS,
            r@.undo.len() == 0,
            r@.redo.len() == 0,
    {
        let r = InputState {
            content: String::new(),
            cached_utf16_len: None,
            layout_style: InputLayoutStyle::SingleLine,
            selected_range: 0..0,
            selection_direction: NavigationDirection::Forward,
            marked_range: None,
            is_selecting: false,
            click_count: 0,
            history_grouping_interval: DEFAULT_GROUP_INTERVAL_MS,
            history_undo_stack: Vec::new(),
            history_redo_stack: Vec::new(),
        };
        proof {
            lemma_ends_are_boundaries(r.content@);
            assert(r@.undo =~= Seq::<Patch>::empty());
            assert(r@.redo =~= Seq::<Patch>::empty());
        }
        r
    }

    /// Returns the current text content.
    pub fn content(&self) -> (r: &String)
        ensures
            r@ == self@.content,
    {
        &self.content
    }

    /// Sets the text content, resetting selection to the beginning.
    /// This clears the undo/redo history.
    pub fn set_content(&mut self, content: &str)
        requires
            old(self)@.wf(),
        ensures
            final(self)@ == (InputView {
                content: sanitized(old(self)@.layout_style, content@),
                utf16_hint: None,
                selected: (0, 0),
                direction: NavigationDirection::Forward,
                marked: None,
                undo: Seq::empty(),
                redo: Seq::empty(),
                ..old(self)@
            }),
            final(self)@.wf(),
    {
        let content = self.layout_style.sanitize_content(content);
        self.content = content;
        self.selected_range = 0..0;
        self.selection_direction = NavigationDirection::Forward;
        self.marked_range = None;
        self.history_undo_stack.clear();
        self.history_redo_stack.clear();
        self.cached_utf16_len = None;
        proof {
            lemma_ends_are_boundaries(self.content@);
            assert(self@.undo =~= Seq::<Patch>::empty());
            assert(self@.redo =~= Seq::<Patch>::empty());
        }
    }

    /// Sets the input's layout style (single-line or multi-line/area).
    pub fn with_layout_style(self, layout_style: InputLayoutStyle) -> (r: Self)
        requires
            self@.wf(),
        ensures
            r@ == (InputView { layout_style, ..self@ }),
            r@.wf(),
    {
        let mut this = self;
        this.layout_style = layout_style;
        this
    }

    /// Returns the input's layout style.
    pub fn layout_style(&self) -> (r: InputLayoutStyle)
        ensures
            r == self@.layout_style,
    {
        self.layout_style
    }

    /// Returns the utf-8 character range that is currently selected.
    pub fn selected_range(&self) -> (r: &Range<usize>)
        ensures
            r.start == self@.selected.0,
            r.end == self@.selected.1,
    {
        &self.selected_range
    }

    /// Returns the direction in which the selection extends.
    pub fn selection_direction(&self) -> (r: NavigationDirection)
        ensures
            r == self@.direction,
    {
        self.selection_direction
    }

    /// Sets the selection range directly: each end is clamped to the content, and the
    /// cursor goes to the range's end, the selection running forward. A range whose
    /// clamped ends are ordered character boundaries is stored as it is. Any other range
    /// cannot be held as it is, since every edit slices the content at the selection
    /// (which is not possible at a reversed range or inside a character): each end is
    /// then moved back to the character boundary at or before it, and a range given
    /// backwards is stored with its ends in order, running backward, so that the cursor
    /// still sits at the given end.
    pub fn set_selected_range(&mut self, range: Range<usize>)
        requires
            old(self)@.wf(),
        ensures
            final(self)@ == (InputView {
                selected: placed_selection(old(self)@.content, range.start as int, range.end as int).0,
                direction: placed_selection(old(self)@.content, range.start as int, range.end as int).1,
                ..old(self)@
            }),
            final(self)@.wf(),
    {
        self.place_selection(range.start, range.end);
    }

    /// Returns the current position of the cursor within the content.
    pub fn cursor_position(&self) -> (r: usize)
        ensures
            r == self@.cursor(),
    {
        match self.selection_direction {
            NavigationDirection::Back => self.selected_range.start,
            NavigationDirection::Forward => self.selected_range.end,
        }
    }

    /// Returns the marked text range (IME composition).
    pub fn marked_range(&self) -> (r: Option<&Range<usize>>)
        ensures
            r matches Some(m) ==> self@.marked == Some((m.start as int, m.end as int)),
            r is None <==> self@.marked is None,
    {
        match &self.marked_range {
            Some(m) => Some(m),
            None => None,
        }
    }

    /// Sets the marked text range (IME composition).
    pub fn set_marked_range(&mut self, range: Option<Range<usize>>)
        requires
            old(self)@.wf(),
            range matches Some(m) ==> valid_range(old(self)@.content, m.start as int, m.end as int),
        ensures
            final(self)@ == (InputView {
                marked: match range {
                    Some(m) => Some((m.start as int, m.end as int)),
                    None => None,
                },
                ..old(self)@
            }),
            final(self)@.wf(),
    {
        self.marked_range = range;
    }

    /// Configures how long (ms) the input waits between changes before it records a new history entry.
    pub fn set_history_group_interval(&mut self, interval_ms: u64)
        requires
            old(self)@.wf(),
        ensures
            final(self)@ == (InputView { grouping_interval: interval_ms as int, ..old(self)@ }),
            final(self)@.wf(),
    {
        self.history_grouping_interval = interval_ms;
    }

    /// Configures how long (ms) the input waits between changes before it records a new history entry.
    pub fn with_history_group_interval(self, interval_ms: u64) -> (r: Self)
        requires
            self@.wf(),
        ensures
            r@ == (InputView { grouping_interval: interval_ms as int, ..self@ }),
            r@.wf(),
    {
        let mut this = self;
        this.set_history_group_interval(interval_ms);
        this
    }

    /// Returns whether undo is available based on the recorded states.
    pub fn is_undo_available(&self) -> (r: bool)
        ensures
            r == (self@.undo.len() > 0),
    {
        self.history_undo_stack.len() > 0
    }

    /// Returns whether redo is currently available based on the recorded states.
    pub fn is_redo_available(&self) -> (r: bool)
        ensures
            r == (self@.redo.len() > 0),
    {
        self.history_redo_stack.len() > 0
    }
}

// Navigation
impl InputState {
    /// Moves the cursor to `offset` (clamped to the content), collapsing the selection.
    pub fn move_to(&mut self, offset: usize)
        requires
            old(self)@.wf(),
            is_utf8_boundary(old(self)@.content, old(self)@.clamp(offset as int)),
        ensures
            final(self)@ == old(self)@.moved_to(offset as int),
            final(self)@.wf(),
    {
        let len = byte_len(self.content.as_str());
        let offset = if offset < len {
            offset
        } else {
            len
        };
        self.selected_range = offset..offset;
        self.selection_direction = NavigationDirection::Forward;
    }

    /// Extends the selection to `offset` (clamped to the content), keeping its anchor.
    pub fn select_to(&mut self, offset: usize)
        requires
            old(self)@.wf(),
            is_utf8_boundary(old(self)@.content, old(self)@.clamp(offset as int)),
        ensures
            final(self)@ == old(self)@.selected_to(offset as int),
            final(self)@.wf(),
    {
        let len = byte_len(self.content.as_str());
        let offset = if offset < len {
            offset
        } else {
            len
        };
        self.apply_selection_offset(offset);
    }

    fn apply_selection_offset(&mut self, offset: usize)
        requires
            old(self)@.wf(),
            is_utf8_boundary(old(self)@.content, offset as int),
        ensures
            final(self)@ == old(self)@.selected_to(offset as int),
            final(self)@.wf(),
    {
        proof {
            lemma_index_of_boundary(self@.content, offset as int);
        }
        match self.selection_direction {
            NavigationDirection::Forward => self.selected_range.end = offset,
            NavigationDirection::Back => self.selected_range.start = offset,
        }
        if self.selected_range.end < self.selected_range.start {
            self.selection_direction = match self.selection_direction {
                NavigationDirection::Forward => NavigationDirection::Back,
                NavigationDirection::Back => NavigationDirection::Forward,
            };
            self.selected_range = self.selected_range.end..self.selected_range.start;
        }
    }

    /// Selects the whole content.
    pub fn select_all(&mut self)
        requires
            old(self)@.wf(),
        ensures
            final(self)@ == (InputView {
                selected: (0, old(self)@.len()),
                direction: NavigationDirection::Forward,
                ..old(self)@
            }),
            final(self)@.wf(),
    {
        proof {
            lemma_ends_are_boundaries(self@.content);
        }
        self.selected_range = 0..byte_len(self.content.as_str());
        self.selection_direction = NavigationDirection::Forward;
    }

    /// Moves left one grapheme cluster, or collapses a selection to its start.
    pub fn left(&mut self)
        requires
            old(self)@.wf(),
        ensures
            final(self)@ == if old(self)@.selected.0 == old(self)@.selected.1 {
                old(self)@.moved_to(previous_grapheme(old(self)@.content, old(self)@.cursor()) as int)
            } else {
                old(self)@.moved_to(old(self)@.selected.0)
            },
            final(self)@.wf(),
    {
        proof {
            lemma_index_of_boundary(self@.content, self@.selected.1);
        }
        if self.selected_range.start == self.selected_range.end {
            let new_pos = previous_boundary(self.content.as_str(), self.cursor_position());
            self.move_to(new_pos);
        } else {
            self.move_to(self.selected_range.start);
        }
    }

    /// Moves right one grapheme cluster, or collapses a selection to its end.
    pub fn right(&mut self)
        requires
            old(self)@.wf(),
        ensures
            final(self)@ == if old(self)@.selected.0 == old(self)@.selected.1 {
                old(self)@.moved_to(next_grapheme(old(self)@.content, old(self)@.cursor()) as int)
            } else {
                old(self)@.moved_to(old(self)@.selected.1)
            },
            final(self)@.wf(),
    {
        proof {
            lemma_index_of_boundary(self@.content, self@.selected.1);
        }
        if self.selected_range.start == self.selected_range.end {
            let new_pos = next_boundary(self.content.as_str(), self.cursor_position());
            self.move_to(new_pos);
        } else {
            self.move_to(self.selected_range.end);
        }
    }

    /// Moves up one visual line. A single-line input moves to the start; a multi-line
    /// input moves to `target`, the offset found one visual line up by the layout.
    pub fn up(&mut self, target: Option<usize>)
        requires
            old(self)@.wf(),
            target matches Some(o) ==> is_utf8_boundary(old(self)@.content, o as int),
        ensures
            final(self)@ == match old(self)@.layout_style {
                InputLayoutStyle::SingleLine => old(self)@.moved_to(0),
                InputLayoutStyle::MultiLine => match target {
                    Some(o) => old(self)@.moved_to(o as int),
                    None => old(self)@,
                },
            },
            final(self)@.wf(),
    {
        proof {
            lemma_ends_are_boundaries(self@.content);
        }
        match self.layout_style {
            InputLayoutStyle::SingleLine => {
                // In single-line mode, up moves to start
                self.selected_range = 0..0;
                self.selection_direction = NavigationDirection::Forward;
            },
            InputLayoutStyle::MultiLine => {
                if let Some(new_offset) = target {
                    proof {
                        lemma_index_of_boundary(self@.content, new_offset as int);
                    }
                    self.selected_range = new_offset..new_offset;
                    self.selection_direction = NavigationDirection::Forward;
                }
            },
        }
    }

    /// Moves down one visual line. A single-line input moves to the end; a multi-line
    /// input moves to `target`, the offset found one visual line down by the layout.
    pub fn down(&mut self, target: Option<usize>)
        requires
            old(self)@.wf(),
            target matches Some(o) ==> is_utf8_boundary(old(self)@.content, o as int),
        ensures
            final(self)@ == match old(self)@.layout_style {
                InputLayoutStyle::SingleLine => old(self)@.moved_to(old(self)@.len()),
                InputLayoutStyle::MultiLine => match target {
                    Some(o) => old(self)@.moved_to(o as int),
                    None => old(self)@,
                },
            },
            final(self)@.wf(),
    {
        proof {
            lemma_ends_are_boundaries(self@.content);
        }
        match self.layout_style {
            InputLayoutStyle::SingleLine => {
                // In single-line mode, down moves to end
                let end = byte_len(self.content.as_str());
                self.selected_range = end..end;
                self.selection_direction = NavigationDirection::Forward;
            },
            InputLayoutStyle::MultiLine => {
                if let Some(new_offset) = target {
                    proof {
                        lemma_index_of_boundary(self@.content, new_offset as int);
                    }
                    self.selected_range = new_offset..new_offset;
                    self.selection_direction = NavigationDirection::Forward;
                }
            },
        }
    }

    /// Extends the selection one grapheme cluster to the left.
    pub fn select_left(&mut self)
        requires
            old(self)@.wf(),
        ensures
            final(self)@ == old(self)@.selected_to(
                previous_grapheme(old(self)@.content, old(self)@.cursor()) as int,
            ),
            final(self)@.wf(),
    {
        proof {
            lemma_index_of_boundary(self@.content, self@.selected.1);
        }
        let new_pos = previous_boundary(self.content.as_str(), self.cursor_position());
        self.select_to(new_pos);
    }

    /// Extends the selection one grapheme cluster to the right.
    pub fn select_right(&mut self)
        requires
            old(self)@.wf(),
        ensures
            final(self)@ == old(self)@.selected_to(
                next_grapheme(old(self)@.content, old(self)@.cursor()) as int,
            ),
            final(self)@.wf(),
    {
        proof {
            lemma_index_of_boundary(self@.content, self@.selected.1);
        }
        let new_pos = next_boundary(self.content.as_str(), self.cursor_position());
        self.select_to(new_pos);
    }

    /// Extends the selection one visual line up: to the start in a single-line input,
    /// to `target` (found by the layout) in a multi-line one.
    pub fn select_up(&mut self, target: Option<usize>)
        requires
            old(self)@.wf(),
            target matches Some(o) ==> is_utf8_boundary(old(self)@.content, o as int),
        ensures
            final(self)@ == match old(self)@.layout_style {
                InputLayoutStyle::SingleLine => old(self)@.selected_to(0),
                InputLayoutStyle::MultiLine => match target {
                    Some(o) => old(self)@.selected_to(o as int),
                    None => old(self)@,
                },
            },
            final(self)@.wf(),
    {
        proof {
            lemma_ends_are_boundaries(self@.content);
        }
        match self.layout_style {
            InputLayoutStyle::SingleLine => {
                // In single-line mode, select_up selects to start
                self.select_to(0);
            },
            InputLayoutStyle::MultiLine => {
                if let Some(new_offset) = target {
                    proof {
                        lemma_index_of_boundary(self@.content, new_offset as int);
                    }
                    self.apply_selection_offset(new_offset);
                }
            },
        }
    }

    /// Extends the selection one visual line down: to the end in a single-line input,
    /// to `target` (found by the layout) in a multi-line one.
    pub fn select_down(&mut self, target: Option<usize>)
        requires
            old(self)@.wf(),
            target matches Some(o) ==> is_utf8_boundary(old(self)@.content, o as int),
        ensures
            final(self)@ == match old(self)@.layout_style {
                InputLayoutStyle::SingleLine => old(self)@.selected_to(old(self)@.len()),
                InputLayoutStyle::MultiLine => match target {
                    Some(o) => old(self)@.selected_to(o as int),
                    None => old(self)@,
                },
            },
            final(self)@.wf(),
    {
        proof {
            lemma_ends_are_boundaries(self@.content);
        }
        match self.layout_style {
            InputLayoutStyle::SingleLine => {
                // In single-line mode, select_down selects to end
                let end = byte_len(self.content.as_str());
                self.select_to(end);
            },
            InputLayoutStyle::MultiLine => {
                if let Some(new_offset) = target {
                    proof {
                        lemma_index_of_boundary(self@.content, new_offset as int);
                    }
                    self.apply_selection_offset(new_offset);
                }
            },
        }
    }

    /// Moves to the start of the current line.
    pub fn home(&mut self)
        requires
            old(self)@.wf(),
        ensures
            final(self)@ == old(self)@.moved_to(
                line_start(old(self)@.content, old(self)@.cursor()) as int,
            ),
            final(self)@.wf(),
    {
        proof {
            lemma_index_of_boundary(self@.content, self@.selected.1);
        }
        let line_start = self.find_line_start(self.cursor_position());
        self.move_to(line_start);
    }

    /// Moves to the end of the current line.
    pub fn end(&mut self)
        requires
            old(self)@.wf(),
        ensures
            final(self)@ == old(self)@.moved_to(
                line_end(old(self)@.content, old(self)@.cursor()) as int,
            ),
            final(self)@.wf(),
    {
        proof {
            lemma_index_of_boundary(self@.content, self@.selected.1);
        }
        let line_end = self.find_line_end(self.cursor_position());
        self.move_to(line_end);
    }

    /// Moves to the beginning of the content.
    pub fn move_to_beginning(&mut self)
        requires
            old(self)@.wf(),
        ensures
            final(self)@ == old(self)@.moved_to(0),
            final(self)@.wf(),
    {
        proof {
            lemma_ends_are_boundaries(self@.content);
        }
        self.move_to(0);
    }

    /// Moves to the end of the content.
    pub fn move_to_end(&mut self)
        requires
            old(self)@.wf(),
        ensures
            final(self)@ == old(self)@.moved_to(old(self)@.len()),
            final(self)@.wf(),
    {
        proof {
            lemma_ends_are_boundaries(self@.content);
        }
        let len = byte_len(self.content.as_str());
        self.move_to(len);
    }

    /// Extends the selection to the beginning of the content.
    pub fn select_to_beginning(&mut self)
        requires
            old(self)@.wf(),
        ensures
            final(self)@ == old(self)@.selected_to(0),
            final(self)@.wf(),
    {
        proof {
            lemma_ends_are_boundaries(self@.content);
        }
        self.select_to(0);
    }

    /// Extends the selection to the end of the content.
    pub fn select_to_end(&mut self)
        requires
            old(self)@.wf(),
        ensures
            final(self)@ == old(self)@.selected_to(old(self)@.len()),
            final(self)@.wf(),
    {
        proof {
            lemma_ends_are_boundaries(self@.content);
        }
        let len = byte_len(self.content.as_str());
        self.select_to(len);
    }

    /// Moves to the start of the previous word.
    pub fn word_left(&mut self)
        requires
            old(self)@.wf(),
        ensures
            final(self)@ == old(self)@.moved_to(
                previous_word(old(self)@.content, old(self)@.cursor()) as int,
            ),
            final(self)@.wf(),
    {
        proof {
            lemma_index_of_boundary(self@.content, self@.selected.1);
        }
        let new_pos = self.previous_word_boundary(self.cursor_position());
        self.move_to(new_pos);
    }

    /// Moves to the end of the next word.
    pub fn word_right(&mut self)
        requires
            old(self)@.wf(),
        ensures
            final(self)@ == old(self)@.moved_to(
                next_word(old(self)@.content, old(self)@.cursor()) as int,
            ),
            final(self)@.wf(),
    {
        proof {
            lemma_index_of_boundary(self@.content, self@.selected.1);
        }
        let new_pos = self.next_word_boundary(self.cursor_position());
        self.move_to(new_pos);
    }

    /// Extends the selection to the start of the previous word.
    pub fn select_word_left(&mut self)
        requires
            old(self)@.wf(),
        ensures
            final(self)@ == old(self)@.selected_to(
                previous_word(old(self)@.content, old(self)@.cursor()) as int,
            ),
            final(self)@.wf(),
    {
        proof {
            lemma_index_of_boundary(self@.content, self@.selected.1);
        }
        let new_pos = self.previous_word_boundary(self.cursor_position());
        self.select_to(new_pos);
    }

    /// Extends the selection to the end of the next word.
    pub fn select_word_right(&mut self)
        requires
            old(self)@.wf(),
        ensures
            final(self)@ == old(self)@.selected_to(
                next_word(old(self)@.content, old(self)@.cursor()) as int,
            ),
            final(self)@.wf(),
    {
        proof {
            lemma_index_of_boundary(self@.content, self@.selected.1);
        }
        let new_pos = self.next_word_boundary(self.cursor_position());
        self.select_to(new_pos);
    }
}

// Editing and history
impl InputState {
    /// Whether the last undo entry still describes the content (its inserted text lies
    /// within it, between character boundaries).
    fn last_entry_describes_content(&self) -> (r: bool)
        requires
            self@.undo.len() > 0,
        ensures
            r == can_merge(self@.undo.last(), self@.content),
    {
        let n = self.history_undo_stack.len();
        let last = &self.history_undo_stack[n - 1];
        proof {
            assert(self@.undo.last() == self.history_undo_stack@[n - 1]@);
        }
        let len = byte_len(self.content.as_str());
        match last.range.start.checked_add(last.new_text_len) {
            Some(e) => e <= len && crate::text::is_char_boundary(self.content.as_str(), last.range.start)
                && crate::text::is_char_boundary(self.content.as_str(), e),
            None => false,
        }
    }

    /// Records a patch for undo. Called before making changes to content.
    fn push_undo_patch(&mut self, range: Range<usize>, new_text_len: usize, now: u64)
        requires
            old(self)@.wf(),
            valid_range(old(self)@.content, range.start as int, range.end as int),
            range.start + new_text_len <= usize::MAX,
            utf8_len(old(self)@.content) - (range.end - range.start) + new_text_len <= usize::MAX,
        ensures
            final(self)@ == old(self)@.recorded(
                range.start as int,
                range.end as int,
                new_text_len as int,
                now as int,
            ),
            final(self)@.wf(),
    {
        let ghost v = self@;
        // Don't record during IME composition
        if self.marked_range.is_some() {
            return;
        }
        // Check if we should group with the last entry
        let n = self.history_undo_stack.len();
        if n > 0 {
            let last_timestamp = self.history_undo_stack[n - 1].timestamp;
            let elapsed = if now >= last_timestamp {
                now - last_timestamp
            } else {
                0
            };
            proof {
                assert(v.undo.last() == self.history_undo_stack@[n - 1]@);
            }
            if elapsed < self.history_grouping_interval && self.last_entry_describes_content() {
                // Within group interval: extend the existing patch by this edit
                let merged_entry = merge_entry(
                    &self.history_undo_stack[n - 1],
                    self.content.as_str(),
                    range.start,
                    range.end,
                    new_text_len,
                    now,
                );
                self.history_undo_stack.set(n - 1, merged_entry);
                proof {
                    assert(self.history_undo_stack@.map_values(|e: HistoryEntry| e@) =~= v.undo.drop_last().push(
                        merged_entry@,
                    ));
                }
                self.history_redo_stack.clear();
                proof {
                    assert(self@.redo =~= Seq::<Patch>::empty());
                }
                return;
            }
        }
        // Capture the text that will be replaced
        let old_text = str_slice(self.content.as_str(), range.start, range.end).to_owned();
        let entry = HistoryEntry {
            range: range.start..range.start + new_text_len,
            old_text,
            new_text_len,
            selected_range: self.selected_range.start..self.selected_range.end,
            selection_reversed: match self.selection_direction {
                NavigationDirection::Back => true,
                NavigationDirection::Forward => false,
            },
            timestamp: now,
        };
        let ghost pushed = self.history_undo_stack@.push(entry);
        self.history_undo_stack.push(entry);
        proof {
            assert(pushed.map_values(|e: HistoryEntry| e@) =~= v.undo.push(entry@));
        }
        // Limit history size
        if self.history_undo_stack.len() > MAX_HISTORY_LEN {
            self.history_undo_stack.remove(0);
            proof {
                assert(self.history_undo_stack@.map_values(|e: HistoryEntry| e@) =~= v.undo.push(
                    entry@,
                ).drop_first());
            }
        }
        // New edit invalidates redo stack
        self.history_redo_stack.clear();
        proof {
            assert(self@.redo =~= Seq::<Patch>::empty());
        }
    }

    /// Replaces the bytes `[start, end)` with `text`, recording the edit for undo.
    fn replace_bytes(&mut self, start: usize, end: usize, text: &str, now: u64)
        requires
            old(self)@.wf(),
            valid_range(old(self)@.content, start as int, end as int),
            old(self)@.fits(text@),
        ensures
            final(self)@ == old(self)@.recorded(
                start as int,
                end as int,
                utf8_len(text@) as int,
                now as int,
            ).replaced(start as int, end as int, text@),
            final(self)@.wf(),
    {
        let ghost v = self@;
        let n = byte_len(text);
        proof {
            lemma_index_of_boundary(v.content, start as int);
            lemma_slice(v.content, start as int, end as int);
            lemma_splice(v.content, start as int, end as int, text@);
            crate::text::lemma_utf8_len_ge(splice(v.content, start as int, end as int, text@));
        }
        self.push_undo_patch(start..end, n, now);
        // Update cached UTF-16 length incrementally if available
        if let Some(cached_len) = self.cached_utf16_len {
            let removed = str_slice(self.content.as_str(), start, end);
            let removed_utf16_len = crate::unicode::count_utf16_len(removed);
            let added_utf16_len = crate::unicode::count_utf16_len(text);
            self.cached_utf16_len = Some(cached_len - removed_utf16_len + added_utf16_len);
        }
        string_replace_range(&mut self.content, start, end, text);
        self.selected_range = start + n..start + n;
        self.marked_range = None;
    }

    /// Inserts text at the cursor, replacing the marked text if any, else the selection.
    pub fn insert_text(&mut self, text: &str, now: u64)
        requires
            old(self)@.wf(),
            old(self)@.fits(text@),
        ensures
            final(self)@ == old(self)@.inserted(text@, now as int),
            final(self)@.wf(),
    {
        let ghost v = self@;
        let range = match &self.marked_range {
            Some(m) => m.start..m.end,
            None => self.selected_range.start..self.selected_range.end,
        };
        let len = byte_len(self.content.as_str());
        proof {
            lemma_index_of_boundary(v.content, range.start as int);
            lemma_index_of_boundary(v.content, range.end as int);
        }
        let range = (if range.start < len {
            range.start
        } else {
            len
        })..(if range.end < len {
            range.end
        } else {
            len
        });
        let text_to_insert = self.layout_style.sanitize_content(text);
        self.replace_bytes(range.start, range.end, text_to_insert.as_str(), now);
    }

    /// Deletes the selection, or the grapheme cluster before the cursor.
    pub fn delete_backward(&mut self, now: u64)
        requires
            old(self)@.wf(),
        ensures
            final(self)@ == old(self)@.deleted_to(
                previous_grapheme(old(self)@.content, old(self)@.cursor()) as int,
                now as int,
            ),
            final(self)@.wf(),
    {
        proof {
            lemma_index_of_boundary(self@.content, self@.selected.0);
            lemma_index_of_boundary(self@.content, self@.selected.1);
        }
        if self.selected_range.start == self.selected_range.end {
            let p = self.previous_boundary(self.cursor_position());
            self.select_to(p);
        }
        let _ = byte_len(self.content.as_str());
        proof {
            reveal_strlit("");
            lemma_index_of_boundary(self@.content, self@.selected.0);
        }
        self.insert_text("", now);
    }

    /// Whether `undo_action` can run: the last entry applies to the current content.
    pub fn undo_ready(&self) -> (r: bool)
        requires
            self@.wf(),
        ensures
            r == self@.undo_ready(),
    {
        let n = self.history_undo_stack.len();
        if n == 0 {
            return true;
        }
        let entry = &self.history_undo_stack[n - 1];
        proof {
            assert(self@.undo.last() == entry@);
        }
        if !self.patch_applies(entry) {
            return false;
        }
        let mut probe = self.content.clone();
        let _ = entry.apply_undo(&mut probe);
        let sel_ok = entry.selected_range.start <= entry.selected_range.end
            && crate::text::is_char_boundary(probe.as_str(), entry.selected_range.start)
            && crate::text::is_char_boundary(probe.as_str(), entry.selected_range.end);
        let marked_ok = match &self.marked_range {
            Some(m) => m.start <= m.end && crate::text::is_char_boundary(probe.as_str(), m.start)
                && crate::text::is_char_boundary(probe.as_str(), m.end),
            None => true,
        };
        sel_ok && marked_ok
    }

    /// Whether `redo_action` can run: the last undone entry applies to the current content.
    pub fn redo_ready(&self) -> (r: bool)
        requires
            self@.wf(),
        ensures
            r == self@.redo_ready(),
    {
        let n = self.history_redo_stack.len();
        if n == 0 {
            return true;
        }
        let entry = &self.history_redo_stack[n - 1];
        proof {
            assert(self@.redo.last() == entry@);
        }
        if !self.patch_applies(entry) {
            return false;
        }
        let mut probe = self.content.clone();
        let _ = entry.apply_undo(&mut probe);
        match &self.marked_range {
            Some(m) => m.start <= m.end && crate::text::is_char_boundary(probe.as_str(), m.start)
                && crate::text::is_char_boundary(probe.as_str(), m.end),
            None => true,
        }
    }

    fn patch_applies(&self, entry: &HistoryEntry) -> (r: bool)
        ensures
            r == patch_applicable(entry@, self@.content),
    {
        let start = entry.range.start;
        let end = match start.checked_add(entry.new_text_len) {
            Some(e) => e,
            None => {
                return false;
            },
        };
        let old_len = byte_len(entry.old_text.as_str());
        if start.checked_add(old_len).is_none() {
            return false;
        }
        let len = byte_len(self.content.as_str());
        let end = if end < len {
            end
        } else {
            len
        };
        crate::text::is_char_boundary(self.content.as_str(), start)
            && crate::text::is_char_boundary(self.content.as_str(), end)
    }

    /// Reverts the last recorded edit, restoring the selection it was made with.
    pub fn undo_action(&mut self)
        requires
            old(self)@.wf(),
            old(self)@.undo_ready(),
        ensures
            final(self)@ == old(self)@.undone(),
            final(self)@.wf(),
    {
        let ghost v = self@;
        let ghost undo_before = self.history_undo_stack@;
        if let Some(entry) = self.history_undo_stack.pop() {
            proof {
                assert(entry@ == v.undo.last());
                assert(self.history_undo_stack@.map_values(|e: HistoryEntry| e@) =~= v.undo.drop_last());
            }
            let selected_range = entry.selected_range.start..entry.selected_range.end;
            let selection_direction = if entry.selection_reversed {
                NavigationDirection::Back
            } else {
                NavigationDirection::Forward
            };
            let redo_entry = entry.apply_undo(&mut self.content);
            let ghost pushed = self.history_redo_stack@.push(redo_entry);
            self.history_redo_stack.push(redo_entry);
            proof {
                assert(pushed.map_values(|e: HistoryEntry| e@) =~= v.redo.push(redo_entry@));
            }
            self.selected_range = selected_range;
            self.selection_direction = selection_direction;
            self.cached_utf16_len = None;
        }
    }

    /// Restores the last edit reverted by `undo_action`, with the cursor at the end of the
    /// re-inserted text.
    pub fn redo_action(&mut self)
        requires
            old(self)@.wf(),
            old(self)@.redo_ready(),
        ensures
            final(self)@ == old(self)@.redone(),
            final(self)@.wf(),
    {
        let ghost v = self@;
        if let Some(entry) = self.history_redo_stack.pop() {
            proof {
                assert(entry@ == v.redo.last());
                assert(self.history_redo_stack@.map_values(|e: HistoryEntry| e@) =~= v.redo.drop_last());
                lemma_index_of_boundary(v.content, entry@.start);
                lemma_index_of_boundary(v.content, crate::history::undo_end(entry@, v.content));
                crate::text::lemma_boundary_order(v.content, entry@.start, crate::history::undo_end(entry@, v.content));
                lemma_splice(v.content, entry@.start, crate::history::undo_end(entry@, v.content), entry@.old_text);
            }
            let undo_entry = entry.apply_redo(&mut self.content);
            let cursor_pos = undo_entry.range.end;
            self.selected_range = cursor_pos..cursor_pos;
            self.selection_direction = NavigationDirection::Forward;
            let ghost pushed = self.history_undo_stack@.push(undo_entry);
            self.history_undo_stack.push(undo_entry);
            proof {
                assert(pushed.map_values(|e: HistoryEntry| e@) =~= v.undo.push(undo_entry@));
            }
            self.cached_utf16_len = None;
        }
    }
}

// Editing actions
impl InputState {
    /// Deletes the selection, or the text from the cursor to `o` when nothing is selected.
    fn delete_towards(&mut self, o: usize, now: u64)
        requires
            old(self)@.wf(),
            is_utf8_boundary(old(self)@.content, old(self)@.clamp(o as int)),
        ensures
            final(self)@ == old(self)@.deleted_to(o as int, now as int),
            final(self)@.wf(),
    {
        if self.selected_range.start == self.selected_range.end {
            self.select_to(o);
        }
        let _ = byte_len(self.content.as_str());
        proof {
            reveal_strlit("");
            lemma_index_of_boundary(self@.content, self@.selected.0);
        }
        self.insert_text("", now);
    }

    /// Inserts a newline (multi-line inputs only).
    pub fn enter(&mut self, now: u64)
        requires
            old(self)@.wf(),
            old(self)@.fits(seq!['\n']),
        ensures
            final(self)@ == match old(self)@.layout_style {
                InputLayoutStyle::MultiLine => old(self)@.inserted(seq!['\n'], now as int),
                InputLayoutStyle::SingleLine => old(self)@,
            },
            final(self)@.wf(),
    {
        if self.layout_style == InputLayoutStyle::MultiLine {
            proof {
                reveal_strlit("\n");
                assert("\n"@ =~= seq!['\n']);
            }
            self.replace_text_in_range(None, "\n", now);
        }
    }

    /// Inserts a tab character.
    pub fn tab(&mut self, now: u64)
        requires
            old(self)@.wf(),
            old(self)@.fits(seq!['\t']),
        ensures
            final(self)@ == old(self)@.inserted(seq!['\t'], now as int),
            final(self)@.wf(),
    {
        proof {
            reveal_strlit("\t");
            assert("\t"@ =~= seq!['\t']);
        }
        self.replace_text_in_range(None, "\t", now);
    }

    /// Deletes the selection, or the grapheme cluster before the cursor.
    pub fn backspace(&mut self, now: u64)
        requires
            old(self)@.wf(),
        ensures
            final(self)@ == old(self)@.deleted_to(
                previous_grapheme(old(self)@.content, old(self)@.cursor()) as int,
                now as int,
            ),
            final(self)@.wf(),
    {
        proof {
            lemma_index_of_boundary(self@.content, self@.selected.0);
            lemma_index_of_boundary(self@.content, self@.selected.1);
        }
        let o = self.previous_boundary(self.cursor_position());
        self.delete_towards(o, now);
    }

    /// Deletes the selection, or the grapheme cluster after the cursor.
    pub fn delete(&mut self, now: u64)
        requires
            old(self)@.wf(),
        ensures
            final(self)@ == old(self)@.deleted_to(
                next_grapheme(old(self)@.content, old(self)@.cursor()) as int,
                now as int,
            ),
            final(self)@.wf(),
    {
        proof {
            lemma_index_of_boundary(self@.content, self@.selected.0);
            lemma_index_of_boundary(self@.content, self@.selected.1);
        }
        let o = self.next_boundary(self.cursor_position());
        self.delete_towards(o, now);
    }

    /// Deletes the selection, or the text back to the start of the previous word.
    pub fn delete_word_left(&mut self, now: u64)
        requires
            old(self)@.wf(),
        ensures
            final(self)@ == old(self)@.deleted_to(
                previous_word(old(self)@.content, old(self)@.cursor()) as int,
                now as int,
            ),
            final(self)@.wf(),
    {
        proof {
            lemma_index_of_boundary(self@.content, self@.selected.0);
            lemma_index_of_boundary(self@.content, self@.selected.1);
        }
        let o = self.previous_word_boundary(self.cursor_position());
        self.delete_towards(o, now);
    }

    /// Deletes the selection, or the text up to the end of the next word.
    pub fn delete_word_right(&mut self, now: u64)
        requires
            old(self)@.wf(),
        ensures
            final(self)@ == old(self)@.deleted_to(
                next_word(old(self)@.content, old(self)@.cursor()) as int,
                now as int,
            ),
            final(self)@.wf(),
    {
        proof {
            lemma_index_of_boundary(self@.content, self@.selected.0);
            lemma_index_of_boundary(self@.content, self@.selected.1);
        }
        let o = self.next_word_boundary(self.cursor_position());
        self.delete_towards(o, now);
    }

    /// Deletes the selection, or the text back to the start of the line.
    pub fn delete_to_beginning_of_line(&mut self, now: u64)
        requires
            old(self)@.wf(),
        ensures
            final(self)@ == old(self)@.deleted_to(
                line_start(old(self)@.content, old(self)@.cursor()) as int,
                now as int,
            ),
            final(self)@.wf(),
    {
        proof {
            lemma_index_of_boundary(self@.content, self@.selected.0);
            lemma_index_of_boundary(self@.content, self@.selected.1);
        }
        let o = self.find_line_start(self.cursor_position());
        self.delete_towards(o, now);
    }

    /// Deletes the selection, or the text up to the end of the line.
    pub fn delete_to_end_of_line(&mut self, now: u64)
        requires
            old(self)@.wf(),
        ensures
            final(self)@ == old(self)@.deleted_to(
                line_end(old(self)@.content, old(self)@.cursor()) as int,
                now as int,
            ),
            final(self)@.wf(),
    {
        proof {
            lemma_index_of_boundary(self@.content, self@.selected.0);
            lemma_index_of_boundary(self@.content, self@.selected.1);
        }
        let o = self.find_line_end(self.cursor_position());
        self.delete_towards(o, now);
    }

    /// Pastes `text` (read from the clipboard) in place of the marked text or selection.
    pub fn paste(&mut self, text: &str, now: u64)
        requires
            old(self)@.wf(),
            old(self)@.fits(text@),
        ensures
            final(self)@ == old(self)@.inserted(
                sanitized(old(self)@.layout_style, text@),
                now as int,
            ),
            final(self)@.wf(),
    {
        let text = self.layout_style.sanitize_content(text);
        self.replace_text_in_range(None, text.as_str(), now);
    }

    /// The selected text, to be written to the clipboard, if anything is selected.
    pub fn copy(&self) -> (r: Option<String>)
        requires
            self@.wf(),
        ensures
            self@.selected.0 == self@.selected.1 ==> r is None,
            self@.selected.0 != self@.selected.1 ==> (r matches Some(t) && t@ == byte_slice(
                self@.content,
                self@.selected.0,
                self@.selected.1,
            )),
    {
        if self.selected_range.start != self.selected_range.end {
            Some(str_slice(self.content.as_str(), self.selected_range.start, self.selected_range.end).to_owned())
        } else {
            None
        }
    }

    /// Cuts the selection, or when nothing is selected the cursor's whole line; returns
    /// the text to be written to the clipboard.
    pub fn cut(&mut self, now: u64) -> (r: String)
        requires
            old(self)@.wf(),
        ensures
            old(self)@.selected.0 != old(self)@.selected.1 ==> {
                &&& r@ == byte_slice(old(self)@.content, old(self)@.selected.0, old(self)@.selected.1)
                &&& final(self)@ == old(self)@.inserted(Seq::empty(), now as int)
            },
            old(self)@.selected.0 == old(self)@.selected.1 ==> {
                let (a, b) = old(self)@.line_cut_range();
                &&& r@ == byte_slice(old(self)@.content, a, b)
                &&& final(self)@ == (InputView { selected: (a, b), ..old(self)@ }).inserted(
                    Seq::empty(),
                    now as int,
                )
            },
            final(self)@.wf(),
    {
        let _ = byte_len(self.content.as_str());
        proof {
            reveal_strlit("");
        }
        if self.selected_range.start != self.selected_range.end {
            // Cut selected text
            let text = str_slice(self.content.as_str(), self.selected_range.start, self.selected_range.end).to_owned();
            self.replace_text_in_range(None, "", now);
            text
        } else {
            // No selection: cut the entire current line (including newline)
            let cursor = self.cursor_position();
            proof {
                lemma_index_of_boundary(self@.content, cursor as int);
                crate::boundaries::lemma_line_start_after_newline(self@.content, cursor as int);
                crate::boundaries::lemma_line_end_before_newline(self@.content, cursor as int);
            }
            let line_start = self.find_line_start(cursor);
            let line_end = self.find_line_end(cursor);
            let len = byte_len(self.content.as_str());
            // Include the newline character if there is one after the line
            let cut_end = if line_end < len {
                line_end + 1  // Include the newline

            } else if line_start > 0 {
                // Last line with no trailing newline - include preceding newline instead
                line_end
            } else {
                line_end
            };
            // For last line, also remove the preceding newline if it exists
            let cut_start = if line_end >= len && line_start > 0 {
                line_start - 1  // Include preceding newline for last line

            } else {
                line_start
            };
            proof {
                crate::text::lemma_boundary_order(self@.content, line_start as int, line_end as int);
            }
            let line_text = str_slice(self.content.as_str(), cut_start, cut_end).to_owned();
            self.selected_range = cut_start..cut_end;
            self.replace_text_in_range(None, "", now);
            line_text
        }
    }
}

/// A UTF-16 range selected in an input, and whether the cursor is at its start.
pub struct UTF16Selection {
    /// The selected range, in UTF-16 code units.
    pub range: Range<usize>,
    /// Whether the selection extends backwards (the cursor is at its start).
    pub reversed: bool,
}

// Input method (IME) support
impl InputState {
    /// The text of the UTF-16 range (clamped to the content); `adjusted_range` receives
    /// the UTF-16 range actually returned.
    pub fn text_for_range(
        &self,
        range_utf16: Range<usize>,
        adjusted_range: &mut Option<Range<usize>>,
    ) -> (r: Option<String>)
        requires
            self@.wf(),
            range_utf16.start <= range_utf16.end,
        ensures
            ({
                let a = crate::unicode::utf16_to_utf8(self@.content, range_utf16.start as int);
                let b = crate::unicode::utf16_to_utf8(self@.content, range_utf16.end as int);
                &&& r matches Some(t) && t@ == byte_slice(self@.content, a as int, b as int)
                &&& *final(adjusted_range) matches Some(adj) && adj.start
                    == crate::unicode::utf8_to_utf16(self@.content, a as int) && adj.end
                    == crate::unicode::utf8_to_utf16(self@.content, b as int)
            }),
    {
        proof {
            crate::unicode::lemma_utf16_to_utf8_boundary(self@.content, range_utf16.start as int, range_utf16.end as int);
        }
        let range = self.content.utf_range_16to8(&range_utf16);
        let len = byte_len(self.content.as_str());
        let clamped_range = (if range.start < len {
            range.start
        } else {
            len
        })..(if range.end < len {
            range.end
        } else {
            len
        });
        *adjusted_range = Some(self.content.utf_range_8to16(&clamped_range));
        Some(str_slice(self.content.as_str(), clamped_range.start, clamped_range.end).to_owned())
    }

    /// The selection in UTF-16 code units.
    pub fn selected_text_range(&self) -> (r: Option<UTF16Selection>)
        requires
            self@.wf(),
        ensures
            r matches Some(sel) && sel.range.start == crate::unicode::utf8_to_utf16(
                self@.content,
                self@.selected.0,
            ) && sel.range.end == crate::unicode::utf8_to_utf16(self@.content, self@.selected.1)
                && sel.reversed == (self@.direction == NavigationDirection::Back),
    {
        Some(
            UTF16Selection {
                range: self.content.utf_range_8to16(&self.selected_range),
                reversed: self.selection_direction == NavigationDirection::Back,
            },
        )
    }

    /// The marked range in UTF-16 code units.
    pub fn marked_text_range(&self) -> (r: Option<Range<usize>>)
        requires
            self@.wf(),
        ensures
            self@.marked is None ==> r is None,
            self@.marked matches Some(m) ==> (r matches Some(r16) && r16.start
                == crate::unicode::utf8_to_utf16(self@.content, m.0) && r16.end
                == crate::unicode::utf8_to_utf16(self@.content, m.1)),
    {
        match &self.marked_range {
            Some(range) => Some(self.content.utf_range_8to16(range)),
            None => None,
        }
    }

    /// Ends the composition: nothing is marked any more.
    pub fn unmark_text(&mut self)
        requires
            old(self)@.wf(),
        ensures
            final(self)@ == (InputView { marked: None, ..old(self)@ }),
            final(self)@.wf(),
    {
        self.marked_range = None;
    }

    /// Replaces the UTF-16 range (or the marked text, or the selection) with `new_text`,
    /// recording the edit for undo.
    pub fn replace_text_in_range(&mut self, range_utf16: Option<Range<usize>>, new_text: &str, now: u64)
        requires
            old(self)@.wf(),
            old(self)@.fits(new_text@),
            range_utf16 matches Some(r) ==> r.start <= r.end,
        ensures
            ({
                let r16 = match range_utf16 {
                    Some(r) => Some((r.start as int, r.end as int)),
                    None => None,
                };
                let (a, b) = old(self)@.ime_range(r16);
                final(self)@ == old(self)@.replaced_with(a, b, new_text@, now as int)
            }),
            final(self)@.wf(),
    {
        let ghost v = self@;
        let range = match &range_utf16 {
            Some(r) => {
                proof {
                    crate::unicode::lemma_utf16_to_utf8_boundary(v.content, r.start as int, r.end as int);
                }
                self.content.utf_range_16to8(r)
            },
            None => match &self.marked_range {
                Some(m) => m.start..m.end,
                None => self.selected_range.start..self.selected_range.end,
            },
        };
        let len = byte_len(self.content.as_str());
        proof {
            lemma_index_of_boundary(v.content, range.start as int);
            lemma_index_of_boundary(v.content, range.end as int);
        }
        let range = (if range.start < len {
            range.start
        } else {
            len
        })..(if range.end < len {
            range.end
        } else {
            len
        });
        let text_to_insert = self.layout_style.sanitize_content(new_text);
        self.replace_bytes(range.start, range.end, text_to_insert.as_str(), now);
    }

    /// Whether `replace_and_mark_text_in_range` can run with these arguments: the UTF-16
    /// range (if any) is ordered and the new text fits.
    pub fn replace_and_mark_ready(
        &self,
        range_utf16: &Option<Range<usize>>,
        new_text: &str,
        new_selected_range_utf16: &Option<Range<usize>>,
    ) -> (r: bool)
        requires
            self@.wf(),
        ensures
            r == ((range_utf16 matches Some(r) ==> r.start <= r.end) && self@.fits(new_text@)),
    {
        if let Some(r) = range_utf16 {
            if r.start > r.end {
                return false;
            }
        }
        let len = byte_len(self.content.as_str());
        len.checked_add(byte_len(new_text)).is_some()
    }

    /// Replaces the UTF-16 range (or the marked text, or the selection) with `new_text`
    /// and marks it as being composed; the selection becomes `new_selected_range_utf16`
    /// (relative to the start of the range) or the position after the new text.
    #[verifier::spinoff_prover]
    #[verifier::rlimit(60)]
    pub fn replace_and_mark_text_in_range(
        &mut self,
        range_utf16: Option<Range<usize>>,
        new_text: &str,
        new_selected_range_utf16: Option<Range<usize>>,
    )
        requires
            old(self)@.wf(),
            old(self)@.fits(new_text@),
            range_utf16 matches Some(r) ==> r.start <= r.end,
        ensures
            ({
                let r16 = match range_utf16 {
                    Some(r) => Some((r.start as int, r.end as int)),
                    None => None,
                };
                let sel16 = match new_selected_range_utf16 {
                    Some(r) => Some((r.start as int, r.end as int)),
                    None => None,
                };
                final(self)@ == old(self)@.marked_replaced(r16, new_text@, sel16)
            }),
            final(self)@.wf(),
    {
        let ghost v = self@;
        let range = match &range_utf16 {
            Some(r) => {
                proof {
                    crate::unicode::lemma_utf16_to_utf8_boundary(v.content, r.start as int, r.end as int);
                }
                self.content.utf_range_16to8(r)
            },
            None => match &self.marked_range {
                Some(m) => m.start..m.end,
                None => self.selected_range.start..self.selected_range.end,
            },
        };
        let len = byte_len(self.content.as_str());
        proof {
            lemma_index_of_boundary(v.content, range.start as int);
            lemma_index_of_boundary(v.content, range.end as int);
        }
        let range = (if range.start < len {
            range.start
        } else {
            len
        })..(if range.end < len {
            range.end
        } else {
            len
        });
        let text_to_insert = self.layout_style.sanitize_content(new_text);
        let n = byte_len(text_to_insert.as_str());
        proof {
            lemma_slice(v.content, range.start as int, range.end as int);
            lemma_splice(v.content, range.start as int, range.end as int, text_to_insert@);
            crate::text::lemma_utf8_len_ge(splice(v.content, range.start as int, range.end as int, text_to_insert@));
        }
        if let Some(cached_len) = self.cached_utf16_len {
            let removed = str_slice(self.content.as_str(), range.start, range.end);
            let removed_utf16_len = crate::unicode::count_utf16_len(removed);
            let added_utf16_len = crate::unicode::count_utf16_len(text_to_insert.as_str());
            self.cached_utf16_len = Some(cached_len - removed_utf16_len + added_utf16_len);
        }
        string_replace_range(&mut self.content, range.start, range.end, text_to_insert.as_str());
        self.marked_range = if n == 0 {
            None
        } else {
            Some(range.start..range.start + n)
        };
        match &new_selected_range_utf16 {
            Some(r16) => {
                let r8 = self.content.utf_range_16to8(r16);
                proof {
                    lemma_clamp_saturated(self.content@, r8.start as int, range.start as int);
                    lemma_clamp_saturated(self.content@, r8.end as int, range.start as int);
                }
                self.place_selection(
                    r8.start.saturating_add(range.start),
                    r8.end.saturating_add(range.start),
                );
            },
            None => self.place_selection(range.start + n, range.start + n),
        }
    }

    /// Places the selection as `set_selected_range(start..end)` does, whatever the rest
    /// of the state.
    fn place_selection(&mut self, start: usize, end: usize)
        ensures
            final(self)@ == (InputView {
                selected: placed_selection(old(self)@.content, start as int, end as int).0,
                direction: placed_selection(old(self)@.content, start as int, end as int).1,
                ..old(self)@
            }),
            valid_range(final(self)@.content, final(self)@.selected.0, final(self)@.selected.1),
    {
        proof {
            lemma_placed_selection(self.content@, start as int, end as int);
        }
        let start = floor_char_boundary(self.content.as_str(), start);
        let end = floor_char_boundary(self.content.as_str(), end);
        if start <= end {
            self.selected_range = start..end;
            self.selection_direction = NavigationDirection::Forward;
        } else {
            self.selected_range = end..start;
            self.selection_direction = NavigationDirection::Back;
        }
    }
}

/// Clamping to a text that fits in memory does not see whether a sum was saturated.
proof fn lemma_clamp_saturated(c: Seq<char>, x: int, a: int)
    requires
        0 <= x <= usize::MAX,
        0 <= a <= usize::MAX,
        utf8_len(c) <= usize::MAX,
    ensures
        clamp_to_len(c, (if x + a <= usize::MAX { x + a } else { usize::MAX as int })) == clamp_to_len(
            c,
            x + a,
        ),
{
}

// Mouse interaction
impl InputState {
    /// A mouse press at the character position `character_pos` (found by the layout).
    /// `click_count` is the platform's count of rapid clicks, `is_same_position` tells
    /// whether the press landed close to the previous one. A double click selects the
    /// word, a triple click the line (with its newline); otherwise the cursor moves
    /// there, or the selection extends there with shift.
    pub fn on_mouse_down(
        &mut self,
        character_pos: usize,
        click_count: usize,
        is_same_position: bool,
        shift: bool,
    )
        requires
            old(self)@.wf(),
            is_utf8_boundary(old(self)@.content, old(self)@.clamp(character_pos as int)),
        ensures
            final(self)@ == old(self)@.mouse_down(
                character_pos as int,
                click_count as int,
                is_same_position,
                shift,
            ),
            final(self)@.wf(),
    {
        self.is_selecting = true;
        if is_same_position && click_count > 1 {
            self.click_count = click_count;
        } else {
            self.click_count = 1;
        }
        if self.click_count == 2 {
            let (word_start, word_end) = self.word_range_at(character_pos);
            self.selected_range = word_start..word_end;
            self.selection_direction = NavigationDirection::Forward;
        } else if self.click_count == 3 {
            proof {
                crate::boundaries::lemma_line_start_after_newline(self@.content, character_pos as int);
                crate::boundaries::lemma_line_end_before_newline(self@.content, character_pos as int);
            }
            let line_start = self.find_line_start(character_pos);
            let line_end = self.find_line_end(character_pos);
            let len = byte_len(self.content.as_str());
            let line_end_with_newline = if line_end < len {
                line_end + 1
            } else {
                line_end
            };
            proof {
                crate::text::lemma_boundary_order(self@.content, line_start as int, line_end as int);
            }
            self.selected_range = line_start..line_end_with_newline;
            self.selection_direction = NavigationDirection::Forward;
        } else {
            if shift {
                self.select_to(character_pos);
            } else {
                self.move_to(character_pos);
            }
        }
    }

    /// The mouse button is released: the drag selection ends.
    pub fn on_mouse_up(&mut self)
        requires
            old(self)@.wf(),
        ensures
            final(self)@ == (InputView { is_selecting: false, ..old(self)@ }),
            final(self)@.wf(),
    {
        self.is_selecting = false;
    }

    /// The mouse moves over the character position `character_pos`: during a single-click
    /// drag the selection extends there.
    pub fn on_mouse_move(&mut self, character_pos: usize)
        requires
            old(self)@.wf(),
            is_utf8_boundary(old(self)@.content, old(self)@.clamp(character_pos as int)),
        ensures
            final(self)@ == if old(self)@.is_selecting && old(self)@.click_count == 1 {
                old(self)@.selected_to(character_pos as int)
            } else {
                old(self)@
            },
            final(self)@.wf(),
    {
        if self.is_selecting && self.click_count == 1 {
            self.select_to(character_pos);
        }
    }
}

/// An edit recorded as a new history entry leaves nothing to redo; undoing it restores
/// the content, the selection and the selection direction that preceded the edit, and
/// makes the edit available to redo.
pub proof fn lemma_insert_then_undo(v: InputView, text: Seq<char>, now: int)
    requires
        v.wf(),
        v.fits(text),
        v.records_edit(now),
    ensures
        v.inserted(text, now).redo.len() == 0,
        v.inserted(text, now).undo_ready(),
        v.inserted(text, now).undo.len() > 0,
        v.inserted(text, now).undone().content == v.content,
        v.inserted(text, now).undone().selected == v.selected,
        v.inserted(text, now).undone().direction == v.direction,
        v.inserted(text, now).undone().redo.len() == 1,
{
    let t = sanitized(v.layout_style, text);
    let (a, b) = v.edit_range();
    let n = utf8_len(t) as int;
    let c = v.content;
    lemma_slice(c, a, b);
    lemma_splice(c, a, b, t);
    if v.layout_style == InputLayoutStyle::SingleLine {
        lemma_single_line_len(text);
    }
    lemma_index_of_boundary(c, b);
    let v1 = v.inserted(text, now);
    let c1 = v1.content;
    assert(c1 == splice(c, a, b, t));
    let p = v1.undo.last();
    assert(p.start == a && p.new_text_len == n && p.old_text == byte_slice(c, a, b));
    assert(crate::history::undo_end(p, c1) == a + n);
    lemma_slice(c1, a, a + n);
    lemma_splice(c1, a, a + n, p.old_text);
    assert(apply_patch(p, c1).0 =~= c);
}

/// Edits made within the grouping interval of each other form one history entry: after
/// an edit that starts an entry and a second one soon after it, a single undo gives back
/// the content and the selection from before both.
#[verifier::spinoff_prover]
pub proof fn lemma_grouped_edits_undo_together(
    v: InputView,
    first: Seq<char>,
    t1: int,
    second: Seq<char>,
    t2: int,
)
    requires
        v.wf(),
        v.records_edit(t1),
        v.len() + utf8_len(first) + utf8_len(second) <= usize::MAX,
        elapsed_since(t2, t1) < v.grouping_interval,
    ensures
        ({
            let v1 = v.inserted(first, t1);
            let v2 = v1.inserted(second, t2);
            &&& v1.joins_entry(t2)
            &&& v2.undo.len() == v1.undo.len()
            &&& v2.undo_ready()
            &&& v2.undone().content == v.content
            &&& v2.undone().selected == v.selected
            &&& v2.undone().direction == v.direction
        }),
{
    let t = sanitized(v.layout_style, first);
    let (a, b) = v.edit_range();
    let n = utf8_len(t) as int;
    let c = v.content;
    if v.layout_style == InputLayoutStyle::SingleLine {
        lemma_single_line_len(first);
        lemma_single_line_len(second);
    }
    lemma_insert_then_undo(v, first, t1);
    lemma_slice(c, a, b);
    lemma_splice(c, a, b, t);
    let v1 = v.inserted(first, t1);
    let c1 = v1.content;
    let p = v1.undo.last();
    assert(p.start == a && p.new_text_len == n && p.timestamp == t1);
    assert(can_merge(p, c1));
    assert(v1.joins_entry(t2));
    let t2s = sanitized(v1.layout_style, second);
    let a2 = a + n;
    assert(v1.edit_range() == (a2, a2));
    assert(apply_patch(p, c1).0 == c);
    lemma_splice(c1, a2, a2, t2s);
    crate::history::lemma_merged_undo(p, c1, a2, a2, t2s, t2);
    let v2 = v1.inserted(second, t2);
    assert(v2.content == splice(c1, a2, a2, t2s));
    assert(v2.undo.last() == merged(p, c1, a2, a2, utf8_len(t2s) as int, t2));
}

/// Undoing the last edit and redoing it gives back the content and both history stacks.
#[verifier::spinoff_prover]
pub proof fn lemma_undo_then_redo(v: InputView)
    requires
        v.wf(),
        v.undo.len() > 0,
        v.undo_ready(),
        crate::history::patch_covers_insertion(v.undo.last(), v.content),
    ensures
        v.undone().redo_ready(),
        v.undone().redone().content == v.content,
        v.undone().redone().undo == v.undo,
        v.undone().redone().redo == v.redo,
{
    let p = v.undo.last();
    crate::history::lemma_undo_redo_roundtrip(p, v.content);
    let v1 = v.undone();
    assert(v1.redo.last() == apply_patch(p, v.content).1);
    assert(v1.marked == v.marked);
    assert(v1.redone().content == apply_patch(apply_patch(p, v.content).1, v1.content).0);
    assert(v1.redone().undo =~= v.undo);
    assert(v1.redone().redo =~= v.redo);
}

/// In a multi-line input, cutting the selection and pasting what was cut gives back
/// the content.
pub proof fn lemma_cut_then_paste(v: InputView, now: int, later: int)
    requires
        v.wf(),
        v.marked is None,
        v.selected.0 != v.selected.1,
        v.layout_style == InputLayoutStyle::MultiLine,
        v.len() <= usize::MAX,
    ensures
        ({
            let t = byte_slice(v.content, v.selected.0, v.selected.1);
            let w = v.inserted(Seq::empty(), now);
            &&& w.fits(t)
            &&& w.inserted(sanitized(w.layout_style, t), later).content == v.content
        }),
{
    let c = v.content;
    let (a, b) = v.selected;
    let e = Seq::<char>::empty();
    lemma_slice(c, a, b);
    lemma_splice(c, a, b, e);
    let t = byte_slice(c, a, b);
    let w = v.inserted(e, now);
    let c1 = w.content;
    assert(c1 == splice(c, a, b, e));
    assert(w.edit_range() == (a, a));
    lemma_splice(c1, a, a, t);
    assert(w.inserted(t, later).content =~= c);
}

/// Committing a composition replaces exactly the composed text: after an input method
/// marks `text` in place of a range, inserting `commit` gives the content with the
/// kept part of `commit` in place of that range.
#[verifier::spinoff_prover]
pub proof fn lemma_commit_replaces_composition(
    v: InputView,
    range_utf16: Option<(int, int)>,
    text: Seq<char>,
    new_selected_utf16: Option<(int, int)>,
    commit: Seq<char>,
    later: int,
)
    requires
        v.wf(),
        range_utf16 matches Some(r) ==> r.0 <= r.1,
        utf8_len(sanitized(v.layout_style, text)) > 0,
    ensures
        ({
            let (a, b) = v.ime_range(range_utf16);
            let w = v.marked_replaced(range_utf16, text, new_selected_utf16);
            w.inserted(commit, later).content == splice(
                v.content,
                a,
                b,
                sanitized(v.layout_style, commit),
            )
        }),
{
    let c = v.content;
    let (a, b) = v.ime_range(range_utf16);
    match range_utf16 {
        Some(r) => {
            crate::unicode::lemma_utf16_to_utf8_boundary(c, r.0, r.1);
        },
        None => {},
    }
    assert(valid_range(c, a, b));
    let t = sanitized(v.layout_style, text);
    let n = utf8_len(t) as int;
    lemma_slice(c, a, b);
    lemma_splice(c, a, b, t);
    let w = v.marked_replaced(range_utf16, text, new_selected_utf16);
    let c1 = w.content;
    assert(w.marked == Some((a, a + n)));
    assert(w.edit_range() == (a, a + n));
    let u = sanitized(v.layout_style, commit);
    lemma_splice(c1, a, a + n, u);
    lemma_splice(c, a, b, u);
    assert(w.inserted(commit, later).content =~= splice(c, a, b, u));
}

// Boundaries within the content
impl InputState {
    /// The start of the line holding `position` (just after the preceding newline, or 0).
    pub fn find_line_start(&self, position: usize) -> (r: usize)
        requires
            self@.wf(),
            is_utf8_boundary(self@.content, self@.clamp(position as int)),
        ensures
            r == line_start(self@.content, position as int),
            is_utf8_boundary(self@.content, r as int),
            r <= self@.len(),
    {
        find_line_start(self.content.as_str(), position)
    }

    /// The end of the line holding `position` (the next newline, or the end of the content).
    pub fn find_line_end(&self, position: usize) -> (r: usize)
        requires
            self@.wf(),
            is_utf8_boundary(self@.content, self@.clamp(position as int)),
        ensures
            r == line_end(self@.content, position as int),
            is_utf8_boundary(self@.content, r as int),
            r <= self@.len(),
    {
        find_line_end(self.content.as_str(), position)
    }

    /// The boundary one grapheme cluster before `offset`.
    pub fn previous_boundary(&self, offset: usize) -> (r: usize)
        requires
            self@.wf(),
            offset == 0 || is_utf8_boundary(self@.content, self@.clamp(offset as int)),
        ensures
            r == previous_grapheme(self@.content, offset as int),
            is_utf8_boundary(self@.content, r as int),
            r <= self@.len(),
    {
        previous_boundary(self.content.as_str(), offset)
    }

    /// The boundary one grapheme cluster after `offset`.
    pub fn next_boundary(&self, offset: usize) -> (r: usize)
        requires
            self@.wf(),
            offset >= self@.len() || is_utf8_boundary(self@.content, offset as int),
        ensures
            r == next_grapheme(self@.content, offset as int),
            is_utf8_boundary(self@.content, r as int),
            r <= self@.len(),
    {
        next_boundary(self.content.as_str(), offset)
    }

    /// The start of the word before `offset`.
    pub fn previous_word_boundary(&self, offset: usize) -> (r: usize)
        requires
            self@.wf(),
            offset == 0 || is_utf8_boundary(self@.content, self@.clamp(offset as int)),
        ensures
            r == previous_word(self@.content, offset as int),
            is_utf8_boundary(self@.content, r as int),
            r <= self@.len(),
    {
        previous_word_boundary(self.content.as_str(), offset)
    }

    /// The end of the word after `offset`.
    pub fn next_word_boundary(&self, offset: usize) -> (r: usize)
        requires
            self@.wf(),
            offset >= self@.len() || is_utf8_boundary(self@.content, offset as int),
        ensures
            r == next_word(self@.content, offset as int),
            is_utf8_boundary(self@.content, r as int),
            r <= self@.len(),
    {
        next_word_boundary(self.content.as_str(), offset)
    }

    /// The word holding `offset`, or the empty range at the (clamped) offset.
    pub fn word_range_at(&self, offset: usize) -> (r: (usize, usize))
        requires
            self@.wf(),
        ensures
            r.0 == word_range(self@.content, offset as int).0,
            r.1 == word_range(self@.content, offset as int).1,
            is_utf8_boundary(self@.content, self@.clamp(offset as int)) ==> valid_range(
                self@.content,
                r.0 as int,
                r.1 as int,
            ),
    {
        word_range_at(self.content.as_str(), offset)
    }
}

/// Nothing is recorded while IME text is marked: an edit then leaves both history
/// stacks as they were, whichever range it replaces and whenever it is made.
pub proof fn lemma_marked_edit_not_recorded(v: InputView, a: int, b: int, text: Seq<char>, now: int)
    requires
        v.marked is Some,
    ensures
        v.replaced_with(a, b, text, now).undo == v.undo,
        v.replaced_with(a, b, text, now).redo == v.redo,
        v.inserted(text, now).undo == v.undo,
        v.inserted(text, now).redo == v.redo,
{
}

/// The end of the selection that stays put while the cursor moves.
pub open spec fn anchor_of(v: InputView) -> int {
    match v.direction {
        NavigationDirection::Back => v.selected.1,
        NavigationDirection::Forward => v.selected.0,
    }
}

/// Extending the selection to `o` keeps its anchor: the new selection runs between the
/// old anchor and `o` (clamped to the content), in order, with the cursor at `o`.
pub proof fn lemma_extend_keeps_anchor(v: InputView, o: int)
    ensures
        ({
            let w = v.selected_to(o);
            let an = anchor_of(v);
            let c = v.clamp(o);
            &&& w.cursor() == c
            &&& w.selected.0 == (if an <= c { an } else { c })
            &&& w.selected.1 == (if an <= c { c } else { an })
            &&& w.content == v.content
        }),
{
}

/// A double click at `p` selects the whole word holding `p` (one of the words the
/// segmentation finds, from its start to its end), or the empty range at `p` when no
/// word holds it; either way the click position lies within the selection, which runs
/// forward.
pub proof fn lemma_double_click_selects_word(v: InputView, p: int, shift: bool)
    ensures
        ({
            let w = v.mouse_down(p, 2, true, shift);
            let c = v.clamp(p);
            &&& w.selected.0 <= c <= w.selected.1
            &&& w.direction == NavigationDirection::Forward
            &&& w.content == v.content
            &&& w.click_count == 2
            &&& (w.selected.0 == w.selected.1 ==> w.selected.0 == c)
            &&& (w.selected.0 < w.selected.1 ==> exists|i: int|
                0 <= i < word_spans(v.content).len() && #[trigger] word_spans(v.content)[i].0
                    == w.selected.0 && w.selected.0 + word_spans(v.content)[i].1 == w.selected.1)
            &&& (span_containing(word_spans(v.content), c) is None ==> w.selected == (c, c))
        }),
{
    let c = v.clamp(p);
    lemma_span_containing(word_spans(v.content), c);
    if let Some(sp) = span_containing(word_spans(v.content), c) {
        let i = choose|i: int| 0 <= i < word_spans(v.content).len() && #[trigger] word_spans(v.content)[i] == sp;
        assert(word_spans(v.content)[i].0 == v.mouse_down(p, 2, true, shift).selected.0);
    }
}

/// When an input method marks new text without asking for a selection, the (sanitized)
/// text stands where the range it edits stood, it is what is marked, and the cursor
/// sits right after it with nothing selected.
pub proof fn lemma_mark_without_selection_puts_cursor_after_text(
    v: InputView,
    range_utf16: Option<(int, int)>,
    text: Seq<char>,
)
    requires
        v.wf(),
        range_utf16 matches Some(r) ==> 0 <= r.0 <= r.1,
    ensures
        ({
            let (a, b) = v.ime_range(range_utf16);
            let t = sanitized(v.layout_style, text);
            let w = v.marked_replaced(range_utf16, text, None);
            &&& w.content == splice(v.content, a, b, t)
            &&& w.selected.0 == w.selected.1
            &&& w.cursor() == w.selected.1
            &&& a <= w.selected.1
            &&& byte_slice(w.content, a, w.selected.1) == t
            &&& (t.len() > 0 ==> w.marked == Some((a, w.selected.1)))
            &&& (t.len() == 0 ==> w.marked is None)
        }),
{
    let (a, b) = v.ime_range(range_utf16);
    let t = sanitized(v.layout_style, text);
    if let Some(r) = range_utf16 {
        crate::unicode::lemma_utf16_to_utf8_boundary(v.content, r.0, r.1);
    }
    lemma_splice(v.content, a, b, t);
    let c = splice(v.content, a, b, t);
    let n = utf8_len(t) as int;
    lemma_index_of_boundary(c, a + n);
    assert(clamp_to_len(c, a + n) == a + n);
    assert(floor_boundary(c, a + n) == a + n);
    crate::text::lemma_utf8_len_ge(t);
    if t.len() == 0 {
        assert(t =~= Seq::<char>::empty());
    }
}

/// Redo puts the cursor right after the text it re-inserts, with nothing selected: the
/// text between the start of the redone entry and the cursor is the text the entry
/// holds.
pub proof fn lemma_redo_puts_cursor_after_text(v: InputView)
    requires
        v.wf(),
        v.redo.len() > 0,
        v.redo_ready(),
    ensures
        ({
            let p = v.redo.last();
            let w = v.redone();
            &&& w.selected.0 == w.selected.1
            &&& p.start <= w.selected.1
            &&& byte_slice(w.content, p.start, w.selected.1) == p.old_text
        }),
{
    let p = v.redo.last();
    let e = crate::history::undo_end(p, v.content);
    lemma_index_of_boundary(v.content, p.start);
    lemma_index_of_boundary(v.content, e);
    crate::text::lemma_boundary_order(v.content, p.start, e);
    lemma_splice(v.content, p.start, e, p.old_text);
}

} // verus!
