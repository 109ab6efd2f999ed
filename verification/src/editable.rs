//! The state behind an editable text element: its storage, a caret-first selection,
//! IME marked text, mouse selection and an undo/redo history.
use vstd::prelude::*;
use std::ops::Range;
use crate::text::{
    byte_len, byte_slice, is_utf8_boundary, lemma_ends_are_boundaries, lemma_index_of_boundary,
    lemma_slice, lemma_splice, splice, str_slice, utf8_len,
};
use crate::boundaries::{
    clamp_to_len, find_line_end, find_line_start, line_end, line_start, offset_from,
    offset_from_caret, range_from, range_from_caret, span_containing, word_range,
    word_range_at, lemma_span_containing, NavigationDirection, TextBoundary,
};
use crate::segmentation::word_spans;
use crate::history::{
    apply_patch, can_merge, elapsed_ms, merged, normalized, patch_applicable, EditableTextHistory, HistoryEntry,
    HistoryKind, HistoryView,
};
use crate::input_state::{valid_range, UTF16Selection};
use crate::storage::{InputStorage, Standard};
use crate::unicode::{utf16_to_utf8, utf8_to_utf16, UnicodeString};

verus! {

/// Emitted when the text of an editable element changes.
#[derive(Clone, Copy, Debug, PartialEq, Eq, Structural)]
pub struct TextChanged;

/// Emitted when an edit is to be recorded by whoever keeps the history: the bytes
/// `range` held `old_text` and are replaced by `new_text_len` bytes, with
/// `selected_range` selected before the edit. An `EditableTextState` keeps its own
/// history (`EditableTextHistory`) and never hands edits over this way; the event is
/// there for states whose history lives elsewhere.
pub struct TextHistoryPushed {
    pub range: Range<usize>,
    pub old_text: String,
    pub new_text_len: usize,
    pub selected_range: Range<usize>,
}

/// What an editable text state reports to its `TextStateNotifier`.
#[derive(Clone, Copy, Debug, PartialEq, Eq, Structural)]
pub enum Notification {
    /// The element needs repainting.
    Changed,
    /// The text changed.
    TextChanged,
    /// An edit was handed over to be recorded.
    HistoryPushed,
}

/// Receives what an editable text state reports while it handles an action: that it
/// needs repainting, that its text changed, and edits to record. `notifications` is the
/// sequence of reports received so far; each method appends its own.
pub trait TextStateNotifier {
    spec fn notifications(&self) -> Seq<Notification>;

    fn notify_changed(&mut self)
        ensures
            final(self).notifications() == old(self).notifications().push(Notification::Changed),
    ;

    fn emit_text_changed(&mut self, event: TextChanged)
        ensures
            final(self).notifications() == old(self).notifications().push(
                Notification::TextChanged,
            ),
    ;

    /// Hands an edit over to be recorded; `EditableTextState` keeps its own history and
    /// does not call this.
    fn emit_history(&mut self, event: TextHistoryPushed)
        ensures
            final(self).notifications() == old(self).notifications().push(
                Notification::HistoryPushed,
            ),
    ;
}

/// The reports after a repaint request, when `happens`.
pub open spec fn repainted_if(log: Seq<Notification>, happens: bool) -> Seq<Notification> {
    if happens {
        log.push(Notification::Changed)
    } else {
        log
    }
}

/// The reports after a change of the text (reported, then a repaint request), when
/// `happens`.
pub open spec fn edited_if(log: Seq<Notification>, happens: bool) -> Seq<Notification> {
    if happens {
        log.push(Notification::TextChanged).push(Notification::Changed)
    } else {
        log
    }
}

/// A log of the reports received, kept in memory.
pub struct NotificationLog {
    entries: Vec<Notification>,
}

impl NotificationLog {
    /// An empty log.
    pub fn new() -> (r: Self)
        ensures
            r.notifications() == Seq::<Notification>::empty(),
    {
        NotificationLog { entries: Vec::new() }
    }

    /// The reports received so far, in order.
    pub fn entries(&self) -> (r: &Vec<Notification>)
        ensures
            r@ == self.notifications(),
    {
        &self.entries
    }
}

impl TextStateNotifier for NotificationLog {
    closed spec fn notifications(&self) -> Seq<Notification> {
        self.entries@
    }

    fn notify_changed(&mut self) {
        self.entries.push(Notification::Changed);
    }

    fn emit_text_changed(&mut self, event: TextChanged) {
        self.entries.push(Notification::TextChanged);
    }

    fn emit_history(&mut self, event: TextHistoryPushed) {
        self.entries.push(Notification::HistoryPushed);
    }
}

/// The mathematical content of an `EditableTextState`.
pub ghost struct EditableView {
    pub content: Seq<char>,
    pub utf16_hint: Option<usize>,
    /// Where the caret is: the first end of the stored selection.
    pub caret: int,
    /// The other end of the stored selection.
    pub anchor: int,
    pub marked: Option<(int, int)>,
    pub is_selecting: bool,
    pub click_count: int,
    pub supports_multiline: bool,
    pub accepts_input: bool,
    pub history: Option<HistoryView>,
}

impl EditableView {
    /// Length of the content in bytes.
    pub open spec fn len(self) -> int {
        utf8_len(self.content) as int
    }

    /// The lower end of the selection.
    pub open spec fn lo(self) -> int {
        if self.caret <= self.anchor {
            self.caret
        } else {
            self.anchor
        }
    }

    /// The upper end of the selection.
    pub open spec fn hi(self) -> int {
        if self.caret <= self.anchor {
            self.anchor
        } else {
            self.caret
        }
    }

    /// Caret, anchor and the remembered UTF-16 length are consistent with the content,
    /// and each history entry's range ends where its inserted text ends.
    pub open spec fn wf_core(self) -> bool {
        &&& is_utf8_boundary(self.content, self.caret)
        &&& is_utf8_boundary(self.content, self.anchor)
        &&& self.utf16_hint is None
        &&& 0 <= self.click_count <= usize::MAX
        &&& (self.history matches Some(h) ==> {
            &&& forall|i: int| 0 <= i < h.undo.len() ==> #[trigger] h.undo[i] == normalized(h.undo[i])
            &&& forall|i: int| 0 <= i < h.redo.len() ==> #[trigger] h.redo[i] == normalized(h.redo[i])
        })
    }

    /// The state invariant: `wf_core`, and the marked range lies on character boundaries.
    pub open spec fn wf(self) -> bool {
        &&& self.wf_core()
        &&& (self.marked matches Some(m) ==> valid_range(self.content, m.0, m.1))
    }

    /// `o` clamped to the content.
    pub open spec fn clamp(self, o: int) -> int {
        clamp_to_len(self.content, o)
    }

    /// The state after the caret moves to `o` (clamped) and the selection collapses there.
    pub open spec fn moved_to(self, o: int) -> EditableView {
        EditableView { caret: self.clamp(o), anchor: self.clamp(o), ..self }
    }

    /// The state after the caret moves to `o` (clamped) while the anchor stays.
    pub open spec fn selected_to(self, o: int) -> EditableView {
        EditableView { caret: self.clamp(o), ..self }
    }

    /// The state after the whole content is selected, the caret at its start.
    pub open spec fn document_selected(self) -> EditableView {
        EditableView { caret: 0, anchor: self.len(), ..self }
    }

    /// The state after recording, at `now` (ms), that the bytes `[a, b)` are replaced by
    /// `n` bytes: nothing is recorded while IME text is marked or without a history.
    pub open spec fn recorded(self, a: int, b: int, n: int, now: int) -> EditableView {
        match self.history {
            Some(h) => if self.marked is None {
                EditableView {
                    history: Some(
                        h.recorded(
                            self.content,
                            a,
                            b,
                            n,
                            (self.caret, self.anchor),
                            false,
                            now,
                        ),
                    ),
                    ..self
                }
            } else {
                self
            },
            None => self,
        }
    }

    /// The state after the bytes `[a, b)` are replaced by `t` at `now`, recorded for undo:
    /// the caret ends up after the new text and nothing stays marked.
    pub open spec fn replaced(self, a: int, b: int, t: Seq<char>, now: int) -> EditableView {
        let r = self.recorded(a, b, utf8_len(t) as int, now);
        EditableView {
            content: splice(self.content, a, b, t),
            caret: a + utf8_len(t),
            anchor: a + utf8_len(t),
            marked: None,
            ..r
        }
    }

    /// The range `[a, b)` clamped to the content, its end not before its start.
    pub open spec fn clamped_range(self, a: int, b: int) -> (int, int) {
        let s = self.clamp(a);
        (s, self.clamp(if b < s {
            s
        } else {
            b
        }))
    }

    /// The state after `replace_text`: the range `[a, b)`, clamped (`clamped_range`), is
    /// replaced by `t`, the caret placed after it, nothing recorded.
    pub open spec fn text_replaced(self, a: int, b: int, t: Seq<char>) -> EditableView {
        let (s, e) = self.clamped_range(a, b);
        EditableView {
            content: splice(self.content, s, e, t),
            caret: s + utf8_len(t),
            anchor: s + utf8_len(t),
            ..self
        }
    }

    /// The byte range an IME edit applies to: the UTF-16 range it names, else the marked
    /// range, else the selection; each end clamped to the content.
    pub open spec fn resolved(self, range_utf16: Option<(int, int)>) -> (int, int) {
        let r = match range_utf16 {
            Some(r) => (
                utf16_to_utf8(self.content, r.0) as int,
                utf16_to_utf8(self.content, r.1) as int,
            ),
            None => match self.marked {
                Some(m) => m,
                None => (self.lo(), self.hi()),
            },
        };
        (self.clamp(r.0), self.clamp(r.1))
    }

    /// The range a deletion removes: the selection, or, when it is empty, the range from
    /// the caret one `boundary` in `direction`.
    pub open spec fn deletion_range(
        self,
        direction: NavigationDirection,
        boundary: TextBoundary,
    ) -> (int, int) {
        if self.lo() == self.hi() {
            range_from(self.content, self.caret, direction, boundary)
        } else {
            (self.lo(), self.hi())
        }
    }

    /// The state after a deletion in `direction` by `boundary` at `now` (ms); nothing
    /// happens when the element does not accept input.
    pub open spec fn deleted(
        self,
        direction: NavigationDirection,
        boundary: TextBoundary,
        now: int,
    ) -> EditableView {
        if self.accepts_input {
            let (a, b) = self.deletion_range(direction, boundary);
            self.replaced(a, b, Seq::empty(), now)
        } else {
            self
        }
    }

    /// The state after moving in `direction` by `boundary`: a selection collapses to its
    /// lower or upper end, otherwise the caret moves from where it is.
    pub open spec fn navigated(
        self,
        direction: NavigationDirection,
        boundary: TextBoundary,
    ) -> EditableView {
        if self.lo() != self.hi() {
            self.moved_to(
                match direction {
                    NavigationDirection::Back => self.lo(),
                    NavigationDirection::Forward => self.hi(),
                },
            )
        } else {
            self.moved_to(offset_from(self.content, self.caret, direction, boundary) as int)
        }
    }

    /// The state after the caret moves in `direction` by `boundary`, the anchor staying.
    pub open spec fn extended(
        self,
        direction: NavigationDirection,
        boundary: TextBoundary,
    ) -> EditableView {
        self.selected_to(offset_from(self.content, self.caret, direction, boundary) as int)
    }

    /// The state after `text` is inserted in place of the marked text or the selection.
    pub open spec fn inserted(self, text: Seq<char>, now: int) -> EditableView {
        let (a, b) = self.resolved(None);
        self.replaced(a, b, text, now)
    }

    /// Inserting `text` cannot overflow the content's length.
    pub open spec fn fits(self, text: Seq<char>) -> bool {
        self.len() + utf8_len(text) <= usize::MAX
    }

    /// The bytes a cut without selection removes: the caret's line with the newline after
    /// it, or, for the last line, with the newline before it.
    pub open spec fn line_cut_range(self) -> (int, int) {
        let ls = line_start(self.content, self.caret) as int;
        let le = line_end(self.content, self.caret) as int;
        let cut_end = if le < self.len() {
            le + 1
        } else {
            le
        };
        let cut_start = if le >= self.len() && ls > 0 {
            ls - 1
        } else {
            ls
        };
        (cut_start, cut_end)
    }

    /// The state after a cut at `now` (ms), and the text put on the clipboard.
    pub open spec fn cut_result(self, now: int) -> (EditableView, Option<Seq<char>>) {
        if !self.accepts_input {
            (self, None)
        } else if self.lo() != self.hi() {
            (
                self.replaced(self.lo(), self.hi(), Seq::empty(), now),
                Some(byte_slice(self.content, self.lo(), self.hi())),
            )
        } else {
            let (a, b) = self.line_cut_range();
            let v = EditableView { caret: a, anchor: b, ..self };
            (v.replaced(a, b, Seq::empty(), now), Some(byte_slice(self.content, a, b)))
        }
    }

    /// The state after a press of the mouse at the character position `pos`:
    /// `click_count` presses counted by the platform, the press landing close to the
    /// previous one (`same_position`), with or without shift.
    pub open spec fn mouse_down(
        self,
        pos: int,
        click_count: int,
        same_position: bool,
        shift: bool,
    ) -> EditableView {
        let cc = if same_position && click_count > 1 {
            click_count
        } else {
            1
        };
        let v = EditableView { is_selecting: true, click_count: cc, ..self };
        if cc == 2 {
            let (ws, we) = word_range(self.content, pos);
            EditableView { caret: ws, anchor: we, ..v }
        } else if cc == 3 {
            let ls = line_start(self.content, pos) as int;
            let le = line_end(self.content, pos) as int;
            EditableView {
                caret: ls,
                anchor: if le < self.len() {
                    le + 1
                } else {
                    le
                },
                ..v
            }
        } else if shift {
            v.selected_to(pos)
        } else {
            v.moved_to(pos)
        }
    }

    /// The state after an input method replaces its range by `text`, marks the new text
    /// as being composed and selects `new_selected_utf16` (UTF-16 offsets read in the
    /// new content, shifted by the start of the range), or places the caret after it.
    pub open spec fn marked_replaced(
        self,
        range_utf16: Option<(int, int)>,
        text: Seq<char>,
        new_selected_utf16: Option<(int, int)>,
        now: int,
    ) -> EditableView {
        let (a, b) = self.resolved(range_utf16);
        let n = utf8_len(text) as int;
        let w = self.replaced(a, b, text, now);
        let sel = match new_selected_utf16 {
            Some(r) => (
                utf16_to_utf8(w.content, r.0) + a,
                utf16_to_utf8(w.content, r.1) + a,
            ),
            None => (a + n, a + n),
        };
        EditableView {
            marked: if n == 0 {
                None
            } else {
                Some((a, a + n))
            },
            caret: sel.0,
            anchor: sel.1,
            ..w
        }
    }

    /// The state after taking the last entry of the `src` stack, applying it to the
    /// content, restoring the selection it holds and pushing its reverse onto `dst`.
    pub open spec fn history_applied(self, src: HistoryKind, dst: HistoryKind) -> EditableView {
        match self.history {
            Some(h) => if h.stack(src).len() > 0 {
                let p = h.stack(src).last();
                let (c, rev) = apply_patch(p, self.content);
                let taken = match src {
                    HistoryKind::Undo => HistoryView { undo: h.undo.drop_last(), ..h },
                    HistoryKind::Redo => HistoryView { redo: h.redo.drop_last(), ..h },
                };
                let pushed = match dst {
                    HistoryKind::Undo => HistoryView { undo: taken.undo.push(rev), ..taken },
                    HistoryKind::Redo => HistoryView { redo: taken.redo.push(rev), ..taken },
                };
                EditableView {
                    content: c,
                    caret: p.selected_start,
                    anchor: p.selected_end,
                    history: Some(pushed),
                    ..self
                }
            } else {
                self
            },
            None => self,
        }
    }

    /// Taking the last entry of `src` can be applied without a panic and leaves a
    /// well-formed state.
    pub open spec fn history_ready(self, src: HistoryKind) -> bool {
        match self.history {
            Some(h) => h.stack(src).len() > 0 ==> {
                let p = h.stack(src).last();
                let c = apply_patch(p, self.content).0;
                &&& patch_applicable(p, self.content)
                &&& is_utf8_boundary(c, p.selected_start)
                &&& is_utf8_boundary(c, p.selected_end)
                &&& (self.marked matches Some(m) ==> valid_range(c, m.0, m.1))
            },
            None => true,
        }
    }
}

/// The state of an editable text element: its text storage, the selection (whose first
/// end is the caret), IME marked text, mouse selection and undo/redo history.
pub struct EditableTextState {
    storage: Standard,
    /// The byte range selected by the user: `start` is the caret, `end` the anchor.
    /// Empty when both are equal.
    selected_range: Range<usize>,
    /// The byte range of the storage being composed by an input method.
    marked_range: Option<Range<usize>>,
    /// True while the user highlights text with the mouse pressed.
    is_selecting: bool,
    /// The number of presses at the same spot: one, two (word) or three (line).
    click_count: usize,
    /// Whether the element accepts line breaks.
    supports_multiline: bool,
    /// Whether the element accepts edits.
    accepts_input: bool,
    history: Option<EditableTextHistory>,
}

impl View for EditableTextState {
    type V = EditableView;

    closed spec fn view(&self) -> EditableView {
        EditableView {
            content: self.storage.text(),
            utf16_hint: self.storage.utf16_len_hint(),
            caret: self.selected_range.start as int,
            anchor: self.selected_range.end as int,
            marked: match self.marked_range {
                Some(r) => Some((r.start as int, r.end as int)),
                None => None,
            },
            is_selecting: self.is_selecting,
            click_count: self.click_count as int,
            supports_multiline: self.supports_multiline,
            accepts_input: self.accepts_input,
            history: match self.history {
                Some(h) => Some(h@),
                None => None,
            },
        }
    }
}

impl EditableTextState {
    /// A state over `storage`, caret at the start, with an empty history; the element
    /// neither accepts input nor line breaks until its layout says so. A UTF-16 length
    /// the storage remembers is forgotten: the state does not keep it up to date.
    pub fn new(storage: Standard) -> (r: Self)
        ensures
            r@.wf(),
            r@.content == storage.text(),
            r@.caret == 0 && r@.anchor == 0,
            r@.marked is None,
            !r@.is_selecting,
            r@.click_count == 0,
            !r@.supports_multiline,
            !r@.accepts_input,
            r@.history == Some(
                HistoryView {
                    undo: Seq::empty(),
                    redo: Seq::empty(),
                    grouping_interval: crate::history::DEFAULT_GROUP_INTERVAL_MS as int,
                },
            ),
    {
        let mut storage = storage;
        storage.clear_utf16_cache();
        proof {
            lemma_ends_are_boundaries(storage.text());
        }
        EditableTextState {
            storage,
            selected_range: 0..0,
            marked_range: None,
            is_selecting: false,
            click_count: 0,
            supports_multiline: false,
            accepts_input: false,
            history: Some(EditableTextHistory::default()),
        }
    }

    /// Sets what the element's layout allows: line breaks, and edits at all.
    pub fn set_layout_modes(&mut self, supports_multiline: bool, accepts_input: bool)
        requires
            old(self)@.wf(),
        ensures
            final(self)@ == (EditableView { supports_multiline, accepts_input, ..old(self)@ }),
            final(self)@.wf(),
    {
        self.supports_multiline = supports_multiline;
        self.accepts_input = accepts_input;
    }

    /// The text storage.
    pub fn storage(&self) -> (r: &Standard)
        ensures
            r.text() == self@.content,
            r.utf16_len_hint() == self@.utf16_hint,
    {
        &self.storage
    }

    /// The selected byte range, lower end first.
    pub fn selected_range(&self) -> (r: Range<usize>)
        ensures
            r.start == self@.lo(),
            r.end == self@.hi(),
    {
        if self.selected_range.start <= self.selected_range.end {
            self.selected_range.start..self.selected_range.end
        } else {
            self.selected_range.end..self.selected_range.start
        }
    }

    /// The selection as stored: caret first, anchor second.
    pub fn raw_selected_range(&self) -> (r: Range<usize>)
        ensures
            r.start == self@.caret,
            r.end == self@.anchor,
    {
        self.selected_range.start..self.selected_range.end
    }

    /// `Forward` when the caret is after the anchor, `Back` when before, `None` when the
    /// selection is empty.
    pub fn selection_direction(&self) -> (r: Option<NavigationDirection>)
        ensures
            self@.caret > self@.anchor ==> r == Some(NavigationDirection::Forward),
            self@.caret == self@.anchor ==> r is None,
            self@.caret < self@.anchor ==> r == Some(NavigationDirection::Back),
    {
        if self.selected_range.start > self.selected_range.end {
            Some(NavigationDirection::Forward)
        } else if self.selected_range.start == self.selected_range.end {
            None
        } else {
            Some(NavigationDirection::Back)
        }
    }

    /// The position of the caret.
    pub fn caret_pos(&self) -> (r: usize)
        ensures
            r == self@.caret,
    {
        self.selected_range.start
    }

    /// Stores `range` as the selection: `start` becomes the caret, `end` the anchor.
    /// Both ends must be character boundaries of the content: the state slices its text
    /// at the selection, which is not possible inside a character.
    pub fn set_selected_range(&mut self, range: Range<usize>)
        requires
            old(self)@.wf(),
            is_utf8_boundary(old(self)@.content, range.start as int),
            is_utf8_boundary(old(self)@.content, range.end as int),
        ensures
            final(self)@ == (EditableView {
                caret: range.start as int,
                anchor: range.end as int,
                ..old(self)@
            }),
            final(self)@.wf(),
    {
        self.selected_range = range;
    }

    /// The marked (IME) byte range.
    pub fn marked_range(&self) -> (r: Option<Range<usize>>)
        ensures
            r matches Some(m) ==> self@.marked == Some((m.start as int, m.end as int)),
            r is None <==> self@.marked is None,
    {
        match &self.marked_range {
            Some(m) => Some(m.start..m.end),
            None => None,
        }
    }

    /// The undo/redo history, if the state keeps one.
    pub fn history(&self) -> (r: Option<&EditableTextHistory>)
        ensures
            r is None <==> self@.history is None,
            r matches Some(h) ==> self@.history == Some(h@),
    {
        match &self.history {
            Some(h) => Some(h),
            None => None,
        }
    }
}

// Editing and navigation
impl EditableTextState {
    /// Records, at `now` (ms), that the bytes `range` are about to be replaced by
    /// `new_text_len` bytes; nothing is recorded while IME text is marked.
    fn record_history(&mut self, range: Range<usize>, new_text_len: usize, now: u64)
        requires
            old(self)@.wf(),
            valid_range(old(self)@.content, range.start as int, range.end as int),
            range.start + new_text_len <= usize::MAX,
            utf8_len(old(self)@.content) - (range.end - range.start) + new_text_len <= usize::MAX,
        ensures
            final(self)@ == old(self)@.recorded(
                range.start as int,
                range.end as int,
                new_text_len as int,
                now as int,
            ),
            final(self)@.wf(),
    {
        // Don't record during IME composition
        if self.marked_range.is_some() {
            return;
        }
        match &mut self.history {
            Some(history) => {
                history.record(
                    self.storage.content_utf8(),
                    range.start..range.end,
                    new_text_len,
                    self.selected_range.start..self.selected_range.end,
                    now,
                );
            },
            None => {},
        }
    }

    /// Replaces the bytes `range` by `text_to_insert`, recording the edit for undo at
    /// `now` (ms); the caret ends up after the new text and nothing stays marked.
    pub fn replace_text_in_range_bytes(&mut self, range: Range<usize>, text_to_insert: &str, now: u64)
        requires
            old(self)@.wf(),
            valid_range(old(self)@.content, range.start as int, range.end as int),
            old(self)@.fits(text_to_insert@),
        ensures
            final(self)@ == old(self)@.replaced(
                range.start as int,
                range.end as int,
                text_to_insert@,
                now as int,
            ),
            final(self)@.wf(),
    {
        let ghost v = self@;
        let n = byte_len(text_to_insert);
        proof {
            lemma_index_of_boundary(v.content, range.start as int);
            lemma_splice(v.content, range.start as int, range.end as int, text_to_insert@);
        }
        let end_pos = range.start + n;
        self.record_history(range.start..range.end, n, now);
        self.storage.replace_range(range, text_to_insert);
        self.selected_range = end_pos..end_pos;
        self.marked_range = None;
    }

    /// Replaces the range (clamped to the content, its end not before its start) by
    /// `new_text`, placing the caret after it; nothing is recorded and the marked range
    /// is left as it is.
    pub fn replace_text(&mut self, range: &Range<usize>, new_text: &str)
        requires
            old(self)@.wf_core(),
            old(self)@.fits(new_text@),
            is_utf8_boundary(
                old(self)@.content,
                old(self)@.clamped_range(range.start as int, range.end as int).0,
            ),
            is_utf8_boundary(
                old(self)@.content,
                old(self)@.clamped_range(range.start as int, range.end as int).1,
            ),
        ensures
            final(self)@ == old(self)@.text_replaced(range.start as int, range.end as int, new_text@),
            final(self)@.wf_core(),
    {
        let ghost v = self@;
        let len = self.storage.len();
        let start = if range.start < len {
            range.start
        } else {
            len
        };
        let end = if range.end < start {
            start
        } else {
            range.end
        };
        let end = if end < len {
            end
        } else {
            len
        };
        let n = byte_len(new_text);
        proof {
            lemma_index_of_boundary(v.content, start as int);
            lemma_splice(v.content, start as int, end as int, new_text@);
        }
        self.storage.replace_range(start..end, new_text);
        let new_caret = start + n;
        self.selected_range = new_caret..new_caret;
    }

    /// Moves the caret to `caret_pos` (clamped to the content), collapsing the selection.
    pub fn move_to<N: TextStateNotifier>(&mut self, caret_pos: usize, cx: &mut N)
        requires
            old(self)@.wf(),
            is_utf8_boundary(old(self)@.content, old(self)@.clamp(caret_pos as int)),
        ensures
            final(self)@ == old(self)@.moved_to(caret_pos as int),
            final(self)@.wf(),
            final(cx).notifications() == repainted_if(old(cx).notifications(), true),
    {
        let len = self.storage.len();
        let caret_pos = if caret_pos < len {
            caret_pos
        } else {
            len
        };
        self.selected_range = caret_pos..caret_pos;
        cx.notify_changed();
    }

    /// Moves the caret to `caret_pos` (clamped to the content), the anchor staying.
    pub fn select_to<N: TextStateNotifier>(&mut self, caret_pos: usize, cx: &mut N)
        requires
            old(self)@.wf(),
            is_utf8_boundary(old(self)@.content, old(self)@.clamp(caret_pos as int)),
        ensures
            final(self)@ == old(self)@.selected_to(caret_pos as int),
            final(self)@.wf(),
            final(cx).notifications() == repainted_if(old(cx).notifications(), true),
    {
        let len = self.storage.len();
        let caret_pos = if caret_pos < len {
            caret_pos
        } else {
            len
        };
        self.selected_range = caret_pos..self.selected_range.end;
        cx.notify_changed();
    }

    /// Deletes the selection, or, when it is empty, from the caret one `boundary` in
    /// `direction`, recording the edit at `now` (ms); nothing happens when the element
    /// does not accept input.
    pub fn delete_linear<N: TextStateNotifier>(
        &mut self,
        direction: NavigationDirection,
        boundary: TextBoundary,
        now: u64,
        cx: &mut N,
    )
        requires
            old(self)@.wf(),
        ensures
            final(self)@ == old(self)@.deleted(direction, boundary, now as int),
            final(self)@.wf(),
            final(cx).notifications() == edited_if(old(cx).notifications(), old(self)@.accepts_input),
    {
        if !self.accepts_input {
            return;
        }
        let ghost v = self@;
        let range = self.selected_range();
        let range = if range.start == range.end {
            proof {
                lemma_index_of_boundary(v.content, v.caret);
            }
            range_from_caret(self.storage.content_utf8(), self.selected_range.start, direction, boundary)
        } else {
            range
        };
        let _ = self.storage.len();
        proof {
            lemma_index_of_boundary(v.content, range.start as int);
            lemma_index_of_boundary(v.content, range.end as int);
            reveal_strlit("");
            assert(""@ =~= Seq::<char>::empty());
        }
        self.record_history(range.start..range.end, 0, now);
        self.replace_text(&range, "");
        self.marked_range = None;
        cx.emit_text_changed(TextChanged);
        cx.notify_changed();
    }

    /// Moves in `direction` by `boundary`: a selection collapses to its lower or upper
    /// end, otherwise the caret moves from where it is.
    pub fn nav_linear<N: TextStateNotifier>(
        &mut self,
        direction: NavigationDirection,
        boundary: TextBoundary,
        cx: &mut N,
    )
        requires
            old(self)@.wf(),
        ensures
            final(self)@ == old(self)@.navigated(direction, boundary),
            final(self)@.wf(),
            final(cx).notifications() == repainted_if(old(cx).notifications(), true),
    {
        let ghost v = self@;
        proof {
            lemma_index_of_boundary(v.content, v.caret);
            lemma_index_of_boundary(v.content, v.anchor);
        }
        let caret_pos = if self.selected_range.start != self.selected_range.end {
            let range = self.selected_range();
            match direction {
                NavigationDirection::Back => range.start,
                NavigationDirection::Forward => range.end,
            }
        } else {
            offset_from_caret(self.storage.content_utf8(), self.selected_range.start, direction, boundary)
        };
        self.move_to(caret_pos, cx);
    }

    /// Selects the whole content, the caret at its start.
    pub fn select_document<N: TextStateNotifier>(&mut self, cx: &mut N)
        requires
            old(self)@.wf(),
        ensures
            final(self)@ == old(self)@.document_selected(),
            final(self)@.wf(),
            final(cx).notifications() == repainted_if(old(cx).notifications(), true),
    {
        proof {
            lemma_ends_are_boundaries(self@.content);
        }
        self.selected_range = 0..self.storage.len();
        cx.notify_changed();
    }

    /// Moves the caret in `direction` by `boundary`, the anchor staying.
    pub fn select_linear<N: TextStateNotifier>(
        &mut self,
        direction: NavigationDirection,
        boundary: TextBoundary,
        cx: &mut N,
    )
        requires
            old(self)@.wf(),
        ensures
            final(self)@ == old(self)@.extended(direction, boundary),
            final(self)@.wf(),
            final(cx).notifications() == repainted_if(old(cx).notifications(), true),
    {
        proof {
            lemma_index_of_boundary(self@.content, self@.caret);
        }
        let caret_pos = offset_from_caret(
            self.storage.content_utf8(),
            self.selected_range.start,
            direction,
            boundary,
        );
        self.select_to(caret_pos, cx);
    }
}

// Input method (IME) support
impl EditableTextState {
    /// The byte range an IME edit applies to: the UTF-16 range given, else the marked
    /// range, else the selection; each end clamped to the content.
    fn ime_resolve_range(&self, range_utf16: Option<Range<usize>>) -> (r: Range<usize>)
        requires
            self@.wf(),
            range_utf16 matches Some(r) ==> r.start <= r.end,
        ensures
            (r.start as int, r.end as int) == self@.resolved(
                match range_utf16 {
                    Some(r) => Some((r.start as int, r.end as int)),
                    None => None,
                },
            ),
            valid_range(self@.content, r.start as int, r.end as int),
    {
        let ghost v = self@;
        // Fallback order: IME provided range, active IME marked range, selection
        let range = match &range_utf16 {
            Some(r) => {
                proof {
                    crate::unicode::lemma_utf16_to_utf8_boundary(v.content, r.start as int, r.end as int);
                }
                self.storage.utf_range_16to8(r)
            },
            None => match &self.marked_range {
                Some(m) => m.start..m.end,
                None => self.selected_range(),
            },
        };
        proof {
            lemma_index_of_boundary(v.content, range.start as int);
            lemma_index_of_boundary(v.content, range.end as int);
        }
        let len = self.storage.len();
        (if range.start < len {
            range.start
        } else {
            len
        })..(if range.end < len {
            range.end
        } else {
            len
        })
    }

    /// The text of the UTF-16 range (clamped to the content); `adjusted_range` receives
    /// the range actually read, in UTF-16 code units.
    pub fn text_for_range(
        &self,
        range_utf16: Range<usize>,
        adjusted_range: &mut Option<Range<usize>>,
    ) -> (r: Option<String>)
        requires
            self@.wf(),
            range_utf16.start <= range_utf16.end,
        ensures
            ({
                let a = utf16_to_utf8(self@.content, range_utf16.start as int);
                let b = utf16_to_utf8(self@.content, range_utf16.end as int);
                &&& r matches Some(t) && t@ == byte_slice(self@.content, a as int, b as int)
                &&& *final(adjusted_range) matches Some(adj) && adj.start == utf8_to_utf16(
                    self@.content,
                    a as int,
                ) && adj.end == utf8_to_utf16(self@.content, b as int)
            }),
    {
        proof {
            crate::unicode::lemma_utf16_to_utf8_boundary(
                self@.content,
                range_utf16.start as int,
                range_utf16.end as int,
            );
        }
        let range = self.storage.utf_range_16to8(&range_utf16);
        let len = self.storage.len();
        let clamped_range = (if range.start < len {
            range.start
        } else {
            len
        })..(if range.end < len {
            range.end
        } else {
            len
        });
        *adjusted_range = Some(self.storage.utf_range_8to16(&clamped_range));
        Some(str_slice(self.storage.content_utf8(), clamped_range.start, clamped_range.end).to_owned())
    }

    /// The selection in UTF-16 code units, lower end first; `reversed` when the caret is
    /// before the anchor.
    pub fn selected_text_range(&self) -> (r: Option<UTF16Selection>)
        requires
            self@.wf(),
        ensures
            r matches Some(sel) && sel.range.start == utf8_to_utf16(self@.content, self@.lo())
                && sel.range.end == utf8_to_utf16(self@.content, self@.hi()) && sel.reversed == (
            self@.caret < self@.anchor),
    {
        let selection_range = self.selected_range();
        let direction = self.selection_direction();
        Some(
            UTF16Selection {
                range: self.storage.utf_range_8to16(&selection_range),
                reversed: match direction {
                    Some(NavigationDirection::Back) => true,
                    _ => false,
                },
            },
        )
    }

    /// The marked range in UTF-16 code units.
    pub fn marked_text_range(&self) -> (r: Option<Range<usize>>)
        requires
            self@.wf(),
        ensures
            self@.marked is None ==> r is None,
            self@.marked matches Some(m) ==> (r matches Some(r16) && r16.start == utf8_to_utf16(
                self@.content,
                m.0,
            ) && r16.end == utf8_to_utf16(self@.content, m.1)),
    {
        match &self.marked_range {
            Some(range) => Some(self.storage.utf_range_8to16(range)),
            None => None,
        }
    }

    /// Ends the composition: nothing is marked any more.
    pub fn unmark_text(&mut self)
        requires
            old(self)@.wf_core(),
        ensures
            final(self)@ == (EditableView { marked: None, ..old(self)@ }),
            final(self)@.wf(),
    {
        self.marked_range = None;
    }

    /// Replaces the UTF-16 range (or the marked text, or the selection) by `text_to_insert`,
    /// recording the edit at `now` (ms).
    pub fn replace_text_in_range<N: TextStateNotifier>(
        &mut self,
        range_utf16: Option<Range<usize>>,
        text_to_insert: &str,
        now: u64,
        cx: &mut N,
    )
        requires
            old(self)@.wf(),
            old(self)@.fits(text_to_insert@),
            range_utf16 matches Some(r) ==> r.start <= r.end,
        ensures
            ({
                let (a, b) = old(self)@.resolved(
                    match range_utf16 {
                        Some(r) => Some((r.start as int, r.end as int)),
                        None => None,
                    },
                );
                final(self)@ == old(self)@.replaced(a, b, text_to_insert@, now as int)
            }),
            final(self)@.wf(),
            final(cx).notifications() == edited_if(old(cx).notifications(), true),
    {
        let range_utf8 = self.ime_resolve_range(range_utf16);
        self.replace_text_in_range_bytes(range_utf8, text_to_insert, now);
        cx.emit_text_changed(TextChanged);
        cx.notify_changed();
    }

    /// Marks the `text_len` bytes from the start of `range` as being composed (nothing
    /// when `text_len` is 0).
    fn ime_mark_text_in_range(&mut self, range: &Range<usize>, text_len: usize)
        requires
            old(self)@.wf_core(),
            old(self)@.len() <= usize::MAX,
            valid_range(old(self)@.content, range.start as int, range.start + text_len),
        ensures
            final(self)@ == (EditableView {
                marked: if text_len == 0 {
                    None
                } else {
                    Some((range.start as int, range.start + text_len))
                },
                ..old(self)@
            }),
            final(self)@.wf(),
    {
        proof {
            lemma_index_of_boundary(self@.content, range.start + text_len);
        }
        self.marked_range = if text_len == 0 {
            None
        } else {
            Some(range.start..range.start + text_len)
        };
    }

    /// Selects `new_selected_range_utf16` (read in the content, shifted by the start of
    /// `range_overwritten`), or places the caret after the `text_len` new bytes.
    fn ime_mark_selected_range(
        &mut self,
        range_overwritten: &Range<usize>,
        new_selected_range_utf16: &Option<Range<usize>>,
        text_len: usize,
    )
        requires
            old(self)@.wf(),
            old(self)@.len() <= usize::MAX,
            ({
                let sel = match new_selected_range_utf16 {
                    Some(r) => (
                        utf16_to_utf8(old(self)@.content, r.start as int) + range_overwritten.start,
                        utf16_to_utf8(old(self)@.content, r.end as int) + range_overwritten.start,
                    ),
                    None => (
                        range_overwritten.start + text_len,
                        range_overwritten.start + text_len,
                    ),
                };
                &&& is_utf8_boundary(old(self)@.content, sel.0)
                &&& is_utf8_boundary(old(self)@.content, sel.1)
            }),
        ensures
            ({
                let sel = match new_selected_range_utf16 {
                    Some(r) => (
                        utf16_to_utf8(old(self)@.content, r.start as int) + range_overwritten.start,
                        utf16_to_utf8(old(self)@.content, r.end as int) + range_overwritten.start,
                    ),
                    None => (
                        range_overwritten.start + text_len,
                        range_overwritten.start + text_len,
                    ),
                };
                final(self)@ == (EditableView { caret: sel.0, anchor: sel.1, ..old(self)@ })
            }),
            final(self)@.wf(),
    {
        let ghost v = self@;
        let new_range = match new_selected_range_utf16 {
            Some(range_utf16) => {
                let r8 = self.storage.utf_range_16to8(range_utf16);
                proof {
                    lemma_index_of_boundary(v.content, r8.start + range_overwritten.start);
                    lemma_index_of_boundary(v.content, r8.end + range_overwritten.start);
                }
                r8.start + range_overwritten.start..r8.end + range_overwritten.start
            },
            None => {
                proof {
                    lemma_index_of_boundary(v.content, range_overwritten.start + text_len);
                }
                range_overwritten.start + text_len..range_overwritten.start + text_len
            },
        };
        self.selected_range = new_range;
    }

    /// Whether `replace_and_mark_text_in_range` can run with these arguments: the UTF-16
    /// range (if any) is ordered, the new text fits, and the selection it would set lies
    /// on character boundaries of the new content. The selection is read in the new
    /// content as a whole and shifted by the start of the replaced range, as the state
    /// does; where that lands inside a character the state could not slice its text at
    /// the selection afterwards, so such an edit is not ready and is not to be made.
    pub fn replace_and_mark_ready(
        &self,
        range_utf16: &Option<Range<usize>>,
        text_to_insert: &str,
        new_selected_range_utf16: &Option<Range<usize>>,
    ) -> (r: bool)
        requires
            self@.wf(),
        ensures
            r == ({
                let w = self@.marked_replaced(
                    match range_utf16 {
                        Some(r) => Some((r.start as int, r.end as int)),
                        None => None,
                    },
                    text_to_insert@,
                    match new_selected_range_utf16 {
                        Some(r) => Some((r.start as int, r.end as int)),
                        None => None,
                    },
                    0,
                );
                &&& (range_utf16 matches Some(r) ==> r.start <= r.end)
                &&& self@.fits(text_to_insert@)
                &&& is_utf8_boundary(w.content, w.caret)
                &&& is_utf8_boundary(w.content, w.anchor)
            }),
    {
        let ghost v = self@;
        if let Some(r) = range_utf16 {
            if r.start > r.end {
                return false;
            }
        }
        let n = byte_len(text_to_insert);
        if self.storage.len().checked_add(n).is_none() {
            return false;
        }
        let range = self.ime_resolve_range(
            match range_utf16 {
                Some(r) => Some(r.start..r.end),
                None => None,
            },
        );
        let mut probe = self.storage.content_utf8().to_owned();
        crate::text::string_replace_range(&mut probe, range.start, range.end, text_to_insert);
        proof {
            lemma_splice(v.content, range.start as int, range.end as int, text_to_insert@);
            lemma_index_of_boundary(v.content, range.start as int);
        }
        let (caret, anchor) = match new_selected_range_utf16 {
            Some(r16) => {
                let a = crate::unicode::offset_utf16_to_utf8(probe.as_str(), r16.start).checked_add(
                    range.start,
                );
                let b = crate::unicode::offset_utf16_to_utf8(probe.as_str(), r16.end).checked_add(
                    range.start,
                );
                match (a, b) {
                    (Some(a), Some(b)) => (a, b),
                    _ => {
                        proof {
                            let w = probe@;
                            if is_utf8_boundary(w, utf16_to_utf8(w, r16.start as int) + range.start) {
                                lemma_index_of_boundary(w, utf16_to_utf8(w, r16.start as int) + range.start);
                            }
                            if is_utf8_boundary(w, utf16_to_utf8(w, r16.end as int) + range.start) {
                                lemma_index_of_boundary(w, utf16_to_utf8(w, r16.end as int) + range.start);
                            }
                        }
                        return false;
                    },
                }
            },
            None => (range.start + n, range.start + n),
        };
        crate::text::is_char_boundary(probe.as_str(), caret) && crate::text::is_char_boundary(
            probe.as_str(),
            anchor,
        )
    }

    /// Replaces the UTF-16 range (or the marked text, or the selection) by `text_to_insert`,
    /// recording the edit at `now` (ms), and marks the new text as being composed; the
    /// selection becomes `new_selected_range_utf16` (shifted by the start of the range)
    /// or the position after the new text.
    #[verifier::spinoff_prover]
    pub fn replace_and_mark_text_in_range<N: TextStateNotifier>(
        &mut self,
        range_utf16: Option<Range<usize>>,
        text_to_insert: &str,
        new_selected_range_utf16: Option<Range<usize>>,
        now: u64,
        cx: &mut N,
    )
        requires
            old(self)@.wf(),
            old(self)@.fits(text_to_insert@),
            range_utf16 matches Some(r) ==> r.start <= r.end,
            ({
                let w = old(self)@.marked_replaced(
                    match range_utf16 {
                        Some(r) => Some((r.start as int, r.end as int)),
                        None => None,
                    },
                    text_to_insert@,
                    match new_selected_range_utf16 {
                        Some(r) => Some((r.start as int, r.end as int)),
                        None => None,
                    },
                    now as int,
                );
                &&& is_utf8_boundary(w.content, w.caret)
                &&& is_utf8_boundary(w.content, w.anchor)
            }),
        ensures
            final(self)@ == old(self)@.marked_replaced(
                match range_utf16 {
                    Some(r) => Some((r.start as int, r.end as int)),
                    None => None,
                },
                text_to_insert@,
                match new_selected_range_utf16 {
                    Some(r) => Some((r.start as int, r.end as int)),
                    None => None,
                },
                now as int,
            ),
            final(self)@.wf(),
            final(cx).notifications() == edited_if(old(cx).notifications(), true),
    {
        let ghost v = self@;
        let range = self.ime_resolve_range(range_utf16);
        let n = byte_len(text_to_insert);
        proof {
            lemma_splice(v.content, range.start as int, range.end as int, text_to_insert@);
            lemma_index_of_boundary(v.content, range.start as int);
        }
        self.replace_text_in_range_bytes(range.start..range.end, text_to_insert, now);
        self.ime_mark_text_in_range(&range, n);
        self.ime_mark_selected_range(&range, &new_selected_range_utf16, n);
        cx.emit_text_changed(TextChanged);
        cx.notify_changed();
    }
}

// Undo and redo
impl EditableTextState {
    /// Takes the last entry of `src`, applies it to the content, restores the selection
    /// it holds and pushes its reverse onto `dst`.
    fn apply_from_history<N: TextStateNotifier>(
        &mut self,
        src: HistoryKind,
        dst: HistoryKind,
        cx: &mut N,
    )
        requires
            old(self)@.wf(),
            old(self)@.history_ready(src),
        ensures
            final(self)@ == old(self)@.history_applied(src, dst),
            final(self)@.wf(),
            final(cx).notifications() == repainted_if(old(cx).notifications(), old(self)@.history matches Some(h) && h.stack(src).len() > 0),
    {
        let ghost v = self@;
        match &mut self.history {
            None => {
                return;
            },
            Some(history) => {
                let entry = match history.take(src) {
                    None => {
                        return;
                    },
                    Some(e) => e,
                };
                let ghost p = entry@;
                let len = self.storage.len();
                let start = entry.range.start;
                let end = if start + entry.new_text_len < len {
                    start + entry.new_text_len
                } else {
                    len
                };
                proof {
                    assert(end == crate::history::undo_end(p, v.content));
                    lemma_index_of_boundary(v.content, start as int);
                    lemma_index_of_boundary(v.content, end as int);
                    crate::text::lemma_boundary_order(v.content, start as int, end as int);
                    lemma_slice(v.content, start as int, end as int);
                }
                // Snapshot the bytes that are being replaced
                let removed_text = str_slice(self.storage.content_utf8(), start, end).to_owned();
                let old_len = byte_len(entry.old_text.as_str());
                // Replace them with the text the entry holds
                self.storage.replace_range(start..end, entry.old_text.as_str());
                self.selected_range = entry.selected_range.start..entry.selected_range.end;
                // Push the reverse entry so that this step can itself be reverted
                let inverted = HistoryEntry {
                    range: start..start + old_len,
                    old_text: removed_text,
                    new_text_len: old_len,
                    selected_range: entry.selected_range.start..entry.selected_range.end,
                    selection_reversed: entry.selection_reversed,
                    timestamp: entry.timestamp,
                };
                history.push(dst, inverted);
            },
        }
        cx.notify_changed();
    }

    /// Whether the last entry of `kind` applies to the current content and leaves a
    /// well-formed state, so that `undo` (or `redo`) can run.
    pub fn history_ready(&self, kind: HistoryKind) -> (r: bool)
        requires
            self@.wf(),
        ensures
            r == self@.history_ready(kind),
    {
        let history = match &self.history {
            None => {
                return true;
            },
            Some(h) => h,
        };
        let entry = match history.peek(kind) {
            None => {
                return true;
            },
            Some(e) => e,
        };
        let start = entry.range.start;
        let end = match start.checked_add(entry.new_text_len) {
            Some(e) => e,
            None => {
                return false;
            },
        };
        let old_len = byte_len(entry.old_text.as_str());
        if start.checked_add(old_len).is_none() {
            return false;
        }
        let content = self.storage.content_utf8();
        let len = byte_len(content);
        let end = if end < len {
            end
        } else {
            len
        };
        if !(crate::text::is_char_boundary(content, start) && crate::text::is_char_boundary(
            content,
            end,
        )) {
            return false;
        }
        let mut probe = content.to_owned();
        let _ = entry.apply_undo(&mut probe);
        let sel_ok = crate::text::is_char_boundary(probe.as_str(), entry.selected_range.start)
            && crate::text::is_char_boundary(probe.as_str(), entry.selected_range.end);
        let marked_ok = match &self.marked_range {
            Some(m) => m.start <= m.end && crate::text::is_char_boundary(probe.as_str(), m.start)
                && crate::text::is_char_boundary(probe.as_str(), m.end),
            None => true,
        };
        sel_ok && marked_ok
    }

    /// Reverts the last recorded edit and restores the selection it was made with.
    pub fn undo<N: TextStateNotifier>(&mut self, cx: &mut N)
        requires
            old(self)@.wf(),
            old(self)@.history_ready(HistoryKind::Undo),
        ensures
            final(self)@ == old(self)@.history_applied(HistoryKind::Undo, HistoryKind::Redo),
            final(self)@.wf(),
            final(cx).notifications() == repainted_if(old(cx).notifications(), old(self)@.history matches Some(h) && h.stack(HistoryKind::Undo).len() > 0),
    {
        self.apply_from_history(HistoryKind::Undo, HistoryKind::Redo, cx);
    }

    /// Restores the last reverted edit and the selection it was made with.
    pub fn redo<N: TextStateNotifier>(&mut self, cx: &mut N)
        requires
            old(self)@.wf(),
            old(self)@.history_ready(HistoryKind::Redo),
        ensures
            final(self)@ == old(self)@.history_applied(HistoryKind::Redo, HistoryKind::Undo),
            final(self)@.wf(),
            final(cx).notifications() == repainted_if(old(cx).notifications(), old(self)@.history matches Some(h) && h.stack(HistoryKind::Redo).len() > 0),
    {
        self.apply_from_history(HistoryKind::Redo, HistoryKind::Undo, cx);
    }
}

// Clipboard
impl EditableTextState {
    /// Cuts the selection, or, when it is empty, the caret's line with its newline;
    /// the edit is recorded at `now` (ms). Returns the text for the clipboard, `None`
    /// when the element does not accept input.
    pub fn cut<N: TextStateNotifier>(&mut self, now: u64, cx: &mut N) -> (r: Option<String>)
        requires
            old(self)@.wf(),
        ensures
            final(self)@ == old(self)@.cut_result(now as int).0,
            r is None <==> old(self)@.cut_result(now as int).1 is None,
            r matches Some(t) ==> old(self)@.cut_result(now as int).1 == Some(t@),
            final(self)@.wf(),
            final(cx).notifications() == edited_if(old(cx).notifications(), old(self)@.accepts_input),
    {
        if !self.accepts_input {
            return None;
        }
        let ghost v = self@;
        let _ = self.storage.len();
        proof {
            reveal_strlit("");
            assert(""@ =~= Seq::<char>::empty());
            lemma_index_of_boundary(v.content, v.caret);
            lemma_index_of_boundary(v.content, v.anchor);
        }
        let text = if self.selected_range.start != self.selected_range.end {
            // Cut selected text
            let range = self.selected_range();
            let text = str_slice(self.storage.content_utf8(), range.start, range.end).to_owned();
            self.replace_text_in_range_bytes(range, "", now);
            text
        } else {
            // No selection: cut the entire current line (including newline)
            let caret = self.selected_range.start;
            proof {
                crate::boundaries::lemma_line_start_after_newline(v.content, caret as int);
                crate::boundaries::lemma_line_end_before_newline(v.content, caret as int);
            }
            let line_start = find_line_start(self.storage.content_utf8(), caret);
            let line_end = find_line_end(self.storage.content_utf8(), caret);
            let storage_len_utf8 = self.storage.len();
            // Include the newline character if there is one after the line
            let cut_end = if line_end < storage_len_utf8 {
                line_end + 1
            } else {
                line_end
            };
            // For the last line, remove the preceding newline instead, if there is one
            let cut_start = if line_end >= storage_len_utf8 && line_start > 0 {
                line_start - 1
            } else {
                line_start
            };
            proof {
                crate::text::lemma_boundary_order(v.content, line_start as int, line_end as int);
            }
            self.selected_range = cut_start..cut_end;
            let text = str_slice(self.storage.content_utf8(), cut_start, cut_end).to_owned();
            self.replace_text_in_range_bytes(cut_start..cut_end, "", now);
            text
        };
        cx.emit_text_changed(TextChanged);
        cx.notify_changed();
        Some(text)
    }

    /// The selected text for the clipboard, `None` when the selection is empty.
    pub fn copy(&self) -> (r: Option<String>)
        requires
            self@.wf(),
        ensures
            self@.lo() == self@.hi() ==> r is None,
            self@.lo() != self@.hi() ==> (r matches Some(t) && t@ == byte_slice(
                self@.content,
                self@.lo(),
                self@.hi(),
            )),
    {
        if self.selected_range.start != self.selected_range.end {
            let range = self.selected_range();
            proof {
                lemma_index_of_boundary(self@.content, self@.caret);
                lemma_index_of_boundary(self@.content, self@.anchor);
            }
            Some(str_slice(self.storage.content_utf8(), range.start, range.end).to_owned())
        } else {
            None
        }
    }

    /// Inserts the clipboard's `text` in place of the marked text or the selection,
    /// recording the edit at `now` (ms); nothing happens when the element does not
    /// accept input.
    pub fn paste<N: TextStateNotifier>(&mut self, text: &str, now: u64, cx: &mut N)
        requires
            old(self)@.wf(),
            old(self)@.fits(text@),
        ensures
            final(self)@ == if old(self)@.accepts_input {
                old(self)@.inserted(text@, now as int)
            } else {
                old(self)@
            },
            final(self)@.wf(),
            final(cx).notifications() == edited_if(old(cx).notifications(), old(self)@.accepts_input),
    {
        if !self.accepts_input {
            return;
        }
        let range = self.ime_resolve_range(None);
        self.replace_text_in_range_bytes(range, text, now);
        cx.emit_text_changed(TextChanged);
        cx.notify_changed();
    }
}

// Actions bound to keys
impl EditableTextState {
    /// Collapses the selection to the start of the text.
    pub fn escape<N: TextStateNotifier>(&mut self, cx: &mut N)
        requires
            old(self)@.wf(),
        ensures
            final(self)@ == (EditableView { caret: 0, anchor: 0, ..old(self)@ }),
            final(self)@.wf(),
            final(cx).notifications() == repainted_if(old(cx).notifications(), true),
    {
        proof {
            lemma_ends_are_boundaries(self@.content);
        }
        self.set_selected_range(0..0);
        cx.notify_changed();
    }

    /// Inserts a line break, when the element takes several lines and accepts input.
    pub fn insert_enter<N: TextStateNotifier>(&mut self, now: u64, cx: &mut N)
        requires
            old(self)@.wf(),
            old(self)@.fits(seq!['\n']),
        ensures
            final(self)@ == if old(self)@.supports_multiline && old(self)@.accepts_input {
                old(self)@.inserted(seq!['\n'], now as int)
            } else {
                old(self)@
            },
            final(self)@.wf(),
            final(cx).notifications() == edited_if(old(cx).notifications(), old(self)@.supports_multiline && old(self)@.accepts_input),
    {
        if !self.supports_multiline {
            return;
        }
        if !self.accepts_input {
            return;
        }
        proof {
            reveal_strlit("\n");
            assert("\n"@ =~= seq!['\n']);
        }
        self.replace_text_in_range(None, "\n", now, cx);
    }

    /// Inserts a tab, when the element accepts input.
    pub fn insert_tab<N: TextStateNotifier>(&mut self, now: u64, cx: &mut N)
        requires
            old(self)@.wf(),
            old(self)@.fits(seq!['\t']),
        ensures
            final(self)@ == if old(self)@.accepts_input {
                old(self)@.inserted(seq!['\t'], now as int)
            } else {
                old(self)@
            },
            final(self)@.wf(),
            final(cx).notifications() == edited_if(old(cx).notifications(), old(self)@.accepts_input),
    {
        if !self.accepts_input {
            return;
        }
        proof {
            reveal_strlit("\t");
            assert("\t"@ =~= seq!['\t']);
        }
        self.replace_text_in_range(None, "\t", now, cx);
    }

    /// Deletes the selection or the grapheme cluster before the caret.
    pub fn backspace<N: TextStateNotifier>(&mut self, now: u64, cx: &mut N)
        requires
            old(self)@.wf(),
        ensures
            final(self)@ == old(self)@.deleted(
                NavigationDirection::Back,
                TextBoundary::Graphmeme,
                now as int,
            ),
            final(self)@.wf(),
            final(cx).notifications() == edited_if(old(cx).notifications(), old(self)@.accepts_input),
    {
        self.delete_linear(NavigationDirection::Back, TextBoundary::Graphmeme, now, cx);
    }

    /// Deletes the selection or the grapheme cluster after the caret.
    pub fn delete<N: TextStateNotifier>(&mut self, now: u64, cx: &mut N)
        requires
            old(self)@.wf(),
        ensures
            final(self)@ == old(self)@.deleted(
                NavigationDirection::Forward,
                TextBoundary::Graphmeme,
                now as int,
            ),
            final(self)@.wf(),
            final(cx).notifications() == edited_if(old(cx).notifications(), old(self)@.accepts_input),
    {
        self.delete_linear(NavigationDirection::Forward, TextBoundary::Graphmeme, now, cx);
    }

    /// Deletes the selection or back to the start of the previous word.
    pub fn delete_word_left<N: TextStateNotifier>(&mut self, now: u64, cx: &mut N)
        requires
            old(self)@.wf(),
        ensures
            final(self)@ == old(self)@.deleted(NavigationDirection::Back, TextBoundary::Word, now as int),
            final(self)@.wf(),
            final(cx).notifications() == edited_if(old(cx).notifications(), old(self)@.accepts_input),
    {
        self.delete_linear(NavigationDirection::Back, TextBoundary::Word, now, cx);
    }

    /// Deletes the selection or up to the end of the next word.
    pub fn delete_word_right<N: TextStateNotifier>(&mut self, now: u64, cx: &mut N)
        requires
            old(self)@.wf(),
        ensures
            final(self)@ == old(self)@.deleted(
                NavigationDirection::Forward,
                TextBoundary::Word,
                now as int,
            ),
            final(self)@.wf(),
            final(cx).notifications() == edited_if(old(cx).notifications(), old(self)@.accepts_input),
    {
        self.delete_linear(NavigationDirection::Forward, TextBoundary::Word, now, cx);
    }

    /// Deletes the selection or back to the start of the line.
    pub fn delete_to_line_start<N: TextStateNotifier>(&mut self, now: u64, cx: &mut N)
        requires
            old(self)@.wf(),
        ensures
            final(self)@ == old(self)@.deleted(NavigationDirection::Back, TextBoundary::Line, now as int),
            final(self)@.wf(),
            final(cx).notifications() == edited_if(old(cx).notifications(), old(self)@.accepts_input),
    {
        self.delete_linear(NavigationDirection::Back, TextBoundary::Line, now, cx);
    }

    /// Deletes the selection or up to the end of the line.
    pub fn delete_to_line_end<N: TextStateNotifier>(&mut self, now: u64, cx: &mut N)
        requires
            old(self)@.wf(),
        ensures
            final(self)@ == old(self)@.deleted(
                NavigationDirection::Forward,
                TextBoundary::Line,
                now as int,
            ),
            final(self)@.wf(),
            final(cx).notifications() == edited_if(old(cx).notifications(), old(self)@.accepts_input),
    {
        self.delete_linear(NavigationDirection::Forward, TextBoundary::Line, now, cx);
    }

    /// Moves one grapheme cluster left (or collapses the selection to its lower end).
    pub fn nav_left<N: TextStateNotifier>(&mut self, cx: &mut N)
        requires
            old(self)@.wf(),
        ensures
            final(self)@ == old(self)@.navigated(NavigationDirection::Back, TextBoundary::Graphmeme),
            final(self)@.wf(),
            final(cx).notifications() == repainted_if(old(cx).notifications(), true),
    {
        self.nav_linear(NavigationDirection::Back, TextBoundary::Graphmeme, cx);
    }

    /// Moves one grapheme cluster right (or collapses the selection to its upper end).
    pub fn nav_right<N: TextStateNotifier>(&mut self, cx: &mut N)
        requires
            old(self)@.wf(),
        ensures
            final(self)@ == old(self)@.navigated(
                NavigationDirection::Forward,
                TextBoundary::Graphmeme,
            ),
            final(self)@.wf(),
            final(cx).notifications() == repainted_if(old(cx).notifications(), true),
    {
        self.nav_linear(NavigationDirection::Forward, TextBoundary::Graphmeme, cx);
    }

    /// Moves up: to the start of the line in a single-line element; otherwise to
    /// `target`, the position one row up that the layout found, if any.
    pub fn nav_up<N: TextStateNotifier>(&mut self, target: Option<usize>, cx: &mut N)
        requires
            old(self)@.wf(),
            old(self)@.supports_multiline ==> (target matches Some(t) ==> is_utf8_boundary(
                old(self)@.content,
                old(self)@.clamp(t as int),
            )),
        ensures
            final(self)@ == if !old(self)@.supports_multiline {
                old(self)@.navigated(NavigationDirection::Back, TextBoundary::Line)
            } else {
                match target {
                    Some(t) => old(self)@.moved_to(t as int),
                    None => old(self)@,
                }
            },
            final(self)@.wf(),
            final(cx).notifications() == repainted_if(old(cx).notifications(), !old(self)@.supports_multiline || target is Some),
    {
        if !self.supports_multiline {
            // semantically equivalent to line
            self.nav_linear(NavigationDirection::Back, TextBoundary::Line, cx);
            return;
        }
        if let Some(caret_pos) = target {
            self.move_to(caret_pos, cx);
        }
    }

    /// Moves down: to the end of the line in a single-line element; otherwise to
    /// `target`, the position one row down that the layout found, if any.
    pub fn nav_down<N: TextStateNotifier>(&mut self, target: Option<usize>, cx: &mut N)
        requires
            old(self)@.wf(),
            old(self)@.supports_multiline ==> (target matches Some(t) ==> is_utf8_boundary(
                old(self)@.content,
                old(self)@.clamp(t as int),
            )),
        ensures
            final(self)@ == if !old(self)@.supports_multiline {
                old(self)@.navigated(NavigationDirection::Forward, TextBoundary::Line)
            } else {
                match target {
                    Some(t) => old(self)@.moved_to(t as int),
                    None => old(self)@,
                }
            },
            final(self)@.wf(),
            final(cx).notifications() == repainted_if(old(cx).notifications(), !old(self)@.supports_multiline || target is Some),
    {
        if !self.supports_multiline {
            // semantically equivalent to line
            self.nav_linear(NavigationDirection::Forward, TextBoundary::Line, cx);
            return;
        }
        if let Some(caret_pos) = target {
            self.move_to(caret_pos, cx);
        }
    }

    /// Moves to the start of the line.
    pub fn nav_line_start<N: TextStateNotifier>(&mut self, cx: &mut N)
        requires
            old(self)@.wf(),
        ensures
            final(self)@ == old(self)@.navigated(NavigationDirection::Back, TextBoundary::Line),
            final(self)@.wf(),
            final(cx).notifications() == repainted_if(old(cx).notifications(), true),
    {
        self.nav_linear(NavigationDirection::Back, TextBoundary::Line, cx);
    }

    /// Moves to the end of the line.
    pub fn nav_line_end<N: TextStateNotifier>(&mut self, cx: &mut N)
        requires
            old(self)@.wf(),
        ensures
            final(self)@ == old(self)@.navigated(NavigationDirection::Forward, TextBoundary::Line),
            final(self)@.wf(),
            final(cx).notifications() == repainted_if(old(cx).notifications(), true),
    {
        self.nav_linear(NavigationDirection::Forward, TextBoundary::Line, cx);
    }

    /// Moves to the start of the text.
    pub fn nav_start<N: TextStateNotifier>(&mut self, cx: &mut N)
        requires
            old(self)@.wf(),
        ensures
            final(self)@ == old(self)@.navigated(NavigationDirection::Back, TextBoundary::Document),
            final(self)@.wf(),
            final(cx).notifications() == repainted_if(old(cx).notifications(), true),
    {
        self.nav_linear(NavigationDirection::Back, TextBoundary::Document, cx);
    }

    /// Moves to the end of the text.
    pub fn nav_end<N: TextStateNotifier>(&mut self, cx: &mut N)
        requires
            old(self)@.wf(),
        ensures
            final(self)@ == old(self)@.navigated(
                NavigationDirection::Forward,
                TextBoundary::Document,
            ),
            final(self)@.wf(),
            final(cx).notifications() == repainted_if(old(cx).notifications(), true),
    {
        self.nav_linear(NavigationDirection::Forward, TextBoundary::Document, cx);
    }

    /// Moves one word left.
    pub fn nav_left_word<N: TextStateNotifier>(&mut self, cx: &mut N)
        requires
            old(self)@.wf(),
        ensures
            final(self)@ == old(self)@.navigated(NavigationDirection::Back, TextBoundary::Word),
            final(self)@.wf(),
            final(cx).notifications() == repainted_if(old(cx).notifications(), true),
    {
        self.nav_linear(NavigationDirection::Back, TextBoundary::Word, cx);
    }

    /// Moves one word right.
    pub fn nav_right_word<N: TextStateNotifier>(&mut self, cx: &mut N)
        requires
            old(self)@.wf(),
        ensures
            final(self)@ == old(self)@.navigated(NavigationDirection::Forward, TextBoundary::Word),
            final(self)@.wf(),
            final(cx).notifications() == repainted_if(old(cx).notifications(), true),
    {
        self.nav_linear(NavigationDirection::Forward, TextBoundary::Word, cx);
    }

    /// Selects the whole text.
    pub fn select_all<N: TextStateNotifier>(&mut self, cx: &mut N)
        requires
            old(self)@.wf(),
        ensures
            final(self)@ == old(self)@.document_selected(),
            final(self)@.wf(),
            final(cx).notifications() == repainted_if(old(cx).notifications(), true),
    {
        self.select_document(cx);
    }

    /// Extends the selection one grapheme cluster left.
    pub fn select_left<N: TextStateNotifier>(&mut self, cx: &mut N)
        requires
            old(self)@.wf(),
        ensures
            final(self)@ == old(self)@.extended(NavigationDirection::Back, TextBoundary::Graphmeme),
            final(self)@.wf(),
            final(cx).notifications() == repainted_if(old(cx).notifications(), true),
    {
        self.select_linear(NavigationDirection::Back, TextBoundary::Graphmeme, cx);
    }

    /// Extends the selection one grapheme cluster right.
    pub fn select_right<N: TextStateNotifier>(&mut self, cx: &mut N)
        requires
            old(self)@.wf(),
        ensures
            final(self)@ == old(self)@.extended(
                NavigationDirection::Forward,
                TextBoundary::Graphmeme,
            ),
            final(self)@.wf(),
            final(cx).notifications() == repainted_if(old(cx).notifications(), true),
    {
        self.select_linear(NavigationDirection::Forward, TextBoundary::Graphmeme, cx);
    }

    /// Extends the selection up: to the start of the text in a single-line element;
    /// otherwise to `target`, the position one row up that the layout found, if any.
    pub fn select_up<N: TextStateNotifier>(&mut self, target: Option<usize>, cx: &mut N)
        requires
            old(self)@.wf(),
            old(self)@.supports_multiline ==> (target matches Some(t) ==> is_utf8_boundary(
                old(self)@.content,
                old(self)@.clamp(t as int),
            )),
        ensures
            final(self)@ == if !old(self)@.supports_multiline {
                old(self)@.extended(NavigationDirection::Back, TextBoundary::Document)
            } else {
                match target {
                    Some(t) => old(self)@.selected_to(t as int),
                    None => old(self)@,
                }
            },
            final(self)@.wf(),
            final(cx).notifications() == repainted_if(old(cx).notifications(), !old(self)@.supports_multiline || target is Some),
    {
        if !self.supports_multiline {
            // semantically equivalent to select document
            self.select_linear(NavigationDirection::Back, TextBoundary::Document, cx);
            return;
        }
        if let Some(caret_pos) = target {
            self.select_to(caret_pos, cx);
        }
    }

    /// Extends the selection down: to the end of the text in a single-line element;
    /// otherwise to `target`, the position one row down that the layout found, if any.
    pub fn select_down<N: TextStateNotifier>(&mut self, target: Option<usize>, cx: &mut N)
        requires
            old(self)@.wf(),
            old(self)@.supports_multiline ==> (target matches Some(t) ==> is_utf8_boundary(
                old(self)@.content,
                old(self)@.clamp(t as int),
            )),
        ensures
            final(self)@ == if !old(self)@.supports_multiline {
                old(self)@.extended(NavigationDirection::Forward, TextBoundary::Document)
            } else {
                match target {
                    Some(t) => old(self)@.selected_to(t as int),
                    None => old(self)@,
                }
            },
            final(self)@.wf(),
            final(cx).notifications() == repainted_if(old(cx).notifications(), !old(self)@.supports_multiline || target is Some),
    {
        if !self.supports_multiline {
            // semantically equivalent to select document
            self.select_linear(NavigationDirection::Forward, TextBoundary::Document, cx);
            return;
        }
        if let Some(caret_pos) = target {
            self.select_to(caret_pos, cx);
        }
    }

    /// Extends the selection to the start of the text.
    pub fn select_start<N: TextStateNotifier>(&mut self, cx: &mut N)
        requires
            old(self)@.wf(),
        ensures
            final(self)@ == old(self)@.extended(NavigationDirection::Back, TextBoundary::Document),
            final(self)@.wf(),
            final(cx).notifications() == repainted_if(old(cx).notifications(), true),
    {
        self.select_linear(NavigationDirection::Back, TextBoundary::Document, cx);
    }

    /// Extends the selection to the end of the text.
    pub fn select_end<N: TextStateNotifier>(&mut self, cx: &mut N)
        requires
            old(self)@.wf(),
        ensures
            final(self)@ == old(self)@.extended(
                NavigationDirection::Forward,
                TextBoundary::Document,
            ),
            final(self)@.wf(),
            final(cx).notifications() == repainted_if(old(cx).notifications(), true),
    {
        self.select_linear(NavigationDirection::Forward, TextBoundary::Document, cx);
    }

    /// Extends the selection one word left.
    pub fn select_left_word<N: TextStateNotifier>(&mut self, cx: &mut N)
        requires
            old(self)@.wf(),
        ensures
            final(self)@ == old(self)@.extended(NavigationDirection::Back, TextBoundary::Word),
            final(self)@.wf(),
            final(cx).notifications() == repainted_if(old(cx).notifications(), true),
    {
        self.select_linear(NavigationDirection::Back, TextBoundary::Word, cx);
    }

    /// Extends the selection one word right.
    pub fn select_right_word<N: TextStateNotifier>(&mut self, cx: &mut N)
        requires
            old(self)@.wf(),
        ensures
            final(self)@ == old(self)@.extended(NavigationDirection::Forward, TextBoundary::Word),
            final(self)@.wf(),
            final(cx).notifications() == repainted_if(old(cx).notifications(), true),
    {
        self.select_linear(NavigationDirection::Forward, TextBoundary::Word, cx);
    }
}

// Mouse interaction
impl EditableTextState {
    /// A press of the mouse at the character position `character_pos` (found by the
    /// layout). `click_count` is the platform's count of rapid presses, `is_same_position`
    /// tells whether the press landed close to the previous one. A double press selects
    /// the word, a triple press the line with its newline; otherwise the caret moves
    /// there, or, with shift, the selection extends there.
    pub fn on_mouse_down<N: TextStateNotifier>(
        &mut self,
        character_pos: usize,
        click_count: usize,
        is_same_position: bool,
        shift: bool,
        cx: &mut N,
    )
        requires
            old(self)@.wf(),
            is_utf8_boundary(old(self)@.content, old(self)@.clamp(character_pos as int)),
        ensures
            final(self)@ == old(self)@.mouse_down(
                character_pos as int,
                click_count as int,
                is_same_position,
                shift,
            ),
            final(self)@.wf(),
            final(cx).notifications() == repainted_if(old(cx).notifications(), true),
    {
        self.is_selecting = true;
        if is_same_position && click_count > 1 {
            self.click_count = click_count;
        } else {
            self.click_count = 1;
        }
        if self.click_count == 2 {
            let (word_start, word_end) = word_range_at(self.storage.content_utf8(), character_pos);
            self.selected_range = word_start..word_end;
            cx.notify_changed();
        } else if self.click_count == 3 {
            let ghost v = self@;
            proof {
                crate::boundaries::lemma_line_start_after_newline(v.content, character_pos as int);
                crate::boundaries::lemma_line_end_before_newline(v.content, character_pos as int);
            }
            let line_start = find_line_start(self.storage.content_utf8(), character_pos);
            let line_end = find_line_end(self.storage.content_utf8(), character_pos);
            let line_end_with_newline = if line_end < self.storage.len() {
                line_end + 1
            } else {
                line_end
            };
            self.selected_range = line_start..line_end_with_newline;
            cx.notify_changed();
        } else {
            if shift {
                self.select_to(character_pos, cx);
            } else {
                self.move_to(character_pos, cx);
            }
        }
    }

    /// The mouse button is released: the drag selection ends.
    pub fn on_mouse_up(&mut self)
        requires
            old(self)@.wf(),
        ensures
            final(self)@ == (EditableView { is_selecting: false, ..old(self)@ }),
            final(self)@.wf(),
    {
        self.is_selecting = false;
    }

    /// The mouse moves over the character position `character_pos`: during a
    /// single-press drag the caret follows it, the anchor staying.
    pub fn on_mouse_move<N: TextStateNotifier>(&mut self, character_pos: usize, cx: &mut N)
        requires
            old(self)@.wf(),
            is_utf8_boundary(old(self)@.content, old(self)@.clamp(character_pos as int)),
        ensures
            final(self)@ == if old(self)@.is_selecting && old(self)@.click_count == 1 {
                old(self)@.selected_to(character_pos as int)
            } else {
                old(self)@
            },
            final(self)@.wf(),
            final(cx).notifications() == repainted_if(old(cx).notifications(), old(self)@.is_selecting && old(self)@.click_count == 1),
    {
        if self.is_selecting && self.click_count == 1 {
            self.select_to(character_pos, cx);
        }
    }
}

/// An edit that the history records as a new entry leaves nothing to redo; undoing it
/// gives back the content and the selection (caret and anchor) from before the edit,
/// and leaves the edit to redo.
pub proof fn lemma_edit_then_undo(v: EditableView, a: int, b: int, text: Seq<char>, now: int)
    requires
        v.wf(),
        valid_range(v.content, a, b),
        v.fits(text),
        v.marked is None,
        v.history matches Some(h) && !h.joins_entry(v.content, now),
    ensures
        v.replaced(a, b, text, now).history matches Some(h1) && h1.redo.len() == 0,
        v.replaced(a, b, text, now).history_ready(HistoryKind::Undo),
        v.replaced(a, b, text, now).history_applied(HistoryKind::Undo, HistoryKind::Redo).content
            == v.content,
        v.replaced(a, b, text, now).history_applied(HistoryKind::Undo, HistoryKind::Redo).caret
            == v.caret,
        v.replaced(a, b, text, now).history_applied(HistoryKind::Undo, HistoryKind::Redo).anchor
            == v.anchor,
        v.replaced(a, b, text, now).history_applied(
            HistoryKind::Undo,
            HistoryKind::Redo,
        ).history matches Some(h2) && h2.redo.len() == 1,
{
    let c = v.content;
    let n = utf8_len(text) as int;
    lemma_slice(c, a, b);
    lemma_splice(c, a, b, text);
    lemma_index_of_boundary(c, b);
    let w = v.replaced(a, b, text, now);
    let c1 = w.content;
    let h1 = w.history.unwrap();
    let p = h1.undo.last();
    assert(p.start == a && p.new_text_len == n && p.old_text == byte_slice(c, a, b));
    assert(p.selected_start == v.caret && p.selected_end == v.anchor);
    assert(crate::history::undo_end(p, c1) == a + n);
    lemma_slice(c1, a, a + n);
    lemma_splice(c1, a, a + n, p.old_text);
    assert(apply_patch(p, c1).0 =~= c);
}

/// Edits made within the grouping interval of each other form one history entry: after
/// an edit that starts an entry and a second edit soon after it, a single undo gives
/// back the content and the selection from before both.
#[verifier::spinoff_prover]
pub proof fn lemma_grouped_edits_undo_together(
    v: EditableView,
    a: int,
    b: int,
    first: Seq<char>,
    t1: int,
    a2: int,
    b2: int,
    second: Seq<char>,
    t2: int,
)
    requires
        v.wf(),
        valid_range(v.content, a, b),
        v.marked is None,
        v.history matches Some(h) && !h.joins_entry(v.content, t1) && elapsed_ms(t2, t1)
            < h.grouping_interval,
        v.len() + utf8_len(first) + utf8_len(second) <= usize::MAX,
        valid_range(v.replaced(a, b, first, t1).content, a2, b2),
    ensures
        ({
            let w1 = v.replaced(a, b, first, t1);
            let w2 = w1.replaced(a2, b2, second, t2);
            &&& w1.history matches Some(h1) && h1.joins_entry(w1.content, t2)
            &&& w2.history.unwrap().undo.len() == w1.history.unwrap().undo.len()
            &&& w2.history_ready(HistoryKind::Undo)
            &&& w2.history_applied(HistoryKind::Undo, HistoryKind::Redo).content == v.content
            &&& w2.history_applied(HistoryKind::Undo, HistoryKind::Redo).caret == v.caret
            &&& w2.history_applied(HistoryKind::Undo, HistoryKind::Redo).anchor == v.anchor
        }),
{
    lemma_edit_then_undo(v, a, b, first, t1);
    let c = v.content;
    let n = utf8_len(first) as int;
    lemma_slice(c, a, b);
    lemma_splice(c, a, b, first);
    let w1 = v.replaced(a, b, first, t1);
    let c1 = w1.content;
    let h1 = w1.history.unwrap();
    let p = h1.undo.last();
    assert(p.start == a && p.new_text_len == n && p.timestamp == t1);
    assert(can_merge(p, c1));
    assert(h1.joins_entry(c1, t2));
    assert(apply_patch(p, c1).0 == c);
    lemma_splice(c1, a2, b2, second);
    crate::history::lemma_merged_undo(p, c1, a2, b2, second, t2);
    let w2 = w1.replaced(a2, b2, second, t2);
    let h2 = w2.history.unwrap();
    assert(h2.undo.last() == merged(p, c1, a2, b2, utf8_len(second) as int, t2));
    assert(h2.undo.len() == h1.undo.len());
    lemma_ends_are_boundaries(c);
    assert(is_utf8_boundary(c, v.caret));
}

/// Undoing the last edit and redoing it gives back the content and the history, when
/// the selection the edit was made with still lies on character boundaries.
#[verifier::spinoff_prover]
pub proof fn lemma_undo_then_redo(v: EditableView)
    requires
        v.wf(),
        v.history matches Some(h) && h.undo.len() > 0 && {
            let p = h.undo.last();
            &&& crate::history::patch_covers_insertion(p, v.content)
            &&& is_utf8_boundary(v.content, p.selected_start)
            &&& is_utf8_boundary(v.content, p.selected_end)
        },
        v.history_ready(HistoryKind::Undo),
    ensures
        v.history_applied(HistoryKind::Undo, HistoryKind::Redo).history_ready(HistoryKind::Redo),
        v.history_applied(HistoryKind::Undo, HistoryKind::Redo).history_applied(
            HistoryKind::Redo,
            HistoryKind::Undo,
        ).content == v.content,
        v.history_applied(HistoryKind::Undo, HistoryKind::Redo).history_applied(
            HistoryKind::Redo,
            HistoryKind::Undo,
        ).history == v.history,
{
    let h = v.history.unwrap();
    let p = h.undo.last();
    crate::history::lemma_undo_redo_roundtrip(p, v.content);
    let u = v.history_applied(HistoryKind::Undo, HistoryKind::Redo);
    let hu = u.history.unwrap();
    assert(hu.redo.last() == apply_patch(p, v.content).1);
    assert(u.marked == v.marked);
    let r = u.history_applied(HistoryKind::Redo, HistoryKind::Undo);
    assert(r.content == apply_patch(apply_patch(p, v.content).1, u.content).0);
    let hr = r.history.unwrap();
    assert(hr.undo =~= h.undo);
    assert(hr.redo =~= h.redo);
}

/// Cutting the selection and pasting what was cut gives back the text.
pub proof fn lemma_cut_then_paste(v: EditableView, now: int, later: int)
    requires
        v.wf(),
        v.accepts_input,
        v.marked is None,
        v.lo() != v.hi(),
        v.len() <= usize::MAX,
    ensures
        ({
            let (w, t) = v.cut_result(now);
            &&& t is Some
            &&& w.fits(t->0)
            &&& w.inserted(t->0, later).content == v.content
        }),
{
    let c = v.content;
    let a = v.lo();
    let b = v.hi();
    let e = Seq::<char>::empty();
    lemma_slice(c, a, b);
    lemma_splice(c, a, b, e);
    let (w, t) = v.cut_result(now);
    let s = byte_slice(c, a, b);
    let c1 = w.content;
    assert(c1 == splice(c, a, b, e));
    lemma_index_of_boundary(c1, a);
    assert(w.resolved(None) == (a, a));
    lemma_splice(c1, a, a, s);
    assert(w.inserted(s, later).content =~= c);
}

/// Committing a composition replaces exactly the composed text: after an input method
/// marks `text` in place of a range, inserting `commit` gives the content with `commit`
/// in place of that range.
#[verifier::spinoff_prover]
pub proof fn lemma_commit_replaces_composition(
    v: EditableView,
    range_utf16: Option<(int, int)>,
    text: Seq<char>,
    new_selected_utf16: Option<(int, int)>,
    commit: Seq<char>,
    now: int,
    later: int,
)
    requires
        v.wf(),
        range_utf16 matches Some(r) ==> r.0 <= r.1,
        utf8_len(text) > 0,
    ensures
        ({
            let (a, b) = v.resolved(range_utf16);
            let w = v.marked_replaced(range_utf16, text, new_selected_utf16, now);
            w.inserted(commit, later).content == splice(v.content, a, b, commit)
        }),
{
    let c = v.content;
    let (a, b) = v.resolved(range_utf16);
    match range_utf16 {
        Some(r) => {
            crate::unicode::lemma_utf16_to_utf8_boundary(c, r.0, r.1);
        },
        None => match v.marked {
            Some(m) => {
                lemma_index_of_boundary(c, m.0);
                lemma_index_of_boundary(c, m.1);
            },
            None => {
                lemma_index_of_boundary(c, v.caret);
                lemma_index_of_boundary(c, v.anchor);
            },
        },
    }
    assert(valid_range(c, a, b));
    let n = utf8_len(text) as int;
    lemma_slice(c, a, b);
    lemma_splice(c, a, b, text);
    let w = v.marked_replaced(range_utf16, text, new_selected_utf16, now);
    let c1 = w.content;
    assert(c1 == splice(c, a, b, text));
    assert(w.marked == Some((a, a + n)));
    crate::text::lemma_utf8_len_ge(c1);
    lemma_index_of_boundary(c1, a + n);
    assert(w.resolved(None) == (a, a + n));
    lemma_splice(c1, a, a + n, commit);
    lemma_splice(c, a, b, commit);
    assert(w.inserted(commit, later).content =~= splice(c, a, b, commit));
}

/// Selecting the whole text and deleting it leaves the text empty (when the element
/// accepts input).
pub proof fn lemma_select_all_then_delete(
    v: EditableView,
    direction: NavigationDirection,
    boundary: TextBoundary,
    now: int,
)
    requires
        v.wf(),
        v.accepts_input,
        v.len() > 0,
    ensures
        v.document_selected().deleted(direction, boundary, now).content.len() == 0,
{
    let c = v.content;
    crate::text::lemma_ends_are_boundaries(c);
    let d = v.document_selected();
    assert(d.deletion_range(direction, boundary) == (0int, v.len()));
    lemma_splice(c, 0, v.len(), Seq::<char>::empty());
    assert(d.deleted(direction, boundary, now).content =~= Seq::<char>::empty());
}

/// Nothing is recorded while IME text is marked: an edit then leaves the history as
/// it was, whichever range it replaces and whenever it is made.
pub proof fn lemma_marked_edit_not_recorded(v: EditableView, a: int, b: int, text: Seq<char>, now: int)
    requires
        v.marked is Some,
    ensures
        v.replaced(a, b, text, now).history == v.history,
        v.inserted(text, now).history == v.history,
{
}

/// When an input method marks new text without asking for a selection, the text stands
/// where the range it edits stood, it is what is marked, and the caret and the anchor
/// both sit right after it.
pub proof fn lemma_mark_without_selection_puts_caret_after_text(
    v: EditableView,
    range_utf16: Option<(int, int)>,
    text: Seq<char>,
    now: int,
)
    requires
        v.wf(),
        range_utf16 matches Some(r) ==> 0 <= r.0 <= r.1,
    ensures
        ({
            let (a, b) = v.resolved(range_utf16);
            let w = v.marked_replaced(range_utf16, text, None, now);
            &&& w.content == splice(v.content, a, b, text)
            &&& w.caret == w.anchor
            &&& a <= w.caret
            &&& byte_slice(w.content, a, w.caret) == text
            &&& (text.len() > 0 ==> w.marked == Some((a, w.caret)))
            &&& (text.len() == 0 ==> w.marked is None)
        }),
{
    let (a, b) = v.resolved(range_utf16);
    if let Some(r) = range_utf16 {
        crate::unicode::lemma_utf16_to_utf8_boundary(v.content, r.0, r.1);
    }
    lemma_ends_are_boundaries(v.content);
    lemma_index_of_boundary(v.content, v.caret);
    lemma_index_of_boundary(v.content, v.anchor);
    if let Some(m) = v.marked {
        lemma_index_of_boundary(v.content, m.1);
    }
    assert(valid_range(v.content, a, b));
    lemma_splice(v.content, a, b, text);
    crate::text::lemma_utf8_len_ge(text);
    if text.len() == 0 {
        assert(text =~= Seq::<char>::empty());
    }
}

/// A double press at `p` selects the whole word holding `p` (one of the words the
/// segmentation finds, caret at its start, anchor at its end), or the empty range at
/// `p` when no word holds it; either way the press position lies within the selection.
pub proof fn lemma_double_click_selects_word(v: EditableView, p: int, shift: bool)
    ensures
        ({
            let w = v.mouse_down(p, 2, true, shift);
            let c = v.clamp(p);
            &&& w.caret <= c <= w.anchor
            &&& w.content == v.content
            &&& (w.caret == w.anchor ==> w.caret == c)
            &&& (w.caret < w.anchor ==> exists|i: int|
                0 <= i < word_spans(v.content).len() && #[trigger] word_spans(v.content)[i].0
                    == w.caret && w.caret + word_spans(v.content)[i].1 == w.anchor)
            &&& (span_containing(word_spans(v.content), c) is None ==> w.caret == c && w.anchor
                == c)
        }),
{
    let c = v.clamp(p);
    lemma_span_containing(word_spans(v.content), c);
    if let Some(sp) = span_containing(word_spans(v.content), c) {
        let i = choose|i: int| 0 <= i < word_spans(v.content).len() && #[trigger] word_spans(v.content)[i] == sp;
        assert(word_spans(v.content)[i].0 == v.mouse_down(p, 2, true, shift).caret);
    }
}

/// Extending the selection moves only the caret: the anchor stays, and the caret goes
/// to `o` clamped to the content.
pub proof fn lemma_extend_keeps_anchor(v: EditableView, o: int)
    ensures
        v.selected_to(o).anchor == v.anchor,
        v.selected_to(o).caret == clamp_to_len(v.content, o),
        v.selected_to(o).content == v.content,
{
}

} // verus!
