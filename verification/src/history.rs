//! Patch-based undo/redo history entries.
use vstd::prelude::*;
use std::ops::Range;
use crate::text::{
    byte_len, byte_slice, char_index, is_utf8_boundary, lemma_utf8_len_concat, lemma_ends_are_boundaries, lemma_index_of_boundary,
    lemma_slice, lemma_splice, splice, str_slice, string_replace_range, utf8_len,
};

verus! {

/// Maximum number of history entries to keep.
pub const MAX_HISTORY_LEN: usize = 1000;

/// Default interval, in milliseconds, for grouping consecutive edits into a single undo entry.
pub const DEFAULT_GROUP_INTERVAL_MS: u64 = 300;

/// A patch-based history entry for memory-efficient undo/redo operations.
/// Instead of storing the full content, we store only the change needed to reverse the edit.
pub struct HistoryEntry {
    /// The byte range that was modified (after the edit, for undo; before the edit, for redo).
    pub range: Range<usize>,
    /// The text that was replaced (to restore on undo).
    pub old_text: String,
    /// The length of the new text that replaced old_text (to know how much to remove on undo).
    pub new_text_len: usize,
    /// The selection range before the edit.
    pub selected_range: Range<usize>,
    /// Whether the selection was reversed before the edit.
    pub selection_reversed: bool,
    /// Timestamp of the edit, in milliseconds, for grouping consecutive edits.
    pub timestamp: u64,
}

/// The mathematical content of a `HistoryEntry`.
pub ghost struct Patch {
    pub start: int,
    pub end: int,
    pub old_text: Seq<char>,
    pub new_text_len: int,
    pub selected_start: int,
    pub selected_end: int,
    pub selection_reversed: bool,
    pub timestamp: int,
}

impl View for HistoryEntry {
    type V = Patch;

    open spec fn view(&self) -> Patch {
        Patch {
            start: self.range.start as int,
            end: self.range.end as int,
            old_text: self.old_text@,
            new_text_len: self.new_text_len as int,
            selected_start: self.selected_range.start as int,
            selected_end: self.selected_range.end as int,
            selection_reversed: self.selection_reversed,
            timestamp: self.timestamp as int,
        }
    }
}

/// End of the bytes that undoing `p` removes from `content`: the inserted text, cut
/// at the end of the content.
pub open spec fn undo_end(p: Patch, content: Seq<char>) -> int {
    if p.start + p.new_text_len <= utf8_len(content) {
        p.start + p.new_text_len
    } else {
        utf8_len(content) as int
    }
}

/// `p` can be applied to `content` without a panic or an overflow.
pub open spec fn patch_applicable(p: Patch, content: Seq<char>) -> bool {
    &&& 0 <= p.start
    &&& 0 <= p.new_text_len
    &&& p.start + p.new_text_len <= usize::MAX
    &&& p.start + utf8_len(p.old_text) <= usize::MAX
    &&& is_utf8_boundary(content, p.start)
    &&& is_utf8_boundary(content, undo_end(p, content))
}

/// The content and the reverse patch that applying `p` to `content` produces.
pub open spec fn apply_patch(p: Patch, content: Seq<char>) -> (Seq<char>, Patch) {
    let end = undo_end(p, content);
    (
        splice(content, p.start, end, p.old_text),
        Patch {
            start: p.start,
            end: p.start + utf8_len(p.old_text),
            old_text: byte_slice(content, p.start, end),
            new_text_len: utf8_len(p.old_text) as int,
            selected_start: p.selected_start,
            selected_end: p.selected_end,
            selection_reversed: p.selection_reversed,
            timestamp: p.timestamp,
        },
    )
}

impl HistoryEntry {
    /// Apply this patch to undo an edit, returning the reverse patch for redo.
    pub fn apply_undo(&self, content: &mut String) -> (r: HistoryEntry)
        requires
            patch_applicable(self@, old(content)@),
        ensures
            final(content)@ == apply_patch(self@, old(content)@).0,
            r@ == apply_patch(self@, old(content)@).1,
    {
        let ghost c = content@;
        let undo_start = self.range.start;
        let len = byte_len(content.as_str());
        let undo_end = if self.range.start + self.new_text_len < len {
            self.range.start + self.new_text_len
        } else {
            len
        };
        proof {
            lemma_index_of_boundary(c, undo_start as int);
        }
        // Capture what we're about to remove (the "new" text that was inserted)
        let removed_text = str_slice(content.as_str(), undo_start, undo_end).to_owned();
        let old_len = byte_len(self.old_text.as_str());
        // Replace with the old text
        string_replace_range(content, undo_start, undo_end, self.old_text.as_str());
        // Return reverse patch for redo
        HistoryEntry {
            range: undo_start..undo_start + old_len,
            old_text: removed_text,
            new_text_len: old_len,
            selected_range: self.selected_range.start..self.selected_range.end,
            selection_reversed: self.selection_reversed,
            timestamp: self.timestamp,
        }
    }

    /// Apply this patch to redo an edit, returning the reverse patch for undo.
    pub fn apply_redo(&self, content: &mut String) -> (r: HistoryEntry)
        requires
            patch_applicable(self@, old(content)@),
        ensures
            final(content)@ == apply_patch(self@, old(content)@).0,
            r@ == apply_patch(self@, old(content)@).1,
    {
        // Redo is the same operation as undo - we're reversing the undo
        self.apply_undo(content)
    }
}

/// The last entry `last` still describes `content`: the text it inserted lies within
/// it, between character boundaries.
pub open spec fn can_merge(last: Patch, content: Seq<char>) -> bool {
    &&& 0 <= last.start
    &&& 0 <= last.new_text_len
    &&& last.start + last.new_text_len <= utf8_len(content)
    &&& is_utf8_boundary(content, last.start)
    &&& is_utf8_boundary(content, last.start + last.new_text_len)
}

/// The entry `last` extended by a further edit of `content` that replaces the bytes
/// `[a, b)` by `n` bytes at `now`: it spans both edits, holds the text both replaced,
/// and keeps the selection from before the first.
pub open spec fn merged(last: Patch, content: Seq<char>, a: int, b: int, n: int, now: int) -> Patch {
    let s = last.start;
    let e = last.start + last.new_text_len;
    let u0 = if a < s {
        a
    } else {
        s
    };
    let u1 = if b > e {
        b
    } else {
        e
    };
    let len = u1 - u0 - (b - a) + n;
    Patch {
        start: u0,
        end: u0 + len,
        old_text: byte_slice(content, u0, s) + last.old_text + byte_slice(content, e, u1),
        new_text_len: len,
        timestamp: now,
        ..last
    }
}

/// Where the span of an extended entry lies in the text after the further edit.
proof fn lemma_merged_span(c: Seq<char>, a: int, b: int, t: Seq<char>, u0: int, u1: int)
    requires
        a <= b,
        u0 <= a,
        b <= u1,
        is_utf8_boundary(c, a),
        is_utf8_boundary(c, b),
        is_utf8_boundary(c, u0),
        is_utf8_boundary(c, u1),
    ensures
        ({
            let c2 = splice(c, a, b, t);
            let x = u1 - b + a + utf8_len(t);
            &&& is_utf8_boundary(c2, u0)
            &&& is_utf8_boundary(c2, x)
            &&& u0 <= x <= utf8_len(c2)
            &&& c2.take(char_index(c2, u0)) == c.take(char_index(c, u0))
            &&& c2.skip(char_index(c2, x)) == c.skip(char_index(c, u1))
            &&& char_index(c, u0) <= char_index(c, u1) <= c.len()
        }),
{
    let c2 = splice(c, a, b, t);
    let x = u1 - b + a + utf8_len(t);
    lemma_splice(c, a, b, t);
    crate::text::lemma_splice_prefix_boundary(c, a, b, t, u0);
    crate::text::lemma_splice_suffix_boundary(c, a, b, t, u1);
    lemma_index_of_boundary(c, u0);
    lemma_index_of_boundary(c, u1);
    lemma_index_of_boundary(c2, x);
    crate::text::lemma_boundary_order(c, u0, a);
    crate::text::lemma_boundary_order(c, b, u1);
    crate::text::lemma_boundary_order(c, a, b);
    let iu0 = char_index(c, u0);
    let iu1 = char_index(c, u1);
    let ia = char_index(c, a);
    let ib = char_index(c, b);
    assert(c2 =~= c.take(ia) + t + c.skip(ib));
    assert(c2.take(iu0) =~= c.take(iu0));
    assert(c2.skip(char_index(c2, x)) =~= c.skip(iu1));
}

/// The text before an entry's span, the entry's old text and the text after it make up
/// the text the entry restores.
#[verifier::spinoff_prover]
#[verifier::rlimit(30)]
proof fn lemma_merged_text(c: Seq<char>, last: Patch, u0: int, u1: int)
    requires
        can_merge(last, c),
        u0 <= last.start,
        last.start + last.new_text_len <= u1,
        is_utf8_boundary(c, u0),
        is_utf8_boundary(c, u1),
    ensures
        ({
            let s = last.start;
            let e = last.start + last.new_text_len;
            let old = byte_slice(c, u0, s) + last.old_text + byte_slice(c, e, u1);
            &&& apply_patch(last, c).0 == c.take(char_index(c, u0)) + old + c.skip(char_index(c, u1))
            &&& utf8_len(old) == (s - u0) + utf8_len(last.old_text) + (u1 - e)
            &&& utf8_len(c.take(char_index(c, u0))) == u0
        }),
{
    let s = last.start;
    let e = last.start + last.new_text_len;
    lemma_slice(c, u0, s);
    lemma_slice(c, e, u1);
    lemma_slice(c, s, e);
    lemma_slice(c, u0, u1);
    crate::text::lemma_boundary_order(c, u0, s);
    crate::text::lemma_boundary_order(c, e, u1);
    assert(undo_end(last, c) == e);
    let iu0 = char_index(c, u0);
    let is = char_index(c, s);
    let ie = char_index(c, e);
    let iu1 = char_index(c, u1);
    let old = byte_slice(c, u0, s) + last.old_text + byte_slice(c, e, u1);
    assert(apply_patch(last, c).0 =~= c.take(iu0) + old + c.skip(iu1));
    lemma_utf8_len_concat(byte_slice(c, u0, s), last.old_text);
    lemma_utf8_len_concat(byte_slice(c, u0, s) + last.old_text, byte_slice(c, e, u1));
}

/// Undoing an extended entry after the further edit gives the text that undoing the
/// entry gave before it, and the extended entry still describes the edited text.
#[verifier::spinoff_prover]
pub proof fn lemma_merged_undo(
    last: Patch,
    content: Seq<char>,
    a: int,
    b: int,
    t: Seq<char>,
    now: int,
)
    requires
        can_merge(last, content),
        a <= b,
        is_utf8_boundary(content, a),
        is_utf8_boundary(content, b),
        utf8_len(splice(content, a, b, t)) <= usize::MAX,
        utf8_len(apply_patch(last, content).0) <= usize::MAX,
    ensures
        ({
            let c2 = splice(content, a, b, t);
            let m = merged(last, content, a, b, utf8_len(t) as int, now);
            &&& patch_applicable(m, c2)
            &&& can_merge(m, c2)
            &&& m == normalized(m)
            &&& apply_patch(m, c2).0 == apply_patch(last, content).0
        }),
{
    let c = content;
    let s = last.start;
    let e = last.start + last.new_text_len;
    let n = utf8_len(t) as int;
    let u0 = if a < s {
        a
    } else {
        s
    };
    let u1 = if b > e {
        b
    } else {
        e
    };
    let c2 = splice(c, a, b, t);
    let m = merged(last, c, a, b, n, now);
    let x = u1 - b + a + n;
    lemma_merged_span(c, a, b, t, u0, u1);
    lemma_merged_text(c, last, u0, u1);
    lemma_index_of_boundary(c, u1);
    assert(x == u0 + m.new_text_len);
    assert(undo_end(m, c2) == x);
    lemma_splice(c2, u0, x, m.old_text);
    lemma_index_of_boundary(c, u0);
    lemma_ends_are_boundaries(c);
    lemma_slice(c, u1, utf8_len(c) as int);
    lemma_utf8_len_concat(c.take(char_index(c, u0)) + m.old_text, c.skip(char_index(c, u1)));
    lemma_utf8_len_concat(c.take(char_index(c, u0)), m.old_text);
    assert(apply_patch(m, c2).0 =~= apply_patch(last, content).0);
}

/// The entry `last` extended by a further edit of `content` that replaces the bytes
/// `[a, b)` by `n` bytes at `now`.
pub fn merge_entry(
    last: &HistoryEntry,
    content: &str,
    a: usize,
    b: usize,
    n: usize,
    now: u64,
) -> (r: HistoryEntry)
    requires
        can_merge(last@, content@),
        a <= b,
        is_utf8_boundary(content@, a as int),
        is_utf8_boundary(content@, b as int),
        utf8_len(content@) - (b - a) + n <= usize::MAX,
    ensures
        r@ == merged(last@, content@, a as int, b as int, n as int, now as int),
{
    let _ = byte_len(content);
    let s = last.range.start;
    let e = last.range.start + last.new_text_len;
    let u0 = if a < s {
        a
    } else {
        s
    };
    let u1 = if b > e {
        b
    } else {
        e
    };
    proof {
        lemma_index_of_boundary(content@, a as int);
        lemma_index_of_boundary(content@, b as int);
        lemma_index_of_boundary(content@, s as int);
        lemma_index_of_boundary(content@, e as int);
    }
    let len = (u1 - u0 - (b - a)) + n;
    let mut old_text = String::new();
    crate::text::string_push_str(&mut old_text, str_slice(content, u0, s));
    crate::text::string_push_str(&mut old_text, last.old_text.as_str());
    crate::text::string_push_str(&mut old_text, str_slice(content, e, u1));
    proof {
        assert(old_text@ =~= byte_slice(content@, u0 as int, s as int) + last.old_text@ + byte_slice(
            content@,
            e as int,
            u1 as int,
        ));
    }
    HistoryEntry {
        range: u0..u0 + len,
        old_text,
        new_text_len: len,
        selected_range: last.selected_range.start..last.selected_range.end,
        selection_reversed: last.selection_reversed,
        timestamp: now,
    }
}

/// Which of the two history stacks an operation takes from or pushes onto.
#[derive(Clone, Copy, Debug, PartialEq, Eq, Structural)]
pub enum HistoryKind {
    /// Edits that can be undone.
    Undo,
    /// Undone edits that can be redone.
    Redo,
}

/// Milliseconds from `then` to `now`, or 0 when `then` is later (`Instant::duration_since`).
pub open spec fn elapsed_ms(now: int, then: int) -> int {
    if now >= then {
        now - then
    } else {
        0
    }
}

/// The mathematical content of an `EditableTextHistory`.
pub ghost struct HistoryView {
    pub undo: Seq<Patch>,
    pub redo: Seq<Patch>,
    pub grouping_interval: int,
}

impl HistoryView {
    /// Whether a change of `content` at `now` joins the last entry: that entry was made
    /// within the grouping interval and still describes the content.
    pub open spec fn joins_entry(self, content: Seq<char>, now: int) -> bool {
        &&& self.undo.len() > 0
        &&& elapsed_ms(now, self.undo.last().timestamp) < self.grouping_interval
        &&& can_merge(self.undo.last(), content)
    }

    /// The history after recording that the bytes `[a, b)` of `content` are replaced by
    /// `new_text_len` bytes at `now`, with the given selection before: a change that
    /// joins the last entry extends it, another one starts a new entry; either way
    /// nothing is left to redo.
    pub open spec fn recorded(
        self,
        content: Seq<char>,
        a: int,
        b: int,
        new_text_len: int,
        sel: (int, int),
        reversed: bool,
        now: int,
    ) -> HistoryView {
        if self.joins_entry(content, now) {
            HistoryView {
                undo: self.undo.drop_last().push(
                    merged(self.undo.last(), content, a, b, new_text_len, now),
                ),
                redo: Seq::empty(),
                ..self
            }
        } else {
            let p = Patch {
                start: a,
                end: a + new_text_len,
                old_text: byte_slice(content, a, b),
                new_text_len,
                selected_start: sel.0,
                selected_end: sel.1,
                selection_reversed: reversed,
                timestamp: now,
            };
            let u = self.undo.push(p);
            HistoryView {
                undo: if u.len() > MAX_HISTORY_LEN {
                    u.drop_first()
                } else {
                    u
                },
                redo: Seq::empty(),
                ..self
            }
        }
    }

    /// The stack of the given kind.
    pub open spec fn stack(self, kind: HistoryKind) -> Seq<Patch> {
        match kind {
            HistoryKind::Undo => self.undo,
            HistoryKind::Redo => self.redo,
        }
    }
}

/// Undo/redo stacks of patches, grouping edits that follow each other quickly.
pub struct EditableTextHistory {
    undo: Vec<HistoryEntry>,
    redo: Vec<HistoryEntry>,
    grouping_interval_ms: u64,
}

impl View for EditableTextHistory {
    type V = HistoryView;

    closed spec fn view(&self) -> HistoryView {
        HistoryView {
            undo: self.undo@.map_values(|e: HistoryEntry| e@),
            redo: self.redo@.map_values(|e: HistoryEntry| e@),
            grouping_interval: self.grouping_interval_ms as int,
        }
    }
}

impl Default for EditableTextHistory {
    /// An empty history grouping edits within the default interval.
    fn default() -> (r: Self)
        ensures
            r@ == (HistoryView {
                undo: Seq::empty(),
                redo: Seq::empty(),
                grouping_interval: DEFAULT_GROUP_INTERVAL_MS as int,
            }),
    {
        let r = EditableTextHistory {
            undo: Vec::new(),
            redo: Vec::new(),
            grouping_interval_ms: DEFAULT_GROUP_INTERVAL_MS,
        };
        proof {
            assert(r@.undo =~= Seq::<Patch>::empty());
            assert(r@.redo =~= Seq::<Patch>::empty());
        }
        r
    }

}

impl EditableTextHistory {
    /// Sets how long (ms) after an edit further edits join it in one entry.
    pub fn set_grouping_interval(&mut self, interval_ms: u64)
        ensures
            final(self)@ == (HistoryView { grouping_interval: interval_ms as int, ..old(self)@ }),
    {
        self.grouping_interval_ms = interval_ms;
    }

    /// Whether there is an entry of the given kind.
    pub fn has_next(&self, kind: HistoryKind) -> (r: bool)
        ensures
            r == (self@.stack(kind).len() > 0),
    {
        match kind {
            HistoryKind::Undo => self.undo.len() > 0,
            HistoryKind::Redo => self.redo.len() > 0,
        }
    }

    /// The entry of the given kind that would be taken next.
    pub fn peek(&self, kind: HistoryKind) -> (r: Option<&HistoryEntry>)
        ensures
            self@.stack(kind).len() == 0 ==> r is None,
            self@.stack(kind).len() > 0 ==> (r matches Some(e) && e@ == self@.stack(kind).last()),
    {
        let v = match kind {
            HistoryKind::Undo => &self.undo,
            HistoryKind::Redo => &self.redo,
        };
        let n = v.len();
        if n == 0 {
            None
        } else {
            Some(&v[n - 1])
        }
    }

    /// Records that the bytes `range` of `content` are replaced by `new_text_len` bytes
    /// at `now` (ms): a change soon after the last entry extends it, another one starts a
    /// new entry; either way the redo stack is cleared.
    pub fn record(
        &mut self,
        content: &str,
        range: Range<usize>,
        new_text_len: usize,
        selected_range: Range<usize>,
        now: u64,
    )
        requires
            range.start <= range.end,
            is_utf8_boundary(content@, range.start as int),
            is_utf8_boundary(content@, range.end as int),
            utf8_len(content@) - (range.end - range.start) + new_text_len <= usize::MAX,
        ensures
            final(self)@ == old(self)@.recorded(
                content@,
                range.start as int,
                range.end as int,
                new_text_len as int,
                (selected_range.start as int, selected_range.end as int),
                false,
                now as int,
            ),
    {
        let ghost v = self@;
        proof {
            lemma_index_of_boundary(content@, range.start as int);
            lemma_index_of_boundary(content@, range.end as int);
        }
        let len = byte_len(content);
        let n = self.undo.len();
        if n > 0 {
            let last_timestamp = self.undo[n - 1].timestamp;
            let elapsed = if now >= last_timestamp {
                now - last_timestamp
            } else {
                0
            };
            proof {
                assert(v.undo.last() == self.undo@[n - 1]@);
            }
            let describes = match self.undo[n - 1].range.start.checked_add(self.undo[n - 1].new_text_len) {
                Some(e) => e <= len && crate::text::is_char_boundary(content, self.undo[n - 1].range.start)
                    && crate::text::is_char_boundary(content, e),
                None => false,
            };
            if elapsed < self.grouping_interval_ms && describes {
                let merged_entry = merge_entry(
                    &self.undo[n - 1],
                    content,
                    range.start,
                    range.end,
                    new_text_len,
                    now,
                );
                self.undo.set(n - 1, merged_entry);
                proof {
                    assert(self.undo@.map_values(|e: HistoryEntry| e@) =~= v.undo.drop_last().push(
                        merged_entry@,
                    ));
                }
                self.redo.clear();
                proof {
                    assert(self@.redo =~= Seq::<Patch>::empty());
                }
                return;
            }
        }
        let entry = HistoryEntry {
            range: range.start..range.start + new_text_len,
            old_text: str_slice(content, range.start, range.end).to_owned(),
            new_text_len,
            selected_range,
            selection_reversed: false,
            timestamp: now,
        };
        let ghost pushed = self.undo@.push(entry);
        self.undo.push(entry);
        proof {
            assert(pushed.map_values(|e: HistoryEntry| e@) =~= v.undo.push(entry@));
        }
        if self.undo.len() > MAX_HISTORY_LEN {
            self.undo.remove(0);
            proof {
                assert(self.undo@.map_values(|e: HistoryEntry| e@) =~= v.undo.push(entry@).drop_first());
            }
        }
        self.redo.clear();
        proof {
            assert(self@.redo =~= Seq::<Patch>::empty());
        }
    }

    /// Takes the last entry of the given kind.
    pub fn take(&mut self, kind: HistoryKind) -> (r: Option<HistoryEntry>)
        ensures
            old(self)@.stack(kind).len() == 0 ==> r is None && final(self)@ == old(self)@,
            old(self)@.stack(kind).len() > 0 ==> (r matches Some(e) && e@ == old(self)@.stack(kind).last()),
            old(self)@.stack(kind).len() > 0 ==> final(self)@ == match kind {
                HistoryKind::Undo => HistoryView { undo: old(self)@.undo.drop_last(), ..old(self)@ },
                HistoryKind::Redo => HistoryView { redo: old(self)@.redo.drop_last(), ..old(self)@ },
            },
    {
        let ghost v = self@;
        match kind {
            HistoryKind::Undo => {
                let r = self.undo.pop();
                proof {
                    if v.undo.len() > 0 {
                        assert(self.undo@.map_values(|e: HistoryEntry| e@) =~= v.undo.drop_last());
                    } else {
                        assert(self@ =~= v);
                    }
                }
                r
            },
            HistoryKind::Redo => {
                let r = self.redo.pop();
                proof {
                    if v.redo.len() > 0 {
                        assert(self.redo@.map_values(|e: HistoryEntry| e@) =~= v.redo.drop_last());
                    } else {
                        assert(self@ =~= v);
                    }
                }
                r
            },
        }
    }

    /// Pushes an entry onto the stack of the given kind.
    pub fn push(&mut self, kind: HistoryKind, entry: HistoryEntry)
        ensures
            final(self)@ == match kind {
                HistoryKind::Undo => HistoryView { undo: old(self)@.undo.push(entry@), ..old(self)@ },
                HistoryKind::Redo => HistoryView { redo: old(self)@.redo.push(entry@), ..old(self)@ },
            },
    {
        let ghost v = self@;
        match kind {
            HistoryKind::Undo => {
                let ghost pushed = self.undo@.push(entry);
                self.undo.push(entry);
                proof {
                    assert(pushed.map_values(|e: HistoryEntry| e@) =~= v.undo.push(entry@));
                }
            },
            HistoryKind::Redo => {
                let ghost pushed = self.redo@.push(entry);
                self.redo.push(entry);
                proof {
                    assert(pushed.map_values(|e: HistoryEntry| e@) =~= v.redo.push(entry@));
                }
            },
        }
    }
}

/// Recording an edit never lets the undo stack grow beyond `MAX_HISTORY_LEN` entries,
/// leaves nothing to redo, and a change that joins the last entry keeps the number of
/// entries.
pub proof fn lemma_recorded_history_bounded(
    h: HistoryView,
    content: Seq<char>,
    a: int,
    b: int,
    new_text_len: int,
    sel: (int, int),
    reversed: bool,
    now: int,
)
    requires
        h.undo.len() <= MAX_HISTORY_LEN,
    ensures
        h.recorded(content, a, b, new_text_len, sel, reversed, now).undo.len() <= MAX_HISTORY_LEN,
        h.recorded(content, a, b, new_text_len, sel, reversed, now).redo.len() == 0,
        h.joins_entry(content, now) ==> h.recorded(
            content,
            a,
            b,
            new_text_len,
            sel,
            reversed,
            now,
        ).undo.len() == h.undo.len(),
{
}

/// A patch whose inserted text lies within `content`.
pub open spec fn patch_covers_insertion(p: Patch, content: Seq<char>) -> bool {
    p.start + p.new_text_len <= utf8_len(content)
}

/// `p` with its range ending where its inserted text ends (the range's end is not read
/// when a patch is applied).
pub open spec fn normalized(p: Patch) -> Patch {
    Patch { end: p.start + p.new_text_len, ..p }
}

/// Undoing an edit and redoing it gives back the content and the patch:
/// applying the reverse patch that `apply_undo` returns restores both (the range of the
/// restored patch ending where its inserted text ends).
pub proof fn lemma_undo_redo_roundtrip(p: Patch, content: Seq<char>)
    requires
        patch_applicable(p, content),
        patch_covers_insertion(p, content),
    ensures
        ({
            let (c1, p1) = apply_patch(p, content);
            &&& patch_applicable(p1, c1)
            &&& patch_covers_insertion(p1, c1)
            &&& p1 == normalized(p1)
            &&& apply_patch(p1, c1).0 == content
            &&& apply_patch(p1, c1).1 == normalized(p)
        }),
{
    let s = p.start;
    let e = p.start + p.new_text_len;
    assert(undo_end(p, content) == e);
    lemma_slice(content, s, e);
    lemma_splice(content, s, e, p.old_text);
    let (c1, p1) = apply_patch(p, content);
    let t = p.old_text;
    assert(undo_end(p1, c1) == s + utf8_len(t));
    lemma_slice(c1, s, s + utf8_len(t));
    lemma_splice(c1, s, s + utf8_len(t), p1.old_text);
    let (c2, p2) = apply_patch(p1, c1);
    assert(c2 =~= content);
    assert(p2.old_text =~= t);
    assert(p2 =~= normalized(p));
}

} // verus!
