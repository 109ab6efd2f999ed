//! Finding the boundaries the caret moves between: characters clusters (graphemes),
//! words, lines and the whole document.
use vstd::prelude::*;
use crate::text::{
    byte_len, byte_offset, byte_slice, char_index, char_is_whitespace, char_len_utf8,
    char_width_utf8, chars_of, is_utf8_boundary, lemma_boundary_of_index, lemma_ends_are_boundaries,
    lemma_index_of_boundary, lemma_offset_ends, lemma_offset_le_len, lemma_offset_mono,
    lemma_offset_step, lemma_offset_strict, lemma_prefix_boundary, lemma_suffix_boundary,
    str_slice, utf8_len, white_space,
};
use crate::segmentation::{
    grapheme_last_start, grapheme_second_start, last_grapheme_start, second_grapheme_start,
    word_indices, word_spans,
};

verus! {

/// A direction of travel through the text.
#[derive(Clone, Copy, Debug, PartialEq, Eq, Structural)]
pub enum NavigationDirection {
    /// Towards the start of the text.
    Back,
    /// Towards the end of the text.
    Forward,
}

/// The unit by which the caret moves.
#[derive(Clone, Copy, Debug, PartialEq, Eq, Structural)]
pub enum TextBoundary {
    /// One extended grapheme cluster (what a user perceives as a character).
    Graphmeme,
    /// One word.
    Word,
    /// To the start or end of the current line.
    Line,
    /// To the start or end of the whole text.
    Document,
}

/// `b` clamped to the end of the text.
pub open spec fn clamp_to_len(s: Seq<char>, b: int) -> int {
    if b < utf8_len(s) {
        b
    } else {
        utf8_len(s) as int
    }
}

/// The last character boundary of `s` at or before `b`.
pub open spec fn floor_boundary(s: Seq<char>, b: int) -> int
    decreases b,
{
    if b <= 0 || is_utf8_boundary(s, b) {
        b
    } else {
        floor_boundary(s, b - 1)
    }
}

/// The last boundary at or before a byte offset within the text is a boundary, no later
/// than that offset.
pub proof fn lemma_floor_boundary(s: Seq<char>, b: int)
    requires
        0 <= b <= utf8_len(s),
    ensures
        0 <= floor_boundary(s, b) <= b,
        is_utf8_boundary(s, floor_boundary(s, b)),
    decreases b,
{
    lemma_ends_are_boundaries(s);
    if b > 0 && !is_utf8_boundary(s, b) {
        lemma_floor_boundary(s, b - 1);
    }
}

/// The last character boundary at or before `b` (clamped to the end of the text).
pub fn floor_char_boundary(s: &str, b: usize) -> (r: usize)
    ensures
        r == floor_boundary(s@, clamp_to_len(s@, b as int)),
        is_utf8_boundary(s@, r as int),
{
    let len = byte_len(s);
    let mut o = if b < len {
        b
    } else {
        len
    };
    proof {
        lemma_ends_are_boundaries(s@);
    }
    while !crate::text::is_char_boundary(s, o)
        invariant
            o <= len,
            len == utf8_len(s@),
            is_utf8_boundary(s@, 0),
            floor_boundary(s@, o as int) == floor_boundary(s@, clamp_to_len(s@, b as int)),
        decreases o,
    {
        o = o - 1;
    }
    o
}

/// Index of the last `'\n'` among the first `k` characters, or -1.
pub open spec fn last_newline_before(s: Seq<char>, k: int) -> int
    decreases k,
{
    if k <= 0 {
        -1
    } else if s[k - 1] == '\n' {
        k - 1
    } else {
        last_newline_before(s, k - 1)
    }
}

/// Index of the first `'\n'` at or after character `k`, or the number of characters.
pub open spec fn next_newline_from(s: Seq<char>, k: int) -> int
    decreases s.len() - k,
{
    if k >= s.len() || k < 0 {
        s.len() as int
    } else if s[k] == '\n' {
        k
    } else {
        next_newline_from(s, k + 1)
    }
}

/// Byte offset of the start of the line holding byte offset `b`: just after the last
/// newline before `b`, or 0.
pub open spec fn line_start(s: Seq<char>, b: int) -> nat {
    byte_offset(s, last_newline_before(s, char_index(s, clamp_to_len(s, b))) + 1)
}

/// Byte offset of the end of the line holding byte offset `b`: the first newline at or
/// after `b`, or the end of the text.
pub open spec fn line_end(s: Seq<char>, b: int) -> nat {
    if b >= utf8_len(s) {
        utf8_len(s)
    } else {
        byte_offset(s, next_newline_from(s, char_index(s, b)))
    }
}

/// The boundary the caret reaches moving back one grapheme cluster from `b`.
pub open spec fn previous_grapheme(s: Seq<char>, b: int) -> nat {
    if b == 0 {
        0
    } else {
        match last_grapheme_start(byte_slice(s, 0, clamp_to_len(s, b))) {
            Some(i) => i as nat,
            None => 0,
        }
    }
}

/// The boundary the caret reaches moving forward one grapheme cluster from `b`.
pub open spec fn next_grapheme(s: Seq<char>, b: int) -> nat {
    if b >= utf8_len(s) {
        utf8_len(s)
    } else {
        match second_grapheme_start(byte_slice(s, b, utf8_len(s) as int)) {
            Some(i) => (b + i) as nat,
            None => utf8_len(s),
        }
    }
}

/// How many trailing characters of `s` are kept by `str::trim_end`.
pub open spec fn trim_end_count(s: Seq<char>) -> nat
    decreases s.len(),
{
    if s.len() == 0 {
        0
    } else if white_space(s.last()) {
        trim_end_count(s.drop_last())
    } else {
        s.len()
    }
}

/// Start of the last word of a word list, or 0.
pub open spec fn last_span_start(w: Seq<(usize, usize)>) -> usize {
    if w.len() > 0 {
        w.last().0
    } else {
        0
    }
}

/// The boundary the caret reaches moving back one word from `b`: the start of the
/// last word before `b`, looking past trailing whitespace when that start is 0.
pub open spec fn previous_word(s: Seq<char>, b: int) -> nat {
    if b == 0 {
        0
    } else {
        let before = byte_slice(s, 0, clamp_to_len(s, b));
        let first = last_span_start(word_spans(before));
        if first == 0 {
            let trimmed = before.take(trim_end_count(before) as int);
            if trimmed.len() == 0 {
                0
            } else {
                last_span_start(word_spans(trimmed)) as nat
            }
        } else {
            first as nat
        }
    }
}

/// The boundary the caret reaches moving forward one word from `b`: the end of the
/// first word after `b`, or the end of the text.
pub open spec fn next_word(s: Seq<char>, b: int) -> nat {
    if b >= utf8_len(s) {
        utf8_len(s)
    } else {
        let w = word_spans(byte_slice(s, b, utf8_len(s) as int));
        if w.len() > 0 {
            (b + w[0].0 + w[0].1) as nat
        } else {
            utf8_len(s)
        }
    }
}

/// The first word of the list that holds offset `o` (its ends included).
pub open spec fn span_containing(w: Seq<(usize, usize)>, o: int) -> Option<(usize, usize)>
    decreases w.len(),
{
    if w.len() == 0 {
        None
    } else if w[0].0 <= o <= w[0].0 + w[0].1 {
        Some(w[0])
    } else {
        span_containing(w.drop_first(), o)
    }
}

/// A word span of `w` holding `o` is one of the spans of `w`, and holds `o`.
pub proof fn lemma_span_containing(w: Seq<(usize, usize)>, o: int)
    ensures
        span_containing(w, o) matches Some(sp) ==> {
            &&& sp.0 <= o <= sp.0 + sp.1
            &&& exists|i: int| 0 <= i < w.len() && #[trigger] w[i] == sp
        },
    decreases w.len(),
{
    if w.len() > 0 {
        if w[0].0 <= o <= w[0].0 + w[0].1 {
            assert(w[0] == w[0]);
        } else {
            lemma_span_containing(w.drop_first(), o);
            if let Some(sp) = span_containing(w.drop_first(), o) {
                let i = choose|i: int| 0 <= i < w.drop_first().len() && #[trigger] w.drop_first()[i] == sp;
                assert(w[i + 1] == sp);
            }
        }
    }
}

/// The word holding byte offset `b` (its ends included), or the empty range at `b`.
pub open spec fn word_range(s: Seq<char>, b: int) -> (int, int) {
    let o = clamp_to_len(s, b);
    match span_containing(word_spans(s), o) {
        Some(sp) => (sp.0 as int, sp.0 + sp.1),
        None => (o, o),
    }
}

/// Walks the characters up to the boundary `b`: returns its character index.
fn advance_to(s: &str, chars: &Vec<char>, b: usize) -> (r: usize)
    requires
        chars@ == s@,
        is_utf8_boundary(s@, b as int),
    ensures
        r == char_index(s@, b as int),
{
    let ghost t = s@;
    let blen = byte_len(s);
    let n = chars.len();
    proof {
        lemma_index_of_boundary(t, b as int);
        lemma_offset_ends(t);
    }
    let mut k: usize = 0;
    let mut off: usize = 0;
    while k < n && off < b
        invariant
            chars@ == t,
            n == t.len(),
            blen == utf8_len(t),
            is_utf8_boundary(t, b as int),
            0 <= char_index(t, b as int) <= n,
            byte_offset(t, char_index(t, b as int)) == b,
            k <= char_index(t, b as int),
            off == byte_offset(t, k as int),
        decreases n - k,
    {
        proof {
            lemma_offset_step(t, k as int);
            if k < char_index(t, b as int) {
                lemma_offset_mono(t, k as int + 1, char_index(t, b as int));
            } else {
                assert(false);
            }
            lemma_offset_le_len(t, k as int + 1);
        }
        off = off + char_len_utf8(chars[k]);
        k = k + 1;
    }
    proof {
        if k < char_index(t, b as int) {
            lemma_offset_strict(t, k as int, char_index(t, b as int));
        }
    }
    k
}

/// Byte offset of character `k`.
fn offset_at(s: &str, chars: &Vec<char>, k: usize) -> (r: usize)
    requires
        chars@ == s@,
        k <= chars@.len(),
    ensures
        r == byte_offset(s@, k as int),
{
    let ghost t = s@;
    let blen = byte_len(s);
    let mut i: usize = 0;
    let mut off: usize = 0;
    proof {
        lemma_offset_ends(t);
    }
    while i < k
        invariant
            chars@ == t,
            k <= t.len(),
            i <= k,
            blen == utf8_len(t),
            off == byte_offset(t, i as int),
        decreases k - i,
    {
        proof {
            lemma_offset_step(t, i as int);
            lemma_offset_le_len(t, i as int + 1);
        }
        off = off + char_len_utf8(chars[i]);
        i = i + 1;
    }
    off
}

/// A newline takes one byte.
pub proof fn lemma_newline_width()
    ensures
        char_width_utf8('\n') == 1,
{
    assert(('\n' as u32) == 10);
}

proof fn lemma_last_newline_bounds(s: Seq<char>, k: int)
    requires
        0 <= k <= s.len(),
    ensures
        -1 <= last_newline_before(s, k) < k,
        last_newline_before(s, k) >= 0 ==> s[last_newline_before(s, k)] == '\n',
    decreases k,
{
    if k > 0 && s[k - 1] != '\n' {
        lemma_last_newline_bounds(s, k - 1);
    }
}

proof fn lemma_next_newline_bounds(s: Seq<char>, k: int)
    requires
        0 <= k <= s.len(),
    ensures
        k <= next_newline_from(s, k) <= s.len(),
        next_newline_from(s, k) < s.len() ==> s[next_newline_from(s, k)] == '\n',
    decreases s.len() - k,
{
    if k < s.len() && s[k] != '\n' {
        lemma_next_newline_bounds(s, k + 1);
    }
}

/// A line that starts after position 0 is preceded by a newline, one byte long.
pub proof fn lemma_line_start_after_newline(s: Seq<char>, b: int)
    requires
        is_utf8_boundary(s, clamp_to_len(s, b)),
    ensures
        is_utf8_boundary(s, line_start(s, b) as int),
        line_start(s, b) <= clamp_to_len(s, b),
        line_start(s, b) > 0 ==> is_utf8_boundary(s, line_start(s, b) - 1),
        line_start(s, b) > 0 ==> byte_slice(s, line_start(s, b) - 1, line_start(s, b) as int)
            == seq!['\n'],
{
    let c = clamp_to_len(s, b);
    lemma_index_of_boundary(s, c);
    let k = char_index(s, c);
    lemma_last_newline_bounds(s, k);
    let j = last_newline_before(s, k);
    lemma_boundary_of_index(s, j + 1);
    lemma_offset_mono(s, j + 1, k);
    lemma_offset_ends(s);
    if j >= 0 {
        lemma_newline_width();
        lemma_offset_step(s, j);
        lemma_boundary_of_index(s, j);
        assert(byte_slice(s, line_start(s, b) - 1, line_start(s, b) as int) =~= seq!['\n']);
    } else {
        assert(line_start(s, b) == 0);
    }
}

/// A line that ends before the end of the text is followed by a newline, one byte long.
pub proof fn lemma_line_end_before_newline(s: Seq<char>, b: int)
    requires
        is_utf8_boundary(s, clamp_to_len(s, b)),
    ensures
        is_utf8_boundary(s, line_end(s, b) as int),
        clamp_to_len(s, b) <= line_end(s, b) <= utf8_len(s),
        line_end(s, b) < utf8_len(s) ==> is_utf8_boundary(s, (line_end(s, b) + 1) as int),
        line_end(s, b) < utf8_len(s) ==> byte_slice(s, line_end(s, b) as int, (line_end(s, b) + 1) as int)
            == seq!['\n'],
{
    lemma_offset_ends(s);
    lemma_ends_are_boundaries(s);
    if b < utf8_len(s) {
        lemma_index_of_boundary(s, b);
        let k = char_index(s, b);
        lemma_next_newline_bounds(s, k);
        let j = next_newline_from(s, k);
        lemma_boundary_of_index(s, j);
        lemma_offset_mono(s, k, j);
        lemma_offset_le_len(s, j);
        if j < s.len() {
            lemma_newline_width();
            lemma_offset_step(s, j);
            lemma_boundary_of_index(s, j + 1);
            assert(byte_slice(s, line_end(s, b) as int, (line_end(s, b) + 1) as int) =~= seq!['\n']);
        } else {
            assert(line_end(s, b) == utf8_len(s));
        }
    }
}

/// Returns the byte position just after the last newline before `position`
/// (the start of the line holding `position`), or 0.
pub fn find_line_start(s: &str, position: usize) -> (r: usize)
    requires
        is_utf8_boundary(s@, clamp_to_len(s@, position as int)),
    ensures
        r == line_start(s@, position as int),
        is_utf8_boundary(s@, r as int),
        r <= clamp_to_len(s@, position as int),
{
    let ghost t = s@;
    let len = byte_len(s);
    let p = if position < len {
        position
    } else {
        len
    };
    let chars = chars_of(s);
    let end = advance_to(s, &chars, p);
    let mut k: usize = 0;
    let mut off: usize = 0;
    let mut result: usize = 0;
    proof {
        lemma_offset_ends(t);
        lemma_index_of_boundary(t, p as int);
        lemma_newline_width();
    }
    while k < end
        invariant
            chars@ == t,
            end == char_index(t, p as int),
            end <= t.len(),
            k <= end,
            len == utf8_len(t),
            off == byte_offset(t, k as int),
            result == byte_offset(t, last_newline_before(t, k as int) + 1),
            -1 <= last_newline_before(t, k as int) < k,
            char_width_utf8('\n') == 1,
        decreases end - k,
    {
        proof {
            lemma_offset_step(t, k as int);
            lemma_offset_le_len(t, k as int + 1);
        }
        if chars[k] == '\n' {
            result = off + 1;
        }
        off = off + char_len_utf8(chars[k]);
        k = k + 1;
    }
    proof {
        let j = last_newline_before(t, end as int) + 1;
        lemma_boundary_of_index(t, j);
        lemma_offset_mono(t, j, end as int);
    }
    result
}

/// Returns the byte position of the first newline at or after `position` (the end of
/// the line holding `position`), or the end of the text.
pub fn find_line_end(s: &str, position: usize) -> (r: usize)
    requires
        is_utf8_boundary(s@, clamp_to_len(s@, position as int)),
    ensures
        r == line_end(s@, position as int),
        is_utf8_boundary(s@, r as int),
        clamp_to_len(s@, position as int) <= r <= utf8_len(s@),
{
    let ghost t = s@;
    let len = byte_len(s);
    proof {
        lemma_ends_are_boundaries(t);
    }
    if position >= len {
        return len;
    }
    let chars = chars_of(s);
    let n = chars.len();
    let mut k = advance_to(s, &chars, position);
    let mut off = position;
    proof {
        lemma_index_of_boundary(t, position as int);
        lemma_newline_width();
    }
    while k < n
        invariant
            chars@ == t,
            n == t.len(),
            k <= n,
            len == utf8_len(t),
            off == byte_offset(t, k as int),
            position <= off,
            position < len,
            t == s@,
            next_newline_from(t, char_index(t, position as int)) == next_newline_from(
                t,
                k as int,
            ),
        decreases n - k,
    {
        proof {
            lemma_offset_step(t, k as int);
            lemma_offset_le_len(t, k as int + 1);
        }
        if chars[k] == '\n' {
            proof {
                assert(t[k as int] == '\n');
                assert(next_newline_from(t, k as int) == k);
                lemma_boundary_of_index(t, k as int);
            }
            return off;
        }
        off = off + char_len_utf8(chars[k]);
        k = k + 1;
    }
    proof {
        lemma_offset_ends(t);
    }
    len
}

/// The boundary one grapheme cluster before `offset` (0 stays 0).
pub fn previous_boundary(s: &str, offset: usize) -> (r: usize)
    requires
        offset == 0 || is_utf8_boundary(s@, clamp_to_len(s@, offset as int)),
    ensures
        r == previous_grapheme(s@, offset as int),
        is_utf8_boundary(s@, r as int),
        offset > 0 && utf8_len(s@) > 0 ==> r < clamp_to_len(s@, offset as int),
        r <= clamp_to_len(s@, offset as int),
{
    proof {
        lemma_ends_are_boundaries(s@);
    }
    if offset == 0 {
        return 0;
    }
    let len = byte_len(s);
    let p = if offset < len {
        offset
    } else {
        len
    };
    let before = str_slice(s, 0, p);
    proof {
        lemma_index_of_boundary(s@, p as int);
        lemma_ends_are_boundaries(before@);
        crate::text::lemma_slice(s@, 0, p as int);
    }
    match grapheme_last_start(before) {
        Some(i) => {
            proof {
                lemma_prefix_boundary(s@, p as int, i as int);
            }
            i
        },
        None => {
            proof {
                if p > 0 {
                    lemma_boundary_order(s@, 0, p as int);
                }
            }
            0
        },
    }
}

use crate::text::lemma_boundary_order;

/// The boundary one grapheme cluster after `offset` (the end stays the end).
pub fn next_boundary(s: &str, offset: usize) -> (r: usize)
    requires
        offset >= utf8_len(s@) || is_utf8_boundary(s@, offset as int),
    ensures
        r == next_grapheme(s@, offset as int),
        is_utf8_boundary(s@, r as int),
        offset < utf8_len(s@) ==> offset < r <= utf8_len(s@),
        offset >= utf8_len(s@) ==> r == utf8_len(s@),
{
    let len = byte_len(s);
    proof {
        lemma_ends_are_boundaries(s@);
    }
    if offset >= len {
        return len;
    }
    let after = str_slice(s, offset, len);
    match grapheme_second_start(after) {
        Some(i) => {
            proof {
                lemma_suffix_boundary(s@, offset as int, i as int);
            }
            offset + i
        },
        None => len,
    }
}

/// `str::trim_end`: `s` without its trailing whitespace.
pub fn trim_end(s: &str) -> (r: &str)
    ensures
        r@ == s@.take(trim_end_count(s@) as int),
        trim_end_count(s@) <= s@.len(),
{
    let ghost t = s@;
    let chars = chars_of(s);
    let n = chars.len();
    let mut j = n;
    proof {
        assert(t.take(n as int) =~= t);
    }
    while j > 0 && char_is_whitespace(chars[j - 1])
        invariant
            chars@ == t,
            n == t.len(),
            j <= n,
            trim_end_count(t) == trim_end_count(t.take(j as int)),
        decreases j,
    {
        proof {
            assert(t.take(j as int).drop_last() =~= t.take(j - 1));
            assert(t.take(j as int).last() == t[j - 1]);
        }
        j = j - 1;
    }
    proof {
        if j == 0 {
            assert(t.take(0) =~= Seq::<char>::empty());
        } else {
            assert(t.take(j as int).last() == t[j - 1]);
        }
    }
    let off = offset_at(s, &chars, j);
    proof {
        lemma_boundary_of_index(t, j as int);
        lemma_ends_are_boundaries(t);
        lemma_offset_ends(t);
        lemma_offset_mono(t, 0, j as int);
    }
    let r = str_slice(s, 0, off);
    proof {
        assert(r@ =~= t.take(j as int));
    }
    r
}

/// `trimmed` is a prefix of `before`: its boundaries are boundaries of `before`.
proof fn lemma_take_boundary(s: Seq<char>, k: int, x: int)
    requires
        0 <= k <= s.len(),
        is_utf8_boundary(s.take(k), x),
    ensures
        is_utf8_boundary(s, x),
        x <= byte_offset(s, k),
{
    lemma_boundary_of_index(s, k);
    assert(byte_slice(s, 0, byte_offset(s, k) as int) =~= s.take(k)) by {
        lemma_offset_ends(s);
        lemma_ends_are_boundaries(s);
    }
    lemma_prefix_boundary(s, byte_offset(s, k) as int, x);
}

/// The start of the last word before `offset` (see `previous_word`).
pub fn previous_word_boundary(s: &str, offset: usize) -> (r: usize)
    requires
        offset == 0 || is_utf8_boundary(s@, clamp_to_len(s@, offset as int)),
    ensures
        r == previous_word(s@, offset as int),
        is_utf8_boundary(s@, r as int),
        r <= clamp_to_len(s@, offset as int),
        offset > 0 && utf8_len(s@) > 0 ==> r < clamp_to_len(s@, offset as int),
{
    proof {
        lemma_ends_are_boundaries(s@);
    }
    if offset == 0 {
        return 0;
    }
    let len = byte_len(s);
    let p = if offset < len {
        offset
    } else {
        len
    };
    let text_before = str_slice(s, 0, p);
    proof {
        crate::text::lemma_slice(s@, 0, p as int);
        lemma_ends_are_boundaries(text_before@);
    }
    let words = word_indices(text_before);
    let mut last_word_start: usize = 0;
    let mut i: usize = 0;
    while i < words.len()
        invariant
            words@ == word_spans(text_before@),
            utf8_len(text_before@) == p,
            p <= offset,
            i <= words@.len(),
            last_word_start == (if i > 0 {
                words@[i - 1].0
            } else {
                0
            }),
            forall|j: int|
                0 <= j < words@.len() ==> {
                    &&& (#[trigger] words@[j]).1 > 0
                    &&& words@[j].0 + words@[j].1 <= utf8_len(text_before@)
                    &&& is_utf8_boundary(text_before@, words@[j].0 as int)
                },
        decreases words@.len() - i,
    {
        let (idx, _) = words[i];
        if idx < offset {
            last_word_start = idx;
        }
        i = i + 1;
    }
    proof {
        if words@.len() > 0 {
            let w = words@[words@.len() - 1];
            lemma_prefix_boundary(s@, p as int, w.0 as int);
        }
    }
    if last_word_start == 0 && offset > 0 {
        let trimmed = trim_end(text_before);
        if trimmed.is_empty() {
            return 0;
        }
        let words2 = word_indices(trimmed);
        let mut j: usize = 0;
        while j < words2.len()
            invariant
                words2@ == word_spans(trimmed@),
                j <= words2@.len(),
                last_word_start == (if j > 0 {
                    words2@[j - 1].0
                } else {
                    0
                }),
            decreases words2@.len() - j,
        {
            let (idx, _) = words2[j];
            last_word_start = idx;
            j = j + 1;
        }
        proof {
            if words2@.len() > 0 {
                let w = words2@[words2@.len() - 1];
                let tc = trim_end_count(text_before@) as int;
                lemma_take_boundary(text_before@, tc, w.0 as int);
                lemma_offset_le_len(text_before@, tc);
                lemma_prefix_boundary(s@, p as int, w.0 as int);
                assert(w.0 < utf8_len(trimmed@));
                lemma_offset_ends(text_before@);
                crate::text::lemma_offset_take(text_before@, tc, tc);
                lemma_offset_ends(trimmed@);
                assert(trimmed@.take(tc) =~= trimmed@);
            }
        }
        return last_word_start;
    }
    last_word_start
}

/// The end of the first word after `offset`, or the end of the text.
pub fn next_word_boundary(s: &str, offset: usize) -> (r: usize)
    requires
        offset >= utf8_len(s@) || is_utf8_boundary(s@, offset as int),
    ensures
        r == next_word(s@, offset as int),
        is_utf8_boundary(s@, r as int),
        offset < utf8_len(s@) ==> offset < r <= utf8_len(s@),
        offset >= utf8_len(s@) ==> r == utf8_len(s@),
{
    let len = byte_len(s);
    proof {
        lemma_ends_are_boundaries(s@);
    }
    if offset >= len {
        return len;
    }
    let text_after = str_slice(s, offset, len);
    proof {
        crate::text::lemma_slice(s@, offset as int, len as int);
    }
    let words = word_indices(text_after);
    if words.len() > 0 {
        let (idx, word_len) = words[0];
        proof {
            assert(words@[0].0 + words@[0].1 <= utf8_len(text_after@));
        }
        let word_end = offset + idx + word_len;
        if word_end > offset {
            proof {
                lemma_suffix_boundary(s@, offset as int, idx + word_len);
            }
            return word_end;
        }
    }
    len
}

/// The word holding `offset` (ends included), or the empty range at the clamped offset.
pub fn word_range_at(s: &str, offset: usize) -> (r: (usize, usize))
    ensures
        r.0 == word_range(s@, offset as int).0,
        r.1 == word_range(s@, offset as int).1,
        r.0 <= clamp_to_len(s@, offset as int) <= r.1 <= utf8_len(s@),
        is_utf8_boundary(s@, clamp_to_len(s@, offset as int)) ==> is_utf8_boundary(s@, r.0 as int)
            && is_utf8_boundary(s@, r.1 as int),
{
    let len = byte_len(s);
    let o = if offset < len {
        offset
    } else {
        len
    };
    let words = word_indices(s);
    let mut i: usize = 0;
    proof {
        assert(words@.skip(0) =~= words@);
    }
    while i < words.len()
        invariant
            words@ == word_spans(s@),
            i <= words@.len(),
            o <= len,
            len == utf8_len(s@),
            o == clamp_to_len(s@, offset as int),
            span_containing(words@, o as int) == span_containing(
                words@.skip(i as int),
                o as int,
            ),
            forall|j: int|
                0 <= j < words@.len() ==> {
                    &&& (#[trigger] words@[j]).1 > 0
                    &&& words@[j].0 + words@[j].1 <= utf8_len(s@)
                    &&& is_utf8_boundary(s@, words@[j].0 as int)
                    &&& is_utf8_boundary(s@, words@[j].0 + words@[j].1)
                },
        decreases words@.len() - i,
    {
        let (idx, word_len) = words[i];
        let word_end = idx + word_len;
        proof {
            assert(words@.skip(i as int)[0] == words@[i as int]);
            assert(words@.skip(i as int).drop_first() =~= words@.skip(i + 1));
        }
        if o >= idx && o <= word_end {
            return (idx, word_end);
        }
        i = i + 1;
    }
    (o, o)
}

/// The offset reached from `caret` moving one `boundary` in `direction`.
pub open spec fn offset_from(
    s: Seq<char>,
    caret: int,
    direction: NavigationDirection,
    boundary: TextBoundary,
) -> nat {
    match (boundary, direction) {
        (TextBoundary::Graphmeme, NavigationDirection::Back) => previous_grapheme(s, caret),
        (TextBoundary::Graphmeme, NavigationDirection::Forward) => next_grapheme(s, caret),
        (TextBoundary::Word, NavigationDirection::Back) => previous_word(s, caret),
        (TextBoundary::Word, NavigationDirection::Forward) => next_word(s, caret),
        (TextBoundary::Line, NavigationDirection::Back) => line_start(s, caret),
        (TextBoundary::Line, NavigationDirection::Forward) => line_end(s, caret),
        (TextBoundary::Document, NavigationDirection::Back) => 0,
        (TextBoundary::Document, NavigationDirection::Forward) => utf8_len(s),
    }
}

/// The offset reached from the boundary `caret` moving one `boundary` in `direction`.
pub fn offset_from_caret(
    s: &str,
    caret: usize,
    direction: NavigationDirection,
    boundary: TextBoundary,
) -> (r: usize)
    requires
        is_utf8_boundary(s@, clamp_to_len(s@, caret as int)),
    ensures
        r == offset_from(s@, caret as int, direction, boundary),
        is_utf8_boundary(s@, r as int),
        r <= utf8_len(s@),
{
    proof {
        lemma_ends_are_boundaries(s@);
        if caret < utf8_len(s@) {
            assert(clamp_to_len(s@, caret as int) == caret);
        }
    }
    match (boundary, direction) {
        (TextBoundary::Graphmeme, NavigationDirection::Back) => previous_boundary(s, caret),
        (TextBoundary::Graphmeme, NavigationDirection::Forward) => next_boundary(s, caret),
        (TextBoundary::Word, NavigationDirection::Back) => previous_word_boundary(s, caret),
        (TextBoundary::Word, NavigationDirection::Forward) => next_word_boundary(s, caret),
        (TextBoundary::Line, NavigationDirection::Back) => find_line_start(s, caret),
        (TextBoundary::Line, NavigationDirection::Forward) => find_line_end(s, caret),
        (TextBoundary::Document, NavigationDirection::Back) => 0,
        (TextBoundary::Document, NavigationDirection::Forward) => byte_len(s),
    }
}

/// The range between the clamped `caret` and the offset reached from it moving one
/// `boundary` in `direction`, in increasing order.
pub open spec fn range_from(
    s: Seq<char>,
    caret: int,
    direction: NavigationDirection,
    boundary: TextBoundary,
) -> (int, int) {
    let o = offset_from(s, caret, direction, boundary) as int;
    let c = clamp_to_len(s, caret);
    if o < c {
        (o, c)
    } else {
        (c, o)
    }
}

/// The range between `caret` and the offset reached moving one `boundary` in `direction`.
pub fn range_from_caret(
    s: &str,
    caret: usize,
    direction: NavigationDirection,
    boundary: TextBoundary,
) -> (r: std::ops::Range<usize>)
    requires
        is_utf8_boundary(s@, clamp_to_len(s@, caret as int)),
    ensures
        (r.start as int, r.end as int) == range_from(s@, caret as int, direction, boundary),
        r.start <= r.end <= utf8_len(s@),
        is_utf8_boundary(s@, r.start as int),
        is_utf8_boundary(s@, r.end as int),
{
    let len = byte_len(s);
    let c = if caret < len {
        caret
    } else {
        len
    };
    let o = offset_from_caret(s, caret, direction, boundary);
    if o < c {
        o..c
    } else {
        c..o
    }
}

/// Moving one word back from `b > 0` lands on the start of a word: of the last word the
/// segmentation finds in the text before `b` when that one does not start the text,
/// else of a word of that text with its trailing whitespace left out; or on 0 when
/// there is no such word. It never lands on the text's or a word's end otherwise.
pub proof fn lemma_previous_word_lands_on_word_start(s: Seq<char>, b: int)
    requires
        0 < b,
    ensures
        ({
            let before = byte_slice(s, 0, clamp_to_len(s, b));
            let w = word_spans(before);
            let trimmed = before.take(trim_end_count(before) as int);
            let wt = word_spans(trimmed);
            let r = previous_word(s, b) as int;
            &&& (r == 0 || (exists|i: int| 0 <= i < w.len() && #[trigger] w[i].0 == r)
                || (exists|i: int| 0 <= i < wt.len() && #[trigger] wt[i].0 == r))
            &&& (w.len() > 0 && w.last().0 > 0 ==> r == w.last().0)
            &&& (w.len() == 0 || w.last().0 == 0 ==> (r == 0 || (wt.len() > 0 && r
                == wt.last().0)))
            &&& (trimmed.len() == 0 && (w.len() == 0 || w.last().0 == 0) ==> r == 0)
        }),
{
    let before = byte_slice(s, 0, clamp_to_len(s, b));
    let w = word_spans(before);
    let trimmed = before.take(trim_end_count(before) as int);
    let wt = word_spans(trimmed);
    if w.len() > 0 {
        assert(w[w.len() - 1] == w.last());
    }
    if wt.len() > 0 {
        assert(wt[wt.len() - 1] == wt.last());
    }
}

} // verus!
