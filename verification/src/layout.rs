//! Where lines of text lie: the segments a layout is cut into, and which of them a
//! range touches.
use vstd::prelude::*;
use std::ops::Range;
use crate::text::{
    byte_len, byte_offset, char_index, char_len_utf8, char_width_utf8, chars_of, is_utf8_boundary,
    lemma_boundary_of_index, lemma_offset_ends, lemma_offset_le_len, lemma_offset_step,
    lemma_offset_strict, utf8_len,
};
use crate::boundaries::{lemma_newline_width, line_end, next_newline_from};

verus! {

/// Whether a line covering the bytes `text_range` is touched by `selected_range`: an
/// empty line when the selection covers its position, another line when the two ranges
/// overlap.
pub fn line_intersects_range(text_range: &Range<usize>, selected_range: &Range<usize>) -> (r: bool)
    ensures
        r == if text_range.start >= text_range.end {
            selected_range.start <= text_range.start && selected_range.end > text_range.start
        } else {
            selected_range.end > text_range.start && selected_range.start < text_range.end
        },
{
    if text_range.start >= text_range.end {
        selected_range.start <= text_range.start && selected_range.end > text_range.start
    } else {
        selected_range.end > text_range.start && selected_range.start < text_range.end
    }
}

/// A segment of text that is a single logical line but can take up several rows when it
/// is wrapped.
pub struct TextLineSegment {
    /// The byte range of the content that this segment covers.
    pub text_range: Range<usize>,
    /// How many times the shaped line wraps, when the segment has been shaped.
    pub wrap_boundaries: Option<usize>,
    /// The row of the segment's first line, counted from the top of the text.
    pub pos_y: usize,
}

impl TextLineSegment {
    /// The number of rows this segment takes up: one more than its wrap boundaries.
    pub fn row_count(&self) -> (r: usize)
        requires
            self.wrap_boundaries matches Some(w) ==> w < usize::MAX,
        ensures
            r == match self.wrap_boundaries {
                Some(w) => w + 1,
                None => 1,
            },
    {
        match self.wrap_boundaries {
            Some(w) => w + 1,
            None => 1,
        }
    }

    /// Whether the byte position `pos` lies in this segment: an empty segment holds only
    /// its own position, another one its bytes, its end included when `include_end`.
    pub fn contains_position(&self, pos: usize, include_end: bool) -> (r: bool)
        ensures
            r == if self.text_range.start >= self.text_range.end {
                pos == self.text_range.start
            } else if include_end {
                self.text_range.start <= pos <= self.text_range.end
            } else {
                self.text_range.start <= pos < self.text_range.end
            },
    {
        if self.text_range.start >= self.text_range.end {
            return pos == self.text_range.start;
        }
        if include_end {
            pos >= self.text_range.start && pos <= self.text_range.end
        } else {
            pos >= self.text_range.start && pos < self.text_range.end
        }
    }
}

/// The bytes the `i`-th of `lines` covers: its own bytes and, where another line
/// follows, the newline between them.
pub open spec fn covered_len(lines: Seq<(usize, usize)>, i: int) -> int {
    if i + 1 < lines.len() {
        lines[i].0 + 1
    } else {
        lines[i].0 as int
    }
}

/// Where the `i`-th of `lines` (each a byte length and a count of wrap boundaries)
/// starts: the sum of the bytes the lines before it cover.
pub open spec fn segment_start(lines: Seq<(usize, usize)>, i: int) -> int
    decreases i,
{
    if i <= 0 {
        0
    } else {
        segment_start(lines, i - 1) + covered_len(lines, i - 1)
    }
}

/// The row the `i`-th of `lines` starts on: the sum of the rows the lines before it take.
pub open spec fn segment_row(lines: Seq<(usize, usize)>, i: int) -> int
    decreases i,
{
    if i <= 0 {
        0
    } else {
        segment_row(lines, i - 1) + lines[i - 1].1 + 1
    }
}

/// The smaller of two integers.
pub open spec fn at_most(x: int, bound: int) -> int {
    if x <= bound {
        x
    } else {
        bound
    }
}

proof fn lemma_segment_sums_mono(lines: Seq<(usize, usize)>, i: int, j: int)
    requires
        0 <= i <= j,
    ensures
        segment_start(lines, i) <= segment_start(lines, j),
        segment_row(lines, i) <= segment_row(lines, j),
    decreases j - i,
{
    if i < j {
        lemma_segment_sums_mono(lines, i, j - 1);
    }
}

/// Cuts a shaped text of `text_len` bytes into segments, one per shaped line given as
/// its byte length and its count of wrap boundaries: each segment covers its line and,
/// where another line follows, the newline between them; it starts on the row after the
/// rows of the segments before it. No segment reaches past the end of the text.
pub fn build_line_segments(lines: &[(usize, usize)], text_len: usize) -> (r: Vec<TextLineSegment>)
    requires
        segment_start(lines@, lines@.len() as int) <= usize::MAX,
        segment_row(lines@, lines@.len() as int) <= usize::MAX,
    ensures
        r@.len() == lines@.len(),
        forall|i: int|
            0 <= i < r@.len() ==> {
                &&& (#[trigger] r@[i]).text_range.start == at_most(
                    segment_start(lines@, i),
                    text_len as int,
                )
                &&& r@[i].text_range.end == at_most(segment_start(lines@, i + 1), text_len as int)
                &&& r@[i].wrap_boundaries == Some(lines@[i].1)
                &&& r@[i].pos_y == segment_row(lines@, i)
            },
{
    let mut segments: Vec<TextLineSegment> = Vec::new();
    let mut pos_y: usize = 0;
    let mut line_start: usize = 0;
    let mut i: usize = 0;
    while i < lines.len()
        invariant
            i <= lines@.len(),
            segments@.len() == i,
            line_start == segment_start(lines@, i as int),
            pos_y == segment_row(lines@, i as int),
            segment_start(lines@, lines@.len() as int) <= usize::MAX,
            segment_row(lines@, lines@.len() as int) <= usize::MAX,
            forall|j: int|
                0 <= j < i ==> {
                    &&& (#[trigger] segments@[j]).text_range.start == at_most(
                        segment_start(lines@, j),
                        text_len as int,
                    )
                    &&& segments@[j].text_range.end == at_most(
                        segment_start(lines@, j + 1),
                        text_len as int,
                    )
                    &&& segments@[j].wrap_boundaries == Some(lines@[j].1)
                    &&& segments@[j].pos_y == segment_row(lines@, j)
                },
        decreases lines@.len() - i,
    {
        proof {
            lemma_segment_sums_mono(lines@, i + 1, lines@.len() as int);
        }
        let (len, wraps) = lines[i];
        // the layout omits the newline between this line and the next one
        let line_len = if i + 1 < lines.len() {
            len + 1
        } else {
            len
        };
        let line_end = line_start + line_len;
        let start = if line_start <= text_len {
            line_start
        } else {
            text_len
        };
        let end = if line_end <= text_len {
            line_end
        } else {
            text_len
        };
        let segment = TextLineSegment { text_range: start..end, wrap_boundaries: Some(wraps), pos_y };
        line_start = line_end;
        pos_y = pos_y + wraps + 1;
        segments.push(segment);
        i = i + 1;
    }
    segments
}

proof fn lemma_next_newline_is(s: Seq<char>, i: int, k: int)
    requires
        0 <= i <= k <= s.len(),
        forall|j: int| i <= j < k ==> s[j] != '\n',
        k == s.len() || s[k] == '\n',
    ensures
        next_newline_from(s, i) == k,
    decreases k - i,
{
    if i < k {
        lemma_next_newline_is(s, i + 1, k);
    }
}

/// The byte ranges of the logical lines of `content`, the text between newlines (the
/// newlines excluded): the first starts at 0, each ends where its line ends, the next
/// starts just after that newline, and the last ends at the end of the text.
pub fn logical_line_ranges(content: &str) -> (r: Vec<Range<usize>>)
    ensures
        r@.len() >= 1,
        r@[0].start == 0,
        r@.last().end == utf8_len(content@),
        forall|i: int|
            0 <= i < r@.len() ==> {
                &&& is_utf8_boundary(content@, (#[trigger] r@[i]).start as int)
                &&& r@[i].end == line_end(content@, r@[i].start as int)
            },
        forall|i: int|
            0 <= i < r@.len() - 1 ==> {
                &&& (#[trigger] r@[i]).end < utf8_len(content@)
                &&& r@[i + 1].start == r@[i].end + 1
            },
{
    let ghost t = content@;
    let chars = chars_of(content);
    let n = chars.len();
    let len = byte_len(content);
    let mut ranges: Vec<Range<usize>> = Vec::new();
    let mut start: usize = 0;
    let ghost mut start_k: int = 0;
    let mut off: usize = 0;
    let mut k: usize = 0;
    proof {
        lemma_offset_ends(t);
        lemma_newline_width();
    }
    while k < n
        invariant
            chars@ == t,
            n == t.len(),
            len == utf8_len(t),
            k <= n,
            off == byte_offset(t, k as int),
            0 <= start_k <= k,
            start == byte_offset(t, start_k),
            char_width_utf8('\n') == 1,
            forall|j: int| start_k <= j < k ==> t[j] != '\n',
            ranges@.len() == 0 ==> start == 0,
            ranges@.len() > 0 ==> ranges@[0].start == 0,
            ranges@.len() > 0 ==> ranges@.last().end + 1 == start,
            forall|i: int|
                0 <= i < ranges@.len() ==> {
                    &&& is_utf8_boundary(t, (#[trigger] ranges@[i]).start as int)
                    &&& ranges@[i].end == line_end(t, ranges@[i].start as int)
                    &&& ranges@[i].end < len
                },
            forall|i: int|
                0 <= i < ranges@.len() - 1 ==> (#[trigger] ranges@[i + 1]).start == ranges@[i].end
                    + 1,
        decreases n - k,
    {
        proof {
            lemma_offset_step(t, k as int);
            lemma_offset_le_len(t, k as int + 1);
        }
        if chars[k] == '\n' {
            proof {
                lemma_next_newline_is(t, start_k, k as int);
                lemma_boundary_of_index(t, start_k);
                if start_k < k {
                    lemma_offset_strict(t, start_k, k as int);
                }
                lemma_offset_strict(t, k as int, n as int);
                assert(line_end(t, start as int) == off);
            }
            let ghost before = ranges@;
            ranges.push(start..off);
            proof {
                assert forall|i: int| 0 <= i < ranges@.len() - 1 implies (#[trigger] ranges@[i
                    + 1]).start == ranges@[i].end + 1 by {
                    if i < before.len() - 1 {
                        assert(ranges@[i] == before[i]);
                        assert(ranges@[i + 1] == before[i + 1]);
                    }
                }
            }
            start = off + 1;
            proof {
                start_k = k + 1;
            }
        }
        off = off + char_len_utf8(chars[k]);
        k = k + 1;
    }
    proof {
        lemma_next_newline_is(t, start_k, n as int);
        lemma_boundary_of_index(t, start_k);
        assert(line_end(t, start as int) == len);
    }
    let ghost before = ranges@;
    ranges.push(start..len);
    proof {
        assert forall|i: int| 0 <= i < ranges@.len() - 1 implies (#[trigger] ranges@[i
            + 1]).start == ranges@[i].end + 1 by {
            if i < before.len() - 1 {
                assert(ranges@[i] == before[i]);
                assert(ranges@[i + 1] == before[i + 1]);
            }
        }
    }
    ranges
}

} // verus!
