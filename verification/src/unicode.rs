//! Conversions between UTF-8 byte offsets and UTF-16 code-unit offsets.
use vstd::prelude::*;
use std::ops::Range;
use crate::text::{
    byte_len, byte_offset, char_index, char_len_utf16, char_len_utf8, char_width_utf16,
    char_width_utf8, chars_of, is_utf8_boundary, lemma_char_width, lemma_index_of_boundary,
    lemma_offset_ends, lemma_offset_le_len, lemma_offset_skip, lemma_offset_step,
    lemma_utf8_len_ge, utf16_len, utf16_offset, utf8_len,
};

verus! {

/// How many characters of `s` start before byte offset `pos`.
pub open spec fn chars_before_byte(s: Seq<char>, pos: int) -> nat
    decreases s.len(),
{
    if s.len() == 0 || pos <= 0 {
        0
    } else {
        1 + chars_before_byte(s.drop_first(), pos - char_width_utf8(s[0]))
    }
}

/// How many characters of `s` start before UTF-16 offset `pos`.
pub open spec fn chars_before_utf16(s: Seq<char>, pos: int) -> nat
    decreases s.len(),
{
    if s.len() == 0 || pos <= 0 {
        0
    } else {
        1 + chars_before_utf16(s.drop_first(), pos - char_width_utf16(s[0]))
    }
}

/// The UTF-16 offset that byte offset `pos` maps to: the UTF-16 offset of the first
/// character boundary at or after `pos` (or of the end of the text).
pub open spec fn utf8_to_utf16(s: Seq<char>, pos: int) -> nat {
    utf16_offset(s, chars_before_byte(s, pos) as int)
}

/// The byte offset that UTF-16 offset `pos` maps to: the byte offset of the first
/// character boundary at or after `pos` (or of the end of the text).
pub open spec fn utf16_to_utf8(s: Seq<char>, pos: int) -> nat {
    byte_offset(s, chars_before_utf16(s, pos) as int)
}

/// The characters before an offset are at most all the characters.
pub proof fn lemma_chars_before_le(s: Seq<char>, pos: int)
    ensures
        chars_before_byte(s, pos) <= s.len(),
        chars_before_utf16(s, pos) <= s.len(),
    decreases s.len(),
{
    if s.len() > 0 {
        lemma_chars_before_le(s.drop_first(), pos - char_width_utf8(s[0]));
        lemma_chars_before_le(s.drop_first(), pos - char_width_utf16(s[0]));
    }
}

/// Unfolding one step from index `k`.
proof fn lemma_chars_before_skip(s: Seq<char>, k: int, pos8: int, pos16: int)
    requires
        0 <= k < s.len(),
    ensures
        pos8 > 0 ==> chars_before_byte(s.skip(k), pos8) == 1 + chars_before_byte(
            s.skip(k + 1),
            pos8 - char_width_utf8(s[k]),
        ),
        pos16 > 0 ==> chars_before_utf16(s.skip(k), pos16) == 1 + chars_before_utf16(
            s.skip(k + 1),
            pos16 - char_width_utf16(s[k]),
        ),
{
    assert(s.skip(k).drop_first() =~= s.skip(k + 1));
    assert(s.skip(k)[0] == s[k]);
}

/// Every character index is recovered from its own byte / UTF-16 offset.
pub proof fn lemma_chars_before_offset(s: Seq<char>, k: int)
    requires
        0 <= k <= s.len(),
    ensures
        chars_before_byte(s, byte_offset(s, k) as int) == k,
        chars_before_utf16(s, utf16_offset(s, k) as int) == k,
    decreases k,
{
    if k > 0 {
        lemma_offset_skip(s, 1, k - 1);
        lemma_offset_step(s, 0);
        lemma_offset_ends(s);
        lemma_char_width(s[0]);
        lemma_offset_le_len(s.skip(1), k - 1);
        assert(s.skip(1) =~= s.drop_first());
        lemma_chars_before_offset(s.drop_first(), k - 1);
    } else {
        lemma_offset_ends(s);
    }
}

/// Converting a character boundary to UTF-16 and back gives the same byte offset.
pub proof fn lemma_utf8_utf16_roundtrip(s: Seq<char>, b: int)
    requires
        is_utf8_boundary(s, b),
    ensures
        utf16_to_utf8(s, utf8_to_utf16(s, b) as int) == b,
        utf8_to_utf16(s, b) == utf16_offset(s, char_index(s, b)),
{
    lemma_index_of_boundary(s, b);
    let k = char_index(s, b);
    lemma_chars_before_offset(s, k);
}

/// Converting a UTF-16 boundary to UTF-8 and back gives the same UTF-16 offset.
pub proof fn lemma_utf16_utf8_roundtrip(s: Seq<char>, k: int)
    requires
        0 <= k <= s.len(),
    ensures
        utf8_to_utf16(s, utf16_to_utf8(s, utf16_offset(s, k) as int) as int) == utf16_offset(s, k),
        utf16_to_utf8(s, utf16_offset(s, k) as int) == byte_offset(s, k),
{
    lemma_chars_before_offset(s, k);
}

/// At or past the end of the text every character is counted.
pub proof fn lemma_chars_before_past_end(s: Seq<char>, pos: int)
    ensures
        pos >= utf8_len(s) ==> chars_before_byte(s, pos) == s.len(),
        pos >= utf16_len(s) ==> chars_before_utf16(s, pos) == s.len(),
    decreases s.len(),
{
    if s.len() > 0 {
        lemma_char_width(s[0]);
        lemma_chars_before_past_end(s.drop_first(), pos - char_width_utf8(s[0]));
        lemma_chars_before_past_end(s.drop_first(), pos - char_width_utf16(s[0]));
    }
}

/// Each UTF-16 offset maps to a character boundary, monotonically.
pub proof fn lemma_utf16_to_utf8_boundary(s: Seq<char>, p: int, q: int)
    requires
        p <= q,
    ensures
        is_utf8_boundary(s, utf16_to_utf8(s, p) as int),
        is_utf8_boundary(s, utf16_to_utf8(s, q) as int),
        utf16_to_utf8(s, p) <= utf16_to_utf8(s, q),
        utf16_to_utf8(s, q) <= utf8_len(s),
{
    lemma_chars_before_le(s, p);
    lemma_chars_before_le(s, q);
    lemma_chars_before_mono(s, p, q);
    crate::text::lemma_boundary_of_index(s, chars_before_utf16(s, p) as int);
    crate::text::lemma_boundary_of_index(s, chars_before_utf16(s, q) as int);
    crate::text::lemma_offset_mono(s, chars_before_utf16(s, p) as int, chars_before_utf16(s, q) as int);
    lemma_offset_le_len(s, chars_before_utf16(s, q) as int);
}

proof fn lemma_chars_before_mono(s: Seq<char>, p: int, q: int)
    requires
        p <= q,
    ensures
        chars_before_utf16(s, p) <= chars_before_utf16(s, q),
    decreases s.len(),
{
    if s.len() > 0 && p > 0 {
        lemma_chars_before_mono(s.drop_first(), p - char_width_utf16(s[0]), q - char_width_utf16(s[0]));
    }
}

/// The UTF-16 length of `s`, counted character by character.
pub fn count_utf16_len(s: &str) -> (r: usize)
    ensures
        r == utf16_len(s@),
{
    let blen = byte_len(s);
    let chars = chars_of(s);
    let n = chars.len();
    let mut k: usize = 0;
    let mut acc: usize = 0;
    proof {
        lemma_offset_ends(s@);
        lemma_offset_le_len(s@, s@.len() as int);
        lemma_utf8_len_ge(s@);
    }
    while k < n
        invariant
            chars@ == s@,
            n == s@.len(),
            k <= n,
            acc == utf16_offset(s@, k as int),
            blen == utf8_len(s@),
            utf16_len(s@) <= utf8_len(s@),
        decreases n - k,
    {
        proof {
            lemma_offset_step(s@, k as int);
            lemma_offset_le_len(s@, k as int + 1);
        }
        acc = acc + char_len_utf16(chars[k]);
        k = k + 1;
    }
    proof {
        lemma_offset_ends(s@);
    }
    acc
}

/// Maps a byte offset to a UTF-16 offset by walking the characters.
pub fn offset_utf8_to_utf16(s: &str, pos: usize) -> (r: usize)
    ensures
        r == utf8_to_utf16(s@, pos as int),
{
    let blen = byte_len(s);
    let chars = chars_of(s);
    let n = chars.len();
    let mut k: usize = 0;
    let mut counter_utf8: usize = 0;
    let mut pos_utf16: usize = 0;
    proof {
        lemma_offset_ends(s@);
        assert(s@.skip(0) =~= s@);
    }
    while k < n && counter_utf8 < pos
        invariant
            chars@ == s@,
            n == s@.len(),
            k <= n,
            blen == utf8_len(s@),
            counter_utf8 == byte_offset(s@, k as int),
            pos_utf16 == utf16_offset(s@, k as int),
            chars_before_byte(s@, pos as int) == k + chars_before_byte(
                s@.skip(k as int),
                pos - counter_utf8,
            ),
        decreases n - k,
    {
        proof {
            lemma_offset_step(s@, k as int);
            lemma_offset_le_len(s@, k as int + 1);
            lemma_chars_before_skip(s@, k as int, pos - counter_utf8, 0);
            lemma_utf8_len_ge(s@.take(k as int + 1));
        }
        counter_utf8 = counter_utf8 + char_len_utf8(chars[k]);
        pos_utf16 = pos_utf16 + char_len_utf16(chars[k]);
        k = k + 1;
    }
    pos_utf16
}

/// Maps a UTF-16 offset to a byte offset by walking the characters.
pub fn offset_utf16_to_utf8(s: &str, pos: usize) -> (r: usize)
    ensures
        r == utf16_to_utf8(s@, pos as int),
{
    let blen = byte_len(s);
    let chars = chars_of(s);
    let n = chars.len();
    let mut k: usize = 0;
    let mut counter_utf16: usize = 0;
    let mut pos_utf8: usize = 0;
    proof {
        lemma_offset_ends(s@);
        assert(s@.skip(0) =~= s@);
    }
    while k < n && counter_utf16 < pos
        invariant
            chars@ == s@,
            n == s@.len(),
            k <= n,
            blen == utf8_len(s@),
            pos_utf8 == byte_offset(s@, k as int),
            counter_utf16 == utf16_offset(s@, k as int),
            chars_before_utf16(s@, pos as int) == k + chars_before_utf16(
                s@.skip(k as int),
                pos - counter_utf16,
            ),
        decreases n - k,
    {
        proof {
            lemma_offset_step(s@, k as int);
            lemma_offset_le_len(s@, k as int + 1);
            lemma_chars_before_skip(s@, k as int, 0, pos - counter_utf16);
            lemma_utf8_len_ge(s@.take(k as int + 1));
        }
        counter_utf16 = counter_utf16 + char_len_utf16(chars[k]);
        pos_utf8 = pos_utf8 + char_len_utf8(chars[k]);
        k = k + 1;
    }
    pos_utf8
}

/// A text that can be addressed both by UTF-8 byte offsets and by UTF-16 offsets
/// (the latter being what platform input methods use).
pub trait UnicodeString {
    /// The characters of the text.
    spec fn text(&self) -> Seq<char>;

    /// The UTF-16 length the implementation has remembered, if any.
    spec fn utf16_len_hint(&self) -> Option<usize>;

    /// The remembered UTF-16 length, when there is one.
    fn len_utf16_cached(&self) -> (r: Option<usize>)
        ensures
            r == self.utf16_len_hint(),
    ;

    /// Returns a reference to the utf8 string.
    fn content_utf8(&self) -> (r: &str)
        ensures
            r@ == self.text(),
    ;

    /// Returns the UTF-16 length of the content (the remembered one when there is one).
    fn len_utf16(&self) -> (r: usize)
        ensures
            r == (match self.utf16_len_hint() {
                Some(n) => n as nat,
                None => utf16_len(self.text()),
            }),
    ;

    /// Forgets any remembered UTF-16 length.
    fn clear_utf16_cache(&mut self)
        ensures
            final(self).text() == old(self).text(),
            final(self).utf16_len_hint() is None || final(self).utf16_len_hint() == old(
                self,
            ).utf16_len_hint(),
    {
    }

    /// Maps a byte offset to the UTF-16 offset of the first character boundary at or after it.
    fn utf_offset_8to16(&self, pos_uft8: usize) -> (r: usize)
        requires
            hint_matches(self.utf16_len_hint(), self.text()),
        ensures
            r == utf8_to_utf16(self.text(), pos_uft8 as int),
    {
        // Fast path: if offset is 0, return 0
        if pos_uft8 == 0 {
            return 0;
        }
        let s = self.content_utf8();
        // Fast path: if offset is at or past end, return the length
        if pos_uft8 >= byte_len(s) {
            proof {
                lemma_chars_before_past_end(s@, pos_uft8 as int);
                lemma_offset_ends(s@);
            }
            return self.len_utf16();
        }
        offset_utf8_to_utf16(s, pos_uft8)
    }

    /// Maps a UTF-16 offset to the byte offset of the first character boundary at or after it.
    fn utf_offset_16to8(&self, pos_utf16: usize) -> (r: usize)
        requires
            hint_matches(self.utf16_len_hint(), self.text()),
        ensures
            r == utf16_to_utf8(self.text(), pos_utf16 as int),
    {
        // Fast path: if offset is 0, return 0
        if pos_utf16 == 0 {
            return 0;
        }
        let s = self.content_utf8();
        let len = byte_len(s);
        // Fast path: if we have cached length and offset is at or past end
        if let Some(utf16_len) = self.len_utf16_cached() {
            if pos_utf16 >= utf16_len {
                proof {
                    lemma_chars_before_past_end(s@, pos_utf16 as int);
                    lemma_offset_ends(s@);
                }
                return len;
            }
        }
        let pos_utf8 = offset_utf16_to_utf8(s, pos_utf16);
        proof {
            lemma_chars_before_le(s@, pos_utf16 as int);
            lemma_offset_le_len(s@, chars_before_utf16(s@, pos_utf16 as int) as int);
        }
        if pos_utf8 < len {
            pos_utf8
        } else {
            len
        }
    }

    /// Maps both ends of a byte range to UTF-16 offsets.
    fn utf_range_8to16(&self, range_utf8: &Range<usize>) -> (r: Range<usize>)
        requires
            hint_matches(self.utf16_len_hint(), self.text()),
        ensures
            r.start == utf8_to_utf16(self.text(), range_utf8.start as int),
            r.end == utf8_to_utf16(self.text(), range_utf8.end as int),
    {
        self.utf_offset_8to16(range_utf8.start)..self.utf_offset_8to16(range_utf8.end)
    }

    /// Maps both ends of a UTF-16 range to byte offsets.
    fn utf_range_16to8(&self, range_utf16: &Range<usize>) -> (r: Range<usize>)
        requires
            hint_matches(self.utf16_len_hint(), self.text()),
        ensures
            r.start == utf16_to_utf8(self.text(), range_utf16.start as int),
            r.end == utf16_to_utf8(self.text(), range_utf16.end as int),
    {
        self.utf_offset_16to8(range_utf16.start)..self.utf_offset_16to8(range_utf16.end)
    }
}

impl UnicodeString for String {
    open spec fn text(&self) -> Seq<char> {
        self@
    }

    open spec fn utf16_len_hint(&self) -> Option<usize> {
        None
    }

    fn len_utf16_cached(&self) -> (r: Option<usize>) {
        None
    }

    fn content_utf8(&self) -> (r: &str) {
        self.as_str()
    }

    fn len_utf16(&self) -> (r: usize) {
        count_utf16_len(self.as_str())
    }
}

/// A remembered UTF-16 length, if any, is the true one.
pub open spec fn hint_matches(hint: Option<usize>, text: Seq<char>) -> bool {
    hint matches Some(n) ==> n == utf16_len(text)
}

} // verus!
