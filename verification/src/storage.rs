//! Text storage backing an input.
use vstd::prelude::*;
use std::ops::Range;
use crate::text::{
    byte_len, byte_slice, is_utf8_boundary, lemma_slice, lemma_splice, splice, str_slice,
    string_replace_range, utf16_len, utf8_len,
};
use crate::unicode::{UnicodeString, count_utf16_len, hint_matches};

verus! {

/// Storage of the text of an input, addressable by byte and UTF-16 offsets.
pub trait InputStorage: UnicodeString {
    /// Length of the text in bytes.
    fn len(&self) -> (r: usize)
        ensures
            r == utf8_len(self.text()),
    ;

    /// The text.
    fn as_str(&self) -> (r: &str)
        ensures
            r@ == self.text(),
    ;

    /// Replaces the whole text, forgetting any remembered UTF-16 length.
    fn emplace(&mut self, s: &str)
        ensures
            final(self).text() == s@,
            final(self).utf16_len_hint() is None,
    ;

    /// Adjusts a remembered UTF-16 length for an upcoming replacement of the bytes
    /// `range_utf8` by `text`; the text itself is left as it is.
    fn update_utf8(&mut self, range_utf8: Range<usize>, text: &str)
        requires
            range_utf8.start <= range_utf8.end,
            is_utf8_boundary(old(self).text(), range_utf8.start as int),
            is_utf8_boundary(old(self).text(), range_utf8.end as int),
            hint_matches(old(self).utf16_len_hint(), old(self).text()),
            utf16_len(
                splice(old(self).text(), range_utf8.start as int, range_utf8.end as int, text@),
            ) <= usize::MAX,
        ensures
            final(self).text() == old(self).text(),
            final(self).utf16_len_hint() == (match old(self).utf16_len_hint() {
                Some(_) => Some(
                    utf16_len(
                        splice(
                            old(self).text(),
                            range_utf8.start as int,
                            range_utf8.end as int,
                            text@,
                        ),
                    ) as usize,
                ),
                None => None,
            }),
    ;

    /// Replaces the bytes `range` by `text`; a remembered UTF-16 length is left as it is.
    fn replace_range(&mut self, range: Range<usize>, text: &str)
        requires
            range.start <= range.end,
            is_utf8_boundary(old(self).text(), range.start as int),
            is_utf8_boundary(old(self).text(), range.end as int),
        ensures
            final(self).text() == splice(
                old(self).text(),
                range.start as int,
                range.end as int,
                text@,
            ),
            final(self).utf16_len_hint() == old(self).utf16_len_hint(),
    ;
}

/// A light wrapper around std String as a storage medium for `InputState`.
pub struct Standard {
    inner: String,
    /// Cached UTF-16 length of content for faster IME operations. Lazily computed when queried.
    cached_utf16_len: Option<usize>,
}

impl Standard {
    /// The stored text.
    pub closed spec fn spec_text(&self) -> Seq<char> {
        self.inner@
    }

    /// The remembered UTF-16 length.
    pub closed spec fn spec_cache(&self) -> Option<usize> {
        self.cached_utf16_len
    }

    /// A storage holding `s`, with nothing remembered.
    pub fn from_str(s: &str) -> (r: Standard)
        ensures
            r.text() == s@,
            r.utf16_len_hint() is None,
    {
        Standard { inner: s.to_owned(), cached_utf16_len: None }
    }
}

impl Default for Standard {
    fn default() -> (r: Self)
        ensures
            r.text() == Seq::<char>::empty(),
            r.utf16_len_hint() is None,
    {
        Standard { inner: String::new(), cached_utf16_len: None }
    }
}

impl UnicodeString for Standard {
    open spec fn text(&self) -> Seq<char> {
        self.spec_text()
    }

    open spec fn utf16_len_hint(&self) -> Option<usize> {
        self.spec_cache()
    }

    fn len_utf16_cached(&self) -> (r: Option<usize>) {
        self.cached_utf16_len
    }

    fn content_utf8(&self) -> (r: &str) {
        self.inner.as_str()
    }

    fn len_utf16(&self) -> (r: usize) {
        if let Some(len) = self.cached_utf16_len {
            return len;
        }
        count_utf16_len(self.inner.as_str())
    }

    fn clear_utf16_cache(&mut self)
        ensures
            final(self).utf16_len_hint() is None,
    {
        self.cached_utf16_len = None;
    }
}

impl InputStorage for Standard {
    fn len(&self) -> (r: usize) {
        byte_len(self.inner.as_str())
    }

    fn as_str(&self) -> (r: &str) {
        self.inner.as_str()
    }

    fn emplace(&mut self, s: &str) {
        self.inner = s.to_owned();
        self.cached_utf16_len = None;
    }

    fn update_utf8(&mut self, range_utf8: Range<usize>, text: &str) {
        if let Some(cached_len) = self.cached_utf16_len {
            let removed = str_slice(self.inner.as_str(), range_utf8.start, range_utf8.end);
            let removed_utf16_len: usize = count_utf16_len(removed);
            let added_utf16_len: usize = count_utf16_len(text);
            proof {
                lemma_slice(self.inner@, range_utf8.start as int, range_utf8.end as int);
                lemma_splice(self.inner@, range_utf8.start as int, range_utf8.end as int, text@);
            }
            self.cached_utf16_len = Some(cached_len - removed_utf16_len + added_utf16_len);
        }
    }

    fn replace_range(&mut self, range: Range<usize>, text: &str) {
        string_replace_range(&mut self.inner, range.start, range.end, text);
    }
}

/// Remembering the UTF-16 length for a replacement and then performing it keeps the
/// remembered length correct.
pub proof fn lemma_update_then_replace_keeps_cache(
    s: Seq<char>,
    hint: Option<usize>,
    start: int,
    end: int,
    t: Seq<char>,
)
    requires
        start <= end,
        is_utf8_boundary(s, start),
        is_utf8_boundary(s, end),
        hint_matches(hint, s),
        utf16_len(splice(s, start, end, t)) <= usize::MAX,
    ensures
        hint_matches(
            match hint {
                Some(_) => Some(utf16_len(splice(s, start, end, t)) as usize),
                None => None,
            },
            splice(s, start, end, t),
        ),
{
}

} // verus!
