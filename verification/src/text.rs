//! The mathematical model of text used throughout the crate.
//!
//! A string is viewed as its sequence of `char`s. Byte offsets into its UTF-8
//! encoding are described by `byte_offset`, UTF-16 offsets by `utf16_offset`.
use vstd::prelude::*;

verus! {

/// Number of bytes a character occupies in UTF-8.
pub open spec fn char_width_utf8(c: char) -> nat {
    if (c as u32) <= 0x7F {
        1
    } else if (c as u32) <= 0x7FF {
        2
    } else if (c as u32) <= 0xFFFF {
        3
    } else {
        4
    }
}

/// Number of code units a character occupies in UTF-16.
pub open spec fn char_width_utf16(c: char) -> nat {
    if (c as u32) <= 0xFFFF {
        1
    } else {
        2
    }
}

/// Length in bytes of the UTF-8 encoding of `s`.
pub open spec fn utf8_len(s: Seq<char>) -> nat
    decreases s.len(),
{
    if s.len() == 0 {
        0
    } else {
        char_width_utf8(s[0]) + utf8_len(s.drop_first())
    }
}

/// Length in code units of the UTF-16 encoding of `s`.
pub open spec fn utf16_len(s: Seq<char>) -> nat
    decreases s.len(),
{
    if s.len() == 0 {
        0
    } else {
        char_width_utf16(s[0]) + utf16_len(s.drop_first())
    }
}

/// Byte offset at which the character with index `k` starts.
pub open spec fn byte_offset(s: Seq<char>, k: int) -> nat {
    utf8_len(s.take(k))
}

/// UTF-16 offset at which the character with index `k` starts.
pub open spec fn utf16_offset(s: Seq<char>, k: int) -> nat {
    utf16_len(s.take(k))
}

/// `b` is a byte offset that falls between two characters of `s` (or at either end).
pub open spec fn is_utf8_boundary(s: Seq<char>, b: int) -> bool {
    exists|k: int| 0 <= k <= s.len() && #[trigger] byte_offset(s, k) == b
}

/// The index of the character that starts at byte offset `b`.
pub open spec fn char_index(s: Seq<char>, b: int) -> int {
    choose|k: int| 0 <= k <= s.len() && #[trigger] byte_offset(s, k) == b
}

/// `s` with the bytes `[start, end)` replaced by `t` (both ends being boundaries).
pub open spec fn splice(s: Seq<char>, start: int, end: int, t: Seq<char>) -> Seq<char> {
    s.take(char_index(s, start)) + t + s.skip(char_index(s, end))
}

/// The characters of `s` between the byte offsets `start` and `end`.
pub open spec fn byte_slice(s: Seq<char>, start: int, end: int) -> Seq<char> {
    s.subrange(char_index(s, start), char_index(s, end))
}

/// A character takes one to four bytes in UTF-8 and one or two code units in UTF-16.
pub proof fn lemma_char_width(c: char)
    ensures
        1 <= char_width_utf8(c) <= 4,
        1 <= char_width_utf16(c) <= 2,
{
}

/// Encoded lengths add up over concatenation.
pub proof fn lemma_utf8_len_concat(a: Seq<char>, b: Seq<char>)
    ensures
        utf8_len(a + b) == utf8_len(a) + utf8_len(b),
        utf16_len(a + b) == utf16_len(a) + utf16_len(b),
    decreases a.len(),
{
    if a.len() == 0 {
        assert(a + b =~= b);
    } else {
        assert((a + b).drop_first() =~= a.drop_first() + b);
        lemma_utf8_len_concat(a.drop_first(), b);
    }
}

/// The encoded length of a single character is its width.
pub proof fn lemma_utf8_len_single(c: char)
    ensures
        utf8_len(seq![c]) == char_width_utf8(c),
        utf16_len(seq![c]) == char_width_utf16(c),
{
    assert(seq![c].drop_first() =~= Seq::<char>::empty());
    assert(utf8_len(Seq::<char>::empty()) == 0);
    assert(utf16_len(Seq::<char>::empty()) == 0);
}

/// Every character takes at least one byte and one code unit, and no more code units
/// than bytes.
pub proof fn lemma_utf8_len_ge(s: Seq<char>)
    ensures
        utf8_len(s) >= s.len(),
        utf16_len(s) >= s.len(),
        utf8_len(s) >= utf16_len(s),
    decreases s.len(),
{
    if s.len() > 0 {
        lemma_utf8_len_ge(s.drop_first());
    }
}

/// Each character adds its width to the running offsets.
pub proof fn lemma_offset_step(s: Seq<char>, k: int)
    requires
        0 <= k < s.len(),
    ensures
        byte_offset(s, k + 1) == byte_offset(s, k) + char_width_utf8(s[k]),
        utf16_offset(s, k + 1) == utf16_offset(s, k) + char_width_utf16(s[k]),
{
    assert(s.take(k + 1) =~= s.take(k) + seq![s[k]]);
    lemma_utf8_len_concat(s.take(k), seq![s[k]]);
    lemma_utf8_len_single(s[k]);
}

/// Offsets start at 0 and end at the encoded length.
pub proof fn lemma_offset_ends(s: Seq<char>)
    ensures
        byte_offset(s, 0) == 0,
        byte_offset(s, s.len() as int) == utf8_len(s),
        utf16_offset(s, 0) == 0,
        utf16_offset(s, s.len() as int) == utf16_len(s),
{
    assert(s.take(0) =~= Seq::<char>::empty());
    assert(s.take(s.len() as int) =~= s);
}

/// Byte and UTF-16 offsets grow strictly with the character index.
pub proof fn lemma_offset_strict(s: Seq<char>, i: int, j: int)
    requires
        0 <= i < j <= s.len(),
    ensures
        byte_offset(s, i) < byte_offset(s, j),
        utf16_offset(s, i) < utf16_offset(s, j),
        byte_offset(s, j) - byte_offset(s, i) >= utf16_offset(s, j) - utf16_offset(s, i),
    decreases j - i,
{
    lemma_offset_step(s, j - 1);
    lemma_char_width(s[j - 1]);
    if i < j - 1 {
        lemma_offset_strict(s, i, j - 1);
    }
}

/// Offsets grow with the character index.
pub proof fn lemma_offset_mono(s: Seq<char>, i: int, j: int)
    requires
        0 <= i <= j <= s.len(),
    ensures
        byte_offset(s, i) <= byte_offset(s, j),
        utf16_offset(s, i) <= utf16_offset(s, j),
{
    if i < j {
        lemma_offset_strict(s, i, j);
    }
}

/// Offsets lie within the encoded length and are at least the character index.
pub proof fn lemma_offset_le_len(s: Seq<char>, k: int)
    requires
        0 <= k <= s.len(),
    ensures
        byte_offset(s, k) <= utf8_len(s),
        utf16_offset(s, k) <= utf16_len(s),
        k <= byte_offset(s, k),
{
    lemma_offset_ends(s);
    lemma_offset_mono(s, k, s.len() as int);
    lemma_utf8_len_ge(s.take(k));
}

/// The byte offset of every character index is a boundary, and maps back to that index.
pub proof fn lemma_boundary_of_index(s: Seq<char>, k: int)
    requires
        0 <= k <= s.len(),
    ensures
        is_utf8_boundary(s, byte_offset(s, k) as int),
        char_index(s, byte_offset(s, k) as int) == k,
{
    assert(is_utf8_boundary(s, byte_offset(s, k) as int));
    let k2 = char_index(s, byte_offset(s, k) as int);
    if k2 < k {
        lemma_offset_strict(s, k2, k);
    } else if k < k2 {
        lemma_offset_strict(s, k, k2);
    }
}

/// What a boundary tells about its character index.
pub proof fn lemma_index_of_boundary(s: Seq<char>, b: int)
    requires
        is_utf8_boundary(s, b),
    ensures
        0 <= char_index(s, b) <= s.len(),
        byte_offset(s, char_index(s, b)) == b,
        0 <= b <= utf8_len(s),
        char_index(s, b) <= b,
{
    let k = char_index(s, b);
    lemma_offset_le_len(s, k);
}

/// The start and the end of a text are character boundaries.
pub proof fn lemma_ends_are_boundaries(s: Seq<char>)
    ensures
        is_utf8_boundary(s, 0),
        char_index(s, 0) == 0,
        is_utf8_boundary(s, utf8_len(s) as int),
        char_index(s, utf8_len(s) as int) == s.len(),
{
    lemma_offset_ends(s);
    lemma_boundary_of_index(s, 0);
    lemma_boundary_of_index(s, s.len() as int);
}

/// Boundaries are ordered like the character indices they belong to.
pub proof fn lemma_boundary_order(s: Seq<char>, a: int, b: int)
    requires
        is_utf8_boundary(s, a),
        is_utf8_boundary(s, b),
    ensures
        a <= b <==> char_index(s, a) <= char_index(s, b),
        a < b <==> char_index(s, a) < char_index(s, b),
        a == b <==> char_index(s, a) == char_index(s, b),
{
    lemma_index_of_boundary(s, a);
    lemma_index_of_boundary(s, b);
    let i = char_index(s, a);
    let j = char_index(s, b);
    if i < j {
        lemma_offset_strict(s, i, j);
    } else if j < i {
        lemma_offset_strict(s, j, i);
    }
}

/// Offsets within the first part of a concatenation are unchanged.
pub proof fn lemma_offset_concat_left(a: Seq<char>, b: Seq<char>, k: int)
    requires
        0 <= k <= a.len(),
    ensures
        byte_offset(a + b, k) == byte_offset(a, k),
        utf16_offset(a + b, k) == utf16_offset(a, k),
{
    assert((a + b).take(k) =~= a.take(k));
}

/// Offsets within the second part of a concatenation are shifted by the first part.
pub proof fn lemma_offset_concat_right(a: Seq<char>, b: Seq<char>, k: int)
    requires
        0 <= k <= b.len(),
    ensures
        byte_offset(a + b, a.len() + k) == utf8_len(a) + byte_offset(b, k),
        utf16_offset(a + b, a.len() + k) == utf16_len(a) + utf16_offset(b, k),
{
    assert((a + b).take(a.len() + k) =~= a + b.take(k));
    lemma_utf8_len_concat(a, b.take(k));
}

/// Offsets measured from a suffix.
pub proof fn lemma_offset_skip(s: Seq<char>, j: int, m: int)
    requires
        0 <= j <= s.len(),
        0 <= m <= s.len() - j,
    ensures
        byte_offset(s, j + m) == byte_offset(s, j) + byte_offset(s.skip(j), m),
        utf16_offset(s, j + m) == utf16_offset(s, j) + utf16_offset(s.skip(j), m),
{
    assert(s =~= s.take(j) + s.skip(j));
    lemma_offset_concat_right(s.take(j), s.skip(j), m);
}

/// Offsets measured in a prefix.
pub proof fn lemma_offset_take(s: Seq<char>, j: int, m: int)
    requires
        0 <= m <= j <= s.len(),
    ensures
        byte_offset(s.take(j), m) == byte_offset(s, m),
        utf16_offset(s.take(j), m) == utf16_offset(s, m),
{
    assert(s.take(j).take(m) =~= s.take(m));
}

/// A slice between two boundaries, and how the text decomposes around it.
pub proof fn lemma_slice(s: Seq<char>, a: int, b: int)
    requires
        a <= b,
        is_utf8_boundary(s, a),
        is_utf8_boundary(s, b),
    ensures
        char_index(s, a) <= char_index(s, b),
        byte_slice(s, a, b).len() == char_index(s, b) - char_index(s, a),
        utf8_len(byte_slice(s, a, b)) == b - a,
        s =~= s.take(char_index(s, a)) + byte_slice(s, a, b) + s.skip(char_index(s, b)),
        utf8_len(s.take(char_index(s, a))) == a,
        utf8_len(s) == b + utf8_len(s.skip(char_index(s, b))),
        utf16_len(s) == utf16_len(s.take(char_index(s, a))) + utf16_len(byte_slice(s, a, b))
            + utf16_len(s.skip(char_index(s, b))),
{
    lemma_boundary_order(s, a, b);
    lemma_index_of_boundary(s, a);
    lemma_index_of_boundary(s, b);
    let i = char_index(s, a);
    let j = char_index(s, b);
    let p = s.take(i);
    let m = byte_slice(s, a, b);
    let q = s.skip(j);
    assert(s =~= p + m + q);
    assert(s.take(j) =~= p + m);
    lemma_utf8_len_concat(p, m);
    lemma_utf8_len_concat(p + m, q);
}

/// Replacing the bytes between two boundaries: lengths, and where the inserted text lies.
pub proof fn lemma_splice(s: Seq<char>, a: int, b: int, t: Seq<char>)
    requires
        a <= b,
        is_utf8_boundary(s, a),
        is_utf8_boundary(s, b),
    ensures
        ({
            let n = splice(s, a, b, t);
            let i = char_index(s, a);
            &&& n =~= s.take(i) + t + s.skip(char_index(s, b))
            &&& n.len() == s.len() - (char_index(s, b) - i) + t.len()
            &&& utf8_len(n) == utf8_len(s) - (b - a) + utf8_len(t)
            &&& utf16_len(n) == utf16_len(s) - utf16_len(byte_slice(s, a, b)) + utf16_len(t)
            &&& is_utf8_boundary(n, a)
            &&& char_index(n, a) == i
            &&& is_utf8_boundary(n, a + utf8_len(t))
            &&& char_index(n, a + utf8_len(t)) == i + t.len()
            &&& byte_slice(n, a, a + utf8_len(t)) =~= t
            &&& n.take(i) =~= s.take(i)
            &&& n.skip(i + t.len()) =~= s.skip(char_index(s, b))
        }),
{
    lemma_slice(s, a, b);
    let i = char_index(s, a);
    let j = char_index(s, b);
    let p = s.take(i);
    let q = s.skip(j);
    let n = splice(s, a, b, t);
    assert(n =~= p + (t + q));
    lemma_utf8_len_concat(p, t + q);
    lemma_utf8_len_concat(t, q);
    lemma_utf8_len_concat(p, byte_slice(s, a, b) + q);
    lemma_utf8_len_concat(byte_slice(s, a, b), q);
    assert(s =~= p + (byte_slice(s, a, b) + q));
    // the boundary at `a`
    lemma_offset_concat_left(p, t + q, i);
    assert(p.take(i) =~= p);
    assert(byte_offset(n, i) == a);
    lemma_boundary_of_index(n, i);
    // the boundary after the inserted text
    assert(n =~= (p + t) + q);
    lemma_offset_concat_left(p + t, q, i + t.len());
    assert((p + t).take(i + t.len()) =~= p + t);
    lemma_utf8_len_concat(p, t);
    assert(byte_offset(n, i + t.len()) == a + utf8_len(t));
    lemma_boundary_of_index(n, i + t.len());
    assert(byte_slice(n, a, a + utf8_len(t)) =~= t);
}

/// Boundaries before the replaced bytes are kept by a splice.
pub proof fn lemma_splice_prefix_boundary(s: Seq<char>, a: int, b: int, t: Seq<char>, x: int)
    requires
        a <= b,
        is_utf8_boundary(s, a),
        is_utf8_boundary(s, b),
        is_utf8_boundary(s, x),
        x <= a,
    ensures
        is_utf8_boundary(splice(s, a, b, t), x),
        char_index(splice(s, a, b, t), x) == char_index(s, x),
{
    lemma_splice(s, a, b, t);
    lemma_boundary_order(s, x, a);
    lemma_index_of_boundary(s, x);
    let i = char_index(s, a);
    let k = char_index(s, x);
    let n = splice(s, a, b, t);
    assert(n =~= s.take(i) + (t + s.skip(char_index(s, b))));
    lemma_offset_concat_left(s.take(i), t + s.skip(char_index(s, b)), k);
    lemma_offset_take(s, i, k);
    lemma_boundary_of_index(n, k);
}

/// Boundaries after the replaced bytes are kept by a splice, shifted by the change
/// in length.
pub proof fn lemma_splice_suffix_boundary(s: Seq<char>, a: int, b: int, t: Seq<char>, x: int)
    requires
        a <= b,
        is_utf8_boundary(s, a),
        is_utf8_boundary(s, b),
        is_utf8_boundary(s, x),
        b <= x,
    ensures
        is_utf8_boundary(splice(s, a, b, t), x - b + a + utf8_len(t)),
        char_index(splice(s, a, b, t), x - b + a + utf8_len(t)) == char_index(s, x) - char_index(
            s,
            b,
        ) + char_index(s, a) + t.len(),
{
    lemma_splice(s, a, b, t);
    lemma_slice(s, a, b);
    lemma_boundary_order(s, b, x);
    lemma_index_of_boundary(s, x);
    lemma_index_of_boundary(s, b);
    let i = char_index(s, a);
    let j = char_index(s, b);
    let k = char_index(s, x);
    let n = splice(s, a, b, t);
    let pt = s.take(i) + t;
    let q = s.skip(j);
    assert(n =~= pt + q);
    lemma_offset_concat_right(pt, q, k - j);
    lemma_utf8_len_concat(s.take(i), t);
    lemma_offset_skip(s, j, k - j);
    assert(byte_offset(n, pt.len() + (k - j)) == x - b + a + utf8_len(t));
    lemma_boundary_of_index(n, pt.len() + (k - j));
}

/// A boundary of a prefix `[0, b)` is a boundary of the whole text, at the same index.
pub proof fn lemma_prefix_boundary(s: Seq<char>, b: int, x: int)
    requires
        is_utf8_boundary(s, b),
        is_utf8_boundary(byte_slice(s, 0, b), x),
    ensures
        is_utf8_boundary(s, x),
        0 <= x <= b,
        char_index(s, x) == char_index(byte_slice(s, 0, b), x),
{
    lemma_ends_are_boundaries(s);
    lemma_index_of_boundary(s, b);
    let j = char_index(s, b);
    let pre = byte_slice(s, 0, b);
    assert(pre =~= s.take(j));
    lemma_index_of_boundary(pre, x);
    let k = char_index(pre, x);
    lemma_offset_take(s, j, k);
    lemma_boundary_of_index(s, k);
    lemma_offset_mono(s, k, j);
}

/// A boundary of a suffix `[b, len)` is, shifted by `b`, a boundary of the whole text.
pub proof fn lemma_suffix_boundary(s: Seq<char>, b: int, x: int)
    requires
        is_utf8_boundary(s, b),
        is_utf8_boundary(byte_slice(s, b, utf8_len(s) as int), x),
    ensures
        is_utf8_boundary(s, b + x),
        b <= b + x <= utf8_len(s),
        char_index(s, b + x) == char_index(s, b) + char_index(
            byte_slice(s, b, utf8_len(s) as int),
            x,
        ),
{
    lemma_ends_are_boundaries(s);
    lemma_index_of_boundary(s, b);
    let j = char_index(s, b);
    let suf = byte_slice(s, b, utf8_len(s) as int);
    assert(suf =~= s.skip(j));
    lemma_index_of_boundary(suf, x);
    let m = char_index(suf, x);
    lemma_offset_skip(s, j, m);
    lemma_boundary_of_index(s, j + m);
    lemma_offset_le_len(s, j + m);
}

/// Number of bytes of `c` in UTF-8 (`char::len_utf8`).
pub fn char_len_utf8(c: char) -> (r: usize)
    ensures
        r == char_width_utf8(c),
{
    let v = c as u32;
    if v <= 0x7F {
        1
    } else if v <= 0x7FF {
        2
    } else if v <= 0xFFFF {
        3
    } else {
        4
    }
}

/// Number of UTF-16 code units of `c` (`char::len_utf16`).
pub fn char_len_utf16(c: char) -> (r: usize)
    ensures
        r == char_width_utf16(c),
{
    let v = c as u32;
    if v <= 0xFFFF {
        1
    } else {
        2
    }
}

/// The UTF-8 encoding used by vstd has exactly `utf8_len` bytes.
pub proof fn lemma_encode_len(s: Seq<char>)
    ensures
        vstd::utf8::encode_utf8(s).len() == utf8_len(s),
    decreases s.len(),
{
    if s.len() > 0 {
        vstd::utf8::char_is_scalar(s[0]);
        lemma_encode_len(s.drop_first());
    }
}

/// Length in bytes of `s` (`str::len`): the length of its UTF-8 encoding.
pub fn byte_len(s: &str) -> (r: usize)
    ensures
        r == utf8_len(s@),
{
    let bytes = s.as_bytes();
    proof {
        lemma_encode_len(s@);
    }
    bytes.len()
}

/// Whether byte offset `b` falls on a character boundary of `s` (`str::is_char_boundary`).
pub fn is_char_boundary(s: &str, b: usize) -> (r: bool)
    ensures
        r == is_utf8_boundary(s@, b as int),
{
    let ghost t = s@;
    let blen = byte_len(s);
    let chars = chars_of(s);
    let n = chars.len();
    let mut k: usize = 0;
    let mut off: usize = 0;
    proof {
        lemma_offset_ends(t);
    }
    while k < n && off < b
        invariant
            chars@ == t,
            n == t.len(),
            k <= n,
            blen == utf8_len(t),
            off == byte_offset(t, k as int),
            forall|i: int| 0 <= i < k ==> #[trigger] byte_offset(t, i) < b,
        decreases n - k,
    {
        proof {
            lemma_offset_step(t, k as int);
            lemma_offset_le_len(t, k as int + 1);
        }
        off = off + char_len_utf8(chars[k]);
        k = k + 1;
    }
    if off == b {
        proof {
            lemma_boundary_of_index(t, k as int);
        }
        true
    } else {
        proof {
            if is_utf8_boundary(t, b as int) {
                let j = char_index(t, b as int);
                lemma_index_of_boundary(t, b as int);
                if j < k {
                    assert(byte_offset(t, j) < b);
                } else if j > k {
                    lemma_offset_strict(t, k as int, j);
                    if k == n {
                        assert(false);
                    }
                }
            }
        }
        false
    }
}

/// The characters of `s`, in order (`str::chars`, collected).
pub fn chars_of(s: &str) -> (r: Vec<char>)
    ensures
        r@ == s@,
{
    broadcast use vstd::string::axiom_spec_iter;
    let mut v: Vec<char> = Vec::new();
    for c in it: s.chars()
        invariant
            it.seq() == s@,
            v@ == s@.take(it.index() as int),
    {
        v.push(c);
        proof {
            assert(v@ =~= s@.take(it.index() + 1));
        }
    }
    proof {
        assert(v@ =~= s@);
    }
    v
}

/// `String::push`.
///
/// Trusted: appends `c` to the end of the string.
#[verifier::external_body]
pub fn string_push(s: &mut String, c: char)
    ensures
        final(s)@ == old(s)@.push(c),
{
    s.push(c)
}

/// At the byte offset of each character of `s`, the UTF-8 encoding of `s` has a
/// character boundary and splits into the encodings of the two parts.
proof fn lemma_encode_split(s: Seq<char>, k: int)
    requires
        0 <= k <= s.len(),
    ensures
        vstd::utf8::is_char_boundary(vstd::utf8::encode_utf8(s), byte_offset(s, k) as int),
        vstd::utf8::encode_utf8(s).subrange(0, byte_offset(s, k) as int) == vstd::utf8::encode_utf8(
            s.take(k),
        ),
        vstd::utf8::encode_utf8(s).subrange(
            byte_offset(s, k) as int,
            vstd::utf8::encode_utf8(s).len() as int,
        ) == vstd::utf8::encode_utf8(s.skip(k)),
    decreases k,
{
    broadcast use vstd::utf8::encode_utf8_valid_utf8;

    let e = vstd::utf8::encode_utf8(s);
    lemma_encode_len(s);
    lemma_offset_ends(s);
    if k == 0 {
        assert(s.take(0) =~= Seq::<char>::empty());
        assert(s.skip(0) =~= s);
        assert(e.subrange(0, 0) =~= vstd::utf8::encode_utf8(Seq::<char>::empty()));
        assert(e.subrange(0, e.len() as int) =~= e);
    } else {
        let t = s.drop_first();
        lemma_encode_split(t, k - 1);
        vstd::utf8::encode_utf8_first_scalar(s);
        let c = s[0];
        let head = vstd::utf8::encode_scalar(c as u32);
        assert(e == head + vstd::utf8::encode_utf8(t));
        lemma_encode_len(seq![c]);
        assert(seq![c].drop_first() =~= Seq::<char>::empty());
        assert(vstd::utf8::encode_utf8(Seq::<char>::empty()) =~= Seq::<u8>::empty());
        assert(seq![c][0] == c);
        assert(vstd::utf8::encode_utf8(seq![c]) =~= head);
        lemma_utf8_len_single(c);
        let w = head.len() as int;
        assert(w == char_width_utf8(c));
        lemma_offset_step(s, 0);
        assert(s.skip(1) =~= t);
        lemma_offset_skip(s, 1, k - 1);
        let bo = byte_offset(s, k) as int;
        assert(bo == w + byte_offset(t, k - 1));
        assert(vstd::utf8::pop_first_scalar(e) =~= vstd::utf8::encode_utf8(t));
        assert(vstd::utf8::is_char_boundary(e, bo) == vstd::utf8::is_char_boundary(
            vstd::utf8::pop_first_scalar(e),
            bo - w,
        ));
        let et = vstd::utf8::encode_utf8(t);
        assert(s.take(k)[0] == c);
        assert(s.take(k).drop_first() =~= t.take(k - 1));
        assert(e.subrange(0, bo) =~= head + et.subrange(0, bo - w));
        assert(s.skip(k) =~= t.skip(k - 1));
        assert(e.subrange(bo, e.len() as int) =~= et.subrange(bo - w, et.len() as int));
    }
}

/// The sub-slice `&s[start..end]` between two character boundaries: split off the
/// bytes before `start` (`str::split_at`), then the bytes after `end`.
pub fn str_slice(s: &str, start: usize, end: usize) -> (r: &str)
    requires
        start <= end,
        is_utf8_boundary(s@, start as int),
        is_utf8_boundary(s@, end as int),
    ensures
        r@ == byte_slice(s@, start as int, end as int),
{
    broadcast use vstd::utf8::encode_utf8_decode_utf8;

    let ghost t = s@;
    let ghost i = char_index(t, start as int);
    let ghost j = char_index(t, end as int);
    proof {
        lemma_index_of_boundary(t, start as int);
        lemma_index_of_boundary(t, end as int);
        lemma_boundary_order(t, start as int, end as int);
        lemma_encode_split(t, i);
    }
    let (_, rest) = s.split_at(start);
    proof {
        assert(vstd::utf8::encode_utf8(rest@) == vstd::utf8::encode_utf8(t.skip(i)));
        vstd::utf8::encode_utf8_decode_utf8(rest@);
        vstd::utf8::encode_utf8_decode_utf8(t.skip(i));
        assert(rest@ == t.skip(i));
        lemma_offset_skip(t, i, j - i);
        lemma_encode_split(t.skip(i), j - i);
    }
    let (mid, _) = rest.split_at(end - start);
    proof {
        assert(vstd::utf8::encode_utf8(mid@) == vstd::utf8::encode_utf8(t.skip(i).take(j - i)));
        vstd::utf8::encode_utf8_decode_utf8(mid@);
        vstd::utf8::encode_utf8_decode_utf8(t.skip(i).take(j - i));
        assert(t.skip(i).take(j - i) =~= byte_slice(t, start as int, end as int));
    }
    mid
}

/// Appends the characters of `part` to `out`.
pub fn string_push_str(out: &mut String, part: &str)
    ensures
        final(out)@ == old(out)@ + part@,
{
    broadcast use vstd::string::axiom_spec_iter;

    let ghost start = out@;
    for c in it: part.chars()
        invariant
            it.seq() == part@,
            out@ == start + part@.take(it.index() as int),
    {
        string_push(out, c);
        proof {
            assert(out@ =~= start + part@.take(it.index() + 1));
        }
    }
    proof {
        assert(part@.take(part@.len() as int) =~= part@);
    }
}

/// Replaces the bytes `[start, end)` of `s`, both character boundaries, by `text`
/// (what `String::replace_range` does).
pub fn string_replace_range(s: &mut String, start: usize, end: usize, text: &str)
    requires
        start <= end,
        is_utf8_boundary(old(s)@, start as int),
        is_utf8_boundary(old(s)@, end as int),
    ensures
        final(s)@ == splice(old(s)@, start as int, end as int, text@),
{
    let ghost t = s@;
    proof {
        lemma_ends_are_boundaries(t);
        lemma_index_of_boundary(t, end as int);
    }
    let len = byte_len(s.as_str());
    let mut out = String::new();
    string_push_str(&mut out, str_slice(s.as_str(), 0, start));
    string_push_str(&mut out, text);
    string_push_str(&mut out, str_slice(s.as_str(), end, len));
    proof {
        assert(out@ =~= splice(t, start as int, end as int, text@));
    }
    *s = out;
}

/// Whether `c` has the Unicode `White_Space` property: the ASCII controls from tab to
/// carriage return, the space, NEL, the no-break space, the Ogham space mark, the spaces
/// from the en quad to the hair space, the line and paragraph separators, the narrow
/// no-break space, the medium mathematical space and the ideographic space.
pub open spec fn white_space(c: char) -> bool {
    let u = c as u32;
    ||| 0x9 <= u <= 0xD
    ||| u == 0x20
    ||| u == 0x85
    ||| u == 0xA0
    ||| u == 0x1680
    ||| 0x2000 <= u <= 0x200A
    ||| u == 0x2028
    ||| u == 0x2029
    ||| u == 0x202F
    ||| u == 0x205F
    ||| u == 0x3000
}

/// Whether `c` is whitespace (has the Unicode `White_Space` property), as
/// `char::is_whitespace` decides it.
pub fn char_is_whitespace(c: char) -> (r: bool)
    ensures
        r == white_space(c),
{
    let u = c as u32;
    (0x9 <= u && u <= 0xD) || u == 0x20 || u == 0x85 || u == 0xA0 || u == 0x1680 || (0x2000 <= u
        && u <= 0x200A) || u == 0x2028 || u == 0x2029 || u == 0x202F || u == 0x205F || u == 0x3000
}

} // verus!
