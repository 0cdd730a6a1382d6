//! Byte-offset helpers on UTF-8 text. Offsets are byte offsets into the
//! text's UTF-8 encoding, as in `str` slicing; char boundaries are those of
//! the encoding.

use vstd::prelude::*;
use vstd::string::StringSliceAdditionalSpecFns;
use vstd::utf8::{encode_utf8, is_char_boundary, valid_utf8};

verus! {

broadcast use vstd::utf8::group_utf8_lib;

/// The UTF-8 bytes of a string.
pub open spec fn bytes_of(s: &str) -> Seq<u8> {
    s.spec_bytes()
}

/// The greatest char boundary at or below `i`, or the text length when `i`
/// is at or past the end.
pub open spec fn floor_boundary(b: Seq<u8>, i: int) -> int
    decreases i,
{
    if i >= b.len() {
        b.len() as int
    } else if i <= 0 {
        0
    } else if is_char_boundary(b, i) {
        i
    } else {
        floor_boundary(b, i - 1)
    }
}

/// Below the end, rounding down never moves up, and lands on a boundary.
pub proof fn lemma_floor_boundary(b: Seq<u8>, i: int)
    requires
        vstd::utf8::valid_utf8(b),
    ensures
        0 <= floor_boundary(b, i) <= b.len(),
        i < b.len() ==> floor_boundary(b, i) <= if i < 0 { 0 } else { i },
        is_char_boundary(b, floor_boundary(b, i)),
    decreases i,
{
    if i >= b.len() {
    } else if i <= 0 {
    } else if is_char_boundary(b, i) {
    } else {
        lemma_floor_boundary(b, i - 1);
    }
}

/// The least char boundary at or above `i` (the text length when there is
/// none before the end).
pub open spec fn ceil_boundary(b: Seq<u8>, i: int) -> int
    decreases b.len() - i,
{
    if i >= b.len() {
        b.len() as int
    } else if i >= 0 && is_char_boundary(b, i) {
        i
    } else {
        ceil_boundary(b, i + 1)
    }
}

/// Rounding up never moves down, nor past the end.
pub proof fn lemma_ceil_boundary(b: Seq<u8>, i: int)
    requires
        i <= b.len(),
    ensures
        i <= ceil_boundary(b, i) <= b.len(),
        0 <= ceil_boundary(b, i),
    decreases b.len() - i,
{
    if i < b.len() && !(i >= 0 && is_char_boundary(b, i)) {
        lemma_ceil_boundary(b, i + 1);
    }
}

/// Where the character that ends at `pos` starts.
pub open spec fn prev_char_start(b: Seq<u8>, pos: int) -> int {
    floor_boundary(b, pos - 1)
}

/// Where the character that starts at `pos` ends.
pub open spec fn next_char_end(b: Seq<u8>, pos: int) -> int {
    ceil_boundary(b, pos + 1)
}

/// Whether the byte at `i` exists and equals `c`.
pub open spec fn byte_is(b: Seq<u8>, i: int, c: u8) -> bool {
    0 <= i < b.len() && b[i] == c
}

/// Whether slicing the text at `start..end` succeeds and gives exactly `lit`.
pub open spec fn slice_is(b: Seq<u8>, start: int, end: int, lit: Seq<u8>) -> bool {
    &&& 0 <= start <= end <= b.len()
    &&& is_char_boundary(b, start)
    &&& is_char_boundary(b, end)
    &&& b.subrange(start, end) == lit
}

/// The first index at or after `from` holding the byte `c`.
pub open spec fn find_byte_from(b: Seq<u8>, from: int, c: u8) -> Option<int>
    decreases b.len() - from,
{
    if from >= b.len() || from < 0 {
        None
    } else if b[from] == c {
        Some(from)
    } else {
        find_byte_from(b, from + 1, c)
    }
}

/// The last index below `to` holding the byte `c`.
pub open spec fn rfind_byte_before(b: Seq<u8>, to: int, c: u8) -> Option<int>
    decreases to,
{
    if to <= 0 || to > b.len() {
        None
    } else if b[to - 1] == c {
        Some(to - 1)
    } else {
        rfind_byte_before(b, to - 1, c)
    }
}

/// The byte length of a string.
pub fn text_len(s: &str) -> (r: usize)
    ensures
        r == bytes_of(s).len(),
{
    s.as_bytes().len()
}

/// Rounds `index` down to a char boundary; past the end it gives the length.
pub fn floor_char_boundary(s: &str, index: usize) -> (r: usize)
    ensures
        r == floor_boundary(bytes_of(s), index as int),
        r <= bytes_of(s).len(),
        index < bytes_of(s).len() ==> r <= index,
        is_char_boundary(bytes_of(s), r as int),
{
    proof {
        lemma_floor_boundary(bytes_of(s), index as int);
    }
    let len = text_len(s);
    if index >= len {
        return len;
    }
    let mut i = index;
    while i > 0 && !s.is_char_boundary(i)
        invariant
            i <= index < len == bytes_of(s).len(),
            floor_boundary(bytes_of(s), i as int) == floor_boundary(bytes_of(s), index as int),
        decreases i,
    {
        i = i - 1;
    }
    i
}

/// The least char boundary at or after `i`.
pub fn ceil_char_boundary(s: &str, i: usize) -> (r: usize)
    requires
        i <= bytes_of(s).len(),
    ensures
        r == ceil_boundary(bytes_of(s), i as int),
        i <= r <= bytes_of(s).len(),
{
    proof {
        lemma_ceil_boundary(bytes_of(s), i as int);
    }
    let len = text_len(s);
    let mut j = i;
    while j < len && !s.is_char_boundary(j)
        invariant
            i <= j <= len == bytes_of(s).len(),
            ceil_boundary(bytes_of(s), j as int) == ceil_boundary(bytes_of(s), i as int),
        decreases len - j,
    {
        j = j + 1;
    }
    j
}

/// The start of the character that ends at `pos`.
pub fn prev_char_start_of(s: &str, pos: usize) -> (r: usize)
    requires
        0 < pos <= bytes_of(s).len(),
    ensures
        r == prev_char_start(bytes_of(s), pos as int),
        r < pos,
        is_char_boundary(bytes_of(s), r as int),
{
    floor_char_boundary(s, pos - 1)
}

/// The end of the character that starts at `pos`.
pub fn next_char_end_of(s: &str, pos: usize) -> (r: usize)
    requires
        pos < bytes_of(s).len(),
    ensures
        r == next_char_end(bytes_of(s), pos as int),
        pos < r <= bytes_of(s).len(),
        is_char_boundary(bytes_of(s), r as int),
{
    let len = text_len(s);
    let mut i = pos + 1;
    while i < len && !s.is_char_boundary(i)
        invariant
            pos < i <= len == bytes_of(s).len(),
            ceil_boundary(bytes_of(s), i as int) == ceil_boundary(bytes_of(s), pos + 1),
        decreases len - i,
    {
        i = i + 1;
    }
    i
}

/// Whether the byte at `i` exists and equals `c`.
pub fn byte_at_is(s: &str, i: usize, c: u8) -> (r: bool)
    ensures
        r == byte_is(bytes_of(s), i as int, c),
{
    let b = s.as_bytes();
    i < b.len() && b[i] == c
}

/// Whether `s.get(start..end)` is exactly the single byte `c`.
pub fn slice_is_byte(s: &str, start: usize, end: usize, c: u8) -> (r: bool)
    ensures
        r == slice_is(bytes_of(s), start as int, end as int, seq![c]),
{
    let b = s.as_bytes();
    if start <= end && end <= b.len() && s.is_char_boundary(start) && s.is_char_boundary(end) {
        if end - start == 1 && b[start] == c {
            assert(bytes_of(s).subrange(start as int, end as int) =~= seq![c]);
            true
        } else {
            if end - start == 1 {
                assert(bytes_of(s).subrange(start as int, end as int)[0] == b@[start as int]);
            }
            assert(bytes_of(s).subrange(start as int, end as int).len() == end - start);
            false
        }
    } else {
        false
    }
}

/// Whether `s.get(start..end)` is exactly the three bytes `c0 c1 c2`.
pub fn slice_is_bytes3(s: &str, start: usize, end: usize, c0: u8, c1: u8, c2: u8) -> (r: bool)
    ensures
        r == slice_is(bytes_of(s), start as int, end as int, seq![c0, c1, c2]),
{
    let b = s.as_bytes();
    if start <= end && end <= b.len() && s.is_char_boundary(start) && s.is_char_boundary(end) {
        let ghost sub = bytes_of(s).subrange(start as int, end as int);
        if end - start == 3 && b[start] == c0 && b[start + 1] == c1 && b[start + 2] == c2 {
            assert(sub =~= seq![c0, c1, c2]);
            true
        } else {
            if end - start == 3 {
                assert(sub[0] == b@[start as int]);
                assert(sub[1] == b@[start + 1]);
                assert(sub[2] == b@[start + 2]);
            }
            assert(sub.len() == end - start);
            false
        }
    } else {
        false
    }
}

/// The first index at or after `from` holding the byte `c`.
pub fn find_byte(s: &str, from: usize, c: u8) -> (r: Option<usize>)
    ensures
        match find_byte_from(bytes_of(s), from as int, c) {
            Some(i) => r == Some(i as usize) && from <= i < bytes_of(s).len(),
            None => r is None,
        },
{
    let b = s.as_bytes();
    let mut i = from;
    while i < b.len()
        invariant
            from <= i,
            b@ == bytes_of(s),
            find_byte_from(bytes_of(s), i as int, c) == find_byte_from(bytes_of(s), from as int, c),
        decreases b.len() - i,
    {
        if b[i] == c {
            return Some(i);
        }
        i = i + 1;
    }
    None
}

/// The last index below `to` holding the byte `c`.
pub fn rfind_byte(s: &str, to: usize, c: u8) -> (r: Option<usize>)
    requires
        to <= bytes_of(s).len(),
    ensures
        match rfind_byte_before(bytes_of(s), to as int, c) {
            Some(i) => r == Some(i as usize) && 0 <= i < to,
            None => r is None,
        },
{
    let b = s.as_bytes();
    let mut i = to;
    while i > 0
        invariant
            i <= to <= b@.len(),
            b@ == bytes_of(s),
            rfind_byte_before(bytes_of(s), i as int, c) == rfind_byte_before(bytes_of(s), to as int, c),
        decreases i,
    {
        if b[i - 1] == c {
            return Some(i - 1);
        }
        i = i - 1;
    }
    None
}

/// Whether two strings are equal.
pub fn str_eq(a: &str, b: &str) -> (r: bool)
    ensures
        r == (a@ == b@),
{
    let x = a.as_bytes();
    let y = b.as_bytes();
    proof {
        vstd::utf8::encode_utf8_decode_utf8(a@);
        vstd::utf8::encode_utf8_decode_utf8(b@);
    }
    if x.len() != y.len() {
        return false;
    }
    let mut i: usize = 0;
    while i < x.len()
        invariant
            i <= x@.len() == y@.len(),
            x@ == bytes_of(a),
            y@ == bytes_of(b),
            x@.take(i as int) == y@.take(i as int),
        decreases x@.len() - i,
    {
        if x[i] != y[i] {
            assert(x@[i as int] != y@[i as int]);
            return false;
        }
        assert(x@.take(i + 1) =~= x@.take(i as int).push(x@[i as int]));
        assert(y@.take(i + 1) =~= y@.take(i as int).push(y@[i as int]));
        i = i + 1;
    }
    assert(x@.take(i as int) =~= x@);
    assert(y@.take(i as int) =~= y@);
    true
}

/// The start of the run of spaces that ends at `s`.
pub open spec fn spaces_start(b: Seq<u8>, s: int) -> int
    decreases s,
{
    if 0 < s <= b.len() && b[s - 1] == 32u8 {
        spaces_start(b, s - 1)
    } else {
        s
    }
}

/// The end of the run of spaces that starts at `e`.
pub open spec fn spaces_end(b: Seq<u8>, e: int) -> int
    decreases b.len() - e,
{
    if 0 <= e < b.len() && b[e] == 32u8 {
        spaces_end(b, e + 1)
    } else {
        e
    }
}

/// The start of the run of spaces that ends at `pos`.
pub fn spaces_start_of(s: &str, pos: usize) -> (r: usize)
    requires
        pos <= bytes_of(s).len(),
    ensures
        r == spaces_start(bytes_of(s), pos as int),
        r <= pos,
{
    let b = s.as_bytes();
    let mut i = pos;
    while i > 0 && b[i - 1] == 32u8
        invariant
            i <= pos <= b@.len(),
            b@ == bytes_of(s),
            spaces_start(bytes_of(s), i as int) == spaces_start(bytes_of(s), pos as int),
        decreases i,
    {
        i = i - 1;
    }
    i
}

/// The end of the run of spaces that starts at `pos`.
pub fn spaces_end_of(s: &str, pos: usize) -> (r: usize)
    requires
        pos <= bytes_of(s).len(),
    ensures
        r == spaces_end(bytes_of(s), pos as int),
        pos <= r <= bytes_of(s).len(),
{
    let b = s.as_bytes();
    let mut i = pos;
    while i < b.len() && b[i] == 32u8
        invariant
            pos <= i <= b@.len(),
            b@ == bytes_of(s),
            spaces_end(bytes_of(s), i as int) == spaces_end(bytes_of(s), pos as int),
        decreases b@.len() - i,
    {
        i = i + 1;
    }
    i
}

// ---------------------------------------------------------------------------
// UTF-8 facts
// ---------------------------------------------------------------------------

/// Whether `start..end` is a range of char boundaries within `b`.
pub open spec fn span_ok(b: Seq<u8>, start: int, end: int) -> bool {
    &&& 0 <= start <= end <= b.len()
    &&& is_char_boundary(b, start)
    &&& is_char_boundary(b, end)
}

/// Encoding a concatenation concatenates the encodings.
pub proof fn lemma_encode_concat(a: Seq<char>, b: Seq<char>)
    ensures
        encode_utf8(a + b) == encode_utf8(a) + encode_utf8(b),
    decreases a.len(),
{
    if a.len() == 0 {
        assert(a + b =~= b);
        assert(encode_utf8(a) + encode_utf8(b) =~= encode_utf8(b));
    } else {
        assert((a + b).drop_first() =~= a.drop_first() + b);
        assert((a + b)[0] == a[0]);
        lemma_encode_concat(a.drop_first(), b);
        assert(encode_utf8(a + b) =~= encode_utf8(a) + encode_utf8(b));
    }
}

/// Joining two UTF-8 texts gives UTF-8, with a char boundary at the seam.
pub proof fn lemma_boundary_concat(x: Seq<u8>, y: Seq<u8>)
    requires
        valid_utf8(x),
        valid_utf8(y),
    ensures
        valid_utf8(x + y),
        is_char_boundary(x + y, x.len() as int),
{
    vstd::utf8::valid_utf8_concat(x, y);
    if y.len() == 0 {
        assert(x + y =~= x);
    } else {
        vstd::utf8::is_char_boundary_start_end_of_seq(y);
        vstd::utf8::is_char_boundary_iff_not_is_continuation_byte(y, 0);
        assert((x + y)[x.len() as int] == y[0]);
        vstd::utf8::is_char_boundary_iff_not_is_continuation_byte(x + y, x.len() as int);
    }
}

/// Cutting UTF-8 at two char boundaries gives three UTF-8 pieces.
pub proof fn lemma_split3(b: Seq<u8>, s: int, t: int)
    requires
        valid_utf8(b),
        span_ok(b, s, t),
    ensures
        valid_utf8(b.subrange(0, s)),
        valid_utf8(b.subrange(s, t)),
        valid_utf8(b.subrange(t, b.len() as int)),
        b.subrange(0, s) + b.subrange(s, t) + b.subrange(t, b.len() as int) == b,
{
    vstd::utf8::valid_utf8_split(b, s);
    vstd::utf8::valid_utf8_split(b, t);
    let head = b.subrange(0, t);
    assert(head.subrange(0, s) =~= b.subrange(0, s));
    assert(head.subrange(s, t) =~= b.subrange(s, t));
    lemma_boundary_in_prefix(b, t, s);
    vstd::utf8::valid_utf8_split(head, s);
    assert(head.subrange(s, head.len() as int) =~= b.subrange(s, t));
    assert(b.subrange(0, s) + b.subrange(s, t) + b.subrange(t, b.len() as int) =~= b);
}

/// A char boundary of `b` before `t` is one of `b`'s first `t` bytes too.
pub proof fn lemma_boundary_in_prefix(b: Seq<u8>, t: int, s: int)
    requires
        valid_utf8(b),
        span_ok(b, s, t),
    ensures
        is_char_boundary(b.subrange(0, t), s),
{
    vstd::utf8::valid_utf8_split(b, t);
    let head = b.subrange(0, t);
    vstd::utf8::is_char_boundary_start_end_of_seq(head);
    if 0 < s < t {
        vstd::utf8::is_char_boundary_iff_not_is_continuation_byte(b, s);
        vstd::utf8::is_char_boundary_iff_not_is_continuation_byte(head, s);
    }
}

/// A char boundary of `b` after `s` is one of the bytes from `s` on too.
pub proof fn lemma_boundary_in_suffix(b: Seq<u8>, s: int, t: int)
    requires
        valid_utf8(b),
        span_ok(b, s, t),
    ensures
        is_char_boundary(b.subrange(s, b.len() as int), t - s),
{
    vstd::utf8::valid_utf8_split(b, s);
    let tail = b.subrange(s, b.len() as int);
    vstd::utf8::is_char_boundary_start_end_of_seq(tail);
    if s < t < b.len() {
        vstd::utf8::is_char_boundary_iff_not_is_continuation_byte(b, t);
        vstd::utf8::is_char_boundary_iff_not_is_continuation_byte(tail, t - s);
    }
}

/// A UTF-8 encoding has at least one byte per character.
pub proof fn lemma_encode_len(c: Seq<char>)
    ensures
        encode_utf8(c).len() >= c.len(),
    decreases c.len(),
{
    if c.len() > 0 {
        lemma_encode_len(c.drop_first());
    }
}

/// The text of `s` between the byte offsets `from` and `to`, both char
/// boundaries.
pub fn slice_str(s: &str, from: usize, to: usize) -> (r: &str)
    requires
        span_ok(bytes_of(s), from as int, to as int),
    ensures
        bytes_of(r) == bytes_of(s).subrange(from as int, to as int),
        r@ == vstd::utf8::decode_utf8(bytes_of(s).subrange(from as int, to as int)),
{
    proof {
        vstd::utf8::encode_utf8_valid_utf8(s@);
        lemma_boundary_in_suffix(bytes_of(s), from as int, to as int);
    }
    let (_, rest) = s.split_at(from);
    let (mid, _) = rest.split_at(to - from);
    proof {
        assert(bytes_of(mid) =~= bytes_of(s).subrange(from as int, to as int));
        vstd::utf8::encode_utf8_decode_utf8(mid@);
    }
    mid
}

/// An ASCII byte of UTF-8 text is a character of its own: char boundaries
/// lie on both sides of it.
pub proof fn lemma_ascii_boundaries(b: Seq<u8>, j: int)
    requires
        valid_utf8(b),
        0 <= j < b.len(),
        b[j] < 128,
    ensures
        is_char_boundary(b, j),
        is_char_boundary(b, j + 1),
{
    vstd::utf8::is_char_boundary_iff_not_is_continuation_byte(b, j);
    vstd::utf8::is_char_boundary_start_end_of_seq(b);
    if j + 1 < b.len() {
        vstd::utf8::valid_utf8_split(b, j);
        let tail = b.subrange(j, b.len() as int);
        assert(tail[0] == b[j]);
        assert(vstd::utf8::length_of_first_scalar(tail) == 1);
        let rest = vstd::utf8::pop_first_scalar(tail);
        assert(rest.len() > 0);
        assert(rest[0] == b[j + 1]);
        assert(valid_utf8(rest));
        assert(vstd::utf8::valid_first_scalar(rest));
        vstd::utf8::is_char_boundary_iff_not_is_continuation_byte(b, j + 1);
    }
}

/// Rounding down to a char boundary keeps the order of offsets.
pub proof fn lemma_floor_monotone(b: Seq<u8>, i: int, j: int)
    requires
        i <= j,
    ensures
        floor_boundary(b, i) <= floor_boundary(b, j),
    decreases j - i,
{
    if i < j {
        if j >= b.len() {
            if i >= b.len() {
            } else {
                lemma_floor_upper(b, i);
            }
        } else if j <= 0 {
        } else if is_char_boundary(b, j) {
            lemma_floor_upper(b, i);
        } else {
            lemma_floor_monotone(b, i, j - 1);
        }
    }
}

/// Rounding down never goes up (and never past the end).
pub proof fn lemma_floor_upper(b: Seq<u8>, i: int)
    ensures
        floor_boundary(b, i) <= if i < 0 { 0 } else if i < b.len() { i } else { b.len() as int },
    decreases i,
{
    if 0 < i < b.len() && !is_char_boundary(b, i) {
        lemma_floor_upper(b, i - 1);
    }
}

/// The first `c` at or after `from`: where it is found it is a `c` and no
/// `c` comes before it from `from` on; where none is found there is no `c`
/// from `from` to the end.
pub proof fn lemma_find_byte_from(b: Seq<u8>, from: int, c: u8)
    requires
        0 <= from,
    ensures
        match find_byte_from(b, from, c) {
            Some(i) => from <= i < b.len() && b[i] == c && forall|k: int| from <= k < i ==> b[k] != c,
            None => forall|k: int| from <= k < b.len() ==> b[k] != c,
        },
    decreases b.len() - from,
{
    if from < b.len() && b[from] != c {
        lemma_find_byte_from(b, from + 1, c);
    }
}

/// The last `c` before `to`: where it is found it is a `c` and no `c` comes
/// after it before `to`; where none is found there is no `c` before `to`.
pub proof fn lemma_rfind_byte_before(b: Seq<u8>, to: int, c: u8)
    requires
        to <= b.len(),
    ensures
        match rfind_byte_before(b, to, c) {
            Some(i) => 0 <= i < to && b[i] == c && forall|k: int| i < k < to ==> b[k] != c,
            None => forall|k: int| 0 <= k < to ==> b[k] != c,
        },
    decreases to,
{
    if 0 < to && b[to - 1] != c {
        lemma_rfind_byte_before(b, to - 1, c);
    }
}

/// Rounding down lands on the greatest char boundary at or below `i`: no
/// boundary lies strictly between the result and `i`.
pub proof fn lemma_floor_greatest(b: Seq<u8>, i: int)
    requires
        0 <= i < b.len(),
    ensures
        forall|k: int| floor_boundary(b, i) < k <= i ==> !is_char_boundary(b, k),
    decreases i,
{
    if i > 0 && !is_char_boundary(b, i) {
        lemma_floor_greatest(b, i - 1);
    }
}

/// Rounding up lands on the least char boundary at or above `i` (or the end
/// of the text): no boundary lies from `i` up to the result.
pub proof fn lemma_ceil_least(b: Seq<u8>, i: int)
    requires
        0 <= i <= b.len(),
    ensures
        forall|k: int| i <= k < ceil_boundary(b, i) ==> !is_char_boundary(b, k),
        ceil_boundary(b, i) == b.len() || is_char_boundary(b, ceil_boundary(b, i)),
    decreases b.len() - i,
{
    if i < b.len() && !is_char_boundary(b, i) {
        lemma_ceil_least(b, i + 1);
    }
}

} // verus!
