//! Carrying a caret offset from one version of a text to another.

use crate::text::{
    bytes_of, ceil_boundary, ceil_char_boundary, floor_boundary, floor_char_boundary,
    lemma_ceil_boundary, lemma_floor_boundary, text_len,
};
use vstd::prelude::*;

verus! {

/// The length of the common prefix of `a` and `c` from index `i` on.
pub open spec fn common_prefix_len(a: Seq<u8>, c: Seq<u8>, i: int) -> int
    decreases a.len() - i,
{
    if 0 <= i < a.len() && i < c.len() && a[i] == c[i] {
        common_prefix_len(a, c, i + 1)
    } else {
        i
    }
}

/// The length, at most `limit`, of the common suffix of `a` and `c`, counting
/// from `x` bytes already matched.
pub open spec fn common_suffix_len(a: Seq<u8>, c: Seq<u8>, x: int, limit: int) -> int
    decreases limit - x,
{
    if 0 <= x < limit && x < a.len() && x < c.len() && a[a.len() - 1 - x] == c[c.len() - 1 - x] {
        common_suffix_len(a, c, x + 1, limit)
    } else {
        x
    }
}

/// `x / y` rounded to the nearest integer, halves rounding up.
pub open spec fn div_round(x: int, y: int) -> int {
    x / y + if 2 * (x % y) >= y { 1int } else { 0int }
}

/// Where byte offset `offset` of text `a` lands in text `c`. The texts are
/// compared character by character: the common prefix `p` and (after it) the
/// common suffix of `s` bytes are left in place; offsets in the prefix stay,
/// offsets in the suffix keep their distance from the end, and offsets inside
/// the changed middle are scaled into the new middle, rounded to the nearest
/// byte.
pub open spec fn map_offset(a: Seq<u8>, c: Seq<u8>, offset: int) -> int {
    let p = floor_boundary(a, common_prefix_len(a, c, 0));
    if offset <= p {
        offset
    } else {
        let limit = if a.len() - p < c.len() - p { a.len() - p } else { c.len() - p };
        let sb = common_suffix_len(a, c, 0, limit);
        let s = a.len() - ceil_boundary(a, a.len() - sb);
        if offset >= a.len() - s {
            if c.len() >= a.len() - offset {
                c.len() - (a.len() - offset)
            } else {
                0
            }
        } else {
            let ecur = if a.len() - s > p { a.len() - s - p } else { 0 };
            let ecomp = if c.len() - s > p { c.len() - s - p } else { 0 };
            if ecur == 0 {
                p
            } else {
                let m = p + div_round((offset - p) * ecomp, ecur);
                if m < c.len() - s { m } else { c.len() - s }
            }
        }
    }
}

proof fn lemma_common_prefix(a: Seq<u8>, c: Seq<u8>, i: int)
    requires
        0 <= i,
    ensures
        i <= common_prefix_len(a, c, i),
        i <= a.len() && i <= c.len() ==> common_prefix_len(a, c, i) <= a.len() && common_prefix_len(a, c, i) <= c.len(),
    decreases a.len() - i,
{
    if 0 <= i < a.len() && i < c.len() && a[i] == c[i] {
        lemma_common_prefix(a, c, i + 1);
    }
}

proof fn lemma_common_suffix(a: Seq<u8>, c: Seq<u8>, x: int, limit: int)
    requires
        0 <= x <= limit,
    ensures
        x <= common_suffix_len(a, c, x, limit) <= limit,
    decreases limit - x,
{
    if 0 <= x < limit && x < a.len() && x < c.len() && a[a.len() - 1 - x] == c[c.len() - 1 - x] {
        lemma_common_suffix(a, c, x + 1, limit);
    }
}

proof fn lemma_common_prefix_self(a: Seq<u8>, i: int)
    requires
        0 <= i <= a.len(),
    ensures
        common_prefix_len(a, a, i) == a.len(),
    decreases a.len() - i,
{
    if i < a.len() {
        lemma_common_prefix_self(a, i + 1);
    }
}

/// An offset carried between two identical texts stays where it is.
pub proof fn law_map_offset_identity(a: Seq<u8>, offset: int)
    requires
        0 <= offset <= a.len(),
    ensures
        map_offset(a, a, offset) == offset,
{
    lemma_common_prefix_self(a, 0);
}

/// A carried offset always lies within the new text.
pub proof fn law_map_offset_in_new_text(a: Seq<u8>, c: Seq<u8>, offset: int)
    requires
        vstd::utf8::valid_utf8(a),
        0 <= offset <= a.len(),
    ensures
        0 <= map_offset(a, c, offset) <= c.len(),
{
    lemma_common_prefix(a, c, 0);
    let cpl = common_prefix_len(a, c, 0);
    lemma_floor_boundary(a, cpl);
    let p = floor_boundary(a, cpl);
    if offset > p {
        let limit = if a.len() - p < c.len() - p { a.len() - p } else { c.len() - p };
        lemma_common_suffix(a, c, 0, limit);
        let sb = common_suffix_len(a, c, 0, limit);
        lemma_ceil_boundary(a, a.len() - sb);
        let s = a.len() - ceil_boundary(a, a.len() - sb);
        if offset < a.len() - s {
            let ecur = if a.len() - s > p { a.len() - s - p } else { 0 };
            let ecomp = if c.len() - s > p { c.len() - s - p } else { 0 };
            if ecur != 0 {
                let x = (offset - p) * ecomp;
                assert(x >= 0) by (nonlinear_arith)
                    requires
                        offset - p >= 0,
                        ecomp >= 0,
                        x == (offset - p) * ecomp,
                ;
                assert(div_round(x, ecur) >= 0) by (nonlinear_arith)
                    requires
                        x >= 0,
                        ecur > 0,
                ;
            }
        }
    }
}

/// Rounding to the nearest integer keeps the order of the numerators.
proof fn lemma_div_round_monotone(x1: int, x2: int, y: int)
    requires
        x1 <= x2,
        y > 0,
    ensures
        div_round(x1, y) <= div_round(x2, y),
{
    vstd::arithmetic::div_mod::lemma_div_is_ordered(x1, x2, y);
    vstd::arithmetic::div_mod::lemma_fundamental_div_mod(x1, y);
    vstd::arithmetic::div_mod::lemma_fundamental_div_mod(x2, y);
    vstd::arithmetic::div_mod::lemma_mod_bound(x1, y);
    vstd::arithmetic::div_mod::lemma_mod_bound(x2, y);
    if x1 / y == x2 / y {
        assert(y * (x1 / y) == y * (x2 / y));
    }
}

/// Carrying offsets keeps their order: an offset before another lands before
/// it (or on the same place) in the new text.
pub proof fn law_map_offset_monotone(a: Seq<u8>, c: Seq<u8>, o1: int, o2: int)
    requires
        vstd::utf8::valid_utf8(a),
        0 <= o1 <= o2 <= a.len(),
    ensures
        map_offset(a, c, o1) <= map_offset(a, c, o2),
{
    lemma_common_prefix(a, c, 0);
    let cpl = common_prefix_len(a, c, 0);
    lemma_floor_boundary(a, cpl);
    let p = floor_boundary(a, cpl);
    let limit = if a.len() - p < c.len() - p { a.len() - p } else { c.len() - p };
    lemma_common_suffix(a, c, 0, limit);
    let sb = common_suffix_len(a, c, 0, limit);
    lemma_ceil_boundary(a, a.len() - sb);
    let s = a.len() - ceil_boundary(a, a.len() - sb);
    let ecur = if a.len() - s > p { a.len() - s - p } else { 0 };
    let ecomp = if c.len() - s > p { c.len() - s - p } else { 0 };
    assert(p <= a.len() - s && p <= c.len() - s);
    if p < o1 && o2 < a.len() - s {
        let x1 = (o1 - p) * ecomp;
        let x2 = (o2 - p) * ecomp;
        assert(x1 <= x2) by (nonlinear_arith)
            requires
                o1 <= o2,
                ecomp >= 0,
                x1 == (o1 - p) * ecomp,
                x2 == (o2 - p) * ecomp,
        ;
        lemma_div_round_monotone(x1, x2, ecur);
    } else if p < o2 && o2 < a.len() - s {
        let x2 = (o2 - p) * ecomp;
        assert(x2 >= 0) by (nonlinear_arith)
            requires
                o2 - p >= 0,
                ecomp >= 0,
                x2 == (o2 - p) * ecomp,
        ;
        lemma_div_round_monotone(0, x2, ecur);
    }
}

/// Rounding half up: the rounded quotient is within half a step of the true
/// one, at most half above and less than half below.
proof fn lemma_div_round_bounds(x: int, y: int)
    requires
        x >= 0,
        y > 0,
    ensures
        2 * (div_round(x, y) * y - x) <= y,
        2 * (x - div_round(x, y) * y) < y,
{
    let q = x / y;
    let r = x % y;
    vstd::arithmetic::div_mod::lemma_fundamental_div_mod(x, y);
    vstd::arithmetic::div_mod::lemma_mod_bound(x, y);
    assert(x == q * y + r) by (nonlinear_arith)
        requires
            x == y * q + r,
    ;
    if 2 * r >= y {
        assert(div_round(x, y) * y == q * y + y) by (nonlinear_arith)
            requires
                div_round(x, y) == q + 1,
        ;
    } else {
        assert(div_round(x, y) == q);
    }
}

/// An offset inside the changed middle of the text is carried in proportion:
/// with a common prefix of `p` bytes and a common suffix of `s` bytes, an
/// offset `o` between them lands at `p + m`, where `m` is
/// `(o - p) * new_middle / old_middle` rounded to the nearest integer
/// (halves up): `m` is at most half a byte above the exact value, and less
/// than half a byte below it. The result stays within the new middle.
pub proof fn law_map_offset_in_middle_is_proportional(a: Seq<u8>, c: Seq<u8>, o: int)
    requires
        vstd::utf8::valid_utf8(a),
        ({
            let p = floor_boundary(a, common_prefix_len(a, c, 0));
            let limit = if a.len() - p < c.len() - p { a.len() - p } else { c.len() - p };
            let s = a.len() - ceil_boundary(a, a.len() - common_suffix_len(a, c, 0, limit));
            p < o < a.len() - s
        }),
    ensures
        ({
            let p = floor_boundary(a, common_prefix_len(a, c, 0));
            let limit = if a.len() - p < c.len() - p { a.len() - p } else { c.len() - p };
            let s = a.len() - ceil_boundary(a, a.len() - common_suffix_len(a, c, 0, limit));
            let old_mid = a.len() - s - p;
            let new_mid = c.len() - s - p;
            let m = map_offset(a, c, o) - p;
            &&& 0 <= m <= new_mid
            &&& 2 * (m * old_mid - (o - p) * new_mid) <= old_mid
            &&& 2 * ((o - p) * new_mid - m * old_mid) < old_mid
        }),
{
    lemma_common_prefix(a, c, 0);
    let cpl = common_prefix_len(a, c, 0);
    lemma_floor_boundary(a, cpl);
    let p = floor_boundary(a, cpl);
    let limit = if a.len() - p < c.len() - p { a.len() - p } else { c.len() - p };
    lemma_common_suffix(a, c, 0, limit);
    let sb = common_suffix_len(a, c, 0, limit);
    lemma_ceil_boundary(a, a.len() - sb);
    let s = a.len() - ceil_boundary(a, a.len() - sb);
    assert(p <= a.len() - s && p <= c.len() - s);
    let ecur = a.len() - s - p;
    let ecomp = c.len() - s - p;
    let x = (o - p) * ecomp;
    assert(0 <= x && x <= (ecur - 1) * ecomp) by (nonlinear_arith)
        requires
            0 < o - p < ecur,
            ecomp >= 0,
            x == (o - p) * ecomp,
    ;
    lemma_div_round_bounds(x, ecur);
    let r = div_round(x, ecur);
    assert(0 <= r) by (nonlinear_arith)
        requires
            2 * (x - r * ecur) < ecur,
            x >= 0,
            ecur > 0,
    ;
    assert(r <= ecomp) by (nonlinear_arith)
        requires
            2 * (r * ecur - x) <= ecur,
            x <= (ecur - 1) * ecomp,
            ecur > 0,
            ecomp >= 0,
    ;
    assert(map_offset(a, c, o) == p + r);
}

/// Offsets in the unchanged start of the text (up to the common prefix,
/// rounded down to a char boundary) stay where they are, and offsets in the
/// unchanged end keep their distance from the end of the text.
pub proof fn law_map_offset_keeps_unchanged_parts(a: Seq<u8>, c: Seq<u8>, o: int)
    requires
        vstd::utf8::valid_utf8(a),
        0 <= o <= a.len(),
    ensures
        ({
            let p = floor_boundary(a, common_prefix_len(a, c, 0));
            let limit = if a.len() - p < c.len() - p { a.len() - p } else { c.len() - p };
            let s = a.len() - ceil_boundary(a, a.len() - common_suffix_len(a, c, 0, limit));
            &&& o <= p ==> map_offset(a, c, o) == o
            &&& p < o && o >= a.len() - s ==> map_offset(a, c, o) == c.len() - (a.len() - o)
            &&& forall|k: int| 0 <= k < p ==> a[k] == c[k]
        }),
{
    lemma_common_prefix(a, c, 0);
    let cpl = common_prefix_len(a, c, 0);
    lemma_common_prefix_agrees(a, c, 0);
    lemma_floor_boundary(a, cpl);
    crate::text::lemma_floor_upper(a, cpl);
    let p = floor_boundary(a, cpl);
    let limit = if a.len() - p < c.len() - p { a.len() - p } else { c.len() - p };
    lemma_common_suffix(a, c, 0, limit);
    let sb = common_suffix_len(a, c, 0, limit);
    lemma_ceil_boundary(a, a.len() - sb);
    let s = a.len() - ceil_boundary(a, a.len() - sb);
    assert(p <= a.len() - s && s <= c.len() - p);
}

/// The bytes before the common prefix length agree.
proof fn lemma_common_prefix_agrees(a: Seq<u8>, c: Seq<u8>, i: int)
    requires
        0 <= i,
    ensures
        forall|k: int| i <= k < common_prefix_len(a, c, i) ==> a[k] == c[k],
    decreases a.len() - i,
{
    if 0 <= i < a.len() && i < c.len() && a[i] == c[i] {
        lemma_common_prefix_agrees(a, c, i + 1);
    }
}

/// Maps a byte offset from one version of a text (`current`) to another
/// (`compiled`), keeping its place relative to the longest common prefix and
/// suffix of the two versions.
pub fn map_offset_between_texts(current: &str, compiled: &str, offset: usize) -> (r: usize)
    requires
        offset <= bytes_of(current).len(),
    ensures
        r == map_offset(bytes_of(current), bytes_of(compiled), offset as int),
{
    proof {
        vstd::utf8::encode_utf8_valid_utf8(current@);
    }
    let a = current.as_bytes();
    let c = compiled.as_bytes();
    let alen = a.len();
    let clen = c.len();
    let mut i: usize = 0;
    while i < alen && i < clen && a[i] == c[i]
        invariant
            i <= alen == a@.len(),
            clen == c@.len(),
            a@ == bytes_of(current),
            c@ == bytes_of(compiled),
            common_prefix_len(a@, c@, i as int) == common_prefix_len(a@, c@, 0),
        decreases alen - i,
    {
        i = i + 1;
    }
    let p = floor_char_boundary(current, i);
    proof {
        lemma_floor_boundary(a@, i as int);
        lemma_common_prefix(a@, c@, 0);
    }
    if offset <= p {
        return offset;
    }
    let limit = if alen - p < clen - p { alen - p } else { clen - p };
    let mut x: usize = 0;
    while x < limit && x < alen && x < clen && a[alen - 1 - x] == c[clen - 1 - x]
        invariant
            x <= limit,
            alen == a@.len(),
            clen == c@.len(),
            a@ == bytes_of(current),
            c@ == bytes_of(compiled),
            common_suffix_len(a@, c@, x as int, limit as int) == common_suffix_len(a@, c@, 0, limit as int),
        decreases limit - x,
    {
        x = x + 1;
    }
    proof {
        lemma_common_suffix(a@, c@, 0, limit as int);
    }
    let s = alen - ceil_char_boundary(current, alen - x);
    if offset >= alen - s {
        let diff_from_end = alen - offset;
        return clen.saturating_sub(diff_from_end);
    }
    let ecur = (alen - s).saturating_sub(p);
    let ecomp = (clen - s).saturating_sub(p);
    if ecur == 0 {
        return p;
    }
    let d = (offset - p) as u128;
    let e2 = ecomp as u128;
    assert(d * e2 <= u128::MAX) by (nonlinear_arith)
        requires
            d <= 0xffff_ffff_ffff_ffffu128,
            e2 <= 0xffff_ffff_ffff_ffffu128,
    ;
    let prod = d * e2;
    let q = prod / (ecur as u128);
    let rem = prod % (ecur as u128);
    let ec = ecur as u128;
    assert(q <= e2) by (nonlinear_arith)
        requires
            prod == d * e2,
            d < ec,
            ec > 0,
            q == prod / ec,
    ;
    let up: u128 = if 2 * rem >= ecur as u128 { 1 } else { 0 };
    let cap = clen - s;
    let m = (p as u128) + q + up;
    if m < cap as u128 {
        m as usize
    } else {
        cap
    }
}

/// The lengths in bytes of the longest common prefix of `old` and `new`, and
/// of the longest common suffix of what follows that prefix in each.
pub fn find_common_prefix_suffix(old: &str, new: &str) -> (r: (usize, usize))
    ensures
        r.0 == common_prefix_len(bytes_of(old), bytes_of(new), 0),
        r.1 == common_suffix_len(
            bytes_of(old),
            bytes_of(new),
            0,
            if bytes_of(old).len() < bytes_of(new).len() {
                bytes_of(old).len() - r.0
            } else {
                bytes_of(new).len() - r.0
            },
        ),
        r.0 + r.1 <= bytes_of(old).len(),
        r.0 + r.1 <= bytes_of(new).len(),
{
    let a = old.as_bytes();
    let c = new.as_bytes();
    let alen = a.len();
    let clen = c.len();
    let mut p: usize = 0;
    while p < alen && p < clen && a[p] == c[p]
        invariant
            p <= alen == a@.len(),
            clen == c@.len(),
            a@ == bytes_of(old),
            c@ == bytes_of(new),
            common_prefix_len(a@, c@, p as int) == common_prefix_len(a@, c@, 0),
        decreases alen - p,
    {
        p = p + 1;
    }
    proof {
        lemma_common_prefix(a@, c@, 0);
    }
    let limit = if alen < clen { alen - p } else { clen - p };
    let mut x: usize = 0;
    while x < alen - p && x < clen - p && a[alen - 1 - x] == c[clen - 1 - x]
        invariant
            p <= alen == a@.len(),
            p <= clen == c@.len(),
            x <= limit,
            limit == if alen < clen { alen - p } else { clen - p },
            common_suffix_len(a@, c@, x as int, limit as int) == common_suffix_len(a@, c@, 0, limit as int),
        decreases limit - x,
    {
        x = x + 1;
    }
    proof {
        lemma_common_suffix(a@, c@, 0, limit as int);
    }
    (p, x)
}

} // verus!
