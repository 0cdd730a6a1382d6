//! Laws of the ribbon's styling commands.

use super::{
    ascii_bytes, char_at, char_before, edit_select, func_open, is_alnum, marker,
    other_marker, ribbon_command, toggle_style, unwrap_inside, unwrap_style, wrap_style,
};
use crate::editor::state::{edit_view, ActionView};
use std::ops::Range;
use crate::editor::workspace::{replaced, WorkspaceView};
use crate::math::common::span;
use crate::text::{
    floor_boundary, lemma_ascii_boundaries, lemma_boundary_concat, lemma_encode_concat, lemma_split3,
    span_ok,
};
use vstd::prelude::*;
use vstd::utf8::{decode_utf8, encode_utf8, is_char_boundary, valid_utf8};

verus! {

/// The UTF-8 bytes of ASCII characters are their codes.
proof fn lemma_encode_ascii(s: Seq<char>)
    requires
        forall|i: int| 0 <= i < s.len() ==> (s[i] as u32) < 128,
    ensures
        encode_utf8(s) == ascii_bytes(s),
    decreases s.len(),
{
    if s.len() == 0 {
        assert(ascii_bytes(s) =~= Seq::<u8>::empty());
    } else {
        let v = s[0] as u32;
        assert((v & 0x7F) == v) by (bit_vector)
            requires
                v < 128,
        ;
        lemma_encode_ascii(s.drop_first());
        assert(encode_utf8(s) == vstd::utf8::encode_scalar(v) + encode_utf8(s.drop_first()));
        assert(ascii_bytes(s) =~= seq![v as u8] + ascii_bytes(s.drop_first()));
    }
}

/// The UTF-8 bytes of the characters that adding a style puts around text.
proof fn lemma_encode_sides(bold: bool)
    ensures
        encode_utf8(seq![marker(bold)]) == seq![marker(bold) as u8],
        encode_utf8(func_open(bold)) == ascii_bytes(func_open(bold)),
        encode_utf8(seq![']']) == seq![93u8],
{
    lemma_encode_ascii(seq![marker(bold)]);
    lemma_encode_ascii(func_open(bold));
    lemma_encode_ascii(seq![']']);
    assert(ascii_bytes(seq![marker(bold)]) =~= seq![marker(bold) as u8]);
    assert(ascii_bytes(seq![']']) =~= seq![93u8]);
}

/// Rounding a char boundary down leaves it where it is.
proof fn lemma_floor_at_boundary(b: Seq<u8>, i: int)
    requires
        0 <= i <= b.len(),
        is_char_boundary(b, i),
    ensures
        floor_boundary(b, i) == i,
{
}

/// Whether `lb` and `rb` are what adding the style puts on either side of
/// the text: the markers, or the function form's opening and `]`.
pub open spec fn style_sides(lb: Seq<u8>, rb: Seq<u8>, bold: bool) -> bool {
    ||| lb == seq![marker(bold) as u8] && rb == seq![marker(bold) as u8]
    ||| lb == ascii_bytes(func_open(bold)) && rb == seq![93u8]
}

/// Adding the style, when the text holds no marker of the other style, puts
/// the markers or the function form around it, and selects the text.
proof fn lemma_wrap_sides(b: Seq<u8>, start: int, end: int, bold: bool) -> (r: (Seq<u8>, Seq<u8>))
    requires
        valid_utf8(b),
        span_ok(b, start, end),
        !decode_utf8(b.subrange(start, end)).contains(other_marker(bold)),
    ensures
        style_sides(r.0, r.1, bold),
        ({
            let mid = b.subrange(start, end);
            let a = wrap_style(b, start, end, bold);
            &&& a matches ActionView::Edit { range, replacement, new_selection, .. }
            &&& range == span(start, end)
            &&& encode_utf8(replacement) == r.0 + mid + r.1
            &&& new_selection == Some(span(start + r.0.len(), start + r.0.len() + mid.len()))
        }),
{
    let len = b.len() as int;
    lemma_split3(b, start, end);
    let mid = b.subrange(start, end);
    let sel = decode_utf8(mid);
    let touches = (start > 0 && is_alnum(char_before(b, start))) || (end < len
        && is_alnum(char_at(b, end)));
    let lc = if touches { func_open(bold) } else { seq![marker(bold)] };
    let rc = if touches { seq![']'] } else { seq![marker(bold)] };
    let rep = lc + sel + rc;
    lemma_encode_sides(bold);
    lemma_encode_concat(lc, sel);
    lemma_encode_concat(lc + sel, rc);
    let lb = encode_utf8(lc);
    let rb = encode_utf8(rc);
    vstd::utf8::decode_utf8_encode_utf8(mid);
    assert(encode_utf8(rep) == lb + mid + rb);
    (lb, rb)
}

/// The sides are UTF-8 of their own; the function form's opening ends in
/// `[`, which is no marker.
proof fn lemma_sides_valid(lb: Seq<u8>, rb: Seq<u8>, bold: bool)
    requires
        style_sides(lb, rb, bold),
    ensures
        valid_utf8(lb),
        valid_utf8(rb),
        1 <= lb.len() <= 8,
        rb.len() == 1,
        lb.len() > 1 ==> lb[lb.len() - 1] != marker(bold) as u8,
        lb.len() > 1 ==> lb == ascii_bytes(func_open(bold)) && rb[0] == 93u8,
        lb.len() == 1 ==> lb[0] == marker(bold) as u8 && rb[0] == marker(bold) as u8,
{
    lemma_encode_sides(bold);
    vstd::utf8::encode_utf8_valid_utf8(seq![marker(bold)]);
    vstd::utf8::encode_utf8_valid_utf8(func_open(bold));
    vstd::utf8::encode_utf8_valid_utf8(seq![']']);
}

/// Five UTF-8 pieces joined: the result is UTF-8, with char boundaries
/// where the middle piece starts and ends.
proof fn lemma_join5(pre: Seq<u8>, lb: Seq<u8>, mid: Seq<u8>, rb: Seq<u8>, post: Seq<u8>)
    requires
        valid_utf8(pre),
        valid_utf8(lb),
        valid_utf8(mid),
        valid_utf8(rb),
        valid_utf8(post),
    ensures
        valid_utf8(pre + lb + mid + rb + post),
        is_char_boundary(pre + lb + mid + rb + post, (pre.len() + lb.len()) as int),
        is_char_boundary(pre + lb + mid + rb + post, (pre.len() + lb.len() + mid.len()) as int),
{
    let b2 = pre + lb + mid + rb + post;
    lemma_boundary_concat(pre, lb);
    lemma_boundary_concat(rb, post);
    lemma_boundary_concat(mid, rb + post);
    lemma_boundary_concat(pre + lb, mid + (rb + post));
    assert(b2 =~= (pre + lb) + (mid + (rb + post)));
    lemma_boundary_concat(pre + lb, mid);
    lemma_boundary_concat(pre + lb + mid, rb + post);
    assert(b2 =~= (pre + lb + mid) + (rb + post));
}

/// With the markers or the function form just around the text, and nothing
/// just inside it, removing the style takes them away.
proof fn lemma_unwrap_style_sides(pre: Seq<u8>, lb: Seq<u8>, mid: Seq<u8>, rb: Seq<u8>, post: Seq<u8>, bold: bool)
    requires
        style_sides(lb, rb, bold),
        unwrap_inside(mid, 0, mid.len() as int, bold) is None,
    ensures
        ({
            let b2 = pre + lb + mid + rb + post;
            let s2 = (pre.len() + lb.len()) as int;
            let e2 = s2 + mid.len();
            unwrap_style(b2, s2, e2, bold) == Some(edit_select(
                span(pre.len() as int, e2 + rb.len()),
                decode_utf8(mid),
                e2 - lb.len(),
                span(pre.len() as int, e2 - lb.len()),
            ))
        }),
{
    lemma_sides_valid(lb, rb, bold);
    let b2 = pre + lb + mid + rb + post;
    let k = lb.len() as int;
    let s2 = pre.len() + k;
    let e2: int = s2 + mid.len();
    assert(b2.subrange(s2, e2) =~= mid);
    assert(mid.subrange(0, mid.len() as int) =~= mid);
    assert(unwrap_inside(b2, s2, e2, bold) is None);
    assert(b2[s2 - 1] == lb[k - 1]);
    assert(b2[e2] == rb[0]);
    assert(b2.subrange(s2 - k, s2) =~= lb);
}

/// Removing the style from text that has the markers or the function form
/// just around it, and nothing just inside, takes them away.
proof fn lemma_unwrap_sides(pre: Seq<u8>, lb: Seq<u8>, mid: Seq<u8>, rb: Seq<u8>, post: Seq<u8>, bold: bool)
    requires
        valid_utf8(pre),
        valid_utf8(mid),
        valid_utf8(post),
        style_sides(lb, rb, bold),
        unwrap_inside(mid, 0, mid.len() as int, bold) is None,
    ensures
        ({
            let b2 = pre + lb + mid + rb + post;
            let s2 = (pre.len() + lb.len()) as int;
            let e2 = s2 + mid.len();
            toggle_style(b2, s2, e2, bold) == edit_select(
                span(pre.len() as int, e2 + rb.len()),
                decode_utf8(mid),
                e2 - lb.len(),
                span(pre.len() as int, e2 - lb.len()),
            )
        }),
{
    lemma_sides_valid(lb, rb, bold);
    lemma_join5(pre, lb, mid, rb, post);
    let b2 = pre + lb + mid + rb + post;
    let s2 = (pre.len() + lb.len()) as int;
    let e2: int = s2 + mid.len();
    lemma_floor_at_boundary(b2, s2);
    lemma_floor_at_boundary(b2, e2);
    lemma_unwrap_style_sides(pre, lb, mid, rb, post, bold);
}

/// The first toggle, on text that has the style nowhere near it, adds the
/// sides around the text and selects the text.
#[verifier::rlimit(40)]
proof fn lemma_first_toggle(w: WorkspaceView, start: int, end: int, bold: bool) -> (r: (Seq<u8>, Seq<u8>))
    requires
        valid_utf8(w.text),
        span_ok(w.text, start, end),
        w.text.len() + 16 <= usize::MAX,
        unwrap_style(w.text, start, end, bold) is None,
        !decode_utf8(w.text.subrange(start, end)).contains(other_marker(bold)),
    ensures
        style_sides(r.0, r.1, bold),
        ({
            let b = w.text;
            let mid = b.subrange(start, end);
            let w1 = w.applied(toggle_style(b, start, end, bold), true);
            &&& w1.text == b.subrange(0, start) + r.0 + mid + r.1 + b.subrange(end, b.len() as int)
            &&& w1.selection == Some(span(start + r.0.len(), start + r.0.len() + mid.len()))
        }),
{
    let b = w.text;
    let (lb, rb) = lemma_wrap_sides(b, start, end, bold);
    lemma_sides_valid(lb, rb, bold);
    let a1 = toggle_style(b, start, end, bold);
    assert(a1 == wrap_style(b, start, end, bold)) by {
        lemma_floor_at_boundary(b, start);
        lemma_floor_at_boundary(b, end);
    }
    assert(encode_utf8(a1->replacement) == lb + b.subrange(start, end) + rb);
    (lb, rb)
}

/// Toggling a style twice gives back the text: when bold (or italic) is
/// added to text that holds no marker of the other style, toggling it again
/// on what the first toggle left selected takes it away again.
pub proof fn law_toggle_twice_restores_text(w: WorkspaceView, start: int, end: int, bold: bool)
    requires
        valid_utf8(w.text),
        span_ok(w.text, start, end),
        w.text.len() + 16 <= usize::MAX,
        unwrap_style(w.text, start, end, bold) is None,
        !decode_utf8(w.text.subrange(start, end)).contains(other_marker(bold)),
    ensures
        ({
            let w1 = w.applied(toggle_style(w.text, start, end, bold), true);
            &&& w1.selection is Some
            &&& w1.applied(
                toggle_style(w1.text, w1.selection->0.start as int, w1.selection->0.end as int, bold),
                true,
            ).text == w.text
        }),
{
    let b = w.text;
    let len = b.len() as int;
    lemma_split3(b, start, end);
    let pre = b.subrange(0, start);
    let mid = b.subrange(start, end);
    let post = b.subrange(end, len);
    let (lb, rb) = lemma_first_toggle(w, start, end, bold);
    lemma_sides_valid(lb, rb, bold);
    let w1 = w.applied(toggle_style(b, start, end, bold), true);
    let s2 = start + lb.len();
    let e2 = s2 + mid.len();
    assert(unwrap_inside(mid, 0, mid.len() as int, bold) is None) by {
        assert(mid.subrange(0, mid.len() as int) =~= mid);
        assert(unwrap_inside(b, start, end, bold) is None);
    }
    lemma_unwrap_sides(pre, lb, mid, rb, post, bold);
    let a2 = toggle_style(w1.text, s2, e2, bold);
    vstd::utf8::decode_utf8_encode_utf8(mid);
    assert(w1.applied(a2, true).text == replaced(w1.text, span(start, e2 + rb.len()), mid));
    assert(replaced(w1.text, span(start, e2 + rb.len()), mid) =~= b);
}

/// A space is a character of its own: one byte 32 decodes to `' '`.
proof fn lemma_decode_space()
    ensures
        decode_utf8(seq![32u8]) == seq![' '],
{
    lemma_encode_ascii(seq![' ']);
    assert(ascii_bytes(seq![' ']) =~= seq![32u8]);
    vstd::utf8::encode_utf8_decode_utf8(seq![' ']);
}

/// UTF-8 text that ends in a space decodes to characters ending in `' '`.
proof fn lemma_last_space(b: Seq<u8>)
    requires
        valid_utf8(b),
        b.len() > 0,
        b.last() == 32u8,
    ensures
        decode_utf8(b).last() == ' ',
{
    let k = b.len() - 1;
    lemma_ascii_boundaries(b, k);
    vstd::utf8::decode_utf8_split(b, k);
    vstd::utf8::valid_utf8_split(b, k);
    assert(b.subrange(k, b.len() as int) =~= seq![32u8]);
    lemma_decode_space();
}

/// UTF-8 text that starts with a space decodes to characters starting with
/// `' '`.
proof fn lemma_first_space(b: Seq<u8>)
    requires
        valid_utf8(b),
        b.len() > 0,
        b[0] == 32u8,
    ensures
        decode_utf8(b)[0] == ' ',
{
    lemma_ascii_boundaries(b, 0);
    vstd::utf8::decode_utf8_split(b, 1);
    vstd::utf8::valid_utf8_split(b, 1);
    assert(b.subrange(0, 1) =~= seq![32u8]);
    lemma_decode_space();
}

/// Whether `x` is a word of ASCII letters and digits.
pub open spec fn ascii_word(x: Seq<char>) -> bool {
    &&& x.len() > 0
    &&& forall|i: int| 0 <= i < x.len() ==> (x[i] as u32) < 128 && #[trigger] is_alnum(x[i])
}

/// Neither markers nor a function form stand inside an ASCII word.
proof fn lemma_word_inside(x: Seq<char>, bold: bool)
    requires
        ascii_word(x),
    ensures
        encode_utf8(x) == ascii_bytes(x),
        valid_utf8(encode_utf8(x)),
        decode_utf8(encode_utf8(x)) == x,
        !x.contains(other_marker(bold)),
        unwrap_inside(encode_utf8(x), 0, x.len() as int, bold) is None,
{
    assert forall|i: int| 0 <= i < x.len() implies (x[i] as u32) < 128 by {
        assert(is_alnum(x[i]));
    }
    lemma_encode_ascii(x);
    vstd::utf8::encode_utf8_valid_utf8(x);
    vstd::utf8::encode_utf8_decode_utf8(x);
    let m = encode_utf8(x);
    assert(is_alnum(x[0]));
    assert(m[0] == (x[0] as u32) as u8);
    assert(m.subrange(0, x.len() as int) =~= m);
    if x.contains(other_marker(bold)) {
        let i = choose|i: int| 0 <= i < x.len() && x[i] == other_marker(bold);
        assert(is_alnum(x[i]));
    }
    if x.len() >= 8 {
        assert(m.subrange(0, 8)[0] == m[0]);
    }
    if x.len() >= 6 {
        assert(m.subrange(0, 6)[0] == m[0]);
    }
}

/// Whether nothing styles the text at all depends only on the text itself.
proof fn lemma_unwrap_inside_local(b: Seq<u8>, s: int, e: int, bold: bool)
    requires
        0 <= s <= e <= b.len(),
    ensures
        (unwrap_inside(b, s, e, bold) is None) == (unwrap_inside(b.subrange(s, e), 0, e - s, bold) is None),
{
    assert(b.subrange(s, e).subrange(0, e - s) =~= b.subrange(s, e));
}

/// Around a lone ASCII word, nothing styles it yet and no letter or digit
/// touches it.
proof fn lemma_lone_word(pre: Seq<u8>, x: Seq<char>, post: Seq<u8>, bold: bool)
    requires
        valid_utf8(pre),
        valid_utf8(post),
        ascii_word(x),
        pre.len() == 0 || pre.last() == 32u8,
        post.len() == 0 || post[0] == 32u8,
    ensures
        ({
            let b = pre + encode_utf8(x) + post;
            let s = pre.len() as int;
            let e = s + x.len();
            &&& valid_utf8(b)
            &&& span_ok(b, s, e)
            &&& b.subrange(0, s) == pre
            &&& b.subrange(s, e) == encode_utf8(x)
            &&& b.subrange(e, b.len() as int) == post
            &&& unwrap_style(b, s, e, bold) is None
            &&& !(s > 0 && is_alnum(char_before(b, s)))
            &&& !(e < b.len() && is_alnum(char_at(b, e)))
        }),
{
    lemma_word_inside(x, bold);
    let mid = encode_utf8(x);
    let b = pre + mid + post;
    let s = pre.len() as int;
    let e = s + x.len();
    let len = b.len() as int;
    let k = func_open(bold).len() as int;
    lemma_join5(pre, Seq::empty(), mid, Seq::empty(), post);
    assert(pre + Seq::<u8>::empty() + mid + Seq::<u8>::empty() + post =~= b);
    assert(b.subrange(0, s) =~= pre);
    assert(b.subrange(s, e) =~= mid);
    assert(b.subrange(e, len) =~= post);
    lemma_unwrap_inside_local(b, s, e, bold);
    if s > 0 {
        assert(b[s - 1] == 32u8);
        if s >= k {
            assert(b.subrange(s - k, s)[k - 1] == b[s - 1]);
        }
        lemma_last_space(pre);
    }
    if e < len {
        assert(b[e] == 32u8);
        lemma_first_space(post);
    }
}

/// The first click of the style on a lone ASCII word puts its markers
/// around it.
proof fn lemma_word_first(pre: Seq<u8>, x: Seq<char>, post: Seq<u8>, bold: bool)
    requires
        valid_utf8(pre),
        valid_utf8(post),
        ascii_word(x),
        pre.len() == 0 || pre.last() == 32u8,
        post.len() == 0 || post[0] == 32u8,
        pre.len() + x.len() + post.len() + 16 <= usize::MAX,
    ensures
        ({
            let b = pre + encode_utf8(x) + post;
            let s = pre.len() as int;
            let e = s + x.len();
            let m = marker(bold);
            &&& encode_utf8(seq![m] + x + seq![m]) == seq![m as u8] + encode_utf8(x) + seq![m as u8]
            &&& toggle_style(b, s, e, bold) == edit_select(
                span(s, e),
                seq![m] + x + seq![m],
                e + 2,
                span(s + 1, e + 1),
            )
        }),
{
    lemma_word_inside(x, bold);
    lemma_lone_word(pre, x, post, bold);
    let mid = encode_utf8(x);
    let b = pre + mid + post;
    let s = pre.len() as int;
    let e = s + x.len();
    let m = marker(bold);
    lemma_floor_at_boundary(b, s);
    lemma_floor_at_boundary(b, e);
    let rep = seq![m] + x + seq![m];
    lemma_encode_sides(bold);
    lemma_encode_concat(seq![m], x);
    lemma_encode_concat(seq![m] + x, seq![m]);
    assert(encode_utf8(rep) == seq![m as u8] + mid + seq![m as u8]);
    assert(toggle_style(b, s, e, bold) == wrap_style(b, s, e, bold));
}

/// Bold (or italic) with a non-empty selection within the text toggles the
/// style on it.
proof fn lemma_style_on_selection(b: Seq<u8>, cursor: usize, s: int, e: int, bold: bool)
    requires
        0 <= s < e <= b.len(),
        b.len() <= usize::MAX,
    ensures
        ribbon_command(b, cursor, Some(span(s, e)), if bold { "bold"@ } else { "italic"@ }) == toggle_style(
            b,
            s,
            e,
            bold,
        ),
{
    reveal_strlit("bold");
    reveal_strlit("italic");
    assert("bold"@.len() != "italic"@.len());
}

/// The second click, with the markers around the selected word, takes them
/// away again.
proof fn lemma_word_second(pre: Seq<u8>, x: Seq<char>, post: Seq<u8>, bold: bool)
    requires
        valid_utf8(pre),
        valid_utf8(post),
        ascii_word(x),
        pre.len() + x.len() + post.len() + 16 <= usize::MAX,
    ensures
        ({
            let mid = encode_utf8(x);
            let mb = seq![marker(bold) as u8];
            let b2 = pre + mb + mid + mb + post;
            let s = pre.len() as int;
            let e = s + x.len();
            &&& toggle_style(b2, s + 1, e + 1, bold) == edit_select(span(s, e + 2), x, e, span(s, e))
            &&& replaced(b2, span(s, e + 2), mid) == pre + mid + post
        }),
{
    lemma_word_inside(x, bold);
    let mid = encode_utf8(x);
    let mb = seq![marker(bold) as u8];
    let b2 = pre + mb + mid + mb + post;
    let s = pre.len() as int;
    let e = s + x.len();
    lemma_unwrap_sides(pre, mb, mid, mb, post, bold);
    assert(mid.len() == x.len());
    assert(b2.subrange(0, s) =~= pre);
    assert(b2.subrange(e + 2, b2.len() as int) =~= post);
    assert(replaced(b2, span(s, e + 2), mid) =~= pre + mid + post);
}

/// The round trip of a style on a lone ASCII word.
proof fn lemma_word_round_trip(pre: Seq<u8>, x: Seq<char>, post: Seq<u8>, cursor: usize, cursor2: usize, bold: bool)
    requires
        valid_utf8(pre),
        valid_utf8(post),
        ascii_word(x),
        pre.len() == 0 || pre.last() == 32u8,
        post.len() == 0 || post[0] == 32u8,
        pre.len() + x.len() + post.len() + 16 <= usize::MAX,
    ensures
        ({
            let b = pre + encode_utf8(x) + post;
            let s = pre.len() as int;
            let e = s + x.len();
            let m = marker(bold);
            let action = if bold { "bold"@ } else { "italic"@ };
            let rep = seq![m] + x + seq![m];
            let b2 = replaced(b, span(s, e), encode_utf8(rep));
            &&& ribbon_command(b, cursor, Some(span(s, e)), action) == edit_select(
                span(s, e),
                rep,
                e + 2,
                span(s + 1, e + 1),
            )
            &&& ribbon_command(b2, cursor2, Some(span(s + 1, e + 1)), action) == edit_select(
                span(s, e + 2),
                x,
                e,
                span(s, e),
            )
            &&& replaced(b2, span(s, e + 2), encode_utf8(x)) == b
        }),
{
    lemma_word_inside(x, bold);
    lemma_lone_word(pre, x, post, bold);
    lemma_word_first(pre, x, post, bold);
    let mid = encode_utf8(x);
    let b = pre + mid + post;
    let s = pre.len() as int;
    let e = s + x.len();
    let m = marker(bold);
    let rep = seq![m] + x + seq![m];
    lemma_style_on_selection(b, cursor, s, e, bold);
    let b2 = replaced(b, span(s, e), encode_utf8(rep));
    assert(b2 =~= pre + seq![m as u8] + mid + seq![m as u8] + post);
    lemma_word_second(pre, x, post, bold);
    lemma_style_on_selection(b2, cursor2, s + 1, e + 1, bold);
}

/// Bold on a word of ASCII letters and digits with a space or an end of the
/// text on either side: the first click puts `*` around the word and keeps
/// the word selected; the second takes them away again, giving back the
/// text with the word selected.
pub proof fn law_bold_word_round_trip(pre: Seq<u8>, x: Seq<char>, post: Seq<u8>, cursor: usize, cursor2: usize)
    requires
        valid_utf8(pre),
        valid_utf8(post),
        ascii_word(x),
        pre.len() == 0 || pre.last() == 32u8,
        post.len() == 0 || post[0] == 32u8,
        pre.len() + x.len() + post.len() + 16 <= usize::MAX,
    ensures
        ({
            let b = pre + encode_utf8(x) + post;
            let s = pre.len() as int;
            let e = s + x.len();
            let rep = seq!['*'] + x + seq!['*'];
            let b2 = replaced(b, span(s, e), encode_utf8(rep));
            &&& ribbon_command(b, cursor, Some(span(s, e)), "bold"@) == edit_select(
                span(s, e),
                rep,
                e + 2,
                span(s + 1, e + 1),
            )
            &&& ribbon_command(b2, cursor2, Some(span(s + 1, e + 1)), "bold"@) == edit_select(
                span(s, e + 2),
                x,
                e,
                span(s, e),
            )
            &&& replaced(b2, span(s, e + 2), encode_utf8(x)) == b
        }),
{
    lemma_word_round_trip(pre, x, post, cursor, cursor2, true);
}

/// Italic on a word of ASCII letters and digits with a space or an end of
/// the text on either side: the first click puts `_` around the word and
/// keeps the word selected; the second takes them away again, giving back
/// the text with the word selected.
pub proof fn law_italic_word_round_trip(pre: Seq<u8>, x: Seq<char>, post: Seq<u8>, cursor: usize, cursor2: usize)
    requires
        valid_utf8(pre),
        valid_utf8(post),
        ascii_word(x),
        pre.len() == 0 || pre.last() == 32u8,
        post.len() == 0 || post[0] == 32u8,
        pre.len() + x.len() + post.len() + 16 <= usize::MAX,
    ensures
        ({
            let b = pre + encode_utf8(x) + post;
            let s = pre.len() as int;
            let e = s + x.len();
            let rep = seq!['_'] + x + seq!['_'];
            let b2 = replaced(b, span(s, e), encode_utf8(rep));
            &&& ribbon_command(b, cursor, Some(span(s, e)), "italic"@) == edit_select(
                span(s, e),
                rep,
                e + 2,
                span(s + 1, e + 1),
            )
            &&& ribbon_command(b2, cursor2, Some(span(s + 1, e + 1)), "italic"@) == edit_select(
                span(s, e + 2),
                x,
                e,
                span(s, e),
            )
            &&& replaced(b2, span(s, e + 2), encode_utf8(x)) == b
        }),
{
    lemma_word_round_trip(pre, x, post, cursor, cursor2, false);
}

/// Every template command inserts, at the caret (moved back to the end of
/// the text when past it), exactly the text of the ribbon's table for it,
/// with the caret at the offset the table gives, whatever the text and the
/// selection: headings, lists, each math structure and Greek letter, the
/// exits, and the code snippets.
pub proof fn law_templates_insert_their_text(b: Seq<u8>, cursor: usize, selection: Option<Range<usize>>)
    requires
        b.len() + 32 <= usize::MAX,
    ensures
        ({
            let p = if (cursor as int) < b.len() { cursor as int } else { b.len() as int };
            &&& ribbon_command(b, cursor, selection, "heading"@) == edit_view(span(p, p), "\n= New Section\n"@, p + 14)
            &&& ribbon_command(b, cursor, selection, "list"@) == edit_view(span(p, p), "\n- List Item\n"@, p + 13)
            &&& ribbon_command(b, cursor, selection, "math_formula"@) == edit_view(span(p, p), " $? = ?_?$ "@, p + 2)
            &&& ribbon_command(b, cursor, selection, "math_frac"@) == edit_view(span(p, p), " (? / ?) "@, p + 2)
            &&& ribbon_command(b, cursor, selection, "math_super"@) == edit_view(span(p, p), " ?^? "@, p + 1)
            &&& ribbon_command(b, cursor, selection, "math_sub"@) == edit_view(span(p, p), " ?_? "@, p + 1)
            &&& ribbon_command(b, cursor, selection, "math_root"@) == edit_view(span(p, p), " sqrt(?) "@, p + 6)
            &&& ribbon_command(b, cursor, selection, "math_mat"@) == edit_view(span(p, p), " mat(?, ?; ?, ?) "@, p + 5)
            &&& ribbon_command(b, cursor, selection, "math_sum"@) == edit_view(span(p, p), " sum_(?)^(?) "@, p + 6)
            &&& ribbon_command(b, cursor, selection, "math_int"@) == edit_view(span(p, p), " integral_(?)^(?) "@, p + 10)
            &&& ribbon_command(b, cursor, selection, "math_alpha"@) == edit_view(span(p, p), " alpha "@, p + 6)
            &&& ribbon_command(b, cursor, selection, "math_beta"@) == edit_view(span(p, p), " beta "@, p + 5)
            &&& ribbon_command(b, cursor, selection, "math_gamma"@) == edit_view(span(p, p), " gamma "@, p + 6)
            &&& ribbon_command(b, cursor, selection, "math_theta"@) == edit_view(span(p, p), " theta "@, p + 6)
            &&& ribbon_command(b, cursor, selection, "math_pi"@) == edit_view(span(p, p), " pi "@, p + 3)
            &&& ribbon_command(b, cursor, selection, "math_omega"@) == edit_view(span(p, p), " omega "@, p + 6)
            &&& ribbon_command(b, cursor, selection, "math_exit"@) == edit_view(span(p, p), " "@, p + 1)
            &&& ribbon_command(b, cursor, selection, "code_exit"@) == edit_view(span(p, p), " "@, p + 1)
            &&& ribbon_command(b, cursor, selection, "code_let"@) == edit_view(span(p, p), "\n#let x = 10\n"@, p + 12)
            &&& ribbon_command(b, cursor, selection, "code_set"@) == edit_view(span(p, p), "\n#set text(fill: red)\n"@, p + 21)
            &&& ribbon_command(b, cursor, selection, "code_show"@) == edit_view(span(p, p), "\n#show heading: emph\n"@, p + 21)
        }),
{
    reveal_strlit(" ");
    reveal_strlit(" $? = ?_?$ ");
    reveal_strlit(" (? / ?) ");
    reveal_strlit(" ?^? ");
    reveal_strlit(" ?_? ");
    reveal_strlit(" alpha ");
    reveal_strlit(" beta ");
    reveal_strlit(" gamma ");
    reveal_strlit(" integral_(?)^(?) ");
    reveal_strlit(" mat(?, ?; ?, ?) ");
    reveal_strlit(" omega ");
    reveal_strlit(" pi ");
    reveal_strlit(" sqrt(?) ");
    reveal_strlit(" sum_(?)^(?) ");
    reveal_strlit(" theta ");
    reveal_strlit("\n#let x = 10\n");
    reveal_strlit("\n#set text(fill: red)\n");
    reveal_strlit("\n#show heading: emph\n");
    reveal_strlit("\n- List Item\n");
    reveal_strlit("\n= New Section\n");
    reveal_strlit("bold");
    reveal_strlit("code_exit");
    reveal_strlit("code_let");
    reveal_strlit("code_set");
    reveal_strlit("code_show");
    reveal_strlit("heading");
    reveal_strlit("italic");
    reveal_strlit("list");
    reveal_strlit("math_alpha");
    reveal_strlit("math_beta");
    reveal_strlit("math_exit");
    reveal_strlit("math_formula");
    reveal_strlit("math_frac");
    reveal_strlit("math_gamma");
    reveal_strlit("math_int");
    reveal_strlit("math_mat");
    reveal_strlit("math_omega");
    reveal_strlit("math_pi");
    reveal_strlit("math_root");
    reveal_strlit("math_sub");
    reveal_strlit("math_sum");
    reveal_strlit("math_super");
    reveal_strlit("math_theta");
    assert("heading"@.len() != "bold"@.len() && "heading"@.len() != "italic"@.len());
    assert("list"@[0] != "bold"@[0] && "list"@.len() != "italic"@.len() && "list"@.len() != "heading"@.len());
    assert("math_formula"@.len() != "bold"@.len() && "math_formula"@.len() != "italic"@.len() && "math_formula"@.len() != "heading"@.len() && "math_formula"@.len() != "list"@.len());
    assert("math_frac"@.len() != "bold"@.len() && "math_frac"@.len() != "italic"@.len() && "math_frac"@.len() != "heading"@.len() && "math_frac"@.len() != "list"@.len() && "math_frac"@.len() != "math_formula"@.len());
    assert("math_super"@.len() != "bold"@.len() && "math_super"@.len() != "italic"@.len() && "math_super"@.len() != "heading"@.len() && "math_super"@.len() != "list"@.len() && "math_super"@.len() != "math_formula"@.len() && "math_super"@.len() != "math_frac"@.len());
    assert("math_sub"@.len() != "bold"@.len() && "math_sub"@.len() != "italic"@.len() && "math_sub"@.len() != "heading"@.len() && "math_sub"@.len() != "list"@.len() && "math_sub"@.len() != "math_formula"@.len() && "math_sub"@.len() != "math_frac"@.len() && "math_sub"@.len() != "math_super"@.len());
    assert("math_root"@.len() != "bold"@.len() && "math_root"@.len() != "italic"@.len() && "math_root"@.len() != "heading"@.len() && "math_root"@.len() != "list"@.len() && "math_root"@.len() != "math_formula"@.len() && "math_root"@[5] != "math_frac"@[5] && "math_root"@.len() != "math_super"@.len() && "math_root"@.len() != "math_sub"@.len());
    assert("math_mat"@.len() != "bold"@.len() && "math_mat"@.len() != "italic"@.len() && "math_mat"@.len() != "heading"@.len() && "math_mat"@.len() != "list"@.len() && "math_mat"@.len() != "math_formula"@.len() && "math_mat"@.len() != "math_frac"@.len() && "math_mat"@.len() != "math_super"@.len() && "math_mat"@[5] != "math_sub"@[5] && "math_mat"@.len() != "math_root"@.len());
    assert("math_sum"@.len() != "bold"@.len() && "math_sum"@.len() != "italic"@.len() && "math_sum"@.len() != "heading"@.len() && "math_sum"@.len() != "list"@.len() && "math_sum"@.len() != "math_formula"@.len() && "math_sum"@.len() != "math_frac"@.len() && "math_sum"@.len() != "math_super"@.len() && "math_sum"@[7] != "math_sub"@[7] && "math_sum"@.len() != "math_root"@.len() && "math_sum"@[5] != "math_mat"@[5]);
    assert("math_int"@.len() != "bold"@.len() && "math_int"@.len() != "italic"@.len() && "math_int"@.len() != "heading"@.len() && "math_int"@.len() != "list"@.len() && "math_int"@.len() != "math_formula"@.len() && "math_int"@.len() != "math_frac"@.len() && "math_int"@.len() != "math_super"@.len() && "math_int"@[5] != "math_sub"@[5] && "math_int"@.len() != "math_root"@.len() && "math_int"@[5] != "math_mat"@[5] && "math_int"@[5] != "math_sum"@[5]);
    assert("math_alpha"@.len() != "bold"@.len() && "math_alpha"@.len() != "italic"@.len() && "math_alpha"@.len() != "heading"@.len() && "math_alpha"@.len() != "list"@.len() && "math_alpha"@.len() != "math_formula"@.len() && "math_alpha"@.len() != "math_frac"@.len() && "math_alpha"@[5] != "math_super"@[5] && "math_alpha"@.len() != "math_sub"@.len() && "math_alpha"@.len() != "math_root"@.len() && "math_alpha"@.len() != "math_mat"@.len() && "math_alpha"@.len() != "math_sum"@.len() && "math_alpha"@.len() != "math_int"@.len());
    assert("math_beta"@.len() != "bold"@.len() && "math_beta"@.len() != "italic"@.len() && "math_beta"@.len() != "heading"@.len() && "math_beta"@.len() != "list"@.len() && "math_beta"@.len() != "math_formula"@.len() && "math_beta"@[5] != "math_frac"@[5] && "math_beta"@.len() != "math_super"@.len() && "math_beta"@.len() != "math_sub"@.len() && "math_beta"@[5] != "math_root"@[5] && "math_beta"@.len() != "math_mat"@.len() && "math_beta"@.len() != "math_sum"@.len() && "math_beta"@.len() != "math_int"@.len() && "math_beta"@.len() != "math_alpha"@.len());
    assert("math_gamma"@.len() != "bold"@.len() && "math_gamma"@.len() != "italic"@.len() && "math_gamma"@.len() != "heading"@.len() && "math_gamma"@.len() != "list"@.len() && "math_gamma"@.len() != "math_formula"@.len() && "math_gamma"@.len() != "math_frac"@.len() && "math_gamma"@[5] != "math_super"@[5] && "math_gamma"@.len() != "math_sub"@.len() && "math_gamma"@.len() != "math_root"@.len() && "math_gamma"@.len() != "math_mat"@.len() && "math_gamma"@.len() != "math_sum"@.len() && "math_gamma"@.len() != "math_int"@.len() && "math_gamma"@[5] != "math_alpha"@[5] && "math_gamma"@.len() != "math_beta"@.len());
    assert("math_theta"@.len() != "bold"@.len() && "math_theta"@.len() != "italic"@.len() && "math_theta"@.len() != "heading"@.len() && "math_theta"@.len() != "list"@.len() && "math_theta"@.len() != "math_formula"@.len() && "math_theta"@.len() != "math_frac"@.len() && "math_theta"@[5] != "math_super"@[5] && "math_theta"@.len() != "math_sub"@.len() && "math_theta"@.len() != "math_root"@.len() && "math_theta"@.len() != "math_mat"@.len() && "math_theta"@.len() != "math_sum"@.len() && "math_theta"@.len() != "math_int"@.len() && "math_theta"@[5] != "math_alpha"@[5] && "math_theta"@.len() != "math_beta"@.len() && "math_theta"@[5] != "math_gamma"@[5]);
    assert("math_pi"@.len() != "bold"@.len() && "math_pi"@.len() != "italic"@.len() && "math_pi"@[0] != "heading"@[0] && "math_pi"@.len() != "list"@.len() && "math_pi"@.len() != "math_formula"@.len() && "math_pi"@.len() != "math_frac"@.len() && "math_pi"@.len() != "math_super"@.len() && "math_pi"@.len() != "math_sub"@.len() && "math_pi"@.len() != "math_root"@.len() && "math_pi"@.len() != "math_mat"@.len() && "math_pi"@.len() != "math_sum"@.len() && "math_pi"@.len() != "math_int"@.len() && "math_pi"@.len() != "math_alpha"@.len() && "math_pi"@.len() != "math_beta"@.len() && "math_pi"@.len() != "math_gamma"@.len() && "math_pi"@.len() != "math_theta"@.len());
    assert("math_omega"@.len() != "bold"@.len() && "math_omega"@.len() != "italic"@.len() && "math_omega"@.len() != "heading"@.len() && "math_omega"@.len() != "list"@.len() && "math_omega"@.len() != "math_formula"@.len() && "math_omega"@.len() != "math_frac"@.len() && "math_omega"@[5] != "math_super"@[5] && "math_omega"@.len() != "math_sub"@.len() && "math_omega"@.len() != "math_root"@.len() && "math_omega"@.len() != "math_mat"@.len() && "math_omega"@.len() != "math_sum"@.len() && "math_omega"@.len() != "math_int"@.len() && "math_omega"@[5] != "math_alpha"@[5] && "math_omega"@.len() != "math_beta"@.len() && "math_omega"@[5] != "math_gamma"@[5] && "math_omega"@[5] != "math_theta"@[5] && "math_omega"@.len() != "math_pi"@.len());
    assert("math_exit"@.len() != "bold"@.len() && "math_exit"@.len() != "italic"@.len() && "math_exit"@.len() != "heading"@.len() && "math_exit"@.len() != "list"@.len() && "math_exit"@.len() != "math_formula"@.len() && "math_exit"@[5] != "math_frac"@[5] && "math_exit"@.len() != "math_super"@.len() && "math_exit"@.len() != "math_sub"@.len() && "math_exit"@[5] != "math_root"@[5] && "math_exit"@.len() != "math_mat"@.len() && "math_exit"@.len() != "math_sum"@.len() && "math_exit"@.len() != "math_int"@.len() && "math_exit"@.len() != "math_alpha"@.len() && "math_exit"@[5] != "math_beta"@[5] && "math_exit"@.len() != "math_gamma"@.len() && "math_exit"@.len() != "math_theta"@.len() && "math_exit"@.len() != "math_pi"@.len() && "math_exit"@.len() != "math_omega"@.len());
    assert("code_exit"@.len() != "bold"@.len() && "code_exit"@.len() != "italic"@.len() && "code_exit"@.len() != "heading"@.len() && "code_exit"@.len() != "list"@.len() && "code_exit"@.len() != "math_formula"@.len() && "code_exit"@[0] != "math_frac"@[0] && "code_exit"@.len() != "math_super"@.len() && "code_exit"@.len() != "math_sub"@.len() && "code_exit"@[0] != "math_root"@[0] && "code_exit"@.len() != "math_mat"@.len() && "code_exit"@.len() != "math_sum"@.len() && "code_exit"@.len() != "math_int"@.len() && "code_exit"@.len() != "math_alpha"@.len() && "code_exit"@[0] != "math_beta"@[0] && "code_exit"@.len() != "math_gamma"@.len() && "code_exit"@.len() != "math_theta"@.len() && "code_exit"@.len() != "math_pi"@.len() && "code_exit"@.len() != "math_omega"@.len());
    assert("code_let"@.len() != "bold"@.len() && "code_let"@.len() != "italic"@.len() && "code_let"@.len() != "heading"@.len() && "code_let"@.len() != "list"@.len() && "code_let"@.len() != "math_formula"@.len() && "code_let"@.len() != "math_frac"@.len() && "code_let"@.len() != "math_super"@.len() && "code_let"@[0] != "math_sub"@[0] && "code_let"@.len() != "math_root"@.len() && "code_let"@[0] != "math_mat"@[0] && "code_let"@[0] != "math_sum"@[0] && "code_let"@[0] != "math_int"@[0] && "code_let"@.len() != "math_alpha"@.len() && "code_let"@.len() != "math_beta"@.len() && "code_let"@.len() != "math_gamma"@.len() && "code_let"@.len() != "math_theta"@.len() && "code_let"@.len() != "math_pi"@.len() && "code_let"@.len() != "math_omega"@.len() && "code_let"@.len() != "math_exit"@.len() && "code_let"@.len() != "code_exit"@.len());
    assert("code_set"@.len() != "bold"@.len() && "code_set"@.len() != "italic"@.len() && "code_set"@.len() != "heading"@.len() && "code_set"@.len() != "list"@.len() && "code_set"@.len() != "math_formula"@.len() && "code_set"@.len() != "math_frac"@.len() && "code_set"@.len() != "math_super"@.len() && "code_set"@[0] != "math_sub"@[0] && "code_set"@.len() != "math_root"@.len() && "code_set"@[0] != "math_mat"@[0] && "code_set"@[0] != "math_sum"@[0] && "code_set"@[0] != "math_int"@[0] && "code_set"@.len() != "math_alpha"@.len() && "code_set"@.len() != "math_beta"@.len() && "code_set"@.len() != "math_gamma"@.len() && "code_set"@.len() != "math_theta"@.len() && "code_set"@.len() != "math_pi"@.len() && "code_set"@.len() != "math_omega"@.len() && "code_set"@.len() != "math_exit"@.len() && "code_set"@.len() != "code_exit"@.len() && "code_set"@[5] != "code_let"@[5]);
    assert("code_show"@.len() != "bold"@.len() && "code_show"@.len() != "italic"@.len() && "code_show"@.len() != "heading"@.len() && "code_show"@.len() != "list"@.len() && "code_show"@.len() != "math_formula"@.len() && "code_show"@[0] != "math_frac"@[0] && "code_show"@.len() != "math_super"@.len() && "code_show"@.len() != "math_sub"@.len() && "code_show"@[0] != "math_root"@[0] && "code_show"@.len() != "math_mat"@.len() && "code_show"@.len() != "math_sum"@.len() && "code_show"@.len() != "math_int"@.len() && "code_show"@.len() != "math_alpha"@.len() && "code_show"@[0] != "math_beta"@[0] && "code_show"@.len() != "math_gamma"@.len() && "code_show"@.len() != "math_theta"@.len() && "code_show"@.len() != "math_pi"@.len() && "code_show"@.len() != "math_omega"@.len() && "code_show"@[0] != "math_exit"@[0] && "code_show"@[5] != "code_exit"@[5] && "code_show"@.len() != "code_let"@.len() && "code_show"@.len() != "code_set"@.len());
}

} // verus!
