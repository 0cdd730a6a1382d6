//! The ribbon's editing commands: bold and italic toggled on the selection
//! (or the word at the caret), and templates inserted at the caret.

use crate::editor::state::{edit, edit_view, opt_action, ActionView, EditorAction};
use crate::math::common::span;
use crate::text::{
    byte_at_is, bytes_of, floor_boundary, floor_char_boundary, lemma_ascii_boundaries,
    lemma_encode_len, lemma_floor_boundary, lemma_floor_monotone, next_char_end,
    next_char_end_of, prev_char_start, prev_char_start_of, slice_str, str_eq, text_len,
};
use std::ops::Range;
use vstd::prelude::*;
use vstd::string::{StrSliceExecFns, StringExecFns};
use vstd::utf8::{decode_utf8, encode_utf8, is_char_boundary, valid_utf8};

pub mod laws;

verus! {

broadcast use vstd::utf8::group_utf8_lib;

// ---------------------------------------------------------------------------
// Letters and digits
// ---------------------------------------------------------------------------

/// Whether std's `char::is_alphanumeric` holds of `c`: the Unicode
/// `Alphabetic` or `Numeric` property.
pub uninterp spec fn is_alphanumeric_char(c: char) -> bool;

/// Calls `char::is_alphanumeric`. Claimed: the result is the named
/// [`is_alphanumeric_char`] of the character, and for ASCII characters it is
/// exactly the letters and the digits, as std documents.
#[verifier::external_body]
fn char_is_alphanumeric(c: char) -> (r: bool)
    ensures
        r == is_alphanumeric_char(c),
        (c as u32) < 128 ==> (r == (('a' <= c && c <= 'z') || ('A' <= c && c <= 'Z') || ('0' <= c
            && c <= '9'))),
{
    c.is_alphanumeric()
}

/// Whether `c` is a letter or a digit: for ASCII, exactly `a`-`z`, `A`-`Z`
/// and `0`-`9`; beyond ASCII, std's `char::is_alphanumeric`.
pub open spec fn is_alnum(c: char) -> bool {
    if (c as u32) < 128 {
        ('a' <= c && c <= 'z') || ('A' <= c && c <= 'Z') || ('0' <= c && c <= '9')
    } else {
        is_alphanumeric_char(c)
    }
}

// ---------------------------------------------------------------------------
// The model
// ---------------------------------------------------------------------------

/// The smaller of two offsets.
pub open spec fn min_of(a: int, b: int) -> int {
    if a < b { a } else { b }
}

/// The larger of two offsets.
pub open spec fn max_of(a: int, b: int) -> int {
    if a < b { b } else { a }
}

/// The shorthand marker: `*` for bold, `_` for italic.
pub open spec fn marker(bold: bool) -> char {
    if bold { '*' } else { '_' }
}

/// The other style's marker.
pub open spec fn other_marker(bold: bool) -> char {
    if bold { '_' } else { '*' }
}

/// The opening of the function form: `#strong[` for bold, `#emph[` for
/// italic.
pub open spec fn func_open(bold: bool) -> Seq<char> {
    if bold {
        seq!['#', 's', 't', 'r', 'o', 'n', 'g', '[']
    } else {
        seq!['#', 'e', 'm', 'p', 'h', '[']
    }
}

/// The bytes of an ASCII character sequence.
pub open spec fn ascii_bytes(s: Seq<char>) -> Seq<u8> {
    s.map_values(|c: char| (c as u32) as u8)
}

/// The first character of the text after byte `p`.
pub open spec fn char_at(b: Seq<u8>, p: int) -> char {
    decode_utf8(b.subrange(p, b.len() as int))[0]
}

/// The last character of the text before byte `p`.
pub open spec fn char_before(b: Seq<u8>, p: int) -> char {
    decode_utf8(b.subrange(0, p)).last()
}

/// Where the word around the caret starts: the caret moves left over
/// letters and digits.
pub open spec fn word_start(b: Seq<u8>, p: int) -> int
    decreases p,
{
    if 0 < p <= b.len() && valid_utf8(b) && is_alnum(char_before(b, p)) {
        proof {
            lemma_floor_boundary(b, p - 1);
        }
        word_start(b, prev_char_start(b, p))
    } else {
        p
    }
}

/// Where the word around the caret ends: the caret moves right over letters
/// and digits.
pub open spec fn word_end(b: Seq<u8>, p: int) -> int
    decreases b.len() - p,
{
    if 0 <= p < b.len() && is_alnum(char_at(b, p)) {
        proof {
            crate::text::lemma_ceil_boundary(b, p + 1);
        }
        word_end(b, next_char_end(b, p))
    } else {
        p
    }
}

/// The selection text with every run between the other style's markers
/// wrapped in this style's markers, scanning from character `i` with the
/// current run starting at `run`.
pub open spec fn wrap_runs(sel: Seq<char>, bold: bool, run: int, i: int) -> Seq<char>
    decreases sel.len() - i,
{
    if i >= sel.len() {
        if run < sel.len() {
            seq![marker(bold)] + sel.subrange(run, sel.len() as int) + seq![marker(bold)]
        } else {
            Seq::empty()
        }
    } else if sel[i] == other_marker(bold) {
        (if run < i {
            seq![marker(bold)] + sel.subrange(run, i) + seq![marker(bold)]
        } else {
            Seq::empty()
        }) + seq![other_marker(bold)] + wrap_runs(sel, bold, i + 1, i + 1)
    } else {
        wrap_runs(sel, bold, run, i + 1)
    }
}

/// An edit that leaves a selection.
pub open spec fn edit_select(range: Range<usize>, replacement: Seq<char>, new_cursor: int, selection: Range<usize>) -> ActionView {
    ActionView::Edit {
        range,
        replacement,
        new_cursor: new_cursor as usize,
        new_selection: Some(selection),
    }
}

/// Removing markers or a function form that stand just inside the text
/// between `start` and `end`; what they held stays selected.
pub open spec fn unwrap_inside(b: Seq<u8>, start: int, end: int, bold: bool) -> Option<ActionView> {
    let m = marker(bold) as u8;
    let fo = ascii_bytes(func_open(bold));
    let k = fo.len() as int;
    let s = b.subrange(start, end);
    let n = s.len() as int;
    if n >= 2 && s[0] == m && s[n - 1] == m {
        Some(edit_select(span(start, end), decode_utf8(s.subrange(1, n - 1)), end - 2, span(start, end - 2)))
    } else if n >= k + 1 && s.subrange(0, k) == fo && s[n - 1] == 93u8 {
        Some(edit_select(span(start, end), decode_utf8(s.subrange(k, n - 1)), end - (k + 1), span(start, end - (k + 1))))
    } else {
        None
    }
}

/// Removing markers or a function form that stand just around the text
/// between `start` and `end`; the text stays selected.
pub open spec fn unwrap_around(b: Seq<u8>, start: int, end: int, bold: bool) -> Option<ActionView> {
    let m = marker(bold) as u8;
    let fo = ascii_bytes(func_open(bold));
    let k = fo.len() as int;
    if start >= 1 && end + 1 <= b.len() && b[start - 1] == m && b[end] == m {
        Some(edit_select(span(start - 1, end + 1), decode_utf8(b.subrange(start, end)), end - 1, span(start - 1, end - 1)))
    } else if start >= k && end + 1 <= b.len() && b.subrange(start - k, start) == fo && b[end] == 93u8 {
        Some(edit_select(span(start - k, end + 1), decode_utf8(b.subrange(start, end)), end - k, span(start - k, end - k)))
    } else {
        None
    }
}

/// Removing the style from the text between `start` and `end`: markers or
/// a function form just inside the text, else just around it, are taken
/// away, and what remains stays selected; `None` when there is neither.
pub open spec fn unwrap_style(b: Seq<u8>, start: int, end: int, bold: bool) -> Option<ActionView> {
    match unwrap_inside(b, start, end, bold) {
        Some(a) => Some(a),
        None => unwrap_around(b, start, end, bold),
    }
}

/// Adding the style to the text between `start` and `end`: run by run when
/// it holds the other style's markers, in the function form when a letter or
/// digit touches it, and in markers else; the result stays selected (without
/// its markers or function form).
pub open spec fn wrap_style(b: Seq<u8>, start: int, end: int, bold: bool) -> ActionView {
    let k = func_open(bold).len() as int;
    let sel = decode_utf8(b.subrange(start, end));
    if sel.contains(other_marker(bold)) {
        let rep = wrap_runs(sel, bold, 0, 0);
        let n = encode_utf8(rep).len() as int;
        edit_select(span(start, end), rep, start + n, span(start, start + n))
    } else if (start > 0 && is_alnum(char_before(b, start))) || (end < b.len()
        && is_alnum(char_at(b, end))) {
        let rep = func_open(bold) + sel + seq![']'];
        let n = encode_utf8(rep).len() as int;
        edit_select(span(start, end), rep, start + n, span(start + k, start + n - 1))
    } else {
        let rep = seq![marker(bold)] + sel + seq![marker(bold)];
        let n = encode_utf8(rep).len() as int;
        edit_select(span(start, end), rep, start + n, span(start + 1, start + n - 1))
    }
}

/// Toggling bold (or italic) on the text between `s0` and `e0`, taken in
/// either order, clamped to the text and rounded down to char boundaries:
/// the style is removed when the text already has it, added otherwise.
pub open spec fn toggle_style(b: Seq<u8>, s0: int, e0: int, bold: bool) -> ActionView {
    let start = floor_boundary(b, min_of(min_of(s0, e0), b.len() as int));
    let end = floor_boundary(b, min_of(max_of(s0, e0), b.len() as int));
    match unwrap_style(b, start, end, bold) {
        Some(a) => a,
        None => wrap_style(b, start, end, bold),
    }
}

/// The selection a command acts on: a non-empty selection within the text.
pub open spec fn usable_selection(len: int, selection: Option<Range<usize>>) -> Option<Range<usize>> {
    match selection {
        Some(s) => if s.start < s.end && s.end <= len {
            Some(s)
        } else {
            None
        },
        None => None,
    }
}

/// The text and caret offset a template command inserts.
pub open spec fn template(action: Seq<char>) -> (Seq<char>, int) {
    if action == "heading"@ {
        ("\n= New Section\n"@, 14)
    } else if action == "list"@ {
        ("\n- List Item\n"@, 13)
    } else if action == "math_formula"@ {
        (" $? = ?_?$ "@, 2)
    } else if action == "math_frac"@ {
        (" (? / ?) "@, 2)
    } else if action == "math_super"@ {
        (" ?^? "@, 1)
    } else if action == "math_sub"@ {
        (" ?_? "@, 1)
    } else if action == "math_root"@ {
        (" sqrt(?) "@, 6)
    } else if action == "math_mat"@ {
        (" mat(?, ?; ?, ?) "@, 5)
    } else if action == "math_sum"@ {
        (" sum_(?)^(?) "@, 6)
    } else if action == "math_int"@ {
        (" integral_(?)^(?) "@, 10)
    } else if action == "math_alpha"@ {
        (" alpha "@, 6)
    } else if action == "math_beta"@ {
        (" beta "@, 5)
    } else if action == "math_gamma"@ {
        (" gamma "@, 6)
    } else if action == "math_theta"@ {
        (" theta "@, 6)
    } else if action == "math_pi"@ {
        (" pi "@, 3)
    } else if action == "math_omega"@ {
        (" omega "@, 6)
    } else if action == "math_exit"@ || action == "code_exit"@ {
        (" "@, 1)
    } else if action == "code_let"@ {
        ("\n#let x = 10\n"@, 12)
    } else if action == "code_set"@ {
        ("\n#set text(fill: red)\n"@, 21)
    } else if action == "code_show"@ {
        ("\n#show heading: emph\n"@, 21)
    } else {
        (Seq::empty(), 0)
    }
}

/// Whether the command is bold or italic, which needs the caret on a char
/// boundary when there is no selection to act on.
pub open spec fn is_style_command(action: Seq<char>) -> bool {
    action == "bold"@ || action == "italic"@
}

/// What a ribbon command does to the text: bold and italic toggle the style
/// on the selection, or on the word at the caret, or insert a placeholder
/// in the style with its text selected; every other command inserts its
/// template at the caret (unknown commands insert nothing).
pub open spec fn ribbon_command(b: Seq<u8>, cursor: usize, selection: Option<Range<usize>>, action: Seq<char>) -> ActionView {
    let p = min_of(cursor as int, b.len() as int);
    if is_style_command(action) {
        let bold = action == "bold"@;
        match usable_selection(b.len() as int, selection) {
            Some(s) => toggle_style(b, s.start as int, s.end as int, bold),
            None => {
                let ws = word_start(b, p);
                let we = word_end(b, p);
                if ws < we {
                    toggle_style(b, ws, we, bold)
                } else if bold {
                    edit_select(span(p, p), " *bold text* "@, p + 11, span(p + 2, p + 11))
                } else {
                    edit_select(span(p, p), " _italic text_ "@, p + 13, span(p + 2, p + 13))
                }
            },
        }
    } else {
        edit_view(span(p, p), template(action).0, p + template(action).1)
    }
}

// ---------------------------------------------------------------------------
// Sizes
// ---------------------------------------------------------------------------

proof fn lemma_encode_at_most_four(c: Seq<char>)
    ensures
        encode_utf8(c).len() <= 4 * c.len(),
    decreases c.len(),
{
    if c.len() > 0 {
        lemma_encode_at_most_four(c.drop_first());
    }
}

proof fn lemma_wrap_runs_len(sel: Seq<char>, bold: bool, run: int, i: int)
    requires
        0 <= run <= i <= sel.len(),
    ensures
        wrap_runs(sel, bold, run, i).len() <= 3 * (sel.len() - run),
    decreases sel.len() - i,
{
    if i < sel.len() {
        if sel[i] == other_marker(bold) {
            lemma_wrap_runs_len(sel, bold, i + 1, i + 1);
        } else {
            lemma_wrap_runs_len(sel, bold, run, i + 1);
        }
    }
}

// ---------------------------------------------------------------------------
// Exec pieces
// ---------------------------------------------------------------------------

/// Whether the bytes of `lit` stand at `at` in the text.
fn bytes_at(text: &str, at: usize, lit: &[u8]) -> (r: bool)
    ensures
        r == (at + lit@.len() <= bytes_of(text).len() && bytes_of(text).subrange(
            at as int,
            at + lit@.len(),
        ) == lit@),
{
    let b = text.as_bytes();
    let n = b.len();
    if at > n || lit.len() > n - at {
        return false;
    }
    let mut j: usize = 0;
    while j < lit.len()
        invariant
            b@ == bytes_of(text),
            n == b@.len(),
            at + lit@.len() <= b@.len(),
            j <= lit@.len(),
            b@.subrange(at as int, at + j) == lit@.take(j as int),
        decreases lit@.len() - j,
    {
        if b[at + j] != lit[j] {
            assert(b@.subrange(at as int, at + lit@.len())[j as int] != lit@[j as int]);
            return false;
        }
        assert(b@.subrange(at as int, at + j + 1) =~= b@.subrange(at as int, at + j).push(b@[at + j]));
        assert(lit@.take(j + 1) =~= lit@.take(j as int).push(lit@[j as int]));
        j = j + 1;
    }
    assert(lit@.take(j as int) =~= lit@);
    true
}

/// The last character before byte `p` (a char boundary).
fn last_char_before(text: &str, p: usize) -> (r: char)
    requires
        0 < p <= bytes_of(text).len(),
        is_char_boundary(bytes_of(text), p as int),
    ensures
        r == char_before(bytes_of(text), p as int),
{
    proof {
        vstd::utf8::encode_utf8_valid_utf8(text@);
    }
    let head = slice_str(text, 0, p);
    let n = head.unicode_len();
    proof {
        if n == 0 {
            assert(head@ =~= Seq::<char>::empty());
            assert(bytes_of(head).len() == 0);
        }
    }
    head.get_char(n - 1)
}

/// The first character from byte `p` (a char boundary before the end).
fn first_char_at(text: &str, p: usize) -> (r: char)
    requires
        p < bytes_of(text).len(),
        is_char_boundary(bytes_of(text), p as int),
    ensures
        r == char_at(bytes_of(text), p as int),
{
    proof {
        vstd::utf8::encode_utf8_valid_utf8(text@);
    }
    let len = text_len(text);
    let tail = slice_str(text, p, len);
    let n = tail.unicode_len();
    proof {
        if n == 0 {
            assert(tail@ =~= Seq::<char>::empty());
            assert(bytes_of(tail).len() == 0);
        }
    }
    tail.get_char(0)
}

fn word_start_exec(text: &str, p: usize) -> (r: usize)
    requires
        p <= bytes_of(text).len(),
        is_char_boundary(bytes_of(text), p as int),
    ensures
        r == word_start(bytes_of(text), p as int),
        r <= p,
        is_char_boundary(bytes_of(text), r as int),
{
    proof {
        vstd::utf8::encode_utf8_valid_utf8(text@);
    }
    let mut q = p;
    while q > 0 && char_is_alphanumeric(last_char_before(text, q))
        invariant
            q <= p <= bytes_of(text).len(),
            valid_utf8(bytes_of(text)),
            is_char_boundary(bytes_of(text), q as int),
            word_start(bytes_of(text), q as int) == word_start(bytes_of(text), p as int),
        decreases q,
    {
        q = prev_char_start_of(text, q);
    }
    q
}

fn word_end_exec(text: &str, p: usize) -> (r: usize)
    requires
        p <= bytes_of(text).len(),
        is_char_boundary(bytes_of(text), p as int),
    ensures
        r == word_end(bytes_of(text), p as int),
        p <= r <= bytes_of(text).len(),
        is_char_boundary(bytes_of(text), r as int),
{
    proof {
        vstd::utf8::encode_utf8_valid_utf8(text@);
    }
    let len = text_len(text);
    let mut q = p;
    while q < len && char_is_alphanumeric(first_char_at(text, q))
        invariant
            p <= q <= len == bytes_of(text).len(),
            valid_utf8(bytes_of(text)),
            is_char_boundary(bytes_of(text), q as int),
            word_end(bytes_of(text), q as int) == word_end(bytes_of(text), p as int),
        decreases len - q,
    {
        q = next_char_end_of(text, q);
    }
    q
}

/// The marker as a one-character string.
fn marker_str(bold: bool) -> (r: &'static str)
    ensures
        r@ == seq![marker(bold)],
{
    proof {
        reveal_strlit("*");
        reveal_strlit("_");
    }
    if bold {
        "*"
    } else {
        "_"
    }
}

/// The other marker as a one-character string.
fn other_marker_str(bold: bool) -> (r: &'static str)
    ensures
        r@ == seq![other_marker(bold)],
{
    proof {
        reveal_strlit("*");
        reveal_strlit("_");
    }
    if bold {
        "_"
    } else {
        "*"
    }
}

/// The function form's opening as a string.
fn func_open_str(bold: bool) -> (r: &'static str)
    ensures
        r@ == func_open(bold),
{
    proof {
        reveal_strlit("#strong[");
        reveal_strlit("#emph[");
    }
    if bold {
        "#strong["
    } else {
        "#emph["
    }
}

/// The function form's opening as bytes.
fn func_open_bytes(bold: bool) -> (r: Vec<u8>)
    ensures
        r@ == ascii_bytes(func_open(bold)),
{
    let v: Vec<u8> = if bold {
        vec![35u8, 115, 116, 114, 111, 110, 103, 91]
    } else {
        vec![35u8, 101, 109, 112, 104, 91]
    };
    assert(v@ =~= ascii_bytes(func_open(bold)));
    v
}

/// Whether `sel` holds the character `c`.
fn holds_char(sel: &str, c: char) -> (r: bool)
    ensures
        r == sel@.contains(c),
{
    let n = sel.unicode_len();
    let mut i: usize = 0;
    while i < n
        invariant
            n == sel@.len(),
            i <= n,
            forall|j: int| 0 <= j < i ==> sel@[j] != c,
        decreases n - i,
    {
        if sel.get_char(i) == c {
            assert(sel@[i as int] == c);
            return true;
        }
        i = i + 1;
    }
    false
}

/// The runs of `sel` between the other style's markers, each wrapped in this
/// style's markers.
fn wrap_runs_exec(sel: &str, bold: bool) -> (r: String)
    ensures
        r@ == wrap_runs(sel@, bold, 0, 0),
{
    let m = marker_str(bold);
    let o = other_marker_str(bold);
    let other = if bold {
        '_'
    } else {
        '*'
    };
    let n = sel.unicode_len();
    let mut out = String::new();
    let mut run: usize = 0;
    let mut i: usize = 0;
    while i < n
        invariant
            n == sel@.len(),
            run <= i <= n,
            m@ == seq![marker(bold)],
            o@ == seq![other_marker(bold)],
            other == other_marker(bold),
            out@ + wrap_runs(sel@, bold, run as int, i as int) == wrap_runs(sel@, bold, 0, 0),
        decreases n - i,
    {
        if sel.get_char(i) == other {
            let ghost before = out@;
            if run < i {
                out.append(m);
                out.append(sel.substring_char(run, i));
                out.append(m);
            }
            out.append(o);
            proof {
                let piece = if run < i {
                    seq![marker(bold)] + sel@.subrange(run as int, i as int) + seq![marker(bold)]
                } else {
                    Seq::empty()
                };
                assert(out@ =~= before + piece + seq![other_marker(bold)]);
                assert(wrap_runs(sel@, bold, run as int, i as int) == piece + seq![other_marker(bold)]
                    + wrap_runs(sel@, bold, i + 1, i + 1));
            }
            run = i + 1;
        }
        i = i + 1;
    }
    if run < n {
        out.append(m);
        out.append(sel.substring_char(run, n));
        out.append(m);
    }
    proof {
        assert(out@ =~= wrap_runs(sel@, bold, 0, 0));
    }
    out
}

/// The edit that removes markers or a function form just inside the text
/// between `start` and `end` (see [`unwrap_inside`]).
fn unwrap_inside_exec(text: &str, start: usize, end: usize, bold: bool) -> (r: Option<EditorAction>)
    requires
        start <= end <= bytes_of(text).len(),
        is_char_boundary(bytes_of(text), start as int),
        is_char_boundary(bytes_of(text), end as int),
    ensures
        opt_action(r) == unwrap_inside(bytes_of(text), start as int, end as int, bold),
{
    proof {
        vstd::utf8::encode_utf8_valid_utf8(text@);
    }
    let ghost b = bytes_of(text);
    let m: u8 = if bold {
        42
    } else {
        95
    };
    let fo = func_open_bytes(bold);
    let k = fo.len();
    assert(m == marker(bold) as u8);
    let ghost s = b.subrange(start as int, end as int);
    if end - start >= 2 && byte_at_is(text, start, m) && byte_at_is(text, end - 1, m) {
        proof {
            lemma_ascii_boundaries(b, start as int);
            lemma_ascii_boundaries(b, end - 1);
            assert(s.subrange(1, s.len() - 1) =~= b.subrange(start + 1, end - 1));
        }
        let inner = slice_str(text, start + 1, end - 1);
        return Some(
            EditorAction::Edit {
                range: Range { start, end },
                replacement: inner.to_owned(),
                new_cursor: end - 2,
                new_selection: Some(Range { start, end: end - 2 }),
            },
        );
    }
    proof {
        if end - start > k {
            assert(s.subrange(0, k as int) =~= b.subrange(start as int, start + k));
            assert(s.subrange(k as int, s.len() - 1) =~= b.subrange(start + k, end - 1));
        }
    }
    if end - start > k && bytes_at(text, start, fo.as_slice()) && byte_at_is(text, end - 1, 93u8) {
        proof {
            assert(b.subrange(start as int, start + k)[k - 1] == b[start + k - 1]);
            lemma_ascii_boundaries(b, start + k - 1);
            lemma_ascii_boundaries(b, end - 1);
        }
        let inner = slice_str(text, start + k, end - 1);
        return Some(
            EditorAction::Edit {
                range: Range { start, end },
                replacement: inner.to_owned(),
                new_cursor: end - (k + 1),
                new_selection: Some(Range { start, end: end - (k + 1) }),
            },
        );
    }
    None
}

/// The edit that removes markers or a function form just around the text
/// between `start` and `end` (see [`unwrap_around`]).
fn unwrap_around_exec(text: &str, start: usize, end: usize, bold: bool) -> (r: Option<EditorAction>)
    requires
        start <= end <= bytes_of(text).len(),
        is_char_boundary(bytes_of(text), start as int),
        is_char_boundary(bytes_of(text), end as int),
    ensures
        opt_action(r) == unwrap_around(bytes_of(text), start as int, end as int, bold),
{
    let len = text_len(text);
    let m: u8 = if bold {
        42
    } else {
        95
    };
    let fo = func_open_bytes(bold);
    let k = fo.len();
    assert(m == marker(bold) as u8);
    if start >= 1 && end < len && byte_at_is(text, start - 1, m) && byte_at_is(text, end, m) {
        let sel = slice_str(text, start, end);
        return Some(
            EditorAction::Edit {
                range: Range { start: start - 1, end: end + 1 },
                replacement: sel.to_owned(),
                new_cursor: end - 1,
                new_selection: Some(Range { start: start - 1, end: end - 1 }),
            },
        );
    }
    if start >= k && end < len && bytes_at(text, start - k, fo.as_slice()) && byte_at_is(text, end, 93u8) {
        let sel = slice_str(text, start, end);
        return Some(
            EditorAction::Edit {
                range: Range { start: start - k, end: end + 1 },
                replacement: sel.to_owned(),
                new_cursor: end - k,
                new_selection: Some(Range { start: start - k, end: end - k }),
            },
        );
    }
    None
}

/// The edit that removes the style from the text between `start` and
/// `end`, if it has it (see [`unwrap_style`]).
fn unwrap_style_exec(text: &str, start: usize, end: usize, bold: bool) -> (r: Option<EditorAction>)
    requires
        start <= end <= bytes_of(text).len(),
        is_char_boundary(bytes_of(text), start as int),
        is_char_boundary(bytes_of(text), end as int),
    ensures
        opt_action(r) == unwrap_style(bytes_of(text), start as int, end as int, bold),
{
    match unwrap_inside_exec(text, start, end, bold) {
        Some(a) => Some(a),
        None => unwrap_around_exec(text, start, end, bold),
    }
}

/// The edit that wraps each run of the selection between the other style's
/// markers (the first case of [`wrap_style`]).
fn wrap_runs_edit(sel: &str, start: usize, end: usize, bold: bool) -> (r: EditorAction)
    requires
        start <= end,
        start as int + 12 * sel@.len() + 64 <= usize::MAX,
    ensures
        ({
            let rep = wrap_runs(sel@, bold, 0, 0);
            let n = encode_utf8(rep).len() as int;
            r@ == edit_select(span(start as int, end as int), rep, start + n, span(start as int, start + n))
        }),
{
    let rep = wrap_runs_exec(sel, bold);
    let n = text_len(rep.as_str());
    proof {
        lemma_wrap_runs_len(sel@, bold, 0, 0);
        lemma_encode_at_most_four(rep@);
    }
    EditorAction::Edit {
        range: Range { start, end },
        replacement: rep,
        new_cursor: start + n,
        new_selection: Some(Range { start, end: start + n }),
    }
}

/// The edit that puts the selection in the function form (the second case
/// of [`wrap_style`]).
fn wrap_func_edit(sel: &str, start: usize, end: usize, bold: bool) -> (r: EditorAction)
    requires
        start <= end,
        start as int + 12 * sel@.len() + 64 <= usize::MAX,
    ensures
        ({
            let k = func_open(bold).len() as int;
            let rep = func_open(bold) + sel@ + seq![']'];
            let n = encode_utf8(rep).len() as int;
            r@ == edit_select(span(start as int, end as int), rep, start + n, span(start + k, start + n - 1))
        }),
{
    let open = func_open_str(bold);
    let k: usize = if bold {
        8
    } else {
        6
    };
    proof {
        reveal_strlit("#strong[");
        reveal_strlit("#emph[");
        reveal_strlit("]");
    }
    let mut rep = open.to_owned();
    rep.append(sel);
    rep.append("]");
    let n = text_len(rep.as_str());
    proof {
        lemma_encode_at_most_four(rep@);
        lemma_encode_len(rep@);
        assert(rep@ =~= func_open(bold) + sel@ + seq![']']);
    }
    EditorAction::Edit {
        range: Range { start, end },
        replacement: rep,
        new_cursor: start + n,
        new_selection: Some(Range { start: start + k, end: start + n - 1 }),
    }
}

/// The edit that puts the selection between markers (the last case of
/// [`wrap_style`]).
fn wrap_marker_edit(sel: &str, start: usize, end: usize, bold: bool) -> (r: EditorAction)
    requires
        start <= end,
        start as int + 12 * sel@.len() + 64 <= usize::MAX,
    ensures
        ({
            let rep = seq![marker(bold)] + sel@ + seq![marker(bold)];
            let n = encode_utf8(rep).len() as int;
            r@ == edit_select(span(start as int, end as int), rep, start + n, span(start + 1, start + n - 1))
        }),
{
    let ms = marker_str(bold);
    let mut rep = ms.to_owned();
    rep.append(sel);
    rep.append(ms);
    let n = text_len(rep.as_str());
    proof {
        lemma_encode_at_most_four(rep@);
        lemma_encode_len(rep@);
        assert(rep@ =~= seq![marker(bold)] + sel@ + seq![marker(bold)]);
    }
    EditorAction::Edit {
        range: Range { start, end },
        replacement: rep,
        new_cursor: start + n,
        new_selection: Some(Range { start: start + 1, end: start + n - 1 }),
    }
}

/// The edit that adds the style to the text between `start` and `end` (see
/// [`wrap_style`]).
fn wrap_style_exec(text: &str, start: usize, end: usize, bold: bool) -> (r: EditorAction)
    requires
        start <= end <= bytes_of(text).len(),
        bytes_of(text).len() <= usize::MAX / 16,
        is_char_boundary(bytes_of(text), start as int),
        is_char_boundary(bytes_of(text), end as int),
    ensures
        r@ == wrap_style(bytes_of(text), start as int, end as int, bold),
{
    proof {
        vstd::utf8::encode_utf8_valid_utf8(text@);
    }
    let len = text_len(text);
    let sel = slice_str(text, start, end);
    proof {
        lemma_encode_len(sel@);
        lemma_encode_len(text@);
    }
    let other = if bold {
        '_'
    } else {
        '*'
    };
    if holds_char(sel, other) {
        return wrap_runs_edit(sel, start, end, bold);
    }
    let touches_word = (start > 0 && char_is_alphanumeric(last_char_before(text, start))) || (end < len
        && char_is_alphanumeric(first_char_at(text, end)));
    if touches_word {
        wrap_func_edit(sel, start, end, bold)
    } else {
        wrap_marker_edit(sel, start, end, bold)
    }
}

/// The edit that toggles the style on the text between `s0` and `e0` (see
/// [`toggle_style`]).
pub fn toggle_style_action(text: &str, s0: usize, e0: usize, bold: bool) -> (r: EditorAction)
    requires
        bytes_of(text).len() <= usize::MAX / 16,
    ensures
        r@ == toggle_style(bytes_of(text), s0 as int, e0 as int, bold),
{
    proof {
        vstd::utf8::encode_utf8_valid_utf8(text@);
    }
    let len = text_len(text);
    let lo = if s0 < e0 {
        s0
    } else {
        e0
    };
    let hi = if s0 < e0 {
        e0
    } else {
        s0
    };
    let lo_c = if lo < len {
        lo
    } else {
        len
    };
    let hi_c = if hi < len {
        hi
    } else {
        len
    };
    let start = floor_char_boundary(text, lo_c);
    let end = floor_char_boundary(text, hi_c);
    proof {
        lemma_floor_monotone(bytes_of(text), lo_c as int, hi_c as int);
    }
    match unwrap_style_exec(text, start, end, bold) {
        Some(a) => a,
        None => wrap_style_exec(text, start, end, bold),
    }
}

/// The text and caret offset of a template command.
fn template_exec(action: &str) -> (r: (&'static str, usize))
    ensures
        r.0@ == template(action@).0,
        r.1 == template(action@).1,
{
    if str_eq(action, "heading") {
        ("\n= New Section\n", 14)
    } else if str_eq(action, "list") {
        ("\n- List Item\n", 13)
    } else if str_eq(action, "math_formula") {
        (" $? = ?_?$ ", 2)
    } else if str_eq(action, "math_frac") {
        (" (? / ?) ", 2)
    } else if str_eq(action, "math_super") {
        (" ?^? ", 1)
    } else if str_eq(action, "math_sub") {
        (" ?_? ", 1)
    } else if str_eq(action, "math_root") {
        (" sqrt(?) ", 6)
    } else if str_eq(action, "math_mat") {
        (" mat(?, ?; ?, ?) ", 5)
    } else if str_eq(action, "math_sum") {
        (" sum_(?)^(?) ", 6)
    } else if str_eq(action, "math_int") {
        (" integral_(?)^(?) ", 10)
    } else if str_eq(action, "math_alpha") {
        (" alpha ", 6)
    } else if str_eq(action, "math_beta") {
        (" beta ", 5)
    } else if str_eq(action, "math_gamma") {
        (" gamma ", 6)
    } else if str_eq(action, "math_theta") {
        (" theta ", 6)
    } else if str_eq(action, "math_pi") {
        (" pi ", 3)
    } else if str_eq(action, "math_omega") {
        (" omega ", 6)
    } else if str_eq(action, "math_exit") || str_eq(action, "code_exit") {
        (" ", 1)
    } else if str_eq(action, "code_let") {
        ("\n#let x = 10\n", 12)
    } else if str_eq(action, "code_set") {
        ("\n#set text(fill: red)\n", 21)
    } else if str_eq(action, "code_show") {
        ("\n#show heading: emph\n", 21)
    } else {
        proof {
            reveal_strlit("");
        }
        ("", 0)
    }
}

/// What the ribbon command `action` does to the text at the caret and
/// selection (see [`ribbon_command`]).
pub fn ribbon_action(text: &str, cursor: usize, selection: &Option<Range<usize>>, action: &str) -> (r: EditorAction)
    requires
        bytes_of(text).len() <= usize::MAX / 16,
        is_style_command(action@) && usable_selection(bytes_of(text).len() as int, *selection) is None
            ==> cursor >= bytes_of(text).len() || is_char_boundary(bytes_of(text), cursor as int),
    ensures
        r@ == ribbon_command(bytes_of(text), cursor, *selection, action@),
{
    proof {
        vstd::utf8::encode_utf8_valid_utf8(text@);
        vstd::utf8::is_char_boundary_start_end_of_seq(bytes_of(text));
    }
    let len = text_len(text);
    let p = if cursor < len {
        cursor
    } else {
        len
    };
    let bold = str_eq(action, "bold");
    if bold || str_eq(action, "italic") {
        let usable = match selection {
            Some(s) => if s.start < s.end && s.end <= len {
                Some((s.start, s.end))
            } else {
                None
            },
            None => None,
        };
        match usable {
            Some((s, e)) => toggle_style_action(text, s, e, bold),
            None => {
                let ws = word_start_exec(text, p);
                let we = word_end_exec(text, p);
                if ws < we {
                    toggle_style_action(text, ws, we, bold)
                } else if bold {
                    EditorAction::Edit {
                        range: Range { start: p, end: p },
                        replacement: " *bold text* ".to_owned(),
                        new_cursor: p + 11,
                        new_selection: Some(Range { start: p + 2, end: p + 11 }),
                    }
                } else {
                    EditorAction::Edit {
                        range: Range { start: p, end: p },
                        replacement: " _italic text_ ".to_owned(),
                        new_cursor: p + 13,
                        new_selection: Some(Range { start: p + 2, end: p + 13 }),
                    }
                }
            },
        }
    } else {
        let (insert, rel) = template_exec(action);
        edit(Range { start: p, end: p }, insert.to_owned(), p + rel)
    }
}


} // verus!
