//! Keyboard handling of the WYSIWYG editor: what each key does in markup,
//! code and math, as an [`EditorAction`].

use crate::editor::state::{
    edit, edit_view, indent_text, newline_text, no_text, opt_action, select, select_view,
    space_text, ActionView, EditorAction, EditorContext, EditorState,
};
use crate::math::common::{span, text_is};
use crate::math::deletion::{caret_only, handle_math_deletion, math_deletion};
use crate::math::structure::{find_math_structure_ranges, math_structure_ranges};
use crate::syntax::parse::Document;
use crate::syntax::tree::SyntaxTree;
use crate::text::{
    byte_is, bytes_of, ceil_boundary, ceil_char_boundary, find_byte, find_byte_from,
    floor_boundary, floor_char_boundary,
    next_char_end, next_char_end_of, prev_char_start, prev_char_start_of, rfind_byte,
    rfind_byte_before, slice_is_byte, str_eq, text_len, lemma_find_byte_from, lemma_rfind_byte_before,
    lemma_floor_greatest, lemma_ceil_least, lemma_floor_boundary, lemma_ceil_boundary,
};
use std::ops::Range;
use vstd::prelude::*;
use vstd::string::StrSliceExecFns;
use vstd::string::StringSliceAdditionalSpecFns;

verus! {

// ---------------------------------------------------------------------------
// Whitespace
// ---------------------------------------------------------------------------

/// Characters with the Unicode `White_Space` property.
pub open spec fn is_white_space(c: char) -> bool {
    let u = c as u32;
    (9 <= u <= 13) || u == 32 || u == 0x85 || u == 0xa0 || u == 0x1680 || (0x2000 <= u <= 0x200a)
        || u == 0x2028 || u == 0x2029 || u == 0x202f || u == 0x205f || u == 0x3000
}

/// How many characters at the start of `s` are white space.
pub open spec fn white_space_prefix(s: Seq<char>) -> nat
    decreases s.len(),
{
    if s.len() > 0 && is_white_space(s[0]) {
        1 + white_space_prefix(s.drop_first())
    } else {
        0
    }
}

/// Whether `c` has the Unicode `White_Space` property.
fn is_white_space_exec(c: char) -> (r: bool)
    ensures
        r == is_white_space(c),
{
    let u = c as u32;
    (9 <= u && u <= 13) || u == 32 || u == 0x85 || u == 0xa0 || u == 0x1680 || (0x2000 <= u && u
        <= 0x200a) || u == 0x2028 || u == 0x2029 || u == 0x202f || u == 0x205f || u == 0x3000
}

/// How many characters at the start of `s` are white space.
fn white_space_prefix_len(s: &str) -> (r: usize)
    ensures
        r == white_space_prefix(s@),
{
    let n = s.unicode_len();
    let mut i: usize = 0;
    assert(s@.skip(0) =~= s@);
    while i < n && is_white_space_exec(s.get_char(i))
        invariant
            n == s@.len(),
            i <= n,
            white_space_prefix(s@) == i + white_space_prefix(s@.skip(i as int)),
        decreases n - i,
    {
        proof {
            assert(s@.skip(i as int).drop_first() =~= s@.skip(i + 1));
        }
        i = i + 1;
    }
    proof {
        if i == n {
            assert(s@.skip(i as int).len() == 0);
        }
    }
    i
}

/// Whether the text after byte `pos`, with leading white space removed,
/// starts with `?`.
pub open spec fn placeholder_ahead(b: Seq<u8>, pos: int) -> bool {
    let cs = vstd::utf8::decode_utf8(b.subrange(pos, b.len() as int));
    let rest = cs.skip(white_space_prefix(cs) as int);
    rest.len() > 0 && rest[0] == '?'
}

proof fn lemma_prefix_bound(s: Seq<char>)
    ensures
        white_space_prefix(s) <= s.len(),
    decreases s.len(),
{
    if s.len() > 0 && is_white_space(s[0]) {
        lemma_prefix_bound(s.drop_first());
    }
}

fn placeholder_ahead_exec(text: &str, pos: usize) -> (r: bool)
    requires
        pos <= bytes_of(text).len(),
        vstd::utf8::is_char_boundary(bytes_of(text), pos as int),
    ensures
        r == placeholder_ahead(bytes_of(text), pos as int),
{
    let (_, suffix) = text.split_at(pos);
    proof {
        vstd::utf8::encode_utf8_decode_utf8(suffix@);
        lemma_prefix_bound(suffix@);
    }
    let i = white_space_prefix_len(suffix);
    i < suffix.unicode_len() && suffix.get_char(i) == '?'
}

// ---------------------------------------------------------------------------
// Key events
// ---------------------------------------------------------------------------

/// The selection as the key handler sees it: non-empty selections only, each
/// end rounded down to a char boundary, ends in order.
pub open spec fn key_selection(b: Seq<u8>, sel: Option<Range<usize>>) -> Option<Range<usize>> {
    match sel {
        Some(r) => if r.start != r.end {
            let s = floor_boundary(b, if r.start < b.len() { r.start as int } else { b.len() as int });
            let e = floor_boundary(b, if r.end < b.len() { r.end as int } else { b.len() as int });
            if s < e {
                Some(span(s, e))
            } else {
                Some(span(e, s))
            }
        } else {
            None
        },
        None => None,
    }
}

/// The end of the selection that stays put when it is extended from `pos`.
pub open spec fn anchor_of(sel: Option<Range<usize>>, pos: int) -> int {
    match sel {
        Some(s) => if pos == s.start {
            s.end as int
        } else {
            s.start as int
        },
        None => pos,
    }
}

/// The selection from `anchor` to `target`, reversed when `target` comes first.
pub open spec fn extend_to(anchor: int, target: int) -> ActionView {
    if target < anchor {
        select_view(span(target, anchor), true)
    } else {
        select_view(span(anchor, target), false)
    }
}

/// A move to `target`, or with shift an extension of the selection to it.
pub open spec fn move_or_extend(sel: Option<Range<usize>>, pos: int, target: int, shift: bool) -> ActionView {
    if shift {
        extend_to(anchor_of(sel, pos), target)
    } else {
        ActionView::MoveCursor { new_cursor: target as usize }
    }
}

/// Whether the selection is exactly one `?`.
pub open spec fn selects_placeholder(b: Seq<u8>, sel: Option<Range<usize>>) -> bool {
    match sel {
        Some(s) => s.start + 1 == s.end && text_is(b, s.start as int, s.end as int, 63u8),
        None => false,
    }
}

/// Deleting without math rules: the selection, or the character before
/// (`bs`) or after the caret.
pub open spec fn plain_delete(b: Seq<u8>, pos: int, sel: Option<Range<usize>>, bs: bool) -> ActionView {
    match sel {
        Some(s) => edit_view(s, Seq::empty(), s.start as int),
        None => if bs && pos > 0 {
            edit_view(span(prev_char_start(b, pos), pos), Seq::empty(), prev_char_start(b, pos))
        } else if !bs && pos < b.len() {
            edit_view(span(pos, next_char_end(b, pos)), Seq::empty(), pos)
        } else {
            ActionView::Nothing
        },
    }
}

/// Deleting with `backspace` (`bs`) or `delete`: in math the math rules
/// first, then plain deletion.
pub open spec fn delete_key(t: SyntaxTree, b: Seq<u8>, state: EditorState, pos: int, sel: Option<Range<usize>>, bs: bool) -> ActionView {
    let m = math_deletion(t, b, state.cursor as int, state.selection, bs);
    if state.context == EditorContext::Math && m is Some {
        m.unwrap()
    } else {
        plain_delete(b, pos, sel, bs)
    }
}

/// Moving left: in math a selected `?` collapses to its start and a `?`
/// just before the caret gets selected; otherwise one character left.
pub open spec fn left_key(b: Seq<u8>, state: EditorState, pos: int, sel: Option<Range<usize>>, shift: bool) -> ActionView {
    if state.context == EditorContext::Math && selects_placeholder(b, sel) {
        ActionView::MoveCursor { new_cursor: sel.unwrap().start }
    } else if state.context == EditorContext::Math && byte_is(b, pos - 1, 63u8) {
        select_view(span(pos - 1, pos), true)
    } else if pos > 0 {
        move_or_extend(sel, pos, prev_char_start(b, pos), shift)
    } else {
        ActionView::Nothing
    }
}

/// Moving right: in math a selected `?` collapses to its end and a `?` just
/// after the caret gets selected; otherwise one character right.
pub open spec fn right_key(b: Seq<u8>, state: EditorState, pos: int, sel: Option<Range<usize>>, shift: bool) -> ActionView {
    if state.context == EditorContext::Math && selects_placeholder(b, sel) {
        ActionView::MoveCursor { new_cursor: sel.unwrap().end }
    } else if state.context == EditorContext::Math && byte_is(b, pos, 63u8) {
        select_view(span(pos, pos + 1), false)
    } else if pos < b.len() {
        move_or_extend(sel, pos, next_char_end(b, pos), shift)
    } else {
        ActionView::Nothing
    }
}

/// The start of the caret's line.
pub open spec fn line_start(b: Seq<u8>, pos: int) -> int {
    match rfind_byte_before(b, pos, 10u8) {
        Some(i) => i + 1,
        None => 0,
    }
}

/// The end of the caret's line.
pub open spec fn line_end(b: Seq<u8>, pos: int) -> int {
    match find_byte_from(b, pos, 10u8) {
        Some(i) => i,
        None => b.len() as int,
    }
}

/// Tab: in math, jump to the next `?` after the current character, else to
/// the first `?` before the caret; elsewhere, insert two spaces.
pub open spec fn tab_key(b: Seq<u8>, state: EditorState, pos: int) -> ActionView {
    if state.context == EditorContext::Math {
        let ahead = if pos < b.len() { find_byte_from(b, next_char_end(b, pos), 63u8) } else { None };
        let behind = find_byte_from(b, 0, 63u8);
        if ahead is Some {
            ActionView::MoveCursor { new_cursor: ahead.unwrap() as usize }
        } else if behind is Some && behind.unwrap() < pos {
            ActionView::MoveCursor { new_cursor: behind.unwrap() as usize }
        } else {
            ActionView::Nothing
        }
    } else {
        edit_view(span(pos, pos), seq![' ', ' '], pos + 2)
    }
}

/// Typing the character `typed` (of `n` bytes): over a selection it replaces
/// it (in math, a selected whole attachment or argument list keeps its
/// wrapper and only the inside is replaced); in math a `?` ahead of the caret
/// (past white space) is overwritten; otherwise it is inserted.
pub open spec fn type_key(t: SyntaxTree, b: Seq<u8>, state: EditorState, pos: int, sel: Option<Range<usize>>, typed: Seq<char>, n: int) -> ActionView {
    let math = state.context == EditorContext::Math;
    match sel {
        Some(s) => {
            let found = math_structure_ranges(t, b, s.start + 1);
            let full = found.unwrap().0;
            let inner = found.unwrap().1;
            let args_start = if inner.start >= 1 { inner.start - 1 } else { 0 };
            let args_end = if inner.end < usize::MAX { inner.end + 1 } else { usize::MAX as int };
            if math && found is Some && full == s {
                edit_view(inner, typed, inner.start + n)
            } else if math && found is Some && args_start == s.start && args_end == s.end && text_is(
                b,
                s.start as int,
                s.start + 1,
                40u8,
            ) && text_is(b, s.end - 1, s.end as int, 41u8) {
                edit_view(inner, typed, inner.start + n)
            } else {
                edit_view(s, typed, s.start + n)
            }
        },
        None => if math && placeholder_ahead(b, pos) {
            match find_byte_from(b, pos, 63u8) {
                Some(q) => edit_view(span(q, q + 1), typed, q + n),
                None => edit_view(span(pos, pos), typed, pos + n),
            }
        } else {
            edit_view(span(pos, pos), typed, pos + n)
        },
    }
}

/// The action for pressing `key` (with or without shift) in the editor state.
pub open spec fn key_event(t: SyntaxTree, b: Seq<u8>, state: EditorState, key: Seq<char>, shift: bool) -> ActionView {
    let pos = floor_boundary(b, if state.cursor < b.len() { state.cursor as int } else { b.len() as int });
    let sel = key_selection(b, state.selection);
    if key == "backspace"@ {
        delete_key(t, b, state, pos, sel, true)
    } else if key == "delete"@ {
        delete_key(t, b, state, pos, sel, false)
    } else if key == "left"@ {
        left_key(b, state, pos, sel, shift)
    } else if key == "right"@ {
        right_key(b, state, pos, sel, shift)
    } else if key == "home"@ {
        move_or_extend(sel, pos, line_start(b, pos), shift)
    } else if key == "end"@ {
        move_or_extend(sel, pos, line_end(b, pos), shift)
    } else if key == "enter"@ {
        edit_view(span(pos, pos), seq!['\n'], pos + 1)
    } else if key == "space"@ || key == " "@ {
        edit_view(span(pos, pos), seq![' '], pos + 1)
    } else if key == "tab"@ {
        tab_key(b, state, pos)
    } else if key.len() == 1 {
        type_key(t, b, state, pos, sel, key, vstd::utf8::encode_utf8(key).len() as int)
    } else {
        ActionView::Nothing
    }
}

proof fn lemma_one_char_len(s: Seq<char>)
    requires
        s.len() == 1,
    ensures
        vstd::utf8::encode_utf8(s).len() <= 4,
{
    assert(s.drop_first().len() == 0);
    reveal_with_fuel(vstd::utf8::encode_utf8, 2);
}

fn key_selection_exec(text: &str, sel: &Option<Range<usize>>) -> (r: Option<Range<usize>>)
    ensures
        r == key_selection(bytes_of(text), *sel),
        r matches Some(s) ==> s.start <= s.end <= bytes_of(text).len(),
{
    let len = text_len(text);
    match sel {
        Some(r) => {
            if r.start != r.end {
                let s = floor_char_boundary(text, if r.start < len { r.start } else { len });
                let e = floor_char_boundary(text, if r.end < len { r.end } else { len });
                if s < e {
                    Some(Range { start: s, end: e })
                } else {
                    Some(Range { start: e, end: s })
                }
            } else {
                None
            }
        },
        None => None,
    }
}

fn move_or_extend_exec(sel: &Option<Range<usize>>, pos: usize, target: usize, shift: bool) -> (r: EditorAction)
    ensures
        r@ == move_or_extend(*sel, pos as int, target as int, shift),
{
    if shift {
        let anchor = match sel {
            Some(s) => if pos == s.start {
                s.end
            } else {
                s.start
            },
            None => pos,
        };
        if target < anchor {
            select(Range { start: target, end: anchor }, true)
        } else {
            select(Range { start: anchor, end: target }, false)
        }
    } else {
        EditorAction::MoveCursor { new_cursor: target }
    }
}

fn selects_placeholder_exec(text: &str, sel: &Option<Range<usize>>) -> (r: bool)
    requires
        sel matches Some(s) ==> s.start <= s.end <= bytes_of(text).len(),
    ensures
        r == selects_placeholder(bytes_of(text), *sel),
{
    match sel {
        Some(s) => s.end - s.start == 1 && slice_is_byte(text, s.start, s.end, 63u8),
        None => false,
    }
}

fn plain_delete_exec(text: &str, pos: usize, sel: Option<Range<usize>>, bs: bool) -> (r: EditorAction)
    requires
        pos <= bytes_of(text).len(),
    ensures
        r@ == plain_delete(bytes_of(text), pos as int, sel, bs),
{
    match sel {
        Some(s) => {
            let st = s.start;
            edit(s, no_text(), st)
        },
        None => {
            if bs && pos > 0 {
                let start = prev_char_start_of(text, pos);
                edit(Range { start, end: pos }, no_text(), start)
            } else if !bs && pos < text_len(text) {
                let end = next_char_end_of(text, pos);
                edit(Range { start: pos, end }, no_text(), pos)
            } else {
                EditorAction::NoAction
            }
        },
    }
}

/// Whether a key with the math deletion rules is in play for the state: in
/// math, backspace or delete without a selection.
pub open spec fn math_caret_deletion(state: EditorState, key: Seq<char>) -> bool {
    state.context == EditorContext::Math && (key == "backspace"@ || key == "delete"@) && caret_only(
        state,
    )
}

/// Processes a key press (`key` names the key, or is the typed character) in
/// the WYSIWYG editor and returns the resulting action, following the
/// markup, code or math context of the caret.
pub fn wysiwyg_key_event(source: &Document, state: &EditorState<'_>, key: &str, shift_pressed: bool) -> (r: EditorAction)
    requires
        source@.bytes.len() + 4 <= usize::MAX,
        math_caret_deletion(*state, key@) ==> (state.cursor >= source@.bytes.len()
            || vstd::utf8::is_char_boundary(source@.bytes, state.cursor as int)),
    ensures
        r@ == key_event(source@.tree, source@.bytes, *state, key@, shift_pressed),
{
    source.check_wf();
    let text = source.text();
    let len = text_len(text);
    let pos = floor_char_boundary(text, if state.cursor < len { state.cursor } else { len });
    let had_selection = key_selection_exec(text, &state.selection);
    let math = state.context == EditorContext::Math;
    proof {
        reveal_strlit("backspace");
        reveal_strlit("delete");
        reveal_strlit("left");
        reveal_strlit("right");
        reveal_strlit("home");
        reveal_strlit("end");
    }
    if str_eq(key, "backspace") || str_eq(key, "delete") {
        let bs = str_eq(key, "backspace");
        if math {
            let m = handle_math_deletion(source, state, if bs { "backspace" } else { "delete" });
            match m {
                Some(a) => {
                    return a;
                },
                None => {},
            }
        }
        return plain_delete_exec(text, pos, had_selection, bs);
    }
    if str_eq(key, "left") {
        if math && selects_placeholder_exec(text, &had_selection) {
            match had_selection {
                Some(s) => {
                    return EditorAction::MoveCursor { new_cursor: s.start };
                },
                None => {},
            }
        }
        if math && pos > 0 && crate::text::byte_at_is(text, pos - 1, 63u8) {
            return select(Range { start: pos - 1, end: pos }, true);
        }
        if pos > 0 {
            let prev_idx = prev_char_start_of(text, pos);
            return move_or_extend_exec(&had_selection, pos, prev_idx, shift_pressed);
        }
        return EditorAction::NoAction;
    }
    if str_eq(key, "right") {
        if math && selects_placeholder_exec(text, &had_selection) {
            match had_selection {
                Some(s) => {
                    return EditorAction::MoveCursor { new_cursor: s.end };
                },
                None => {},
            }
        }
        if math && crate::text::byte_at_is(text, pos, 63u8) {
            return select(Range { start: pos, end: pos + 1 }, false);
        }
        if pos < len {
            let next_idx = next_char_end_of(text, pos);
            return move_or_extend_exec(&had_selection, pos, next_idx, shift_pressed);
        }
        return EditorAction::NoAction;
    }
    if str_eq(key, "home") {
        let start = match rfind_byte(text, pos, 10u8) {
            Some(i) => i + 1,
            None => 0,
        };
        return move_or_extend_exec(&had_selection, pos, start, shift_pressed);
    }
    if str_eq(key, "end") {
        let end = match find_byte(text, pos, 10u8) {
            Some(i) => i,
            None => len,
        };
        return move_or_extend_exec(&had_selection, pos, end, shift_pressed);
    }
    if str_eq(key, "enter") {
        return edit(Range { start: pos, end: pos }, newline_text(), pos + 1);
    }
    if str_eq(key, "space") || str_eq(key, " ") {
        return edit(Range { start: pos, end: pos }, space_text(), pos + 1);
    }
    if str_eq(key, "tab") {
        if math {
            if pos < len {
                let search_start = next_char_end_of(text, pos);
                match find_byte(text, search_start, 63u8) {
                    Some(i) => {
                        return EditorAction::MoveCursor { new_cursor: i };
                    },
                    None => {},
                }
            }
            match find_byte(text, 0, 63u8) {
                Some(i) => {
                    if i < pos {
                        return EditorAction::MoveCursor { new_cursor: i };
                    }
                },
                None => {},
            }
            return EditorAction::NoAction;
        }
        return edit(Range { start: pos, end: pos }, indent_text(), pos + 2);
    }
    if key.unicode_len() == 1 {
        let n = text_len(key);
        proof {
            lemma_one_char_len(key@);
        }
        match had_selection {
            Some(sel) => {
                if math {
                    match find_math_structure_ranges(source, sel.start + 1) {
                        Some(found) => {
                            let full = found.0;
                            let inner = found.1;
                            if full.start == sel.start && full.end == sel.end {
                                let st = inner.start;
                                return edit(inner, key.to_owned(), st + n);
                            }
                            let args_start = inner.start.saturating_sub(1);
                            let args_end = inner.end.saturating_add(1);
                            if args_start == sel.start && args_end == sel.end && slice_is_byte(
                                text,
                                sel.start,
                                sel.start + 1,
                                40u8,
                            ) && slice_is_byte(text, sel.end - 1, sel.end, 41u8) {
                                let st = inner.start;
                                return edit(inner, key.to_owned(), st + n);
                            }
                        },
                        None => {},
                    }
                }
                let st = sel.start;
                return edit(sel, key.to_owned(), st + n);
            },
            None => {
                if math && placeholder_ahead_exec(text, pos) {
                    match find_byte(text, pos, 63u8) {
                        Some(q) => {
                            return edit(Range { start: q, end: q + 1 }, key.to_owned(), q + n);
                        },
                        None => {},
                    }
                }
                return edit(Range { start: pos, end: pos }, key.to_owned(), pos + n);
            },
        }
    }
    EditorAction::NoAction
}

// ---------------------------------------------------------------------------
// Text input
// ---------------------------------------------------------------------------

/// The byte range a typed text replaces without an input composition: the
/// selection, ordered, or the empty range at the caret.
pub open spec fn input_range(state: EditorState) -> Range<usize> {
    match state.selection {
        Some(sel) => if sel.start < sel.end {
            Range { start: sel.start, end: sel.end }
        } else {
            Range { start: sel.end, end: sel.start }
        },
        None => Range { start: state.cursor, end: state.cursor },
    }
}

/// What typing `text` does: during an input composition of `len` bytes at
/// `offset`, the composition is replaced; a single character goes through
/// the key handling; longer text replaces the selection (or is inserted at
/// the caret). The caret ends after the inserted text.
pub open spec fn input_action(
    t: SyntaxTree,
    b: Seq<u8>,
    state: EditorState,
    composition: Option<(usize, usize)>,
    text: Seq<char>,
) -> ActionView {
    let n = vstd::utf8::encode_utf8(text).len();
    match composition {
        Some((offset, len)) => edit_view(span(offset as int, offset + len), text, offset + n),
        None => if text.len() == 1 {
            key_event(t, b, state, text, false)
        } else {
            let r = input_range(state);
            edit_view(r, text, r.start + n)
        },
    }
}

/// The action for typed `text` (see [`input_action`]); `composition` is the
/// offset and byte length of the text being composed by an input method.
pub fn text_input_action(
    source: &Document,
    state: &EditorState<'_>,
    composition: Option<(usize, usize)>,
    text: &str,
) -> (r: EditorAction)
    requires
        composition matches Some((offset, len)) ==> offset + len <= usize::MAX && offset
            + bytes_of(text).len() <= usize::MAX,
        composition is None && text@.len() == 1 ==> source@.bytes.len() + 4 <= usize::MAX,
        composition is None && text@.len() != 1 ==> input_range(*state).start + bytes_of(text).len()
            <= usize::MAX,
    ensures
        r@ == input_action(source@.tree, source@.bytes, *state, composition, text@),
{
    let n = text_len(text);
    match composition {
        Some((offset, len)) => edit(Range { start: offset, end: offset + len }, text.to_owned(), offset + n),
        None => {
            if text.unicode_len() == 1 {
                proof {
                    reveal_strlit("backspace");
                    reveal_strlit("delete");
                }
                wysiwyg_key_event(source, state, text, false)
            } else {
                let (start, end) = match &state.selection {
                    Some(sel) => if sel.start < sel.end {
                        (sel.start, sel.end)
                    } else {
                        (sel.end, sel.start)
                    },
                    None => (state.cursor, state.cursor),
                };
                edit(Range { start, end }, text.to_owned(), start + n)
            }
        },
    }
}

// ---------------------------------------------------------------------------
// Caret moves computed from the page layout
// ---------------------------------------------------------------------------

/// The selection end that stays put while the caret moves with shift held:
/// the end of the selection away from the caret, or the caret itself.
pub open spec fn selection_anchor(cursor: usize, selection: Option<Range<usize>>) -> usize {
    match selection {
        Some(sel) => if cursor == sel.start { sel.end } else { sel.start },
        None => cursor,
    }
}

/// Moving the caret to `new_offset`: with shift, the selection from the
/// anchor to the new offset (reversed when the caret is before the anchor);
/// without, a plain caret move.
pub open spec fn move_action(cursor: usize, selection: Option<Range<usize>>, new_offset: usize, shift: bool) -> ActionView {
    let anchor = selection_anchor(cursor, selection);
    if shift {
        select_view(
            if new_offset < anchor {
                Range { start: new_offset, end: anchor }
            } else {
                Range { start: anchor, end: new_offset }
            },
            new_offset < anchor,
        )
    } else {
        ActionView::MoveCursor { new_cursor: new_offset }
    }
}

/// The action for a caret move to `new_offset` found on the page (arrow keys
/// over the rendered layout), extending the selection when shift is held.
pub fn navigation_action(cursor: usize, selection: &Option<Range<usize>>, new_offset: usize, shift: bool) -> (r: EditorAction)
    ensures
        r@ == move_action(cursor, *selection, new_offset, shift),
{
    if !shift {
        return EditorAction::MoveCursor { new_cursor: new_offset };
    }
    let anchor = match selection {
        Some(sel) => if cursor == sel.start {
            sel.end
        } else {
            sel.start
        },
        None => cursor,
    };
    if new_offset < anchor {
        select(Range { start: new_offset, end: anchor }, true)
    } else {
        select(Range { start: anchor, end: new_offset }, false)
    }
}

// ---------------------------------------------------------------------------
// Clipboard
// ---------------------------------------------------------------------------

/// The smaller of two offsets.
pub open spec fn min_of(a: int, b: int) -> int {
    if a < b { a } else { b }
}

/// The larger of two offsets.
pub open spec fn max_of(a: int, b: int) -> int {
    if a < b { b } else { a }
}

/// The text range that copy and cut take: the selection, ordered, clamped
/// to the text and widened to char boundaries; `None` when nothing (or
/// nothing within the text) is selected.
pub open spec fn clipboard_range(b: Seq<u8>, selection: Option<Range<usize>>) -> Option<Range<usize>> {
    match selection {
        Some(sel) => {
            let lo = min_of(min_of(sel.start as int, sel.end as int), b.len() as int);
            let hi = min_of(max_of(sel.start as int, sel.end as int), b.len() as int);
            if lo < hi {
                Some(span(floor_boundary(b, lo), ceil_boundary(b, hi)))
            } else {
                None
            }
        },
        None => None,
    }
}

/// The range of the text that copying the selection puts on the clipboard
/// (see [`clipboard_range`]).
pub fn clipboard_copy_range(text: &str, selection: &Option<Range<usize>>) -> (r: Option<Range<usize>>)
    ensures
        r == clipboard_range(bytes_of(text), *selection),
{
    match selection {
        Some(sel) => {
            let len = text_len(text);
            let lo0 = if sel.start < sel.end { sel.start } else { sel.end };
            let hi0 = if sel.start < sel.end { sel.end } else { sel.start };
            let lo = if lo0 < len { lo0 } else { len };
            let hi = if hi0 < len { hi0 } else { len };
            if lo < hi {
                Some(Range { start: floor_char_boundary(text, lo), end: ceil_char_boundary(text, hi) })
            } else {
                None
            }
        },
        None => None,
    }
}

/// Cutting: the range put on the clipboard and the edit that deletes it,
/// leaving the caret at its start; `None` when nothing is selected.
pub fn clipboard_cut_action(text: &str, selection: &Option<Range<usize>>) -> (r: Option<(Range<usize>, EditorAction)>)
    ensures
        match clipboard_range(bytes_of(text), *selection) {
            Some(range) => r matches Some((got, action)) && got == range && action@ == edit_view(
                range,
                Seq::empty(),
                range.start as int,
            ),
            None => r is None,
        },
{
    match clipboard_copy_range(text, selection) {
        Some(range) => {
            let start = range.start;
            let copy = Range { start: range.start, end: range.end };
            Some((copy, edit(range, no_text(), start)))
        },
        None => None,
    }
}

/// The range pasted text replaces: the selection, ordered, or the caret;
/// clamped to the text and widened to char boundaries.
pub open spec fn paste_range(b: Seq<u8>, cursor: usize, selection: Option<Range<usize>>) -> Range<usize> {
    let (s, e) = match selection {
        Some(sel) => (min_of(sel.start as int, sel.end as int), max_of(sel.start as int, sel.end as int)),
        None => (cursor as int, cursor as int),
    };
    span(floor_boundary(b, min_of(s, b.len() as int)), ceil_boundary(b, min_of(e, b.len() as int)))
}

/// Pasting `paste`: it replaces the [`paste_range`], and the caret ends after
/// it.
pub fn clipboard_paste_action(text: &str, cursor: usize, selection: &Option<Range<usize>>, paste: &str) -> (r: EditorAction)
    requires
        bytes_of(text).len() + bytes_of(paste).len() <= usize::MAX,
    ensures
        r@ == edit_view(
            paste_range(bytes_of(text), cursor, *selection),
            paste@,
            paste_range(bytes_of(text), cursor, *selection).start + bytes_of(paste).len(),
        ),
{
    let len = text_len(text);
    let (s, e) = match selection {
        Some(sel) => if sel.start < sel.end {
            (sel.start, sel.end)
        } else {
            (sel.end, sel.start)
        },
        None => (cursor, cursor),
    };
    let lo = floor_char_boundary(text, if s < len { s } else { len });
    let hi = ceil_char_boundary(text, if e < len { e } else { len });
    let n = text_len(paste);
    edit(Range { start: lo, end: hi }, paste.to_owned(), lo + n)
}

// ---------------------------------------------------------------------------
// Laws
// ---------------------------------------------------------------------------

/// End moves the caret (on a char boundary, without shift) to the end of its
/// line: the first newline at or after the caret, or the end of the text
/// when there is none. No newline lies between the caret and where it lands.
pub proof fn law_end_moves_to_line_end(t: SyntaxTree, b: Seq<u8>, state: EditorState)
    requires
        state.cursor <= b.len(),
        vstd::utf8::is_char_boundary(b, state.cursor as int),
        b.len() <= usize::MAX,
    ensures
        key_event(t, b, state, "end"@, false) matches ActionView::MoveCursor { new_cursor: e } && {
            &&& state.cursor <= e <= b.len()
            &&& forall|k: int| state.cursor <= k < e ==> b[k] != 10u8
            &&& e == b.len() || b[e as int] == 10u8
        },
{
    reveal_strlit("end");
    reveal_strlit("backspace");
    reveal_strlit("delete");
    reveal_strlit("left");
    reveal_strlit("right");
    reveal_strlit("home");
    let pos = state.cursor as int;
    assert(floor_boundary(b, pos) == pos);
    lemma_find_byte_from(b, pos, 10u8);
    assert("end"@.len() != "backspace"@.len() && "end"@.len() != "delete"@.len() && "end"@.len()
        != "left"@.len() && "end"@.len() != "right"@.len() && "end"@.len() != "home"@.len());
    assert(key_event(t, b, state, "end"@, false) == ActionView::MoveCursor {
        new_cursor: line_end(b, pos) as usize,
    });
}

/// Home moves the caret (on a char boundary, without shift) to the start of
/// its line: just after the last newline before the caret, or the start of
/// the text when there is none. No newline lies between where it lands and
/// the caret.
pub proof fn law_home_moves_to_line_start(t: SyntaxTree, b: Seq<u8>, state: EditorState)
    requires
        state.cursor <= b.len(),
        vstd::utf8::is_char_boundary(b, state.cursor as int),
        b.len() <= usize::MAX,
    ensures
        key_event(t, b, state, "home"@, false) matches ActionView::MoveCursor { new_cursor: h } && {
            &&& h <= state.cursor
            &&& forall|k: int| h <= k < state.cursor ==> b[k] != 10u8
            &&& h == 0 || b[h - 1] == 10u8
        },
{
    reveal_strlit("home");
    reveal_strlit("backspace");
    reveal_strlit("delete");
    reveal_strlit("left");
    reveal_strlit("right");
    let pos = state.cursor as int;
    assert(floor_boundary(b, pos) == pos);
    lemma_rfind_byte_before(b, pos, 10u8);
    assert("home"@.len() != "backspace"@.len() && "home"@.len() != "delete"@.len() && "home"@[0]
        != "left"@[0] && "home"@.len() != "right"@.len());
    assert(key_event(t, b, state, "home"@, false) == ActionView::MoveCursor {
        new_cursor: line_start(b, pos) as usize,
    });
}

/// In math, backspace (or delete) at a caret with no space beside it and no
/// selection, whose character to delete belongs to a math identifier outside
/// any math structure, selects the whole identifier, reversed (see
/// [`crate::math::deletion::law_math_deletion_selects_identifier`]).
pub proof fn law_math_key_selects_identifier(
    t: SyntaxTree,
    b: Seq<u8>,
    state: EditorState,
    bs: bool,
    p: Seq<usize>,
)
    requires
        vstd::utf8::valid_utf8(b),
        b.len() <= usize::MAX,
        state.context == EditorContext::Math,
        state.selection is None,
        state.cursor <= b.len(),
        bs ==> state.cursor > 0,
        !bs ==> state.cursor < b.len(),
        state.cursor > 0 ==> b[state.cursor - 1] != 32u8,
        state.cursor < b.len() ==> b[state.cursor as int] != 32u8,
        (if bs { crate::syntax::nav::leaf_before(t, state.cursor as int) } else { crate::syntax::nav::leaf_after(t, state.cursor as int) }) == Some(p),
        crate::math::structure::kind_at(t, p) == crate::syntax::kind::NodeKind::MathIdent,
        bs ==> b[state.cursor - 1] != 63u8 && b[state.cursor - 1] != 41u8,
        !bs ==> b[state.cursor as int] != 63u8 && b[state.cursor as int] != 40u8,
        math_structure_ranges(t, b, state.cursor as int) is None,
        !bs ==> math_structure_ranges(t, b, next_char_end(b, state.cursor as int)) is None,
    ensures
        key_event(t, b, state, if bs { "backspace"@ } else { "delete"@ }, false) == select_view(
            crate::math::common::node_range(t.at(p)),
            true,
        ),
{
    reveal_strlit("backspace");
    reveal_strlit("delete");
    assert("delete"@.len() != "backspace"@.len());
    crate::math::deletion::law_math_deletion_selects_identifier(t, b, state.cursor as int, bs, p);
}

/// Reveals the key names, so that they can be told apart.
proof fn lemma_key_names()
    ensures
        "backspace"@.len() == 9,
        "delete"@.len() == 6,
        "left"@.len() == 4,
        "right"@.len() == 5,
        "home"@.len() == 4,
        "end"@.len() == 3,
        "enter"@.len() == 5,
        "space"@.len() == 5,
        " "@ == seq![' '],
        "tab"@.len() == 3,
        "left"@[0] != "home"@[0],
        "right"@[0] != "enter"@[0] && "right"@[0] != "space"@[0] && "enter"@[0] != "space"@[0],
        "end"@[0] != "tab"@[0],
{
    reveal_strlit("backspace");
    reveal_strlit("delete");
    reveal_strlit("left");
    reveal_strlit("right");
    reveal_strlit("home");
    reveal_strlit("end");
    reveal_strlit("enter");
    reveal_strlit("space");
    reveal_strlit(" ");
    reveal_strlit("tab");
}

/// Outside math, with no selection and the caret on a char boundary,
/// Backspace deletes exactly the one character before the caret and Delete
/// the one after it: the deleted range runs between two char boundaries with
/// none in between, ends (Backspace) or starts (Delete) at the caret, is
/// replaced by nothing, and the caret lands where it starts.
pub proof fn law_plain_deletion_removes_one_character(t: SyntaxTree, b: Seq<u8>, state: EditorState, bs: bool)
    requires
        vstd::utf8::valid_utf8(b),
        b.len() <= usize::MAX,
        state.context != EditorContext::Math,
        state.selection is None,
        state.cursor <= b.len(),
        vstd::utf8::is_char_boundary(b, state.cursor as int),
        bs ==> state.cursor > 0,
        !bs ==> state.cursor < b.len(),
    ensures
        key_event(t, b, state, if bs { "backspace"@ } else { "delete"@ }, false) matches
            ActionView::Edit { range, replacement, new_cursor, new_selection } && {
            &&& replacement.len() == 0
            &&& new_selection is None
            &&& range.start < range.end <= b.len()
            &&& new_cursor == range.start
            &&& vstd::utf8::is_char_boundary(b, range.start as int)
            &&& vstd::utf8::is_char_boundary(b, range.end as int)
            &&& bs ==> range.end == state.cursor
            &&& !bs ==> range.start == state.cursor
            &&& forall|k: int| range.start < k < range.end ==> !vstd::utf8::is_char_boundary(b, k)
        },
{
    lemma_key_names();
    let pos = state.cursor as int;
    assert(floor_boundary(b, pos) == pos);
    if bs {
        lemma_floor_boundary(b, pos - 1);
        lemma_floor_greatest(b, pos - 1);
    } else {
        lemma_ceil_boundary(b, pos + 1);
        lemma_ceil_least(b, pos + 1);
        vstd::utf8::is_char_boundary_start_end_of_seq(b);
    }
}

/// Outside math, without shift and with the caret on a char boundary, Right
/// moves the caret to the next char boundary and Left to the previous one:
/// past exactly one character, with no boundary skipped.
pub proof fn law_arrows_move_one_character(t: SyntaxTree, b: Seq<u8>, state: EditorState, right: bool)
    requires
        vstd::utf8::valid_utf8(b),
        b.len() <= usize::MAX,
        state.context != EditorContext::Math,
        state.cursor <= b.len(),
        vstd::utf8::is_char_boundary(b, state.cursor as int),
        right ==> state.cursor < b.len(),
        !right ==> state.cursor > 0,
    ensures
        key_event(t, b, state, if right { "right"@ } else { "left"@ }, false) matches
            ActionView::MoveCursor { new_cursor: c } && {
            &&& right ==> state.cursor < c
            &&& !right ==> c < state.cursor
            &&& c <= b.len()
            &&& vstd::utf8::is_char_boundary(b, c as int)
            &&& forall|k: int|
                (if right { state.cursor < k < c } else { c < k < state.cursor }) ==> !vstd::utf8::is_char_boundary(b, k)
        },
{
    lemma_key_names();
    let pos = state.cursor as int;
    assert(floor_boundary(b, pos) == pos);
    if right {
        lemma_ceil_boundary(b, pos + 1);
        lemma_ceil_least(b, pos + 1);
        vstd::utf8::is_char_boundary_start_end_of_seq(b);
    } else {
        lemma_floor_boundary(b, pos - 1);
        lemma_floor_greatest(b, pos - 1);
    }
}

/// Enter inserts a newline at the caret (on a char boundary), in any
/// context, and puts the caret after it.
pub proof fn law_enter_inserts_newline(t: SyntaxTree, b: Seq<u8>, state: EditorState, shift: bool)
    requires
        state.cursor <= b.len(),
        vstd::utf8::is_char_boundary(b, state.cursor as int),
        b.len() < usize::MAX,
    ensures
        key_event(t, b, state, "enter"@, shift) == edit_view(
            span(state.cursor as int, state.cursor as int),
            seq!['\n'],
            state.cursor + 1,
        ),
{
    lemma_key_names();
    assert(floor_boundary(b, state.cursor as int) == state.cursor);
}

/// Outside math, with no selection and the caret on a char boundary, typing
/// a character inserts exactly that character at the caret and puts the
/// caret after its bytes.
pub proof fn law_typing_inserts_the_character(t: SyntaxTree, b: Seq<u8>, state: EditorState, key: Seq<char>, shift: bool)
    requires
        state.context != EditorContext::Math,
        state.selection is None,
        state.cursor <= b.len(),
        vstd::utf8::is_char_boundary(b, state.cursor as int),
        b.len() + 4 <= usize::MAX,
        key.len() == 1,
    ensures
        key_event(t, b, state, key, shift) == edit_view(
            span(state.cursor as int, state.cursor as int),
            key,
            state.cursor + vstd::utf8::encode_utf8(key).len(),
        ),
{
    lemma_key_names();
    assert(floor_boundary(b, state.cursor as int) == state.cursor);
    if key == " "@ {
        assert(vstd::utf8::encode_utf8(key).len() == 1) by {
            reveal_with_fuel(vstd::utf8::encode_utf8, 2);
        }
    }
}

/// The space key inserts one space at the caret (on a char boundary), in any
/// context; outside math, Tab inserts two spaces. The caret goes after what
/// was inserted.
pub proof fn law_space_and_tab_insert_spaces(t: SyntaxTree, b: Seq<u8>, state: EditorState, shift: bool)
    requires
        state.cursor <= b.len(),
        vstd::utf8::is_char_boundary(b, state.cursor as int),
        b.len() + 2 <= usize::MAX,
    ensures
        key_event(t, b, state, "space"@, shift) == edit_view(
            span(state.cursor as int, state.cursor as int),
            seq![' '],
            state.cursor + 1,
        ),
        state.context != EditorContext::Math ==> key_event(t, b, state, "tab"@, shift) == edit_view(
            span(state.cursor as int, state.cursor as int),
            seq![' ', ' '],
            state.cursor + 2,
        ),
{
    lemma_key_names();
    assert(floor_boundary(b, state.cursor as int) == state.cursor);
}

} // verus!
