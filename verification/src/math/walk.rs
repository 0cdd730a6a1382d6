//! Caret movement over the syntax tree: the caret stops only at semantic
//! leaves, stepping over spaces, delimiters and operators.

use crate::math::common::{q_byte, text_is};
use crate::syntax::kind::NodeKind;
use crate::syntax::nav::{
    lemma_leaf_at_valid, lemma_neighbour_leaves, lemma_next_leaf_after, lemma_next_leaf_valid,
    lemma_prev_leaf_before, leaf_at, next_leaf, opt_path, prev_leaf, Side,
};
use crate::syntax::parse::Document;
use crate::syntax::tree::{lemma_at_wf, SyntaxTree};
use crate::text::{
    bytes_of, next_char_end, next_char_end_of, prev_char_start, prev_char_start_of, slice_is_byte,
    str_eq, text_len,
};
use vstd::prelude::*;

verus! {

/// Kinds the caret passes over: spaces, delimiters, separators, attachment
/// and fraction operators, the root sign, dollars and the math container.
pub open spec fn spec_is_passive_kind(k: NodeKind) -> bool {
    ||| k == NodeKind::Space
    ||| k == NodeKind::Underscore
    ||| k == NodeKind::Hat
    ||| k == NodeKind::Slash
    ||| k == NodeKind::LeftParen
    ||| k == NodeKind::RightParen
    ||| k == NodeKind::LeftBracket
    ||| k == NodeKind::RightBracket
    ||| k == NodeKind::LeftBrace
    ||| k == NodeKind::RightBrace
    ||| k == NodeKind::Comma
    ||| k == NodeKind::Semicolon
    ||| k == NodeKind::Root
    ||| k == NodeKind::Dollar
    ||| k == NodeKind::Math
}

/// A node is semantic when it is a `?` placeholder token or of a kind the
/// caret does not pass over.
pub open spec fn spec_is_semantic(n: SyntaxTree, b: Seq<u8>) -> bool {
    (n.leaf && text_is(b, n.start as int, n.end(), q_byte())) || !spec_is_passive_kind(n.kind)
}

/// Whether `node` is a caret stop: a `?` placeholder token, or a node of any
/// kind but spaces, delimiters, separators, `_`, `^`, `/`, the root sign,
/// dollars and the math container.
pub fn is_semantic(node: &SyntaxTree, text: &str) -> (r: bool)
    requires
        node.wf(),
    ensures
        r == spec_is_semantic(*node, bytes_of(text)),
{
    if node.leaf && slice_is_byte(text, node.start, node.end_offset(), 63u8) {
        return true;
    }
    let k = node.kind;
    !(k == NodeKind::Space || k == NodeKind::Underscore || k == NodeKind::Hat || k
        == NodeKind::Slash || k == NodeKind::LeftParen || k == NodeKind::RightParen || k
        == NodeKind::LeftBracket || k == NodeKind::RightBracket || k == NodeKind::LeftBrace || k
        == NodeKind::RightBrace || k == NodeKind::Comma || k == NodeKind::Semicolon || k
        == NodeKind::Root || k == NodeKind::Dollar || k == NodeKind::Math)
}

/// Where one step right from `cursor` lands inside a node ending at `end`:
/// past the character at the caret, or at `end` when that character is the
/// last of the text.
pub open spec fn step_right(b: Seq<u8>, cursor: int, end: int) -> int {
    if next_char_end(b, cursor) < b.len() {
        next_char_end(b, cursor)
    } else {
        end
    }
}

/// The rank of a node in the walk: leaves before the childless inner node a
/// walk may start from.
pub open spec fn leaf_rank(t: SyntaxTree, p: Seq<usize>) -> int {
    if t.at(p).leaf { 1 } else { 2 }
}

/// Moving right from `cursor`, visiting the node at `from` and then the
/// following leaves: the first semantic one that does not lie wholly before
/// the caret decides; past the last leaf the caret goes to the end of the
/// text (if it is not there yet).
pub open spec fn walk_right(t: SyntaxTree, b: Seq<u8>, cursor: int, from: Option<Seq<usize>>) -> Option<int>
    decreases
            (match from {
                Some(p) => t.end() - t.at(p).start,
                None => 0,
            }),
            (match from {
                Some(p) => leaf_rank(t, p),
                None => 0,
            }),
    when t.wf() && (from matches Some(p) ==> t.valid_path(p))
{
    match from {
        None => if cursor < b.len() { Some(b.len() as int) } else { None },
        Some(p) => {
            let n = t.at(p);
            if spec_is_semantic(n, b) && cursor < n.start {
                Some(n.start as int)
            } else if spec_is_semantic(n, b) && cursor < n.end() {
                Some(step_right(b, cursor, n.end()))
            } else {
                proof {
                    lemma_at_wf(t, p);
                    lemma_next_leaf_valid(t, p);
                    lemma_next_leaf_after(t, p);
                    if let Some(s) = next_leaf(t, p) {
                        lemma_at_wf(t, s);
                    }
                }
                walk_right(t, b, cursor, next_leaf(t, p))
            }
        },
    }
}

/// Moving left from `cursor`, visiting the node at `from` and then the
/// preceding leaves: the first semantic one that does not lie wholly after
/// the caret decides; before the first leaf the caret goes to the start of
/// the text (if it is not there yet).
pub open spec fn walk_left(t: SyntaxTree, b: Seq<u8>, cursor: int, from: Option<Seq<usize>>) -> Option<int>
    decreases
            (match from {
                Some(p) => t.at(p).end(),
                None => 0,
            }),
            (match from {
                Some(p) => leaf_rank(t, p),
                None => 0,
            }),
    when t.wf() && (from matches Some(p) ==> t.valid_path(p))
{
    match from {
        None => if cursor > 0 { Some(0) } else { None },
        Some(p) => {
            let n = t.at(p);
            if spec_is_semantic(n, b) && cursor > n.end() {
                Some(n.end())
            } else if spec_is_semantic(n, b) && cursor > n.start {
                Some(prev_char_start(b, cursor))
            } else {
                proof {
                    lemma_at_wf(t, p);
                    lemma_neighbour_leaves(t, p);
                    lemma_prev_leaf_before(t, p);
                }
                walk_left(t, b, cursor, prev_leaf(t, p))
            }
        },
    }
}

/// Where the caret goes from `cursor`, to the right or to the left, starting
/// from the leaf at the caret on that side.
pub open spec fn caret_walk(t: SyntaxTree, b: Seq<u8>, cursor: int, right: bool) -> Option<int> {
    if right {
        walk_right(t, b, cursor, leaf_at(t, cursor, Side::After))
    } else {
        walk_left(t, b, cursor, leaf_at(t, cursor, Side::Before))
    }
}

/// The mathematical value of an optional offset.
pub open spec fn opt_offset(r: Option<usize>) -> Option<int> {
    match r {
        Some(x) => Some(x as int),
        None => None,
    }
}

/// The caret's next stop from `cursor` in `direction` (`"right"`, or any
/// other word for left), stepping over non-semantic leaves; `None` when the
/// caret is already at that end of the text.
pub fn walk_ast(source: &Document, cursor: usize, direction: &str) -> (r: Option<usize>)
    requires
        cursor >= source@.bytes.len() || vstd::utf8::is_char_boundary(source@.bytes, cursor as int),
    ensures
        opt_offset(r) == caret_walk(source@.tree, source@.bytes, cursor as int, direction@ == "right"@),
{
    source.check_wf();
    if str_eq(direction, "right") {
        walk_right_exec(source, cursor)
    } else {
        walk_left_exec(source, cursor)
    }
}

fn walk_right_exec(source: &Document, cursor: usize) -> (r: Option<usize>)
    requires
        source@.wf(),
        cursor >= source@.bytes.len() || vstd::utf8::is_char_boundary(source@.bytes, cursor as int),
    ensures
        opt_offset(r) == caret_walk(source@.tree, source@.bytes, cursor as int, true),
{
    let t = source.tree();
    let text = source.text();
    let len = text_len(text);
    let mut cur = t.leaf_at(cursor, Side::After);
    proof {
        lemma_leaf_at_valid(*t, cursor as int, Side::After);
    }
    loop
        invariant
            source@.wf(),
            *t == source@.tree,
            bytes_of(text) == source@.bytes,
            len == source@.bytes.len(),
            cursor >= len || vstd::utf8::is_char_boundary(source@.bytes, cursor as int),
            cur matches Some(p) ==> t.valid_path(p@),
            walk_right(*t, bytes_of(text), cursor as int, opt_path(cur)) == caret_walk(
                *t,
                bytes_of(text),
                cursor as int,
                true,
            ),
        decreases
                (match cur {
                    Some(p) => t.end() - t.at(p@).start,
                    None => 0,
                }),
                (match cur {
                    Some(p) => leaf_rank(*t, p@),
                    None => 0,
                }),
    {
        match cur {
            None => {
                return if cursor < len { Some(len) } else { None };
            },
            Some(p) => {
                proof {
                    lemma_at_wf(*t, p@);
                }
                let n = t.node_at(&p);
                if is_semantic(n, text) {
                    if cursor < n.start {
                        return Some(n.start);
                    }
                    let end = n.end_offset();
                    if cursor < end {
                        let e = next_char_end_of(text, cursor);
                        return if e < len { Some(e) } else { Some(end) };
                    }
                }
                proof {
                    lemma_next_leaf_valid(*t, p@);
                    lemma_next_leaf_after(*t, p@);
                    if let Some(s) = next_leaf(*t, p@) {
                        lemma_at_wf(*t, s);
                    }
                }
                cur = t.next_leaf(&p);
            },
        }
    }
}

fn walk_left_exec(source: &Document, cursor: usize) -> (r: Option<usize>)
    requires
        source@.wf(),
        cursor >= source@.bytes.len() || vstd::utf8::is_char_boundary(source@.bytes, cursor as int),
    ensures
        opt_offset(r) == caret_walk(source@.tree, source@.bytes, cursor as int, false),
{
    let t = source.tree();
    let text = source.text();
    let mut cur = t.leaf_at(cursor, Side::Before);
    proof {
        lemma_leaf_at_valid(*t, cursor as int, Side::Before);
    }
    loop
        invariant
            source@.wf(),
            *t == source@.tree,
            bytes_of(text) == source@.bytes,
            cursor >= source@.bytes.len() || vstd::utf8::is_char_boundary(source@.bytes, cursor as int),
            cur matches Some(p) ==> t.valid_path(p@),
            walk_left(*t, bytes_of(text), cursor as int, opt_path(cur)) == caret_walk(
                *t,
                bytes_of(text),
                cursor as int,
                false,
            ),
        decreases
                (match cur {
                    Some(p) => t.at(p@).end(),
                    None => 0,
                }),
                (match cur {
                    Some(p) => leaf_rank(*t, p@),
                    None => 0,
                }),
    {
        match cur {
            None => {
                return if cursor > 0 { Some(0) } else { None };
            },
            Some(p) => {
                proof {
                    lemma_at_wf(*t, p@);
                }
                let n = t.node_at(&p);
                if is_semantic(n, text) {
                    let end = n.end_offset();
                    if cursor > end {
                        return Some(end);
                    }
                    if cursor > n.start {
                        return Some(prev_char_start_of(text, cursor));
                    }
                }
                proof {
                    lemma_neighbour_leaves(*t, p@);
                    lemma_prev_leaf_before(*t, p@);
                }
                cur = t.prev_leaf(&p);
            },
        }
    }
}

/// Moving right from the node at `from` only ever lands to the right of the
/// caret, and within the text.
proof fn lemma_walk_right_moves(t: SyntaxTree, b: Seq<u8>, cursor: int, from: Option<Seq<usize>>)
    requires
        t.wf(),
        t.end() == b.len(),
        t.start == 0,
        vstd::utf8::valid_utf8(b),
        from matches Some(p) ==> t.valid_path(p),
    ensures
        walk_right(t, b, cursor, from) matches Some(x) ==> cursor < x <= b.len() && 0 <= x,
    decreases
            (match from {
                Some(p) => t.end() - t.at(p).start,
                None => 0,
            }),
            (match from {
                Some(p) => leaf_rank(t, p),
                None => 0,
            }),
{
    if let Some(p) = from {
        let n = t.at(p);
        lemma_at_wf(t, p);
        if spec_is_semantic(n, b) && cursor < n.start {
        } else if spec_is_semantic(n, b) && cursor < n.end() {
            crate::text::lemma_ceil_boundary(b, cursor + 1);
        } else {
            lemma_next_leaf_valid(t, p);
            lemma_next_leaf_after(t, p);
            if let Some(s) = next_leaf(t, p) {
                lemma_at_wf(t, s);
            }
            lemma_walk_right_moves(t, b, cursor, next_leaf(t, p));
        }
    }
}

/// Moving left from the node at `from` only ever lands to the left of the
/// caret, and within the text.
proof fn lemma_walk_left_moves(t: SyntaxTree, b: Seq<u8>, cursor: int, from: Option<Seq<usize>>)
    requires
        t.wf(),
        t.end() == b.len(),
        t.start == 0,
        vstd::utf8::valid_utf8(b),
        from matches Some(p) ==> t.valid_path(p),
    ensures
        walk_left(t, b, cursor, from) matches Some(x) ==> 0 <= x < cursor && x <= b.len(),
    decreases
            (match from {
                Some(p) => t.at(p).end(),
                None => 0,
            }),
            (match from {
                Some(p) => leaf_rank(t, p),
                None => 0,
            }),
{
    if let Some(p) = from {
        let n = t.at(p);
        lemma_at_wf(t, p);
        if spec_is_semantic(n, b) && cursor > n.end() {
        } else if spec_is_semantic(n, b) && cursor > n.start {
            crate::text::lemma_floor_boundary(b, cursor - 1);
        } else {
            lemma_neighbour_leaves(t, p);
            lemma_prev_leaf_before(t, p);
            lemma_walk_left_moves(t, b, cursor, prev_leaf(t, p));
        }
    }
}

/// The caret walk moves the caret the way it was asked to, and never out of
/// the text: a step right lands after the caret, a step left before it.
pub proof fn law_walk_moves_caret(t: SyntaxTree, b: Seq<u8>, cursor: int, right: bool)
    requires
        t.wf(),
        t.start == 0,
        t.end() == b.len(),
        vstd::utf8::valid_utf8(b),
    ensures
        caret_walk(t, b, cursor, right) matches Some(x) ==> 0 <= x <= b.len() && (if right {
            cursor < x
        } else {
            x < cursor
        }),
{
    if right {
        lemma_leaf_at_valid(t, cursor, Side::After);
        lemma_walk_right_moves(t, b, cursor, leaf_at(t, cursor, Side::After));
    } else {
        lemma_leaf_at_valid(t, cursor, Side::Before);
        lemma_walk_left_moves(t, b, cursor, leaf_at(t, cursor, Side::Before));
    }
}

} // verus!
