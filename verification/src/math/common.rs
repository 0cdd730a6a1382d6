//! Small queries shared by the math rules.

use crate::syntax::kind::NodeKind;
use crate::syntax::nav::path_take;
use crate::syntax::parse::Document;
use crate::syntax::tree::{lemma_at_wf, lemma_valid_prefix, SyntaxTree};
use crate::text::{bytes_of, slice_is, slice_is_byte, slice_is_bytes3};
use std::ops::Range;
use vstd::prelude::*;

verus! {

/// The byte range `start..end`.
pub open spec fn span(start: int, end: int) -> Range<usize> {
    Range { start: start as usize, end: end as usize }
}

/// The byte range of a node.
pub open spec fn node_range(n: SyntaxTree) -> Range<usize> {
    span(n.start as int, n.end())
}

/// The byte range of a node.
pub fn range_of(n: &SyntaxTree) -> (r: Range<usize>)
    requires
        n.end() <= usize::MAX,
    ensures
        r == node_range(*n),
{
    Range { start: n.start, end: n.end_offset() }
}

/// Kinds that are delimiters or operators of a math structure.
pub open spec fn spec_is_structural_kind(k: NodeKind) -> bool {
    k == NodeKind::Slash || k == NodeKind::LeftParen || k == NodeKind::RightParen || k
        == NodeKind::Comma || k == NodeKind::Semicolon || k == NodeKind::Underscore || k
        == NodeKind::Hat
}

/// Whether `kind` is a delimiter or operator of a math structure: `/`, `(`,
/// `)`, `,`, `;`, `_` or `^`.
pub fn is_structural_kind(kind: NodeKind) -> (r: bool)
    ensures
        r == spec_is_structural_kind(kind),
{
    kind == NodeKind::Slash || kind == NodeKind::LeftParen || kind == NodeKind::RightParen || kind
        == NodeKind::Comma || kind == NodeKind::Semicolon || kind == NodeKind::Underscore || kind
        == NodeKind::Hat
}

/// The byte of `?`.
pub open spec fn q_byte() -> u8 {
    63u8
}

/// Whether the text at `range` is a placeholder: exactly `?` or `(?)`.
pub open spec fn spec_is_placeholder(b: Seq<u8>, range: Range<usize>) -> bool {
    slice_is(b, range.start as int, range.end as int, seq![63u8])
        || slice_is(b, range.start as int, range.end as int, seq![40u8, 63u8, 41u8])
}

/// Whether the text at `range` is a placeholder: exactly `?` or `(?)`.
pub fn is_placeholder(text: &str, range: Range<usize>) -> (r: bool)
    ensures
        r == spec_is_placeholder(bytes_of(text), range),
{
    slice_is_byte(text, range.start, range.end, 63u8) || slice_is_bytes3(
        text,
        range.start,
        range.end,
        40u8,
        63u8,
        41u8,
    )
}

/// Whether the text at `start..end` is exactly the single byte `c`.
pub open spec fn text_is(b: Seq<u8>, start: int, end: int, c: u8) -> bool {
    slice_is(b, start, end, seq![c])
}

/// Whether the node at the first `k` steps of `p`, or one of its ancestors,
/// is math (a math container or a math identifier).
pub open spec fn within_math(t: SyntaxTree, p: Seq<usize>, k: int) -> bool
    decreases k + 1,
{
    if k < 0 {
        false
    } else {
        let n = t.at(p.take(k));
        n.kind == NodeKind::Math || n.kind == NodeKind::MathIdent || within_math(t, p, k - 1)
    }
}

/// A math placeholder: a token (or error) whose text is `?`, inside math.
pub open spec fn spec_is_math_placeholder(t: SyntaxTree, b: Seq<u8>, p: Seq<usize>) -> bool {
    let n = t.at(p);
    &&& n.leaf || n.kind == NodeKind::Error
    &&& text_is(b, n.start as int, n.end(), q_byte())
    &&& within_math(t, p, p.len() as int)
}

/// Whether the node at `path` is a `?` placeholder inside math (which the
/// editor draws as an empty box).
pub fn is_math_placeholder(source: &Document, path: &Vec<usize>) -> (r: bool)
    requires
        source@.tree.valid_path(path@),
    ensures
        r == spec_is_math_placeholder(source@.tree, source@.bytes, path@),
{
    source.check_wf();
    let t = source.tree();
    proof {
        lemma_at_wf(*t, path@);
    }
    let node = t.node_at(path);
    if !((node.leaf || node.kind == NodeKind::Error) && slice_is_byte(
        source.text(),
        node.start,
        node.end_offset(),
        63u8,
    )) {
        return false;
    }
    proof {
        assert(path@.take(path@.len() as int) =~= path@);
    }
    let mut k: usize = path.len();
    loop
        invariant
            *t == source@.tree,
            t.valid_path(path@),
            k <= path@.len(),
            within_math(*t, path@, k as int) == within_math(*t, path@, path@.len() as int),
            spec_is_math_placeholder(source@.tree, source@.bytes, path@) == within_math(
                *t,
                path@,
                path@.len() as int,
            ),
        decreases k,
    {
        let prefix = path_take(path, k);
        proof {
            lemma_valid_prefix(*t, path@, k as int);
        }
        let n = t.node_at(&prefix);
        assert(within_math(*t, path@, k as int) == (n.kind == NodeKind::Math || n.kind
            == NodeKind::MathIdent || within_math(*t, path@, k - 1)));
        if n.kind == NodeKind::Math || n.kind == NodeKind::MathIdent {
            return true;
        }
        if k == 0 {
            return false;
        }
        k = k - 1;
    }
}

} // verus!
