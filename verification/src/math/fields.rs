//! Selecting math fields for pointer and deletion handling: placeholders,
//! sub-fields (attachment groups, fractions, roots) and attachment values.

use super::common::{node_range, span, text_is};
use super::deletion::next_solid;
use super::structure::kind_at;
use crate::syntax::kind::NodeKind;
use crate::syntax::nav::{leaf_after, leaf_before, lemma_leaf_at_valid, path_take, Side};
use crate::syntax::parse::Document;
use crate::syntax::tree::{lemma_at_drop_last, lemma_at_wf, lemma_child_within, SyntaxTree};
use crate::text::{slice_is_byte, text_len};
use std::ops::Range;
use vstd::prelude::*;

verus! {

/// Whether the text of the node is exactly `?`.
pub open spec fn is_q_node(b: Seq<u8>, n: SyntaxTree) -> bool {
    text_is(b, n.start as int, n.end(), 63u8)
}

/// Whether the byte before `start` exists and is an attachment operator.
pub open spec fn op_before(b: Seq<u8>, start: int) -> bool {
    start > 0 && (text_is(b, start - 1, start, 95u8) || text_is(b, start - 1, start, 94u8))
}

/// `s..e`, without one pair of enclosing parentheses when it is longer than
/// `min_len` bytes and has them.
pub open spec fn unparen(b: Seq<u8>, s: int, e: int, min_len: int) -> Range<usize> {
    if e > s + min_len && text_is(b, s, s + 1, 40u8) && text_is(b, e - 1, e, 41u8) {
        span(s + 1, e - 1)
    } else {
        span(s, e)
    }
}

fn unparen_exec(text: &str, s: usize, e: usize, min_len: usize) -> (r: Range<usize>)
    requires
        s <= e <= crate::text::bytes_of(text).len(),
        min_len <= 1,
    ensures
        r == unparen(crate::text::bytes_of(text), s as int, e as int, min_len as int),
        r.start <= e && r.end <= e,
{
    if e - s > min_len && slice_is_byte(text, s, s + 1, 40u8) && slice_is_byte(text, e - 1, e, 41u8) {
        Range { start: s + 1, end: e - 1 }
    } else {
        Range { start: s, end: e }
    }
}

fn op_before_exec(text: &str, start: usize) -> (r: bool)
    ensures
        r == op_before(crate::text::bytes_of(text), start as int),
{
    start > 0 && (slice_is_byte(text, start - 1, start, 95u8) || slice_is_byte(text, start - 1, start, 94u8))
}

fn clamp_len(text: &str, offset: usize) -> (r: usize)
    ensures
        r == (if offset < crate::text::bytes_of(text).len() { offset as int } else { crate::text::bytes_of(text).len() as int }),
{
    let len = text_len(text);
    if offset < len { offset } else { len }
}

// ---------------------------------------------------------------------------
// Placeholder or identifier under the pointer
// ---------------------------------------------------------------------------

/// The field to select at `offset`: the leaf before it unless that is not a
/// `?` (then the leaf after), taken when it is a `?`, an identifier, or an
/// attachment value without wrapper.
pub open spec fn group_range(t: SyntaxTree, b: Seq<u8>, offset: int) -> Option<Range<usize>> {
    let c = if offset < b.len() { offset } else { b.len() as int };
    let before = leaf_before(t, c);
    let target = match before {
        Some(p) => if is_q_node(b, t.at(p)) { before } else { leaf_after(t, c) },
        None => leaf_after(t, c),
    };
    match target {
        Some(p) => {
            let l = t.at(p);
            if is_q_node(b, l) || l.kind == NodeKind::MathIdent || (p.len() > 0 && kind_at(
                t,
                p.drop_last(),
            ) == NodeKind::MathAttach) {
                Some(node_range(l))
            } else {
                None
            }
        },
        None => None,
    }
}

/// The exact range of the `?` placeholder (or identifier, or bare attachment
/// value) at `offset`, so that clicking it selects just that field.
pub fn find_math_group_range(source: &Document, offset: usize) -> (r: Option<Range<usize>>)
    ensures
        r == group_range(source@.tree, source@.bytes, offset as int),
{
    source.check_wf();
    let text = source.text();
    let t = source.tree();
    let c = clamp_len(text, offset);
    proof {
        lemma_leaf_at_valid(*t, c as int, Side::Before);
        lemma_leaf_at_valid(*t, c as int, Side::After);
    }
    let before = t.leaf_before(c);
    let is_q = match &before {
        Some(p) => {
            proof {
                lemma_at_wf(*t, p@);
            }
            let l = t.node_at(p);
            slice_is_byte(text, l.start, l.end_offset(), 63u8)
        },
        None => false,
    };
    let target = if is_q { before } else { t.leaf_after(c) };
    match target {
        Some(p) => {
            proof {
                lemma_at_wf(*t, p@);
            }
            let l = t.node_at(&p);
            let range = Range { start: l.start, end: l.end_offset() };
            if slice_is_byte(text, l.start, l.end_offset(), 63u8) || l.kind == NodeKind::MathIdent {
                return Some(range);
            }
            if p.len() > 0 {
                let q = path_take(&p, p.len() - 1);
                proof {
                    assert(q@ =~= p@.drop_last());
                    lemma_at_drop_last(*t, p@);
                }
                if t.node_at(&q).kind == NodeKind::MathAttach {
                    return Some(range);
                }
            }
            None
        },
        None => None,
    }
}

// ---------------------------------------------------------------------------
// Sub-field around the caret
// ---------------------------------------------------------------------------

/// Climbing from the node at `p`: a delimited group is the sub-field (with
/// the attachment operator before it, when it is an attachment value); a
/// fraction or root is the sub-field; the climb stops at an attachment.
pub open spec fn subfield_walk(t: SyntaxTree, b: Seq<u8>, p: Seq<usize>) -> Option<Range<usize>>
    decreases p.len(),
{
    let n = t.at(p);
    if n.kind == NodeKind::MathDelimited {
        if p.len() > 0 && kind_at(t, p.drop_last()) == NodeKind::MathAttach && op_before(
            b,
            n.start as int,
        ) {
            Some(span(n.start - 1, n.end()))
        } else {
            Some(node_range(n))
        }
    } else if n.kind == NodeKind::MathFrac || n.kind == NodeKind::MathRoot {
        Some(node_range(n))
    } else if n.kind == NodeKind::MathAttach || p.len() == 0 {
        None
    } else {
        subfield_walk(t, b, p.drop_last())
    }
}

/// The tightest math sub-field enclosing the leaf before `offset`.
pub open spec fn subfield_range(t: SyntaxTree, b: Seq<u8>, offset: int) -> Option<Range<usize>> {
    let c = if offset < b.len() { offset } else { b.len() as int };
    match leaf_before(t, c) {
        Some(p) => subfield_walk(t, b, p),
        None => None,
    }
}

/// The tightest enclosing math sub-field at `offset`: an attachment group
/// with its `_` or `^` operator, a fraction, or a root.
pub fn find_math_subfield_range(source: &Document, offset: usize) -> (r: Option<Range<usize>>)
    ensures
        r == subfield_range(source@.tree, source@.bytes, offset as int),
{
    source.check_wf();
    let text = source.text();
    let t = source.tree();
    let c = clamp_len(text, offset);
    proof {
        lemma_leaf_at_valid(*t, c as int, Side::Before);
    }
    let mut p = match t.leaf_before(c) {
        Some(p) => p,
        None => {
            return None;
        },
    };
    loop
        invariant
            t.wf(),
            t.valid_path(p@),
            *t == source@.tree,
            crate::text::bytes_of(text) == source@.bytes,
            subfield_walk(*t, source@.bytes, p@) == subfield_range(source@.tree, source@.bytes, offset as int),
        decreases p@.len(),
    {
        proof {
            lemma_at_wf(*t, p@);
        }
        let n = t.node_at(&p);
        let has_parent = p.len() > 0;
        let q = if has_parent { path_take(&p, p.len() - 1) } else { Vec::new() };
        proof {
            if has_parent {
                assert(q@ =~= p@.drop_last());
                lemma_at_drop_last(*t, p@);
            }
        }
        if n.kind == NodeKind::MathDelimited {
            if has_parent && t.node_at(&q).kind == NodeKind::MathAttach && op_before_exec(text, n.start) {
                return Some(Range { start: n.start - 1, end: n.end_offset() });
            }
            return Some(Range { start: n.start, end: n.end_offset() });
        }
        if n.kind == NodeKind::MathFrac || n.kind == NodeKind::MathRoot {
            return Some(Range { start: n.start, end: n.end_offset() });
        }
        if n.kind == NodeKind::MathAttach || !has_parent {
            return None;
        }
        p = q;
    }
}

// ---------------------------------------------------------------------------
// Attachment around the caret
// ---------------------------------------------------------------------------

/// Climbing from the node at `p` to the first node that is a direct
/// attachment value preceded by `_` or `^`: the operator through the value,
/// and the value without one pair of parentheses.
pub open spec fn attachment_walk(t: SyntaxTree, b: Seq<u8>, p: Seq<usize>) -> Option<(Range<usize>, Range<usize>)>
    decreases p.len(),
{
    if p.len() == 0 {
        None
    } else {
        let n = t.at(p);
        if kind_at(t, p.drop_last()) == NodeKind::MathAttach && op_before(b, n.start as int) {
            Some((span(n.start - 1, n.end()), unparen(b, n.start as int, n.end(), 0)))
        } else {
            attachment_walk(t, b, p.drop_last())
        }
    }
}

/// The attachment sub-field around the leaf before `offset`.
pub open spec fn attachment_ranges(t: SyntaxTree, b: Seq<u8>, offset: int) -> Option<(Range<usize>, Range<usize>)> {
    let c = if offset < b.len() { offset } else { b.len() as int };
    match leaf_before(t, c) {
        Some(p) => attachment_walk(t, b, p),
        None => None,
    }
}

/// The attachment around `offset`: the range from its `_` or `^` operator
/// through its value, and the value's inside.
pub fn find_math_attachment_ranges(source: &Document, offset: usize) -> (r: Option<(Range<usize>, Range<usize>)>)
    ensures
        r == attachment_ranges(source@.tree, source@.bytes, offset as int),
{
    source.check_wf();
    let text = source.text();
    let t = source.tree();
    let c = clamp_len(text, offset);
    proof {
        lemma_leaf_at_valid(*t, c as int, Side::Before);
    }
    let mut p = match t.leaf_before(c) {
        Some(p) => p,
        None => {
            return None;
        },
    };
    while p.len() > 0
        invariant
            t.wf(),
            t.valid_path(p@),
            *t == source@.tree,
            crate::text::bytes_of(text) == source@.bytes,
            t.end() == source@.bytes.len(),
            attachment_walk(*t, source@.bytes, p@) == attachment_ranges(source@.tree, source@.bytes, offset as int),
        decreases p@.len(),
    {
        proof {
            lemma_at_wf(*t, p@);
        }
        let n = t.node_at(&p);
        let q = path_take(&p, p.len() - 1);
        proof {
            assert(q@ =~= p@.drop_last());
            lemma_at_drop_last(*t, p@);
        }
        if t.node_at(&q).kind == NodeKind::MathAttach && op_before_exec(text, n.start) {
            let e = n.end_offset();
            return Some((Range { start: n.start - 1, end: e }, unparen_exec(text, n.start, e, 0)));
        }
        p = q;
    }
    None
}

// ---------------------------------------------------------------------------
// Intercepting deletions of attachment structure
// ---------------------------------------------------------------------------

/// Climbing from the node at `p`: the first attachment whose base is a bare
/// identifier or text holding `x`.
pub open spec fn attach_base_walk(t: SyntaxTree, x: int, p: Seq<usize>) -> Option<Range<usize>>
    decreases p.len(),
{
    let n = t.at(p);
    let hit = n.kind == NodeKind::MathAttach && n.kids().len() > 0 && n.kids()[0].start <= x
        < n.kids()[0].end() && (n.kids()[0].kind == NodeKind::MathIdent || n.kids()[0].kind
        == NodeKind::MathText);
    if hit {
        Some(node_range(n))
    } else if p.len() == 0 {
        None
    } else {
        attach_base_walk(t, x, p.drop_last())
    }
}

/// What deleting `target` in math should select instead: the whole
/// attachment when deleting in its bare base; the value's inside when
/// deleting an attachment operator; the inside of a parenthesized attachment
/// value when deleting one of its parentheses.
pub open spec fn intercepted(t: SyntaxTree, b: Seq<u8>, target: Range<usize>) -> Option<Range<usize>> {
    match leaf_after(t, target.start as int) {
        None => None,
        Some(lp) => {
            let l = t.at(lp);
            let by_base = attach_base_walk(t, target.start as int, lp);
            if by_base is Some {
                by_base
            } else if (l.kind == NodeKind::Underscore || l.kind == NodeKind::Hat) && lp.len() > 0
                && kind_at(t, lp.drop_last()) == NodeKind::MathAttach && next_solid(
                t.at(lp.drop_last()),
                lp.last() + 1,
            ) is Some {
                let v = t.at(lp.drop_last()).kids()[next_solid(t.at(lp.drop_last()), lp.last() + 1).unwrap()];
                Some(unparen(b, v.start as int, v.end(), 0))
            } else if (l.kind == NodeKind::LeftParen || l.kind == NodeKind::RightParen) && lp.len() > 1
                && kind_at(t, lp.drop_last()) == NodeKind::Math && kind_at(
                t,
                lp.drop_last().drop_last(),
            ) == NodeKind::MathAttach && op_before(b, t.at(lp.drop_last()).start as int) {
                let m = t.at(lp.drop_last());
                Some(unparen(b, m.start as int, m.end(), 0))
            } else {
                None
            }
        },
    }
}

fn attach_base_walk_exec(t: &SyntaxTree, x: usize, start: &Vec<usize>) -> (r: Option<Range<usize>>)
    requires
        t.wf(),
        t.valid_path(start@),
    ensures
        r == attach_base_walk(*t, x as int, start@),
{
    let mut p = path_take(start, start.len());
    proof {
        assert(p@ =~= start@);
    }
    loop
        invariant
            t.wf(),
            t.valid_path(p@),
            attach_base_walk(*t, x as int, p@) == attach_base_walk(*t, x as int, start@),
        decreases p@.len(),
    {
        proof {
            lemma_at_wf(*t, p@);
        }
        let n = t.node_at(&p);
        if n.kind == NodeKind::MathAttach && n.children.len() > 0 {
            let f = &n.children[0];
            proof {
                lemma_child_within(*n, 0);
            }
            if f.start <= x && x < f.end_offset() && (f.kind == NodeKind::MathIdent || f.kind
                == NodeKind::MathText) {
                return Some(Range { start: n.start, end: n.end_offset() });
            }
        }
        if p.len() == 0 {
            return None;
        }
        let q = path_take(&p, p.len() - 1);
        proof {
            assert(q@ =~= p@.drop_last());
            lemma_at_drop_last(*t, p@);
        }
        p = q;
    }
}

fn next_solid_at(n: &SyntaxTree, j: usize) -> (r: Option<usize>)
    requires
        n.kids().len() <= usize::MAX,
    ensures
        match next_solid(*n, j as int) {
            Some(v) => r == Some(v as usize) && j <= v < n.kids().len(),
            None => r is None,
        },
{
    let len = n.children.len();
    let mut i = j;
    while i < len
        invariant
            j <= i,
            len == n.kids().len(),
            next_solid(*n, i as int) == next_solid(*n, j as int),
        decreases len - i,
    {
        let k = n.children[i].kind;
        if !k.is_trivia() && k != NodeKind::Error {
            return Some(i);
        }
        i = i + 1;
    }
    None
}

/// The range to select when a deletion of `target_range` would break an
/// attachment's structure; `None` when the deletion may go ahead.
pub fn intercept_math_deletion(source: &Document, target_range: Range<usize>) -> (r: Option<Range<usize>>)
    ensures
        r == intercepted(source@.tree, source@.bytes, target_range),
{
    source.check_wf();
    let text = source.text();
    let t = source.tree();
    proof {
        lemma_leaf_at_valid(*t, target_range.start as int, Side::After);
    }
    let lp = match t.leaf_after(target_range.start) {
        Some(lp) => lp,
        None => {
            return None;
        },
    };
    let by_base = attach_base_walk_exec(t, target_range.start, &lp);
    if by_base.is_some() {
        return by_base;
    }
    proof {
        lemma_at_wf(*t, lp@);
    }
    let lk = t.node_at(&lp).kind;
    if lp.len() == 0 {
        return None;
    }
    let q = path_take(&lp, lp.len() - 1);
    proof {
        assert(q@ =~= lp@.drop_last());
        lemma_at_drop_last(*t, lp@);
        lemma_at_wf(*t, q@);
    }
    let par = t.node_at(&q);
    if (lk == NodeKind::Underscore || lk == NodeKind::Hat) && par.kind == NodeKind::MathAttach {
        match next_solid_at(par, lp[lp.len() - 1] + 1) {
            Some(v) => {
                let vn = &par.children[v];
                proof {
                    lemma_child_within(*par, v as int);
                }
                return Some(unparen_exec(text, vn.start, vn.end_offset(), 0));
            },
            None => {},
        }
    }
    if (lk == NodeKind::LeftParen || lk == NodeKind::RightParen) && q.len() > 0 && par.kind
        == NodeKind::Math {
        let g = path_take(&q, q.len() - 1);
        proof {
            assert(g@ =~= q@.drop_last());
            lemma_at_drop_last(*t, q@);
        }
        if t.node_at(&g).kind == NodeKind::MathAttach && op_before_exec(text, par.start) {
            return Some(unparen_exec(text, par.start, par.end_offset(), 0));
        }
    }
    None
}

} // verus!
