//! Finding the math structure around an offset: the whole structure's range
//! and the range of the field (argument, attachment, fraction arm, delimited
//! body or radicand) that holds the offset.

use super::common::{node_range, range_of, span, text_is};
use crate::syntax::kind::NodeKind;
use crate::syntax::nav::{
    leaf_after, leaf_before, lemma_leaf_at_valid, lemma_sibling_valid, next_sibling, opt_path,
    prev_sibling, Side,
};
use crate::syntax::parse::Document;
use crate::syntax::tree::{lemma_at_drop_last, lemma_at_wf, SyntaxTree};
use crate::text::slice_is_byte;
use std::ops::Range;
use vstd::prelude::*;

verus! {

/// Every end of the ranges lies at or below `bound`.
pub open spec fn ranges_within(x: Option<(Range<usize>, Range<usize>)>, bound: int) -> bool {
    match x {
        Some(p) => p.0.start <= bound && p.0.end <= bound && p.1.start <= bound && p.1.end <= bound,
        None => true,
    }
}

/// The kind of the node at `p`.
pub open spec fn kind_at(t: SyntaxTree, p: Seq<usize>) -> NodeKind {
    t.at(p).kind
}

// ---------------------------------------------------------------------------
// Arguments of a function call
// ---------------------------------------------------------------------------

/// Delimiters between the arguments of a call: `(`, `)`, `,` and `;`.
pub open spec fn is_arg_delim(k: NodeKind) -> bool {
    k == NodeKind::LeftParen || k == NodeKind::RightParen || k == NodeKind::Comma || k
        == NodeKind::Semicolon
}

/// The first child in `i..e` that is not a space.
pub open spec fn first_non_space(n: SyntaxTree, i: int, e: int) -> Option<int>
    decreases e - i,
{
    if i >= e || i < 0 || e > n.kids().len() {
        None
    } else if n.kids()[i].kind != NodeKind::Space {
        Some(i)
    } else {
        first_non_space(n, i + 1, e)
    }
}

/// The last child in `s..j` that is not a space.
pub open spec fn last_non_space(n: SyntaxTree, s: int, j: int) -> Option<int>
    decreases j - s,
{
    if j <= s || s < 0 || j > n.kids().len() {
        None
    } else if n.kids()[j - 1].kind != NodeKind::Space {
        Some(j - 1)
    } else {
        last_non_space(n, s, j - 1)
    }
}

/// Whether `offset` is inside `start..end`, or at its end when it is not empty.
pub open spec fn hits(start: int, end: int, offset: int) -> bool {
    (start <= offset < end) || (offset == end && start < end)
}

/// The argument made of children `s..e`, trimmed of spaces, if it holds `offset`.
pub open spec fn group_hit(n: SyntaxTree, offset: int, s: int, e: int) -> Option<Range<usize>> {
    match (first_non_space(n, s, e), last_non_space(n, s, e)) {
        (Some(f), Some(l)) => {
            let r0 = n.kids()[f].start as int;
            let r1 = n.kids()[l].end();
            if hits(r0, r1, offset) {
                Some(span(r0, r1))
            } else {
                None
            }
        },
        _ => None,
    }
}

/// Scans the children of an argument list from index `i` (the current
/// argument began at `gs`, or `gs < 0` when none is open) for the first
/// argument that holds `offset`.
pub open spec fn args_scan(n: SyntaxTree, offset: int, i: int, gs: int) -> Option<Range<usize>>
    decreases n.kids().len() - i,
{
    if i >= n.kids().len() || i < 0 {
        if gs >= 0 {
            group_hit(n, offset, gs, n.kids().len() as int)
        } else {
            None
        }
    } else if is_arg_delim(n.kids()[i].kind) {
        if gs >= 0 {
            match group_hit(n, offset, gs, i) {
                Some(r) => Some(r),
                None => args_scan(n, offset, i + 1, -1),
            }
        } else {
            args_scan(n, offset, i + 1, -1)
        }
    } else {
        args_scan(n, offset, i + 1, if gs >= 0 { gs } else { i })
    }
}

fn first_non_space_exec(n: &SyntaxTree, s: usize, e: usize) -> (r: Option<usize>)
    requires
        s <= e <= n.kids().len(),
    ensures
        match first_non_space(*n, s as int, e as int) {
            Some(k) => r == Some(k as usize) && s <= k < e,
            None => r is None,
        },
{
    let mut i = s;
    while i < e
        invariant
            s <= i <= e <= n.kids().len(),
            first_non_space(*n, i as int, e as int) == first_non_space(*n, s as int, e as int),
        decreases e - i,
    {
        if n.children[i].kind != NodeKind::Space {
            return Some(i);
        }
        i = i + 1;
    }
    None
}

fn last_non_space_exec(n: &SyntaxTree, s: usize, e: usize) -> (r: Option<usize>)
    requires
        s <= e <= n.kids().len(),
    ensures
        match last_non_space(*n, s as int, e as int) {
            Some(k) => r == Some(k as usize) && s <= k < e,
            None => r is None,
        },
{
    let mut j = e;
    while j > s
        invariant
            s <= j <= e <= n.kids().len(),
            last_non_space(*n, s as int, j as int) == last_non_space(*n, s as int, e as int),
        decreases j - s,
    {
        if n.children[j - 1].kind != NodeKind::Space {
            return Some(j - 1);
        }
        j = j - 1;
    }
    None
}

proof fn lemma_first_last_non_space(n: SyntaxTree, s: int, e: int)
    requires
        0 <= s <= e <= n.kids().len(),
    ensures
        first_non_space(n, s, e) is Some <==> last_non_space(n, s, e) is Some,
        (first_non_space(n, s, e) matches Some(f) ==> (last_non_space(n, s, e) matches Some(l) ==> f
            <= l)),
    decreases e - s,
{
    if s < e {
        if n.kids()[s].kind == NodeKind::Space {
            lemma_first_last_non_space(n, s + 1, e);
            lemma_last_non_space_from(n, s, e);
        } else {
            lemma_last_non_space_at_least(n, s, e);
        }
    }
}

proof fn lemma_last_non_space_at_least(n: SyntaxTree, s: int, j: int)
    requires
        0 <= s < j <= n.kids().len(),
        n.kids()[s].kind != NodeKind::Space,
    ensures
        last_non_space(n, s, j) matches Some(l) && s <= l < j,
    decreases j - s,
{
    if n.kids()[j - 1].kind == NodeKind::Space {
        lemma_last_non_space_at_least(n, s, j - 1);
    }
}

proof fn lemma_last_non_space_from(n: SyntaxTree, s: int, j: int)
    requires
        0 <= s < j <= n.kids().len(),
        n.kids()[s].kind == NodeKind::Space,
    ensures
        last_non_space(n, s, j) == last_non_space(n, s + 1, j),
    decreases j - s,
{
    if j - 1 > s && n.kids()[j - 1].kind == NodeKind::Space {
        lemma_last_non_space_from(n, s, j - 1);
        assert(last_non_space(n, s + 1, j) == last_non_space(n, s + 1, j - 1));
    } else if j - 1 > s {
        assert(last_non_space(n, s + 1, j) == Some(j - 1));
    } else {
        assert(last_non_space(n, s + 1, j) is None);
        assert(last_non_space(n, s, j - 1) is None);
    }
}

fn group_hit_exec(n: &SyntaxTree, offset: usize, s: usize, e: usize) -> (r: Option<Range<usize>>)
    requires
        n.wf(),
        s <= e <= n.kids().len(),
    ensures
        r == group_hit(*n, offset as int, s as int, e as int),
        r matches Some(g) ==> g.start <= n.end() && g.end <= n.end(),
{
    proof {
        lemma_first_last_non_space(*n, s as int, e as int);
    }
    match (first_non_space_exec(n, s, e), last_non_space_exec(n, s, e)) {
        (Some(f), Some(l)) => {
            proof {
                crate::syntax::tree::lemma_child_within(*n, f as int);
                crate::syntax::tree::lemma_child_within(*n, l as int);
            }
            let r0 = n.children[f].start;
            let r1 = n.children[l].end_offset();
            if (r0 <= offset && offset < r1) || (offset == r1 && r0 < r1) {
                Some(Range { start: r0, end: r1 })
            } else {
                None
            }
        },
        _ => None,
    }
}

/// The argument of the call's argument list `n` that holds `offset`.
fn args_scan_exec(n: &SyntaxTree, offset: usize) -> (r: Option<Range<usize>>)
    requires
        n.wf(),
    ensures
        r == args_scan(*n, offset as int, 0, -1),
        r matches Some(g) ==> g.start <= n.end() && g.end <= n.end(),
{
    let len = n.children.len();
    let mut i: usize = 0;
    let mut gs: Option<usize> = None;
    while i < len
        invariant
            i <= len == n.kids().len(),
            n.wf(),
            gs matches Some(g) ==> g < i,
            args_scan(*n, offset as int, i as int, match gs { Some(g) => g as int, None => -1 })
                == args_scan(*n, offset as int, 0, -1),
        decreases len - i,
    {
        let k = n.children[i].kind;
        if k == NodeKind::LeftParen || k == NodeKind::RightParen || k == NodeKind::Comma || k
            == NodeKind::Semicolon {
            match gs {
                Some(g) => {
                    let hit = group_hit_exec(n, offset, g, i);
                    if hit.is_some() {
                        return hit;
                    }
                },
                None => {},
            }
            gs = None;
        } else if gs.is_none() {
            gs = Some(i);
        }
        i = i + 1;
    }
    match gs {
        Some(g) => group_hit_exec(n, offset, g, len),
        None => None,
    }
}

// ---------------------------------------------------------------------------
// Attachments
// ---------------------------------------------------------------------------

/// Attachment operators: `_` and `^`.
pub open spec fn is_attach_op(k: NodeKind) -> bool {
    k == NodeKind::Underscore || k == NodeKind::Hat
}

/// The editable inside of an attachment value: a math group of one child is
/// unwrapped, then one pair of enclosing parentheses is dropped.
pub open spec fn inner_range(b: Seq<u8>, n: SyntaxTree) -> Range<usize> {
    let s = if n.kind == NodeKind::Math && n.kids().len() == 1 {
        n.kids()[0].start as int
    } else {
        n.start as int
    };
    let e = if n.kind == NodeKind::Math && n.kids().len() == 1 {
        n.kids()[0].end()
    } else {
        n.end()
    };
    if e > s + 1 && text_is(b, s, s + 1, 40u8) && text_is(b, e - 1, e, 41u8) {
        span(s + 1, e - 1)
    } else {
        span(s, e)
    }
}

fn inner_range_exec(text: &str, n: &SyntaxTree) -> (r: Range<usize>)
    requires
        n.wf(),
    ensures
        r == inner_range(crate::text::bytes_of(text), *n),
        r.start <= n.end() && r.end <= n.end(),
{
    let mut s = n.start;
    let mut e = n.end_offset();
    if n.kind == NodeKind::Math && n.children.len() == 1 {
        proof {
            crate::syntax::tree::lemma_child_within(*n, 0);
        }
        s = n.children[0].start;
        e = n.children[0].end_offset();
    }
    if s < e && e - s > 1 && slice_is_byte(text, s, s + 1, 40u8) && slice_is_byte(text, e - 1, e, 41u8) {
        Range { start: s + 1, end: e - 1 }
    } else {
        Range { start: s, end: e }
    }
}

/// The attachment around the node at `cur`, whose parent is an attachment:
/// when an operator precedes it, the operator through the node (with the
/// node's inside); when it is itself an operator, the operator through the
/// value that follows (with the value's inside).
pub open spec fn attach_case(t: SyntaxTree, b: Seq<u8>, cur: Seq<usize>) -> Option<(Range<usize>, Range<usize>)> {
    let by_prev = match prev_sibling(t, cur) {
        Some(op) => if is_attach_op(kind_at(t, op)) {
            Some((span(t.at(op).start as int, t.at(cur).end()), inner_range(b, t.at(cur))))
        } else {
            None
        },
        None => None,
    };
    if by_prev is Some {
        by_prev
    } else if is_attach_op(kind_at(t, cur)) {
        match next_sibling(t, cur) {
            Some(v) => Some((span(t.at(cur).start as int, t.at(v).end()), inner_range(b, t.at(v)))),
            None => None,
        }
    } else {
        None
    }
}

/// Climbing from the node at `cur` to the first ancestor that is an
/// attachment (stopping at an equation or markup), the attachment field
/// there.
pub open spec fn attach_ranges(t: SyntaxTree, b: Seq<u8>, cur: Seq<usize>) -> Option<(Range<usize>, Range<usize>)>
    decreases cur.len(),
{
    if cur.len() == 0 {
        None
    } else {
        let pk = kind_at(t, cur.drop_last());
        if pk == NodeKind::MathAttach {
            attach_case(t, b, cur)
        } else if pk == NodeKind::Equation || pk == NodeKind::Markup {
            None
        } else {
            attach_ranges(t, b, cur.drop_last())
        }
    }
}

fn attach_case_exec(text: &str, t: &SyntaxTree, cur: &Vec<usize>) -> (r: Option<(Range<usize>, Range<usize>)>)
    requires
        t.wf(),
        t.valid_path(cur@),
    ensures
        r == attach_case(*t, crate::text::bytes_of(text), cur@),
        ranges_within(r, t.end()),
{
    proof {
        lemma_sibling_valid(*t, cur@);
        lemma_at_wf(*t, cur@);
    }
    let node = t.node_at(cur);
    match t.prev_sibling(cur) {
        Some(op) => {
            proof {
                lemma_at_wf(*t, op@);
            }
            let opn = t.node_at(&op);
            if opn.kind == NodeKind::Underscore || opn.kind == NodeKind::Hat {
                return Some(
                    (Range { start: opn.start, end: node.end_offset() }, inner_range_exec(text, node)),
                );
            }
        },
        None => {},
    }
    if node.kind == NodeKind::Underscore || node.kind == NodeKind::Hat {
        match t.next_sibling(cur) {
            Some(v) => {
                proof {
                    lemma_at_wf(*t, v@);
                }
                let vn = t.node_at(&v);
                Some((Range { start: node.start, end: vn.end_offset() }, inner_range_exec(text, vn)))
            },
            None => None,
        }
    } else {
        None
    }
}

fn attach_ranges_exec(text: &str, t: &SyntaxTree, start: &Vec<usize>) -> (r: Option<(Range<usize>, Range<usize>)>)
    requires
        t.wf(),
        t.valid_path(start@),
    ensures
        r == attach_ranges(*t, crate::text::bytes_of(text), start@),
        ranges_within(r, t.end()),
{
    let mut cur = crate::syntax::nav::path_take(start, start.len());
    proof {
        assert(cur@ =~= start@);
    }
    while cur.len() > 0
        invariant
            t.wf(),
            t.valid_path(cur@),
            attach_ranges(*t, crate::text::bytes_of(text), cur@) == attach_ranges(
                *t,
                crate::text::bytes_of(text),
                start@,
            ),
        decreases cur@.len(),
    {
        let parent = crate::syntax::nav::path_take(&cur, cur.len() - 1);
        proof {
            assert(parent@ =~= cur@.drop_last());
            lemma_at_drop_last(*t, cur@);
        }
        let pk = t.node_at(&parent).kind;
        if pk == NodeKind::MathAttach {
            return attach_case_exec(text, t, &cur);
        } else if pk == NodeKind::Equation || pk == NodeKind::Markup {
            return None;
        }
        cur = parent;
    }
    None
}

// ---------------------------------------------------------------------------
// Fraction arms, delimited bodies, radicands
// ---------------------------------------------------------------------------

/// The first child from index `i` on whose kind is neither `x1` nor `x2` and
/// whose range holds `offset`.
pub open spec fn arm_scan(n: SyntaxTree, offset: int, i: int, x1: NodeKind, x2: NodeKind) -> Option<int>
    decreases n.kids().len() - i,
{
    if i < 0 || i >= n.kids().len() {
        None
    } else if n.kids()[i].kind != x1 && n.kids()[i].kind != x2 && hits(
        n.kids()[i].start as int,
        n.kids()[i].end(),
        offset,
    ) {
        Some(i)
    } else {
        arm_scan(n, offset, i + 1, x1, x2)
    }
}

fn arm_scan_exec(n: &SyntaxTree, offset: usize, x1: NodeKind, x2: NodeKind) -> (r: Option<usize>)
    requires
        n.wf(),
    ensures
        match arm_scan(*n, offset as int, 0, x1, x2) {
            Some(k) => r == Some(k as usize) && 0 <= k < n.kids().len(),
            None => r is None,
        },
{
    let len = n.children.len();
    let mut i: usize = 0;
    while i < len
        invariant
            i <= len == n.kids().len(),
            n.wf(),
            arm_scan(*n, offset as int, i as int, x1, x2) == arm_scan(*n, offset as int, 0, x1, x2),
        decreases len - i,
    {
        let c = &n.children[i];
        proof {
            assert(c.wf());
        }
        let e = c.end_offset();
        if c.kind != x1 && c.kind != x2 && ((c.start <= offset && offset < e) || (offset == e
            && c.start < e)) {
            return Some(i);
        }
        i = i + 1;
    }
    None
}

/// The arm of a fraction, body of a delimited group, or radicand of a root
/// node `n` that holds `offset`, with the whole node's range.
pub open spec fn arm_ranges(n: SyntaxTree, offset: int) -> Option<(Range<usize>, Range<usize>)> {
    let found = if n.kind == NodeKind::MathFrac {
        arm_scan(n, offset, 0, NodeKind::Slash, NodeKind::Space)
    } else if n.kind == NodeKind::MathDelimited {
        arm_scan(n, offset, 0, NodeKind::LeftParen, NodeKind::RightParen)
    } else if n.kind == NodeKind::MathRoot {
        arm_scan(n, offset, 0, NodeKind::Root, NodeKind::Space)
    } else {
        None
    };
    match found {
        Some(k) => Some((node_range(n), node_range(n.kids()[k]))),
        None => None,
    }
}

proof fn lemma_arm_scan(n: SyntaxTree, offset: int, i: int, x1: NodeKind, x2: NodeKind)
    ensures
        arm_scan(n, offset, i, x1, x2) matches Some(k) ==> 0 <= k < n.kids().len(),
    decreases n.kids().len() - i,
{
    if 0 <= i < n.kids().len() {
        lemma_arm_scan(n, offset, i + 1, x1, x2);
    }
}

fn arm_ranges_exec(n: &SyntaxTree, offset: usize) -> (r: Option<(Range<usize>, Range<usize>)>)
    requires
        n.wf(),
    ensures
        r == arm_ranges(*n, offset as int),
        ranges_within(r, n.end()),
{
    let found = if n.kind == NodeKind::MathFrac {
        arm_scan_exec(n, offset, NodeKind::Slash, NodeKind::Space)
    } else if n.kind == NodeKind::MathDelimited {
        arm_scan_exec(n, offset, NodeKind::LeftParen, NodeKind::RightParen)
    } else if n.kind == NodeKind::MathRoot {
        arm_scan_exec(n, offset, NodeKind::Root, NodeKind::Space)
    } else {
        None
    };
    match found {
        Some(k) => {
            proof {
                crate::syntax::tree::lemma_child_within(*n, k as int);
            }
            Some((range_of(n), range_of(&n.children[k])))
        },
        None => None,
    }
}

// ---------------------------------------------------------------------------
// The walk up from the leaf
// ---------------------------------------------------------------------------

/// The structure found at the node at `p`, trying in turn: an argument of a
/// call, an attachment field around it, and the arm of a fraction, delimited
/// group or root.
pub open spec fn structure_at(t: SyntaxTree, b: Seq<u8>, offset: int, p: Seq<usize>) -> Option<(Range<usize>, Range<usize>)> {
    let n = t.at(p);
    let by_args = if n.kind == NodeKind::Args && p.len() > 0 && kind_at(t, p.drop_last())
        == NodeKind::FuncCall {
        match args_scan(n, offset, 0, -1) {
            Some(r) => Some((node_range(t.at(p.drop_last())), r)),
            None => None,
        }
    } else {
        None
    };
    if by_args is Some {
        by_args
    } else if attach_ranges(t, b, p) is Some {
        attach_ranges(t, b, p)
    } else {
        arm_ranges(n, offset)
    }
}

/// The first structure found walking from the node at `p` up to the root.
pub open spec fn structure_walk(t: SyntaxTree, b: Seq<u8>, offset: int, p: Seq<usize>) -> Option<(Range<usize>, Range<usize>)>
    decreases p.len(),
{
    match structure_at(t, b, offset, p) {
        Some(x) => Some(x),
        None => if p.len() == 0 {
            None
        } else {
            structure_walk(t, b, offset, p.drop_last())
        },
    }
}

/// The leaf the search starts from: the leaf before the offset, unless there
/// is none or it is a parenthesis, in which case the leaf after it (if any).
pub open spec fn start_leaf(t: SyntaxTree, c: int) -> Option<Seq<usize>> {
    let lb = leaf_before(t, c);
    let weak = match lb {
        Some(p) => kind_at(t, p) == NodeKind::LeftParen || kind_at(t, p) == NodeKind::RightParen,
        None => true,
    };
    if weak && leaf_after(t, c) is Some {
        leaf_after(t, c)
    } else {
        lb
    }
}

/// The math structure around `offset`: the whole structure and the field
/// that holds the offset.
pub open spec fn math_structure_ranges(t: SyntaxTree, b: Seq<u8>, offset: int) -> Option<(Range<usize>, Range<usize>)> {
    let c = if offset < b.len() { offset } else { b.len() as int };
    match start_leaf(t, c) {
        Some(p) => structure_walk(t, b, offset, p),
        None => None,
    }
}

fn structure_at_exec(text: &str, t: &SyntaxTree, offset: usize, p: &Vec<usize>) -> (r: Option<(Range<usize>, Range<usize>)>)
    requires
        t.wf(),
        t.valid_path(p@),
    ensures
        r == structure_at(*t, crate::text::bytes_of(text), offset as int, p@),
        ranges_within(r, t.end()),
{
    proof {
        lemma_at_wf(*t, p@);
    }
    let n = t.node_at(p);
    if n.kind == NodeKind::Args && p.len() > 0 {
        let q = crate::syntax::nav::path_take(p, p.len() - 1);
        proof {
            assert(q@ =~= p@.drop_last());
            lemma_at_drop_last(*t, p@);
            lemma_at_wf(*t, q@);
        }
        let parent = t.node_at(&q);
        if parent.kind == NodeKind::FuncCall {
            match args_scan_exec(n, offset) {
                Some(r) => {
                    return Some((range_of(parent), r));
                },
                None => {},
            }
        }
    }
    let a = attach_ranges_exec(text, t, p);
    if a.is_some() {
        return a;
    }
    arm_ranges_exec(n, offset)
}

/// Finds the math structure around byte offset `offset`: the range of the
/// whole structure and the range of its field that holds the offset.
pub fn find_math_structure_ranges(source: &Document, offset: usize) -> (r: Option<(Range<usize>, Range<usize>)>)
    ensures
        r == math_structure_ranges(source@.tree, source@.bytes, offset as int),
        ranges_within(r, source@.bytes.len() as int),
{
    source.check_wf();
    let text = source.text();
    let t = source.tree();
    let len = crate::text::text_len(text);
    let clamped = if offset < len { offset } else { len };
    let mut leaf = t.leaf_at(clamped, Side::Before);
    proof {
        lemma_leaf_at_valid(*t, clamped as int, Side::Before);
        lemma_leaf_at_valid(*t, clamped as int, Side::After);
    }
    let weak = match &leaf {
        Some(p) => {
            let k = t.node_at(p).kind;
            k == NodeKind::LeftParen || k == NodeKind::RightParen
        },
        None => true,
    };
    if weak {
        let other = t.leaf_at(clamped, Side::After);
        if other.is_some() {
            leaf = other;
        }
    }
    let mut p = match leaf {
        Some(p) => p,
        None => {
            return None;
        },
    };
    loop
        invariant
            t.wf(),
            t.valid_path(p@),
            structure_walk(*t, source@.bytes, offset as int, p@) == math_structure_ranges(
                source@.tree,
                source@.bytes,
                offset as int,
            ),
            *t == source@.tree,
            t.end() == source@.bytes.len(),
            crate::text::bytes_of(text) == source@.bytes,
        decreases p@.len(),
    {
        let found = structure_at_exec(text, t, offset, &p);
        if found.is_some() {
            return found;
        }
        if p.len() == 0 {
            return None;
        }
        let q = crate::syntax::nav::path_take(&p, p.len() - 1);
        proof {
            assert(q@ =~= p@.drop_last());
            lemma_at_drop_last(*t, p@);
        }
        p = q;
    }
}

} // verus!
