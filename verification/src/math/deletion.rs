//! Deletion inside math: selections grow to whole units, whole structures
//! are removed atomically, and emptied fields fall back to a `?` placeholder.

use super::common::{
    is_placeholder, is_structural_kind, node_range, range_of, span, spec_is_placeholder,
    spec_is_structural_kind, text_is,
};
use super::structure::{find_math_structure_ranges, kind_at, math_structure_ranges};
use crate::editor::state::{
    edit, edit_view, no_text, opt_action, qmark_text, select, select_view, space_text,
    ActionView, EditorAction, EditorContext, EditorState,
};
use crate::syntax::kind::NodeKind;
use crate::syntax::nav::{
    leaf_after, leaf_before, lemma_leaf_at_valid, lemma_neighbour_leaves, lemma_next_leaf_valid,
    next_leaf, opt_path, path_take, prev_leaf, Side,
};
use crate::syntax::parse::Document;
use crate::syntax::tree::{lemma_at_drop_last, lemma_at_wf, SyntaxTree};
use crate::text::{
    bytes_of, next_char_end, next_char_end_of, prev_char_start, prev_char_start_of,
    slice_is_byte, spaces_end, spaces_end_of, spaces_start, spaces_start_of, str_eq, text_len,
};
use std::ops::Range;
use vstd::prelude::*;

verus! {

// ---------------------------------------------------------------------------
// Enclosing structure of a leaf
// ---------------------------------------------------------------------------

/// Kinds of nodes that are math structures: fractions, roots, delimited
/// groups, calls and attachments.
pub open spec fn is_structure_kind(k: NodeKind) -> bool {
    k == NodeKind::MathFrac || k == NodeKind::MathRoot || k == NodeKind::MathDelimited || k
        == NodeKind::FuncCall || k == NodeKind::MathAttach
}

/// The nearest proper ancestor of the node at `p` that is a math structure.
pub open spec fn parent_structure(t: SyntaxTree, p: Seq<usize>) -> Option<Seq<usize>>
    decreases p.len(),
{
    if p.len() == 0 {
        None
    } else if is_structure_kind(kind_at(t, p.drop_last())) {
        Some(p.drop_last())
    } else {
        parent_structure(t, p.drop_last())
    }
}

proof fn lemma_parent_structure(t: SyntaxTree, p: Seq<usize>)
    requires
        t.valid_path(p),
    ensures
        parent_structure(t, p) matches Some(q) ==> t.valid_path(q),
    decreases p.len(),
{
    if p.len() > 0 {
        lemma_at_drop_last(t, p);
        lemma_parent_structure(t, p.drop_last());
    }
}

/// The nearest math structure enclosing the node at `leaf`: a fraction,
/// root, delimited group, call or attachment.
pub fn find_parent_math_structure_for_leaf(source: &Document, leaf: &Vec<usize>) -> (r: Option<Vec<usize>>)
    requires
        source@.tree.valid_path(leaf@),
    ensures
        opt_path(r) == parent_structure(source@.tree, leaf@),
        r matches Some(q) ==> source@.tree.valid_path(q@),
{
    let t = source.tree();
    let mut p = path_take(leaf, leaf.len());
    proof {
        assert(p@ =~= leaf@);
    }
    while p.len() > 0
        invariant
            *t == source@.tree,
            t.valid_path(p@),
            parent_structure(*t, p@) == parent_structure(*t, leaf@),
        decreases p@.len(),
    {
        let q = path_take(&p, p.len() - 1);
        proof {
            assert(q@ =~= p@.drop_last());
            lemma_at_drop_last(*t, p@);
        }
        let k = t.node_at(&q).kind;
        if k == NodeKind::MathFrac || k == NodeKind::MathRoot || k == NodeKind::MathDelimited || k
            == NodeKind::FuncCall || k == NodeKind::MathAttach {
            return Some(q);
        }
        p = q;
    }
    None
}

// ---------------------------------------------------------------------------
// Growing a selection to whole units
// ---------------------------------------------------------------------------

/// Whether an attachment operator comes among the first `j` children.
pub open spec fn attach_op_before(n: SyntaxTree, j: int) -> bool
    decreases j,
{
    if j <= 0 || j > n.kids().len() {
        false
    } else {
        n.kids()[j - 1].kind == NodeKind::Underscore || n.kids()[j - 1].kind == NodeKind::Hat
            || attach_op_before(n, j - 1)
    }
}

/// The first child from index `j` on that is neither trivia nor an error.
pub open spec fn next_solid(n: SyntaxTree, j: int) -> Option<int>
    decreases n.kids().len() - j,
{
    if j < 0 || j >= n.kids().len() {
        None
    } else if !n.kids()[j].kind.spec_is_trivia() && n.kids()[j].kind != NodeKind::Error {
        Some(j)
    } else {
        next_solid(n, j + 1)
    }
}

/// Kinds of brackets, braces and parentheses.
pub open spec fn is_bracket(k: NodeKind) -> bool {
    k == NodeKind::LeftParen || k == NodeKind::RightParen || k == NodeKind::LeftBracket || k
        == NodeKind::RightBracket || k == NodeKind::LeftBrace || k == NodeKind::RightBrace
}

/// The unit that a selection touching the leaf at `lp` must cover: the whole
/// attachment for its base identifier, the whole call for its name, an
/// attachment operator with its value, and the whole group, fraction, root or
/// argument list for their delimiters and operators; otherwise the leaf.
pub open spec fn unit_range(t: SyntaxTree, lp: Seq<usize>) -> (int, int) {
    let l = t.at(lp);
    let k = l.kind;
    let own = (l.start as int, l.end());
    if lp.len() == 0 {
        own
    } else {
        let par = t.at(lp.drop_last());
        let idx = lp.last() as int;
        let whole = (par.start as int, par.end());
        if k == NodeKind::MathIdent {
            if par.kind == NodeKind::MathAttach {
                if !attach_op_before(par, idx) { whole } else { own }
            } else if par.kind == NodeKind::FuncCall && par.kids().len() > 0 && node_range(
                par.kids()[0],
            ) == node_range(l) {
                whole
            } else {
                own
            }
        } else if k == NodeKind::Underscore || k == NodeKind::Hat {
            if par.kind == NodeKind::MathAttach {
                match next_solid(par, idx + 1) {
                    Some(v) => (l.start as int, par.kids()[v].end()),
                    None => own,
                }
            } else {
                own
            }
        } else if is_bracket(k) {
            if par.kind == NodeKind::MathDelimited || par.kind == NodeKind::Args { whole } else { own }
        } else if k == NodeKind::Slash {
            if par.kind == NodeKind::MathFrac { whole } else { own }
        } else if k == NodeKind::Root {
            if par.kind == NodeKind::MathRoot { whole } else { own }
        } else if k == NodeKind::Comma || k == NodeKind::Semicolon {
            if par.kind == NodeKind::Args || par.kind == NodeKind::MathRoot { whole } else { own }
        } else {
            own
        }
    }
}

/// Walks the leaves from offset `cur` up to `sel_end`, widening
/// `es..ee` by the unit of each leaf.
pub open spec fn expand_scan(t: SyntaxTree, cur: int, sel_end: int, es: int, ee: int) -> (int, int)
    decreases sel_end - cur,
{
    if cur >= sel_end {
        (es, ee)
    } else {
        match leaf_after(t, cur) {
            None => (es, ee),
            Some(lp) => {
                let u = unit_range(t, lp);
                let es2 = if u.0 < es { u.0 } else { es };
                let ee2 = if u.1 > ee { u.1 } else { ee };
                let next = if t.at(lp).end() > cur + 1 { t.at(lp).end() } else { cur + 1 };
                if next >= sel_end {
                    (es2, ee2)
                } else {
                    expand_scan(t, next, sel_end, es2, ee2)
                }
            },
        }
    }
}

/// The selection `s..e` grown to whole units, if that changes it.
pub open spec fn expanded_selection(t: SyntaxTree, s: int, e: int) -> Option<Range<usize>> {
    let r = expand_scan(t, s, e, s, e);
    if r.0 == s && r.1 == e {
        None
    } else {
        Some(span(r.0, r.1))
    }
}

fn attach_op_before_exec(n: &SyntaxTree, j: usize) -> (r: bool)
    requires
        j <= n.kids().len(),
    ensures
        r == attach_op_before(*n, j as int),
{
    let mut i = j;
    while i > 0
        invariant
            i <= j <= n.kids().len(),
            attach_op_before(*n, j as int) == attach_op_before(*n, i as int),
        decreases i,
    {
        let k = n.children[i - 1].kind;
        if k == NodeKind::Underscore || k == NodeKind::Hat {
            return true;
        }
        i = i - 1;
    }
    false
}

fn next_solid_exec(n: &SyntaxTree, j: usize) -> (r: Option<usize>)
    requires
        n.kids().len() <= usize::MAX,
    ensures
        match next_solid(*n, j as int) {
            Some(v) => r == Some(v as usize) && j <= v < n.kids().len(),
            None => r is None,
        },
{
    let len = n.children.len();
    let mut i = j;
    while i < len
        invariant
            j <= i,
            len == n.kids().len(),
            next_solid(*n, i as int) == next_solid(*n, j as int),
        decreases len - i,
    {
        let k = n.children[i].kind;
        if !k.is_trivia() && k != NodeKind::Error {
            return Some(i);
        }
        i = i + 1;
    }
    None
}

fn unit_range_exec(t: &SyntaxTree, lp: &Vec<usize>) -> (r: (usize, usize))
    requires
        t.wf(),
        t.valid_path(lp@),
    ensures
        r.0 == unit_range(*t, lp@).0,
        r.1 == unit_range(*t, lp@).1,
{
    proof {
        lemma_at_wf(*t, lp@);
    }
    let l = t.node_at(lp);
    let k = l.kind;
    let own = (l.start, l.end_offset());
    if lp.len() == 0 {
        return own;
    }
    let pp = path_take(lp, lp.len() - 1);
    proof {
        assert(pp@ =~= lp@.drop_last());
        lemma_at_drop_last(*t, lp@);
        lemma_at_wf(*t, pp@);
    }
    let par = t.node_at(&pp);
    let idx = lp[lp.len() - 1];
    let whole = (par.start, par.end_offset());
    if k == NodeKind::MathIdent {
        if par.kind == NodeKind::MathAttach {
            if !attach_op_before_exec(par, idx) {
                whole
            } else {
                own
            }
        } else if par.kind == NodeKind::FuncCall && par.children.len() > 0 {
            proof {
                assert(par.kids()[0].wf());
            }
            let first = range_of(&par.children[0]);
            if first.start == l.start && first.end == l.end_offset() {
                whole
            } else {
                own
            }
        } else {
            own
        }
    } else if k == NodeKind::Underscore || k == NodeKind::Hat {
        if par.kind == NodeKind::MathAttach {
            match next_solid_exec(par, idx + 1) {
                Some(v) => {
                    proof {
                        assert(par.kids()[v as int].wf());
                    }
                    (l.start, par.children[v].end_offset())
                },
                None => own,
            }
        } else {
            own
        }
    } else if k == NodeKind::LeftParen || k == NodeKind::RightParen || k == NodeKind::LeftBracket
        || k == NodeKind::RightBracket || k == NodeKind::LeftBrace || k == NodeKind::RightBrace {
        if par.kind == NodeKind::MathDelimited || par.kind == NodeKind::Args {
            whole
        } else {
            own
        }
    } else if k == NodeKind::Slash {
        if par.kind == NodeKind::MathFrac {
            whole
        } else {
            own
        }
    } else if k == NodeKind::Root {
        if par.kind == NodeKind::MathRoot {
            whole
        } else {
            own
        }
    } else if k == NodeKind::Comma || k == NodeKind::Semicolon {
        if par.kind == NodeKind::Args || par.kind == NodeKind::MathRoot {
            whole
        } else {
            own
        }
    } else {
        own
    }
}

/// Grows the selection `sel_start..sel_end` so that it covers whole math
/// units (see [`unit_range`]); `None` when it already does.
pub fn expand_incomplete_selection(source: &Document, sel_start: usize, sel_end: usize) -> (r: Option<Range<usize>>)
    ensures
        r == expanded_selection(source@.tree, sel_start as int, sel_end as int),
{
    source.check_wf();
    let t = source.tree();
    let mut cur = sel_start;
    let mut es = sel_start;
    let mut ee = sel_end;
    while cur < sel_end
        invariant
            t.wf(),
            *t == source@.tree,
            expand_scan(*t, cur as int, sel_end as int, es as int, ee as int) == expand_scan(
                *t,
                sel_start as int,
                sel_end as int,
                sel_start as int,
                sel_end as int,
            ),
        ensures
            (es as int, ee as int) == expand_scan(
                *t,
                sel_start as int,
                sel_end as int,
                sel_start as int,
                sel_end as int,
            ),
        decreases sel_end - cur,
    {
        proof {
            lemma_leaf_at_valid(*t, cur as int, Side::After);
        }
        match t.leaf_after(cur) {
            Some(lp) => {
                proof {
                    lemma_at_wf(*t, lp@);
                }
                let u = unit_range_exec(t, &lp);
                if u.0 < es {
                    es = u.0;
                }
                if u.1 > ee {
                    ee = u.1;
                }
                let le = t.node_at(&lp).end_offset();
                let next = if le > cur + 1 { le } else { cur + 1 };
                cur = if next >= sel_end { sel_end } else { next };
            },
            None => {
                break;
            },
        }
    }
    if es == sel_start && ee == sel_end {
        None
    } else {
        Some(Range { start: es, end: ee })
    }
}

// ---------------------------------------------------------------------------
// Deletion rules
// ---------------------------------------------------------------------------

/// A selection that is not empty, with its ends in order.
pub open spec fn normalized_selection(sel: Option<Range<usize>>) -> Option<Range<usize>> {
    match sel {
        Some(r) => if r.start != r.end {
            if r.start < r.end {
                Some(r)
            } else {
                Some(span(r.end as int, r.start as int))
            }
        } else {
            None
        },
        None => None,
    }
}

/// The whole-structure part of a structure query.
pub open spec fn full_of(x: Option<(Range<usize>, Range<usize>)>) -> Option<Range<usize>> {
    match x {
        Some(p) => Some(p.0),
        None => None,
    }
}

/// The field part of a structure query.
pub open spec fn field_of(x: Option<(Range<usize>, Range<usize>)>) -> Option<Range<usize>> {
    match x {
        Some(p) => Some(p.1),
        None => None,
    }
}

/// Whether the nearest structure enclosing the leaf after `s` spans exactly `sel`.
pub open spec fn enclosing_structure_is(t: SyntaxTree, s: int, sel: Range<usize>) -> bool {
    match leaf_after(t, s) {
        Some(lp) => match parent_structure(t, lp) {
            Some(pp) => node_range(t.at(pp)) == sel,
            None => false,
        },
        None => false,
    }
}

/// Deleting with a selection `sel` (non-empty, in order): an incomplete
/// selection is first grown to whole units; a selection that is exactly a
/// structure is removed; a selected placeholder removes its structure; a
/// selected field is emptied to `?`; anything else is left to plain deletion.
pub open spec fn selection_deletion(t: SyntaxTree, b: Seq<u8>, sel: Range<usize>) -> Option<ActionView> {
    let s = sel.start as int;
    let e = sel.end as int;
    let found = math_structure_ranges(t, b, s + 1);
    if expanded_selection(t, s, e) is Some {
        Some(select_view(expanded_selection(t, s, e).unwrap(), true))
    } else if full_of(found) == Some(sel) || enclosing_structure_is(t, s, sel) {
        Some(edit_view(sel, Seq::empty(), s))
    } else if spec_is_placeholder(b, sel) && field_of(found) == Some(sel) {
        Some(edit_view(found.unwrap().0, Seq::empty(), found.unwrap().0.start as int))
    } else if field_of(found) == Some(sel) && !spec_is_placeholder(b, sel) {
        Some(edit_view(sel, seq!['?'], s))
    } else {
        None
    }
}

/// The leaf a caret deletion acts on: the leaf at `active` on the deleting
/// side, moved past a space to the neighbouring leaf when there is one.
pub open spec fn deletion_leaf(t: SyntaxTree, active: int, bs: bool) -> Option<Seq<usize>> {
    let l0 = if bs { leaf_before(t, active) } else { leaf_after(t, active) };
    match l0 {
        Some(p) => if kind_at(t, p) == NodeKind::Space {
            let nb = if bs { prev_leaf(t, p) } else { next_leaf(t, p) };
            match nb {
                Some(q) => Some(q),
                None => Some(p),
            }
        } else {
            Some(p)
        },
        None => None,
    }
}

/// The rules for a caret deletion of `target` (the character next to
/// `active` on the deleting side), acting on the node at `leaf`.
pub open spec fn caret_rules(
    t: SyntaxTree,
    b: Seq<u8>,
    active: int,
    bs: bool,
    target: Range<usize>,
    leaf: Seq<usize>,
) -> Option<ActionView> {
    let lk = kind_at(t, leaf);
    let at_target = math_structure_ranges(t, b, target.end as int);
    let prev_range = span(prev_char_start(b, active), active);
    let at_active = math_structure_ranges(t, b, active);
    let at_op = math_structure_ranges(t, b, if bs { active } else { active + 1 });
    let par = parent_structure(t, leaf);
    if spec_is_placeholder(b, target) && field_of(at_target) == Some(target) {
        // A placeholder selects its whole structure.
        Some(select_view(at_target.unwrap().0, true))
    } else if spec_is_placeholder(b, target) && par is Some {
        Some(select_view(node_range(t.at(par.unwrap())), true))
    } else if !bs && active > 0 && spec_is_placeholder(b, prev_range) && field_of(at_active) == Some(
        prev_range,
    ) {
        // Deleting forward just after a placeholder also selects its structure.
        Some(select_view(at_active.unwrap().0, true))
    } else if spec_is_structural_kind(lk) && at_op is Some {
        // A delimiter or operator selects its structure.
        Some(select_view(at_op.unwrap().0, true))
    } else if spec_is_structural_kind(lk) && par is Some {
        let pn = t.at(par.unwrap());
        if lk == NodeKind::LeftParen {
            let is = pn.start + 1;
            let ie = if pn.end() > is && text_is(b, pn.end() - 1, pn.end(), 41u8) {
                pn.end() - 1
            } else {
                pn.end()
            };
            Some(select_view(span(is, ie), true))
        } else {
            Some(select_view(node_range(pn), true))
        }
    } else if at_target is Some && (at_target.unwrap().1 == target || (bs && active
        == at_target.unwrap().1.start)) && !spec_is_placeholder(b, at_target.unwrap().1) {
        // Emptying a field at its edge restores the placeholder.
        let inner = at_target.unwrap().1;
        Some(edit_view(inner, seq!['?'], inner.start as int))
    } else if at_target is Some && at_target.unwrap().1.start <= target.start
        < at_target.unwrap().1.end && !spec_is_placeholder(b, target) {
        // Inside a richer field, plain deletion applies.
        None
    } else if lk == NodeKind::MathIdent {
        Some(select_view(node_range(t.at(leaf)), true))
    } else if par is Some && ((bs && t.at(par.unwrap()).end() == active) || (!bs && t.at(
        par.unwrap(),
    ).start == active)) {
        Some(select_view(node_range(t.at(par.unwrap())), true))
    } else {
        None
    }
}

/// Deleting at the caret `cursor` (backspace when `bs`): a run of several
/// spaces collapses to one; otherwise the math rules act on the character
/// beside the space run, if any.
pub open spec fn caret_deletion(t: SyntaxTree, b: Seq<u8>, cursor: int, bs: bool) -> Option<ActionView> {
    let pos = if cursor < b.len() { cursor } else { b.len() as int };
    let ss = spaces_start(b, pos);
    let se = spaces_end(b, pos);
    if se - ss > 1 {
        Some(edit_view(span(ss, se), seq![' '], ss + 1))
    } else {
        let active = if bs { ss } else { se };
        if (bs && active == 0) || (!bs && active >= b.len()) {
            None
        } else {
            let target = if bs {
                span(prev_char_start(b, active), active)
            } else {
                span(active, next_char_end(b, active))
            };
            match deletion_leaf(t, active, bs) {
                Some(leaf) => caret_rules(t, b, active, bs, target, leaf),
                None => None,
            }
        }
    }
}

/// The math deletion rules: with a non-empty selection the selection rules,
/// otherwise the caret rules.
pub open spec fn math_deletion(
    t: SyntaxTree,
    b: Seq<u8>,
    cursor: int,
    selection: Option<Range<usize>>,
    bs: bool,
) -> Option<ActionView> {
    match normalized_selection(selection) {
        Some(sel) => selection_deletion(t, b, sel),
        None => caret_deletion(t, b, cursor, bs),
    }
}

fn same_range(a: &Range<usize>, b: &Range<usize>) -> (r: bool)
    ensures
        r == (*a == *b),
{
    a.start == b.start && a.end == b.end
}

fn field_is(x: &Option<(Range<usize>, Range<usize>)>, r: &Range<usize>) -> (res: bool)
    ensures
        res == (field_of(*x) == Some(*r)),
{
    match x {
        Some(p) => same_range(&p.1, r),
        None => false,
    }
}

fn full_is(x: &Option<(Range<usize>, Range<usize>)>, r: &Range<usize>) -> (res: bool)
    ensures
        res == (full_of(*x) == Some(*r)),
{
    match x {
        Some(p) => same_range(&p.0, r),
        None => false,
    }
}

fn selection_deletion_exec(source: &Document, sel: Range<usize>) -> (r: Option<EditorAction>)
    requires
        sel.start < sel.end,
    ensures
        opt_action(r) == selection_deletion(source@.tree, source@.bytes, sel),
{
    source.check_wf();
    let text = source.text();
    let t = source.tree();
    let s = sel.start;
    match expand_incomplete_selection(source, s, sel.end) {
        Some(ex) => {
            return Some(select(ex, true));
        },
        None => {},
    }
    let found = find_math_structure_ranges(source, s + 1);
    let mut enclosing = false;
    proof {
        lemma_leaf_at_valid(*t, s as int, Side::After);
    }
    match t.leaf_after(s) {
        Some(lp) => {
            match find_parent_math_structure_for_leaf(source, &lp) {
                Some(pp) => {
                    proof {
                        lemma_at_wf(*t, pp@);
                    }
                    enclosing = same_range(&range_of(t.node_at(&pp)), &sel);
                },
                None => {},
            }
        },
        None => {},
    }
    if full_is(&found, &sel) || enclosing {
        return Some(edit(sel, no_text(), s));
    }
    let ph = is_placeholder(text, Range { start: sel.start, end: sel.end });
    if ph && field_is(&found, &sel) {
        match found {
            Some(p) => {
                let st = p.0.start;
                return Some(edit(p.0, no_text(), st));
            },
            None => {},
        }
    }
    if field_is(&found, &sel) && !ph {
        return Some(edit(sel, qmark_text(), s));
    }
    None
}

/// The neighbouring leaf on the deleting side, or the node itself when there
/// is none.
pub open spec fn neighbour_or_self(t: SyntaxTree, p: Seq<usize>, bs: bool) -> Seq<usize> {
    match (if bs { prev_leaf(t, p) } else { next_leaf(t, p) }) {
        Some(q) => q,
        None => p,
    }
}

fn deletion_leaf_exec(t: &SyntaxTree, active: usize, bs: bool) -> (r: Option<Vec<usize>>)
    requires
        t.wf(),
    ensures
        opt_path(r) == deletion_leaf(*t, active as int, bs),
        r matches Some(p) ==> t.valid_path(p@),
{
    proof {
        lemma_leaf_at_valid(*t, active as int, Side::Before);
        lemma_leaf_at_valid(*t, active as int, Side::After);
    }
    let l0 = if bs { t.leaf_before(active) } else { t.leaf_after(active) };
    let mut leaf = match l0 {
        Some(p) => p,
        None => {
            return None;
        },
    };
    let ghost first = leaf@;
    while t.node_at(&leaf).kind == NodeKind::Space
        invariant
            t.wf(),
            t.valid_path(leaf@),
            t.valid_path(first),
            kind_at(*t, first) == NodeKind::Space ==> deletion_leaf(*t, active as int, bs) == Some(
                neighbour_or_self(*t, first, bs),
            ),
            kind_at(*t, first) != NodeKind::Space ==> deletion_leaf(*t, active as int, bs) == Some(
                first,
            ),
            leaf@ == first || (leaf@ == neighbour_or_self(*t, first, bs) && kind_at(*t, first)
                == NodeKind::Space && !kind_at(*t, leaf@).spec_is_trivia()),
        ensures
            t.valid_path(leaf@),
            deletion_leaf(*t, active as int, bs) == Some(leaf@),
        decreases (if kind_at(*t, leaf@) == NodeKind::Space { 1int } else { 0int }),
    {
        proof {
            lemma_neighbour_leaves(*t, leaf@);
            lemma_next_leaf_valid(*t, leaf@);
        }
        let nb = if bs { t.prev_leaf(&leaf) } else { t.next_leaf(&leaf) };
        match nb {
            Some(q) => {
                leaf = q;
            },
            None => {
                break;
            },
        }
    }
    Some(leaf)
}

fn caret_rules_exec(
    source: &Document,
    active: usize,
    bs: bool,
    target: Range<usize>,
    leaf: &Vec<usize>,
) -> (r: Option<EditorAction>)
    requires
        source@.tree.valid_path(leaf@),
        source@.bytes.len() < usize::MAX,
        target.end <= source@.bytes.len(),
        active <= source@.bytes.len(),
        !bs ==> active < source@.bytes.len(),
    ensures
        opt_action(r) == caret_rules(source@.tree, source@.bytes, active as int, bs, target, leaf@),
{
    source.check_wf();
    let text = source.text();
    let t = source.tree();
    let lk = t.node_at(leaf).kind;
    let at_target = find_math_structure_ranges(source, target.end);
    let par = find_parent_math_structure_for_leaf(source, leaf);
    let target_ph = is_placeholder(text, Range { start: target.start, end: target.end });
    // A placeholder selects its whole structure.
    if target_ph && field_is(&at_target, &target) {
        match at_target {
            Some(p) => {
                return Some(select(p.0, true));
            },
            None => {},
        }
    }
    if target_ph {
        match &par {
            Some(pp) => {
                proof {
                    lemma_at_wf(*t, pp@);
                }
                return Some(select(range_of(t.node_at(pp)), true));
            },
            None => {},
        }
    }
    // Deleting forward just after a placeholder also selects its structure.
    if !bs && active > 0 {
        let prev_range = Range { start: prev_char_start_of(text, active), end: active };
        if is_placeholder(text, Range { start: prev_range.start, end: prev_range.end }) {
            let at_active = find_math_structure_ranges(source, active);
            if field_is(&at_active, &prev_range) {
                match at_active {
                    Some(p) => {
                        return Some(select(p.0, true));
                    },
                    None => {},
                }
            }
        }
    }
    // A delimiter or operator selects its structure.
    if is_structural_kind(lk) {
        let at_op = find_math_structure_ranges(
            source,
            if bs {
                active
            } else {
                active + 1
            },
        );
        match at_op {
            Some(p) => {
                return Some(select(p.0, true));
            },
            None => {},
        }
        match &par {
            Some(pp) => {
                proof {
                    lemma_at_wf(*t, pp@);
                }
                let pn = t.node_at(pp);
                if lk == NodeKind::LeftParen {
                    let is = pn.start + 1;
                    let pe = pn.end_offset();
                    let ie = if pe > is && slice_is_byte(text, pe - 1, pe, 41u8) {
                        pe - 1
                    } else {
                        pe
                    };
                    return Some(select(Range { start: is, end: ie }, true));
                }
                return Some(select(range_of(pn), true));
            },
            None => {},
        }
    }
    // Emptying a field at its edge restores the placeholder; inside a richer
    // field, plain deletion applies.
    match &at_target {
        Some(p) => {
            let inner = Range { start: p.1.start, end: p.1.end };
            let at_end = same_range(&inner, &target);
            let at_start = bs && active == inner.start;
            if (at_end || at_start) && !is_placeholder(text, Range { start: inner.start, end: inner.end }) {
                let st = inner.start;
                return Some(edit(inner, qmark_text(), st));
            }
            if inner.start <= target.start && target.start < inner.end && !target_ph {
                return None;
            }
        },
        None => {},
    }
    if lk == NodeKind::MathIdent {
        proof {
            lemma_at_wf(*t, leaf@);
        }
        return Some(select(range_of(t.node_at(leaf)), true));
    }
    match &par {
        Some(pp) => {
            proof {
                lemma_at_wf(*t, pp@);
            }
            let pn = t.node_at(pp);
            if (bs && pn.end_offset() == active) || (!bs && pn.start == active) {
                return Some(select(range_of(pn), true));
            }
        },
        None => {},
    }
    None
}

fn caret_deletion_exec(source: &Document, cursor: usize, bs: bool) -> (r: Option<EditorAction>)
    requires
        source@.bytes.len() < usize::MAX,
    ensures
        opt_action(r) == caret_deletion(source@.tree, source@.bytes, cursor as int, bs),
{
    source.check_wf();
    let text = source.text();
    let t = source.tree();
    let len = text_len(text);
    let pos = if cursor < len { cursor } else { len };
    let ss = spaces_start_of(text, pos);
    let se = spaces_end_of(text, pos);
    if se - ss > 1 {
        return Some(edit(Range { start: ss, end: se }, space_text(), ss + 1));
    }
    let active = if bs { ss } else { se };
    if (bs && active == 0) || (!bs && active >= len) {
        return None;
    }
    let target = if bs {
        Range { start: prev_char_start_of(text, active), end: active }
    } else {
        Range { start: active, end: next_char_end_of(text, active) }
    };
    match deletion_leaf_exec(t, active, bs) {
        Some(leaf) => caret_rules_exec(source, active, bs, target, &leaf),
        None => None,
    }
}

/// Whether the caret state's selection would be empty once normalized.
pub open spec fn caret_only(state: EditorState) -> bool {
    normalized_selection(state.selection) is None
}

/// The math deletion rules for `key` (`"backspace"` deletes backwards, any
/// other key forwards) in the given editor state; `None` when plain deletion
/// should apply.
pub fn handle_math_deletion(source: &Document, state: &EditorState<'_>, key: &str) -> (r: Option<EditorAction>)
    requires
        source@.bytes.len() < usize::MAX,
        caret_only(*state) ==> (state.cursor >= source@.bytes.len()
            || vstd::utf8::is_char_boundary(source@.bytes, state.cursor as int)),
    ensures
        opt_action(r) == math_deletion(
            source@.tree,
            source@.bytes,
            state.cursor as int,
            state.selection,
            key@ == "backspace"@,
        ),
{
    let bs = str_eq(key, "backspace");
    match &state.selection {
        Some(r) => {
            if r.start != r.end {
                let sel = if r.start < r.end {
                    Range { start: r.start, end: r.end }
                } else {
                    Range { start: r.end, end: r.start }
                };
                return selection_deletion_exec(source, sel);
            }
        },
        None => {},
    }
    caret_deletion_exec(source, state.cursor, bs)
}

/// The math deletion rules applied to the selection `sel_start..sel_end`.
pub fn handle_math_selection_deletion(
    source: &Document,
    text: &str,
    sel_start: usize,
    sel_end: usize,
    _is_backspace: bool,
) -> (r: Option<EditorAction>)
    requires
        source@.bytes.len() < usize::MAX,
        sel_start == sel_end ==> (sel_start >= source@.bytes.len()
            || vstd::utf8::is_char_boundary(source@.bytes, sel_start as int)),
    ensures
        opt_action(r) == math_deletion(
            source@.tree,
            source@.bytes,
            sel_start as int,
            Some(span(sel_start as int, sel_end as int)),
            true,
        ),
{
    let state = EditorState {
        text,
        cursor: sel_start,
        selection: Some(Range { start: sel_start, end: sel_end }),
        context: EditorContext::Math,
    };
    proof {
        reveal_strlit("backspace");
    }
    handle_math_deletion(source, &state, "backspace")
}

// ---------------------------------------------------------------------------
// Laws
// ---------------------------------------------------------------------------

/// Backspace (or delete) in math, at a caret with no space beside it, whose
/// character to delete belongs to a math identifier (such as `alpha`)
/// outside any math structure, selects that whole identifier, reversed,
/// instead of deleting one character: an identifier goes as one unit.
pub proof fn law_math_deletion_selects_identifier(
    t: SyntaxTree,
    b: Seq<u8>,
    cursor: int,
    bs: bool,
    p: Seq<usize>,
)
    requires
        vstd::utf8::valid_utf8(b),
        b.len() <= usize::MAX,
        0 <= cursor <= b.len(),
        bs ==> cursor > 0,
        !bs ==> cursor < b.len(),
        cursor > 0 ==> b[cursor - 1] != 32u8,
        cursor < b.len() ==> b[cursor] != 32u8,
        (if bs { leaf_before(t, cursor) } else { leaf_after(t, cursor) }) == Some(p),
        kind_at(t, p) == NodeKind::MathIdent,
        bs ==> b[cursor - 1] != 63u8 && b[cursor - 1] != 41u8,
        !bs ==> b[cursor] != 63u8 && b[cursor] != 40u8,
        math_structure_ranges(t, b, cursor) is None,
        !bs ==> math_structure_ranges(t, b, next_char_end(b, cursor)) is None,
    ensures
        math_deletion(t, b, cursor, None, bs) == Some(select_view(node_range(t.at(p)), true)),
{
    assert(spaces_start(b, cursor) == cursor);
    assert(spaces_end(b, cursor) == cursor);
    let target = if bs {
        span(prev_char_start(b, cursor), cursor)
    } else {
        span(cursor, next_char_end(b, cursor))
    };
    if bs {
        crate::text::lemma_floor_boundary(b, cursor - 1);
        let f = prev_char_start(b, cursor);
        let sub = b.subrange(f, cursor);
        assert(sub[sub.len() - 1] == b[cursor - 1]);
        assert(sub != seq![63u8]);
        assert(sub != seq![40u8, 63u8, 41u8]);
    } else {
        crate::text::lemma_ceil_boundary(b, cursor + 1);
        let e = next_char_end(b, cursor);
        let sub = b.subrange(cursor, e);
        assert(sub[0] == b[cursor]);
        assert(sub != seq![63u8]);
        assert(sub != seq![40u8, 63u8, 41u8]);
    }
    assert(!spec_is_placeholder(b, target));
    assert(deletion_leaf(t, cursor, bs) == Some(p));
    assert(caret_rules(t, b, cursor, bs, target, p) == Some(select_view(node_range(t.at(p)), true)));
}

/// Backspace in math right after a `?` placeholder that fills a whole field
/// of a math structure (such as a fraction) selects that whole structure,
/// reversed, so that a further key removes it at once.
pub proof fn law_backspace_on_placeholder_selects_structure(
    t: SyntaxTree,
    b: Seq<u8>,
    cursor: int,
    p: Seq<usize>,
    full: Range<usize>,
)
    requires
        vstd::utf8::valid_utf8(b),
        b.len() <= usize::MAX,
        0 < cursor <= b.len(),
        b[cursor - 1] == 63u8,
        cursor < b.len() ==> b[cursor] != 32u8,
        leaf_before(t, cursor) == Some(p),
        kind_at(t, p) != NodeKind::Space,
        math_structure_ranges(t, b, cursor) == Some((full, span(cursor - 1, cursor))),
    ensures
        math_deletion(t, b, cursor, None, true) == Some(select_view(full, true)),
{
    crate::text::lemma_ascii_boundaries(b, cursor - 1);
    assert(spaces_start(b, cursor) == cursor);
    assert(spaces_end(b, cursor) == cursor);
    assert(prev_char_start(b, cursor) == cursor - 1);
    let target = span(cursor - 1, cursor);
    assert(b.subrange(cursor - 1, cursor) =~= seq![63u8]);
    assert(spec_is_placeholder(b, target));
    assert(deletion_leaf(t, cursor, true) == Some(p));
}

/// Backspace in math that would empty a field of a math structure (the
/// field is just the one ASCII character before the caret, not a `?`, and no
/// delimiter or operator) puts a `?` placeholder in its place, with the caret
/// before it: a structure never keeps an empty field.
pub proof fn law_backspace_emptying_field_restores_placeholder(
    t: SyntaxTree,
    b: Seq<u8>,
    cursor: int,
    p: Seq<usize>,
    full: Range<usize>,
)
    requires
        vstd::utf8::valid_utf8(b),
        b.len() <= usize::MAX,
        0 < cursor <= b.len(),
        b[cursor - 1] < 128,
        b[cursor - 1] != 63u8 && b[cursor - 1] != 41u8 && b[cursor - 1] != 32u8,
        cursor < b.len() ==> b[cursor] != 32u8,
        leaf_before(t, cursor) == Some(p),
        kind_at(t, p) != NodeKind::Space,
        !crate::math::common::spec_is_structural_kind(kind_at(t, p)),
        math_structure_ranges(t, b, cursor) == Some((full, span(cursor - 1, cursor))),
    ensures
        math_deletion(t, b, cursor, None, true) == Some(
            edit_view(span(cursor - 1, cursor), seq!['?'], cursor - 1),
        ),
{
    crate::text::lemma_ascii_boundaries(b, cursor - 1);
    assert(spaces_start(b, cursor) == cursor);
    assert(spaces_end(b, cursor) == cursor);
    assert(prev_char_start(b, cursor) == cursor - 1);
    let target = span(cursor - 1, cursor);
    let sub = b.subrange(cursor - 1, cursor);
    assert(sub[0] == b[cursor - 1]);
    assert(sub != seq![63u8]);
    assert(sub.len() != 3);
    assert(!spec_is_placeholder(b, target));
    assert(deletion_leaf(t, cursor, true) == Some(p));
}

} // verus!
