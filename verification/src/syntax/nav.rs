//! Navigation over the syntax tree. A node is named by its path of child
//! indices from the root. Sibling and leaf navigation skip trivia (spaces and
//! comments), as Typst's linked nodes do.

use super::kind::NodeKind;
use super::tree::{lemma_at_drop_last, lemma_at_push, lemma_at_wf, lemma_sibling_order, SyntaxTree};
use vstd::prelude::*;

verus! {

/// The mathematical value of an optional path.
pub open spec fn opt_path(r: Option<Vec<usize>>) -> Option<Seq<usize>> {
    match r {
        Some(v) => Some(v@),
        None => None,
    }
}

/// The first `n` indices of a path.
pub fn path_take(path: &Vec<usize>, n: usize) -> (r: Vec<usize>)
    requires
        n <= path@.len(),
    ensures
        r@ == path@.take(n as int),
{
    let mut v: Vec<usize> = Vec::new();
    let mut i: usize = 0;
    while i < n
        invariant
            i <= n <= path@.len(),
            v@ == path@.take(i as int),
        decreases n - i,
    {
        v.push(path[i]);
        proof {
            assert(path@.take(i + 1) =~= path@.take(i as int).push(path@[i as int]));
        }
        i = i + 1;
    }
    v
}

/// A path followed by another.
pub fn path_concat(mut a: Vec<usize>, mut b: Vec<usize>) -> (r: Vec<usize>)
    ensures
        r@ == a@ + b@,
{
    a.append(&mut b);
    a
}

// ---------------------------------------------------------------------------
// Leaf at an offset
// ---------------------------------------------------------------------------

/// The first child at index `i` or later whose range holds `cursor` on its
/// left side: `start < cursor <= end`, or the last child starting at `cursor`.
pub open spec fn child_before(n: SyntaxTree, cursor: int, i: int) -> Option<int>
    decreases n.kids().len() - i,
{
    if i < 0 || i >= n.kids().len() {
        None
    } else if (n.kids()[i].start < cursor <= n.kids()[i].end()) || (n.kids()[i].start == cursor
        && i + 1 == n.kids().len()) {
        Some(i)
    } else {
        child_before(n, cursor, i + 1)
    }
}

/// The first child at index `i` or later whose range holds `cursor` on its
/// right side: `start <= cursor < end`.
pub open spec fn child_after(n: SyntaxTree, cursor: int, i: int) -> Option<int>
    decreases n.kids().len() - i,
{
    if i < 0 || i >= n.kids().len() {
        None
    } else if n.kids()[i].start <= cursor < n.kids()[i].end() {
        Some(i)
    } else {
        child_after(n, cursor, i + 1)
    }
}

/// The path (from `n`) of the leaf just before byte offset `cursor`: a
/// childless node is it when `cursor` is at most its end; otherwise descend
/// into the child found by [`child_before`].
pub open spec fn leaf_before(n: SyntaxTree, cursor: int) -> Option<Seq<usize>>
    decreases n,
{
    if n.children@.len() == 0 {
        if cursor <= n.end() { Some(Seq::empty()) } else { None }
    } else {
        match child_before(n, cursor, 0) {
            Some(i) => if 0 <= i < n.children@.len() {
                match leaf_before(n.children@[i], cursor) {
                    Some(p) => Some(seq![i as usize] + p),
                    None => None,
                }
            } else {
                None
            },
            None => None,
        }
    }
}

/// The path (from `n`) of the leaf just after byte offset `cursor`: a
/// childless node is it when `cursor` is before its end; otherwise descend
/// into the child found by [`child_after`].
pub open spec fn leaf_after(n: SyntaxTree, cursor: int) -> Option<Seq<usize>>
    decreases n,
{
    if n.children@.len() == 0 && cursor < n.end() {
        Some(Seq::empty())
    } else {
        match child_after(n, cursor, 0) {
            Some(i) => if 0 <= i < n.children@.len() {
                match leaf_after(n.children@[i], cursor) {
                    Some(p) => Some(seq![i as usize] + p),
                    None => None,
                }
            } else {
                None
            },
            None => None,
        }
    }
}

/// Which side of an offset to look at.
#[derive(Debug, Clone, Copy, PartialEq, Eq, Structural)]
pub enum Side {
    Before,
    After,
}

/// The leaf at `cursor` on the given side.
pub open spec fn leaf_at(n: SyntaxTree, cursor: int, side: Side) -> Option<Seq<usize>> {
    match side {
        Side::Before => leaf_before(n, cursor),
        Side::After => leaf_after(n, cursor),
    }
}

proof fn lemma_child_before(n: SyntaxTree, cursor: int, i: int)
    ensures
        child_before(n, cursor, i) matches Some(k) ==> i <= k < n.kids().len(),
    decreases n.kids().len() - i,
{
    if 0 <= i < n.kids().len() {
        lemma_child_before(n, cursor, i + 1);
    }
}

proof fn lemma_child_after(n: SyntaxTree, cursor: int, i: int)
    ensures
        child_after(n, cursor, i) matches Some(k) ==> i <= k < n.kids().len(),
    decreases n.kids().len() - i,
{
    if 0 <= i < n.kids().len() {
        lemma_child_after(n, cursor, i + 1);
    }
}

/// A path that a leaf search returns names a node.
pub proof fn lemma_leaf_at_valid(n: SyntaxTree, cursor: int, side: Side)
    requires
        n.wf(),
    ensures
        leaf_at(n, cursor, side) matches Some(p) ==> n.valid_path(p),
    decreases n,
{
    match side {
        Side::Before => {
            lemma_child_before(n, cursor, 0);
            if n.children@.len() != 0 {
                if let Some(i) = child_before(n, cursor, 0) {
                    lemma_leaf_at_valid(n.children@[i], cursor, side);
                    if let Some(p) = leaf_before(n.children@[i], cursor) {
                        lemma_path_cons(n, i as usize, p);
                    }
                }
            }
        },
        Side::After => {
            lemma_child_after(n, cursor, 0);
            if !(n.children@.len() == 0 && cursor < n.end()) {
                if let Some(i) = child_after(n, cursor, 0) {
                    lemma_leaf_at_valid(n.children@[i], cursor, side);
                    if let Some(p) = leaf_after(n.children@[i], cursor) {
                        lemma_path_cons(n, i as usize, p);
                    }
                }
            }
        },
    }
}

/// A path that starts with child `i` names, in `n`, the node that its rest
/// names in child `i`.
pub proof fn lemma_path_cons(n: SyntaxTree, i: usize, p: Seq<usize>)
    requires
        i < n.kids().len(),
    ensures
        n.valid_path(seq![i] + p) == n.kids()[i as int].valid_path(p),
        n.at(seq![i] + p) == n.kids()[i as int].at(p),
{
    let q = seq![i] + p;
    assert(q.len() == p.len() + 1);
    assert(q[0] == i);
    assert forall|k: int| 0 <= k < p.len() implies q.drop_first()[k] == p[k] by {
        assert(q[k + 1] == p[k]);
    }
    assert(q.drop_first() =~= p);
}

/// Prepends `i` to a path.
fn cons_path(i: usize, mut p: Vec<usize>) -> (r: Vec<usize>)
    ensures
        r@ == seq![i] + p@,
{
    let ghost p0 = p@;
    let mut v: Vec<usize> = Vec::new();
    v.push(i);
    v.append(&mut p);
    proof {
        assert(v@ =~= seq![i] + p0);
    }
    v
}

impl SyntaxTree {
    /// The leaf just before byte offset `cursor` (Typst's `leaf_at` with
    /// `Side::Before`).
    pub fn leaf_before(&self, cursor: usize) -> (r: Option<Vec<usize>>)
        requires
            self.wf(),
        ensures
            r matches Some(p) ==> leaf_before(*self, cursor as int) == Some(p@),
            r is None ==> leaf_before(*self, cursor as int) is None,
        decreases self,
    {
        if self.children.len() == 0 {
            return if cursor <= self.end_offset() { Some(Vec::new()) } else { None };
        }
        let n = self.children.len();
        let mut i: usize = 0;
        while i < n
            invariant
                i <= n == self.kids().len(),
                self.wf(),
                child_before(*self, cursor as int, i as int) == child_before(*self, cursor as int, 0),
            decreases n - i,
        {
            let c = &self.children[i];
            proof {
                assert(c.wf());
            }
            if (c.start < cursor && cursor <= c.end_offset()) || (c.start == cursor && i + 1 == n) {
                return match c.leaf_before(cursor) {
                    Some(p) => Some(cons_path(i, p)),
                    None => None,
                };
            }
            i = i + 1;
        }
        None
    }

    /// The leaf just after byte offset `cursor` (Typst's `leaf_at` with
    /// `Side::After`).
    pub fn leaf_after(&self, cursor: usize) -> (r: Option<Vec<usize>>)
        requires
            self.wf(),
        ensures
            r matches Some(p) ==> leaf_after(*self, cursor as int) == Some(p@),
            r is None ==> leaf_after(*self, cursor as int) is None,
        decreases self,
    {
        if self.children.len() == 0 && cursor < self.end_offset() {
            return Some(Vec::new());
        }
        let n = self.children.len();
        let mut i: usize = 0;
        while i < n
            invariant
                i <= n == self.kids().len(),
                self.wf(),
                !(n == 0 && cursor < self.end()),
                child_after(*self, cursor as int, i as int) == child_after(*self, cursor as int, 0),
            decreases n - i,
        {
            let c = &self.children[i];
            proof {
                assert(c.wf());
            }
            if c.start <= cursor && cursor < c.end_offset() {
                return match c.leaf_after(cursor) {
                    Some(p) => Some(cons_path(i, p)),
                    None => None,
                };
            }
            i = i + 1;
        }
        None
    }

    /// The leaf at `cursor` on the given side.
    pub fn leaf_at(&self, cursor: usize, side: Side) -> (r: Option<Vec<usize>>)
        requires
            self.wf(),
        ensures
            r matches Some(p) ==> leaf_at(*self, cursor as int, side) == Some(p@),
            r is None ==> leaf_at(*self, cursor as int, side) is None,
    {
        match side {
            Side::Before => self.leaf_before(cursor),
            Side::After => self.leaf_after(cursor),
        }
    }
}

// ---------------------------------------------------------------------------
// Siblings
// ---------------------------------------------------------------------------

/// The greatest index at most `j` of a child that is not trivia.
pub open spec fn prev_nontrivia(n: SyntaxTree, j: int) -> Option<int>
    decreases j + 1,
{
    if j < 0 || j >= n.kids().len() {
        None
    } else if !n.kids()[j].kind.spec_is_trivia() {
        Some(j)
    } else {
        prev_nontrivia(n, j - 1)
    }
}

/// The least index at least `j` of a child that is not trivia.
pub open spec fn next_nontrivia(n: SyntaxTree, j: int) -> Option<int>
    decreases n.kids().len() - j,
{
    if j < 0 || j >= n.kids().len() {
        None
    } else if !n.kids()[j].kind.spec_is_trivia() {
        Some(j)
    } else {
        next_nontrivia(n, j + 1)
    }
}

/// The previous sibling of the node at `p` that is not trivia.
pub open spec fn prev_sibling(t: SyntaxTree, p: Seq<usize>) -> Option<Seq<usize>> {
    if p.len() == 0 {
        None
    } else {
        match prev_nontrivia(t.at(p.drop_last()), p.last() - 1) {
            Some(k) => Some(p.drop_last().push(k as usize)),
            None => None,
        }
    }
}

/// The next sibling of the node at `p` that is not trivia.
pub open spec fn next_sibling(t: SyntaxTree, p: Seq<usize>) -> Option<Seq<usize>> {
    if p.len() == 0 {
        None
    } else {
        match next_nontrivia(t.at(p.drop_last()), p.last() + 1) {
            Some(k) => Some(p.drop_last().push(k as usize)),
            None => None,
        }
    }
}

proof fn lemma_prev_nontrivia(n: SyntaxTree, j: int)
    ensures
        prev_nontrivia(n, j) matches Some(k) ==> 0 <= k <= j && k < n.kids().len()
            && !n.kids()[k].kind.spec_is_trivia(),
    decreases j + 1,
{
    if 0 <= j < n.kids().len() {
        lemma_prev_nontrivia(n, j - 1);
    }
}

proof fn lemma_next_nontrivia(n: SyntaxTree, j: int)
    ensures
        next_nontrivia(n, j) matches Some(k) ==> 0 <= j <= k < n.kids().len()
            && !n.kids()[k].kind.spec_is_trivia(),
    decreases n.kids().len() - j,
{
    if 0 <= j < n.kids().len() {
        lemma_next_nontrivia(n, j + 1);
    }
}

/// Sibling navigation stays on nodes of the tree.
pub proof fn lemma_sibling_valid(t: SyntaxTree, p: Seq<usize>)
    requires
        t.wf(),
        t.valid_path(p),
    ensures
        prev_sibling(t, p) matches Some(s) ==> t.valid_path(s) && s.len() == p.len() && s.len() > 0
            && s.drop_last() == p.drop_last() && s.last() < p.last(),
        next_sibling(t, p) matches Some(s) ==> t.valid_path(s) && s.len() == p.len() && s.len() > 0
            && s.drop_last() == p.drop_last() && s.last() > p.last(),
{
    if p.len() > 0 {
        let q = p.drop_last();
        lemma_at_drop_last(t, p);
        lemma_at_wf(t, q);
        lemma_prev_nontrivia(t.at(q), p.last() - 1);
        lemma_next_nontrivia(t.at(q), p.last() + 1);
        if let Some(k) = prev_nontrivia(t.at(q), p.last() - 1) {
            lemma_at_push(t, q, k as usize);
            assert(q.push(k as usize).drop_last() =~= q);
        }
        if let Some(k) = next_nontrivia(t.at(q), p.last() + 1) {
            lemma_at_push(t, q, k as usize);
            assert(q.push(k as usize).drop_last() =~= q);
        }
    }
}

impl SyntaxTree {
    /// The previous sibling of the node at `path` that is not trivia.
    pub fn prev_sibling(&self, path: &Vec<usize>) -> (r: Option<Vec<usize>>)
        requires
            self.wf(),
            self.valid_path(path@),
        ensures
            opt_path(r) == prev_sibling(*self, path@),
    {
        let len = path.len();
        if len == 0 {
            return None;
        }
        let mut q = path_take(path, len - 1);
        proof {
            assert(q@ =~= path@.drop_last());
            lemma_at_drop_last(*self, path@);
            lemma_at_wf(*self, q@);
        }
        let parent = self.node_at(&q);
        let mut j = path[len - 1];
        while j > 0
            invariant
                path@.len() == len > 0,
                parent.wf(),
                *parent == self.at(path@.drop_last()),
                j <= path@.last() < parent.kids().len(),
                q@ == path@.drop_last(),
                prev_nontrivia(*parent, j - 1) == prev_nontrivia(*parent, path@.last() - 1),
            decreases j,
        {
            j = j - 1;
            if !parent.children[j].kind.is_trivia() {
                assert(prev_nontrivia(*parent, j as int) == Some(j as int));
                q.push(j);
                return Some(q);
            }
        }
        None
    }

    /// The next sibling of the node at `path` that is not trivia.
    pub fn next_sibling(&self, path: &Vec<usize>) -> (r: Option<Vec<usize>>)
        requires
            self.wf(),
            self.valid_path(path@),
        ensures
            opt_path(r) == next_sibling(*self, path@),
    {
        let len = path.len();
        if len == 0 {
            return None;
        }
        let mut q = path_take(path, len - 1);
        proof {
            assert(q@ =~= path@.drop_last());
            lemma_at_drop_last(*self, path@);
            lemma_at_wf(*self, q@);
        }
        let parent = self.node_at(&q);
        let n = parent.children.len();
        let mut j = path[len - 1] + 1;
        while j < n
            invariant
                path@.len() == len > 0,
                parent.wf(),
                n == parent.kids().len(),
                *parent == self.at(path@.drop_last()),
                0 < j <= n,
                q@ == path@.drop_last(),
                next_nontrivia(*parent, j as int) == next_nontrivia(*parent, path@.last() + 1),
            decreases n - j,
        {
            if !parent.children[j].kind.is_trivia() {
                assert(next_nontrivia(*parent, j as int) == Some(j as int));
                q.push(j);
                return Some(q);
            }
            j = j + 1;
        }
        None
    }
}

// ---------------------------------------------------------------------------
// Leaves
// ---------------------------------------------------------------------------

/// The path (from `n`) of the first leaf in `n` that is neither trivia nor an
/// error.
pub open spec fn leftmost_leaf(n: SyntaxTree) -> Option<Seq<usize>>
    decreases n, n.children@.len() + 1,
{
    if n.leaf && !n.kind.spec_is_trivia() && n.kind != NodeKind::Error {
        Some(Seq::empty())
    } else {
        leftmost_from(n, 0)
    }
}

/// The first such leaf within the children from index `i` on.
pub open spec fn leftmost_from(n: SyntaxTree, i: int) -> Option<Seq<usize>>
    decreases n, n.children@.len() - i,
{
    if i < 0 || i >= n.children@.len() {
        None
    } else {
        match leftmost_leaf(n.children@[i]) {
            Some(p) => Some(seq![i as usize] + p),
            None => leftmost_from(n, i + 1),
        }
    }
}

/// The path (from `n`) of the last leaf in `n` that is not trivia.
pub open spec fn rightmost_leaf(n: SyntaxTree) -> Option<Seq<usize>>
    decreases n, n.children@.len() + 1,
{
    if n.leaf && !n.kind.spec_is_trivia() {
        Some(Seq::empty())
    } else {
        rightmost_from(n, n.children@.len() - 1)
    }
}

/// The last such leaf within the children up to index `i`.
pub open spec fn rightmost_from(n: SyntaxTree, i: int) -> Option<Seq<usize>>
    decreases n, i + 1,
{
    if i < 0 || i >= n.children@.len() {
        None
    } else {
        match rightmost_leaf(n.children@[i]) {
            Some(p) => Some(seq![i as usize] + p),
            None => rightmost_from(n, i - 1),
        }
    }
}

/// The last non-trivia leaf before the node at `p`.
pub open spec fn prev_leaf(t: SyntaxTree, p: Seq<usize>) -> Option<Seq<usize>>
    decreases p.len(), (if p.len() > 0 { p.last() as int } else { 0 }),
{
    if p.len() == 0 {
        None
    } else {
        let q = p.drop_last();
        match prev_nontrivia(t.at(q), p.last() - 1) {
            Some(k) => if 0 <= k < p.last() {
                let s = q.push(k as usize);
                match rightmost_leaf(t.at(s)) {
                    Some(r) => Some(s + r),
                    None => prev_leaf(t, s),
                }
            } else {
                None
            },
            None => prev_leaf(t, q),
        }
    }
}

/// The first non-trivia, non-error leaf after the node at `p`.
pub open spec fn next_leaf(t: SyntaxTree, p: Seq<usize>) -> Option<Seq<usize>>
    decreases p.len(), (if p.len() > 0 { t.at(p.drop_last()).kids().len() - p.last() } else { 0 }),
{
    if p.len() == 0 {
        None
    } else {
        let q = p.drop_last();
        match next_nontrivia(t.at(q), p.last() + 1) {
            Some(k) => if p.last() < k < t.at(q).kids().len() && k <= usize::MAX {
                let s = q.push(k as usize);
                proof {
                    assert(s.drop_last() =~= q);
                }
                match leftmost_leaf(t.at(s)) {
                    Some(r) => Some(s + r),
                    None => next_leaf(t, s),
                }
            } else {
                None
            },
            None => next_leaf(t, q),
        }
    }
}

/// A path followed by another names, in `t`, what the second names in the
/// node the first names.
pub proof fn lemma_path_concat(t: SyntaxTree, s: Seq<usize>, r: Seq<usize>)
    requires
        t.valid_path(s),
    ensures
        t.valid_path(s + r) == t.at(s).valid_path(r),
        t.valid_path(s + r) ==> t.at(s + r) == t.at(s).at(r),
    decreases s.len(),
{
    if s.len() > 0 {
        let c = t.kids()[s[0] as int];
        assert((s + r).drop_first() =~= s.drop_first() + r);
        assert((s + r)[0] == s[0]);
        lemma_path_concat(c, s.drop_first(), r);
    } else {
        assert(s + r =~= r);
    }
}

/// The leaf search within a node finds a leaf of it that is not trivia (nor
/// an error, for the leftmost one).
pub proof fn lemma_extreme_leaves(n: SyntaxTree)
    requires
        n.wf(),
    ensures
        leftmost_leaf(n) matches Some(r) ==> n.valid_path(r) && n.at(r).leaf
            && !n.at(r).kind.spec_is_trivia(),
        rightmost_leaf(n) matches Some(r) ==> n.valid_path(r) && n.at(r).leaf
            && !n.at(r).kind.spec_is_trivia(),
    decreases n, n.children@.len() + 1,
{
    lemma_leftmost_from(n, 0);
    lemma_rightmost_from(n, n.children@.len() - 1);
}

proof fn lemma_leftmost_from(n: SyntaxTree, i: int)
    requires
        n.wf(),
    ensures
        leftmost_from(n, i) matches Some(r) ==> n.valid_path(r) && n.at(r).leaf
            && !n.at(r).kind.spec_is_trivia(),
    decreases n, n.children@.len() - i,
{
    if 0 <= i < n.children@.len() {
        let c = n.children@[i];
        assert(c.wf());
        lemma_extreme_leaves(c);
        if let Some(p) = leftmost_leaf(c) {
            lemma_path_cons(n, i as usize, p);
        } else {
            lemma_leftmost_from(n, i + 1);
        }
    }
}

proof fn lemma_rightmost_from(n: SyntaxTree, i: int)
    requires
        n.wf(),
    ensures
        rightmost_from(n, i) matches Some(r) ==> n.valid_path(r) && n.at(r).leaf
            && !n.at(r).kind.spec_is_trivia(),
    decreases n, i + 1,
{
    if 0 <= i < n.children@.len() {
        let c = n.children@[i];
        assert(c.wf());
        lemma_extreme_leaves(c);
        if let Some(p) = rightmost_leaf(c) {
            lemma_path_cons(n, i as usize, p);
        } else {
            lemma_rightmost_from(n, i - 1);
        }
    }
}

/// The neighbouring leaves are leaves of the tree that are not trivia.
pub proof fn lemma_neighbour_leaves(t: SyntaxTree, p: Seq<usize>)
    requires
        t.wf(),
        t.valid_path(p),
    ensures
        prev_leaf(t, p) matches Some(s) ==> t.valid_path(s) && t.at(s).leaf
            && !t.at(s).kind.spec_is_trivia(),
    decreases p.len(), (if p.len() > 0 { p.last() as int } else { 0 }),
{
    if p.len() > 0 {
        let q = p.drop_last();
        lemma_at_drop_last(t, p);
        lemma_prev_nontrivia(t.at(q), p.last() - 1);
        if let Some(k) = prev_nontrivia(t.at(q), p.last() - 1) {
            let s = q.push(k as usize);
            lemma_at_push(t, q, k as usize);
            lemma_at_wf(t, s);
            lemma_extreme_leaves(t.at(s));
            match rightmost_leaf(t.at(s)) {
                Some(r) => {
                    lemma_path_concat(t, s, r);
                },
                None => {
                    lemma_neighbour_leaves(t, s);
                },
            }
        } else {
            lemma_neighbour_leaves(t, q);
        }
    }
}

/// The next leaf is a leaf of the tree that is not trivia.
pub proof fn lemma_next_leaf_valid(t: SyntaxTree, p: Seq<usize>)
    requires
        t.wf(),
        t.valid_path(p),
    ensures
        next_leaf(t, p) matches Some(s) ==> t.valid_path(s) && t.at(s).leaf
            && !t.at(s).kind.spec_is_trivia(),
    decreases p.len(), (if p.len() > 0 { t.at(p.drop_last()).kids().len() - p.last() } else { 0 }),
{
    if p.len() > 0 {
        let q = p.drop_last();
        lemma_at_drop_last(t, p);
        lemma_next_nontrivia(t.at(q), p.last() + 1);
        if let Some(k) = next_nontrivia(t.at(q), p.last() + 1) {
            lemma_at_wf(t, q);
            let s = q.push(k as usize);
            lemma_at_push(t, q, k as usize);
            lemma_at_wf(t, s);
            lemma_extreme_leaves(t.at(s));
            assert(s.drop_last() =~= q);
            match leftmost_leaf(t.at(s)) {
                Some(r) => {
                    lemma_path_concat(t, s, r);
                },
                None => {
                    lemma_next_leaf_valid(t, s);
                },
            }
        } else {
            lemma_next_leaf_valid(t, q);
        }
    }
}

/// The next leaf starts at or after the end of the node at `p`.
pub proof fn lemma_next_leaf_after(t: SyntaxTree, p: Seq<usize>)
    requires
        t.wf(),
        t.valid_path(p),
    ensures
        next_leaf(t, p) matches Some(s) ==> t.at(s).start >= t.at(p).end(),
    decreases p.len(), (if p.len() > 0 { t.at(p.drop_last()).kids().len() - p.last() } else { 0 }),
{
    if p.len() > 0 {
        let q = p.drop_last();
        lemma_at_drop_last(t, p);
        lemma_at_wf(t, q);
        lemma_next_nontrivia(t.at(q), p.last() + 1);
        if let Some(k) = next_nontrivia(t.at(q), p.last() + 1) {
            let s = q.push(k as usize);
            lemma_at_push(t, q, k as usize);
            lemma_at_wf(t, s);
            lemma_sibling_order(t.at(q), p.last() as int, k);
            lemma_extreme_leaves(t.at(s));
            assert(s.drop_last() =~= q);
            match leftmost_leaf(t.at(s)) {
                Some(r) => {
                    lemma_path_concat(t, s, r);
                    lemma_at_wf(t.at(s), r);
                },
                None => {
                    lemma_next_leaf_after(t, s);
                },
            }
        } else {
            crate::syntax::tree::lemma_child_within(t.at(q), p.last() as int);
            lemma_next_leaf_after(t, q);
        }
    }
}

/// The previous leaf ends at or before the start of the node at `p`.
pub proof fn lemma_prev_leaf_before(t: SyntaxTree, p: Seq<usize>)
    requires
        t.wf(),
        t.valid_path(p),
    ensures
        prev_leaf(t, p) matches Some(s) ==> t.at(s).end() <= t.at(p).start,
    decreases p.len(), (if p.len() > 0 { p.last() as int } else { 0 }),
{
    if p.len() > 0 {
        let q = p.drop_last();
        lemma_at_drop_last(t, p);
        lemma_at_wf(t, q);
        lemma_prev_nontrivia(t.at(q), p.last() - 1);
        if let Some(k) = prev_nontrivia(t.at(q), p.last() - 1) {
            let s = q.push(k as usize);
            lemma_at_push(t, q, k as usize);
            lemma_at_wf(t, s);
            lemma_sibling_order(t.at(q), k, p.last() as int);
            lemma_extreme_leaves(t.at(s));
            match rightmost_leaf(t.at(s)) {
                Some(r) => {
                    lemma_path_concat(t, s, r);
                    lemma_at_wf(t.at(s), r);
                },
                None => {
                    lemma_prev_leaf_before(t, s);
                },
            }
        } else {
            crate::syntax::tree::lemma_child_within(t.at(q), p.last() as int);
            lemma_prev_leaf_before(t, q);
        }
    }
}

proof fn lemma_prev_nontrivia_pub(n: SyntaxTree, j: int)
    ensures
        prev_nontrivia(n, j) matches Some(k) ==> 0 <= k <= j && k < n.kids().len(),
{
    lemma_prev_nontrivia(n, j);
}

impl SyntaxTree {
    /// The first leaf within this node that is neither trivia nor an error.
    pub fn leftmost_leaf(&self) -> (r: Option<Vec<usize>>)
        requires
            self.wf(),
        ensures
            opt_path(r) == leftmost_leaf(*self),
        decreases self,
    {
        if self.leaf && !self.kind.is_trivia() && self.kind != NodeKind::Error {
            return Some(Vec::new());
        }
        let n = self.children.len();
        let mut i: usize = 0;
        while i < n
            invariant
                i <= n == self.children@.len(),
                self.wf(),
                leftmost_from(*self, i as int) == leftmost_from(*self, 0),
            decreases n - i,
        {
            let c = &self.children[i];
            proof {
                assert(c.wf());
            }
            match c.leftmost_leaf() {
                Some(p) => {
                    return Some(cons_path(i, p));
                },
                None => {},
            }
            i = i + 1;
        }
        None
    }

    /// The last leaf within this node that is not trivia.
    pub fn rightmost_leaf(&self) -> (r: Option<Vec<usize>>)
        requires
            self.wf(),
        ensures
            opt_path(r) == rightmost_leaf(*self),
        decreases self,
    {
        if self.leaf && !self.kind.is_trivia() {
            return Some(Vec::new());
        }
        let mut i: usize = self.children.len();
        while i > 0
            invariant
                i <= self.children@.len(),
                self.wf(),
                rightmost_from(*self, i - 1) == rightmost_from(*self, self.children@.len() - 1),
            decreases i,
        {
            let c = &self.children[i - 1];
            proof {
                assert(c.wf());
            }
            match c.rightmost_leaf() {
                Some(p) => {
                    return Some(cons_path(i - 1, p));
                },
                None => {},
            }
            i = i - 1;
        }
        None
    }

    /// The last non-trivia leaf before the node at `path`.
    pub fn prev_leaf(&self, path: &Vec<usize>) -> (r: Option<Vec<usize>>)
        requires
            self.wf(),
            self.valid_path(path@),
        ensures
            opt_path(r) == prev_leaf(*self, path@),
        decreases path@.len(), (if path@.len() > 0 { path@.last() as int } else { 0 }),
    {
        let len = path.len();
        if len == 0 {
            return None;
        }
        proof {
            lemma_sibling_valid(*self, path@);
            lemma_at_drop_last(*self, path@);
            lemma_prev_nontrivia_pub(self.at(path@.drop_last()), path@.last() - 1);
        }
        match self.prev_sibling(path) {
            Some(s) => {
                proof {
                    lemma_at_wf(*self, s@);
                }
                let node = self.node_at(&s);
                match node.rightmost_leaf() {
                    Some(r) => Some(path_concat(s, r)),
                    None => self.prev_leaf(&s),
                }
            },
            None => {
                let q = path_take(path, len - 1);
                proof {
                    assert(q@ =~= path@.drop_last());
                }
                self.prev_leaf(&q)
            },
        }
    }

    /// The first non-trivia, non-error leaf after the node at `path`.
    pub fn next_leaf(&self, path: &Vec<usize>) -> (r: Option<Vec<usize>>)
        requires
            self.wf(),
            self.valid_path(path@),
        ensures
            opt_path(r) == next_leaf(*self, path@),
        decreases path@.len(),
            (if path@.len() > 0 { self.at(path@.drop_last()).kids().len() - path@.last() } else { 0 }),
    {
        let len = path.len();
        if len == 0 {
            return None;
        }
        proof {
            lemma_sibling_valid(*self, path@);
            lemma_at_drop_last(*self, path@);
            lemma_at_wf(*self, path@.drop_last());
            lemma_next_nontrivia(self.at(path@.drop_last()), path@.last() + 1);
        }
        match self.next_sibling(path) {
            Some(s) => {
                proof {
                    lemma_at_wf(*self, s@);
                    lemma_at_drop_last(*self, s@);
                }
                let node = self.node_at(&s);
                match node.leftmost_leaf() {
                    Some(r) => Some(path_concat(s, r)),
                    None => self.next_leaf(&s),
                }
            },
            None => {
                let q = path_take(path, len - 1);
                proof {
                    assert(q@ =~= path@.drop_last());
                }
                self.next_leaf(&q)
            },
        }
    }
}

} // verus!
