use super::kind::NodeKind;
use vstd::prelude::*;

verus! {

/// A node of the syntax tree: its kind, its byte range `start..start + len`,
/// whether it is a token (leaf), and its children, which cover the node's
/// range one after another.
#[derive(Debug)]
pub struct SyntaxTree {
    pub kind: NodeKind,
    pub start: usize,
    pub len: usize,
    pub leaf: bool,
    pub children: Vec<SyntaxTree>,
}

impl SyntaxTree {
    /// Where the node's range ends.
    pub open spec fn end(self) -> int {
        self.start + self.len
    }

    /// The children, as a sequence.
    pub open spec fn kids(self) -> Seq<SyntaxTree> {
        self.children@
    }

    /// Child `i` starts where the one before it ends (the first where the node
    /// starts), and the last ends where the node ends.
    pub open spec fn contiguous(self) -> bool {
        &&& self.kids().len() > 0 ==> self.kids()[0].start == self.start
        &&& self.kids().len() > 0 ==> self.kids().last().end() == self.end()
        &&& forall|i: int|
            0 < i < self.kids().len() ==> #[trigger] self.kids()[i].start == self.kids()[i - 1].end()
    }

    /// Well-formedness: ranges fit in memory, children are contiguous and
    /// well-formed, only childless nodes are leaves, and error nodes are not.
    pub open spec fn wf(self) -> bool
        decreases self,
    {
        &&& self.end() <= usize::MAX
        &&& self.kids().len() <= usize::MAX
        &&& self.contiguous()
        &&& self.leaf ==> self.kids().len() == 0 && self.len > 0
        &&& self.kind == NodeKind::Error ==> !self.leaf
        &&& forall|i: int| 0 <= i < self.kids().len() ==> (#[trigger] self.kids()[i]).wf()
    }

    /// Whether `path` (child indices from this node down) names a node.
    pub open spec fn valid_path(self, path: Seq<usize>) -> bool
        decreases path.len(),
    {
        if path.len() == 0 {
            true
        } else {
            path[0] < self.kids().len() && self.kids()[path[0] as int].valid_path(path.drop_first())
        }
    }

    /// The node that `path` names.
    pub open spec fn at(self, path: Seq<usize>) -> SyntaxTree
        decreases path.len(),
    {
        if path.len() == 0 {
            self
        } else {
            self.kids()[path[0] as int].at(path.drop_first())
        }
    }
}

/// Descending one more step: the node at `path.push(i)` is child `i` of the
/// node at `path`.
pub proof fn lemma_at_push(t: SyntaxTree, path: Seq<usize>, i: usize)
    requires
        t.valid_path(path),
    ensures
        t.valid_path(path.push(i)) == (i < t.at(path).kids().len()),
        i < t.at(path).kids().len() ==> t.at(path.push(i)) == t.at(path).kids()[i as int],
    decreases path.len(),
{
    let p2 = path.push(i);
    if path.len() > 0 {
        assert(p2.drop_first() =~= path.drop_first().push(i));
        assert(p2[0] == path[0]);
        let c = t.kids()[path[0] as int];
        lemma_at_push(c, path.drop_first(), i);
        assert(t.valid_path(p2) == (path[0] < t.kids().len() && c.valid_path(p2.drop_first())));
        assert(t.at(path) == c.at(path.drop_first()));
        if i < t.at(path).kids().len() {
            assert(t.at(p2) == c.at(p2.drop_first()));
        }
    } else {
        assert(p2.drop_first() =~= Seq::<usize>::empty());
        assert(p2[0] == i);
        assert(t.at(path) == t);
        if i < t.kids().len() {
            assert(t.kids()[i as int].valid_path(p2.drop_first()));
            assert(t.at(p2) == t.kids()[i as int].at(p2.drop_first()));
        }
    }
}

/// Going up one step: a path without its last index still names a node.
pub proof fn lemma_at_drop_last(t: SyntaxTree, path: Seq<usize>)
    requires
        t.valid_path(path),
        path.len() > 0,
    ensures
        t.valid_path(path.drop_last()),
        path.last() < t.at(path.drop_last()).kids().len(),
        t.at(path) == t.at(path.drop_last()).kids()[path.last() as int],
{
    let q = path.drop_last();
    assert(q.push(path.last()) =~= path);
    lemma_valid_prefix(t, path, q.len() as int);
    assert(path.take(q.len() as int) =~= q);
    lemma_at_push(t, q, path.last());
}

/// Every prefix of a valid path is valid.
pub proof fn lemma_valid_prefix(t: SyntaxTree, path: Seq<usize>, k: int)
    requires
        t.valid_path(path),
        0 <= k <= path.len(),
    ensures
        t.valid_path(path.take(k)),
    decreases path.len(),
{
    if k > 0 {
        assert(path.take(k).drop_first() =~= path.drop_first().take(k - 1));
        lemma_valid_prefix(t.kids()[path[0] as int], path.drop_first(), k - 1);
    }
}

/// Every node of a well-formed tree is well-formed and lies within it.
pub proof fn lemma_at_wf(t: SyntaxTree, path: Seq<usize>)
    requires
        t.wf(),
        t.valid_path(path),
    ensures
        t.at(path).wf(),
        t.start <= t.at(path).start,
        t.at(path).end() <= t.end(),
    decreases path.len(),
{
    if path.len() > 0 {
        let c = t.kids()[path[0] as int];
        lemma_child_within(t, path[0] as int);
        lemma_at_wf(c, path.drop_first());
    }
}

/// Each child lies within its parent's range.
pub proof fn lemma_child_within(t: SyntaxTree, i: int)
    requires
        t.wf(),
        0 <= i < t.kids().len(),
    ensures
        t.start <= t.kids()[i].start,
        t.kids()[i].end() <= t.end(),
        t.kids()[i].wf(),
{
    lemma_children_ordered(t, i);
}

/// Children start at or after the parent and end by the parent's end, in order.
pub proof fn lemma_children_ordered(t: SyntaxTree, i: int)
    requires
        t.wf(),
        0 <= i < t.kids().len(),
    ensures
        t.start <= t.kids()[i].start,
        t.kids()[i].end() <= t.end(),
    decreases t.kids().len() - i,
{
    lemma_children_start(t, i);
    lemma_children_end(t, i);
}

proof fn lemma_children_start(t: SyntaxTree, i: int)
    requires
        t.wf(),
        0 <= i < t.kids().len(),
    ensures
        t.start <= t.kids()[i].start,
    decreases i,
{
    if i > 0 {
        lemma_children_start(t, i - 1);
        assert(t.kids()[i].start == t.kids()[i - 1].end());
    }
}

proof fn lemma_children_end(t: SyntaxTree, i: int)
    requires
        t.wf(),
        0 <= i < t.kids().len(),
    ensures
        t.kids()[i].end() <= t.end(),
    decreases t.kids().len() - i,
{
    if i + 1 < t.kids().len() {
        lemma_children_end(t, i + 1);
        assert(t.kids()[i + 1].start == t.kids()[i].end());
    }
}

/// Earlier children end before later ones start.
pub proof fn lemma_sibling_order(t: SyntaxTree, i: int, j: int)
    requires
        t.wf(),
        0 <= i < j < t.kids().len(),
    ensures
        t.kids()[i].end() <= t.kids()[j].start,
    decreases j - i,
{
    assert(t.kids()[j].start == t.kids()[j - 1].end());
    if j - 1 > i {
        lemma_sibling_order(t, i, j - 1);
    }
}

impl SyntaxTree {
    /// The node that `path` names.
    pub fn node_at<'a>(&'a self, path: &Vec<usize>) -> (r: &'a SyntaxTree)
        requires
            self.valid_path(path@),
        ensures
            *r == self.at(path@),
    {
        let mut cur = self;
        let mut i: usize = 0;
        while i < path.len()
            invariant
                i <= path@.len(),
                self.valid_path(path@),
                self.valid_path(path@.take(i as int)),
                *cur == self.at(path@.take(i as int)),
            decreases path@.len() - i,
        {
            proof {
                assert(path@.take(i + 1) =~= path@.take(i as int).push(path@[i as int]));
                lemma_valid_prefix(*self, path@, i + 1);
                lemma_at_push(*self, path@.take(i as int), path@[i as int]);
            }
            cur = &cur.children[path[i]];
            i = i + 1;
        }
        proof {
            assert(path@.take(i as int) =~= path@);
        }
        cur
    }

    /// Where the node's range ends.
    pub fn end_offset(&self) -> (r: usize)
        requires
            self.end() <= usize::MAX,
        ensures
            r == self.end(),
    {
        self.start + self.len
    }
}

} // verus!
