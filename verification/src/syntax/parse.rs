use super::kind::NodeKind;
use super::tree::SyntaxTree;
use crate::text::bytes_of;
use vstd::prelude::*;
use vstd::string::StringSliceAdditionalSpecFns;

verus! {

// ---------------------------------------------------------------------------
// Typst's parse, as a preorder list of nodes
// ---------------------------------------------------------------------------

/// One node of a parsed tree: its kind code (the position of the kind in
/// Typst's `SyntaxKind` enumeration), its byte length and its number of
/// children.
pub type NodeItem = (u8, usize, usize);

/// The nodes of the syntax tree that `typst::syntax::parse` builds for
/// `text`, in preorder (each node before its children, children in order).
pub uninterp spec fn typst_preorder(text: Seq<char>) -> Seq<NodeItem>;

/// Parses `text` with `typst::syntax::parse` and lists the nodes of the tree
/// in preorder, each as its kind (`SyntaxNode::kind`, as its position in
/// `SyntaxKind`), length (`SyntaxNode::len`) and number of children
/// (`SyntaxNode::children`). Claimed: the list is the named function
/// [`typst_preorder`] of the text; what it holds for a given text is not
/// stated here.
#[verifier::external_body]
fn typst_parse_preorder(text: &str) -> (r: Vec<NodeItem>)
    ensures
        r@ == typst_preorder(text@),
{
    let root = typst::syntax::parse(text);
    let mut out = Vec::new();
    let mut pending = vec![&root];
    while let Some(node) = pending.pop() {
        out.push((node.kind() as u8, node.len(), node.children().len()));
        pending.extend(node.children().rev());
    }
    out
}

// ---------------------------------------------------------------------------
// Trees and their preorder lists
// ---------------------------------------------------------------------------

/// The number of nodes of `t`.
pub open spec fn node_count(t: SyntaxTree) -> nat
    decreases t, t.kids().len() + 1,
{
    1 + kids_count(t, t.kids().len() as int)
}

/// The number of nodes of the first `i` children of `t` and their subtrees.
pub open spec fn kids_count(t: SyntaxTree, i: int) -> nat
    decreases t, i,
{
    if i <= 0 || i > t.kids().len() {
        0
    } else {
        kids_count(t, i - 1) + node_count(t.kids()[i - 1])
    }
}

/// Whether the items from `pos` on list the nodes of `t` in preorder: the
/// first gives the node's kind and number of children (and, for a childless
/// node, its length), and the children's lists follow one another.
pub open spec fn encodes(items: Seq<NodeItem>, pos: int, t: SyntaxTree) -> bool
    decreases t, t.kids().len() + 1,
{
    &&& 0 <= pos < items.len()
    &&& NodeKind::spec_from_code(items[pos].0) == t.kind
    &&& items[pos].2 == t.kids().len()
    &&& (t.kids().len() == 0 ==> t.len == items[pos].1)
    &&& kids_encoded(items, pos + 1, t, t.kids().len() as int)
}

/// Whether the first `i` children of `t` are listed one after another from
/// `pos` on.
pub open spec fn kids_encoded(items: Seq<NodeItem>, pos: int, t: SyntaxTree, i: int) -> bool
    decreases t, i,
{
    if i <= 0 || i > t.kids().len() {
        true
    } else {
        kids_encoded(items, pos, t, i - 1) && encodes(items, pos + kids_count(t, i - 1), t.kids()[i - 1])
    }
}

/// The token rule: a node is a token (leaf) exactly when it has no children,
/// is not an error and is not empty; and so throughout the tree.
pub open spec fn shaped(t: SyntaxTree) -> bool
    decreases t,
{
    &&& t.leaf == (t.kids().len() == 0 && t.kind != NodeKind::Error && t.len > 0)
    &&& forall|i: int| 0 <= i < t.kids().len() ==> shaped(#[trigger] t.kids()[i])
}

/// Whether `t` is the tree Typst parses `text` into: listed by
/// [`typst_preorder`], well-formed, following the token rule, and spanning
/// the text from offset 0.
pub open spec fn is_typst_tree(text: Seq<char>, t: SyntaxTree) -> bool {
    let items = typst_preorder(text);
    &&& encodes(items, 0, t)
    &&& node_count(t) == items.len()
    &&& t.wf()
    &&& shaped(t)
    &&& t.start == 0
    &&& t.end() == vstd::utf8::encode_utf8(text).len()
}

/// The fallback tree of a text of `len` bytes: a markup root holding one
/// text token (none when the text is empty).
pub open spec fn is_flat_tree(t: SyntaxTree, len: int) -> bool {
    &&& t.kind == NodeKind::Markup
    &&& t.start == 0
    &&& t.len == len
    &&& !t.leaf
    &&& t.kids().len() == (if len > 0 { 1int } else { 0int })
    &&& len > 0 ==> t.kids()[0].kind == NodeKind::Text && t.kids()[0].start == 0
        && t.kids()[0].len == len && t.kids()[0].leaf && t.kids()[0].kids().len() == 0
}

/// The children listed from `pos` on include every shorter run of them.
proof fn lemma_kids_encoded_prefix(items: Seq<NodeItem>, pos: int, t: SyntaxTree, i: int, j: int)
    requires
        kids_encoded(items, pos, t, i),
        0 <= j <= i <= t.kids().len(),
    ensures
        kids_encoded(items, pos, t, j),
    decreases i - j,
{
    if j < i {
        lemma_kids_encoded_prefix(items, pos, t, i - 1, j);
    }
}

/// Two well-formed trees listed from the same position and starting at the
/// same offset have as many nodes and end at the same offset.
proof fn lemma_encoding_unique(items: Seq<NodeItem>, pos: int, t1: SyntaxTree, t2: SyntaxTree)
    requires
        encodes(items, pos, t1),
        encodes(items, pos, t2),
        t1.wf(),
        t2.wf(),
        t1.start == t2.start,
    ensures
        node_count(t1) == node_count(t2),
        t1.end() == t2.end(),
    decreases t1, t1.kids().len() + 1,
{
    let k = t1.kids().len() as int;
    lemma_kids_unique(items, pos + 1, t1, t2, k);
}

proof fn lemma_kids_unique(items: Seq<NodeItem>, pos: int, t1: SyntaxTree, t2: SyntaxTree, i: int)
    requires
        t1.kids().len() == t2.kids().len(),
        0 <= i <= t1.kids().len(),
        kids_encoded(items, pos, t1, i),
        kids_encoded(items, pos, t2, i),
        t1.wf(),
        t2.wf(),
        t1.start == t2.start,
    ensures
        kids_count(t1, i) == kids_count(t2, i),
        i > 0 ==> t1.kids()[i - 1].end() == t2.kids()[i - 1].end(),
        i == t1.kids().len() ==> t1.end() == t2.end() || t1.kids().len() == 0,
    decreases t1, i,
{
    if i > 0 {
        lemma_kids_unique(items, pos, t1, t2, i - 1);
        let c1 = t1.kids()[i - 1];
        let c2 = t2.kids()[i - 1];
        assert(c1.wf() && c2.wf());
        if i > 1 {
            assert(c1.start == t1.kids()[i - 2].end());
            assert(c2.start == t2.kids()[i - 2].end());
        }
        lemma_encoding_unique(items, pos + kids_count(t1, i - 1), c1, c2);
    }
}

// ---------------------------------------------------------------------------
// Reading the list into a tree
// ---------------------------------------------------------------------------

/// Spec-level sums over a sequence of subtrees.
pub open spec fn seq_count(s: Seq<SyntaxTree>, i: int) -> nat
    decreases i,
{
    if i <= 0 {
        0
    } else {
        seq_count(s, i - 1) + node_count(s[i - 1])
    }
}

pub open spec fn seq_encoded(items: Seq<NodeItem>, pos: int, s: Seq<SyntaxTree>, i: int) -> bool
    decreases i,
{
    if i <= 0 {
        true
    } else {
        seq_encoded(items, pos, s, i - 1) && encodes(items, pos + seq_count(s, i - 1), s[i - 1])
    }
}

proof fn lemma_seq_is_kids(items: Seq<NodeItem>, pos: int, t: SyntaxTree, i: int)
    requires
        0 <= i <= t.kids().len(),
    ensures
        seq_count(t.kids(), i) == kids_count(t, i),
        seq_encoded(items, pos, t.kids(), i) == kids_encoded(items, pos, t, i),
    decreases i,
{
    if i > 0 {
        lemma_seq_is_kids(items, pos, t, i - 1);
    }
}

/// Reads the tree listed from `pos` on, placed at byte offset `start`; also
/// gives the position after its list. `None` exactly when no well-formed
/// tree following the token rule is listed there with that start.
fn decode_node(items: &Vec<NodeItem>, pos: usize, start: usize) -> (r: Option<(SyntaxTree, usize)>)
    ensures
        r matches Some((t, next)) ==> encodes(items@, pos as int, t) && t.wf() && shaped(t)
            && t.start == start && next == pos + node_count(t) && next <= items@.len(),
        r is None ==> forall|t: SyntaxTree|
            !(#[trigger] encodes(items@, pos as int, t) && t.wf() && shaped(t) && t.start == start),
    decreases items@.len() - pos,
{
    if pos >= items.len() {
        return None;
    }
    let (code, item_len, k) = items[pos];
    let kind = NodeKind::from_code(code);
    let mut children: Vec<SyntaxTree> = Vec::new();
    let mut next = pos + 1;
    let mut offset = start;
    let mut i: usize = 0;
    while i < k
        invariant
            pos < items@.len(),
            items@[pos as int] == (code, item_len, k),
            kind == NodeKind::spec_from_code(code),
            i <= k,
            children@.len() == i,
            pos + 1 <= next <= items@.len(),
            next == pos + 1 + seq_count(children@, i as int),
            seq_encoded(items@, pos + 1, children@, i as int),
            start <= offset,
            i == 0 ==> offset == start,
            i > 0 ==> children@[0].start == start,
            i > 0 ==> children@[i - 1].end() == offset,
            forall|j: int| 0 < j < i ==> #[trigger] children@[j].start == children@[j - 1].end(),
            forall|j: int| 0 <= j < i ==> (#[trigger] children@[j]).wf() && shaped(children@[j]),
            forall|t2: SyntaxTree|
                #![trigger encodes(items@, pos as int, t2)]
                encodes(items@, pos as int, t2) && t2.wf() && shaped(t2) && t2.start == start ==> {
                    &&& t2.kids().len() == k
                    &&& kids_count(t2, i as int) == seq_count(children@, i as int)
                    &&& (i > 0 ==> t2.kids()[i - 1].end() == offset)
                },
        decreases k - i,
    {
        let ghost before = children@;
        match decode_node(items, next, offset) {
            Some((c, n2)) => {
                proof {
                    assert forall|t2: SyntaxTree|
                        #![trigger encodes(items@, pos as int, t2)]
                        encodes(items@, pos as int, t2) && t2.wf() && shaped(t2) && t2.start
                            == start implies {
                        &&& kids_count(t2, i + 1) == seq_count(before.push(c), i + 1)
                        &&& t2.kids()[i as int].end() == c.end()
                    } by {
                        let ki = t2.kids()[i as int];
                        assert(ki.wf());
                        lemma_kids_encoded_prefix(items@, pos + 1, t2, k as int, i + 1);
                        if i > 0 {
                            assert(ki.start == t2.kids()[i - 1].end());
                        }
                        lemma_encoding_unique(items@, next as int, c, ki);
                        assert(before.push(c)[i as int] == c);
                        assert(seq_count(before.push(c), i as int) == seq_count(before, i as int)) by {
                            lemma_seq_count_push(before, c, i as int);
                        }
                    }
                    lemma_seq_count_push(before, c, i as int);
                    lemma_seq_encoded_push(items@, pos + 1, before, c, i as int);
                }
                offset = c.end_offset();
                children.push(c);
                next = n2;
                proof {
                    assert(children@ == before.push(c));
                    assert forall|j: int| 0 <= j < i + 1 implies (#[trigger] children@[j]).wf() && shaped(
                        children@[j],
                    ) by {
                        if j < i {
                            assert(children@[j] == before[j]);
                        }
                    }
                }
            },
            None => {
                proof {
                    assert forall|t2: SyntaxTree|
                        !(#[trigger] encodes(items@, pos as int, t2) && t2.wf() && shaped(t2) && t2.start
                            == start) by {
                        if encodes(items@, pos as int, t2) && t2.wf() && shaped(t2) && t2.start == start {
                            let ki = t2.kids()[i as int];
                            assert(ki.wf() && shaped(ki));
                            lemma_kids_encoded_prefix(items@, pos + 1, t2, k as int, i + 1);
                            if i > 0 {
                                assert(ki.start == t2.kids()[i - 1].end());
                            } else {
                                assert(ki.start == t2.start);
                            }
                            assert(encodes(items@, next as int, ki));
                        }
                    }
                }
                return None;
            },
        }
        i = i + 1;
    }
    if k == 0 {
        match start.checked_add(item_len) {
            Some(_) => {
                let leaf = kind != NodeKind::Error && item_len > 0;
                let t = SyntaxTree { kind, start, len: item_len, leaf, children };
                proof {
                    lemma_seq_is_kids(items@, pos + 1, t, 0);
                }
                Some((t, next))
            },
            None => {
                proof {
                    assert forall|t2: SyntaxTree|
                        !(#[trigger] encodes(items@, pos as int, t2) && t2.wf() && shaped(t2) && t2.start
                            == start) by {
                        if encodes(items@, pos as int, t2) && t2.wf() && shaped(t2) && t2.start == start {
                            assert(t2.len == item_len);
                        }
                    }
                }
                None
            },
        }
    } else {
        let t = SyntaxTree { kind, start, len: offset - start, leaf: false, children };
        proof {
            assert(t.kids() == children@);
            lemma_seq_is_kids(items@, pos + 1, t, k as int);
            assert forall|j: int| 0 <= j < t.kids().len() implies shaped(#[trigger] t.kids()[j]) by {
                assert(children@[j].wf() && shaped(children@[j]));
            }
        }
        Some((t, next))
    }
}

proof fn lemma_seq_count_push(s: Seq<SyntaxTree>, c: SyntaxTree, i: int)
    requires
        0 <= i <= s.len(),
    ensures
        seq_count(s.push(c), i) == seq_count(s, i),
        i == s.len() ==> seq_count(s.push(c), i + 1) == seq_count(s, i) + node_count(c),
    decreases i,
{
    if i > 0 {
        lemma_seq_count_push(s, c, i - 1);
        assert(s.push(c)[i - 1] == s[i - 1]);
    }
    if i == s.len() {
        assert(s.push(c)[i] == c);
    }
}

proof fn lemma_seq_encoded_push(items: Seq<NodeItem>, pos: int, s: Seq<SyntaxTree>, c: SyntaxTree, i: int)
    requires
        0 <= i == s.len(),
        seq_encoded(items, pos, s, i),
        encodes(items, pos + seq_count(s, i), c),
    ensures
        seq_encoded(items, pos, s.push(c), i + 1),
{
    lemma_seq_encoded_prefix(items, pos, s, c, i);
    lemma_seq_count_push(s, c, i);
    assert(s.push(c)[i] == c);
}

proof fn lemma_seq_encoded_prefix(items: Seq<NodeItem>, pos: int, s: Seq<SyntaxTree>, c: SyntaxTree, i: int)
    requires
        0 <= i <= s.len(),
        seq_encoded(items, pos, s, i),
    ensures
        seq_encoded(items, pos, s.push(c), i),
    decreases i,
{
    if i > 0 {
        lemma_seq_encoded_prefix(items, pos, s, c, i - 1);
        lemma_seq_count_push(s, c, i - 1);
        assert(s.push(c)[i - 1] == s[i - 1]);
    }
}

/// A source text together with its syntax tree.
pub struct Document {
    text: String,
    tree: SyntaxTree,
}

/// The mathematical view of a document: the UTF-8 bytes of the text and the
/// syntax tree.
pub struct DocumentView {
    pub bytes: Seq<u8>,
    pub tree: SyntaxTree,
}

impl DocumentView {
    /// The tree is well-formed and spans exactly the text.
    pub open spec fn wf(self) -> bool {
        &&& self.tree.wf()
        &&& self.tree.start == 0
        &&& self.tree.end() == self.bytes.len()
        &&& vstd::utf8::valid_utf8(self.bytes)
    }
}

impl View for Document {
    type V = DocumentView;

    closed spec fn view(&self) -> DocumentView {
        DocumentView { bytes: vstd::utf8::encode_utf8(self.text@), tree: self.tree }
    }
}

impl Document {
    #[verifier::type_invariant]
    spec fn inv(self) -> bool {
        self@.wf()
    }

    /// Parses `text` as a Typst markup document: the tree is the one Typst
    /// parses the text into; should Typst's tree not be a well-formed tree
    /// spanning the text, the document gets the flat fallback tree instead.
    pub fn detached(text: &str) -> (r: Document)
        ensures
            r@.bytes == bytes_of(text),
            (exists|t: SyntaxTree| is_typst_tree(text@, t)) ==> is_typst_tree(text@, r@.tree),
            !(exists|t: SyntaxTree| is_typst_tree(text@, t)) ==> is_flat_tree(
                r@.tree,
                bytes_of(text).len() as int,
            ),
    {
        let items = typst_parse_preorder(text);
        let len = text.as_bytes().len();
        let owned = text.to_owned();
        proof {
            vstd::utf8::encode_utf8_valid_utf8(text@);
        }
        match decode_node(&items, 0, 0) {
            Some((tree, next)) => {
                if next == items.len() && tree.len == len {
                    proof {
                        assert(is_typst_tree(text@, tree));
                    }
                    return Document { text: owned, tree };
                }
                proof {
                    assert forall|t: SyntaxTree| !is_typst_tree(text@, t) by {
                        if is_typst_tree(text@, t) {
                            lemma_encoding_unique(items@, 0, tree, t);
                        }
                    }
                }
            },
            None => {
                proof {
                    assert forall|t: SyntaxTree| !is_typst_tree(text@, t) by {
                        if is_typst_tree(text@, t) {
                            assert(encodes(items@, 0, t));
                        }
                    }
                }
            },
        }
        Document { text: owned, tree: Self::flat_tree(len) }
    }

    /// A tree of a single text token spanning `len` bytes (no token when the
    /// text is empty), under a markup root.
    fn flat_tree(len: usize) -> (t: SyntaxTree)
        ensures
            t.wf(),
            is_flat_tree(t, len as int),
            t.end() == len,
    {
        let mut children: Vec<SyntaxTree> = Vec::new();
        if len > 0 {
            children.push(SyntaxTree { kind: NodeKind::Text, start: 0, len, leaf: true, children: Vec::new() });
        }
        let t = SyntaxTree { kind: NodeKind::Markup, start: 0, len, leaf: false, children };
        assert(t.kids().len() > 0 ==> t.kids()[0].wf());
        t
    }

    /// The source text.
    pub fn text(&self) -> (r: &str)
        ensures
            bytes_of(r) == self@.bytes,
    {
        self.text.as_str()
    }

    /// The syntax tree.
    pub fn tree(&self) -> (r: &SyntaxTree)
        ensures
            *r == self@.tree,
    {
        &self.tree
    }

    /// The view of every document is well-formed.
    pub fn check_wf(&self)
        ensures
            self@.wf(),
    {
        proof {
            use_type_invariant(self);
        }
    }
}

} // verus!
