//! Compilation bookkeeping: whether a compilation runs or is due again, the
//! version of the last good document, and a hash over the structural parts
//! of the source (set and show rules, imports, top-level bindings,
//! headings, ...), which tells when the document's structure changed.

use crate::math::common::{node_range, span};
use crate::syntax::kind::NodeKind;
use crate::syntax::parse::Document;
use crate::syntax::tree::SyntaxTree;
use crate::text::bytes_of;
use std::ops::Range;
use vstd::prelude::*;
use vstd::string::StringSliceAdditionalSpecFns;

verus! {

// ---------------------------------------------------------------------------
// Structural ranges
// ---------------------------------------------------------------------------

/// Kinds whose nodes are structural as a whole, wherever they stand.
pub open spec fn is_structural_node_kind(k: NodeKind) -> bool {
    k == NodeKind::SetRule || k == NodeKind::ShowRule || k == NodeKind::ModuleImport || k
        == NodeKind::ModuleInclude || k == NodeKind::Contextual || k == NodeKind::Heading || k
        == NodeKind::Label
}

/// The first child of `n`, from index `i` on, that is an identifier.
pub open spec fn first_ident(n: SyntaxTree, i: int) -> Option<int>
    decreases n.kids().len() - i,
{
    if i < 0 || i >= n.kids().len() {
        None
    } else if n.kids()[i].kind == NodeKind::Ident {
        Some(i)
    } else {
        first_ident(n, i + 1)
    }
}

/// Whether the text at the node is exactly `name`.
pub open spec fn node_text_is(b: Seq<u8>, n: SyntaxTree, name: Seq<u8>) -> bool {
    n.end() <= b.len() && b.subrange(n.start as int, n.end()) == name
}

/// The bytes of `bibliography`.
pub open spec fn bibliography_bytes() -> Seq<u8> {
    seq![98u8, 105, 98, 108, 105, 111, 103, 114, 97, 112, 104, 121]
}

/// The bytes of `figure`.
pub open spec fn figure_bytes() -> Seq<u8> {
    seq![102u8, 105, 103, 117, 114, 101]
}

/// Whether a node is structural: a rule, import, include, context
/// expression, heading or label, a call of `bibliography` or `figure`, or a
/// `let` binding when it stands at the top level (`top`).
pub open spec fn is_structural_node(b: Seq<u8>, n: SyntaxTree, top: bool) -> bool {
    is_structural_node_kind(n.kind) || (top && n.kind == NodeKind::LetBinding) || (n.kind
        == NodeKind::FuncCall && match first_ident(n, 0) {
        Some(i) => node_text_is(b, n.kids()[i], bibliography_bytes()) || node_text_is(
            b,
            n.kids()[i],
            figure_bytes(),
        ),
        None => false,
    })
}

/// The level of the children of a node at `level`: the root is at level 0,
/// its children at the top level 1, and everything deeper at level 2.
pub open spec fn child_level(level: int) -> int {
    if level == 0 { 1 } else { 2 }
}

/// The ranges of the structural nodes of `n` (at `level`) and below, in the
/// order of a depth-first walk that visits a node, then its children from
/// last to first.
pub open spec fn structural_ranges_at(b: Seq<u8>, n: SyntaxTree, level: int) -> Seq<Range<usize>>
    decreases n, n.kids().len() + 1,
{
    let own = if is_structural_node(b, n, level == 1) { seq![node_range(n)] } else { Seq::empty() };
    own + structural_ranges_of_children(b, n, n.kids().len() as int, child_level(level))
}

/// The ranges contributed by the first `j` children of `n` (at `level`),
/// last child first.
pub open spec fn structural_ranges_of_children(b: Seq<u8>, n: SyntaxTree, j: int, level: int) -> Seq<Range<usize>>
    decreases n, j,
{
    if j <= 0 || j > n.kids().len() {
        Seq::empty()
    } else {
        structural_ranges_at(b, n.kids()[j - 1], level) + structural_ranges_of_children(b, n, j - 1, level)
    }
}

/// The ranges of the structural nodes of the document with root `root`: the
/// whole tree is walked, and `let` bindings count only at the top level.
pub open spec fn structural_ranges(b: Seq<u8>, root: SyntaxTree) -> Seq<Range<usize>> {
    structural_ranges_at(b, root, 0)
}

/// Whether `n` is a call of the function whose name has the bytes `name`:
/// a function call whose first identifier child reads `name`.
pub open spec fn calls_function(b: Seq<u8>, n: SyntaxTree, name: Seq<u8>) -> bool {
    &&& n.kind == NodeKind::FuncCall
    &&& exists|i: int|
        0 <= i < n.kids().len() && n.kids()[i].kind == NodeKind::Ident && (forall|j: int|
            0 <= j < i ==> n.kids()[j].kind != NodeKind::Ident) && n.kids()[i].end() <= b.len()
            && b.subrange(n.kids()[i].start as int, n.kids()[i].end()) == name
}

/// The first identifier child, found from `i` on, is the one at `k` when
/// none comes between.
proof fn lemma_first_ident_is(n: SyntaxTree, i: int, k: int)
    requires
        0 <= i <= k < n.kids().len(),
        n.kids()[k].kind == NodeKind::Ident,
        forall|j: int| 0 <= j < k ==> n.kids()[j].kind != NodeKind::Ident,
    ensures
        first_ident(n, i) == Some(k),
    decreases k - i,
{
    if i < k {
        lemma_first_ident_is(n, i + 1, k);
    }
}

/// A call of `figure` or `bibliography` is structural at any level.
proof fn lemma_figure_call_structural(b: Seq<u8>, n: SyntaxTree, top: bool)
    requires
        calls_function(b, n, seq![102u8, 105, 103, 117, 114, 101]) || calls_function(
            b,
            n,
            seq![98u8, 105, 98, 108, 105, 111, 103, 114, 97, 112, 104, 121],
        ),
    ensures
        is_structural_node(b, n, top),
{
    if calls_function(b, n, seq![102u8, 105, 103, 117, 114, 101]) {
        let k = choose|i: int|
            0 <= i < n.kids().len() && n.kids()[i].kind == NodeKind::Ident && (forall|j: int|
                0 <= j < i ==> n.kids()[j].kind != NodeKind::Ident) && n.kids()[i].end() <= b.len()
                && b.subrange(n.kids()[i].start as int, n.kids()[i].end()) == seq![102u8, 105, 103, 117, 114, 101];
        lemma_first_ident_is(n, 0, k);
        assert(figure_bytes() == seq![102u8, 105, 103, 117, 114, 101]);
    } else {
        let k = choose|i: int|
            0 <= i < n.kids().len() && n.kids()[i].kind == NodeKind::Ident && (forall|j: int|
                0 <= j < i ==> n.kids()[j].kind != NodeKind::Ident) && n.kids()[i].end() <= b.len()
                && b.subrange(n.kids()[i].start as int, n.kids()[i].end()) == seq![98u8, 105, 98, 108, 105, 111, 103, 114, 97, 112, 104, 121];
        lemma_first_ident_is(n, 0, k);
        assert(bibliography_bytes() == seq![98u8, 105, 98, 108, 105, 111, 103, 114, 97, 112, 104, 121]);
    }
}

/// The ranges below the first `j` children include those of each of them.
proof fn lemma_children_contain(b: Seq<u8>, n: SyntaxTree, j: int, level: int, k: int, r: Range<usize>)
    requires
        0 <= k < j <= n.kids().len(),
        structural_ranges_at(b, n.kids()[k], level).contains(r),
    ensures
        structural_ranges_of_children(b, n, j, level).contains(r),
    decreases j,
{
    let here = structural_ranges_at(b, n.kids()[j - 1], level);
    let rest = structural_ranges_of_children(b, n, j - 1, level);
    if k == j - 1 {
        let i = choose|i: int| 0 <= i < here.len() && here[i] == r;
        assert((here + rest)[i] == r);
    } else {
        lemma_children_contain(b, n, j - 1, level, k, r);
        let i = choose|i: int| 0 <= i < rest.len() && rest[i] == r;
        assert((here + rest)[here.len() + i] == r);
    }
}

/// The level of the node `d` steps below a node at `level`.
pub open spec fn level_below(level: int, d: int) -> int {
    if d == 0 {
        level
    } else if level == 0 && d == 1 {
        1
    } else {
        2
    }
}

/// A structural node anywhere below `n` is among its structural ranges.
proof fn lemma_structural_found(b: Seq<u8>, n: SyntaxTree, level: int, path: Seq<usize>)
    requires
        n.valid_path(path),
        0 <= level <= 2,
        is_structural_node(b, n.at(path), level_below(level, path.len() as int) == 1),
    ensures
        structural_ranges_at(b, n, level).contains(node_range(n.at(path))),
    decreases path.len(),
{
    let own = if is_structural_node(b, n, level == 1) { seq![node_range(n)] } else { Seq::empty() };
    let kids = structural_ranges_of_children(b, n, n.kids().len() as int, child_level(level));
    if path.len() == 0 {
        assert((own + kids)[0] == node_range(n));
    } else {
        let k = path[0] as int;
        assert(level_below(child_level(level), path.len() - 1) == level_below(level, path.len() as int));
        lemma_structural_found(b, n.kids()[k], child_level(level), path.drop_first());
        lemma_children_contain(b, n, n.kids().len() as int, child_level(level), k, node_range(n.at(path)));
        let i = choose|i: int| 0 <= i < kids.len() && kids[i] == node_range(n.at(path));
        assert((own + kids)[own.len() + i] == node_range(n.at(path)));
    }
}

/// Set and show rules, imports, includes, `context` expressions, headings
/// and labels anywhere in the document are among its structural ranges, and
/// so is every `let` binding at the top level (a direct child of the root).
pub proof fn law_rules_and_top_level_bindings_are_structural(b: Seq<u8>, root: SyntaxTree, path: Seq<usize>)
    requires
        root.valid_path(path),
        ({
            let k = root.at(path).kind;
            ||| k == NodeKind::SetRule
            ||| k == NodeKind::ShowRule
            ||| k == NodeKind::ModuleImport
            ||| k == NodeKind::ModuleInclude
            ||| k == NodeKind::Contextual
            ||| k == NodeKind::Heading
            ||| k == NodeKind::Label
            ||| k == NodeKind::LetBinding && path.len() == 1
        }),
    ensures
        structural_ranges(b, root).contains(node_range(root.at(path))),
{
    lemma_structural_found(b, root, 0, path);
}

/// Every call of `figure` or `bibliography` in the document, at any depth,
/// is among its structural ranges.
pub proof fn law_figure_calls_are_structural(b: Seq<u8>, root: SyntaxTree, path: Seq<usize>)
    requires
        root.valid_path(path),
        calls_function(b, root.at(path), seq![102u8, 105, 103, 117, 114, 101]) || calls_function(
            b,
            root.at(path),
            seq![98u8, 105, 98, 108, 105, 111, 103, 114, 97, 112, 104, 121],
        ),
    ensures
        structural_ranges(b, root).contains(node_range(root.at(path))),
{
    lemma_figure_call_structural(b, root.at(path), level_below(0, path.len() as int) == 1);
    lemma_structural_found(b, root, 0, path);
}

/// Whether `n` is structural by the list: a set or show rule, an import,
/// an include, a `context` expression, a heading or a label; a `let`
/// binding when `top`; or a call of `figure` or `bibliography`.
pub open spec fn listed_structural(b: Seq<u8>, n: SyntaxTree, top: bool) -> bool {
    ||| n.kind == NodeKind::SetRule
    ||| n.kind == NodeKind::ShowRule
    ||| n.kind == NodeKind::ModuleImport
    ||| n.kind == NodeKind::ModuleInclude
    ||| n.kind == NodeKind::Contextual
    ||| n.kind == NodeKind::Heading
    ||| n.kind == NodeKind::Label
    ||| top && n.kind == NodeKind::LetBinding
    ||| calls_function(b, n, seq![102u8, 105, 103, 117, 114, 101])
    ||| calls_function(b, n, seq![98u8, 105, 98, 108, 105, 111, 103, 114, 97, 112, 104, 121])
}

/// The first identifier child found from `i` on is one, with none before it
/// from `i` on.
proof fn lemma_first_ident_found(n: SyntaxTree, i: int)
    requires
        0 <= i,
    ensures
        match first_ident(n, i) {
            Some(k) => i <= k < n.kids().len() && n.kids()[k].kind == NodeKind::Ident && forall|j: int|
                i <= j < k ==> n.kids()[j].kind != NodeKind::Ident,
            None => true,
        },
    decreases n.kids().len() - i,
{
    if i < n.kids().len() && n.kids()[i].kind != NodeKind::Ident {
        lemma_first_ident_found(n, i + 1);
    }
}

/// A node the walk reports is structural by the list.
proof fn lemma_reported_is_listed(b: Seq<u8>, n: SyntaxTree, top: bool)
    requires
        is_structural_node(b, n, top),
    ensures
        listed_structural(b, n, top),
{
    lemma_first_ident_found(n, 0);
    if n.kind == NodeKind::FuncCall && !is_structural_node_kind(n.kind) {
        let k = first_ident(n, 0).unwrap();
        if node_text_is(b, n.kids()[k], figure_bytes()) {
            assert(calls_function(b, n, seq![102u8, 105, 103, 117, 114, 101]));
        } else {
            assert(calls_function(b, n, seq![98u8, 105, 98, 108, 105, 111, 103, 114, 97, 112, 104, 121]));
        }
    }
}

/// Whether some node below `n` (at `level`) on a valid path has the range
/// `r` and is structural by the list at its level.
pub open spec fn reported_below(b: Seq<u8>, n: SyntaxTree, level: int, r: Range<usize>) -> bool {
    exists|path: Seq<usize>|
        #![trigger n.at(path)]
        n.valid_path(path) && node_range(n.at(path)) == r && listed_structural(
            b,
            n.at(path),
            level_below(level, path.len() as int) == 1,
        )
}

/// Every range the walk reports belongs to a node structural by the list.
proof fn lemma_ranges_sound(b: Seq<u8>, n: SyntaxTree, level: int, r: Range<usize>)
    requires
        n.wf(),
        0 <= level <= 2,
        structural_ranges_at(b, n, level).contains(r),
    ensures
        reported_below(b, n, level, r),
    decreases n, n.kids().len() + 1,
{
    let own = if is_structural_node(b, n, level == 1) { seq![node_range(n)] } else { Seq::empty() };
    let kids = structural_ranges_of_children(b, n, n.kids().len() as int, child_level(level));
    let idx = choose|i: int| 0 <= i < (own + kids).len() && (own + kids)[i] == r;
    if idx < own.len() {
        lemma_reported_is_listed(b, n, level == 1);
        let path = Seq::<usize>::empty();
        assert(n.at(path) == n);
        assert(n.valid_path(path));
    } else {
        assert(kids[idx - own.len()] == r);
        lemma_children_sound(b, n, n.kids().len() as int, level, r);
    }
}

/// The same for the ranges below the first `j` children.
proof fn lemma_children_sound(b: Seq<u8>, n: SyntaxTree, j: int, level: int, r: Range<usize>)
    requires
        n.wf(),
        0 <= level <= 2,
        0 <= j <= n.kids().len(),
        structural_ranges_of_children(b, n, j, child_level(level)).contains(r),
    ensures
        reported_below(b, n, level, r),
    decreases n, j,
{
    let here = structural_ranges_at(b, n.kids()[j - 1], child_level(level));
    let rest = structural_ranges_of_children(b, n, j - 1, child_level(level));
    let idx = choose|i: int| 0 <= i < (here + rest).len() && (here + rest)[i] == r;
    if idx < here.len() {
        assert(here[idx] == r);
        assert(n.kids()[j - 1].wf());
        lemma_ranges_sound(b, n.kids()[j - 1], child_level(level), r);
        let sub = choose|path: Seq<usize>|
            #![trigger n.kids()[j - 1].at(path)]
            n.kids()[j - 1].valid_path(path) && node_range(n.kids()[j - 1].at(path)) == r && listed_structural(
                b,
                n.kids()[j - 1].at(path),
                level_below(child_level(level), path.len() as int) == 1,
            );
        let path = seq![(j - 1) as usize] + sub;
        assert(path.drop_first() =~= sub);
        assert(path.len() > 0 && path[0] == (j - 1) as usize);
        assert(((j - 1) as usize) as int == j - 1);
        assert(n.at(path) == n.kids()[j - 1].at(sub));
        assert(n.valid_path(path));
        assert(level_below(level, path.len() as int) == level_below(child_level(level), sub.len() as int));
    } else {
        assert(rest[idx - here.len()] == r);
        lemma_children_sound(b, n, j - 1, level, r);
    }
}

/// Every range among the document's structural ranges is the range of a
/// node of the document that is structural by the list: a rule, import,
/// include, `context` expression, heading, label, or `figure` or
/// `bibliography` call at any depth, or a `let` binding at the top level
/// (a direct child of the root) only.
pub proof fn law_structural_ranges_are_listed_nodes(b: Seq<u8>, root: SyntaxTree, r: Range<usize>)
    requires
        root.wf(),
        structural_ranges(b, root).contains(r),
    ensures
        exists|path: Seq<usize>|
            #![trigger root.at(path)]
            root.valid_path(path) && node_range(root.at(path)) == r && listed_structural(
                b,
                root.at(path),
                path.len() == 1,
            ),
{
    lemma_ranges_sound(b, root, 0, r);
    let path = choose|path: Seq<usize>|
        #![trigger root.at(path)]
        root.valid_path(path) && node_range(root.at(path)) == r && listed_structural(
            b,
            root.at(path),
            level_below(0, path.len() as int) == 1,
        );
    assert(root.at(path) == root.at(path));
}

fn first_ident_exec(n: &SyntaxTree) -> (r: Option<usize>)
    ensures
        match first_ident(*n, 0) {
            Some(i) => r == Some(i as usize) && 0 <= i < n.kids().len(),
            None => r is None,
        },
{
    let len = n.children.len();
    let mut i: usize = 0;
    while i < len
        invariant
            i <= len == n.kids().len(),
            first_ident(*n, i as int) == first_ident(*n, 0),
        decreases len - i,
    {
        if n.children[i].kind == NodeKind::Ident {
            return Some(i);
        }
        i = i + 1;
    }
    None
}

/// Whether `text[start..end]` is exactly the bytes of `name`.
fn text_span_is(text: &[u8], start: usize, end: usize, name: &[u8]) -> (r: bool)
    requires
        start <= end,
    ensures
        r == (end <= text@.len() && text@.subrange(start as int, end as int) == name@),
{
    if end > text.len() || end - start != name.len() {
        assert(end <= text@.len() ==> text@.subrange(start as int, end as int).len() != name@.len());
        return false;
    }
    let mut i: usize = 0;
    while i < name.len()
        invariant
            i <= name@.len() == end - start,
            end <= text@.len(),
            forall|k: int| 0 <= k < i ==> text@[start + k] == name@[k],
        decreases name@.len() - i,
    {
        if text[start + i] != name[i] {
            assert(text@.subrange(start as int, end as int)[i as int] != name@[i as int]);
            return false;
        }
        i = i + 1;
    }
    assert(text@.subrange(start as int, end as int) =~= name@);
    true
}

fn is_structural_node_exec(b: &[u8], n: &SyntaxTree, top: bool) -> (r: bool)
    requires
        n.wf(),
    ensures
        r == is_structural_node(b@, *n, top),
{
    let k = n.kind;
    if k == NodeKind::SetRule || k == NodeKind::ShowRule || k == NodeKind::ModuleImport || k
        == NodeKind::ModuleInclude || k == NodeKind::Contextual || k == NodeKind::Heading || k
        == NodeKind::Label || (top && k == NodeKind::LetBinding) {
        return true;
    }
    if k != NodeKind::FuncCall {
        return false;
    }
    match first_ident_exec(n) {
        Some(i) => {
            let c = &n.children[i];
            proof {
                assert(c.wf());
            }
            let bib: [u8; 12] = [98u8, 105, 98, 108, 105, 111, 103, 114, 97, 112, 104, 121];
            let fig: [u8; 6] = [102u8, 105, 103, 117, 114, 101];
            assert(bib@ =~= bibliography_bytes());
            assert(fig@ =~= figure_bytes());
            let e = c.end_offset();
            text_span_is(b, c.start, e, bib.as_slice()) || text_span_is(b, c.start, e, fig.as_slice())
        },
        None => false,
    }
}

fn collect_structural(b: &[u8], n: &SyntaxTree, level: u8, out: &mut Vec<Range<usize>>)
    requires
        n.wf(),
        level <= 2,
    ensures
        final(out)@ == old(out)@ + structural_ranges_at(b@, *n, level as int),
    decreases n,
{
    let ghost start = out@;
    if is_structural_node_exec(b, n, level == 1) {
        out.push(Range { start: n.start, end: n.end_offset() });
    }
    let ghost after_own = out@;
    let kid_level: u8 = if level == 0 {
        1
    } else {
        2
    };
    let mut j = n.children.len();
    while j > 0
        invariant
            j <= n.kids().len(),
            n.wf(),
            kid_level as int == child_level(level as int),
            out@ + structural_ranges_of_children(b@, *n, j as int, kid_level as int) == after_own
                + structural_ranges_of_children(b@, *n, n.kids().len() as int, kid_level as int),
        decreases j,
    {
        let c = &n.children[j - 1];
        proof {
            assert(c.wf());
        }
        let ghost before = out@;
        collect_structural(b, c, kid_level, out);
        proof {
            assert(before + structural_ranges_of_children(b@, *n, j as int, kid_level as int) =~= out@
                + structural_ranges_of_children(b@, *n, j - 1, kid_level as int));
        }
        j = j - 1;
    }
    proof {
        assert(structural_ranges_of_children(b@, *n, 0, kid_level as int) =~= Seq::<Range<usize>>::empty());
        let own = if is_structural_node(b@, *n, level == 1) { seq![node_range(*n)] } else { Seq::empty() };
        assert(after_own =~= start + own);
        assert(out@ =~= start + structural_ranges_at(b@, *n, level as int));
    }
}

/// The byte ranges of the structural nodes of the document, found by a
/// depth-first walk of the whole tree (a node, then its children from last
/// to first). Structural are set and show rules, imports, includes,
/// `context` expressions, `let` bindings at the top level (not those inside
/// a code or content block), and also headings, labels, and calls of
/// `bibliography` or `figure`, which shape the document's outline and
/// references.
pub fn extract_structural_ranges(source: &Document) -> (r: Vec<Range<usize>>)
    ensures
        r@ == structural_ranges(source@.bytes, source@.tree),
{
    source.check_wf();
    let b = source.text().as_bytes();
    let mut out: Vec<Range<usize>> = Vec::new();
    collect_structural(b, source.tree(), 0, &mut out);
    assert(out@ =~= structural_ranges(source@.bytes, source@.tree));
    out
}

// ---------------------------------------------------------------------------
// Hashing
// ---------------------------------------------------------------------------

/// The FNV-1a offset basis.
pub const FNV_OFFSET: u64 = 14_695_981_039_346_656_037u64;

/// The FNV-1a prime.
pub const FNV_PRIME: u64 = 1_099_511_628_211u64;

/// One FNV-1a step: xor in the byte, then multiply by the prime (mod 2^64).
pub open spec fn fnv_step(h: u64, byte: u8) -> u64 {
    (h ^ (byte as u64)).wrapping_mul(FNV_PRIME)
}

/// FNV-1a over the bytes `s`, starting from `h`.
pub open spec fn fnv_bytes(h: u64, s: Seq<u8>) -> u64
    decreases s.len(),
{
    if s.len() == 0 {
        h
    } else {
        fnv_step(fnv_bytes(h, s.drop_last()), s.last())
    }
}

/// Whether slicing the text at `r` succeeds.
pub open spec fn region_ok(b: Seq<u8>, r: Range<usize>) -> bool {
    &&& r.start <= r.end <= b.len()
    &&& vstd::utf8::is_char_boundary(b, r.start as int)
    &&& vstd::utf8::is_char_boundary(b, r.end as int)
}

/// FNV-1a over the regions `rs` of the text in turn, skipping regions that
/// are not valid slices of it.
pub open spec fn hash_regions(b: Seq<u8>, rs: Seq<Range<usize>>) -> u64
    decreases rs.len(),
{
    if rs.len() == 0 {
        FNV_OFFSET
    } else {
        let h = hash_regions(b, rs.drop_last());
        let r = rs.last();
        if region_ok(b, r) {
            fnv_bytes(h, b.subrange(r.start as int, r.end as int))
        } else {
            h
        }
    }
}

/// The bytes of the regions `rs` that slice the text, one after another.
pub open spec fn region_bytes(b: Seq<u8>, rs: Seq<Range<usize>>) -> Seq<u8>
    decreases rs.len(),
{
    if rs.len() == 0 {
        Seq::empty()
    } else {
        let r = rs.last();
        region_bytes(b, rs.drop_last()) + if region_ok(b, r) {
            b.subrange(r.start as int, r.end as int)
        } else {
            Seq::empty()
        }
    }
}

/// Hashing two byte runs in turn hashes them joined.
proof fn lemma_fnv_concat(h: u64, x: Seq<u8>, y: Seq<u8>)
    ensures
        fnv_bytes(h, x + y) == fnv_bytes(fnv_bytes(h, x), y),
    decreases y.len(),
{
    if y.len() == 0 {
        assert(x + y =~= x);
    } else {
        assert((x + y).drop_last() =~= x + y.drop_last());
        assert((x + y).last() == y.last());
        lemma_fnv_concat(h, x, y.drop_last());
    }
}

/// The region hash is FNV-1a over the joined bytes of the regions.
proof fn lemma_hash_regions_bytes(b: Seq<u8>, rs: Seq<Range<usize>>)
    ensures
        hash_regions(b, rs) == fnv_bytes(FNV_OFFSET, region_bytes(b, rs)),
    decreases rs.len(),
{
    if rs.len() > 0 {
        lemma_hash_regions_bytes(b, rs.drop_last());
        let r = rs.last();
        let piece = if region_ok(b, r) {
            b.subrange(r.start as int, r.end as int)
        } else {
            Seq::empty()
        };
        lemma_fnv_concat(FNV_OFFSET, region_bytes(b, rs.drop_last()), piece);
        if !region_ok(b, r) {
            assert(region_bytes(b, rs.drop_last()) + piece =~= region_bytes(b, rs.drop_last()));
        }
    } else {
        assert(fnv_bytes(FNV_OFFSET, Seq::<u8>::empty()) == FNV_OFFSET);
    }
}

/// The region hash depends only on the bytes of the regions joined: not on
/// where the regions are split, nor on the text outside them.
pub proof fn law_hash_depends_on_region_bytes(
    b1: Seq<u8>,
    rs1: Seq<Range<usize>>,
    b2: Seq<u8>,
    rs2: Seq<Range<usize>>,
)
    requires
        region_bytes(b1, rs1) == region_bytes(b2, rs2),
    ensures
        hash_regions(b1, rs1) == hash_regions(b2, rs2),
{
    lemma_hash_regions_bytes(b1, rs1);
    lemma_hash_regions_bytes(b2, rs2);
}

/// FNV-1a over the bytes of all the given regions of the text, in order;
/// regions that do not slice the text are skipped.
pub fn hash_text_regions(text: &str, ranges: &[Range<usize>]) -> (r: u64)
    ensures
        r == hash_regions(bytes_of(text), ranges@),
{
    let b = text.as_bytes();
    let mut hash = FNV_OFFSET;
    let mut k: usize = 0;
    while k < ranges.len()
        invariant
            k <= ranges@.len(),
            b@ == bytes_of(text),
            hash == hash_regions(bytes_of(text), ranges@.take(k as int)),
        decreases ranges@.len() - k,
    {
        let range = &ranges[k];
        proof {
            assert(ranges@.take(k + 1).drop_last() =~= ranges@.take(k as int));
        }
        if range.start <= range.end && range.end <= b.len() && text.is_char_boundary(range.start)
            && text.is_char_boundary(range.end) {
            let ghost h0 = hash;
            let mut i = range.start;
            while i < range.end
                invariant
                    range.start <= i <= range.end <= b@.len(),
                    hash == fnv_bytes(h0, b@.subrange(range.start as int, i as int)),
                decreases range.end - i,
            {
                proof {
                    assert(b@.subrange(range.start as int, i + 1).drop_last() =~= b@.subrange(
                        range.start as int,
                        i as int,
                    ));
                }
                hash = (hash ^ (b[i] as u64)).wrapping_mul(FNV_PRIME);
                i = i + 1;
            }
        }
        k = k + 1;
    }
    proof {
        assert(ranges@.take(k as int) =~= ranges@);
    }
    hash
}

// ---------------------------------------------------------------------------
// Compilation state
// ---------------------------------------------------------------------------

/// The recorded structural ranges and hash after an update on a source with
/// bytes `b` and tree `t`: kept when the hash over the recorded ranges is
/// unchanged, otherwise the source's structural ranges and their hash.
pub open spec fn metadata_after(b: Seq<u8>, t: SyntaxTree, ranges: Seq<Range<usize>>, hash: u64) -> (Seq<Range<usize>>, u64) {
    if hash_regions(b, ranges) != hash {
        (structural_ranges(b, t), hash_regions(b, structural_ranges(b, t)))
    } else {
        (ranges, hash)
    }
}

/// Updating the structural metadata twice on the same source changes nothing
/// the second time: the recorded hash then matches the recorded ranges.
pub proof fn law_structural_update_idempotent(b: Seq<u8>, t: SyntaxTree, ranges: Seq<Range<usize>>, hash: u64)
    ensures
        ({
            let (r1, h1) = metadata_after(b, t, ranges, hash);
            &&& hash_regions(b, r1) == h1
            &&& metadata_after(b, t, r1, h1) == (r1, h1)
        }),
{
}

/// How a compilation ended: with a document (the source text it compiled), or
/// with errors (the first message, if any).
pub enum CompileOutcome {
    Success { source: Document },
    Failure { first_message: Option<String> },
}

/// The bookkeeping of background compilation.
pub struct CompilerManager {
    /// Whether a compilation is currently in progress.
    pub is_compiling: bool,
    /// Whether the document needs recompilation due to source changes during a build.
    pub needs_recompile: bool,
    /// Current version of the document (increments on every successful compile).
    pub document_version: usize,
    /// Error message from the last compilation, if any.
    pub error_message: Option<String>,
    /// Byte ranges of the structural nodes of the last compiled source.
    pub structural_ranges: Vec<Range<usize>>,
    /// Hash of the structural regions of the last compiled source.
    pub structural_hash: u64,
}

impl CompilerManager {
    /// Idle, at version 0, with no structure recorded.
    pub fn new() -> (r: Self)
        ensures
            !r.is_compiling,
            !r.needs_recompile,
            r.document_version == 0,
            r.error_message is None,
            r.structural_ranges@ == Seq::<Range<usize>>::empty(),
            r.structural_hash == 0,
    {
        CompilerManager {
            is_compiling: false,
            needs_recompile: false,
            document_version: 0,
            error_message: None,
            structural_ranges: Vec::new(),
            structural_hash: 0,
        }
    }

    /// A request to compile: while a compilation runs it only marks that
    /// another is due and returns `false`; otherwise it starts one (returns
    /// `true`) and clears the mark.
    pub fn begin_compile(&mut self) -> (start: bool)
        ensures
            start == !old(self).is_compiling,
            final(self).is_compiling,
            final(self).needs_recompile == old(self).is_compiling,
            final(self).document_version == old(self).document_version,
            final(self).error_message == old(self).error_message,
            final(self).structural_ranges == old(self).structural_ranges,
            final(self).structural_hash == old(self).structural_hash,
    {
        if self.is_compiling {
            self.needs_recompile = true;
            return false;
        }
        self.is_compiling = true;
        self.needs_recompile = false;
        true
    }

    /// Recomputes the structural hash of `source` over the recorded ranges;
    /// when it differs from the recorded hash, re-extracts the ranges and
    /// records them with their hash, and returns `true`.
    pub fn update_structural_metadata(&mut self, source: &Document) -> (changed: bool)
        ensures
            changed == (hash_regions(source@.bytes, old(self).structural_ranges@)
                != old(self).structural_hash),
            changed ==> final(self).structural_ranges@ == structural_ranges(source@.bytes, source@.tree),
            changed ==> final(self).structural_hash == hash_regions(
                source@.bytes,
                structural_ranges(source@.bytes, source@.tree),
            ),
            !changed ==> final(self).structural_ranges == old(self).structural_ranges,
            !changed ==> final(self).structural_hash == old(self).structural_hash,
            (final(self).structural_ranges@, final(self).structural_hash) == metadata_after(
                source@.bytes,
                source@.tree,
                old(self).structural_ranges@,
                old(self).structural_hash,
            ),
            final(self).is_compiling == old(self).is_compiling,
            final(self).needs_recompile == old(self).needs_recompile,
            final(self).document_version == old(self).document_version,
            final(self).error_message == old(self).error_message,
    {
        let text = source.text();
        let new_hash = hash_text_regions(text, self.structural_ranges.as_slice());
        if new_hash != self.structural_hash {
            self.structural_ranges = extract_structural_ranges(source);
            self.structural_hash = hash_text_regions(text, self.structural_ranges.as_slice());
            return true;
        }
        false
    }

    /// Records the end of a compilation: it is no longer running; a success
    /// clears the error, bumps the version (wrapping at the top) and updates
    /// the structural metadata; a failure keeps its first message, if any.
    /// Returns whether another compilation is due.
    pub fn finish_compile(&mut self, outcome: CompileOutcome) -> (again: bool)
        ensures
            again == old(self).needs_recompile,
            !final(self).is_compiling,
            final(self).needs_recompile == old(self).needs_recompile,
            match outcome {
                CompileOutcome::Success { source } => {
                    &&& final(self).error_message is None
                    &&& final(self).document_version == old(self).document_version.wrapping_add(1)
                    &&& (final(self).structural_ranges@, final(self).structural_hash) == metadata_after(
                        source@.bytes,
                        source@.tree,
                        old(self).structural_ranges@,
                        old(self).structural_hash,
                    )
                },
                CompileOutcome::Failure { first_message } => {
                    &&& final(self).document_version == old(self).document_version
                    &&& final(self).error_message == (if first_message is Some {
                        first_message
                    } else {
                        old(self).error_message
                    })
                    &&& final(self).structural_hash == old(self).structural_hash
                    &&& final(self).structural_ranges == old(self).structural_ranges
                },
            },
    {
        self.is_compiling = false;
        match outcome {
            CompileOutcome::Success { source } => {
                self.error_message = None;
                self.document_version = self.document_version.wrapping_add(1);
                self.update_structural_metadata(&source);
            },
            CompileOutcome::Failure { first_message } => {
                if first_message.is_some() {
                    self.error_message = first_message;
                }
            },
        }
        self.needs_recompile
    }
}

} // verus!
