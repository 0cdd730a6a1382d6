//! Which syntactic context the caret is in: inside an equation, inside code,
//! or in markup.

use crate::editor::state::EditorContext;
use crate::syntax::kind::NodeKind;
use crate::syntax::nav::{leaf_at, lemma_leaf_at_valid, path_take, Side};
use crate::syntax::parse::Document;
use crate::syntax::tree::{lemma_valid_prefix, SyntaxTree};
use crate::text::text_len;
use vstd::prelude::*;

verus! {

/// The context given by the node at the first `k` steps of `p` and its
/// ancestors: the nearest equation makes it math, the nearest code or code
/// block makes it code; with neither, it is markup.
pub open spec fn context_from(t: SyntaxTree, p: Seq<usize>, k: int) -> EditorContext
    decreases k + 1,
{
    if k < 0 {
        EditorContext::Markup
    } else {
        let n = t.at(p.take(k));
        if n.kind == NodeKind::Equation {
            EditorContext::Math
        } else if n.kind == NodeKind::Code || n.kind == NodeKind::CodeBlock {
            EditorContext::Code
        } else {
            context_from(t, p, k - 1)
        }
    }
}

/// The context of the caret at `cursor` (clamped to the text): that of the
/// leaf just before it; `None` when there is no such leaf.
pub open spec fn caret_context(t: SyntaxTree, len: int, cursor: int) -> Option<EditorContext> {
    match leaf_at(t, if cursor < len { cursor } else { len }, Side::Before) {
        Some(p) => Some(context_from(t, p, p.len() as int)),
        None => None,
    }
}

/// The syntactic context of the caret at `cursor`: math inside an equation,
/// code inside a code block, markup elsewhere (the nearest enclosing one
/// decides); `None` when no leaf lies before the caret.
pub fn cursor_context(source: &Document, cursor: usize) -> (r: Option<EditorContext>)
    ensures
        r == caret_context(source@.tree, source@.bytes.len() as int, cursor as int),
{
    source.check_wf();
    let t = source.tree();
    let len = text_len(source.text());
    let at = if cursor < len {
        cursor
    } else {
        len
    };
    let path = match t.leaf_at(at, Side::Before) {
        Some(p) => p,
        None => {
            assert(leaf_at(*t, at as int, Side::Before) is None);
            assert(caret_context(source@.tree, source@.bytes.len() as int, cursor as int) is None);
            return None;
        },
    };
    proof {
        lemma_leaf_at_valid(*t, at as int, Side::Before);
        assert(path@.take(path@.len() as int) =~= path@);
    }
    let mut k: usize = path.len();
    loop
        invariant
            *t == source@.tree,
            t.valid_path(path@),
            k <= path@.len(),
            context_from(*t, path@, k as int) == context_from(*t, path@, path@.len() as int),
            caret_context(source@.tree, source@.bytes.len() as int, cursor as int) == Some(
                context_from(*t, path@, path@.len() as int),
            ),
        decreases k,
    {
        let prefix = path_take(&path, k);
        proof {
            lemma_valid_prefix(*t, path@, k as int);
        }
        let n = t.node_at(&prefix);
        assert(context_from(*t, path@, k as int) == if n.kind == NodeKind::Equation {
            EditorContext::Math
        } else if n.kind == NodeKind::Code || n.kind == NodeKind::CodeBlock {
            EditorContext::Code
        } else {
            context_from(*t, path@, k - 1)
        });
        if n.kind == NodeKind::Equation {
            return Some(EditorContext::Math);
        }
        if n.kind == NodeKind::Code || n.kind == NodeKind::CodeBlock {
            return Some(EditorContext::Code);
        }
        if k == 0 {
            return Some(EditorContext::Markup);
        }
        k = k - 1;
    }
}

} // verus!
