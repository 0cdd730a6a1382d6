//! The large synthetic document the input-latency benchmark types into:
//! a title followed by numbered chapters of prose, equations and lists, as
//! many as it takes to reach a target size.

use crate::text::{lemma_encode_concat, lemma_encode_len, text_len};
use vstd::prelude::*;
use vstd::string::StringExecFns;
use vstd::utf8::encode_utf8;

verus! {

/// The decimal digits of `n`.
pub open spec fn decimal_chars(n: nat) -> Seq<char>
    decreases n,
{
    if n < 10 {
        seq![(48 + n) as char]
    } else {
        decimal_chars(n / 10).push((48 + n % 10) as char)
    }
}

/// The document's title line.
pub open spec fn document_title() -> Seq<char> {
    "= Premium Monolithic Benchmark Document\n\n"@
}

/// The heading of chapter `k`.
pub open spec fn chapter_heading(k: nat) -> Seq<char> {
    "== Chapter "@ + decimal_chars(k) + ": Mathematical Mechanics & Algebraic Topology\n\n"@
}

/// One block of a chapter: a paragraph with inline math, two equations and a
/// list of definitions.
pub open spec fn chapter_block() -> Seq<char> {
    "Consider the fundamental group $\\pi_1(X, x_0)$ which maps homotopy classes of loops. We express the boundary operators as:\n\n"@
        + "$ d / (d x) integral_a^x f(t) d t = f(x) $\n\n"@ + "$ A = mat(1, 2; 3, 4) $\n\n"@
        + "We also introduce lists of topological definitions:\n"@
        + "- *Homotopy Equivalence*: A map $f: X \\to Y$ which admits a homotopy inverse.\n"@
        + "- *Symmetric Group*: The group of permutations on a finite set of symbols.\n\n"@
}

/// `n` blocks one after another.
pub open spec fn blocks(n: nat) -> Seq<char>
    decreases n,
{
    if n == 0 {
        Seq::empty()
    } else {
        blocks((n - 1) as nat) + chapter_block()
    }
}

/// Chapter `k`: its heading, twelve blocks and a page break.
pub open spec fn chapter(k: nat) -> Seq<char> {
    chapter_heading(k) + blocks(12) + "#pagebreak()\n"@
}

pub proof fn lemma_decimal_nonempty(n: nat)
    ensures
        decimal_chars(n).len() >= 1,
    decreases n,
{
    if n >= 10 {
        lemma_decimal_nonempty(n / 10);
    }
}

/// Each chapter adds at least one byte.
pub proof fn lemma_chapter_grows(doc: Seq<char>, k: nat)
    ensures
        encode_utf8(doc + chapter(k)).len() >= encode_utf8(doc).len() + 1,
{
    lemma_decimal_nonempty(k);
    lemma_encode_concat(doc, chapter(k));
    lemma_encode_len(chapter(k));
}

/// The document grown from `doc` by chapters `k`, `k + 1`, ... until its
/// UTF-8 length reaches `target` bytes.
pub open spec fn grown(doc: Seq<char>, k: nat, target: int) -> Seq<char>
    decreases (if encode_utf8(doc).len() < target { target - encode_utf8(doc).len() } else { 0 }),
{
    if encode_utf8(doc).len() >= target {
        doc
    } else {
        proof {
            lemma_chapter_grows(doc, k);
        }
        grown(doc + chapter(k), k + 1, target)
    }
}

fn append_decimal(out: &mut String, n: usize)
    ensures
        final(out)@ == old(out)@ + decimal_chars(n as nat),
    decreases n,
{
    if n >= 10 {
        append_decimal(out, n / 10);
    }
    let d = n % 10;
    let s = if d == 0 {
        "0"
    } else if d == 1 {
        "1"
    } else if d == 2 {
        "2"
    } else if d == 3 {
        "3"
    } else if d == 4 {
        "4"
    } else if d == 5 {
        "5"
    } else if d == 6 {
        "6"
    } else if d == 7 {
        "7"
    } else if d == 8 {
        "8"
    } else {
        "9"
    };
    proof {
        reveal_strlit("0");
        reveal_strlit("1");
        reveal_strlit("2");
        reveal_strlit("3");
        reveal_strlit("4");
        reveal_strlit("5");
        reveal_strlit("6");
        reveal_strlit("7");
        reveal_strlit("8");
        reveal_strlit("9");
        assert(s@ =~= seq![(48 + n % 10) as char]);
    }
    out.append(s);
    proof {
        if n >= 10 {
            assert(final(out)@ =~= old(out)@ + decimal_chars(n as nat));
        } else {
            assert(final(out)@ =~= old(out)@ + decimal_chars(n as nat));
        }
    }
}

fn append_chapter(doc: &mut String, k: usize)
    ensures
        final(doc)@ == old(doc)@ + chapter(k as nat),
{
    doc.append("== Chapter ");
    append_decimal(doc, k);
    doc.append(": Mathematical Mechanics & Algebraic Topology\n\n");
    let ghost head = doc@;
    assert(head =~= old(doc)@ + chapter_heading(k as nat));
    let mut i: usize = 0;
    while i < 12
        invariant
            i <= 12,
            doc@ == head + blocks(i as nat),
        decreases 12 - i,
    {
        doc.append(
            "Consider the fundamental group $\\pi_1(X, x_0)$ which maps homotopy classes of loops. We express the boundary operators as:\n\n",
        );
        doc.append("$ d / (d x) integral_a^x f(t) d t = f(x) $\n\n");
        doc.append("$ A = mat(1, 2; 3, 4) $\n\n");
        doc.append("We also introduce lists of topological definitions:\n");
        doc.append("- *Homotopy Equivalence*: A map $f: X \\to Y$ which admits a homotopy inverse.\n");
        doc.append("- *Symmetric Group*: The group of permutations on a finite set of symbols.\n\n");
        i = i + 1;
        assert(doc@ =~= head + blocks(i as nat));
    }
    doc.append("#pagebreak()\n");
    assert(doc@ =~= old(doc)@ + chapter(k as nat));
}

/// A document of at least `target_size_bytes` bytes: the title, then
/// chapters 1, 2, ... until the text is that long.
pub fn generate_complex_document(target_size_bytes: usize) -> (doc: String)
    ensures
        doc@ == grown(document_title(), 1, target_size_bytes as int),
{
    let mut doc = String::new();
    doc.append("= Premium Monolithic Benchmark Document\n\n");
    proof {
        reveal_strlit("= Premium Monolithic Benchmark Document\n\n");
        assert(doc@ =~= document_title());
        lemma_encode_len(doc@);
    }
    let mut k: usize = 1;
    while text_len(doc.as_str()) < target_size_bytes
        invariant
            1 <= k <= encode_utf8(doc@).len(),
            grown(doc@, k as nat, target_size_bytes as int) == grown(
                document_title(),
                1,
                target_size_bytes as int,
            ),
        decreases
            (if encode_utf8(doc@).len() < target_size_bytes {
                target_size_bytes - encode_utf8(doc@).len()
            } else {
                0
            }),
    {
        proof {
            lemma_chapter_grows(doc@, k as nat);
        }
        append_chapter(&mut doc, k);
        k = k + 1;
    }
    doc
}

/// The grown document reaches the target size, and keeps what it grew from
/// at its start.
pub proof fn law_document_reaches_target(doc: Seq<char>, k: nat, target: int)
    ensures
        encode_utf8(grown(doc, k, target)).len() >= target,
        grown(doc, k, target).len() >= doc.len(),
        grown(doc, k, target).subrange(0, doc.len() as int) == doc,
    decreases (if encode_utf8(doc).len() < target { target - encode_utf8(doc).len() } else { 0 }),
{
    if encode_utf8(doc).len() < target {
        lemma_chapter_grows(doc, k);
        let next = doc + chapter(k);
        law_document_reaches_target(next, k + 1, target);
        assert(grown(doc, k, target) == grown(next, k + 1, target));
        assert(grown(next, k + 1, target).subrange(0, doc.len() as int) =~= grown(
            next,
            k + 1,
            target,
        ).subrange(0, next.len() as int).subrange(0, doc.len() as int));
        assert(next.subrange(0, doc.len() as int) =~= doc);
    } else {
        assert(doc.subrange(0, doc.len() as int) =~= doc);
    }
}

} // verus!
