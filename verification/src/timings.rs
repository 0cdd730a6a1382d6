//! Statistics of a series of timings (in nanoseconds), as the input-latency
//! benchmark reports them: the timings in order, and their minimum, maximum,
//! median and mean.

use vstd::prelude::*;
use vstd::relations::{sorted_by, total_ordering};

verus! {

/// The order of timings: smaller first.
pub open spec fn at_most(a: u64, b: u64) -> bool {
    a <= b
}

/// The timings sorted, smallest first.
pub open spec fn sorted_timings(s: Seq<u64>) -> Seq<u64> {
    s.sort_by(|a: u64, b: u64| at_most(a, b))
}

/// The sum of the timings.
pub open spec fn timing_sum(s: Seq<u64>) -> int
    decreases s.len(),
{
    if s.len() == 0 {
        0
    } else {
        timing_sum(s.drop_last()) + s.last()
    }
}

/// Minimum, maximum, median (the middle of the sorted timings, the upper
/// one of the two middles for an even count) and mean (rounded down) of the
/// timings; all zero when there are none.
pub open spec fn timing_stats(s: Seq<u64>) -> (u64, u64, u64, u64) {
    if s.len() == 0 {
        (0, 0, 0, 0)
    } else {
        let t = sorted_timings(s);
        (t[0], t[s.len() - 1], t[(s.len() / 2) as int], (timing_sum(s) / (s.len() as int)) as u64)
    }
}

/// Whether the timings are in order, smallest first.
pub open spec fn ascending(s: Seq<u64>) -> bool {
    forall|i: int, j: int| 0 <= i < j < s.len() ==> s[i] <= s[j]
}

proof fn lemma_at_most_total()
    ensures
        total_ordering(|a: u64, b: u64| at_most(a, b)),
{
}

/// A sorted rearrangement of the timings is the one `sorted_timings` names.
proof fn lemma_sorted_is_sorted_timings(s: Seq<u64>, t: Seq<u64>)
    requires
        ascending(t),
        t.to_multiset() == s.to_multiset(),
    ensures
        t == sorted_timings(s),
{
    assert(sorted_by(t, |a: u64, b: u64| at_most(a, b)));
    lemma_at_most_total();
    s.lemma_sort_by_ensures(|a: u64, b: u64| at_most(a, b));
    vstd::seq_lib::lemma_sorted_unique(t, sorted_timings(s), |a: u64, b: u64| at_most(a, b));
}

/// Sorting keeps the number of timings.
proof fn lemma_sorted_len(s: Seq<u64>)
    ensures
        sorted_timings(s).len() == s.len(),
{
    broadcast use vstd::seq_lib::group_to_multiset_ensures;

    lemma_at_most_total();
    s.lemma_sort_by_ensures(|a: u64, b: u64| at_most(a, b));
    assert(sorted_timings(s).to_multiset().len() == s.to_multiset().len());
}

/// The timings sorted, smallest first.
pub fn sort_timings(nanos: &Vec<u64>) -> (r: Vec<u64>)
    ensures
        r@ == sorted_timings(nanos@),
{
    broadcast use vstd::seq_lib::group_to_multiset_ensures;

    let mut out: Vec<u64> = Vec::new();
    let n = nanos.len();
    let mut i: usize = 0;
    while i < n
        invariant
            n == nanos@.len(),
            i <= n,
            ascending(out@),
            out@.to_multiset() == nanos@.take(i as int).to_multiset(),
        decreases n - i,
    {
        let x = nanos[i];
        let mut pos: usize = 0;
        while pos < out.len() && out[pos] <= x
            invariant
                pos <= out@.len(),
                forall|k: int| 0 <= k < pos ==> out@[k] <= x,
            decreases out@.len() - pos,
        {
            pos = pos + 1;
        }
        let ghost before = out@;
        proof {
            assert(forall|k: int| pos <= k < before.len() ==> x < #[trigger] before[k]) by {
                assert forall|k: int| pos <= k < before.len() implies x < #[trigger] before[k] by {
                    assert(before[pos as int] <= before[k]);
                }
            }
        }
        out.insert(pos, x);
        proof {
            assert(out@ == before.insert(pos as int, x));
            assert(nanos@.take(i + 1) =~= nanos@.take(i as int).push(x));
            vstd::seq_lib::to_multiset_insert(before, pos as int, x);
            vstd::seq_lib::to_multiset_build(nanos@.take(i as int), x);
            assert forall|a: int, b: int| 0 <= a < b < out@.len() implies out@[a] <= out@[b] by {
                if b < pos {
                    assert(before[a] <= before[b]);
                } else if a > pos {
                    assert(before[a - 1] <= before[b - 1]);
                } else if a == pos {
                    assert(x < before[b - 1]);
                } else {
                    assert(before[a] <= x);
                }
            }
        }
        i = i + 1;
    }
    proof {
        assert(nanos@.take(n as int) =~= nanos@);
        lemma_sorted_is_sorted_timings(nanos@, out@);
    }
    out
}

/// The minimum, maximum, median and mean of the timings (see
/// [`timing_stats`]).
pub fn duration_stats(nanos: &Vec<u64>) -> (r: (u64, u64, u64, u64))
    ensures
        r == timing_stats(nanos@),
{
    let n = nanos.len();
    if n == 0 {
        return (0, 0, 0, 0);
    }
    let sorted = sort_timings(nanos);
    proof {
        lemma_sorted_len(nanos@);
    }
    let mut total: u128 = 0;
    let mut i: usize = 0;
    while i < n
        invariant
            n == nanos@.len(),
            i <= n,
            total == timing_sum(nanos@.take(i as int)),
            total <= i * 0xffff_ffff_ffff_ffffu64,
        decreases n - i,
    {
        proof {
            assert(nanos@.take(i + 1).drop_last() =~= nanos@.take(i as int));
        }
        total = total + nanos[i] as u128;
        i = i + 1;
    }
    proof {
        assert(nanos@.take(n as int) =~= nanos@);
        let m = 0xffff_ffff_ffff_ffffu64 as int;
        vstd::arithmetic::div_mod::lemma_div_is_ordered(total as int, n * m, n as int);
        vstd::arithmetic::div_mod::lemma_div_multiples_vanish(m, n as int);
        assert(n * m == m * n) by (nonlinear_arith);
    }
    let mean = (total / (n as u128)) as u64;
    (sorted[0], sorted[n - 1], sorted[n / 2], mean)
}

} // verus!
