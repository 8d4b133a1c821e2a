use vstd::prelude::*;
use vstd::relations::{sorted_by, total_ordering};

verus! {

/// The order in which round-trip durations are ranked.
pub open spec fn leq(a: u64, b: u64) -> bool {
    a <= b
}

/// Whether `s` is in ascending order.
pub open spec fn is_ascending(s: Seq<u64>) -> bool {
    forall|i: int, j: int| 0 <= i < j < s.len() ==> s[i] <= s[j]
}

/// The values of `s` in ascending order.
pub open spec fn ascending(s: Seq<u64>) -> Seq<u64> {
    s.sort_by(|a: u64, b: u64| leq(a, b))
}

/// The sum of all values of `s`.
pub open spec fn seq_sum(s: Seq<u64>) -> nat
    decreases s.len(),
{
    if s.len() == 0 {
        0
    } else {
        seq_sum(s.drop_last()) + s.last() as nat
    }
}

/// The nearest-rank index of the `tenths`-tenths quantile among `n`
/// ascending values: `floor(n * tenths / 10)`. The median is the one of
/// five tenths, which for an even count is the upper of the two middle
/// values.
pub open spec fn rank(n: nat, tenths: nat) -> nat {
    n * tenths / 10
}

/// Aggregate figures over the measured round-trip durations, in nanoseconds.
/// Mean, variance and standard deviation follow from `count`, `sum` and the
/// durations themselves.
#[derive(Clone, Copy, Debug, PartialEq, Eq, Structural)]
pub struct Summary {
    pub count: u64,
    pub sum: u128,
    pub min: u64,
    pub max: u64,
    pub median: u64,
    pub q10: u64,
    pub q90: u64,
}

/// The summary of the non-empty ascending sequence `s`.
pub open spec fn summary_of(s: Seq<u64>) -> Summary
    recommends
        s.len() > 0,
{
    Summary {
        count: s.len() as u64,
        sum: seq_sum(s) as u128,
        min: s[0],
        max: s[s.len() - 1],
        median: s[rank(s.len(), 5) as int],
        q10: s[rank(s.len(), 1) as int],
        q90: s[rank(s.len(), 9) as int],
    }
}

/// Every quantile index of a non-empty sample lies in `[0, n - 1]`.
pub proof fn lemma_rank_in_bounds(n: nat, tenths: nat)
    requires
        n > 0,
        tenths <= 9,
    ensures
        rank(n, tenths) < n,
{
    assert(n * tenths <= n * 9) by (nonlinear_arith)
        requires
            tenths <= 9,
    ;
}

pub proof fn lemma_leq_total()
    ensures
        total_ordering(|a: u64, b: u64| leq(a, b)),
{
}

/// The ascending arrangement of a sequence is the one ascending sequence
/// with the same values.
pub proof fn lemma_ascending_unique(s: Seq<u64>, t: Seq<u64>)
    requires
        is_ascending(t),
        t.to_multiset() == s.to_multiset(),
    ensures
        t == ascending(s),
{
    let f = |a: u64, b: u64| leq(a, b);
    lemma_leq_total();
    s.lemma_sort_by_ensures(f);
    assert(sorted_by(t, f));
    vstd::seq_lib::lemma_sorted_unique(t, ascending(s), f);
}

/// Relies on `slice::sort_unstable`: the slice ends up in ascending order,
/// holding the same values.
#[verifier::external_body]
fn sort_unstable(v: &mut Vec<u64>)
    ensures
        is_ascending(final(v)@),
        final(v)@.to_multiset() == old(v)@.to_multiset(),
{
    v.sort_unstable();
}

/// The values of `v` in ascending order.
pub fn sorted(v: Vec<u64>) -> (r: Vec<u64>)
    ensures
        r@ == ascending(v@),
        is_ascending(r@),
        r@.to_multiset() == v@.to_multiset(),
{
    let mut r = v;
    sort_unstable(&mut r);
    proof {
        lemma_ascending_unique(v@, r@);
    }
    r
}

/// Summarises ascending durations; an empty sample has no summary.
pub fn summarize(sorted: &Vec<u64>) -> (r: Option<Summary>)
    requires
        is_ascending(sorted@),
    ensures
        sorted@.len() == 0 <==> r is None,
        r matches Some(x) ==> x == summary_of(sorted@),
        r matches Some(x) ==> forall|i: int| 0 <= i < sorted@.len() ==> x.min <= #[trigger] sorted@[i] <= x.max,
{
    let n = sorted.len();
    if n == 0 {
        return None;
    }
    let mut sum: u128 = 0;
    let mut i: usize = 0;
    while i < n
        invariant
            n == sorted@.len(),
            i <= n,
            sum as nat == seq_sum(sorted@.subrange(0, i as int)),
            sum as nat <= i as nat * 18446744073709551615,
        decreases n - i,
    {
        let x = sorted[i];
        proof {
            assert(sorted@.subrange(0, i + 1).drop_last() =~= sorted@.subrange(0, i as int));
            assert((i as nat + 1) * 18446744073709551615 <= 18446744073709551616 * 18446744073709551615)
                by (nonlinear_arith)
                requires
                    i < 18446744073709551616nat,
            ;
            assert(sum as nat + x as nat <= (i as nat + 1) * 18446744073709551615) by (nonlinear_arith)
                requires
                    sum as nat <= i as nat * 18446744073709551615,
                    x as nat <= 18446744073709551615,
            ;
        }
        sum = sum + x as u128;
        i = i + 1;
    }
    assert(sorted@.subrange(0, n as int) =~= sorted@);
    proof {
        lemma_rank_in_bounds(n as nat, 1);
        lemma_rank_in_bounds(n as nat, 5);
        lemma_rank_in_bounds(n as nat, 9);
    }
    let q90_index = ((n as u128) * 9 / 10) as usize;
    Some(
        Summary {
            count: n as u64,
            sum,
            min: sorted[0],
            max: sorted[n - 1],
            median: sorted[n / 2],
            q10: sorted[n / 10],
            q90: sorted[q90_index],
        },
    )
}

} // verus!
