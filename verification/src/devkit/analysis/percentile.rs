//! Percentile statistics over fee samples.

use vstd::prelude::*;

verus! {

/// Summary statistics for a fee distribution, over integers.
///
/// The arithmetic mean is `total / sample_count`, held here as its exact
/// numerator and denominator.
#[derive(Debug, Clone, Copy)]
pub struct FeeDistributionSummary {
    pub min: u64,
    pub max: u64,
    /// Sum of all samples.
    pub total: u128,
    /// Number of samples.
    pub sample_count: usize,
    pub median: u64,
    /// Percentiles p10, p20, ..., p90, p99 (index 0 = p10, index 9 = p99).
    pub percentiles: [u64; 10],
}

/// Computes percentile statistics over fee samples.
pub struct Percentile;

/// Position (0-based) that the nearest-rank method picks in a slice of `n` samples
/// for percentile `p`: rank `ceil(p * n / 100)`, taken 1-based and clamped into the slice.
pub open spec fn nearest_rank_pos(n: nat, p: nat) -> int {
    let rank = (p * n + 99) / 100;
    let pos = if rank == 0 { 0 } else { rank - 1 };
    if pos < n { pos } else { n - 1 }
}

/// The nearest-rank percentile `p` of `s` (0 for an empty sequence).
pub open spec fn nearest_rank_value(s: Seq<u64>, p: nat) -> u64 {
    if s.len() == 0 {
        0
    } else {
        s[nearest_rank_pos(s.len(), p)]
    }
}

/// The linear-interpolation percentile `p` of `s`: with `t = p * (len - 1)`,
/// the samples at `floor(t / 100)` and `ceil(t / 100)` are mixed in proportion
/// `t % 100`, rounding down.
pub open spec fn interpolated_value(s: Seq<u64>, p: nat) -> int {
    if s.len() == 0 {
        0
    } else if s.len() == 1 {
        s[0] as int
    } else {
        let t = p * (s.len() - 1) as nat;
        let lo = (t / 100) as int;
        let r = t % 100;
        let hi = if r == 0 { lo } else { lo + 1 };
        ((100 - r) * s[lo] + r * s[hi]) / 100
    }
}

/// Sum of a sequence of samples.
pub open spec fn seq_total(s: Seq<u64>) -> int
    decreases s.len(),
{
    if s.len() == 0 {
        0
    } else {
        seq_total(s.drop_last()) + s.last()
    }
}

/// Samples ordered from smallest to largest.
pub open spec fn is_sorted(s: Seq<u64>) -> bool {
    forall|i: int, j: int| 0 <= i <= j < s.len() ==> s[i] <= s[j]
}

/// Nearest-rank percentiles of a sorted sequence never decrease as `p` grows.
pub proof fn lemma_nearest_rank_monotone(s: Seq<u64>, p1: nat, p2: nat)
    requires
        is_sorted(s),
        p1 <= p2,
    ensures
        nearest_rank_value(s, p1) <= nearest_rank_value(s, p2),
{
    if s.len() > 0 {
        assert(p1 * s.len() <= p2 * s.len()) by (nonlinear_arith)
            requires
                p1 <= p2,
        ;
        assert(nearest_rank_pos(s.len(), p1) <= nearest_rank_pos(s.len(), p2));
    }
}

/// Every nearest-rank percentile of a non-empty sequence is one of its samples,
/// and percentile 100 of a sorted sequence is its largest sample.
pub proof fn lemma_nearest_rank_in_range(s: Seq<u64>, p: nat)
    requires
        s.len() > 0,
    ensures
        0 <= nearest_rank_pos(s.len(), p) < s.len(),
        s.contains(nearest_rank_value(s, p)),
        is_sorted(s) ==> s[0] <= nearest_rank_value(s, p) <= s.last(),
        p >= 100 ==> nearest_rank_value(s, p) == s.last(),
{
    let pos = nearest_rank_pos(s.len(), p);
    assert(s[pos] == nearest_rank_value(s, p));
    if p >= 100 {
        assert(p * s.len() >= 100 * s.len()) by (nonlinear_arith)
            requires
                p >= 100,
        ;
    }
}

/// A sequence of identical samples has that sample as every percentile,
/// by either method.
pub proof fn lemma_uniform_percentiles(s: Seq<u64>, v: u64, p: nat)
    requires
        s.len() > 0,
        forall|i: int| 0 <= i < s.len() ==> s[i] == v,
        s.len() <= 1 || p <= 100,
    ensures
        nearest_rank_value(s, p) == v,
        interpolated_value(s, p) == v,
{
    lemma_nearest_rank_in_range(s, p);
    lemma_interpolation_between_neighbours(s, p);
    if s.len() > 1 {
        let t = p * (s.len() - 1) as nat;
        let r = t % 100;
        assert((100 - r) * v + r * v == 100 * v) by (nonlinear_arith);
    }
}

/// The linear-interpolation percentile of a sorted sequence lies between the two
/// samples it mixes; percentile 0 is the smallest sample and percentile 100 the largest.
pub proof fn lemma_interpolation_between_neighbours(s: Seq<u64>, p: nat)
    requires
        s.len() > 0,
        s.len() <= 1 || p <= 100,
    ensures
        s.len() > 1 ==> ({
            let t = p * (s.len() - 1) as nat;
            let lo = (t / 100) as int;
            let hi = if t % 100 == 0 { lo } else { lo + 1 };
            &&& 0 <= lo <= hi < s.len()
            &&& is_sorted(s) ==> s[lo] <= interpolated_value(s, p) <= s[hi]
        }),
        p == 0 ==> interpolated_value(s, p) == s[0],
        p == 100 ==> interpolated_value(s, p) == s.last(),
{
    if s.len() > 1 {
        let n = s.len();
        let t = p * (n - 1) as nat;
        let lo = (t / 100) as int;
        let r = t % 100;
        let hi = if r == 0 { lo } else { lo + 1 };
        assert(t <= 100 * (n - 1)) by (nonlinear_arith)
            requires
                t == p * (n - 1) as nat,
                p <= 100,
                n >= 2,
        ;
        assert(0 <= lo <= hi < n);
        let a = s[lo] as int;
        let b = s[hi] as int;
        if is_sorted(s) {
            assert(a <= b);
            assert(100 * a <= (100 - r) * a + r * b <= 100 * b) by (nonlinear_arith)
                requires
                    a <= b,
                    0 <= r < 100,
            ;
        }
        if p == 100 {
            let m = (n - 1) as nat;
            assert(m == n - 1);
            assert(t == 100 * m);
            assert((100 - r) * a + r * b == 100 * a);
        }
        if p == 0 {
            assert(t == 0) by (nonlinear_arith)
                requires
                    t == p * (n - 1) as nat,
                    p == 0,
            ;
        }
    }
}

impl Percentile {
    /// Returns the nearest-rank percentile of a sorted slice.
    /// `p` must be in 1..=100. Returns 0 for empty slices.
    pub fn nearest_rank(sorted: &[u64], p: usize) -> (r: u64)
        ensures
            r == nearest_rank_value(sorted@, p as nat),
    {
        if sorted.len() == 0 {
            return 0;
        }
        let n = sorted.len();
        proof {
            assert((p as int) * (n as int) <= (usize::MAX as int) * (usize::MAX as int))
                by (nonlinear_arith)
                requires
                    p <= usize::MAX,
                    n <= usize::MAX,
            ;
        }
        let product: u128 = (p as u128) * (n as u128);
        let rank: u128 = (product + 99) / 100;
        let pos: u128 = if rank == 0 { 0 } else { rank - 1 };
        let idx: usize = if pos < n as u128 { pos as usize } else { n - 1 };
        sorted[idx]
    }

    /// Returns the linear-interpolation percentile of a sorted slice.
    /// `p` must be in 0..=100. Returns 0 for empty slices.
    pub fn linear_interpolation(sorted: &[u64], p: usize) -> (r: u64)
        requires
            sorted@.len() <= 1 || p <= 100,
        ensures
            r as int == interpolated_value(sorted@, p as nat),
    {
        if sorted.len() == 0 {
            return 0;
        }
        if sorted.len() == 1 {
            return sorted[0];
        }
        let n = sorted.len();
        proof {
            assert((p as int) * ((n - 1) as int) <= 100 * (n - 1)) by (nonlinear_arith)
                requires
                    p <= 100,
                    n >= 2,
            ;
        }
        let t: u128 = (p as u128) * ((n - 1) as u128);
        let lo: usize = (t / 100) as usize;
        let r: u128 = t % 100;
        let hi: usize = if r == 0 { lo } else { lo + 1 };
        proof {
            assert(t <= 100 * (n - 1));
            assert(lo as int <= n - 1);
            assert(r > 0 ==> lo < n - 1);
        }
        let a: u128 = sorted[lo] as u128;
        let b: u128 = sorted[hi] as u128;
        proof {
            assert((100 - r) * a + r * b <= 100 * 0x1_0000_0000_0000_0000) by (nonlinear_arith)
                requires
                    r < 100,
                    a < 0x1_0000_0000_0000_0000,
                    b < 0x1_0000_0000_0000_0000,
            ;
            assert(((100 - r) * a + r * b) / 100 <= if a >= b { a } else { b }) by (nonlinear_arith)
                requires
                    r < 100,
            ;
        }
        let mixed: u128 = ((100 - r) * a + r * b) / 100;
        mixed as u64
    }

    /// Returns a full fee distribution summary for a sorted slice.
    /// Returns `None` for empty slices.
    pub fn fee_distribution_summary(sorted: &[u64]) -> (r: Option<FeeDistributionSummary>)
        ensures
            sorted@.len() == 0 ==> r is None,
            sorted@.len() > 0 ==> (r matches Some(s) && {
                &&& s.min == sorted@[0]
                &&& s.max == sorted@.last()
                &&& s.total == seq_total(sorted@)
                &&& s.sample_count == sorted@.len()
                &&& s.median == nearest_rank_value(sorted@, 50)
                &&& s.percentiles@ == seq![
                    nearest_rank_value(sorted@, 10),
                    nearest_rank_value(sorted@, 20),
                    nearest_rank_value(sorted@, 30),
                    nearest_rank_value(sorted@, 40),
                    nearest_rank_value(sorted@, 50),
                    nearest_rank_value(sorted@, 60),
                    nearest_rank_value(sorted@, 70),
                    nearest_rank_value(sorted@, 80),
                    nearest_rank_value(sorted@, 90),
                    nearest_rank_value(sorted@, 99),
                ]
            }),
    {
        if sorted.len() == 0 {
            return None;
        }
        let n = sorted.len();
        let mut total: u128 = 0;
        let mut i: usize = 0;
        while i < n
            invariant
                n == sorted@.len(),
                0 <= i <= n,
                total == seq_total(sorted@.take(i as int)),
                total <= i * 0xffff_ffff_ffff_ffff,
            decreases n - i,
        {
            proof {
                assert(sorted@.take(i + 1).drop_last() =~= sorted@.take(i as int));
                assert((i + 1) * 0xffff_ffff_ffff_ffff <= 0xffff_ffff_ffff_ffff * 0x1_0000_0000_0000_0000)
                    by (nonlinear_arith)
                    requires
                        i < 0x1_0000_0000_0000_0000,
                ;
            }
            total = total + sorted[i] as u128;
            i = i + 1;
        }
        proof {
            assert(sorted@.take(n as int) =~= sorted@);
        }
        let percentiles: [u64; 10] = [
            Self::nearest_rank(sorted, 10),
            Self::nearest_rank(sorted, 20),
            Self::nearest_rank(sorted, 30),
            Self::nearest_rank(sorted, 40),
            Self::nearest_rank(sorted, 50),
            Self::nearest_rank(sorted, 60),
            Self::nearest_rank(sorted, 70),
            Self::nearest_rank(sorted, 80),
            Self::nearest_rank(sorted, 90),
            Self::nearest_rank(sorted, 99),
        ];
        let summary = FeeDistributionSummary {
            min: sorted[0],
            max: sorted[n - 1],
            total,
            sample_count: n,
            median: Self::nearest_rank(sorted, 50),
            percentiles,
        };
        proof {
            assert(summary.percentiles@ =~= seq![
                nearest_rank_value(sorted@, 10),
                nearest_rank_value(sorted@, 20),
                nearest_rank_value(sorted@, 30),
                nearest_rank_value(sorted@, 40),
                nearest_rank_value(sorted@, 50),
                nearest_rank_value(sorted@, 60),
                nearest_rank_value(sorted@, 70),
                nearest_rank_value(sorted@, 80),
                nearest_rank_value(sorted@, 90),
                nearest_rank_value(sorted@, 99),
            ]);
        }
        Some(summary)
    }
}

} // verus!
