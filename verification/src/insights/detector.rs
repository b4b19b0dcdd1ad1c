//! Congestion detection: grouping fee spikes into runs, and the trend that recent runs
//! point to.
//!
//! Whether a single fee is above the spike threshold, and the spike's ratio to the
//! baseline, are floating-point computations made by the caller; everything decided from
//! those per-fee answers is here.

use vstd::prelude::*;

use crate::clock::timestamp_in_range;
use crate::insights::types::{FeeDataPoint, SpikeSeverity, TrendIndicator, TrendStrength};

verus! {

/// A run of consecutive above-threshold fees, in chronological order.
#[derive(Debug, Clone, Copy, PartialEq, Eq, Structural)]
pub struct SpikeRun {
    /// Highest fee of the run (the first of equal highest fees).
    pub peak_fee: u64,
    /// Timestamp of the run's first fee (ms).
    pub start_time: i64,
    /// From the run's start to the fee that ended it, or to the last fee (ms).
    pub duration: i64,
}

/// A run still open while the fees are scanned.
struct OpenRun {
    peak_fee: u64,
    start_time: i64,
}

/// One fee as the scan sees it: amount, timestamp, above the threshold.
pub type Observation = (u64, i64, bool);

/// The key by which fees are put in chronological order: timestamp, then position in
/// the input (the sort is stable).
pub open spec fn key_before(fees: Seq<FeeDataPoint>, a: int, b: int) -> bool {
    fees[a].timestamp < fees[b].timestamp || (fees[a].timestamp == fees[b].timestamp && a < b)
}

/// `order` lists input positions in chronological order, each once.
pub open spec fn chronological_order(fees: Seq<FeeDataPoint>, order: Seq<usize>) -> bool {
    &&& order.len() == fees.len()
    &&& forall|k: int| 0 <= k < order.len() ==> order[k] < fees.len()
    &&& forall|a: int, b: int|
        0 <= a < b < order.len() ==> key_before(fees, order[a] as int, order[b] as int)
}

/// The fees in the given order, each with its threshold answer.
pub open spec fn observations(fees: Seq<FeeDataPoint>, above: Seq<bool>, order: Seq<usize>) -> Seq<Observation> {
    Seq::new(
        order.len(),
        |k: int| (fees[order[k] as int].fee_amount, fees[order[k] as int].timestamp, above[order[k] as int]),
    )
}

/// Runs closed so far and the run still open, after scanning `obs` in order. An
/// above-threshold fee opens a run or extends the open one (a strictly higher fee becomes
/// its peak); any other fee closes the open run, which is kept when it lasted at least
/// `min_duration`.
pub open spec fn scan_runs(obs: Seq<Observation>, min_duration: i64) -> (Seq<SpikeRun>, Option<(u64, i64)>)
    decreases obs.len(),
{
    if obs.len() == 0 {
        (Seq::empty(), None)
    } else {
        let (done, open) = scan_runs(obs.drop_last(), min_duration);
        let (fee, ts, above) = obs.last();
        if above {
            match open {
                None => (done, Some((fee, ts))),
                Some((peak, start)) => (done, Some((if fee > peak { fee } else { peak }, start))),
            }
        } else {
            match open {
                None => (done, None),
                Some((peak, start)) => {
                    let d = ts - start;
                    if d >= min_duration {
                        (done.push(SpikeRun { peak_fee: peak, start_time: start, duration: d as i64 }), None)
                    } else {
                        (done, None)
                    }
                },
            }
        }
    }
}

/// All runs of `obs`: the closed ones, then the one still open at the last fee when it
/// lasted at least `min_duration` up to that fee.
pub open spec fn spike_runs(obs: Seq<Observation>, min_duration: i64) -> Seq<SpikeRun> {
    let (done, open) = scan_runs(obs, min_duration);
    match open {
        None => done,
        Some((peak, start)) => {
            let d = obs.last().1 - start;
            if obs.len() > 0 && d >= min_duration {
                done.push(SpikeRun { peak_fee: peak, start_time: start, duration: d as i64 })
            } else {
                done
            }
        },
    }
}

/// Every fee of `obs` has an instant chrono can represent.
pub open spec fn observed_in_range(obs: Seq<Observation>) -> bool {
    forall|i: int| 0 <= i < obs.len() ==> timestamp_in_range(#[trigger] obs[i].1)
}

proof fn lemma_scan_runs_meet_minimum(obs: Seq<Observation>, min_duration: i64)
    requires
        observed_in_range(obs),
    ensures
        forall|k: int|
            0 <= k < scan_runs(obs, min_duration).0.len() ==> #[trigger] scan_runs(obs, min_duration).0[k].duration
                >= min_duration,
        scan_runs(obs, min_duration).1 matches Some((peak, start)) ==> timestamp_in_range(start),
    decreases obs.len(),
{
    if obs.len() > 0 {
        let prev = obs.drop_last();
        assert forall|i: int| 0 <= i < prev.len() implies timestamp_in_range(#[trigger] prev[i].1) by {
            assert(prev[i] == obs[i]);
        }
        lemma_scan_runs_meet_minimum(prev, min_duration);
        assert(timestamp_in_range(obs[obs.len() - 1].1));
        let (done, open) = scan_runs(prev, min_duration);
        let r = scan_runs(obs, min_duration).0;
        assert forall|k: int| 0 <= k < r.len() implies #[trigger] r[k].duration >= min_duration by {
            if k < done.len() {
                assert(r[k] == done[k]);
            }
        }
    }
}

/// Every reported spike run lasted at least the minimum spike duration.
pub proof fn lemma_spike_runs_meet_minimum(obs: Seq<Observation>, min_duration: i64)
    requires
        observed_in_range(obs),
    ensures
        forall|k: int|
            0 <= k < spike_runs(obs, min_duration).len() ==> #[trigger] spike_runs(obs, min_duration)[k].duration
                >= min_duration,
{
    lemma_scan_runs_meet_minimum(obs, min_duration);
    let (done, open) = scan_runs(obs, min_duration);
    let r = spike_runs(obs, min_duration);
    if obs.len() > 0 {
        assert(timestamp_in_range(obs[obs.len() - 1].1));
    }
    assert forall|k: int| 0 <= k < r.len() implies #[trigger] r[k].duration >= min_duration by {
        if k < done.len() {
            assert(r[k] == done[k]);
        }
    }
}

/// No two fees share a timestamp.
pub open spec fn distinct_timestamps(fees: Seq<FeeDataPoint>) -> bool {
    forall|a: int, b: int| 0 <= a < b < fees.len() ==> fees[a].timestamp != fees[b].timestamp
}

/// `perm` lists the positions `0..n`, each once.
pub open spec fn is_permutation(perm: Seq<usize>, n: nat) -> bool {
    &&& perm.len() == n
    &&& forall|i: int| 0 <= i < n ==> perm[i] < n
    &&& forall|i: int, j: int| 0 <= i < j < n ==> perm[i] != perm[j]
}

/// `s` reordered by `perm`: its `i`-th entry is `s[perm[i]]`.
pub open spec fn permuted<T>(s: Seq<T>, perm: Seq<usize>) -> Seq<T> {
    Seq::new(perm.len(), |i: int| s[perm[i] as int])
}

/// Timestamps strictly increase along `obs`.
spec fn increasing_time(obs: Seq<Observation>) -> bool {
    forall|a: int, b: int| 0 <= a < b < obs.len() ==> obs[a].1 < obs[b].1
}

/// Position `j` is listed somewhere in `o`.
spec fn lists(o: Seq<usize>, j: int) -> bool {
    exists|k: int| 0 <= k < o.len() && o[k] == j
}

/// Distinct positions below `n`, `n` of them, are all the positions below `n`.
proof fn lemma_distinct_positions_cover(o: Seq<usize>, n: nat)
    requires
        is_permutation(o, n),
    ensures
        forall|j: int| 0 <= j < n ==> #[trigger] lists(o, j),
{
    let s = o.map_values(|x: usize| x as int);
    assert(s.no_duplicates()) by {
        assert forall|a: int, b: int| 0 <= a < s.len() && 0 <= b < s.len() && a != b implies s[a] != s[b] by {
            if a < b {
                assert(o[a] != o[b]);
            } else {
                assert(o[b] != o[a]);
            }
        }
    }
    s.unique_seq_to_set();
    vstd::seq_lib::seq_to_set_is_finite(s);
    vstd::set_lib::lemma_int_range(0, n as int);
    let range = vstd::set_lib::set_int_range(0, n as int);
    assert(s.to_set().subset_of(range)) by {
        assert forall|x: int| s.to_set().contains(x) implies range.contains(x) by {
            let k = choose|k: int| 0 <= k < s.len() && s[k] == x;
            assert(o[k] < n);
        }
    }
    vstd::set_lib::lemma_subset_equality(s.to_set(), range);
    assert forall|j: int| 0 <= j < n implies #[trigger] lists(o, j) by {
        assert(range.contains(j));
        assert(s.to_set().contains(j));
        let k = choose|k: int| 0 <= k < s.len() && s[k] == j;
        assert(o[k] == j);
    }
}

/// Two sequences whose timestamps strictly increase and which hold the same
/// observations are equal.
proof fn lemma_increasing_same_elements(s1: Seq<Observation>, s2: Seq<Observation>)
    requires
        increasing_time(s1),
        increasing_time(s2),
        forall|x: Observation| s1.contains(x) <==> s2.contains(x),
    ensures
        s1 == s2,
    decreases s1.len(),
{
    if s1.len() == 0 {
        if s2.len() > 0 {
            assert(s2.contains(s2[0]));
        }
        assert(s1 =~= s2);
    } else {
        if s2.len() == 0 {
            assert(s1.contains(s1[0]));
        }
        assert(s1.contains(s1[0]));
        assert(s2.contains(s2[0]));
        let j = choose|j: int| 0 <= j < s2.len() && s2[j] == s1[0];
        let i = choose|i: int| 0 <= i < s1.len() && s1[i] == s2[0];
        if i > 0 {
            assert(s1[0].1 < s1[i].1);
            if j > 0 {
                assert(s2[0].1 < s2[j].1);
            }
        }
        assert(s1[0] == s2[0]);
        let t1 = s1.drop_first();
        let t2 = s2.drop_first();
        assert forall|x: Observation| t1.contains(x) <==> t2.contains(x) by {
            if t1.contains(x) {
                let a = choose|a: int| 0 <= a < t1.len() && t1[a] == x;
                assert(s1[a + 1] == x);
                assert(s1[0].1 < s1[a + 1].1);
                assert(s1.contains(x));
                let b = choose|b: int| 0 <= b < s2.len() && s2[b] == x;
                assert(b != 0);
                assert(t2[b - 1] == x);
            }
            if t2.contains(x) {
                let a = choose|a: int| 0 <= a < t2.len() && t2[a] == x;
                assert(s2[a + 1] == x);
                assert(s2[0].1 < s2[a + 1].1);
                assert(s2.contains(x));
                let b = choose|b: int| 0 <= b < s1.len() && s1[b] == x;
                assert(b != 0);
                assert(t1[b - 1] == x);
            }
        }
        lemma_increasing_same_elements(t1, t2);
        assert forall|k: int| 0 <= k < s1.len() implies s1[k] == s2[k] by {
            if k > 0 {
                assert(s1[k] == t1[k - 1]);
                assert(s2[k] == t2[k - 1]);
            }
        }
        assert(s1 =~= s2);
    }
}

/// Spike detection does not depend on the order of its input: when no two fees share a
/// timestamp, the fees in any other order (each with its threshold answer) are seen in
/// the same chronological order, and so give the same spike runs.
pub proof fn lemma_detection_order_independent(
    fees: Seq<FeeDataPoint>,
    above: Seq<bool>,
    perm: Seq<usize>,
    order1: Seq<usize>,
    order2: Seq<usize>,
    min_duration: i64,
)
    requires
        above.len() == fees.len(),
        distinct_timestamps(fees),
        is_permutation(perm, fees.len()),
        chronological_order(fees, order1),
        chronological_order(permuted(fees, perm), order2),
    ensures
        observations(fees, above, order1) == observations(permuted(fees, perm), permuted(above, perm), order2),
        spike_runs(observations(fees, above, order1), min_duration) == spike_runs(
            observations(permuted(fees, perm), permuted(above, perm), order2),
            min_duration,
        ),
{
    let n = fees.len();
    let fees2 = permuted(fees, perm);
    let above2 = permuted(above, perm);
    let obs1 = observations(fees, above, order1);
    let obs2 = observations(fees2, above2, order2);
    assert(is_permutation(order1, n)) by {
        assert forall|a: int, b: int| 0 <= a < b < n implies order1[a] != order1[b] by {
            assert(key_before(fees, order1[a] as int, order1[b] as int));
        }
    }
    assert(is_permutation(order2, n)) by {
        assert forall|a: int, b: int| 0 <= a < b < n implies order2[a] != order2[b] by {
            assert(key_before(fees2, order2[a] as int, order2[b] as int));
        }
    }
    lemma_distinct_positions_cover(order1, n);
    lemma_distinct_positions_cover(order2, n);
    lemma_distinct_positions_cover(perm, n);
    assert(increasing_time(obs1)) by {
        assert forall|a: int, b: int| 0 <= a < b < obs1.len() implies obs1[a].1 < obs1[b].1 by {
            let x = order1[a] as int;
            let y = order1[b] as int;
            assert(key_before(fees, x, y));
            if x < y {
                assert(fees[x].timestamp != fees[y].timestamp);
            } else {
                assert(fees[y].timestamp != fees[x].timestamp);
            }
        }
    }
    assert(increasing_time(obs2)) by {
        assert forall|a: int, b: int| 0 <= a < b < obs2.len() implies obs2[a].1 < obs2[b].1 by {
            let x = order2[a] as int;
            let y = order2[b] as int;
            assert(key_before(fees2, x, y));
            let px = perm[x] as int;
            let py = perm[y] as int;
            if x < y {
                assert(perm[x] != perm[y]);
            } else {
                assert(perm[y] != perm[x]);
            }
            if px < py {
                assert(fees[px].timestamp != fees[py].timestamp);
            } else {
                assert(fees[py].timestamp != fees[px].timestamp);
            }
        }
    }
    assert forall|x: Observation| obs1.contains(x) <==> obs2.contains(x) by {
        if obs1.contains(x) {
            let k = choose|k: int| 0 <= k < obs1.len() && obs1[k] == x;
            let j = order1[k] as int;
            assert(lists(perm, j));
            let i = choose|i: int| 0 <= i < perm.len() && perm[i] == j;
            assert(lists(order2, i));
            let k2 = choose|k2: int| 0 <= k2 < order2.len() && order2[k2] == i;
            assert(obs2[k2] == x);
        }
        if obs2.contains(x) {
            let k2 = choose|k2: int| 0 <= k2 < obs2.len() && obs2[k2] == x;
            let j = perm[order2[k2] as int] as int;
            assert(lists(order1, j));
            let k = choose|k: int| 0 <= k < order1.len() && order1[k] == j;
            assert(obs1[k] == x);
        }
    }
    lemma_increasing_same_elements(obs1, obs2);
}

/// `r` is the spike run made of the observations at positions `a..e` of `obs`: every one of
/// them above the threshold and the one before (if any) not; the run starts at the first of
/// them, its peak is the highest of their fees (one of them has it), and it lasts until the
/// observation at `e`, which ends it, or until the last observation when none does.
pub open spec fn run_spans(obs: Seq<Observation>, a: int, e: int, r: SpikeRun) -> bool {
    &&& 0 <= a < e <= obs.len()
    &&& forall|i: int| a <= i < e ==> (#[trigger] obs[i]).2
    &&& (a == 0 || !obs[a - 1].2)
    &&& r.start_time == obs[a].1
    &&& (exists|i: int| a <= i < e && (#[trigger] obs[i]).0 == r.peak_fee)
    &&& (forall|i: int| a <= i < e ==> (#[trigger] obs[i]).0 <= r.peak_fee)
    &&& (e < obs.len() ==> !obs[e].2 && r.duration == (obs[e].1 - obs[a].1) as i64)
    &&& (e == obs.len() ==> r.duration == (obs[e - 1].1 - obs[a].1) as i64)
}

/// `r` is one of the runs of above-threshold observations of `obs`.
pub open spec fn is_run_of(obs: Seq<Observation>, r: SpikeRun) -> bool {
    exists|a: int, e: int| run_spans(obs, a, e, r)
}

/// The run still open at the end of `obs`: the observations from `a` on, all above the
/// threshold, starting at `start`, with highest fee `peak`.
spec fn open_spans(obs: Seq<Observation>, a: int, peak: u64, start: i64) -> bool {
    &&& 0 <= a < obs.len()
    &&& forall|i: int| a <= i < obs.len() ==> (#[trigger] obs[i]).2
    &&& (a == 0 || !obs[a - 1].2)
    &&& start == obs[a].1
    &&& (exists|i: int| a <= i < obs.len() && (#[trigger] obs[i]).0 == peak)
    &&& (forall|i: int| a <= i < obs.len() ==> (#[trigger] obs[i]).0 <= peak)
}

/// What is known of the run left open after scanning `obs`.
spec fn open_run_spans(obs: Seq<Observation>, open: Option<(u64, i64)>) -> bool {
    &&& open is Some ==> exists|a: int| #[trigger] open_spans(obs, a, open.unwrap().0, open.unwrap().1)
    &&& open is None ==> (obs.len() == 0 || !obs.last().2)
}

/// A closed run of `obs`, ended by an observation of `obs`.
spec fn closed_run_of(obs: Seq<Observation>, r: SpikeRun) -> bool {
    exists|a: int, e: int| e < obs.len() && run_spans(obs, a, e, r)
}

proof fn lemma_closed_run_extend(prev: Seq<Observation>, x: Observation, r: SpikeRun)
    requires
        closed_run_of(prev, r),
    ensures
        closed_run_of(prev.push(x), r),
{
    let obs = prev.push(x);
    let (a, e) = choose|a: int, e: int| e < prev.len() && run_spans(prev, a, e, r);
    assert forall|i: int| 0 <= i < prev.len() implies obs[i] == prev[i] by {}
    let w = choose|i: int| a <= i < e && (#[trigger] prev[i]).0 == r.peak_fee;
    assert(obs[w].0 == r.peak_fee);
    assert(run_spans(obs, a, e, r));
}

proof fn lemma_scan_runs_spans(obs: Seq<Observation>, min_duration: i64)
    ensures
        forall|k: int| 0 <= k < scan_runs(obs, min_duration).0.len() ==> closed_run_of(obs, #[trigger] scan_runs(obs, min_duration).0[k]),
        open_run_spans(obs, scan_runs(obs, min_duration).1),
    decreases obs.len(),
{
    if obs.len() > 0 {
        let prev = obs.drop_last();
        let x = obs.last();
        lemma_scan_runs_spans(prev, min_duration);
        assert(obs =~= prev.push(x));
        let (done, open) = scan_runs(prev, min_duration);
        let n = obs.len() - 1;
        assert forall|i: int| 0 <= i < prev.len() implies obs[i] == prev[i] by {}
        assert forall|k: int| 0 <= k < done.len() implies closed_run_of(obs, #[trigger] done[k]) by {
            lemma_closed_run_extend(prev, x, done[k]);
        }
        let (fee, ts, above) = x;
        if above {
            match open {
                None => {
                    if n > 0 {
                        assert(obs[n - 1] == prev.last());
                    }
                    assert(obs[n].0 == fee);
                    assert(open_spans(obs, n, fee, ts));
                    assert(scan_runs(obs, min_duration).1 == Some((fee, ts)));
                    let o = Some((fee, ts));
                    assert(o.unwrap().0 == fee && o.unwrap().1 == ts);
                    assert(open_spans(obs, n, o.unwrap().0, o.unwrap().1));
                    assert(open_run_spans(obs, o));
                },
                Some((peak, start)) => {
                    let a = choose|a: int| open_spans(prev, a, peak, start);
                    let np: u64 = if fee > peak { fee } else { peak };
                    if fee > peak {
                        assert(obs[n].0 == np);
                    } else {
                        let w = choose|i: int| a <= i < prev.len() && (#[trigger] prev[i]).0 == peak;
                        assert(obs[w].0 == np);
                    }
                    assert(open_spans(obs, a, np, start));
                    assert(scan_runs(obs, min_duration).1 == Some((np, start)));
                    let o = Some((np, start));
                    assert(o.unwrap().0 == np && o.unwrap().1 == start);
                    assert(open_spans(obs, a, o.unwrap().0, o.unwrap().1));
                    assert(open_run_spans(obs, o));
                },
            }
        } else {
            assert(scan_runs(obs, min_duration).1 is None);
            match open {
                None => {
                    assert(scan_runs(obs, min_duration).0 == done);
                },
                Some((peak, start)) => {
                    let a = choose|a: int| open_spans(prev, a, peak, start);
                    let d = ts - start;
                    if d >= min_duration {
                        let r = SpikeRun { peak_fee: peak, start_time: start, duration: d as i64 };
                        let w = choose|i: int| a <= i < prev.len() && (#[trigger] prev[i]).0 == peak;
                        assert(obs[w].0 == peak);
                        assert(run_spans(obs, a, n, r));
                        let nd = scan_runs(obs, min_duration).0;
                        assert(nd == done.push(r));
                        assert forall|k: int| 0 <= k < nd.len() implies closed_run_of(obs, #[trigger] nd[k]) by {
                            if k < done.len() {
                                assert(nd[k] == done[k]);
                            }
                        }
                    } else {
                        assert(scan_runs(obs, min_duration).0 == done);
                    }
                },
            }
        }
    } else {
        assert(scan_runs(obs, min_duration).0.len() == 0);
        assert(scan_runs(obs, min_duration).1 is None);
    }
}

/// Every reported spike run is a run of the observations: a stretch of consecutive
/// above-threshold fees (with no above-threshold fee just before it) that starts at its
/// first fee, whose peak is the highest fee of the stretch and one of its fees, and that
/// lasts until the fee that ends it, or until the last fee.
pub proof fn lemma_spike_runs_are_runs(obs: Seq<Observation>, min_duration: i64)
    ensures
        forall|k: int| 0 <= k < spike_runs(obs, min_duration).len() ==> is_run_of(obs, #[trigger] spike_runs(obs, min_duration)[k]),
{
    lemma_scan_runs_spans(obs, min_duration);
    let (done, open) = scan_runs(obs, min_duration);
    let r = spike_runs(obs, min_duration);
    assert forall|k: int| 0 <= k < done.len() implies is_run_of(obs, #[trigger] done[k]) by {
        assert(closed_run_of(obs, done[k]));
        let (a, e) = choose|a: int, e: int| e < obs.len() && run_spans(obs, a, e, done[k]);
        assert(run_spans(obs, a, e, done[k]));
    }
    match open {
        None => {},
        Some((peak, start)) => {
            let d = obs.last().1 - start;
            if obs.len() > 0 && d >= min_duration {
                let a = choose|a: int| open_spans(obs, a, peak, start);
                let last = SpikeRun { peak_fee: peak, start_time: start, duration: d as i64 };
                let w = choose|i: int| a <= i < obs.len() && (#[trigger] obs[i]).0 == peak;
                assert(obs[w].0 == last.peak_fee);
                assert(run_spans(obs, a, obs.len() as int, last));
                assert forall|k: int| 0 <= k < r.len() implies is_run_of(obs, #[trigger] r[k]) by {
                    if k < done.len() {
                        assert(r[k] == done[k]);
                    } else {
                        assert(r[k] == last);
                    }
                }
            }
        },
    }
}

/// Input positions in chronological order (a stable sort by timestamp).
fn chronological_positions(fees: &[FeeDataPoint]) -> (order: Vec<usize>)
    ensures
        chronological_order(fees@, order@),
{
    let n = fees.len();
    let mut order: Vec<usize> = Vec::with_capacity(n);
    let mut i: usize = 0;
    while i < n
        invariant
            n == fees@.len(),
            0 <= i <= n,
            order@.len() == i,
            forall|k: int| 0 <= k < order@.len() ==> order@[k] < i,
            forall|a: int, b: int|
                0 <= a < b < order@.len() ==> key_before(fees@, order@[a] as int, order@[b] as int),
        decreases n - i,
    {
        let ts = fees[i].timestamp;
        let mut pos: usize = 0;
        while pos < order.len() && fees[order[pos]].timestamp <= ts
            invariant
                n == fees@.len(),
                i < n,
                ts == fees@[i as int].timestamp,
                0 <= pos <= order@.len(),
                forall|k: int| 0 <= k < order@.len() ==> order@[k] < i,
                forall|k: int| 0 <= k < pos ==> fees@[order@[k] as int].timestamp <= ts,
            decreases order@.len() - pos,
        {
            pos = pos + 1;
        }
        let ghost before = order@;
        order.insert(pos, i);
        proof {
            assert(order@ == before.insert(pos as int, i));
            assert forall|k: int| 0 <= k < order@.len() implies order@[k] < i + 1 by {
                if k < pos {
                    assert(order@[k] == before[k]);
                } else if k > pos {
                    assert(order@[k] == before[k - 1]);
                }
            }
            assert forall|a: int, b: int| 0 <= a < b < order@.len() implies key_before(
                fees@,
                order@[a] as int,
                order@[b] as int,
            ) by {
                if b < pos {
                    assert(order@[a] == before[a] && order@[b] == before[b]);
                } else if b == pos {
                    assert(order@[a] == before[a]);
                } else if a == pos {
                    assert(order@[b] == before[b - 1]);
                    assert(fees@[before[pos as int] as int].timestamp > ts);
                    if b - 1 > pos {
                        assert(key_before(fees@, before[pos as int] as int, before[b - 1] as int));
                    }
                } else if a < pos {
                    assert(order@[a] == before[a] && order@[b] == before[b - 1]);
                } else {
                    assert(order@[a] == before[a - 1] && order@[b] == before[b - 1]);
                }
            }
        }
        i = i + 1;
    }
    order
}

/// Groups the fees, taken in chronological order (stable by timestamp), into spike runs.
/// `above_threshold[i]` says whether `fees[i]` reached the spike threshold; runs shorter
/// than `minimum_spike_duration` (ms) are dropped.
pub fn detect_spike_runs(fees: &[FeeDataPoint], above_threshold: &[bool], minimum_spike_duration: i64) -> (r: Vec<SpikeRun>)
    requires
        above_threshold@.len() == fees@.len(),
        forall|i: int| 0 <= i < fees@.len() ==> timestamp_in_range(#[trigger] fees@[i].timestamp),
    ensures
        exists|order: Seq<usize>|
            chronological_order(fees@, order) && r@ == spike_runs(
                observations(fees@, above_threshold@, order),
                minimum_spike_duration,
            ),
{
    let order = chronological_positions(fees);
    let ghost obs = observations(fees@, above_threshold@, order@);
    let n = order.len();
    let mut runs: Vec<SpikeRun> = Vec::new();
    let mut open: Option<OpenRun> = None;
    let mut k: usize = 0;
    while k < n
        invariant
            n == order@.len(),
            chronological_order(fees@, order@),
            above_threshold@.len() == fees@.len(),
            forall|i: int| 0 <= i < fees@.len() ==> timestamp_in_range(#[trigger] fees@[i].timestamp),
            obs == observations(fees@, above_threshold@, order@),
            0 <= k <= n,
            runs@ == scan_runs(obs.take(k as int), minimum_spike_duration).0,
            match scan_runs(obs.take(k as int), minimum_spike_duration).1 {
                None => open is None,
                Some((peak, start)) => open matches Some(o) && o.peak_fee == peak && o.start_time == start
                    && timestamp_in_range(start),
            },
        decreases n - k,
    {
        proof {
            assert(obs.take(k + 1).drop_last() =~= obs.take(k as int));
            assert(obs.take(k + 1).last() == obs[k as int]);
        }
        let p = &fees[order[k]];
        let above = above_threshold[order[k]];
        assert(timestamp_in_range(fees@[order@[k as int] as int].timestamp));
        if above {
            open = match open {
                None => Some(OpenRun { peak_fee: p.fee_amount, start_time: p.timestamp }),
                Some(o) => Some(
                    OpenRun {
                        peak_fee: if p.fee_amount > o.peak_fee { p.fee_amount } else { o.peak_fee },
                        start_time: o.start_time,
                    },
                ),
            };
        } else {
            match open {
                None => {},
                Some(o) => {
                    let d = p.timestamp - o.start_time;
                    if d >= minimum_spike_duration {
                        runs.push(SpikeRun { peak_fee: o.peak_fee, start_time: o.start_time, duration: d });
                    }
                },
            }
            open = None;
        }
        k = k + 1;
    }
    proof {
        assert(obs.take(n as int) =~= obs);
    }
    match open {
        None => {},
        Some(o) => {
            let last = &fees[order[n - 1]];
            assert(timestamp_in_range(fees@[order@[n - 1] as int].timestamp));
            let d = last.timestamp - o.start_time;
            if d >= minimum_spike_duration {
                runs.push(SpikeRun { peak_fee: o.peak_fee, start_time: o.start_time, duration: d });
            }
        },
    }
    runs
}

/// Weight of a spike in the trend score.
pub open spec fn severity_weight(s: SpikeSeverity) -> int {
    match s {
        SpikeSeverity::Minor => 1,
        SpikeSeverity::Moderate => 2,
        SpikeSeverity::Major => 4,
        SpikeSeverity::Critical => 8,
    }
}

/// Sum of the weights of `s`.
pub open spec fn severity_total(s: Seq<SpikeSeverity>) -> int
    decreases s.len(),
{
    if s.len() == 0 {
        0
    } else {
        severity_total(s.drop_last()) + severity_weight(s.last())
    }
}

/// The trend score (weights plus half a point per spike), doubled so that it is whole.
pub open spec fn doubled_trend_score(s: Seq<SpikeSeverity>) -> int {
    2 * severity_total(s) + s.len()
}

/// Strength of the trend that spikes of severities `s` point to: strong from a score of
/// 10, moderate from 4, weak below.
pub open spec fn strength_for(s: Seq<SpikeSeverity>) -> TrendStrength {
    if doubled_trend_score(s) >= 20 {
        TrendStrength::Strong
    } else if doubled_trend_score(s) >= 8 {
        TrendStrength::Moderate
    } else {
        TrendStrength::Weak
    }
}

/// Position of a strength from weak to strong.
pub open spec fn strength_rank(t: TrendStrength) -> int {
    match t {
        TrendStrength::Weak => 0,
        TrendStrength::Moderate => 1,
        TrendStrength::Strong => 2,
    }
}

/// Calculate trend strength based on recent spike activity: the severities of the recent
/// spikes, oldest first.
pub fn calculate_trend_strength(severities: &[SpikeSeverity]) -> (r: TrendStrength)
    ensures
        r == strength_for(severities@),
{
    let n = severities.len();
    let mut total: u128 = 0;
    let mut i: usize = 0;
    while i < n
        invariant
            n == severities@.len(),
            0 <= i <= n,
            total == severity_total(severities@.take(i as int)),
            total <= 8 * i,
        decreases n - i,
    {
        proof {
            assert(severities@.take(i + 1).drop_last() =~= severities@.take(i as int));
        }
        let w: u128 = match severities[i] {
            SpikeSeverity::Minor => 1,
            SpikeSeverity::Moderate => 2,
            SpikeSeverity::Major => 4,
            SpikeSeverity::Critical => 8,
        };
        total = total + w;
        i = i + 1;
    }
    proof {
        assert(severities@.take(n as int) =~= severities@);
    }
    let score: u128 = 2 * total + n as u128;
    if score >= 20 {
        TrendStrength::Strong
    } else if score >= 8 {
        TrendStrength::Moderate
    } else {
        TrendStrength::Weak
    }
}

/// One more spike never weakens the trend.
pub proof fn lemma_trend_strength_monotone(s: Seq<SpikeSeverity>, x: SpikeSeverity)
    ensures
        strength_rank(strength_for(s)) <= strength_rank(strength_for(s.push(x))),
{
    assert(s.push(x).drop_last() =~= s);
}

/// How many spikes of `s` have severity `v`.
pub open spec fn severity_count(s: Seq<SpikeSeverity>, v: SpikeSeverity) -> nat
    decreases s.len(),
{
    if s.len() == 0 {
        0
    } else {
        severity_count(s.drop_last(), v) + if s.last() == v { 1nat } else { 0nat }
    }
}

proof fn lemma_severity_total_counts(s: Seq<SpikeSeverity>)
    ensures
        severity_total(s) == severity_count(s, SpikeSeverity::Minor) + 2 * severity_count(s, SpikeSeverity::Moderate)
            + 4 * severity_count(s, SpikeSeverity::Major) + 8 * severity_count(s, SpikeSeverity::Critical),
    decreases s.len(),
{
    if s.len() > 0 {
        lemma_severity_total_counts(s.drop_last());
    }
}

/// The trend strength counts a minor spike 1, a moderate one 2, a major one 4 and a
/// critical one 8, plus half a point for every spike: strong from 10 points, moderate from
/// 4, weak below (here in half points).
pub proof fn lemma_trend_strength_by_counts(s: Seq<SpikeSeverity>)
    ensures
        ({
            let half_points = 2 * (severity_count(s, SpikeSeverity::Minor) + 2 * severity_count(s, SpikeSeverity::Moderate)
                + 4 * severity_count(s, SpikeSeverity::Major) + 8 * severity_count(s, SpikeSeverity::Critical)) + s.len();
            &&& (strength_for(s) == TrendStrength::Strong <==> half_points >= 20)
            &&& (strength_for(s) == TrendStrength::Moderate <==> 8 <= half_points < 20)
            &&& (strength_for(s) == TrendStrength::Weak <==> half_points < 8)
        }),
{
    lemma_severity_total_counts(s);
}

/// How the average ratio of the two latest spikes compares with that of the earlier ones:
/// above 1.2 times it, below 0.8 times it, or in between.
#[derive(Debug, Clone, Copy, PartialEq, Eq, Structural)]
pub enum RatioShift {
    Up,
    Down,
    Level,
}

/// The trend indicator for recent spikes of severities `s` (oldest first): normal without
/// spikes; from three spikes on, the shift of the latest ratios decides; with one or two,
/// a latest spike that is major or critical means congestion, a lighter one a rise.
pub open spec fn indicator_for(s: Seq<SpikeSeverity>, shift: RatioShift) -> TrendIndicator {
    if s.len() == 0 {
        TrendIndicator::Normal
    } else if s.len() >= 3 {
        match shift {
            RatioShift::Up => TrendIndicator::Rising,
            RatioShift::Down => TrendIndicator::Declining,
            RatioShift::Level => TrendIndicator::Congested,
        }
    } else {
        match s.last() {
            SpikeSeverity::Critical | SpikeSeverity::Major => TrendIndicator::Congested,
            _ => TrendIndicator::Rising,
        }
    }
}

/// The congestion trend indicator. `shift` compares the ratios of the two latest spikes
/// with those of the earlier ones; it is read only when there are at least three spikes.
pub fn determine_trend_indicator(severities: &[SpikeSeverity], shift: RatioShift) -> (r: TrendIndicator)
    ensures
        r == indicator_for(severities@, shift),
{
    let n = severities.len();
    if n == 0 {
        TrendIndicator::Normal
    } else if n >= 3 {
        match shift {
            RatioShift::Up => TrendIndicator::Rising,
            RatioShift::Down => TrendIndicator::Declining,
            RatioShift::Level => TrendIndicator::Congested,
        }
    } else {
        match severities[n - 1] {
            SpikeSeverity::Critical | SpikeSeverity::Major => TrendIndicator::Congested,
            _ => TrendIndicator::Rising,
        }
    }
}

/// Without spikes the trend is normal. With one or two, only the latest counts: it means
/// congestion when it is major or critical and a rise when it is minor or moderate. From
/// three on, only the shift of the ratios counts: up is a rise, down a decline, level
/// congestion.
pub proof fn lemma_trend_indicator_cases(s: Seq<SpikeSeverity>, shift: RatioShift)
    ensures
        s.len() == 0 ==> indicator_for(s, shift) == TrendIndicator::Normal,
        1 <= s.len() <= 2 ==> (indicator_for(s, shift) == TrendIndicator::Congested <==> (s.last()
            == SpikeSeverity::Major || s.last() == SpikeSeverity::Critical)),
        1 <= s.len() <= 2 ==> (indicator_for(s, shift) == TrendIndicator::Rising <==> (s.last()
            == SpikeSeverity::Minor || s.last() == SpikeSeverity::Moderate)),
        s.len() >= 3 && shift == RatioShift::Up ==> indicator_for(s, shift) == TrendIndicator::Rising,
        s.len() >= 3 && shift == RatioShift::Down ==> indicator_for(s, shift) == TrendIndicator::Declining,
        s.len() >= 3 && shift == RatioShift::Level ==> indicator_for(s, shift) == TrendIndicator::Congested,
{
}

/// Milliseconds between the earliest and the latest instant chrono can represent.
pub open spec fn instant_span() -> int {
    crate::clock::MAX_TIMESTAMP_MS - crate::clock::MIN_TIMESTAMP_MS
}

/// `a / b` rounded toward zero, as Rust's integer division does (`b > 0`).
pub open spec fn div_toward_zero(a: int, b: int) -> int {
    if a >= 0 {
        a / b
    } else {
        -((-a) / b)
    }
}

/// Whole minutes in `ms` milliseconds (`num_minutes`).
pub open spec fn whole_minutes(ms: i64) -> int {
    div_toward_zero(ms as int, 60_000)
}

/// Sum of the whole minutes of the durations `d`.
pub open spec fn total_minutes(d: Seq<i64>) -> int
    decreases d.len(),
{
    if d.len() == 0 {
        0
    } else {
        total_minutes(d.drop_last()) + whole_minutes(d.last())
    }
}

/// Predicted length (minutes) of the congestion: the mean of the spikes' whole minutes
/// (rounded toward zero), doubled for a strong trend and taken one and a half times
/// (rounded toward zero) for a moderate one; none without spikes.
pub open spec fn predicted_minutes(durations: Seq<i64>, severities: Seq<SpikeSeverity>) -> Option<int> {
    if durations.len() == 0 {
        None
    } else {
        let avg = div_toward_zero(total_minutes(durations), durations.len() as int);
        Some(
            match strength_for(severities) {
                TrendStrength::Strong => 2 * avg,
                TrendStrength::Moderate => div_toward_zero(3 * avg, 2),
                TrendStrength::Weak => avg,
            },
        )
    }
}

/// The prediction is the average whole-minute duration of the recent spikes (rounded toward
/// zero), doubled for a strong trend, taken one and a half times for a moderate one
/// (rounded toward zero) and kept for a weak one; there is none without spikes.
pub proof fn lemma_prediction_scales_average(durations: Seq<i64>, severities: Seq<SpikeSeverity>)
    ensures
        durations.len() == 0 ==> predicted_minutes(durations, severities) is None,
        durations.len() > 0 ==> ({
            let avg = div_toward_zero(total_minutes(durations), durations.len() as int);
            let m = predicted_minutes(durations, severities);
            &&& strength_for(severities) == TrendStrength::Weak ==> m == Some(avg)
            &&& strength_for(severities) == TrendStrength::Moderate ==> m == Some(div_toward_zero(3 * avg, 2))
            &&& strength_for(severities) == TrendStrength::Strong ==> m == Some(2 * avg)
        }),
{
}

proof fn lemma_total_minutes_bounds(d: Seq<i64>)
    requires
        forall|i: int| 0 <= i < d.len() ==> -instant_span() <= #[trigger] d[i] <= instant_span(),
    ensures
        -300_000_000_000 * d.len() <= total_minutes(d) <= 300_000_000_000 * d.len(),
    decreases d.len(),
{
    if d.len() > 0 {
        let p = d.drop_last();
        assert forall|i: int| 0 <= i < p.len() implies -instant_span() <= #[trigger] p[i] <= instant_span() by {
            assert(p[i] == d[i]);
        }
        lemma_total_minutes_bounds(p);
        assert(-instant_span() <= d[d.len() - 1] <= instant_span());
    }
}

/// Predict how long the congestion lasts, in minutes, from the durations (ms) and the
/// severities of the recent spikes.
pub fn predict_duration(durations: &[i64], severities: &[SpikeSeverity]) -> (r: Option<i64>)
    requires
        forall|i: int| 0 <= i < durations@.len() ==> -instant_span() <= #[trigger] durations@[i] <= instant_span(),
    ensures
        r matches Some(m) ==> predicted_minutes(durations@, severities@) == Some(m as int),
        r is None <==> predicted_minutes(durations@, severities@) is None,
{
    let n = durations.len();
    if n == 0 {
        return None;
    }
    proof {
        lemma_total_minutes_bounds(durations@);
    }
    let mut total: i128 = 0;
    let mut i: usize = 0;
    while i < n
        invariant
            n == durations@.len(),
            0 <= i <= n,
            forall|j: int| 0 <= j < durations@.len() ==> -instant_span() <= #[trigger] durations@[j] <= instant_span(),
            total == total_minutes(durations@.take(i as int)),
            -300_000_000_000 * i <= total <= 300_000_000_000 * i,
        decreases n - i,
    {
        proof {
            assert(durations@.take(i + 1).drop_last() =~= durations@.take(i as int));
            assert(-instant_span() <= durations@[i as int] <= instant_span());
        }
        let ms = durations[i];
        let minutes: i128 = if ms >= 0 {
            (ms / 60_000) as i128
        } else {
            -(((-(ms as i128)) / 60_000))
        };
        total = total + minutes;
        i = i + 1;
    }
    proof {
        assert(durations@.take(n as int) =~= durations@);
    }
    let count = n as i128;
    let avg: i128 = if total >= 0 {
        total / count
    } else {
        -((-total) / count)
    };
    assert(-300_000_000_000 <= avg <= 300_000_000_000) by (nonlinear_arith)
        requires
            avg == div_toward_zero(total as int, count as int),
            -300_000_000_000 * count <= total <= 300_000_000_000 * count,
            count >= 1,
    {
    }
    let predicted: i128 = match calculate_trend_strength(severities) {
        TrendStrength::Strong => 2 * avg,
        TrendStrength::Moderate => {
            let tripled = 3 * avg;
            if tripled >= 0 {
                tripled / 2
            } else {
                -((-tripled) / 2)
            }
        },
        TrendStrength::Weak => avg,
    };
    Some(predicted as i64)
}

/// How many of the oldest spikes, given by their start times oldest first, have left the
/// congestion window: those before the first that starts at or after `cutoff`.
pub fn count_expired_spikes(start_times: &[i64], cutoff: i64) -> (r: usize)
    ensures
        r <= start_times@.len(),
        forall|k: int| 0 <= k < r ==> #[trigger] start_times@[k] < cutoff,
        r < start_times@.len() ==> start_times@[r as int] >= cutoff,
{
    let mut r: usize = 0;
    while r < start_times.len() && start_times[r] < cutoff
        invariant
            r <= start_times@.len(),
            forall|k: int| 0 <= k < r ==> #[trigger] start_times@[k] < cutoff,
        decreases start_times@.len() - r,
    {
        r = r + 1;
    }
    r
}

} // verus!
