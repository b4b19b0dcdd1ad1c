//! Models for simulating Stellar transaction fee behaviour.

use vstd::prelude::*;

verus! {

/// A single simulated fee data point.
#[derive(Debug, Clone, Copy, PartialEq, Eq, Structural)]
pub struct FeePoint {
    /// Simulated Unix timestamp (seconds).
    pub timestamp: u64,
    /// Fee in stroops for this ledger.
    pub fee: u64,
    /// Ledger sequence number (1-based within the scenario).
    pub ledger: u64,
    /// Whether this ledger was a spike.
    pub is_spike: bool,
}

/// The integer part of a fee scenario: everything but the spike probability.
#[derive(Debug, Clone, Copy)]
pub struct LedgerSchedule {
    /// Base fee in stroops.
    pub base_fee: u64,
    /// Multiplier applied to base_fee during a spike.
    pub spike_multiplier: u64,
    /// Ledger close interval in seconds (used for timestamp spacing).
    pub ledger_interval_secs: u64,
}

/// The `i`-th simulated ledger of a run that starts at `start`, given whether it was drawn as a spike.
pub open spec fn scheduled_point(sched: LedgerSchedule, start: u64, i: int, spike: bool) -> FeePoint {
    FeePoint {
        timestamp: (start + i * sched.ledger_interval_secs) as u64,
        fee: if spike { (sched.base_fee * sched.spike_multiplier) as u64 } else { sched.base_fee },
        ledger: (i + 1) as u64,
        is_spike: spike,
    }
}

/// The arithmetic of a run fits in 64 bits: every timestamp, every spike fee and every ledger number.
pub open spec fn schedule_fits(sched: LedgerSchedule, start: u64, draws: Seq<bool>) -> bool {
    &&& draws.len() == 0 || start + (draws.len() - 1) * sched.ledger_interval_secs <= u64::MAX
    &&& draws.contains(true) ==> sched.base_fee * sched.spike_multiplier <= u64::MAX
    &&& draws.len() <= u64::MAX
}

/// Builds the fee points of a run from the spike draws of its ledgers: ledger `i`
/// (0-based) is stamped `start + i * interval`, numbered `i + 1`, and charged the base fee,
/// or the base fee times the multiplier when it was drawn as a spike.
pub fn fee_points_from_draws(sched: &LedgerSchedule, start_timestamp: u64, draws: &[bool]) -> (r: Vec<FeePoint>)
    requires
        schedule_fits(*sched, start_timestamp, draws@),
    ensures
        r@.len() == draws@.len(),
        forall|i: int|
            0 <= i < draws@.len() ==> #[trigger] r@[i] == scheduled_point(
                *sched,
                start_timestamp,
                i,
                draws@[i],
            ),
{
    let n = draws.len();
    let mut points: Vec<FeePoint> = Vec::with_capacity(n);
    let mut i: usize = 0;
    while i < n
        invariant
            n == draws@.len(),
            schedule_fits(*sched, start_timestamp, draws@),
            0 <= i <= n,
            points@.len() == i,
            forall|j: int|
                0 <= j < i ==> #[trigger] points@[j] == scheduled_point(
                    *sched,
                    start_timestamp,
                    j,
                    draws@[j],
                ),
        decreases n - i,
    {
        let spike = draws[i];
        proof {
            assert(i * sched.ledger_interval_secs <= (n - 1) * sched.ledger_interval_secs)
                by (nonlinear_arith)
                requires
                    i <= n - 1,
            ;
            if spike {
                assert(draws@.contains(true)) by {
                    assert(draws@[i as int] == true);
                }
            }
        }
        let fee = if spike {
            sched.base_fee * sched.spike_multiplier
        } else {
            sched.base_fee
        };
        let offset = (i as u64) * sched.ledger_interval_secs;
        points.push(
            FeePoint {
                timestamp: start_timestamp + offset,
                fee,
                ledger: i as u64 + 1,
                is_spike: spike,
            },
        );
        i = i + 1;
    }
    points
}

/// The spike draws of each scenario of a chained run.
pub open spec fn draws_view(draws: Seq<Vec<bool>>) -> Seq<Seq<bool>> {
    draws.map_values(|v: Vec<bool>| v@)
}

/// The points of one scenario of a chained run: scheduled from `start`, with ledgers
/// numbered on from `ledger_offset`.
pub open spec fn scenario_batch(sched: LedgerSchedule, draws: Seq<bool>, start: u64, ledger_offset: u64) -> Seq<FeePoint> {
    Seq::new(
        draws.len(),
        |i: int|
            FeePoint {
                timestamp: scheduled_point(sched, start, i, draws[i]).timestamp,
                fee: scheduled_point(sched, start, i, draws[i]).fee,
                ledger: (i + 1 + ledger_offset) as u64,
                is_spike: draws[i],
            },
    )
}

/// Ledger and time offsets of the scenario after one of `n` ledgers that started at
/// `start`: its last ledger, and one interval after its last timestamp; an empty scenario
/// leaves both offsets as they were.
pub open spec fn next_offsets(sched: LedgerSchedule, n: nat, start: u64, ledger_offset: u64) -> (u64, u64) {
    if n > 0 {
        ((ledger_offset + n) as u64, (start + (n - 1) * sched.ledger_interval_secs + sched.ledger_interval_secs) as u64)
    } else {
        (ledger_offset, start)
    }
}

/// The points of scenarios run one after another.
pub open spec fn chained_points(scheds: Seq<LedgerSchedule>, draws: Seq<Seq<bool>>, ledger_offset: u64, start: u64) -> Seq<FeePoint>
    decreases scheds.len(),
{
    if scheds.len() == 0 || draws.len() == 0 {
        Seq::empty()
    } else {
        let (lo, to) = next_offsets(scheds[0], draws[0].len(), start, ledger_offset);
        scenario_batch(scheds[0], draws[0], start, ledger_offset) + chained_points(
            scheds.drop_first(),
            draws.drop_first(),
            lo,
            to,
        )
    }
}

/// The arithmetic of a chained run fits in 64 bits.
pub open spec fn chain_fits(scheds: Seq<LedgerSchedule>, draws: Seq<Seq<bool>>, ledger_offset: u64, start: u64) -> bool
    decreases scheds.len(),
{
    if scheds.len() == 0 || draws.len() == 0 {
        true
    } else {
        let n = draws[0].len();
        let (lo, to) = next_offsets(scheds[0], n, start, ledger_offset);
        &&& schedule_fits(scheds[0], start, draws[0])
        &&& n > 0 ==> ledger_offset + n <= u64::MAX
        &&& n > 0 ==> start + (n - 1) * scheds[0].ledger_interval_secs + scheds[0].ledger_interval_secs <= u64::MAX
        &&& chain_fits(scheds.drop_first(), draws.drop_first(), lo, to)
    }
}

/// Every scenario of the run has a positive ledger interval.
pub open spec fn intervals_positive(scheds: Seq<LedgerSchedule>) -> bool {
    forall|k: int| 0 <= k < scheds.len() ==> #[trigger] scheds[k].ledger_interval_secs > 0
}

/// In a chained run, ledgers are numbered on without a gap (from `ledger_offset + 1`),
/// every point is stamped at or after `start`, and, with positive intervals, timestamps
/// strictly increase, across scenario boundaries too.
pub proof fn lemma_chained_numbering(scheds: Seq<LedgerSchedule>, draws: Seq<Seq<bool>>, ledger_offset: u64, start: u64)
    requires
        chain_fits(scheds, draws, ledger_offset, start),
    ensures
        ({
            let r = chained_points(scheds, draws, ledger_offset, start);
            &&& forall|i: int| 0 <= i < r.len() ==> #[trigger] r[i].ledger == ledger_offset + i + 1
            &&& forall|i: int| 0 <= i < r.len() ==> #[trigger] r[i].timestamp >= start
            &&& intervals_positive(scheds) ==> forall|i: int, j: int|
                0 <= i < j < r.len() ==> #[trigger] r[i].timestamp < #[trigger] r[j].timestamp
        }),
    decreases scheds.len(),
{
    if scheds.len() == 0 || draws.len() == 0 {
        return;
    }
    let s0 = scheds[0];
    let d0 = draws[0];
    let n = d0.len();
    let iv = s0.ledger_interval_secs;
    let (lo, to) = next_offsets(s0, n, start, ledger_offset);
    let batch = scenario_batch(s0, d0, start, ledger_offset);
    let rest = chained_points(scheds.drop_first(), draws.drop_first(), lo, to);
    let r = chained_points(scheds, draws, ledger_offset, start);
    assert(r == batch + rest);
    lemma_chained_numbering(scheds.drop_first(), draws.drop_first(), lo, to);
    assert forall|i: int| 0 <= i < n implies #[trigger] batch[i].timestamp == start + i * iv by {
        assert(i * iv <= (n - 1) * iv) by (nonlinear_arith)
            requires
                i <= n - 1,
        ;
    }
    assert forall|i: int| 0 <= i < r.len() implies #[trigger] r[i].ledger == ledger_offset + i + 1 by {
        if i >= n {
            assert(r[i] == rest[i - n]);
        }
    }
    assert forall|i: int| 0 <= i < r.len() implies #[trigger] r[i].timestamp >= start by {
        if i >= n {
            assert(r[i] == rest[i - n]);
            if n > 0 {
                assert((n - 1) * iv >= 0) by (nonlinear_arith)
                    requires
                        n >= 1,
                ;
            }
        } else {
            assert(r[i] == batch[i]);
            assert(i * iv >= 0) by (nonlinear_arith)
                requires
                    i >= 0,
            ;
        }
    }
    if intervals_positive(scheds) {
        assert(iv > 0) by {
            assert(scheds[0].ledger_interval_secs > 0);
        }
        assert(intervals_positive(scheds.drop_first())) by {
            assert forall|k: int| 0 <= k < scheds.drop_first().len() implies #[trigger] scheds.drop_first()[k].ledger_interval_secs > 0 by {
                assert(scheds.drop_first()[k] == scheds[k + 1]);
            }
        }
        assert forall|i: int, j: int| 0 <= i < j < r.len() implies #[trigger] r[i].timestamp < #[trigger] r[j].timestamp by {
            if j < n {
                assert(r[i] == batch[i] && r[j] == batch[j]);
                assert(i * iv < j * iv) by (nonlinear_arith)
                    requires
                        i < j,
                        iv > 0,
                ;
            } else if i < n {
                assert(r[i] == batch[i] && r[j] == rest[j - n]);
                assert(i * iv <= (n - 1) * iv) by (nonlinear_arith)
                    requires
                        i <= n - 1,
                ;
            } else {
                assert(r[i] == rest[i - n] && r[j] == rest[j - n]);
            }
        }
    }
}

/// Runs scenarios one after another from their spike draws: ledgers keep counting across
/// scenarios and each scenario starts one interval after the previous one's last point.
pub fn run_scenarios_from_draws(scheds: &[LedgerSchedule], draws: &[Vec<bool>]) -> (r: Vec<FeePoint>)
    requires
        scheds@.len() == draws@.len(),
        chain_fits(scheds@, draws_view(draws@), 0, 0),
    ensures
        r@ == chained_points(scheds@, draws_view(draws@), 0, 0),
{
    let ghost dv = draws_view(draws@);
    let mut all: Vec<FeePoint> = Vec::new();
    let mut ledger_offset: u64 = 0;
    let mut time_offset: u64 = 0;
    let n = scheds.len();
    let mut k: usize = 0;
    assert(scheds@.skip(0) =~= scheds@);
    assert(dv.skip(0) =~= dv);
    assert(all@ + chained_points(scheds@, dv, 0, 0) =~= chained_points(scheds@, dv, 0, 0));
    while k < n
        invariant
            n == scheds@.len(),
            n == draws@.len(),
            dv == draws_view(draws@),
            0 <= k <= n,
            all@ + chained_points(scheds@.skip(k as int), dv.skip(k as int), ledger_offset, time_offset)
                == chained_points(scheds@, dv, 0, 0),
            chain_fits(scheds@.skip(k as int), dv.skip(k as int), ledger_offset, time_offset),
        decreases n - k,
    {
        let ghost ss = scheds@.skip(k as int);
        let ghost ds = dv.skip(k as int);
        assert(ss[0] == scheds@[k as int]);
        assert(ds[0] == draws@[k as int]@);
        assert(ss.drop_first() =~= scheds@.skip(k + 1));
        assert(ds.drop_first() =~= dv.skip(k + 1));
        let sched = &scheds[k];
        let d = &draws[k];
        let points = fee_points_from_draws(sched, time_offset, d.as_slice());
        let m = points.len();
        let ghost batch = scenario_batch(*sched, d@, time_offset, ledger_offset);
        let ghost before = all@;
        let mut i: usize = 0;
        while i < m
            invariant
                m == points@.len(),
                m == d@.len(),
                0 <= i <= m,
                m > 0 ==> ledger_offset + m <= u64::MAX,
                batch == scenario_batch(*sched, d@, time_offset, ledger_offset),
                forall|j: int| 0 <= j < m ==> #[trigger] points@[j] == scheduled_point(*sched, time_offset, j, d@[j]),
                all@ == before + batch.take(i as int),
            decreases m - i,
        {
            let p = points[i];
            assert(p.ledger == i + 1);
            all.push(FeePoint { timestamp: p.timestamp, fee: p.fee, ledger: p.ledger + ledger_offset, is_spike: p.is_spike });
            assert(batch.take(i + 1) =~= batch.take(i as int).push(batch[i as int]));
            i = i + 1;
        }
        assert(batch.take(m as int) =~= batch);
        let (lo, to) = if m > 0 {
            let last = points[m - 1];
            (last.ledger + ledger_offset, last.timestamp + sched.ledger_interval_secs)
        } else {
            (ledger_offset, time_offset)
        };
        assert((lo, to) == next_offsets(*sched, d@.len(), time_offset, ledger_offset));
        proof {
            assert(before + batch + chained_points(scheds@.skip(k + 1), dv.skip(k + 1), lo, to)
                =~= before + (batch + chained_points(scheds@.skip(k + 1), dv.skip(k + 1), lo, to)));
        }
        ledger_offset = lo;
        time_offset = to;
        k = k + 1;
    }
    assert(scheds@.skip(n as int).len() == 0);
    assert(all@ + Seq::<FeePoint>::empty() =~= all@);
    all
}

} // verus!
