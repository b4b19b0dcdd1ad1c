//! Rolling average calculator over several time windows.

use std::collections::VecDeque;
use vstd::prelude::*;

use crate::insights::types::{AverageResult, FeeDataPoint, InsightsError, RollingAverages, TimeWindow};
use crate::text::{push_str, string_from_chars};

verus! {

/// Sizing of the calculator's buffers.
#[derive(Debug, Clone, Copy)]
pub struct AverageConfig {
    /// Most data points kept per window; the oldest is dropped beyond it.
    pub max_buffer_size: usize,
    pub min_samples_for_calculation: usize,
}

impl Default for AverageConfig {
    fn default() -> (r: Self)
        ensures
            r.max_buffer_size == 10_000,
            r.min_samples_for_calculation == 1,
    {
        AverageConfig { max_buffer_size: 10_000, min_samples_for_calculation: 1 }
    }
}

/// Identity of a window: name, duration and sample threshold.
pub open spec fn window_key(w: TimeWindow) -> (Seq<char>, i64, usize) {
    (w.name@, w.duration, w.min_samples)
}

/// Appending `x` to a bounded buffer: the oldest entry leaves first when the buffer is full.
pub open spec fn buffer_push(s: Seq<FeeDataPoint>, x: FeeDataPoint, max: nat) -> Seq<FeeDataPoint> {
    (if s.len() >= max && s.len() > 0 { s.drop_first() } else { s }).push(x)
}

/// `x` appended `n` times.
pub open spec fn buffer_push_n(s: Seq<FeeDataPoint>, x: FeeDataPoint, max: nat, n: nat) -> Seq<FeeDataPoint>
    decreases n,
{
    if n == 0 {
        s
    } else {
        buffer_push(buffer_push_n(s, x, max, (n - 1) as nat), x, max)
    }
}

/// The entries of `s` not older than `cutoff`, in order: every entry stamped before
/// `cutoff` is removed, wherever it stands.
pub open spec fn drop_older(s: Seq<FeeDataPoint>, cutoff: int) -> Seq<FeeDataPoint>
    decreases s.len(),
{
    if s.len() == 0 {
        s
    } else if s.last().timestamp < cutoff {
        drop_older(s.drop_last(), cutoff)
    } else {
        drop_older(s.drop_last(), cutoff).push(s.last())
    }
}

/// How many windows of `ws` have key `k`.
pub open spec fn key_count(ws: Seq<TimeWindow>, k: (Seq<char>, i64, usize)) -> nat
    decreases ws.len(),
{
    if ws.len() == 0 {
        0
    } else {
        key_count(ws.drop_last(), k) + if window_key(ws.last()) == k { 1nat } else { 0nat }
    }
}

/// Sum of the fee amounts of `s`.
pub open spec fn fee_total(s: Seq<FeeDataPoint>) -> int
    decreases s.len(),
{
    if s.len() == 0 {
        0
    } else {
        fee_total(s.drop_last()) + s.last().fee_amount
    }
}

/// Circular buffer for efficient storage of fee data points
struct CircularBuffer {
    data: VecDeque<FeeDataPoint>,
    max_size: usize,
}

impl CircularBuffer {
    fn new(max_size: usize) -> (r: Self)
        ensures
            r.data@ == Seq::<FeeDataPoint>::empty(),
            r.max_size == max_size,
    {
        Self { data: VecDeque::new(), max_size }
    }

    fn push(&mut self, item: FeeDataPoint)
        ensures
            final(self).data@ == buffer_push(old(self).data@, item, old(self).max_size as nat),
            final(self).max_size == old(self).max_size,
    {
        if self.data.len() >= self.max_size {
            self.data.pop_front();
        }
        self.data.push_back(item);
    }

    fn len(&self) -> (r: usize)
        ensures
            r == self.data@.len(),
    {
        self.data.len()
    }

    fn is_empty(&self) -> (r: bool)
        ensures
            r == (self.data@.len() == 0),
    {
        self.data.len() == 0
    }

    /// Sum of the fee amounts held (the buffer's `iter()` folded by `+`).
    fn total(&self) -> (r: u128)
        ensures
            r == fee_total(self.data@),
    {
        let n = self.data.len();
        let mut total: u128 = 0;
        let mut i: usize = 0;
        while i < n
            invariant
                n == self.data@.len(),
                0 <= i <= n,
                total == fee_total(self.data@.take(i as int)),
                total <= i * 0xffff_ffff_ffff_ffff,
            decreases n - i,
        {
            proof {
                assert(self.data@.take(i + 1).drop_last() =~= self.data@.take(i as int));
                assert((i + 1) * 0xffff_ffff_ffff_ffff <= 0xffff_ffff_ffff_ffff * 0x1_0000_0000_0000_0000)
                    by (nonlinear_arith)
                    requires
                        i < 0x1_0000_0000_0000_0000,
                ;
            }
            total = total + self.data[i].fee_amount as u128;
            i = i + 1;
        }
        proof {
            assert(self.data@.take(n as int) =~= self.data@);
        }
        total
    }

    /// Drops every point older than `cutoff`.
    fn drop_older_than(&mut self, cutoff: i128)
        ensures
            final(self).data@ == drop_older(old(self).data@, cutoff as int),
            final(self).max_size == old(self).max_size,
    {
        let n = self.data.len();
        let mut kept: VecDeque<FeeDataPoint> = VecDeque::new();
        let mut i: usize = 0;
        while i < n
            invariant
                n == self.data@.len(),
                self.data@ == old(self).data@,
                self.max_size == old(self).max_size,
                0 <= i <= n,
                kept@ == drop_older(self.data@.take(i as int), cutoff as int),
            decreases n - i,
        {
            proof {
                assert(self.data@.take(i + 1).drop_last() =~= self.data@.take(i as int));
            }
            if (self.data[i].timestamp as i128) >= cutoff {
                kept.push_back(self.data[i].duplicate());
            }
            i = i + 1;
        }
        proof {
            assert(self.data@.take(n as int) =~= self.data@);
        }
        self.data = kept;
    }
}

/// Calculator for rolling averages across multiple time windows
pub struct RollingAverageCalculator {
    config: AverageConfig,
    /// Distinct windows, each with the buffer at the same position of `buffers`.
    windows: Vec<TimeWindow>,
    buffers: Vec<CircularBuffer>,
    time_windows: Vec<TimeWindow>,
}

/// No two windows of `ws` share a key.
pub open spec fn distinct_keys(ws: Seq<TimeWindow>) -> bool {
    forall|a: int, b: int| 0 <= a < b < ws.len() ==> window_key(#[trigger] ws[a]) != window_key(#[trigger] ws[b])
}

/// Position of the first window of `ws` with key `k`, if any.
pub open spec fn key_position(ws: Seq<TimeWindow>, k: (Seq<char>, i64, usize)) -> int
    decreases ws.len(),
{
    if ws.len() == 0 {
        -1
    } else if window_key(ws[0]) == k {
        0
    } else {
        let rest = key_position(ws.drop_first(), k);
        if rest < 0 { -1 } else { rest + 1 }
    }
}

proof fn lemma_key_position(ws: Seq<TimeWindow>, k: (Seq<char>, i64, usize))
    ensures
        -1 <= key_position(ws, k) < ws.len(),
        key_position(ws, k) >= 0 ==> window_key(ws[key_position(ws, k)]) == k,
        key_position(ws, k) >= 0 ==> forall|j: int| 0 <= j < key_position(ws, k) ==> window_key(#[trigger] ws[j]) != k,
        key_position(ws, k) < 0 ==> forall|j: int| 0 <= j < ws.len() ==> window_key(#[trigger] ws[j]) != k,
    decreases ws.len(),
{
    if ws.len() > 0 {
        lemma_key_position(ws.drop_first(), k);
        assert forall|j: int| 1 <= j < ws.len() implies ws[j] == #[trigger] ws.drop_first()[j - 1] by {}
        if window_key(ws[0]) != k {
            let rest = key_position(ws.drop_first(), k);
            if rest >= 0 {
                assert(ws[rest + 1] == ws.drop_first()[rest]);
                assert forall|j: int| 0 <= j < rest + 1 implies window_key(#[trigger] ws[j]) != k by {
                    if j > 0 {
                        assert(ws[j] == ws.drop_first()[j - 1]);
                    }
                }
            } else {
                assert forall|j: int| 0 <= j < ws.len() implies window_key(#[trigger] ws[j]) != k by {
                    if j > 0 {
                        assert(ws[j] == ws.drop_first()[j - 1]);
                    }
                }
            }
        }
    }
}

/// Position of the window with the same key as `w` among `ws`, if any.
fn find_window(ws: &Vec<TimeWindow>, w: &TimeWindow) -> (r: Option<usize>)
    ensures
        key_position(ws@, window_key(*w)) >= 0 ==> r == Some(key_position(ws@, window_key(*w)) as usize),
        key_position(ws@, window_key(*w)) < 0 ==> r is None,
{
    proof {
        lemma_key_position(ws@, window_key(*w));
    }
    let mut j: usize = 0;
    while j < ws.len()
        invariant
            0 <= j <= ws@.len(),
            forall|i: int| 0 <= i < j ==> window_key(#[trigger] ws@[i]) != window_key(*w),
            -1 <= key_position(ws@, window_key(*w)) < ws@.len(),
            key_position(ws@, window_key(*w)) >= 0 ==> window_key(ws@[key_position(ws@, window_key(*w))]) == window_key(*w),
            key_position(ws@, window_key(*w)) >= 0 ==> forall|i: int| 0 <= i < key_position(ws@, window_key(*w)) ==> window_key(#[trigger] ws@[i]) != window_key(*w),
            key_position(ws@, window_key(*w)) < 0 ==> forall|i: int| 0 <= i < ws@.len() ==> window_key(#[trigger] ws@[i]) != window_key(*w),
        decreases ws@.len() - j,
    {
        if ws[j].same_as(w) {
            return Some(j);
        }
        j = j + 1;
    }
    None
}

impl RollingAverageCalculator {
    /// The calculator's internal consistency: one buffer per distinct configured window.
    pub closed spec fn well_formed(self) -> bool {
        &&& self.windows@.len() == self.buffers@.len()
        &&& distinct_keys(self.windows@)
        &&& forall|i: int| 0 <= i < self.time_windows@.len() ==> key_position(self.windows@, window_key(#[trigger] self.time_windows@[i])) >= 0
        &&& forall|j: int| 0 <= j < self.windows@.len() ==> key_position(self.time_windows@, window_key(#[trigger] self.windows@[j])) >= 0
        &&& forall|j: int|
            0 <= j < self.buffers@.len() ==> (#[trigger] self.buffers@[j]).max_size
                == self.config.max_buffer_size
    }

    /// The configured windows, in order (duplicates included).
    pub closed spec fn configured_windows(self) -> Seq<TimeWindow> {
        self.time_windows@
    }

    /// Most points a window's buffer keeps.
    pub closed spec fn capacity(self) -> nat {
        self.config.max_buffer_size as nat
    }

    /// Points held for the window with key `k`, oldest first (empty for an unknown window).
    pub closed spec fn samples(self, k: (Seq<char>, i64, usize)) -> Seq<FeeDataPoint> {
        let j = key_position(self.windows@, k);
        if j >= 0 { self.buffers@[j].data@ } else { Seq::empty() }
    }
}

/// Appending a window keeps the positions of keys already present.
proof fn lemma_key_position_extend(ws: Seq<TimeWindow>, w: TimeWindow, k: (Seq<char>, i64, usize))
    ensures
        key_position(ws, k) >= 0 ==> key_position(ws.push(w), k) == key_position(ws, k),
    decreases ws.len(),
{
    if ws.len() > 0 {
        assert(ws.push(w).drop_first() =~= ws.drop_first().push(w));
        lemma_key_position_extend(ws.drop_first(), w, k);
    }
}

/// A window appended under a new key is found at the end.
proof fn lemma_push_position(ws: Seq<TimeWindow>, w: TimeWindow)
    requires
        key_position(ws, window_key(w)) < 0,
    ensures
        key_position(ws.push(w), window_key(w)) == ws.len(),
    decreases ws.len(),
{
    if ws.len() > 0 {
        assert(ws.push(w).drop_first() =~= ws.drop_first().push(w));
        lemma_key_position(ws, window_key(w));
        assert(window_key(ws[0]) != window_key(w));
        lemma_push_position(ws.drop_first(), w);
    } else {
        assert(ws.push(w)[0] == w);
    }
}

proof fn lemma_key_count_absent(ws: Seq<TimeWindow>, k: (Seq<char>, i64, usize))
    requires
        forall|i: int| 0 <= i < ws.len() ==> window_key(#[trigger] ws[i]) != k,
    ensures
        key_count(ws, k) == 0,
    decreases ws.len(),
{
    if ws.len() > 0 {
        assert forall|i: int| 0 <= i < ws.drop_last().len() implies window_key(#[trigger] ws.drop_last()[i]) != k by {
            assert(ws.drop_last()[i] == ws[i]);
        }
        lemma_key_count_absent(ws.drop_last(), k);
    }
}

impl RollingAverageCalculator {
    /// Create a new rolling average calculator
    pub fn new(config: AverageConfig, time_windows: Vec<TimeWindow>) -> (r: Self)
        ensures
            r.well_formed(),
            r.configured_windows() == time_windows@,
            r.capacity() == config.max_buffer_size,
            forall|k: (Seq<char>, i64, usize)| #[trigger] r.samples(k) == Seq::<FeeDataPoint>::empty(),
            buffers_bounded(r),
    {
        let mut windows: Vec<TimeWindow> = Vec::new();
        let mut buffers: Vec<CircularBuffer> = Vec::new();
        let n = time_windows.len();
        let mut i: usize = 0;
        while i < n
            invariant
                n == time_windows@.len(),
                0 <= i <= n,
                windows@.len() == buffers@.len(),
                distinct_keys(windows@),
                forall|x: int| 0 <= x < i ==> key_position(windows@, window_key(#[trigger] time_windows@[x])) >= 0,
                forall|j: int| 0 <= j < windows@.len() ==> key_position(time_windows@.take(i as int), window_key(#[trigger] windows@[j])) >= 0,
                forall|j: int| 0 <= j < buffers@.len() ==> (#[trigger] buffers@[j]).max_size == config.max_buffer_size,
                forall|j: int| 0 <= j < buffers@.len() ==> (#[trigger] buffers@[j]).data@ == Seq::<FeeDataPoint>::empty(),
            decreases n - i,
        {
            let found = find_window(&windows, &time_windows[i]);
            let ghost before = windows@;
            let ghost kw = window_key(time_windows@[i as int]);
            if found.is_none() {
                windows.push(time_windows[i].duplicate());
                buffers.push(CircularBuffer::new(config.max_buffer_size));
                proof {
                    lemma_key_position(before, kw);
                    lemma_push_position(before, windows@[before.len() as int]);
                    assert forall|a: int, b: int|
                        0 <= a < b < windows@.len() implies window_key(#[trigger] windows@[a]) != window_key(#[trigger] windows@[b]) by {
                        assert(windows@[a] == before[a]);
                        if b < before.len() {
                            assert(windows@[b] == before[b]);
                        }
                    }
                    assert forall|x: int| 0 <= x < i + 1 implies key_position(windows@, window_key(#[trigger] time_windows@[x])) >= 0 by {
                        lemma_push_position(before, windows@[before.len() as int]);
                        lemma_key_position_extend(before, windows@[before.len() as int], window_key(time_windows@[x]));
                    }
                }
            } else {
                proof {
                    assert forall|x: int| 0 <= x < i + 1 implies key_position(windows@, window_key(#[trigger] time_windows@[x])) >= 0 by {}
                }
            }
            proof {
                assert(time_windows@.take(i + 1) =~= time_windows@.take(i as int).push(time_windows@[i as int]));
                assert forall|j: int| 0 <= j < windows@.len() implies key_position(time_windows@.take(i + 1), window_key(#[trigger] windows@[j])) >= 0 by {
                    lemma_key_position_extend(time_windows@.take(i as int), time_windows@[i as int], window_key(windows@[j]));
                    if j == before.len() {
                        lemma_key_position(time_windows@.take(i + 1), window_key(windows@[j]));
                        assert(windows@[j] == time_windows@[i as int]);
                        assert(time_windows@.take(i + 1)[i as int] == time_windows@[i as int]);
                        if key_position(time_windows@.take(i + 1), window_key(windows@[j])) < 0 {
                            assert(window_key(time_windows@.take(i + 1)[i as int]) != window_key(windows@[j]));
                        }
                    } else {
                        assert(windows@[j] == before[j]);
                    }
                }
            }
            i = i + 1;
        }
        proof {
            assert(time_windows@.take(n as int) =~= time_windows@);
        }
        let r = RollingAverageCalculator { config, windows, buffers, time_windows };
        proof {
            assert forall|k: (Seq<char>, i64, usize)| #[trigger] r.samples(k) == Seq::<FeeDataPoint>::empty() by {
                lemma_key_position(r.windows@, k);
            }
        }
        r
    }

    /// Adds `point` to the buffer of every configured window it falls in (a window listed
    /// twice receives it twice), then drops from every buffer every point that is
    /// older than the window, counted back from `now`.
    pub fn add_data_point_at(&mut self, point: FeeDataPoint, now: i64)
        requires
            old(self).well_formed(),
        ensures
            final(self).well_formed(),
            final(self).configured_windows() == old(self).configured_windows(),
            final(self).capacity() == old(self).capacity(),
            forall|k: (Seq<char>, i64, usize)| #[trigger] final(self).samples(k) == drop_older(
                buffer_push_n(
                    old(self).samples(k),
                    point,
                    old(self).capacity(),
                    if point.timestamp >= now - k.1 { key_count(old(self).configured_windows(), k) } else { 0 },
                ),
                now - k.1,
            ),
            buffers_bounded(*old(self)) ==> buffers_bounded(*final(self)),
    {
        let ghost old_self = *self;
        let ghost cap = self.config.max_buffer_size as nat;
        let n = self.time_windows.len();
        let mut i: usize = 0;
        assert(self.time_windows@.take(0) =~= Seq::<TimeWindow>::empty());
        while i < n
            invariant
                n == self.time_windows@.len(),
                0 <= i <= n,
                self.well_formed(),
                self.windows@ == old_self.windows@,
                self.time_windows@ == old_self.time_windows@,
                self.config == old_self.config,
                cap == self.config.max_buffer_size,
                forall|k: (Seq<char>, i64, usize)| #[trigger] self.samples(k) == buffer_push_n(
                    old_self.samples(k),
                    point,
                    cap,
                    if point.timestamp >= now - k.1 { key_count(self.time_windows@.take(i as int), k) } else { 0 },
                ),
            decreases n - i,
        {
            let ghost before = *self;
            let w = &self.time_windows[i];
            let found = find_window(&self.windows, w);
            let ghost kw = window_key(self.time_windows@[i as int]);
            proof {
                assert(*w == self.time_windows@[i as int]);
                lemma_key_position(self.windows@, kw);
                assert(key_position(self.windows@, kw) >= 0);
                assert(self.time_windows@.take(i + 1).drop_last() =~= self.time_windows@.take(i as int));
            }
            assert(self.windows@.len() == self.windows.len());
            assert(found == Some(key_position(self.windows@, kw) as usize));
            let j = found.unwrap();
            assert(j as int == key_position(self.windows@, kw));
            let inside = (point.timestamp as i128) >= (now as i128) - (w.duration as i128);
            if inside {
                self.buffers[j].push(point.duplicate());
            }
            proof {
                assert forall|k: (Seq<char>, i64, usize)| #[trigger] self.samples(k) == buffer_push_n(
                    old_self.samples(k),
                    point,
                    cap,
                    if point.timestamp >= now - k.1 { key_count(self.time_windows@.take(i + 1), k) } else { 0 },
                ) by {
                    lemma_key_position(self.windows@, k);
                    let t1 = self.time_windows@.take(i + 1);
                    let t0 = self.time_windows@.take(i as int);
                    assert(t1.drop_last() == t0);
                    assert(t1.last() == self.time_windows@[i as int]);
                    let before_count = if point.timestamp >= now - k.1 { key_count(t0, k) } else { 0 };
                    assert(before.samples(k) == buffer_push_n(old_self.samples(k), point, cap, before_count));
                    if k == kw {
                        assert(key_position(self.windows@, k) == j);
                        assert(key_count(t1, k) == key_count(t0, k) + 1);
                        assert(k.1 == w.duration);
                        if inside {
                            assert(self.samples(k) == buffer_push(before.samples(k), point, cap));
                            assert(buffer_push_n(old_self.samples(k), point, cap, before_count + 1) == buffer_push(buffer_push_n(old_self.samples(k), point, cap, before_count), point, cap));
                        } else {
                            assert(self.samples(k) == before.samples(k));
                        }
                    } else {
                        assert(key_count(t1, k) == key_count(t0, k));
                        let pk = key_position(self.windows@, k);
                        if pk >= 0 {
                            assert(pk != j);
                            assert(self.buffers@[pk] == before.buffers@[pk]);
                        }
                        assert(self.samples(k) == before.samples(k));
                    }
                }
                assert forall|x: int| 0 <= x < self.buffers@.len() implies (#[trigger] self.buffers@[x]).max_size == self.config.max_buffer_size by {
                    if x != j {
                        assert(self.buffers@[x] == before.buffers@[x]);
                    }
                }
            }
            i = i + 1;
        }
        proof {
            assert(self.time_windows@.take(n as int) =~= self.time_windows@);
        }
        let ghost mid = *self;
        let m = self.windows.len();
        let mut j: usize = 0;
        while j < m
            invariant
                m == self.windows@.len(),
                0 <= j <= m,
                self.well_formed(),
                self.windows@ == mid.windows@,
                self.time_windows@ == mid.time_windows@,
                self.config == mid.config,
                mid.well_formed(),
                forall|x: int| 0 <= x < j ==> (#[trigger] self.buffers@[x]).data@ == drop_older(mid.buffers@[x].data@, now - self.windows@[x].duration),
                forall|x: int| j <= x < m ==> (#[trigger] self.buffers@[x]).data@ == mid.buffers@[x].data@,
            decreases m - j,
        {
            let ghost before = *self;
            let cutoff = (now as i128) - (self.windows[j].duration as i128);
            self.buffers[j].drop_older_than(cutoff);
            proof {
                assert forall|x: int| 0 <= x < self.buffers@.len() && x != j implies #[trigger] self.buffers@[x] == before.buffers@[x] by {}
            }
            j = j + 1;
        }
        proof {
            assert forall|k: (Seq<char>, i64, usize)| #[trigger] self.samples(k) == drop_older(
                buffer_push_n(
                    old_self.samples(k),
                    point,
                    old_self.capacity(),
                    if point.timestamp >= now - k.1 { key_count(old_self.configured_windows(), k) } else { 0 },
                ),
                now - k.1,
            ) by {
                lemma_key_position(self.windows@, k);
                let pk = key_position(self.windows@, k);
                if pk >= 0 {
                    assert(mid.samples(k) == mid.buffers@[pk].data@);
                } else {
                    assert forall|x: int| 0 <= x < self.time_windows@.len() implies window_key(#[trigger] self.time_windows@[x]) != k by {
                        lemma_key_position(self.windows@, window_key(self.time_windows@[x]));
                        let y = key_position(self.windows@, window_key(self.time_windows@[x]));
                        assert(window_key(self.windows@[y]) == window_key(self.time_windows@[x]));
                    }
                    lemma_key_count_absent(self.time_windows@, k);
                }
            }
        }
        proof {
            if buffers_bounded(old_self) {
                lemma_buffers_stay_bounded(old_self, *self, point, now);
            }
        }
    }
}

/// `after` holds the buffers of `before` once `point` was added at time `now`.
pub open spec fn added_at(before: RollingAverageCalculator, after: RollingAverageCalculator, point: FeeDataPoint, now: i64) -> bool {
    forall|k: (Seq<char>, i64, usize)| #[trigger] after.samples(k) == drop_older(
        buffer_push_n(
            before.samples(k),
            point,
            before.capacity(),
            if point.timestamp >= now - k.1 { key_count(before.configured_windows(), k) } else { 0 },
        ),
        now - k.1,
    )
}

/// The buffer of window key `k` once `points` were added to `before` one after the other,
/// all at time `now`.
pub open spec fn samples_after_adds(
    before: RollingAverageCalculator,
    points: Seq<FeeDataPoint>,
    now: i64,
    k: (Seq<char>, i64, usize),
) -> Seq<FeeDataPoint>
    decreases points.len(),
{
    if points.len() == 0 {
        before.samples(k)
    } else {
        let point = points.last();
        drop_older(
            buffer_push_n(
                samples_after_adds(before, points.drop_last(), now, k),
                point,
                before.capacity(),
                if point.timestamp >= now - k.1 { key_count(before.configured_windows(), k) } else { 0 },
            ),
            now - k.1,
        )
    }
}

/// A window that is not configured never receives a point: its buffer stays empty
/// whatever points are added.
pub proof fn lemma_unconfigured_window_stays_empty(
    before: RollingAverageCalculator,
    points: Seq<FeeDataPoint>,
    now: i64,
    k: (Seq<char>, i64, usize),
)
    requires
        key_count(before.configured_windows(), k) == 0,
        before.samples(k).len() == 0,
    ensures
        samples_after_adds(before, points, now, k).len() == 0,
    decreases points.len(),
{
    if points.len() > 0 {
        lemma_unconfigured_window_stays_empty(before, points.drop_last(), now, k);
    }
}

/// Every window's buffer of `calc` holds at most `capacity` points (one point when the
/// capacity is zero: a push always lands).
pub open spec fn buffers_bounded(calc: RollingAverageCalculator) -> bool {
    forall|k: (Seq<char>, i64, usize)|
        (#[trigger] calc.samples(k)).len() <= if calc.capacity() >= 1 { calc.capacity() } else { 1 }
}

proof fn lemma_push_n_bounded(s: Seq<FeeDataPoint>, x: FeeDataPoint, max: nat, n: nat)
    requires
        s.len() <= if max >= 1 { max } else { 1 },
    ensures
        buffer_push_n(s, x, max, n).len() <= if max >= 1 { max } else { 1 },
    decreases n,
{
    if n > 0 {
        lemma_push_n_bounded(s, x, max, (n - 1) as nat);
    }
}

proof fn lemma_drop_older_shorter(s: Seq<FeeDataPoint>, cutoff: int)
    ensures
        drop_older(s, cutoff).len() <= s.len(),
    decreases s.len(),
{
    if s.len() > 0 {
        lemma_drop_older_shorter(s.drop_last(), cutoff);
    }
}

proof fn lemma_drop_older_recent(s: Seq<FeeDataPoint>, cutoff: int)
    ensures
        forall|i: int| 0 <= i < drop_older(s, cutoff).len() ==> #[trigger] drop_older(s, cutoff)[i].timestamp >= cutoff,
    decreases s.len(),
{
    if s.len() > 0 {
        lemma_drop_older_recent(s.drop_last(), cutoff);
        let rest = drop_older(s.drop_last(), cutoff);
        let r = drop_older(s, cutoff);
        assert forall|i: int| 0 <= i < r.len() implies #[trigger] r[i].timestamp >= cutoff by {
            if i < rest.len() {
                assert(r[i] == rest[i]);
            }
        }
    }
}

/// After a data point is added at `now`, every point a window holds lies inside that
/// window: none is older than `now` minus the window's duration.
pub proof fn lemma_samples_within_window(
    before: RollingAverageCalculator,
    after: RollingAverageCalculator,
    point: FeeDataPoint,
    now: i64,
)
    requires
        added_at(before, after, point, now),
    ensures
        forall|k: (Seq<char>, i64, usize), i: int|
            0 <= i < after.samples(k).len() ==> #[trigger] after.samples(k)[i].timestamp >= now - k.1,
{
    assert forall|k: (Seq<char>, i64, usize), i: int|
        0 <= i < after.samples(k).len() implies #[trigger] after.samples(k)[i].timestamp >= now - k.1 by {
        let n: nat = if point.timestamp >= now - k.1 { key_count(before.configured_windows(), k) } else { 0 };
        lemma_drop_older_recent(buffer_push_n(before.samples(k), point, before.capacity(), n), now - k.1);
    }
}

/// Adding a data point never makes a window's buffer exceed the configured capacity.
pub proof fn lemma_buffers_stay_bounded(
    before: RollingAverageCalculator,
    after: RollingAverageCalculator,
    point: FeeDataPoint,
    now: i64,
)
    requires
        buffers_bounded(before),
        added_at(before, after, point, now),
        after.capacity() == before.capacity(),
    ensures
        buffers_bounded(after),
{
    assert forall|k: (Seq<char>, i64, usize)|
        (#[trigger] after.samples(k)).len() <= if after.capacity() >= 1 { after.capacity() } else { 1 } by {
        let n: nat = if point.timestamp >= now - k.1 { key_count(before.configured_windows(), k) } else { 0 };
        let pushed = buffer_push_n(before.samples(k), point, before.capacity(), n);
        lemma_push_n_bounded(before.samples(k), point, before.capacity(), n);
        lemma_drop_older_shorter(pushed, now - k.1);
    }
}

/// Position of the first window of `ws` named `name` (-1 when none is).
pub open spec fn named_position(ws: Seq<TimeWindow>, name: Seq<char>) -> int
    decreases ws.len(),
{
    if ws.len() == 0 {
        -1
    } else if ws[0].name@ == name {
        0
    } else {
        let rest = named_position(ws.drop_first(), name);
        if rest < 0 { -1 } else { rest + 1 }
    }
}

proof fn lemma_named_position(ws: Seq<TimeWindow>, name: Seq<char>)
    ensures
        -1 <= named_position(ws, name) < ws.len(),
        named_position(ws, name) >= 0 ==> ws[named_position(ws, name)].name@ == name,
        forall|j: int| 0 <= j < named_position(ws, name) ==> (#[trigger] ws[j]).name@ != name,
        named_position(ws, name) < 0 ==> forall|j: int| 0 <= j < ws.len() ==> (#[trigger] ws[j]).name@ != name,
    decreases ws.len(),
{
    if ws.len() > 0 {
        lemma_named_position(ws.drop_first(), name);
        if ws[0].name@ != name {
            let rest = named_position(ws.drop_first(), name);
            if rest >= 0 {
                assert(ws[rest + 1] == ws.drop_first()[rest]);
                assert forall|j: int| 0 <= j < rest + 1 implies (#[trigger] ws[j]).name@ != name by {
                    if j > 0 {
                        assert(ws[j] == ws.drop_first()[j - 1]);
                    }
                }
            } else {
                assert forall|j: int| 0 <= j < ws.len() implies (#[trigger] ws[j]).name@ != name by {
                    if j > 0 {
                        assert(ws[j] == ws.drop_first()[j - 1]);
                    }
                }
            }
        }
    }
}

/// The rolling average of `samples` for `window`, stamped `at`: empty windows and
/// windows with fewer samples than required are partial.
pub open spec fn average_of(samples: Seq<FeeDataPoint>, window: TimeWindow, at: i64) -> AverageResult {
    AverageResult {
        total_fee: fee_total(samples) as u128,
        sample_count: samples.len() as usize,
        is_partial: samples.len() == 0 || samples.len() < window.min_samples,
        calculated_at: at,
        time_window: window,
    }
}

/// Message of the error for a missing standard window.
pub open spec fn window_missing_text(name: Seq<char>) -> Seq<char> {
    "Time window '"@ + name + "' not found"@
}

/// Averages of the three standard windows (`short_term`, `medium_term`, `long_term`,
/// each the first configured window of that name), or the error for the first one missing.
pub open spec fn standard_averages(calc: RollingAverageCalculator, at: i64) -> Result<RollingAverages, Seq<char>> {
    let ws = calc.configured_windows();
    let ps = named_position(ws, "short_term"@);
    let pm = named_position(ws, "medium_term"@);
    let pl = named_position(ws, "long_term"@);
    if ps < 0 {
        Err(window_missing_text("short_term"@))
    } else if pm < 0 {
        Err(window_missing_text("medium_term"@))
    } else if pl < 0 {
        Err(window_missing_text("long_term"@))
    } else {
        Ok(RollingAverages {
            short_term: average_of(calc.samples(window_key(ws[ps])), ws[ps], at),
            medium_term: average_of(calc.samples(window_key(ws[pm])), ws[pm], at),
            long_term: average_of(calc.samples(window_key(ws[pl])), ws[pl], at),
        })
    }
}

/// `w` is the first configured window of `calc` named `name`.
pub open spec fn first_named(calc: RollingAverageCalculator, name: Seq<char>, w: TimeWindow) -> bool {
    exists|i: int|
        0 <= i < calc.configured_windows().len() && #[trigger] calc.configured_windows()[i] == w && w.name@ == name
            && forall|j: int| 0 <= j < i ==> (#[trigger] calc.configured_windows()[j]).name@ != name
}

/// `a` is the rolling average, stamped `at`, of the first configured window of `calc` named
/// `name`: that window, the sum and the number of the points held for it (in the result's
/// integer types), and whether they are fewer than it asks for.
pub open spec fn averages_window(calc: RollingAverageCalculator, name: Seq<char>, a: AverageResult, at: i64) -> bool {
    let held = calc.samples(window_key(a.time_window));
    &&& first_named(calc, name, a.time_window)
    &&& a.time_window.name@ == name
    &&& a.sample_count == held.len() as usize
    &&& a.total_fee == fee_total(held) as u128
    &&& a.is_partial == (held.len() == 0 || held.len() < a.time_window.min_samples)
    &&& a.calculated_at == at
}

/// Some configured window of `calc` is named `name`.
pub open spec fn has_window_named(calc: RollingAverageCalculator, name: Seq<char>) -> bool {
    exists|i: int| 0 <= i < calc.configured_windows().len() && (#[trigger] calc.configured_windows()[i]).name@ == name
}

/// The standard averages exist exactly when windows named `short_term`, `medium_term` and
/// `long_term` are all configured; each entry is then the average of the first window of
/// its own name, over the points held for that window.
pub proof fn lemma_standard_averages_by_name(calc: RollingAverageCalculator, at: i64)
    ensures
        standard_averages(calc, at) is Ok <==> (has_window_named(calc, "short_term"@) && has_window_named(
            calc,
            "medium_term"@,
        ) && has_window_named(calc, "long_term"@)),
        standard_averages(calc, at) matches Ok(r) ==> {
            &&& averages_window(calc, "short_term"@, r.short_term, at)
            &&& averages_window(calc, "medium_term"@, r.medium_term, at)
            &&& averages_window(calc, "long_term"@, r.long_term, at)
        },
{
    let ws = calc.configured_windows();
    lemma_named_position(ws, "short_term"@);
    lemma_named_position(ws, "medium_term"@);
    lemma_named_position(ws, "long_term"@);
    let ps = named_position(ws, "short_term"@);
    let pm = named_position(ws, "medium_term"@);
    let pl = named_position(ws, "long_term"@);
    if ps >= 0 {
        assert(ws[ps].name@ == "short_term"@);
        assert(first_named(calc, "short_term"@, ws[ps]));
    }
    if pm >= 0 {
        assert(ws[pm].name@ == "medium_term"@);
        assert(first_named(calc, "medium_term"@, ws[pm]));
    }
    if pl >= 0 {
        assert(ws[pl].name@ == "long_term"@);
        assert(first_named(calc, "long_term"@, ws[pl]));
    }
}

impl RollingAverageCalculator {
    fn buffer_for(&self, window: &TimeWindow) -> (r: Option<usize>)
        requires
            self.well_formed(),
        ensures
            r matches Some(j) ==> j < self.buffers@.len() && self.samples(window_key(*window)) == self.buffers@[j as int].data@,
            r is None ==> self.samples(window_key(*window)) == Seq::<FeeDataPoint>::empty(),
            r is None ==> key_position(self.windows@, window_key(*window)) < 0,
    {
        proof {
            lemma_key_position(self.windows@, window_key(*window));
        }
        assert(self.windows@.len() == self.windows.len());
        find_window(&self.windows, window)
    }

    /// Average of the window `window_name` (the first configured window of that name).
    fn calculate_average_for_window(&self, window_name: &str, calculated_at: i64) -> (r: Result<AverageResult, InsightsError>)
        requires
            self.well_formed(),
        ensures
            named_position(self.configured_windows(), window_name@) < 0 ==> (r matches Err(InsightsError::Config(m))
                && m@ == window_missing_text(window_name@)),
            named_position(self.configured_windows(), window_name@) >= 0 ==> ({
                let w = self.configured_windows()[named_position(self.configured_windows(), window_name@)];
                r == Ok::<AverageResult, InsightsError>(average_of(self.samples(window_key(w)), w, calculated_at))
            }),
    {
        proof {
            lemma_named_position(self.time_windows@, window_name@);
        }
        let mut p: usize = 0;
        while p < self.time_windows.len() && !crate::text::str_eq(self.time_windows[p].name.as_str(), window_name)
            invariant
                0 <= p <= self.time_windows@.len(),
                forall|j: int| 0 <= j < p ==> (#[trigger] self.time_windows@[j]).name@ != window_name@,
                -1 <= named_position(self.time_windows@, window_name@) < self.time_windows@.len(),
                named_position(self.time_windows@, window_name@) >= 0 ==> self.time_windows@[named_position(self.time_windows@, window_name@)].name@ == window_name@,
                named_position(self.time_windows@, window_name@) < 0 ==> forall|j: int| 0 <= j < self.time_windows@.len() ==> (#[trigger] self.time_windows@[j]).name@ != window_name@,
            decreases self.time_windows@.len() - p,
        {
            p = p + 1;
        }
        if p == self.time_windows.len() {
            let mut out: Vec<char> = Vec::new();
            push_str(&mut out, "Time window '");
            push_str(&mut out, window_name);
            push_str(&mut out, "' not found");
            assert(out@ =~= window_missing_text(window_name@));
            return Err(InsightsError::Config(string_from_chars(&out)));
        }
        proof {
            lemma_first_named(self.time_windows@, window_name@, p as int);
        }
        let time_window = &self.time_windows[p];
        let j = match self.buffer_for(time_window) {
            Some(j) => j,
            None => {
                proof {
                    assert(key_position(self.windows@, window_key(self.time_windows@[p as int])) >= 0);
                    assert(false);
                }
                return Err(InsightsError::Config(String::from_str("Buffer for window not found")));
            },
        };
        let buffer = &self.buffers[j];
        let count = buffer.len();
        if buffer.is_empty() {
            return Ok(AverageResult {
                total_fee: 0,
                sample_count: 0,
                is_partial: true,
                calculated_at,
                time_window: time_window.duplicate(),
            });
        }
        let total = buffer.total();
        Ok(AverageResult {
            total_fee: total,
            sample_count: count,
            is_partial: count < time_window.min_samples,
            calculated_at,
            time_window: time_window.duplicate(),
        })
    }

    /// Calculate averages for the three standard windows, stamped `now`.
    pub fn calculate_averages_at(&self, now: i64) -> (r: Result<RollingAverages, InsightsError>)
        requires
            self.well_formed(),
        ensures
            standard_averages(*self, now) matches Ok(a) ==> r == Ok::<RollingAverages, InsightsError>(a),
            standard_averages(*self, now) matches Err(m) ==> (r matches Err(InsightsError::Config(e)) && e@ == m),
    {
        proof {
            reveal_strlit("short_term");
            reveal_strlit("medium_term");
            reveal_strlit("long_term");
        }
        let short_term = match self.calculate_average_for_window("short_term", now) {
            Ok(a) => a,
            Err(e) => return Err(e),
        };
        let medium_term = match self.calculate_average_for_window("medium_term", now) {
            Ok(a) => a,
            Err(e) => return Err(e),
        };
        let long_term = match self.calculate_average_for_window("long_term", now) {
            Ok(a) => a,
            Err(e) => return Err(e),
        };
        Ok(RollingAverages { short_term, medium_term, long_term })
    }

    /// Calculate averages for all time windows
    pub fn calculate_averages(&self) -> (r: Result<RollingAverages, InsightsError>)
        requires
            self.well_formed(),
        ensures
            exists|now: i64| ({
                &&& #[trigger] standard_averages(*self, now) matches Ok(a) ==> r == Ok::<RollingAverages, InsightsError>(a)
                &&& standard_averages(*self, now) matches Err(m) ==> (r matches Err(InsightsError::Config(e)) && e@ == m)
            }),
    {
        let now = crate::clock::now_millis();
        self.calculate_averages_at(now)
    }

    /// Adds the points one after the other, each as of `now` (see `add_data_point_at`).
    pub fn add_data_points_at(&mut self, points: &[FeeDataPoint], now: i64)
        requires
            old(self).well_formed(),
        ensures
            final(self).well_formed(),
            final(self).configured_windows() == old(self).configured_windows(),
            final(self).capacity() == old(self).capacity(),
            forall|k: (Seq<char>, i64, usize)| #[trigger] final(self).samples(k) == samples_after_adds(*old(self), points@, now, k),
            buffers_bounded(*old(self)) ==> buffers_bounded(*final(self)),
    {
        let ghost start = *self;
        let n = points.len();
        let mut i: usize = 0;
        while i < n
            invariant
                n == points@.len(),
                0 <= i <= n,
                self.well_formed(),
                self.configured_windows() == start.configured_windows(),
                self.capacity() == start.capacity(),
                forall|k: (Seq<char>, i64, usize)| #[trigger] self.samples(k) == samples_after_adds(start, points@.take(i as int), now, k),
                buffers_bounded(start) ==> buffers_bounded(*self),
            decreases n - i,
        {
            proof {
                assert(points@.take(i + 1).drop_last() =~= points@.take(i as int));
                assert(points@.take(i + 1).last() == points@[i as int]);
            }
            self.add_data_point_at(points[i].duplicate(), now);
            i = i + 1;
        }
        proof {
            assert(points@.take(n as int) =~= points@);
        }
    }

    /// Add a new data point to all relevant time windows, as of the current time.
    pub fn add_data_point(&mut self, point: FeeDataPoint)
        requires
            old(self).well_formed(),
        ensures
            final(self).well_formed(),
            final(self).configured_windows() == old(self).configured_windows(),
            final(self).capacity() == old(self).capacity(),
            exists|now: i64| #[trigger] added_at(*old(self), *final(self), point, now),
            buffers_bounded(*old(self)) ==> buffers_bounded(*final(self)),
    {
        let now = crate::clock::now_millis();
        self.add_data_point_at(point, now);
        assert(added_at(*old(self), *self, point, now));
        proof {
            if buffers_bounded(*old(self)) {
                lemma_buffers_stay_bounded(*old(self), *self, point, now);
            }
        }
    }

    /// Average of a window, stamped `now`; `None` when the window holds no data.
    pub fn get_average_for_window_at(&self, window: &TimeWindow, now: i64) -> (r: Option<AverageResult>)
        requires
            self.well_formed(),
        ensures
            self.samples(window_key(*window)).len() == 0 ==> r is None,
            self.samples(window_key(*window)).len() > 0 ==> r == Some(average_of(self.samples(window_key(*window)), *window, now)),
    {
        let j = match self.buffer_for(window) {
            Some(j) => j,
            None => return None,
        };
        let buffer = &self.buffers[j];
        if buffer.is_empty() {
            return None;
        }
        let total = buffer.total();
        let sample_count = buffer.len();
        Some(AverageResult {
            total_fee: total,
            sample_count,
            is_partial: sample_count < window.min_samples,
            calculated_at: now,
            time_window: window.duplicate(),
        })
    }

    /// Get average for a specific time window
    pub fn get_average_for_window(&self, window: &TimeWindow) -> (r: Option<AverageResult>)
        requires
            self.well_formed(),
        ensures
            self.samples(window_key(*window)).len() == 0 ==> r is None,
            self.samples(window_key(*window)).len() > 0 ==> exists|now: i64| r == Some(#[trigger] average_of(self.samples(window_key(*window)), *window, now)),
    {
        let now = crate::clock::now_millis();
        self.get_average_for_window_at(window, now)
    }

    /// Get the number of data points in a specific time window
    pub fn get_sample_count(&self, window: &TimeWindow) -> (r: usize)
        requires
            self.well_formed(),
        ensures
            r == self.samples(window_key(*window)).len(),
    {
        match self.buffer_for(window) {
            Some(j) => self.buffers[j].len(),
            None => 0,
        }
    }

    /// Check if a time window has sufficient data for reliable calculations
    pub fn has_sufficient_data(&self, window: &TimeWindow) -> (r: bool)
        requires
            self.well_formed(),
        ensures
            r == (self.samples(window_key(*window)).len() >= window.min_samples),
    {
        let sample_count = self.get_sample_count(window);
        sample_count >= window.min_samples
    }
}

proof fn lemma_first_named(ws: Seq<TimeWindow>, name: Seq<char>, p: int)
    requires
        0 <= p < ws.len(),
        ws[p].name@ == name,
        forall|j: int| 0 <= j < p ==> (#[trigger] ws[j]).name@ != name,
    ensures
        named_position(ws, name) == p,
    decreases p,
{
    if p > 0 {
        assert forall|j: int| 0 <= j < p - 1 implies (#[trigger] ws.drop_first()[j]).name@ != name by {
            assert(ws.drop_first()[j] == ws[j + 1]);
        }
        lemma_first_named(ws.drop_first(), name, p - 1);
    }
}

} // verus!
