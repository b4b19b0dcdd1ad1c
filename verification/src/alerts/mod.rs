//! Which fee spikes are sent to the alert webhook.

use vstd::prelude::*;

use crate::insights::types::SpikeSeverity;

verus! {

/// Order of severities: Minor < Moderate < Major < Critical.
pub open spec fn rank_of(severity: SpikeSeverity) -> u8 {
    match severity {
        SpikeSeverity::Minor => 0,
        SpikeSeverity::Moderate => 1,
        SpikeSeverity::Major => 2,
        SpikeSeverity::Critical => 3,
    }
}

/// Name of a severity, as alerts and thresholds spell it.
pub open spec fn severity_text(severity: SpikeSeverity) -> Seq<char> {
    match severity {
        SpikeSeverity::Minor => "Minor"@,
        SpikeSeverity::Moderate => "Moderate"@,
        SpikeSeverity::Major => "Major"@,
        SpikeSeverity::Critical => "Critical"@,
    }
}

/// Position of a severity from minor (0) to critical (3).
pub fn severity_rank(severity: &SpikeSeverity) -> (r: u8)
    ensures
        r == rank_of(*severity),
{
    match severity {
        SpikeSeverity::Minor => 0,
        SpikeSeverity::Moderate => 1,
        SpikeSeverity::Major => 2,
        SpikeSeverity::Critical => 3,
    }
}

/// Whether a spike of `severity` is at least as severe as `threshold`.
pub fn meets_threshold(severity: &SpikeSeverity, threshold: &SpikeSeverity) -> (r: bool)
    ensures
        r == (rank_of(*severity) >= rank_of(*threshold)),
{
    severity_rank(severity) >= severity_rank(threshold)
}

/// The name of a severity.
pub fn severity_to_str(severity: &SpikeSeverity) -> (r: &'static str)
    ensures
        r@ == severity_text(*severity),
{
    match severity {
        SpikeSeverity::Minor => "Minor",
        SpikeSeverity::Moderate => "Moderate",
        SpikeSeverity::Major => "Major",
        SpikeSeverity::Critical => "Critical",
    }
}

/// What the alert manager reads of a detected spike.
#[derive(Debug, Clone, Copy)]
pub struct AlertCandidate {
    pub severity: SpikeSeverity,
    /// Start of the spike (ms since the Unix epoch).
    pub start_time: i64,
    pub peak_fee: u64,
}

/// Identity under which a spike is alerted at most once: severity, start second and peak fee.
#[derive(Debug, Clone, Copy, PartialEq, Eq, Structural)]
pub struct SpikeIdentity {
    pub severity: SpikeSeverity,
    /// Start of the spike in whole seconds since the epoch (rounded down).
    pub start_second: i64,
    pub peak_fee: u64,
}

/// The identity of a candidate: its start counted in whole seconds (rounded down).
pub open spec fn identity_of(c: AlertCandidate) -> SpikeIdentity {
    SpikeIdentity {
        severity: c.severity,
        start_second: (c.start_time as int / 1000) as i64,
        peak_fee: c.peak_fee,
    }
}

/// The identity under which a candidate is alerted.
pub fn spike_identity(c: &AlertCandidate) -> (r: SpikeIdentity)
    ensures
        r == identity_of(*c),
{
    let second = match c.start_time.checked_div_euclid(1000) {
        Some(q) => q,
        None => 0,
    };
    SpikeIdentity { severity: c.severity, start_second: second, peak_fee: c.peak_fee }
}

/// Spikes already alerted.
pub struct SeenSpikes {
    ids: Vec<SpikeIdentity>,
}

impl SeenSpikes {
    /// The identities recorded so far.
    pub closed spec fn view(self) -> Set<SpikeIdentity> {
        self.ids@.to_set()
    }

    /// Nothing recorded yet.
    pub fn new() -> (r: Self)
        ensures
            r.view() == Set::<SpikeIdentity>::empty(),
    {
        let r = SeenSpikes { ids: Vec::new() };
        assert(r.ids@.to_set() =~= Set::<SpikeIdentity>::empty());
        r
    }

    /// Whether `id` was already recorded.
    pub fn contains(&self, id: &SpikeIdentity) -> (r: bool)
        ensures
            r == self.view().contains(*id),
    {
        let mut i: usize = 0;
        while i < self.ids.len()
            invariant
                0 <= i <= self.ids@.len(),
                forall|j: int| 0 <= j < i ==> self.ids@[j] != *id,
            decreases self.ids@.len() - i,
        {
            if self.ids[i] == *id {
                assert(self.ids@.contains(*id));
                return true;
            }
            i = i + 1;
        }
        false
    }

    /// Records `id`; returns whether it was new.
    pub fn insert(&mut self, id: SpikeIdentity) -> (r: bool)
        ensures
            r == !old(self).view().contains(id),
            final(self).view() == old(self).view().insert(id),
    {
        if self.contains(&id) {
            assert(self.view().insert(id) =~= self.view());
            return false;
        }
        let ghost before = self.ids@;
        self.ids.push(id);
        proof {
            assert(self.ids@ == before.push(id));
            assert forall|a: SpikeIdentity| #[trigger] self.ids@.contains(a) <==> (before.contains(a) || a == id) by {
                if self.ids@.contains(a) {
                    let k = choose|k: int| 0 <= k < self.ids@.len() && self.ids@[k] == a;
                    if k < before.len() {
                        assert(before[k] == a);
                    }
                }
                if before.contains(a) {
                    let k = choose|k: int| 0 <= k < before.len() && before[k] == a;
                    assert(self.ids@[k] == a);
                }
                if a == id {
                    assert(self.ids@[before.len() as int] == a);
                }
            }
            assert(self.ids@.to_set() =~= before.to_set().insert(id));
        }
        true
    }
}

/// Whether candidate `i` is sent: it meets the threshold, its identity was not alerted
/// before the call, and no earlier candidate of the batch meeting the threshold has the
/// same identity.
pub open spec fn dispatched(
    seen: Set<SpikeIdentity>,
    spikes: Seq<AlertCandidate>,
    threshold: SpikeSeverity,
    i: int,
) -> bool {
    &&& rank_of(spikes[i].severity) >= rank_of(threshold)
    &&& !seen.contains(identity_of(spikes[i]))
    &&& forall|j: int|
        0 <= j < i && rank_of(spikes[j].severity) >= rank_of(threshold) ==> identity_of(
            #[trigger] spikes[j],
        ) != identity_of(spikes[i])
}

/// Identities of the candidates among the first `n` that meet the threshold.
pub open spec fn alerted_identities(
    spikes: Seq<AlertCandidate>,
    threshold: SpikeSeverity,
    n: int,
) -> Set<SpikeIdentity> {
    Set::new(
        |id: SpikeIdentity|
            exists|j: int|
                0 <= j < n && rank_of(spikes[j].severity) >= rank_of(threshold) && identity_of(
                    #[trigger] spikes[j],
                ) == id,
    )
}

/// Picks the spikes of an update that go to the webhook, in order, and records them so
/// that a spike is never sent twice.
pub fn spikes_to_dispatch(
    seen: &mut SeenSpikes,
    spikes: &[AlertCandidate],
    threshold: &SpikeSeverity,
) -> (r: Vec<usize>)
    ensures
        forall|k: int| 0 <= k < r@.len() ==> #[trigger] r@[k] < spikes@.len(),
        forall|k1: int, k2: int| 0 <= k1 < k2 < r@.len() ==> r@[k1] < r@[k2],
        forall|i: int|
            0 <= i < spikes@.len() ==> (r@.contains(i as usize) <==> dispatched(
                old(seen).view(),
                spikes@,
                *threshold,
                i,
            )),
        final(seen).view() == old(seen).view().union(
            alerted_identities(spikes@, *threshold, spikes@.len() as int),
        ),
{
    let ghost seen0 = seen.view();
    let mut out: Vec<usize> = Vec::new();
    let n = spikes.len();
    let mut i: usize = 0;
    while i < n
        invariant
            n == spikes@.len(),
            0 <= i <= n,
            forall|k: int| 0 <= k < out@.len() ==> #[trigger] out@[k] < i,
            forall|k1: int, k2: int| 0 <= k1 < k2 < out@.len() ==> out@[k1] < out@[k2],
            forall|x: int|
                0 <= x < i ==> (out@.contains(x as usize) <==> dispatched(
                    seen0,
                    spikes@,
                    *threshold,
                    x,
                )),
            seen.view() == seen0.union(alerted_identities(spikes@, *threshold, i as int)),
        decreases n - i,
    {
        let c = spikes[i];
        let ghost before = seen.view();
        let ghost out_before = out@;
        let mut sent = false;
        if meets_threshold(&c.severity, threshold) {
            let id = spike_identity(&c);
            let fresh = seen.insert(id);
            proof {
                assert(fresh == dispatched(seen0, spikes@, *threshold, i as int)) by {
                    if !fresh {
                        assert(before.contains(id));
                        if !seen0.contains(id) {
                            let j = choose|j: int|
                                0 <= j < i && rank_of(spikes@[j].severity) >= rank_of(*threshold)
                                    && identity_of(#[trigger] spikes@[j]) == id;
                        }
                    } else {
                        assert forall|j: int|
                            0 <= j < i && rank_of(spikes@[j].severity) >= rank_of(*threshold)
                                implies identity_of(#[trigger] spikes@[j]) != identity_of(
                            spikes@[i as int],
                        ) by {
                            assert(alerted_identities(spikes@, *threshold, i as int).contains(
                                identity_of(spikes@[j]),
                            ));
                        }
                    }
                }
            }
            if fresh {
                out.push(i);
                sent = true;
            }
        }
        assert(sent == dispatched(seen0, spikes@, *threshold, i as int));
        assert(sent ==> out@ == out_before.push(i));
        assert(!sent ==> out@ == out_before);
        proof {
            assert(seen.view() =~= seen0.union(alerted_identities(spikes@, *threshold, i + 1))) by {
                assert forall|id: SpikeIdentity|
                    alerted_identities(spikes@, *threshold, i + 1).contains(id) implies seen.view().contains(id) by {
                    let j = choose|j: int|
                        0 <= j < i + 1 && rank_of(spikes@[j].severity) >= rank_of(*threshold)
                            && identity_of(#[trigger] spikes@[j]) == id;
                    if j < i {
                        assert(alerted_identities(spikes@, *threshold, i as int).contains(id));
                    }
                }
                assert forall|id: SpikeIdentity|
                    alerted_identities(spikes@, *threshold, i as int).contains(id) implies alerted_identities(
                        spikes@, *threshold, i + 1).contains(id) by {
                    let j = choose|j: int|
                        0 <= j < i && rank_of(spikes@[j].severity) >= rank_of(*threshold)
                            && identity_of(#[trigger] spikes@[j]) == id;
                }
                if rank_of(c.severity) >= rank_of(*threshold) {
                    assert(alerted_identities(spikes@, *threshold, i + 1).contains(identity_of(c)));
                }
            }
            assert forall|x: int|
                0 <= x < i + 1 implies (out@.contains(x as usize) <==> dispatched(
                    seen0,
                    spikes@,
                    *threshold,
                    x,
                )) by {
                if out@.contains(x as usize) {
                    let k = choose|k: int| 0 <= k < out@.len() && out@[k] == x as usize;
                    if k < out_before.len() {
                        assert(out_before[k] == x as usize);
                        assert(out_before.contains(x as usize));
                    }
                }
                if x < i && out_before.contains(x as usize) {
                    let k = choose|k: int| 0 <= k < out_before.len() && out_before[k] == x as usize;
                    assert(out@[k] == x as usize);
                }
                if x == i && sent {
                    assert(out@[out_before.len() as int] == i);
                }
                if x == i && out_before.contains(x as usize) {
                    let k = choose|k: int| 0 <= k < out_before.len() && out_before[k] == x as usize;
                    assert(out_before[k] < i);
                }
            }
        }
        i = i + 1;
    }
    out
}

/// Once an update's spikes are recorded, handing the same spikes in again sends none of
/// them: no spike goes to the webhook twice.
pub proof fn lemma_no_second_dispatch(
    seen: Set<SpikeIdentity>,
    spikes: Seq<AlertCandidate>,
    threshold: SpikeSeverity,
)
    ensures
        forall|i: int|
            0 <= i < spikes.len() ==> !#[trigger] dispatched(
                seen.union(alerted_identities(spikes, threshold, spikes.len() as int)),
                spikes,
                threshold,
                i,
            ),
{
    let after = seen.union(alerted_identities(spikes, threshold, spikes.len() as int));
    assert forall|i: int| 0 <= i < spikes.len() implies !#[trigger] dispatched(after, spikes, threshold, i) by {
        if rank_of(spikes[i].severity) >= rank_of(threshold) {
            assert(alerted_identities(spikes, threshold, spikes.len() as int).contains(identity_of(spikes[i])));
        }
    }
}

/// A spike's identity keeps its severity and peak fee, and names its start by the whole
/// second it falls in: the second `t` with `1000 * t <= start_time < 1000 * (t + 1)`.
pub proof fn lemma_identity_start_second(c: AlertCandidate)
    ensures
        identity_of(c).severity == c.severity,
        identity_of(c).peak_fee == c.peak_fee,
        1000 * identity_of(c).start_second <= c.start_time < 1000 * identity_of(c).start_second + 1000,
{
    let q = c.start_time as int / 1000;
    assert(1000 * q <= c.start_time < 1000 * q + 1000);
    assert(i64::MIN <= q <= i64::MAX);
}

/// Spikes that start in different whole seconds have different identities.
pub proof fn lemma_identity_separates_seconds(c1: AlertCandidate, c2: AlertCandidate)
    requires
        c1.start_time as int / 1000 != c2.start_time as int / 1000,
    ensures
        identity_of(c1) != identity_of(c2),
{
    lemma_identity_start_second(c1);
    lemma_identity_start_second(c2);
}

/// After the spikes of one update were handled, a spike of a later update that meets the
/// threshold is sent when it starts in a second in which no spike handled so far, nor any
/// spike before it in its own update, started.
pub proof fn lemma_new_second_is_dispatched(
    seen: Set<SpikeIdentity>,
    earlier: Seq<AlertCandidate>,
    later: Seq<AlertCandidate>,
    threshold: SpikeSeverity,
    i: int,
)
    requires
        0 <= i < later.len(),
        rank_of(later[i].severity) >= rank_of(threshold),
        forall|id: SpikeIdentity| #[trigger] seen.contains(id) ==> id.start_second != later[i].start_time as int / 1000,
        forall|j: int| 0 <= j < earlier.len() ==> (#[trigger] earlier[j]).start_time as int / 1000 != later[i].start_time as int / 1000,
        forall|j: int| 0 <= j < i ==> (#[trigger] later[j]).start_time as int / 1000 != later[i].start_time as int / 1000,
    ensures
        dispatched(seen.union(alerted_identities(earlier, threshold, earlier.len() as int)), later, threshold, i),
{
    let c = later[i];
    lemma_identity_start_second(c);
    let all = seen.union(alerted_identities(earlier, threshold, earlier.len() as int));
    if all.contains(identity_of(c)) {
        if !seen.contains(identity_of(c)) {
            let j = choose|j: int|
                0 <= j < earlier.len() && rank_of(earlier[j].severity) >= rank_of(threshold) && identity_of(
                    #[trigger] earlier[j],
                ) == identity_of(c);
            lemma_identity_separates_seconds(earlier[j], c);
        }
    }
    assert forall|j: int|
        0 <= j < i && rank_of(later[j].severity) >= rank_of(threshold) implies identity_of(#[trigger] later[j])
            != identity_of(later[i]) by {
        lemma_identity_separates_seconds(later[j], later[i]);
    }
}

} // verus!
