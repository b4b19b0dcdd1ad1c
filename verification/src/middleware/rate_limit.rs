//! Per-client token buckets of the API's rate limiter.
//!
//! A bucket holds up to `capacity` tokens and gains `refill_tokens` tokens every
//! `refill_period_ns` nanoseconds, continuously. Amounts are counted exactly, in units of
//! `1 / refill_period_ns` token, and time is a reading of a monotonic clock in
//! nanoseconds.

use vstd::prelude::*;

use crate::api::alerts::trim_chars;
use crate::api::headers::trim;
use crate::text::{before_first, chars_of, prefix_before, string_from_chars};

verus! {

/// Nanoseconds in a second.
pub const NANOS_PER_SECOND: u64 = 1_000_000_000;

/// Nanoseconds in a minute.
pub const NANOS_PER_MINUTE: u64 = 60_000_000_000;

/// Idle time after which a client's bucket may be dropped (ns).
pub const STALE_BUCKET_NANOS: u64 = 120_000_000_000;

/// Number of tracked clients above which stale buckets are dropped.
pub const EVICTION_THRESHOLD: usize = 10_000;

/// A token bucket.
#[derive(Debug)]
pub struct TokenBucket {
    /// Current tokens, in units of `1 / refill_period_ns` token.
    tokens: u128,
    /// Clock reading of the last refill (ns).
    last_refill: u64,
    capacity: u32,
    refill_tokens: u32,
    refill_period_ns: u64,
}

/// Units (of `1 / period` token) after refilling `tokens` for the time from `last` to
/// `now`, at `rate` tokens per `period` ns, capped at `capacity` tokens. Time that runs
/// backwards adds nothing.
pub open spec fn refilled(tokens: nat, last: u64, now: u64, capacity: nat, rate: nat, period: nat) -> nat {
    if now <= last {
        tokens
    } else {
        let t = tokens + (now - last) * rate;
        if t > capacity * period {
            capacity * period
        } else {
            t as nat
        }
    }
}

/// Whole seconds until the next token is there, at least one, when `tokens` units are
/// held (less than a token) and `rate` tokens come every `period` ns.
pub open spec fn seconds_to_next_token(tokens: nat, rate: nat, period: nat) -> nat {
    let needed: int = period - tokens;
    let per_second: int = rate * NANOS_PER_SECOND;
    let secs: int = (needed + per_second - 1) / per_second;
    if secs >= 1 {
        secs as nat
    } else {
        1
    }
}

/// Outcome of a request against a bucket holding `tokens` units, after its refill: a
/// token is taken and the whole tokens left are reported, or the request is refused with
/// the seconds to wait.
pub open spec fn consume_outcome(tokens: nat, rate: nat, period: nat) -> (Result<nat, nat>, nat) {
    if tokens >= period {
        (Ok(((tokens - period) as nat) / period), (tokens - period) as nat)
    } else {
        (Err(seconds_to_next_token(tokens, rate, period)), tokens)
    }
}

/// Outcomes of `k` requests made one after another at one instant, starting with
/// `tokens` units.
pub open spec fn burst(tokens: nat, rate: nat, period: nat, k: nat) -> Seq<Result<nat, nat>>
    decreases k,
{
    if k == 0 {
        Seq::empty()
    } else {
        let (first, left) = consume_outcome(tokens, rate, period);
        seq![first] + burst(left, rate, period, (k - 1) as nat)
    }
}

impl TokenBucket {
    #[verifier::type_invariant]
    spec fn well_formed(self) -> bool {
        &&& self.capacity >= 1
        &&& self.refill_tokens >= 1
        &&& self.refill_period_ns >= 1
        &&& self.tokens <= self.capacity * self.refill_period_ns
    }

    /// Tokens held, in units of `1 / refill_period()` token.
    pub closed spec fn tokens(self) -> nat {
        self.tokens as nat
    }

    /// Clock reading of the last refill (ns).
    pub closed spec fn last_refill(self) -> u64 {
        self.last_refill
    }

    /// Most tokens the bucket holds.
    pub closed spec fn capacity(self) -> nat {
        self.capacity as nat
    }

    /// Tokens gained per refill period.
    pub closed spec fn refill_rate(self) -> nat {
        self.refill_tokens as nat
    }

    /// Length of a refill period (ns).
    pub closed spec fn refill_period(self) -> nat {
        self.refill_period_ns as nat
    }

    /// A full bucket of `capacity` tokens gaining `refill_tokens` tokens every
    /// `refill_period_ns` ns, last refilled at `now`.
    pub fn new(capacity: u32, refill_tokens: u32, refill_period_ns: u64, now: u64) -> (r: Self)
        requires
            capacity >= 1,
            refill_tokens >= 1,
            refill_period_ns >= 1,
        ensures
            r.tokens() == capacity * refill_period_ns,
            r.last_refill() == now,
            r.capacity() == capacity,
            r.refill_rate() == refill_tokens,
            r.refill_period() == refill_period_ns,
    {
        assert((capacity as u128) * (refill_period_ns as u128) <= 0xffff_ffff * 0xffff_ffff_ffff_ffffu128)
            by (nonlinear_arith)
            requires
                capacity <= 0xffff_ffff,
                refill_period_ns <= 0xffff_ffff_ffff_ffff,
        ;
        let full: u128 = capacity as u128 * refill_period_ns as u128;
        TokenBucket { tokens: full, last_refill: now, capacity, refill_tokens, refill_period_ns }
    }

    fn refill(&mut self, now: u64)
        ensures
            final(self).tokens() == refilled(
                old(self).tokens(),
                old(self).last_refill(),
                now,
                old(self).capacity(),
                old(self).refill_rate(),
                old(self).refill_period(),
            ),
            final(self).last_refill() == if now <= old(self).last_refill() {
                old(self).last_refill()
            } else {
                now
            },
            final(self).capacity() == old(self).capacity(),
            final(self).refill_rate() == old(self).refill_rate(),
            final(self).refill_period() == old(self).refill_period(),
    {
        proof {
            use_type_invariant(&*self);
        }
        if now <= self.last_refill {
            return;
        }
        let elapsed: u64 = now - self.last_refill;
        assert((self.capacity as u128) * (self.refill_period_ns as u128) <= 0xffff_ffff * 0xffff_ffff_ffff_ffffu128)
            by (nonlinear_arith)
            requires
                self.capacity <= 0xffff_ffff,
                self.refill_period_ns <= 0xffff_ffff_ffff_ffff,
        ;
        assert((elapsed as u128) * (self.refill_tokens as u128) <= 0xffff_ffff_ffff_ffff * 0xffff_ffffu128)
            by (nonlinear_arith)
            requires
                elapsed <= 0xffff_ffff_ffff_ffff,
                self.refill_tokens <= 0xffff_ffff,
        ;
        let cap: u128 = self.capacity as u128 * self.refill_period_ns as u128;
        let gained: u128 = elapsed as u128 * self.refill_tokens as u128;
        let total = self.tokens + gained;
        self.tokens = if total > cap {
            cap
        } else {
            total
        };
        self.last_refill = now;
    }

    /// Whole seconds until the next token, 0 when one is already there.
    pub fn seconds_until_next_token(&self) -> (r: u64)
        ensures
            self.tokens() >= self.refill_period() ==> r == 0,
            self.tokens() < self.refill_period() ==> r == seconds_to_next_token(
                self.tokens(),
                self.refill_rate(),
                self.refill_period(),
            ),
            self.tokens() < self.refill_period() ==> r >= 1,
    {
        proof {
            use_type_invariant(self);
        }
        let period = self.refill_period_ns as u128;
        if self.tokens >= period {
            return 0;
        }
        let needed: u128 = period - self.tokens;
        let per_second: u128 = self.refill_tokens as u128 * 1_000_000_000u128;
        let secs: u128 = (needed + per_second - 1) / per_second;
        assert(secs <= needed) by (nonlinear_arith)
            requires
                secs as int == (needed + per_second - 1) as int / (per_second as int),
                per_second >= 1_000_000_000,
                needed >= 1,
        ;
        if secs >= 1 {
            secs as u64
        } else {
            1
        }
    }

    /// Refills the bucket up to `now` and takes a token when one is there: `Ok` with the
    /// whole tokens left, or `Err` with the seconds to wait for the next one.
    pub fn try_consume(&mut self, now: u64) -> (r: Result<u32, u64>)
        ensures
            ({
                let t = refilled(
                    old(self).tokens(),
                    old(self).last_refill(),
                    now,
                    old(self).capacity(),
                    old(self).refill_rate(),
                    old(self).refill_period(),
                );
                let (outcome, left) = consume_outcome(t, old(self).refill_rate(), old(self).refill_period());
                &&& final(self).tokens() == left
                &&& match r {
                    Ok(remaining) => outcome == Ok::<nat, nat>(remaining as nat),
                    Err(wait) => outcome == Err::<nat, nat>(wait as nat),
                }
            }),
            r matches Err(wait) ==> wait >= 1,
            final(self).tokens() <= final(self).capacity() * final(self).refill_period(),
            final(self).last_refill() == if now <= old(self).last_refill() {
                old(self).last_refill()
            } else {
                now
            },
            final(self).capacity() == old(self).capacity(),
            final(self).refill_rate() == old(self).refill_rate(),
            final(self).refill_period() == old(self).refill_period(),
    {
        self.refill(now);
        proof {
            use_type_invariant(&*self);
        }
        let period = self.refill_period_ns as u128;
        if self.tokens >= period {
            self.tokens = self.tokens - period;
            let whole: u128 = self.tokens / period;
            assert(whole < self.capacity) by (nonlinear_arith)
                requires
                    whole == self.tokens / period,
                    self.tokens + period <= self.capacity * period,
                    period >= 1,
            ;
            return Ok(whole as u32);
        }
        Err(self.seconds_until_next_token())
    }

    /// Whether the bucket has not been refilled since `cutoff`.
    pub fn is_stale(&self, cutoff: u64) -> (r: bool)
        ensures
            r == (self.last_refill() < cutoff),
    {
        self.last_refill < cutoff
    }
}

/// How the limiter answers one request of a client.
#[derive(Debug, Clone, Copy, PartialEq, Eq, Structural)]
pub struct RateDecision {
    pub allowed: bool,
    /// Whole tokens left after the request (0 when refused).
    pub remaining: u32,
    /// Seconds until the bucket holds a token again.
    pub reset_secs: u64,
    /// When refused, the seconds the client is told to wait.
    pub retry_after: Option<u64>,
}

/// Settings shared by all clients' buckets: `capacity` requests per minute.
#[derive(Debug, Clone, Copy, PartialEq, Eq, Structural)]
pub struct RateLimitPolicy {
    pub capacity: u32,
}

impl RateLimitPolicy {
    /// A limit of `rate_limit_per_minute` requests (at least one) per minute, refilled
    /// evenly over the minute.
    pub fn new(rate_limit_per_minute: u32) -> (r: Self)
        ensures
            r.capacity == if rate_limit_per_minute >= 1 {
                rate_limit_per_minute
            } else {
                1
            },
    {
        RateLimitPolicy {
            capacity: if rate_limit_per_minute >= 1 {
                rate_limit_per_minute
            } else {
                1
            },
        }
    }

    /// A new client's bucket: full, refilled at `capacity` tokens a minute.
    pub fn new_bucket(&self, now: u64) -> (r: TokenBucket)
        requires
            self.capacity >= 1,
        ensures
            r.tokens() == self.capacity * NANOS_PER_MINUTE,
            r.last_refill() == now,
            r.capacity() == self.capacity,
            r.refill_rate() == self.capacity,
            r.refill_period() == NANOS_PER_MINUTE,
    {
        TokenBucket::new(self.capacity, self.capacity, NANOS_PER_MINUTE, now)
    }
}

/// Answers a request against `bucket` at `now`: allowed with the tokens left and the
/// time to the next token, or refused with the time to wait (also given as the reset).
pub fn decide(bucket: &mut TokenBucket, now: u64) -> (r: RateDecision)
    ensures
        ({
            let t = refilled(
                old(bucket).tokens(),
                old(bucket).last_refill(),
                now,
                old(bucket).capacity(),
                old(bucket).refill_rate(),
                old(bucket).refill_period(),
            );
            let (outcome, left) = consume_outcome(t, old(bucket).refill_rate(), old(bucket).refill_period());
            &&& final(bucket).tokens() == left
            &&& match outcome {
                Ok(remaining) => {
                    &&& r.allowed
                    &&& r.remaining == remaining
                    &&& r.retry_after is None
                    &&& left >= old(bucket).refill_period() ==> r.reset_secs == 0
                    &&& left < old(bucket).refill_period() ==> r.reset_secs == seconds_to_next_token(
                        left,
                        old(bucket).refill_rate(),
                        old(bucket).refill_period(),
                    )
                },
                Err(wait) => {
                    &&& !r.allowed
                    &&& r.remaining == 0
                    &&& r.reset_secs == wait
                    &&& r.retry_after == Some(wait as u64)
                    &&& wait >= 1
                },
            }
        }),
{
    match bucket.try_consume(now) {
        Ok(remaining) => RateDecision {
            allowed: true,
            remaining,
            reset_secs: bucket.seconds_until_next_token(),
            retry_after: None,
        },
        Err(retry_after) => RateDecision {
            allowed: false,
            remaining: 0,
            reset_secs: retry_after,
            retry_after: Some(retry_after),
        },
    }
}

/// Waiting the seconds a refused request is told to wait is enough: by then the bucket
/// holds a token again.
pub proof fn lemma_retry_after_is_enough(tokens: nat, last: u64, capacity: nat, rate: nat, period: nat)
    requires
        capacity >= 1,
        rate >= 1,
        period >= 1,
        tokens < period,
        last + seconds_to_next_token(tokens, rate, period) * NANOS_PER_SECOND <= u64::MAX,
    ensures
        refilled(
            tokens,
            last,
            (last + seconds_to_next_token(tokens, rate, period) * NANOS_PER_SECOND) as u64,
            capacity,
            rate,
            period,
        ) >= period,
{
    let wait = seconds_to_next_token(tokens, rate, period);
    let needed: int = period - tokens;
    let per_second: int = rate * NANOS_PER_SECOND;
    let secs: int = (needed + per_second - 1) / per_second;
    assert(per_second >= 1_000_000_000) by (nonlinear_arith)
        requires
            rate >= 1,
            per_second == rate * 1_000_000_000,
    ;
    assert(secs * per_second >= needed) by (nonlinear_arith)
        requires
            per_second >= 1,
            needed >= 1,
            secs == (needed + per_second - 1) / per_second,
    ;
    assert(wait * per_second >= needed) by (nonlinear_arith)
        requires
            wait >= secs,
            secs * per_second >= needed,
            per_second >= 1,
    ;
    let now = (last + wait * NANOS_PER_SECOND) as u64;
    assert(now - last == wait * NANOS_PER_SECOND);
    assert((now - last) * rate == wait * per_second) by (nonlinear_arith)
        requires
            now - last == wait * 1_000_000_000,
            per_second == rate * 1_000_000_000,
    ;
    assert(capacity * period >= period) by (nonlinear_arith)
        requires
            capacity >= 1,
    ;
}

/// A full bucket admits exactly `capacity` requests made at one instant, and refuses the
/// next one with a wait of at least a second.
pub proof fn lemma_full_bucket_admits_capacity(capacity: nat, rate: nat, period: nat)
    requires
        capacity >= 1,
        rate >= 1,
        period >= 1,
    ensures
        ({
            let outcomes = burst(capacity * period, rate, period, capacity + 1);
            &&& forall|k: int| 0 <= k < capacity ==> (#[trigger] outcomes[k]) is Ok
            &&& outcomes[capacity as int] matches Err(wait) && wait >= 1
        }),
{
    lemma_burst_from(capacity, capacity, rate, period);
}

proof fn lemma_burst_from(held: nat, capacity: nat, rate: nat, period: nat)
    requires
        held <= capacity,
        rate >= 1,
        period >= 1,
    ensures
        ({
            let outcomes = burst(held * period, rate, period, held + 1);
            &&& outcomes.len() == held + 1
            &&& forall|k: int| 0 <= k < held ==> (#[trigger] outcomes[k]) is Ok
            &&& outcomes[held as int] matches Err(wait) && wait >= 1
        }),
    decreases held,
{
    let outcomes = burst(held * period, rate, period, held + 1);
    if held == 0 {
        assert(held * period == 0) by (nonlinear_arith)
            requires
                held == 0,
        ;
        assert(burst(0, rate, period, 0) =~= Seq::<Result<nat, nat>>::empty());
        assert(outcomes =~= seq![Err::<nat, nat>(seconds_to_next_token(0, rate, period))]);
    } else {
        assert((held * period - period) as nat == ((held - 1) as nat) * period) by (nonlinear_arith)
            requires
                held >= 1,
        ;
        assert(held * period >= period) by (nonlinear_arith)
            requires
                held >= 1,
        ;
        lemma_burst_from((held - 1) as nat, capacity, rate, period);
        let rest = burst(((held - 1) as nat) * period, rate, period, held);
        assert(outcomes == seq![Ok::<nat, nat>(((held * period - period) as nat) / period)] + rest);
        assert forall|k: int| 0 <= k < held implies (#[trigger] outcomes[k]) is Ok by {
            if k > 0 {
                assert(outcomes[k] == rest[k - 1]);
            }
        }
        assert(outcomes[held as int] == rest[held - 1]);
    }
}

/// The first hop of an `X-Forwarded-For` value: the text before the first comma,
/// trimmed; the client address as the nearest proxy saw it.
pub fn forwarded_first_hop(value: &str) -> (r: String)
    ensures
        r@ == trim(before_first(value@, ',')),
{
    let chars = chars_of(value);
    let first = prefix_before(&chars, ',');
    let hop = trim_chars(&first);
    string_from_chars(&hop)
}


/// The address a request is counted against: the first `X-Forwarded-For` hop when the peer
/// is a trusted (loopback) proxy and that hop is an address; otherwise the peer itself, or
/// `fallback` when the peer is unknown.
pub open spec fn client_address_of<T>(peer: Option<T>, peer_is_loopback: bool, forwarded: Option<T>, fallback: T) -> T {
    match peer {
        Some(p) => if peer_is_loopback && forwarded is Some {
            forwarded->0
        } else {
            p
        },
        None => fallback,
    }
}

/// Picks the address a request is counted against (see `client_address_of`): a forwarded
/// address is honoured only from a loopback peer.
pub fn client_address<T>(peer: Option<T>, peer_is_loopback: bool, forwarded: Option<T>, fallback: T) -> (r: T)
    ensures
        r == client_address_of(peer, peer_is_loopback, forwarded, fallback),
{
    match peer {
        Some(p) => {
            if peer_is_loopback {
                match forwarded {
                    Some(f) => f,
                    None => p,
                }
            } else {
                p
            }
        },
        None => fallback,
    }
}

} // verus!
