//! Per-backend latency windows and their order statistics.
//!
//! Times and latencies are nanoseconds; a window's times count from the
//! instant the window was created.

use vstd::prelude::*;
use std::collections::VecDeque;
use std::time::{Duration, Instant};

verus! {

/// How many in a sequence of latencies are below `v`.
pub open spec fn count_below(s: Seq<u64>, v: u64) -> nat
    decreases s.len(),
{
    if s.len() == 0 {
        0
    } else {
        count_below(s.drop_last(), v) + if s.last() < v {
            1nat
        } else {
            0nat
        }
    }
}

/// How many in a sequence of latencies are at most `v`.
pub open spec fn count_at_most(s: Seq<u64>, v: u64) -> nat
    decreases s.len(),
{
    if s.len() == 0 {
        0
    } else {
        count_at_most(s.drop_last(), v) + if s.last() <= v {
            1nat
        } else {
            0nat
        }
    }
}

/// `v` is the value at position `rank` (counting from 0) of `s` sorted in
/// ascending order.
pub open spec fn is_rank_value(s: Seq<u64>, rank: int, v: u64) -> bool {
    &&& s.contains(v)
    &&& count_below(s, v) <= rank < count_at_most(s, v)
}

/// The counts are what they say: the number of latencies below `v`, and the
/// number at most `v`, as `Seq::filter` counts them.
pub proof fn lemma_counts_are_filters(s: Seq<u64>, v: u64)
    ensures
        count_below(s, v) == s.filter(|x: u64| x < v).len(),
        count_at_most(s, v) == s.filter(|x: u64| x <= v).len(),
    decreases s.len(),
{
    reveal(Seq::filter);
    if s.len() > 0 {
        lemma_counts_are_filters(s.drop_last(), v);
    }
}

proof fn lemma_count_concat(a: Seq<u64>, b: Seq<u64>, v: u64)
    ensures
        count_below(a + b, v) == count_below(a, v) + count_below(b, v),
        count_at_most(a + b, v) == count_at_most(a, v) + count_at_most(b, v),
    decreases b.len(),
{
    if b.len() == 0 {
        assert(a + b =~= a);
    } else {
        lemma_count_concat(a, b.drop_last(), v);
        assert((a + b).drop_last() =~= a + b.drop_last());
    }
}

proof fn lemma_count_bounds(s: Seq<u64>, v: u64)
    ensures
        count_below(s, v) <= count_at_most(s, v) <= s.len(),
        (forall|i: int| 0 <= i < s.len() ==> #[trigger] s[i] < v) ==> count_below(s, v) == s.len(),
        (forall|i: int| 0 <= i < s.len() ==> #[trigger] s[i] <= v) ==> count_at_most(s, v) == s.len(),
        (forall|i: int| 0 <= i < s.len() ==> #[trigger] s[i] >= v) ==> count_below(s, v) == 0,
        count_below(s, v) < count_at_most(s, v) ==> s.contains(v),
    decreases s.len(),
{
    if s.len() > 0 {
        let p = s.drop_last();
        lemma_count_bounds(p, v);
        assert forall|i: int| 0 <= i < p.len() implies p[i] == #[trigger] s[i] by {}
        if count_below(s, v) < count_at_most(s, v) && !p.contains(v) {
            assert(s.last() == v);
            assert(s[s.len() - 1] == v);
        }
        if count_below(s, v) < count_at_most(s, v) && p.contains(v) {
            let i = choose|i: int| 0 <= i < p.len() && p[i] == v;
            assert(s[i] == v);
        }
    }
}

/// Ascending order.
pub open spec fn ascending(s: Seq<u64>) -> bool {
    forall|i: int, j: int| 0 <= i <= j < s.len() ==> #[trigger] s[i] <= #[trigger] s[j]
}

/// The latencies of `samples`, sorted in ascending order.
fn sorted_latencies(samples: &VecDeque<Sample>) -> (t: Vec<u64>)
    ensures
        t@.len() == samples@.len(),
        ascending(t@),
        forall|v: u64|
            #![trigger count_below(t@, v)]
            #![trigger count_at_most(t@, v)]
            count_below(t@, v) == count_below(latencies(samples@), v) && count_at_most(t@, v)
                == count_at_most(latencies(samples@), v),
{
    let ghost lat = latencies(samples@);
    let mut t: Vec<u64> = Vec::new();
    let mut i: usize = 0;
    while i < samples.len()
        invariant
            i <= samples@.len(),
            lat == latencies(samples@),
            t@.len() == i,
            ascending(t@),
            forall|v: u64|
                #![trigger count_below(t@, v)]
                #![trigger count_at_most(t@, v)]
                count_below(t@, v) == count_below(lat.take(i as int), v) && count_at_most(t@, v)
                    == count_at_most(lat.take(i as int), v),
        decreases samples@.len() - i,
    {
        let x = samples[i].latency;
        let mut p: usize = 0;
        while p < t.len() && t[p] <= x
            invariant
                p <= t@.len(),
                forall|j: int| 0 <= j < p ==> t@[j] <= x,
            decreases t@.len() - p,
        {
            p = p + 1;
        }
        let ghost before = t@;
        t.insert(p, x);
        proof {
            assert(lat.take(i as int + 1).drop_last() =~= lat.take(i as int));
            assert(lat.take(i as int + 1).last() == x);
            let pre = before.subrange(0, p as int);
            let suf = before.subrange(p as int, before.len() as int);
            assert(before =~= pre + suf);
            assert(t@ =~= pre.push(x) + suf);
            assert((pre.push(x)).drop_last() =~= pre);
            assert forall|v: u64|
                #![trigger count_below(t@, v)]
                #![trigger count_at_most(t@, v)]
                count_below(t@, v) == count_below(lat.take(i as int + 1), v) && count_at_most(t@, v)
                    == count_at_most(lat.take(i as int + 1), v) by {
                lemma_count_concat(pre, suf, v);
                lemma_count_concat(pre.push(x), suf, v);
            }
            assert forall|a: int, b: int| 0 <= a <= b < t@.len() implies #[trigger] t@[a]
                <= #[trigger] t@[b] by {
                if b < p {
                } else if b == p {
                } else if a < p {
                    assert(t@[b] == before[b - 1]);
                } else if a == p {
                    assert(t@[b] == before[b - 1]);
                    assert(before[p as int] > x);
                    assert(before[p as int] <= before[b - 1]);
                } else {
                    assert(t@[a] == before[a - 1]);
                    assert(t@[b] == before[b - 1]);
                }
            }
        }
        i = i + 1;
    }
    assert(lat.take(i as int) =~= lat);
    t
}

/// One latency observation.
#[derive(Clone, Copy)]
pub struct Sample {
    /// When the request finished, in nanoseconds since the window began.
    pub at: u64,
    /// How long the request took, in nanoseconds.
    pub latency: u64,
}

/// The latencies of a sequence of samples, in order.
pub open spec fn latencies(s: Seq<Sample>) -> Seq<u64> {
    s.map_values(|x: Sample| x.latency)
}

/// Whether a sample is older than the window at time `now`.
pub open spec fn expired(s: Sample, now: u64, window: u64) -> bool {
    s.at < now - window
}

/// `s` with its leading expired samples removed: the first sample still inside
/// the window, and everything after it, stay.
pub open spec fn retain_recent(s: Seq<Sample>, now: u64, window: u64) -> Seq<Sample>
    decreases s.len(),
{
    if s.len() > 0 && expired(s[0], now, window) {
        retain_recent(s.drop_first(), now, window)
    } else {
        s
    }
}

/// The samples kept after recording `latency` at time `now`.
pub open spec fn after_record(s: Seq<Sample>, now: u64, latency: u64, window: u64) -> Seq<Sample> {
    retain_recent(s.push(Sample { at: now, latency }), now, window)
}

proof fn lemma_retain_recent_suffix(s: Seq<Sample>, now: u64, window: u64) -> (k: int)
    ensures
        0 <= k <= s.len(),
        retain_recent(s, now, window) == s.subrange(k, s.len() as int),
        k < s.len() ==> !expired(s[k], now, window),
        forall|j: int| 0 <= j < k ==> expired(#[trigger] s[j], now, window),
    decreases s.len(),
{
    if s.len() > 0 && expired(s[0], now, window) {
        let rest = s.drop_first();
        let k1 = lemma_retain_recent_suffix(rest, now, window);
        assert(rest.subrange(k1, rest.len() as int) =~= s.subrange(k1 + 1, s.len() as int));
        assert forall|j: int| 0 <= j < k1 + 1 implies expired(#[trigger] s[j], now, window) by {
            if j > 0 {
                assert(s[j] == rest[j - 1]);
            }
        }
        k1 + 1
    } else {
        assert(s.subrange(0, s.len() as int) =~= s);
        0
    }
}

/// Recording never loses the new observation: afterwards the window ends with
/// the sample just recorded, and what precedes it is a run of the latest
/// earlier samples, in their order.
pub proof fn lemma_record_keeps_newest(s: Seq<Sample>, now: u64, latency: u64, window: u64)
    ensures
        after_record(s, now, latency, window).len() >= 1,
        after_record(s, now, latency, window).last() == (Sample { at: now, latency }),
        exists|k: int|
            0 <= k <= s.len() && after_record(s, now, latency, window) == #[trigger] s.subrange(
                k,
                s.len() as int,
            ).push(Sample { at: now, latency }),
{
    let t = s.push(Sample { at: now, latency });
    let k = lemma_retain_recent_suffix(t, now, window);
    assert(!expired(t[t.len() - 1], now, window));
    assert(k < t.len());
    assert(t.subrange(k, t.len() as int) =~= s.subrange(k, s.len() as int).push(
        Sample { at: now, latency },
    ));
}

/// When samples are recorded in time order, the window holds only samples
/// that are not older than the window.
pub proof fn lemma_record_within_window(s: Seq<Sample>, now: u64, latency: u64, window: u64)
    requires
        forall|i: int, j: int| 0 <= i <= j < s.len() ==> #[trigger] s[i].at <= #[trigger] s[j].at,
        forall|i: int| 0 <= i < s.len() ==> #[trigger] s[i].at <= now,
    ensures
        forall|i: int|
            0 <= i < after_record(s, now, latency, window).len() ==> !expired(
                #[trigger] after_record(s, now, latency, window)[i],
                now,
                window,
            ),
{
    let t = s.push(Sample { at: now, latency });
    let k = lemma_retain_recent_suffix(t, now, window);
    assert(!expired(t[t.len() - 1], now, window));
    let r = after_record(s, now, latency, window);
    assert forall|i: int| 0 <= i < r.len() implies !expired(#[trigger] r[i], now, window) by {
        assert(r[i] == t[k + i]);
        assert(t[k].at <= t[k + i].at);
    }
}

/// The default window: ten seconds.
pub const WINDOW_NANOS: u64 = 10_000_000_000;

#[verifier::external_type_specification]
#[verifier::external_body]
pub struct ExInstant(Instant);

/// Calls `std::time::Instant::now`. The result depends on the clock, so
/// nothing is stated of it.
#[verifier::external_body]
fn instant_now() -> Instant {
    Instant::now()
}

/// Calls `std::time::Instant::elapsed`: the time since `origin`, which
/// depends on the clock, so nothing is stated of it.
#[verifier::external_body]
fn instant_elapsed(origin: &Instant) -> Duration {
    origin.elapsed()
}

/// Calls `std::time::Duration::as_nanos`. A `Duration` is opaque here, so
/// nothing is stated of the number.
#[verifier::external_body]
fn duration_as_nanos(d: &Duration) -> u128 {
    d.as_nanos()
}

/// Samples in the order of their times.
pub open spec fn time_ordered(s: Seq<Sample>) -> bool {
    forall|i: int, j: int| 0 <= i <= j < s.len() ==> #[trigger] s[i].at <= #[trigger] s[j].at
}

/// The time a sample observed at `now` is stamped with: `now`, or the latest
/// time already held if the clock reads earlier, so that times never go back.
pub open spec fn stamp(s: Seq<Sample>, now: u64) -> u64 {
    if s.len() > 0 && s.last().at > now {
        s.last().at
    } else {
        now
    }
}

/// The latencies seen for one backend over a sliding time window.
pub struct Metrics {
    origin: Instant,
    samples: VecDeque<Sample>,
    window: u64,
}

impl Metrics {
    /// The samples are always held in time order.
    #[verifier::type_invariant]
    spec fn samples_in_time_order(self) -> bool {
        time_ordered(self.samples@)
    }

    /// The samples held, oldest first.
    pub closed spec fn samples(&self) -> Seq<Sample> {
        self.samples@
    }

    /// The window length in nanoseconds.
    pub closed spec fn window(&self) -> u64 {
        self.window
    }

    /// An empty window of ten seconds, starting now.
    pub fn new() -> (r: Self)
        ensures
            r.samples().len() == 0,
            r.window() == WINDOW_NANOS,
            time_ordered(r.samples()),
    {
        Metrics { origin: instant_now(), samples: VecDeque::new(), window: WINDOW_NANOS }
    }

    /// How many samples the window holds.
    pub fn len(&self) -> (r: usize)
        ensures
            r == self.samples().len(),
    {
        self.samples.len()
    }

    /// Whether the window holds no sample.
    pub fn is_empty(&self) -> (r: bool)
        ensures
            r == (self.samples().len() == 0),
    {
        self.samples.len() == 0
    }

    /// Records `latency` as observed at time `now` (or at the latest time held,
    /// if that is later), then drops the samples at the front that fell out of
    /// the window. Afterwards the samples are in time order, the new one is
    /// last, and none is older than the window.
    pub fn record_at(&mut self, now: u64, latency: u64)
        ensures
            final(self).samples() == after_record(
                old(self).samples(),
                stamp(old(self).samples(), now),
                latency,
                old(self).window(),
            ),
            final(self).window() == old(self).window(),
            time_ordered(final(self).samples()),
            final(self).samples().len() >= 1,
            final(self).samples().last() == (Sample { at: stamp(old(self).samples(), now), latency }),
            forall|i: int|
                0 <= i < final(self).samples().len() ==> !expired(
                    #[trigger] final(self).samples()[i],
                    stamp(old(self).samples(), now),
                    old(self).window(),
                ),
            final(self).samples().last().at >= now,
            old(self).samples().len() > 0
                ==> final(self).samples().last().at >= old(self).samples().last().at,
            final(self).samples().last().at == now
                || (old(self).samples().len() > 0
                    && final(self).samples().last().at == old(self).samples().last().at),
            final(self).samples().last().latency == latency,
            exists|k: int|
                0 <= k <= old(self).samples().len()
                    && final(self).samples() == #[trigger] old(self).samples().subrange(k, old(self).samples().len() as int).push(final(self).samples().last())
                    && (forall|j: int| 0 <= j < k ==> #[trigger] old(self).samples()[j].at < final(self).samples().last().at - old(self).window())
                    && (forall|j: int| k <= j < old(self).samples().len() ==> #[trigger] old(self).samples()[j].at >= final(self).samples().last().at - old(self).window()),
    {
        proof {
            use_type_invariant(&*self);
        }
        let ghost before = self.samples@;
        let mut samples: VecDeque<Sample> = VecDeque::new();
        std::mem::swap(&mut samples, &mut self.samples);
        let n = samples.len();
        let at = if n > 0 && samples[n - 1].at > now {
            samples[n - 1].at
        } else {
            now
        };
        assert(at == stamp(before, now));
        proof {
            assert forall|i: int| 0 <= i < before.len() implies #[trigger] before[i].at <= at by {
                assert(before[i].at <= before[before.len() - 1].at);
            }
        }
        samples.push_back(Sample { at, latency });
        let window = self.window;
        loop
            invariant
                time_ordered(samples@),
                retain_recent(samples@, at, window) == after_record(before, at, latency, window),
            ensures
                time_ordered(samples@),
                samples@ == after_record(before, at, latency, window),
            decreases samples@.len(),
        {
            if samples.len() == 0 {
                break;
            }
            let front = samples[0];
            if at >= window && front.at < at - window {
                let _ = samples.pop_front();
            } else {
                break;
            }
        }
        self.samples = samples;
        proof {
            lemma_record_keeps_newest(before, at, latency, window);
            lemma_record_within_window(before, at, latency, window);
            let t = before.push(Sample { at, latency });
            let k = lemma_retain_recent_suffix(t, at, window);
            assert(!expired(t[t.len() - 1], at, window));
            assert(t.subrange(k, t.len() as int) =~= before.subrange(k, before.len() as int).push(
                Sample { at, latency },
            ));
            assert forall|j: int| 0 <= j < k implies #[trigger] before[j].at < at - window by {
                assert(expired(t[j], at, window));
            }
            assert forall|j: int| k <= j < before.len() implies #[trigger] before[j].at >= at - window by {
                assert(t[k].at <= t[j].at);
                assert(!expired(t[k], at, window));
            }
        }
    }

    /// The latency at position `rank` (counting from 0) of the window's
    /// latencies sorted in ascending order; `None` when `rank` is past the end.
    pub fn latency_at_rank(&self, rank: usize) -> (r: Option<u64>)
        ensures
            rank >= self.samples().len() ==> r is None,
            rank < self.samples().len() ==> (r matches Some(v) && is_rank_value(
                latencies(self.samples()),
                rank as int,
                v,
            )),
    {
        let sorted = sorted_latencies(&self.samples);
        if rank < sorted.len() {
            let v = sorted[rank];
            proof {
                let t = sorted@;
                let lat = latencies(self.samples@);
                assert(t =~= t.subrange(0, rank as int) + t.subrange(rank as int, t.len() as int));
                assert(t =~= t.subrange(0, rank as int + 1) + t.subrange(
                    rank as int + 1,
                    t.len() as int,
                ));
                lemma_count_concat(t.subrange(0, rank as int), t.subrange(rank as int, t.len() as int), v);
                lemma_count_concat(
                    t.subrange(0, rank as int + 1),
                    t.subrange(rank as int + 1, t.len() as int),
                    v,
                );
                lemma_count_bounds(t.subrange(0, rank as int), v);
                lemma_count_bounds(t.subrange(rank as int, t.len() as int), v);
                lemma_count_bounds(t.subrange(0, rank as int + 1), v);
                lemma_count_bounds(t.subrange(rank as int + 1, t.len() as int), v);
                lemma_count_bounds(lat, v);
            }
            Some(v)
        } else {
            None
        }
    }

    /// Records `latency` as observed now: at the clock's reading, never earlier
    /// than the latest sample held. Afterwards the samples are in time order,
    /// the new one is last, and none is older than the window.
    pub fn record(&mut self, latency: u64)
        ensures
            final(self).window() == old(self).window(),
            time_ordered(final(self).samples()),
            exists|now: u64|
                #![trigger after_record(old(self).samples(), now, latency, old(self).window())]
                {
                    &&& old(self).samples().len() > 0 ==> old(self).samples().last().at <= now
                    &&& final(self).samples() == after_record(
                        old(self).samples(),
                        now,
                        latency,
                        old(self).window(),
                    )
                    &&& final(self).samples().last() == (Sample { at: now, latency })
                    &&& forall|i: int|
                        0 <= i < final(self).samples().len() ==> !expired(
                            #[trigger] final(self).samples()[i],
                            now,
                            old(self).window(),
                        )
                },
    {
        let elapsed = instant_elapsed(&self.origin);
        let nanos = duration_as_nanos(&elapsed);
        let now: u64 = if nanos > 0xffff_ffff_ffff_ffffu128 {
            0xffff_ffff_ffff_ffffu64
        } else {
            nanos as u64
        };
        let ghost before = self.samples();
        self.record_at(now, latency);
        assert(after_record(before, stamp(before, now), latency, self.window()) == self.samples());
    }
}

} // verus!
