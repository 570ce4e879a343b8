//! The decision engine that swaps strategies by observed tail latency:
//! round robin gives way to least connections when some backend turns slow,
//! and comes back once every backend is calm again.

use vstd::prelude::*;
use crate::load_balancing::StrategyKind;

verus! {

/// A tail latency above this (one second) makes round robin give way.
pub const TRIGGER_LATENCY_NANOS: u64 = 1_000_000_000;

/// Every backend below this (200 ms) counts as calm.
pub const CALM_LATENCY_NANOS: u64 = 200_000_000;

/// At least this long (ten seconds) between two swaps.
pub const SWAP_COOLDOWN_NANOS: u64 = 10_000_000_000;

/// The largest of the known latencies (`None` stands for a backend with no
/// samples); `None` when none is known.
pub open spec fn worst_latency(ps: Seq<Option<u64>>) -> Option<u64>
    decreases ps.len(),
{
    if ps.len() == 0 {
        None
    } else {
        match (worst_latency(ps.drop_last()), ps.last()) {
            (None, x) => x,
            (Some(a), None) => Some(a),
            (Some(a), Some(b)) => Some(
                if b > a {
                    b
                } else {
                    a
                },
            ),
        }
    }
}

/// Every known latency is below the calm threshold.
pub open spec fn all_calm(ps: Seq<Option<u64>>) -> bool {
    forall|i: int| 0 <= i < ps.len() ==> (#[trigger] ps[i] matches Some(p) ==> p < CALM_LATENCY_NANOS)
}

/// The strategy to move to from `current`, if any.
pub open spec fn swap_target(current: StrategyKind, ps: Seq<Option<u64>>) -> Option<StrategyKind> {
    match current {
        StrategyKind::RoundRobin => match worst_latency(ps) {
            Some(p) => if p > TRIGGER_LATENCY_NANOS {
                Some(StrategyKind::LeastConnections)
            } else {
                None
            },
            None => None,
        },
        StrategyKind::LeastConnections => if all_calm(ps) {
            Some(StrategyKind::RoundRobin)
        } else {
            None
        },
    }
}

/// What one tick of the engine does.
#[derive(PartialEq, Eq, Structural, Clone, Copy, Debug)]
pub enum Decision {
    /// Stay with the current strategy.
    Keep,
    /// Install this strategy now.
    Swap(StrategyKind),
    /// A swap to this strategy is due but the cooldown has not passed.
    Suppressed(StrategyKind),
}

/// The engine's decision, given the current strategy, each backend's tail
/// latency, and the time since the last swap.
pub open spec fn decision_for(current: StrategyKind, ps: Seq<Option<u64>>, since_last_swap: u64) -> Decision {
    match swap_target(current, ps) {
        None => Decision::Keep,
        Some(k) => if since_last_swap >= SWAP_COOLDOWN_NANOS {
            Decision::Swap(k)
        } else {
            Decision::Suppressed(k)
        },
    }
}

/// The position of the slowest backend (the first of equal maxima); `None`
/// when no latency is known.
pub fn slowest(ps: &[Option<u64>]) -> (r: Option<usize>)
    ensures
        r is None <==> forall|j: int| 0 <= j < ps@.len() ==> #[trigger] ps@[j] is None,
        r matches Some(i) ==> i < ps@.len() && ps@[i as int] is Some && forall|j: int|
            0 <= j < ps@.len() ==> (#[trigger] ps@[j] matches Some(q) ==> q <= ps@[i as int]->0),
        r is None <==> worst_latency(ps@) is None,
        r matches Some(i) ==> i < ps@.len() && ps@[i as int] == worst_latency(ps@) && forall|j: int|
            0 <= j < i ==> (#[trigger] ps@[j] matches Some(q) ==> q < ps@[i as int]->0),
{
    let mut best: Option<usize> = None;
    let mut i: usize = 0;
    while i < ps.len()
        invariant
            i <= ps@.len(),
            best is None <==> worst_latency(ps@.take(i as int)) is None,
            best matches Some(b) ==> b < i && ps@[b as int] == worst_latency(ps@.take(i as int))
                && forall|j: int|
                0 <= j < b ==> (#[trigger] ps@[j] matches Some(q) ==> q < ps@[b as int]->0),
        decreases ps@.len() - i,
    {
        assert(ps@.take(i as int + 1).drop_last() =~= ps@.take(i as int));
        assert(ps@.take(i as int + 1).last() == ps@[i as int]);
        match ps[i] {
            Some(p) => match best {
                None => {
                    proof {
                        assert forall|j: int| 0 <= j < i implies !(#[trigger] ps@[j] is Some) by {
                            lemma_worst_bounds(ps@.take(i as int), j);
                        }
                    }
                    best = Some(i);
                },
                Some(b) => {
                    let q = ps[b].unwrap();
                    if p > q {
                        proof {
                            assert forall|j: int| 0 <= j < i implies (#[trigger] ps@[j] matches Some(
                                x,
                            ) ==> x < p) by {
                                lemma_worst_bounds(ps@.take(i as int), j);
                            }
                        }
                        best = Some(i);
                    }
                },
            },
            None => {},
        }
        i = i + 1;
    }
    assert(ps@.take(i as int) =~= ps@);
    proof {
        assert forall|j: int| 0 <= j < ps@.len() implies (#[trigger] ps@[j] matches Some(q) ==> best matches Some(
            b,
        ) && q <= ps@[b as int]->0) by {
            lemma_worst_bounds(ps@, j);
        }
        if best is None {
            assert forall|j: int| 0 <= j < ps@.len() implies #[trigger] ps@[j] is None by {
                lemma_worst_bounds(ps@, j);
            }
        } else {
            let b = best->0;
            assert(ps@[b as int] is Some);
        }
    }
    best
}

proof fn lemma_worst_bounds(ps: Seq<Option<u64>>, j: int)
    requires
        0 <= j < ps.len(),
    ensures
        ps[j] matches Some(x) ==> worst_latency(ps) matches Some(w) && x <= w,
    decreases ps.len(),
{
    if j < ps.len() - 1 {
        lemma_worst_bounds(ps.drop_last(), j);
    }
}

/// Whether every known latency is below the calm threshold.
pub fn calm(ps: &[Option<u64>]) -> (r: bool)
    ensures
        r == all_calm(ps@),
        r <==> forall|i: int|
            0 <= i < ps@.len() ==> (#[trigger] ps@[i] matches Some(p) ==> p < 200_000_000),
{
    let mut i: usize = 0;
    while i < ps.len()
        invariant
            i <= ps@.len(),
            forall|j: int| 0 <= j < i ==> (#[trigger] ps@[j] matches Some(p) ==> p < CALM_LATENCY_NANOS),
        decreases ps@.len() - i,
    {
        if let Some(p) = ps[i] {
            if p >= CALM_LATENCY_NANOS {
                return false;
            }
        }
        i = i + 1;
    }
    true
}

/// One tick of the engine.
pub fn decide(current: StrategyKind, ps: &[Option<u64>], since_last_swap: u64) -> (d: Decision)
    ensures
        d == decision_for(current, ps@, since_last_swap),
{
    let target = match current {
        StrategyKind::RoundRobin => match slowest(ps) {
            Some(i) => {
                let p = ps[i].unwrap();
                if p > TRIGGER_LATENCY_NANOS {
                    Some(StrategyKind::LeastConnections)
                } else {
                    None
                }
            },
            None => None,
        },
        StrategyKind::LeastConnections => if calm(ps) {
            Some(StrategyKind::RoundRobin)
        } else {
            None
        },
    };
    match target {
        None => Decision::Keep,
        Some(k) => if since_last_swap >= SWAP_COOLDOWN_NANOS {
            Decision::Swap(k)
        } else {
            Decision::Suppressed(k)
        },
    }
}

/// The engine's rules, over every list of tail latencies (`None` for a
/// backend with no samples):
/// - it never swaps before ten seconds have passed since the last swap, and
///   once they have, any due swap is made;
/// - a swap always changes the strategy;
/// - round robin gives way (to least connections) exactly when some backend's
///   tail latency is above one second;
/// - least connections gives way (to round robin) exactly when every known
///   tail latency is below 200 ms.
pub proof fn lemma_decision_rules(current: StrategyKind, ps: Seq<Option<u64>>, since_last_swap: u64)
    ensures
        since_last_swap < 10_000_000_000 ==> !(decision_for(current, ps, since_last_swap) is Swap),
        since_last_swap >= 10_000_000_000 ==> !(decision_for(current, ps, since_last_swap) is Suppressed),
        decision_for(current, ps, since_last_swap) matches Decision::Swap(k) ==> k != current,
        decision_for(current, ps, since_last_swap) matches Decision::Suppressed(k) ==> k != current,
        current == StrategyKind::RoundRobin ==> (decision_for(current, ps, since_last_swap)
            != Decision::Keep <==> exists|i: int|
            0 <= i < ps.len() && (#[trigger] ps[i] matches Some(p) && p > 1_000_000_000)),
        current == StrategyKind::LeastConnections ==> (decision_for(current, ps, since_last_swap)
            != Decision::Keep <==> forall|i: int|
            0 <= i < ps.len() ==> (#[trigger] ps[i] matches Some(p) ==> p < 200_000_000)),
{
    if current == StrategyKind::RoundRobin {
        if decision_for(current, ps, since_last_swap) != Decision::Keep {
            let i = lemma_worst_attained(ps);
            assert(ps[i] matches Some(p) && p > TRIGGER_LATENCY_NANOS);
        }
        if exists|i: int| 0 <= i < ps.len() && (#[trigger] ps[i] matches Some(p) && p > 1_000_000_000) {
            let i = choose|i: int| 0 <= i < ps.len() && (#[trigger] ps[i] matches Some(p) && p > 1_000_000_000);
            lemma_worst_bounds(ps, i);
        }
    }
}

proof fn lemma_worst_attained(ps: Seq<Option<u64>>) -> (i: int)
    requires
        worst_latency(ps) is Some,
    ensures
        0 <= i < ps.len(),
        ps[i] == worst_latency(ps),
    decreases ps.len(),
{
    let p = ps.drop_last();
    if worst_latency(p) is Some {
        let k = lemma_worst_attained(p);
        match (worst_latency(p), ps.last()) {
            (Some(a), Some(b)) => if b > a {
                ps.len() - 1
            } else {
                k
            },
            _ => k,
        }
    } else {
        ps.len() - 1
    }
}

} // verus!
