//! Backends and the strategies that choose among them.

use vstd::prelude::*;

verus! {

/// One upstream server the proxy can forward to.
pub struct Backend {
    pub addr: String,
    pub id: String,
    /// Requests currently in flight to this backend.
    pub active_connections: u64,
    /// Set by the health probe; unhealthy backends are never selected.
    pub healthy: bool,
}

/// Indices of the healthy backends, in ascending order.
pub open spec fn healthy_indices(bs: Seq<Backend>) -> Seq<int>
    decreases bs.len(),
{
    if bs.len() == 0 {
        Seq::empty()
    } else {
        let prev = healthy_indices(bs.drop_last());
        if bs.last().healthy {
            prev.push(bs.len() - 1)
        } else {
            prev
        }
    }
}

/// Whether at least one backend is healthy.
pub open spec fn has_healthy(bs: Seq<Backend>) -> bool {
    exists|i: int| 0 <= i < bs.len() && #[trigger] bs[i].healthy
}

/// `healthy_indices` lists exactly the healthy positions, strictly increasing.
pub proof fn lemma_healthy_indices(bs: Seq<Backend>)
    ensures
        forall|k: int|
            0 <= k < healthy_indices(bs).len() ==> 0 <= #[trigger] healthy_indices(bs)[k] < bs.len()
                && bs[healthy_indices(bs)[k]].healthy,
        forall|k1: int, k2: int|
            0 <= k1 < k2 < healthy_indices(bs).len() ==> #[trigger] healthy_indices(bs)[k1]
                < #[trigger] healthy_indices(bs)[k2],
        forall|i: int|
            0 <= i < bs.len() && #[trigger] bs[i].healthy ==> healthy_indices(bs).contains(i),
        healthy_indices(bs).len() == 0 <==> !has_healthy(bs),
    decreases bs.len(),
{
    if bs.len() > 0 {
        let prev = bs.drop_last();
        lemma_healthy_indices(prev);
        assert forall|i: int| 0 <= i < bs.len() && #[trigger] bs[i].healthy implies healthy_indices(
            bs,
        ).contains(i) by {
            if i < bs.len() - 1 {
                assert(prev[i].healthy);
                let k = choose|k: int| 0 <= k < healthy_indices(prev).len() && healthy_indices(prev)[k] == i;
                assert(healthy_indices(bs)[k] == i);
            } else {
                assert(healthy_indices(bs).last() == i);
            }
        }
        if healthy_indices(bs).len() == 0 {
            if has_healthy(bs) {
                let i = choose|i: int| 0 <= i < bs.len() && #[trigger] bs[i].healthy;
                assert(healthy_indices(bs).contains(i));
            }
        } else {
            let j = healthy_indices(bs)[0];
            assert(bs[j].healthy);
        }
    }
}

/// Collects the indices of the healthy backends, in order.
pub fn healthy_positions(backends: &[Backend]) -> (r: Vec<usize>)
    ensures
        r@.len() == healthy_indices(backends@).len(),
        forall|k: int| 0 <= k < r@.len() ==> r@[k] as int == healthy_indices(backends@)[k],
{
    let mut r: Vec<usize> = Vec::new();
    let mut i: usize = 0;
    while i < backends.len()
        invariant
            i <= backends@.len(),
            r@.len() == healthy_indices(backends@.take(i as int)).len(),
            forall|k: int|
                0 <= k < r@.len() ==> r@[k] as int == healthy_indices(backends@.take(i as int))[k],
        decreases backends@.len() - i,
    {
        assert(backends@.take(i as int + 1).drop_last() =~= backends@.take(i as int));
        if backends[i].healthy {
            r.push(i);
        }
        i = i + 1;
    }
    assert(backends@.take(i as int) =~= backends@);
    r
}


/// A backend-selection policy.
pub trait LoadBalancingStrategy {
    /// Chooses the backend for the next request; `None` when every backend is
    /// unhealthy.
    fn pick_backend(&mut self, backends: &[Backend]) -> (r: Option<usize>)
        ensures
            r is None <==> !has_healthy(backends@),
            r matches Some(i) ==> i < backends@.len() && backends@[i as int].healthy,
    ;

    /// The policy's name, as the admin endpoint spells it.
    fn name(&self) -> &'static str;
}

/// The backend that round robin picks when its counter reads `counter`.
pub open spec fn round_robin_choice(bs: Seq<Backend>, counter: int) -> int {
    healthy_indices(bs)[counter % healthy_indices(bs).len() as int]
}

/// Rotates through the healthy backends in index order.
pub struct RoundRobin {
    next: usize,
}

impl View for RoundRobin {
    type V = usize;

    /// The rotation counter: how many picks have been made, modulo the word size.
    closed spec fn view(&self) -> usize {
        self.next
    }
}

impl RoundRobin {
    pub fn new() -> (r: Self)
        ensures
            r@ == 0,
    {
        RoundRobin { next: 0 }
    }
}

impl LoadBalancingStrategy for RoundRobin {
    fn pick_backend(&mut self, backends: &[Backend]) -> (r: Option<usize>)
        ensures
            !has_healthy(backends@) ==> final(self)@ == old(self)@,
            has_healthy(backends@) ==> r == Some(
                round_robin_choice(backends@, old(self)@ as int) as usize,
            ) && final(self)@ == old(self)@.wrapping_add(1),
    {
        let healthy = healthy_positions(backends);
        proof {
            lemma_healthy_indices(backends@);
        }
        if healthy.len() == 0 {
            return None;
        }
        let n = self.next;
        self.next = self.next.wrapping_add(1);
        let k = n % healthy.len();
        Some(healthy[k])
    }

    fn name(&self) -> (r: &'static str)
        ensures
            r@ == "round_robin"@,
    {
        "round_robin"
    }
}

/// Whether `i` beats `j` for least connections: fewer in-flight requests,
/// the lower index breaking ties.
pub open spec fn fewer_connections(bs: Seq<Backend>, i: int, j: int) -> bool {
    bs[i].active_connections < bs[j].active_connections || (bs[i].active_connections
        == bs[j].active_connections && i <= j)
}

/// At most one healthy backend beats every healthy backend for least
/// connections, so its pick is determined by the backend list alone.
pub proof fn lemma_least_connections_unique(bs: Seq<Backend>, i: int, k: int)
    requires
        0 <= i < bs.len(),
        0 <= k < bs.len(),
        bs[i].healthy,
        bs[k].healthy,
        forall|j: int|
            0 <= j < bs.len() && #[trigger] bs[j].healthy ==> (bs[i].active_connections
                < bs[j].active_connections || (bs[i].active_connections == bs[j].active_connections
                && i <= j)),
        forall|j: int|
            0 <= j < bs.len() && #[trigger] bs[j].healthy ==> (bs[k].active_connections
                < bs[j].active_connections || (bs[k].active_connections == bs[j].active_connections
                && k <= j)),
    ensures
        i == k,
{
    assert(bs[i].healthy);
    assert(bs[k].healthy);
}

/// Least connections compares raw in-flight counts, then positions: `i`
/// beats `j` exactly when it has strictly fewer requests in flight, or as
/// many and comes no later.
pub proof fn lemma_fewer_connections_is_lexicographic(bs: Seq<Backend>, i: int, j: int)
    ensures
        fewer_connections(bs, i, j) <==> (bs[i].active_connections < bs[j].active_connections || (
        bs[i].active_connections == bs[j].active_connections && i <= j)),
        0 <= i < bs.len() && 0 <= j < bs.len() && bs[i].active_connections < bs[j].active_connections
            ==> fewer_connections(bs, i, j) && !fewer_connections(bs, j, i),
{
}

/// Picks the healthy backend with the fewest in-flight requests.
pub struct LeastConnections;

impl LeastConnections {
    pub fn new() -> (r: Self) {
        LeastConnections
    }
}

impl LoadBalancingStrategy for LeastConnections {
    fn pick_backend(&mut self, backends: &[Backend]) -> (r: Option<usize>)
        ensures
            r matches Some(i) ==> forall|j: int|
                0 <= j < backends@.len() && #[trigger] backends@[j].healthy ==> (backends@[i as int].active_connections
                    < backends@[j].active_connections || (backends@[i as int].active_connections
                    == backends@[j].active_connections && i <= j)),
    {
        let mut best: Option<usize> = None;
        let mut i: usize = 0;
        while i < backends.len()
            invariant
                i <= backends@.len(),
                best is None <==> !(exists|j: int| 0 <= j < i && #[trigger] backends@[j].healthy),
                best matches Some(b) ==> b < i && backends@[b as int].healthy && forall|j: int|
                    0 <= j < i && #[trigger] backends@[j].healthy ==> fewer_connections(
                        backends@,
                        b as int,
                        j,
                    ),
            decreases backends@.len() - i,
        {
            if backends[i].healthy {
                match best {
                    None => {
                        best = Some(i);
                    },
                    Some(b) => {
                        if backends[i].active_connections < backends[b].active_connections {
                            best = Some(i);
                        }
                    },
                }
            }
            i = i + 1;
        }
        best
    }

    fn name(&self) -> (r: &'static str)
        ensures
            r@ == "least_connections"@,
    {
        "least_connections"
    }
}


/// The strategies the proxy can run, by name.
#[derive(PartialEq, Eq, Structural, Clone, Copy, Debug)]
pub enum StrategyKind {
    RoundRobin,
    LeastConnections,
}

/// The active strategy, with whatever state it keeps.
pub enum Balancer {
    RoundRobin(RoundRobin),
    LeastConnections(LeastConnections),
}

impl Balancer {
    /// A fresh strategy of the given kind (a round-robin counter starts at 0).
    pub fn new(kind: StrategyKind) -> (r: Self)
        ensures
            r.kind() == kind,
            r matches Balancer::RoundRobin(rr) ==> rr@ == 0,
    {
        match kind {
            StrategyKind::RoundRobin => Balancer::RoundRobin(RoundRobin::new()),
            StrategyKind::LeastConnections => Balancer::LeastConnections(LeastConnections::new()),
        }
    }

    pub open spec fn kind(&self) -> StrategyKind {
        match self {
            Balancer::RoundRobin(_) => StrategyKind::RoundRobin,
            Balancer::LeastConnections(_) => StrategyKind::LeastConnections,
        }
    }

    /// Which kind of strategy this is.
    pub fn strategy_kind(&self) -> (r: StrategyKind)
        ensures
            r == self.kind(),
    {
        match self {
            Balancer::RoundRobin(_) => StrategyKind::RoundRobin,
            Balancer::LeastConnections(_) => StrategyKind::LeastConnections,
        }
    }
}

/// What one pick of the strategy `before` does on `bs`: it becomes `after`
/// and answers `r`.
pub open spec fn strategy_pick(before: Balancer, after: Balancer, bs: Seq<Backend>, r: Option<usize>) -> bool {
    &&& after.kind() == before.kind()
    &&& (r is None <==> !has_healthy(bs))
    &&& (r matches Some(i) ==> i < bs.len() && bs[i as int].healthy)
    &&& match before {
        Balancer::RoundRobin(rr) => after matches Balancer::RoundRobin(rr2) && (has_healthy(bs)
            ==> r == Some(round_robin_choice(bs, rr@ as int) as usize) && rr2@ == rr@.wrapping_add(
            1,
        )) && (!has_healthy(bs) ==> rr2@ == rr@),
        Balancer::LeastConnections(_) => r matches Some(i) ==> forall|j: int|
            0 <= j < bs.len() && #[trigger] bs[j].healthy ==> (bs[i as int].active_connections
                < bs[j].active_connections || (bs[i as int].active_connections == bs[j].active_connections
                && i <= j)),
    }
}

impl LoadBalancingStrategy for Balancer {
    fn pick_backend(&mut self, backends: &[Backend]) -> (r: Option<usize>)
        ensures
            strategy_pick(*old(self), *final(self), backends@, r),
    {
        match self {
            Balancer::RoundRobin(rr) => rr.pick_backend(backends),
            Balancer::LeastConnections(lc) => lc.pick_backend(backends),
        }
    }

    fn name(&self) -> (r: &'static str)
        ensures
            self.kind() == StrategyKind::RoundRobin ==> r@ == "round_robin"@,
            self.kind() == StrategyKind::LeastConnections ==> r@ == "least_connections"@,
    {
        match self {
            Balancer::RoundRobin(rr) => rr.name(),
            Balancer::LeastConnections(lc) => lc.name(),
        }
    }
}

/// The probe that asks a backend's `/health` route over HTTP.
pub struct HttpHealthCheck;

/// The address a health probe asks: the backend's address followed by `/health`.
pub fn probe_url(addr: &str) -> (r: String)
    ensures
        r@ == addr@ + "/health"@,
{
    let mut r = addr.to_owned();
    r.append("/health");
    r
}

/// A probe passes exactly when the backend answered with a 2xx status; a
/// failed request (`None`) counts as unhealthy.
pub fn probe_verdict(status: Option<u16>) -> (healthy: bool)
    ensures
        healthy <==> (status matches Some(c) && 200 <= c <= 299),
{
    match status {
        Some(c) => 200 <= c && c <= 299,
        None => false,
    }
}

/// Stores the outcome of one probe round: backend `i` becomes healthy exactly
/// when `results[i]` holds. Nothing else about a backend changes.
pub fn apply_probe_results(backends: &mut Vec<Backend>, results: &Vec<bool>)
    requires
        old(backends)@.len() == results@.len(),
    ensures
        final(backends)@.len() == old(backends)@.len(),
        forall|i: int|
            0 <= i < results@.len() ==> {
                &&& (#[trigger] final(backends)@[i]).healthy == results@[i]
                &&& final(backends)@[i].addr == old(backends)@[i].addr
                &&& final(backends)@[i].id == old(backends)@[i].id
                &&& final(backends)@[i].active_connections == old(backends)@[i].active_connections
            },
{
    let mut i: usize = 0;
    while i < backends.len()
        invariant
            i <= backends@.len(),
            backends@.len() == old(backends)@.len() == results@.len(),
            forall|j: int|
                0 <= j < backends@.len() ==> {
                    &&& (#[trigger] backends@[j]).healthy == if j < i {
                        results@[j]
                    } else {
                        old(backends)@[j].healthy
                    }
                    &&& backends@[j].addr == old(backends)@[j].addr
                    &&& backends@[j].id == old(backends)@[j].id
                    &&& backends@[j].active_connections == old(backends)@[j].active_connections
                },
        decreases backends@.len() - i,
    {
        backends[i].healthy = results[i];
        i = i + 1;
    }
}


/// The ids of the backends whose health flag equals `healthy`, in order.
pub open spec fn ids_with_health(bs: Seq<Backend>, healthy: bool) -> Seq<Seq<char>>
    decreases bs.len(),
{
    if bs.len() == 0 {
        Seq::empty()
    } else {
        let prev = ids_with_health(bs.drop_last(), healthy);
        if bs.last().healthy == healthy {
            prev.push(bs.last().id@)
        } else {
            prev
        }
    }
}

/// Lists the ids of the backends that are (or are not) healthy, in order:
/// the probe summary and the list of backends a strategy skips.
pub fn backend_ids_with_health(backends: &[Backend], healthy: bool) -> (r: Vec<String>)
    ensures
        r@.len() == ids_with_health(backends@, healthy).len(),
        forall|k: int| 0 <= k < r@.len() ==> #[trigger] r@[k]@ == ids_with_health(backends@, healthy)[k],
{
    let mut r: Vec<String> = Vec::new();
    let mut i: usize = 0;
    while i < backends.len()
        invariant
            i <= backends@.len(),
            r@.len() == ids_with_health(backends@.take(i as int), healthy).len(),
            forall|k: int|
                0 <= k < r@.len() ==> #[trigger] r@[k]@ == ids_with_health(
                    backends@.take(i as int),
                    healthy,
                )[k],
        decreases backends@.len() - i,
    {
        assert(backends@.take(i as int + 1).drop_last() =~= backends@.take(i as int));
        if backends[i].healthy == healthy {
            r.push(backends[i].id.clone());
        }
        i = i + 1;
    }
    assert(backends@.take(i as int) =~= backends@);
    r
}

/// Round robin is fair: on an unchanged backend list, any run of as many
/// consecutive picks as there are healthy backends chooses every healthy
/// backend exactly once.
pub proof fn lemma_round_robin_fair(bs: Seq<Backend>, start: int)
    requires
        has_healthy(bs),
        start >= 0,
    ensures
        forall|c1: int, c2: int|
            start <= c1 < c2 < start + healthy_indices(bs).len() ==> #[trigger] round_robin_choice(
                bs,
                c1,
            ) != #[trigger] round_robin_choice(bs, c2),
        forall|i: int|
            0 <= i < bs.len() && #[trigger] bs[i].healthy ==> exists|c: int|
                start <= c < start + healthy_indices(bs).len() && #[trigger] round_robin_choice(bs, c)
                    == i,
{
    lemma_healthy_indices(bs);
    let h = healthy_indices(bs);
    let n = h.len() as int;
    assert forall|c1: int, c2: int| start <= c1 < c2 < start + n implies #[trigger] round_robin_choice(
        bs,
        c1,
    ) != #[trigger] round_robin_choice(bs, c2) by {
        lemma_mod_distinct(start, c1 - start, c2 - start, n);
        let m1 = c1 % n;
        let m2 = c2 % n;
        if m1 < m2 {
            assert(h[m1] < h[m2]);
        } else {
            assert(h[m2] < h[m1]);
        }
    }
    assert forall|i: int| 0 <= i < bs.len() && #[trigger] bs[i].healthy implies exists|c: int|
        start <= c < start + n && #[trigger] round_robin_choice(bs, c) == i by {
        assert(h.contains(i));
        let m = choose|m: int| 0 <= m < n && h[m] == i;
        let k = lemma_mod_reach(start, m, n);
        assert(round_robin_choice(bs, start + k) == i);
    }
}

proof fn lemma_mod_distinct(start: int, k1: int, k2: int, n: int)
    requires
        start >= 0,
        0 <= k1 < k2 < n,
    ensures
        (start + k1) % n != (start + k2) % n,
        0 <= (start + k1) % n < n,
        0 <= (start + k2) % n < n,
{
    assert((start + k1) % n != (start + k2) % n) by (nonlinear_arith)
        requires
            start >= 0,
            0 <= k1 < k2 < n,
    {
        let q1 = (start + k1) / n;
        let q2 = (start + k2) / n;
        vstd::arithmetic::div_mod::lemma_fundamental_div_mod(start + k1, n);
        vstd::arithmetic::div_mod::lemma_fundamental_div_mod(start + k2, n);
        if (start + k1) % n == (start + k2) % n {
            assert(k2 - k1 == n * (q2 - q1));
            if q2 - q1 >= 1 {
                assert(n * (q2 - q1) >= n);
            } else {
                assert(n * (q2 - q1) <= 0);
            }
        }
    }
}

proof fn lemma_mod_reach(start: int, m: int, n: int) -> (k: int)
    requires
        start >= 0,
        0 <= m < n,
    ensures
        0 <= k < n,
        (start + k) % n == m,
{
    let r = start % n;
    let k = if m >= r {
        m - r
    } else {
        m - r + n
    };
    assert((start + k) % n == m) by (nonlinear_arith)
        requires
            start >= 0,
            0 <= m < n,
            r == start % n,
            k == if m >= r {
                m - r
            } else {
                m - r + n
            },
    {
        vstd::arithmetic::div_mod::lemma_fundamental_div_mod(start, n);
        let q = start / n;
        if m >= r {
            assert(start + k == q * n + m);
        } else {
            assert(start + k == (q + 1) * n + m);
        }
        vstd::arithmetic::div_mod::lemma_mod_multiples_vanish(
            if m >= r {
                q
            } else {
                q + 1
            },
            m,
            n,
        );
        vstd::arithmetic::div_mod::lemma_small_mod(m as nat, n as nat);
    }
    k
}

} // verus!
