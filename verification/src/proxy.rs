//! The proxy's per-request decisions: strategy switching over the admin
//! route, backend selection with in-flight accounting, and the upstream URI.

use vstd::prelude::*;
use crate::load_balancing::{Backend, Balancer, LoadBalancingStrategy, StrategyKind, strategy_pick};
use crate::text::{has_prefix, same_text, trim_start_all, trim_start_all_of};

verus! {

/// `b` with its in-flight count replaced by `n`.
pub open spec fn with_connections(b: Backend, n: u64) -> Backend {
    Backend { active_connections: n, ..b }
}

/// The backend list after a request to backend `i` has started.
pub open spec fn after_begin(bs: Seq<Backend>, i: int) -> Seq<Backend> {
    bs.update(i, with_connections(bs[i], bs[i].active_connections.wrapping_add(1)))
}

/// The position of the first backend whose id is `id` (the length of `bs`
/// when there is none).
pub open spec fn position_of_id(bs: Seq<Backend>, id: Seq<char>) -> int
    decreases bs.len(),
{
    if bs.len() == 0 {
        0
    } else if bs[0].id@ == id {
        0
    } else {
        1 + position_of_id(bs.drop_first(), id)
    }
}

/// The backend list after a request to the backend with id `id` has finished.
pub open spec fn after_end(bs: Seq<Backend>, id: Seq<char>) -> Seq<Backend> {
    let k = position_of_id(bs, id);
    if k < bs.len() {
        bs.update(k, with_connections(bs[k], bs[k].active_connections.wrapping_sub(1)))
    } else {
        bs
    }
}

proof fn lemma_position_of_id(bs: Seq<Backend>, id: Seq<char>, k: int)
    requires
        0 <= k <= bs.len(),
        forall|j: int| 0 <= j < k ==> (#[trigger] bs[j]).id@ != id,
        k < bs.len() ==> bs[k].id@ == id,
    ensures
        position_of_id(bs, id) == k,
    decreases k,
{
    if k > 0 {
        assert(bs[0].id@ != id);
        let rest = bs.drop_first();
        assert forall|j: int| 0 <= j < k - 1 implies (#[trigger] rest[j]).id@ != id by {
            assert(rest[j] == bs[j + 1]);
        }
        lemma_position_of_id(rest, id, k - 1);
    }
}

/// The backend chosen for one request.
pub struct Selection {
    pub index: usize,
    pub addr: String,
    pub id: String,
}

/// Starts a request: asks the strategy for a backend and counts one more
/// request in flight to it. `None` (and nothing changed but the strategy's
/// own state) when no backend is healthy.
pub fn begin_request(backends: &mut Vec<Backend>, balancer: &mut Balancer) -> (r: Option<Selection>)
    ensures
        strategy_pick(
            *old(balancer),
            *final(balancer),
            old(backends)@,
            match r {
                Some(s) => Some(s.index),
                None => None,
            },
        ),
        r is None ==> final(backends)@ == old(backends)@,
        r matches Some(s) ==> {
            &&& final(backends)@ == after_begin(old(backends)@, s.index as int)
            &&& s.addr@ == old(backends)@[s.index as int].addr@
            &&& s.id@ == old(backends)@[s.index as int].id@
        },
{
    let picked = balancer.pick_backend(backends.as_slice());
    match picked {
        None => None,
        Some(i) => {
            let n = backends[i].active_connections.wrapping_add(1);
            backends[i].active_connections = n;
            proof {
                assert(backends@ =~= after_begin(old(backends)@, i as int));
            }
            Some(Selection { index: i, addr: backends[i].addr.clone(), id: backends[i].id.clone() })
        },
    }
}

/// Finishes a request: counts one request fewer in flight to the first
/// backend whose id is `id`. Nothing changes when no backend has that id.
pub fn end_request(backends: &mut Vec<Backend>, id: &String)
    ensures
        final(backends)@ == after_end(old(backends)@, id@),
{
    let mut i: usize = 0;
    while i < backends.len()
        invariant
            i <= backends@.len(),
            backends@ == old(backends)@,
            forall|j: int| 0 <= j < i ==> (#[trigger] backends@[j]).id@ != id@,
        decreases backends@.len() - i,
    {
        if backends[i].id == *id {
            proof {
                lemma_position_of_id(backends@, id@, i as int);
            }
            let n = backends[i].active_connections.wrapping_sub(1);
            backends[i].active_connections = n;
            proof {
                assert(backends@ =~= after_end(old(backends)@, id@));
            }
            return;
        }
        i = i + 1;
    }
    proof {
        lemma_position_of_id(backends@, id@, i as int);
    }
}

/// A finished request gives back exactly what its start took: when backend
/// ids are distinct, starting and then finishing a request to backend `i`
/// leaves every in-flight count as it was.
pub proof fn lemma_request_round_trip(bs: Seq<Backend>, i: int)
    requires
        0 <= i < bs.len(),
        forall|a: int, b: int| 0 <= a < b < bs.len() ==> (#[trigger] bs[a]).id@ != (#[trigger] bs[b]).id@,
    ensures
        after_end(after_begin(bs, i), bs[i].id@) == bs,
{
    let mid = after_begin(bs, i);
    assert forall|j: int| 0 <= j < i implies (#[trigger] mid[j]).id@ != bs[i].id@ by {
        assert(mid[j] == bs[j]);
    }
    lemma_position_of_id(mid, bs[i].id@, i);
    assert(after_end(mid, bs[i].id@) =~= bs);
}


/// One step of the in-flight accounting: a request starts on the backend at
/// an index, or the request to the backend with an id finishes.
pub enum RequestEvent {
    Start(usize),
    Finish(String),
}

/// The backend list after the events, in order, from `bs`.
pub open spec fn after_events(bs: Seq<Backend>, evs: Seq<RequestEvent>) -> Seq<Backend>
    decreases evs.len(),
{
    if evs.len() == 0 {
        bs
    } else {
        let prev = after_events(bs, evs.drop_last());
        match evs.last() {
            RequestEvent::Start(i) => after_begin(prev, i as int),
            RequestEvent::Finish(id) => after_end(prev, id@),
        }
    }
}

/// How many of the events start a request on backend `i`.
pub open spec fn starts_on(evs: Seq<RequestEvent>, i: int) -> int
    decreases evs.len(),
{
    if evs.len() == 0 {
        0
    } else {
        starts_on(evs.drop_last(), i) + match evs.last() {
            RequestEvent::Start(k) => if k as int == i {
                1int
            } else {
                0int
            },
            RequestEvent::Finish(_) => 0int,
        }
    }
}

/// How many of the events finish a request to the backend with id `id`.
pub open spec fn finishes_of(evs: Seq<RequestEvent>, id: Seq<char>) -> int
    decreases evs.len(),
{
    if evs.len() == 0 {
        0
    } else {
        finishes_of(evs.drop_last(), id) + match evs.last() {
            RequestEvent::Start(_) => 0int,
            RequestEvent::Finish(x) => if x@ == id {
                1int
            } else {
                0int
            },
        }
    }
}

/// Backend ids are pairwise distinct.
pub open spec fn distinct_ids(bs: Seq<Backend>) -> bool {
    forall|a: int, b: int| 0 <= a < b < bs.len() ==> (#[trigger] bs[a]).id@ != (#[trigger] bs[b]).id@
}

/// The number of distinct values of a `u64`.
pub open spec fn u64_modulus() -> int {
    0x1_0000_0000_0000_0000
}

proof fn lemma_mod_step(c: int, d: int)
    requires
        d == 1 || d == -1,
    ensures
        (c + d) % u64_modulus() == if d == 1 {
            if c % u64_modulus() == u64_modulus() - 1 {
                0
            } else {
                c % u64_modulus() + 1
            }
        } else {
            if c % u64_modulus() == 0 {
                u64_modulus() - 1
            } else {
                c % u64_modulus() - 1
            }
        },
{
    let m = u64_modulus();
    vstd::arithmetic::div_mod::lemma_fundamental_div_mod(c, m);
    vstd::arithmetic::div_mod::lemma_fundamental_div_mod(c + d, m);
    let q = c / m;
    let r = c % m;
    assert(c + d == q * m + (r + d));
    if d == 1 && r == m - 1 {
        assert(c + d == (q + 1) * m) by (nonlinear_arith)
            requires
                c + d == q * m + (r + d),
                r + d == m,
        ;
        vstd::arithmetic::div_mod::lemma_mod_multiples_basic(q + 1, m);
    } else if d == -1 && r == 0 {
        assert(c + d == (q - 1) * m + (m - 1)) by (nonlinear_arith)
            requires
                c + d == q * m + (r + d),
                r == 0,
                d == -1,
        ;
        vstd::arithmetic::div_mod::lemma_mod_multiples_vanish(q - 1, m - 1, m);
        vstd::arithmetic::div_mod::lemma_small_mod((m - 1) as nat, m as nat);
    } else {
        vstd::arithmetic::div_mod::lemma_mod_multiples_vanish(q, r + d, m);
        vstd::arithmetic::div_mod::lemma_small_mod((r + d) as nat, m as nat);
    }
}

proof fn lemma_position_of_distinct(bs: Seq<Backend>, id: Seq<char>)
    requires
        distinct_ids(bs),
    ensures
        forall|j: int| 0 <= j < bs.len() && bs[j].id@ == id ==> position_of_id(bs, id) == j,
        (forall|j: int| 0 <= j < bs.len() ==> bs[j].id@ != id) ==> position_of_id(bs, id) == bs.len(),
{
    assert forall|j: int| 0 <= j < bs.len() && bs[j].id@ == id implies position_of_id(bs, id) == j by {
        assert forall|k: int| 0 <= k < j implies (#[trigger] bs[k]).id@ != id by {
            assert(bs[k].id@ != bs[j].id@);
        }
        lemma_position_of_id(bs, id, j);
    }
    if forall|j: int| 0 <= j < bs.len() ==> bs[j].id@ != id {
        assert forall|k: int| 0 <= k < bs.len() implies (#[trigger] bs[k]).id@ != id by {}
        lemma_position_of_id(bs, id, bs.len() as int);
    }
}

/// In-flight accounting over any interleaving of request starts and
/// finishes, when backend ids are distinct: every backend keeps its address,
/// id and health, and its in-flight count is its initial count plus the
/// requests started on it minus those finished, modulo 2^64 (the counts wrap
/// as atomic adds and subtracts do). So once every started request has
/// finished, each count is back at its initial value.
pub proof fn lemma_in_flight_accounting(bs: Seq<Backend>, evs: Seq<RequestEvent>)
    requires
        distinct_ids(bs),
        forall|k: int| 0 <= k < evs.len() ==> (#[trigger] evs[k] matches RequestEvent::Start(i) ==> i
            < bs.len()),
    ensures
        after_events(bs, evs).len() == bs.len(),
        forall|j: int|
            0 <= j < bs.len() ==> {
                &&& (#[trigger] after_events(bs, evs)[j]).addr == bs[j].addr
                &&& after_events(bs, evs)[j].id == bs[j].id
                &&& after_events(bs, evs)[j].healthy == bs[j].healthy
                &&& after_events(bs, evs)[j].active_connections as int == (bs[j].active_connections
                    + starts_on(evs, j) - finishes_of(evs, bs[j].id@)) % u64_modulus()
            },
        forall|j: int|
            0 <= j < bs.len() && starts_on(evs, j) == finishes_of(evs, bs[j].id@) ==> (#[trigger] after_events(
                bs,
                evs,
            )[j]).active_connections == bs[j].active_connections,
    decreases evs.len(),
{
    let m = u64_modulus();
    if evs.len() == 0 {
        assert forall|j: int| 0 <= j < bs.len() implies (#[trigger] after_events(bs, evs)[j]).active_connections
            as int == (bs[j].active_connections + starts_on(evs, j) - finishes_of(evs, bs[j].id@)) % m by {
            vstd::arithmetic::div_mod::lemma_small_mod(bs[j].active_connections as nat, m as nat);
        }
    } else {
        let pevs = evs.drop_last();
        assert forall|k: int| 0 <= k < pevs.len() implies (#[trigger] pevs[k] matches RequestEvent::Start(i) ==> i
            < bs.len()) by {
            assert(pevs[k] == evs[k]);
        }
        lemma_in_flight_accounting(bs, pevs);
        let prev = after_events(bs, pevs);
        let cur = after_events(bs, evs);
        assert(distinct_ids(prev));
        assert(evs[evs.len() - 1] == evs.last());
        match evs.last() {
            RequestEvent::Start(i) => {
                assert forall|j: int| 0 <= j < bs.len() implies {
                    &&& (#[trigger] cur[j]).addr == bs[j].addr
                    &&& cur[j].id == bs[j].id
                    &&& cur[j].healthy == bs[j].healthy
                    &&& cur[j].active_connections as int == (bs[j].active_connections + starts_on(evs, j)
                        - finishes_of(evs, bs[j].id@)) % m
                } by {
                    let c = bs[j].active_connections + starts_on(pevs, j) - finishes_of(pevs, bs[j].id@);
                    if j == i as int {
                        lemma_mod_step(c, 1);
                        assert(c + 1 == bs[j].active_connections + starts_on(evs, j) - finishes_of(
                            evs,
                            bs[j].id@,
                        ));
                    } else {
                        assert(cur[j] == prev[j]);
                    }
                }
            },
            RequestEvent::Finish(id) => {
                lemma_position_of_distinct(prev, id@);
                assert forall|j: int| 0 <= j < bs.len() implies {
                    &&& (#[trigger] cur[j]).addr == bs[j].addr
                    &&& cur[j].id == bs[j].id
                    &&& cur[j].healthy == bs[j].healthy
                    &&& cur[j].active_connections as int == (bs[j].active_connections + starts_on(evs, j)
                        - finishes_of(evs, bs[j].id@)) % m
                } by {
                    let c = bs[j].active_connections + starts_on(pevs, j) - finishes_of(pevs, bs[j].id@);
                    assert(prev[j].id == bs[j].id);
                    if bs[j].id@ == id@ {
                        assert(position_of_id(prev, id@) == j);
                        lemma_mod_step(c, -1);
                        assert(c - 1 == bs[j].active_connections + starts_on(evs, j) - finishes_of(
                            evs,
                            bs[j].id@,
                        ));
                    } else {
                        if position_of_id(prev, id@) < prev.len() {
                            let p = position_of_id(prev, id@);
                            assert(prev[p].id@ == id@) by {
                                lemma_position_found(prev, id@);
                            }
                            assert(p != j);
                        }
                        assert(cur[j] == prev[j]);
                    }
                }
            },
        }
    }
    assert forall|j: int|
        0 <= j < bs.len() && starts_on(evs, j) == finishes_of(evs, bs[j].id@) implies (#[trigger] after_events(
        bs,
        evs,
    )[j]).active_connections == bs[j].active_connections by {
        vstd::arithmetic::div_mod::lemma_small_mod(bs[j].active_connections as nat, m as nat);
    }
}

proof fn lemma_position_found(bs: Seq<Backend>, id: Seq<char>)
    ensures
        0 <= position_of_id(bs, id) <= bs.len(),
        position_of_id(bs, id) < bs.len() ==> bs[position_of_id(bs, id)].id@ == id,
    decreases bs.len(),
{
    if bs.len() > 0 && bs[0].id@ != id {
        lemma_position_found(bs.drop_first(), id);
        let p = position_of_id(bs.drop_first(), id);
        if p < bs.len() - 1 {
            assert(bs.drop_first()[p] == bs[p + 1]);
        }
    }
}

/// Requests under this path switch the strategy.
pub open spec fn admin_prefix() -> Seq<char> {
    "/admin/strategy/"@
}

/// Whether a request is a strategy switch: a POST under `/admin/strategy/`.
pub fn is_admin_request(method: &str, path: &str) -> (r: bool)
    ensures
        r == (method@ == "POST"@ && admin_prefix().is_prefix_of(path@)),
{
    same_text(method, "POST") && has_prefix(path, "/admin/strategy/")
}

/// The strategy named in an admin path: the path with every leading
/// `/admin/strategy/` removed.
pub fn admin_strategy_name(path: &str) -> (r: &str)
    ensures
        r@ == trim_start_all(path@, admin_prefix()),
{
    proof {
        reveal_strlit("/admin/strategy/");
    }
    trim_start_all_of(path, "/admin/strategy/")
}

/// The strategy a name stands for, if any.
pub open spec fn strategy_named(name: Seq<char>) -> Option<StrategyKind> {
    if name == "round_robin"@ {
        Some(StrategyKind::RoundRobin)
    } else if name == "least_connections"@ {
        Some(StrategyKind::LeastConnections)
    } else {
        None
    }
}

/// Exactly two names stand for a strategy: `round_robin` and
/// `least_connections`; every other name, including any that merely shares a
/// first letter or a prefix with them, stands for none.
pub proof fn lemma_strategy_names(name: Seq<char>)
    ensures
        strategy_named(name) == Some(StrategyKind::RoundRobin) <==> name == "round_robin"@,
        strategy_named(name) == Some(StrategyKind::LeastConnections) <==> name == "least_connections"@,
        strategy_named(name) is None <==> (name != "round_robin"@ && name != "least_connections"@),
{
    reveal_strlit("round_robin");
    reveal_strlit("least_connections");
    assert("round_robin"@.len() == 11);
    assert("least_connections"@.len() == 17);
    assert("round_robin"@ != "least_connections"@);
}

/// Reads a strategy name: `round_robin` or `least_connections`.
pub fn parse_strategy(name: &str) -> (r: Option<StrategyKind>)
    ensures
        r == strategy_named(name@),
        name@ == "round_robin"@ ==> r == Some(StrategyKind::RoundRobin),
        name@ == "least_connections"@ ==> r == Some(StrategyKind::LeastConnections),
        name@ != "round_robin"@ && name@ != "least_connections"@ ==> r is None,
{
    proof {
        lemma_strategy_names(name@);
    }
    if same_text(name, "round_robin") {
        Some(StrategyKind::RoundRobin)
    } else if same_text(name, "least_connections") {
        Some(StrategyKind::LeastConnections)
    } else {
        None
    }
}

/// The answer to a strategy-switch request.
pub struct AdminReply {
    /// HTTP status: 200 when switched, 400 for an unknown name.
    pub status: u16,
    pub body: String,
    /// The strategy to install, when the name was known.
    pub strategy: Option<StrategyKind>,
}

/// Decides a strategy-switch request for `path`: a known name switches
/// (200, `switched to <name>` and a newline); any other name is refused
/// (400, `unknown strategy: <name>`) and nothing is switched.
pub fn admin_reply(path: &str) -> (r: AdminReply)
    ensures
        ({
            let name = trim_start_all(path@, admin_prefix());
            &&& r.strategy == strategy_named(name)
            &&& r.strategy is Some ==> r.status == 200 && r.body@ == "switched to "@ + name + "\n"@
            &&& r.strategy is None ==> r.status == 400 && r.body@ == "unknown strategy: "@ + name
            &&& name == "round_robin"@ ==> r.strategy == Some(StrategyKind::RoundRobin) && r.status == 200
            &&& name == "least_connections"@ ==> r.strategy == Some(StrategyKind::LeastConnections)
                && r.status == 200
            &&& name != "round_robin"@ && name != "least_connections"@ ==> r.strategy is None && r.status
                == 400
        }),
{
    let name = admin_strategy_name(path);
    proof {
        lemma_strategy_names(name@);
    }
    match parse_strategy(name) {
        Some(kind) => {
            let mut body = "switched to ".to_owned();
            body.append(name);
            body.append("\n");
            AdminReply { status: 200, body, strategy: Some(kind) }
        },
        None => {
            let mut body = "unknown strategy: ".to_owned();
            body.append(name);
            AdminReply { status: 400, body, strategy: None }
        },
    }
}

/// The URI a request is forwarded to: the backend's address followed by the
/// request's path and query (`/` when it has none).
pub fn upstream_uri(addr: &str, path_and_query: Option<&str>) -> (r: String)
    ensures
        r@ == addr@ + match path_and_query {
            Some(pq) => pq@,
            None => "/"@,
        },
{
    let mut r = addr.to_owned();
    match path_and_query {
        Some(pq) => r.append(pq),
        None => r.append("/"),
    }
    r
}

/// The status and body sent when no backend is healthy.
pub fn no_backend_reply() -> (r: (u16, &'static str))
    ensures
        r.0 == 503,
        r.1@ == "No healthy backend"@,
{
    (503, "No healthy backend")
}

/// The line the logging middleware prints for a request path.
pub fn log_line(path: &str) -> (r: String)
    ensures
        "/api"@.is_prefix_of(path@) ==> r@ == "API Path: "@ + path@,
        !"/api"@.is_prefix_of(path@) ==> r@ == "Generic Path: "@ + path@,
{
    let mut r = if has_prefix(path, "/api") {
        "API Path: ".to_owned()
    } else {
        "Generic Path: ".to_owned()
    };
    r.append(path);
    r
}

} // verus!
