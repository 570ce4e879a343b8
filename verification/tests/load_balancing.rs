use route_iq::load_balancing::{
    apply_probe_results, backend_ids_with_health, probe_url, probe_verdict, Backend, Balancer,
    LeastConnections, LoadBalancingStrategy, RoundRobin, StrategyKind,
};

fn backend(addr: &str, id: &str, active: u64, healthy: bool) -> Backend {
    Backend { addr: addr.to_owned(), id: id.into(), active_connections: active, healthy }
}

fn sample_backends() -> Vec<Backend> {
    vec![
        backend("http://127.0.0.1:8080", "a", 2, true),
        backend("http://127.0.0.1:8081", "b", 3, false),
        backend("http://127.0.0.1:8082", "c", 10, true),
        backend("http://127.0.0.1:8083", "d", 10, true),
    ]
}

#[test]
fn round_robin_name() {
    let rr = RoundRobin::new();
    let name = rr.name();
    assert_eq!(name, "round_robin");
}

#[test]
fn round_robin_picks_healthy_backends_only() {
    let mut rr = RoundRobin::new();
    let backends = sample_backends();

    let mut picks = vec![];
    for _ in 0..5 {
        let idx = rr.pick_backend(&backends).expect("should pick a backend");
        println!("picked index={idx}, id={}", backends[idx].id);
        picks.push(&backends[idx].id);
        assert!(backends[idx].healthy);
    }
    assert_eq!(vec!["a", "c", "d", "a", "c"], picks);
}

#[test]
fn least_connections_picks_server_with_smallest_connections() {
    let mut lc = LeastConnections::new();
    let backends = sample_backends();

    let idx = lc.pick_backend(&backends).expect("should pick a backend");
    println!("Least Connections Backend Selected: {}", backends[idx].id);
    assert_eq!(backends[idx].id, "a".to_string());
}

#[test]
fn least_connections_name() {
    assert_eq!(LeastConnections::new().name(), "least_connections");
}

#[test]
fn least_connections_breaks_ties_by_lowest_index() {
    let mut lc = LeastConnections::new();
    let backends = vec![
        backend("x", "a", 4, true),
        backend("x", "b", 1, false),
        backend("x", "c", 3, true),
        backend("x", "d", 3, true),
    ];
    assert_eq!(lc.pick_backend(&backends), Some(2));
}

#[test]
fn no_healthy_backend_gives_none() {
    let mut backends = sample_backends();
    for b in backends.iter_mut() {
        b.healthy = false;
    }
    let mut rr = RoundRobin::new();
    let mut lc = LeastConnections::new();
    assert_eq!(rr.pick_backend(&backends), None);
    assert_eq!(lc.pick_backend(&backends), None);
    backends[3].healthy = true;
    // The counter did not move on the failed pick.
    assert_eq!(rr.pick_backend(&backends), Some(3));
    assert_eq!(lc.pick_backend(&backends), Some(3));
}

#[test]
fn round_robin_visits_each_healthy_backend_once_per_cycle() {
    let mut rr = RoundRobin::new();
    let backends = sample_backends();
    for _ in 0..7 {
        rr.pick_backend(&backends);
    }
    let mut cycle: Vec<usize> = (0..3).map(|_| rr.pick_backend(&backends).unwrap()).collect();
    cycle.sort();
    assert_eq!(cycle, vec![0, 2, 3]);
}

#[test]
fn balancer_dispatches_to_its_strategy() {
    let backends = sample_backends();
    let mut b = Balancer::new(StrategyKind::RoundRobin);
    assert_eq!(b.strategy_kind(), StrategyKind::RoundRobin);
    assert_eq!(b.name(), "round_robin");
    assert_eq!(b.pick_backend(&backends), Some(0));
    assert_eq!(b.pick_backend(&backends), Some(2));
    let mut b = Balancer::new(StrategyKind::LeastConnections);
    assert_eq!(b.name(), "least_connections");
    assert_eq!(b.pick_backend(&backends), Some(0));
}

#[test]
fn probe_helpers() {
    assert_eq!(probe_url("http://127.0.0.1:8080"), "http://127.0.0.1:8080/health");
    assert!(probe_verdict(Some(200)));
    assert!(probe_verdict(Some(204)));
    assert!(probe_verdict(Some(299)));
    assert!(!probe_verdict(Some(300)));
    assert!(!probe_verdict(Some(500)));
    assert!(!probe_verdict(Some(199)));
    assert!(!probe_verdict(None));
}

#[test]
fn probe_results_set_health_and_summaries() {
    let mut backends = sample_backends();
    apply_probe_results(&mut backends, &vec![false, true, true, false]);
    let flags: Vec<bool> = backends.iter().map(|b| b.healthy).collect();
    assert_eq!(flags, vec![false, true, true, false]);
    assert_eq!(backends[0].active_connections, 2);
    assert_eq!(backends[2].addr, "http://127.0.0.1:8082");
    assert_eq!(backend_ids_with_health(&backends, true), vec!["b".to_string(), "c".to_string()]);
    assert_eq!(backend_ids_with_health(&backends, false), vec!["a".to_string(), "d".to_string()]);
}
