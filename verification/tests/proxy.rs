use route_iq::load_balancing::{Backend, Balancer, StrategyKind};
use route_iq::proxy::{
    admin_reply, admin_strategy_name, begin_request, end_request, is_admin_request, log_line,
    no_backend_reply, parse_strategy, upstream_uri,
};

fn four_backends() -> Vec<Backend> {
    ["a", "b", "c", "d"]
        .iter()
        .enumerate()
        .map(|(i, id)| Backend {
            addr: format!("http://127.0.0.1:{}", 8080 + i),
            id: id.to_string(),
            active_connections: 0,
            healthy: true,
        })
        .collect()
}

fn counts(backends: &[Backend]) -> Vec<u64> {
    backends.iter().map(|b| b.active_connections).collect()
}

#[test]
fn proxy_forwards_request_and_releases_connection() {
    let mut backends = four_backends();
    let mut balancer = Balancer::new(StrategyKind::RoundRobin);
    let sel = begin_request(&mut backends, &mut balancer).expect("a healthy backend");
    assert_eq!(sel.index, 0);
    assert_eq!(sel.id, "a");
    assert_eq!(upstream_uri(&sel.addr, Some("/hello")), "http://127.0.0.1:8080/hello");
    assert_eq!(counts(&backends), vec![1, 0, 0, 0]);
    end_request(&mut backends, &sel.id);
    assert!(backends.iter().all(|b| b.active_connections == 0));
}

#[test]
fn proxy_round_robin_splits_in_flight_connections_across_backends() {
    let mut backends = four_backends();
    let mut balancer = Balancer::new(StrategyKind::RoundRobin);
    let s1 = begin_request(&mut backends, &mut balancer).unwrap();
    let s2 = begin_request(&mut backends, &mut balancer).unwrap();
    assert_eq!(backends.len(), 4);
    assert_eq!(backends[0].active_connections, 1);
    assert_eq!(backends[1].active_connections, 1);
    end_request(&mut backends, &s1.id);
    end_request(&mut backends, &s2.id);
    assert!(backends.iter().all(|b| b.active_connections == 0));
}

#[test]
fn proxy_least_connections_prefers_lowest_in_flight_backends() {
    let mut backends = four_backends();
    backends[0].active_connections = 5;
    let mut balancer = Balancer::new(StrategyKind::LeastConnections);
    let s1 = begin_request(&mut backends, &mut balancer).unwrap();
    let s2 = begin_request(&mut backends, &mut balancer).unwrap();
    assert_eq!(counts(&backends), vec![5, 1, 1, 0]);
    end_request(&mut backends, &s1.id);
    end_request(&mut backends, &s2.id);
    assert_eq!(counts(&backends), vec![5, 0, 0, 0]);
}

#[test]
fn no_healthy_backend_is_refused_and_nothing_counted() {
    let mut backends = four_backends();
    for b in backends.iter_mut() {
        b.healthy = false;
    }
    let mut balancer = Balancer::new(StrategyKind::RoundRobin);
    assert!(begin_request(&mut backends, &mut balancer).is_none());
    assert_eq!(counts(&backends), vec![0, 0, 0, 0]);
    let (status, body) = no_backend_reply();
    assert_eq!(status, 503);
    assert_eq!(body, "No healthy backend");
}

#[test]
fn counters_wrap_like_atomic_add_and_sub() {
    let mut backends = four_backends();
    backends[0].active_connections = u64::MAX;
    let mut balancer = Balancer::new(StrategyKind::RoundRobin);
    let s = begin_request(&mut backends, &mut balancer).unwrap();
    assert_eq!(backends[0].active_connections, 0);
    end_request(&mut backends, &s.id);
    assert_eq!(backends[0].active_connections, u64::MAX);
    end_request(&mut backends, &"zz".to_string());
    assert_eq!(counts(&backends), vec![u64::MAX, 0, 0, 0]);
}

#[test]
fn admin_requests_are_posts_under_the_admin_path() {
    assert!(is_admin_request("POST", "/admin/strategy/round_robin"));
    assert!(is_admin_request("POST", "/admin/strategy/"));
    assert!(!is_admin_request("GET", "/admin/strategy/round_robin"));
    assert!(!is_admin_request("POST", "/admin/strategy"));
    assert!(!is_admin_request("POST", "/work"));
}

#[test]
fn admin_switches_to_known_strategies() {
    let r = admin_reply("/admin/strategy/round_robin");
    assert_eq!(r.status, 200);
    assert_eq!(r.body, "switched to round_robin\n");
    assert_eq!(r.strategy, Some(StrategyKind::RoundRobin));
    let r = admin_reply("/admin/strategy/least_connections");
    assert_eq!(r.status, 200);
    assert_eq!(r.body, "switched to least_connections\n");
    assert_eq!(r.strategy, Some(StrategyKind::LeastConnections));
}

#[test]
fn admin_refuses_unknown_strategy() {
    let r = admin_reply("/admin/strategy/garbage");
    assert_eq!(r.status, 400);
    assert_eq!(r.body, "unknown strategy: garbage");
    assert_eq!(r.strategy, None);
}

#[test]
fn admin_name_strips_every_leading_prefix() {
    assert_eq!(admin_strategy_name("/admin/strategy//admin/strategy/least_connections"), "least_connections");
    assert_eq!(admin_strategy_name("/admin/strategy/"), "");
    assert_eq!(admin_strategy_name("/other"), "/other");
    assert_eq!(parse_strategy("round_robin"), Some(StrategyKind::RoundRobin));
    assert_eq!(parse_strategy("Round_robin"), None);
    assert_eq!(parse_strategy(""), None);
}

#[test]
fn upstream_uri_defaults_to_root() {
    assert_eq!(upstream_uri("http://127.0.0.1:8081", None), "http://127.0.0.1:8081/");
    assert_eq!(upstream_uri("http://127.0.0.1:8081", Some("/work?x=1")), "http://127.0.0.1:8081/work?x=1");
}

#[test]
fn middleware_log_lines() {
    assert_eq!(log_line("/api/users"), "API Path: /api/users");
    assert_eq!(log_line("/work"), "Generic Path: /work");
}

#[test]
fn interleaved_requests_return_counts_to_baseline() {
    let mut backends = four_backends();
    backends[2].active_connections = 7;
    let mut balancer = Balancer::new(StrategyKind::RoundRobin);
    let s1 = begin_request(&mut backends, &mut balancer).unwrap();
    let s2 = begin_request(&mut backends, &mut balancer).unwrap();
    end_request(&mut backends, &s1.id);
    let s3 = begin_request(&mut backends, &mut balancer).unwrap();
    let s4 = begin_request(&mut backends, &mut balancer).unwrap();
    let s5 = begin_request(&mut backends, &mut balancer).unwrap();
    assert_eq!(counts(&backends), vec![1, 1, 8, 1]);
    end_request(&mut backends, &s4.id);
    end_request(&mut backends, &s2.id);
    end_request(&mut backends, &s5.id);
    end_request(&mut backends, &s3.id);
    assert_eq!(counts(&backends), vec![0, 0, 7, 0]);
    assert!(backends.iter().all(|b| b.healthy));
}
