use route_iq::backend::{
    health_for_roll, health_reply, listen_port, not_found_reply, route, work_for, work_plan, Route,
};

#[test]
fn unknown_path_returns_404() {
    assert_eq!(route("GET", "/this-route-does-not-exist"), Route::NotFound);
    assert_eq!(not_found_reply().status, 404);
    assert_eq!(not_found_reply().body, "not found");
}

#[test]
fn unknown_method_on_known_path_returns_404() {
    assert_eq!(route("POST", "/health"), Route::NotFound);
}

#[test]
fn health_route_returns_either_200_or_500() {
    assert_eq!(route("GET", "/health"), Route::Health);
    for _ in 0..200 {
        let status = health_reply().status;
        assert!(status == 200 || status == 500, "unexpected status from /health: {status}");
    }
}

#[test]
fn work_route_introduces_minimum_latency() {
    assert_eq!(route("GET", "/work"), Route::Work);
    let acceptable = [200u16, 500, 503, 504];
    for _ in 0..200 {
        let plan = work_plan();
        assert!(acceptable.contains(&plan.status), "unexpected status from /work: {}", plan.status);
        assert!(plan.delay_ms >= 8, "/work should sleep at least 8ms, plans {}", plan.delay_ms);
        assert!(plan.delay_ms < 2000);
    }
}

#[test]
fn health_outcomes_by_roll() {
    let r = health_for_roll(4);
    assert_eq!((r.status, r.body), (500, "unhealthy"));
    let r = health_for_roll(5);
    assert_eq!((r.status, r.body), (200, "healthy"));
    let r = health_for_roll(99);
    assert_eq!((r.status, r.body), (200, "healthy"));
}

#[test]
fn work_outcomes_by_roll() {
    let cases = [
        (0, 500, "internal error"),
        (5, 500, "internal error"),
        (6, 503, "unavailable"),
        (8, 503, "unavailable"),
        (9, 504, "timeout"),
        (10, 200, "work done."),
        (99, 200, "work done."),
    ];
    for (roll, status, body) in cases {
        let p = work_for(12, roll);
        assert_eq!(p.delay_ms, 12);
        assert_eq!((p.status, p.body), (status, body));
    }
}

#[test]
fn listen_port_defaults() {
    assert_eq!(listen_port(None), "8080");
    assert_eq!(listen_port(Some(String::new())), "8080");
    assert_eq!(listen_port(Some("8083".to_string())), "8083");
}
