use route_iq::decision::{
    calm, decide, slowest, Decision, CALM_LATENCY_NANOS, SWAP_COOLDOWN_NANOS, TRIGGER_LATENCY_NANOS,
};
use route_iq::load_balancing::StrategyKind;

const MS: u64 = 1_000_000;

#[test]
fn slow_backend_moves_round_robin_to_least_connections() {
    let ps = vec![Some(12 * MS), None, Some(1500 * MS)];
    assert_eq!(
        decide(StrategyKind::RoundRobin, &ps, SWAP_COOLDOWN_NANOS),
        Decision::Swap(StrategyKind::LeastConnections)
    );
    assert_eq!(
        decide(StrategyKind::RoundRobin, &ps, SWAP_COOLDOWN_NANOS - 1),
        Decision::Suppressed(StrategyKind::LeastConnections)
    );
}

#[test]
fn exactly_the_trigger_is_not_slow() {
    let ps = vec![Some(TRIGGER_LATENCY_NANOS)];
    assert_eq!(decide(StrategyKind::RoundRobin, &ps, SWAP_COOLDOWN_NANOS), Decision::Keep);
    let ps = vec![Some(TRIGGER_LATENCY_NANOS + 1)];
    assert_eq!(
        decide(StrategyKind::RoundRobin, &ps, SWAP_COOLDOWN_NANOS),
        Decision::Swap(StrategyKind::LeastConnections)
    );
}

#[test]
fn calm_backends_bring_round_robin_back() {
    let ps = vec![Some(10 * MS), None, Some(CALM_LATENCY_NANOS - 1)];
    assert!(calm(&ps));
    assert_eq!(
        decide(StrategyKind::LeastConnections, &ps, SWAP_COOLDOWN_NANOS),
        Decision::Swap(StrategyKind::RoundRobin)
    );
    let ps = vec![Some(10 * MS), Some(CALM_LATENCY_NANOS)];
    assert!(!calm(&ps));
    assert_eq!(decide(StrategyKind::LeastConnections, &ps, SWAP_COOLDOWN_NANOS), Decision::Keep);
    // No samples at all counts as calm.
    assert!(calm(&[None, None]));
    assert_eq!(
        decide(StrategyKind::LeastConnections, &[], 0),
        Decision::Suppressed(StrategyKind::RoundRobin)
    );
}

#[test]
fn slowest_is_first_of_equal_maxima() {
    assert_eq!(slowest(&[None, Some(3), Some(7), Some(7), Some(1)]), Some(2));
    assert_eq!(slowest(&[None, None]), None);
    assert_eq!(slowest(&[]), None);
}
