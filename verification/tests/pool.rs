use std::collections::HashSet;

use ai_protect::engine::net::SocketAddr;
use ai_protect::engine::time::{Duration, Instant};
use ai_protect::engine::upstream_pool::{LoadBalanceStrategy, UpstreamPool};

fn addr(port: u16) -> SocketAddr {
    SocketAddr { ip: "127.0.0.1".to_string(), port }
}

fn ports(pool: &mut UpstreamPool) -> Vec<u16> {
    pool.candidates().iter().map(|c| c.addr.port).collect()
}

#[test]
fn round_robin_cycles_through_every_healthy_target() {
    let mut pool = UpstreamPool::new(
        vec![addr(1), addr(2), addr(3)],
        LoadBalanceStrategy::RoundRobin,
        Duration::from_secs(30),
    );

    assert_eq!(ports(&mut pool), vec![1, 2, 3]);
    assert_eq!(ports(&mut pool), vec![2, 3, 1]);
    assert_eq!(ports(&mut pool), vec![3, 1, 2]);
}

#[test]
fn round_robin_skips_a_target_marked_down() {
    let mut pool = UpstreamPool::new(
        vec![addr(1), addr(2)],
        LoadBalanceStrategy::RoundRobin,
        Duration::from_secs(30),
    );
    pool.mark_failed(0);

    let candidates = pool.candidates();

    assert_eq!(candidates[0].addr.port, 2, "the only healthy target should be tried first");
    assert_eq!(candidates[1].addr.port, 1, "the down target should still appear, last");
}

#[test]
fn random_with_one_target_always_returns_it() {
    let mut pool =
        UpstreamPool::new(vec![addr(1)], LoadBalanceStrategy::Random, Duration::from_secs(30));

    for _ in 0..10 {
        assert_eq!(pool.candidates()[0].addr.port, 1);
    }
}

#[test]
fn random_distribution_sanity_every_target_appears_first_eventually() {
    let mut pool = UpstreamPool::new(
        vec![addr(1), addr(2), addr(3)],
        LoadBalanceStrategy::Random,
        Duration::from_secs(30),
    );

    let mut seen_first: HashSet<u16> = HashSet::new();
    for _ in 0..200 {
        seen_first.insert(pool.candidates()[0].addr.port);
    }

    assert_eq!(seen_first, [1, 2, 3].into_iter().collect::<HashSet<u16>>());
}

#[test]
fn least_connections_prefers_the_target_with_fewer_active_connections() {
    let mut pool = UpstreamPool::new(
        vec![addr(1), addr(2)],
        LoadBalanceStrategy::LeastConnections,
        Duration::from_secs(30),
    );

    let _a = pool.mark_connected(0);
    let _b = pool.mark_connected(0);

    let candidates = pool.candidates();

    assert_eq!(
        candidates[0].addr.port, 2,
        "target with fewer active connections goes first"
    );
    assert_eq!(candidates[1].addr.port, 1);
}

#[test]
fn active_connection_guard_decrements_the_count_on_drop() {
    let mut pool = UpstreamPool::new(
        vec![addr(1), addr(2)],
        LoadBalanceStrategy::LeastConnections,
        Duration::from_secs(30),
    );

    let connection = pool.mark_connected(0);
    assert_eq!(connection.active_connections, 1);
    assert_eq!(
        pool.candidates()[0].addr.port, 2,
        "target 1 has fewer active connections while the guard is held"
    );
    pool.release(connection.guard);

    assert_eq!(pool.active_connections(0), 0);
    assert_eq!(pool.active_connections(1), 0);
}

#[test]
fn mark_failed_excludes_a_target_until_cooldown_elapses() {
    let mut pool = UpstreamPool::new(
        vec![addr(1), addr(2)],
        LoadBalanceStrategy::RoundRobin,
        Duration::from_millis(50),
    );
    let start = Instant { nanos: 0 };
    let later = Instant { nanos: 80_000_000 };

    assert!(pool.mark_failed_at(0, start));

    assert!(!pool.is_healthy_at(0, start));
    assert!(pool.is_healthy_at(0, later));
}

#[test]
fn mark_connected_clears_cooldown_and_restores_the_target_to_the_healthy_tier() {
    let mut pool = UpstreamPool::new(
        vec![addr(1), addr(2)],
        LoadBalanceStrategy::RoundRobin,
        Duration::from_secs(30),
    );
    pool.mark_failed(0);
    assert!(!pool.is_healthy(0));

    let connection = pool.mark_connected(0);

    assert!(connection.was_down);
    assert!(pool.is_healthy(0));
}

#[test]
fn candidates_returns_every_target_when_all_are_down() {
    let mut pool = UpstreamPool::new(
        vec![addr(1), addr(2)],
        LoadBalanceStrategy::RoundRobin,
        Duration::from_secs(30),
    );
    pool.mark_failed(0);
    pool.mark_failed(1);

    let candidates = pool.candidates();

    assert_eq!(candidates.len(), 2);
}

#[test]
fn failing_again_does_not_count_as_going_down() {
    let mut pool = UpstreamPool::new(
        vec![addr(1)],
        LoadBalanceStrategy::default(),
        Duration::from_secs(30),
    );

    assert!(pool.mark_failed_at(0, Instant { nanos: 0 }));
    assert!(!pool.mark_failed_at(0, Instant { nanos: 1 }));
}

#[test]
fn every_target_is_tried_once_in_whatever_order() {
    for strategy in [
        LoadBalanceStrategy::RoundRobin,
        LoadBalanceStrategy::Random,
        LoadBalanceStrategy::LeastConnections,
    ] {
        let mut pool = UpstreamPool::new(
            vec![addr(1), addr(2), addr(3)],
            strategy,
            Duration::from_secs(30),
        );
        pool.mark_failed(1);
        let mut order = ports(&mut pool);
        assert_eq!(order[2], 2);
        order.sort();
        assert_eq!(order, vec![1, 2, 3]);
    }
}

#[test]
fn what_is_counted_are_the_guards_alive() {
    let mut pool = UpstreamPool::new(
        vec![addr(1), addr(2)],
        LoadBalanceStrategy::LeastConnections,
        Duration::from_secs(30),
    );
    let counts = |pool: &UpstreamPool| (pool.active_connections(0), pool.active_connections(1));

    let one = pool.mark_connected(0);
    let two = pool.mark_connected(1);
    let three = pool.mark_connected(0);
    assert_eq!(counts(&pool), (2, 1));
    pool.mark_failed(0);
    assert_eq!(counts(&pool), (2, 1));
    assert_eq!(pool.release(one.guard), 1);
    assert_eq!(counts(&pool), (1, 1));
    assert_eq!(pool.release(two.guard), 0);
    let four = pool.mark_connected(1);
    assert_eq!(counts(&pool), (1, 1));
    assert_eq!(pool.release(three.guard), 0);
    assert_eq!(pool.release(four.guard), 0);
    assert_eq!(counts(&pool), (0, 0));
}
