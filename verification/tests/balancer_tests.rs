use load_balancer::addr::BackendAddress;
use load_balancer::load_balancer::Balancer;
use load_balancer::load_balancer::LeastConnectionLoadBalancer;
use load_balancer::load_balancer::RoundRobinLoadBalancer;
use load_balancer::load_balancer::UpdateOutcome;
use load_balancer::registry::BackendPool;

fn pool_of(texts: &[&str]) -> BackendPool {
    let servers: Vec<String> = texts.iter().map(|t| String::from(*t)).collect();
    BackendPool::parse(&servers).unwrap()
}

fn addr(text: &str) -> BackendAddress {
    load_balancer::addr::parse_backend_address(text).unwrap()
}

#[test]
fn round_robin_cycles_through_the_pool_in_order() {
    let mut rr = RoundRobinLoadBalancer::new(pool_of(&[
        "10.0.0.1:9001",
        "10.0.0.2:9002",
        "10.0.0.3:9003",
    ]));
    let mut got = Vec::new();
    for _ in 0..7 {
        got.push(rr.get_next_server().port);
    }
    assert_eq!(got, vec![9001, 9002, 9003, 9001, 9002, 9003, 9001]);
}

#[test]
fn round_robin_works_with_a_single_backend() {
    let mut rr = RoundRobinLoadBalancer::new(pool_of(&["10.0.0.1:9001"]));
    assert_eq!(rr.get_next_server().port, 9001);
    assert_eq!(rr.get_next_server().port, 9001);
}

#[test]
fn round_robin_ignores_releases() {
    let mut rr = RoundRobinLoadBalancer::new(pool_of(&["10.0.0.1:9001", "10.0.0.2:9002"]));
    assert_eq!(rr.get_next_server().port, 9001);
    assert_eq!(rr.update_server(addr("10.0.0.1:9001")), UpdateOutcome::Ignored);
    assert_eq!(rr.update_server(addr("10.0.0.9:9009")), UpdateOutcome::Ignored);
    assert_eq!(rr.get_next_server().port, 9002);
}

#[test]
fn tcp_round_robin_routes_a_b_a_then_b() {
    // Two backends under round-robin: three sessions go A, B, A; after
    // the first session ends, the fourth still goes to B.
    let mut rr = RoundRobinLoadBalancer::new(pool_of(&["10.0.0.1:9001", "10.0.0.2:9002"]));
    let a = rr.get_next_server();
    let b = rr.get_next_server();
    let c = rr.get_next_server();
    assert_eq!(a.port, 9001);
    assert_eq!(b.port, 9002);
    assert_eq!(c.port, 9001);
    rr.update_server(a);
    assert_eq!(rr.get_next_server().port, 9002);
}

#[test]
fn least_connections_picks_the_minimum_with_lowest_index_ties() {
    let mut lc = LeastConnectionLoadBalancer::new(pool_of(&[
        "10.0.0.1:9001",
        "10.0.0.2:9002",
        "10.0.0.3:9003",
    ]));
    // All counts zero: the tie resolves to the first backend.
    assert_eq!(lc.get_next_server().port, 9001);
    // Counts are now 1,0,0: the minimum is the second backend.
    assert_eq!(lc.get_next_server().port, 9002);
    // Counts 1,1,0.
    assert_eq!(lc.get_next_server().port, 9003);
    // Counts 1,1,1: tie again, lowest index wins.
    assert_eq!(lc.get_next_server().port, 9001);
    // Release one from the second backend: counts 2,0,1.
    assert_eq!(lc.update_server(addr("10.0.0.2:9002")), UpdateOutcome::Decremented);
    assert_eq!(lc.get_next_server().port, 9002);
}

#[test]
fn least_connections_counter_is_at_most_every_other() {
    let mut lc = LeastConnectionLoadBalancer::new(pool_of(&[
        "10.0.0.1:9001",
        "10.0.0.2:9002",
        "10.0.0.3:9003",
    ]));
    for _ in 0..10 {
        let chosen = lc.get_next_server();
        let counts: Vec<u32> = lc.servers.iter().map(|p| p.1).collect();
        let chosen_count = lc
            .servers
            .iter()
            .find(|p| p.0 == chosen)
            .map(|p| p.1)
            .unwrap();
        // The chosen backend's count, before this call raised it, was
        // at most every other backend's count.
        for c in counts {
            assert!(chosen_count - 1 <= c);
        }
    }
}

#[test]
fn releasing_an_unknown_address_changes_nothing() {
    let mut lc = LeastConnectionLoadBalancer::new(pool_of(&["10.0.0.1:9001", "10.0.0.2:9002"]));
    lc.get_next_server();
    let before: Vec<(BackendAddress, u32)> = lc.servers.clone();
    assert_eq!(lc.update_server(addr("10.9.9.9:1234")), UpdateOutcome::UnknownServer);
    assert_eq!(lc.servers, before);
}

#[test]
fn releasing_a_zero_counter_changes_nothing() {
    let mut lc = LeastConnectionLoadBalancer::new(pool_of(&["10.0.0.1:9001", "10.0.0.2:9002"]));
    lc.get_next_server();
    let before: Vec<(BackendAddress, u32)> = lc.servers.clone();
    assert_eq!(lc.update_server(addr("10.0.0.2:9002")), UpdateOutcome::AlreadyZero);
    assert_eq!(lc.servers, before);
    // Every counter stays non-negative however often a release comes.
    for _ in 0..5 {
        lc.update_server(addr("10.0.0.1:9001"));
        lc.update_server(addr("10.0.0.2:9002"));
    }
    for (_, c) in lc.servers.iter() {
        assert!(*c == 0);
    }
}

#[test]
fn the_balancer_enum_dispatches_both_strategies() {
    let mut b = Balancer::RoundRobin(RoundRobinLoadBalancer::new(pool_of(&[
        "10.0.0.1:9001",
        "10.0.0.2:9002",
    ])));
    assert_eq!(b.get_next_server().port, 9001);
    assert_eq!(b.get_next_server().port, 9002);
    assert_eq!(b.update_server(addr("10.0.0.1:9001")), UpdateOutcome::Ignored);

    let mut b = Balancer::LeastConnection(LeastConnectionLoadBalancer::new(pool_of(&[
        "10.0.0.1:9001",
        "10.0.0.2:9002",
    ])));
    assert_eq!(b.get_next_server().port, 9001);
    assert_eq!(b.update_server(addr("10.0.0.1:9001")), UpdateOutcome::Decremented);
    assert_eq!(b.get_next_server().port, 9001);
}
