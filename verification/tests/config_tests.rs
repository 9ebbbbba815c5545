use load_balancer::config::CliArgs;
use load_balancer::config::ConfigError;
use load_balancer::config::LoadBalancerType;
use load_balancer::config::ProxyInstance;
use load_balancer::config::ProxyType;
use load_balancer::config::build_proxy;
use load_balancer::load_balancer::Balancer;

fn args(port: u16, servers: &[&str], proxy_type: ProxyType, lb: LoadBalancerType) -> CliArgs {
    CliArgs {
        port,
        servers: servers.iter().map(|s| String::from(*s)).collect(),
        proxy_type,
        load_balancer_type: lb,
    }
}

#[test]
fn an_empty_server_list_is_fatal() {
    let a = args(8080, &[], ProxyType::Tcp, LoadBalancerType::RoundRobin);
    assert_eq!(build_proxy(&a).err().unwrap(), ConfigError::NoServers);
}

#[test]
fn least_connections_over_udp_is_rejected() {
    let a = args(
        8080,
        &["127.0.0.1:9000"],
        ProxyType::Udp,
        LoadBalancerType::LeastConnection,
    );
    assert_eq!(build_proxy(&a).err().unwrap(), ConfigError::InvalidCombination);
}

#[test]
fn a_bad_server_entry_is_fatal_and_named() {
    let a = args(
        8080,
        &["127.0.0.1:9000", "not-an-address"],
        ProxyType::Tcp,
        LoadBalancerType::RoundRobin,
    );
    assert_eq!(
        build_proxy(&a).err().unwrap(),
        ConfigError::InvalidServerAddress { index: 1 }
    );
}

#[test]
fn a_valid_tcp_round_robin_config_builds_that_proxy() {
    let a = args(
        8080,
        &["10.0.0.1:9001", "10.0.0.2:9002"],
        ProxyType::Tcp,
        LoadBalancerType::RoundRobin,
    );
    match build_proxy(&a).unwrap() {
        ProxyInstance::Tcp(t) => {
            assert_eq!(t.address, "127.0.0.1:8080");
            match t.load_balancer {
                Balancer::RoundRobin(rr) => {
                    assert_eq!(rr.next_index, 0);
                    assert_eq!(rr.servers.len(), 2);
                    assert_eq!(rr.servers[0].port, 9001);
                    assert_eq!(rr.servers[1].port, 9002);
                },
                Balancer::LeastConnection(_) => panic!("wrong strategy"),
            }
        },
        ProxyInstance::Udp(_) => panic!("wrong transport"),
    }
}

#[test]
fn a_valid_udp_round_robin_config_builds_that_proxy() {
    let a = args(
        9999,
        &["10.0.0.1:9001"],
        ProxyType::Udp,
        LoadBalancerType::RoundRobin,
    );
    match build_proxy(&a).unwrap() {
        ProxyInstance::Udp(u) => {
            assert_eq!(u.address, "127.0.0.1:9999");
        },
        ProxyInstance::Tcp(_) => panic!("wrong transport"),
    }
}

#[test]
fn a_valid_tcp_least_connections_config_starts_with_zero_counts() {
    let a = args(
        8081,
        &["10.0.0.1:9001", "10.0.0.2:9002"],
        ProxyType::Tcp,
        LoadBalancerType::LeastConnection,
    );
    match build_proxy(&a).unwrap() {
        ProxyInstance::Tcp(t) => match t.load_balancer {
            Balancer::LeastConnection(lc) => {
                assert_eq!(lc.servers.len(), 2);
                for (_, c) in lc.servers.iter() {
                    assert_eq!(*c, 0);
                }
            },
            Balancer::RoundRobin(_) => panic!("wrong strategy"),
        },
        ProxyInstance::Udp(_) => panic!("wrong transport"),
    }
}
