use load_balancer::load_balancer::Balancer;
use load_balancer::load_balancer::RoundRobinLoadBalancer;
use load_balancer::load_balancer::UpdateOutcome;
use load_balancer::registry::BackendPool;
use load_balancer::reverse_proxy::TcpProxy;
use load_balancer::reverse_proxy::UdpProxy;
use load_balancer::server::Protocol;
use load_balancer::server::Server;
use load_balancer::server_config::CliArgs;
use load_balancer::server_config::ServerType;
use load_balancer::server_config::build_server;

fn rr_balancer(texts: &[&str]) -> Balancer {
    let servers: Vec<String> = texts.iter().map(|t| String::from(*t)).collect();
    let pool = BackendPool::parse(&servers).unwrap();
    Balancer::RoundRobin(RoundRobinLoadBalancer::new(pool))
}

#[test]
fn a_tcp_proxy_selects_and_releases_per_session() {
    let mut p = TcpProxy::new(7000, rr_balancer(&["10.0.0.1:9001", "10.0.0.2:9002"]));
    assert_eq!(p.address(), "127.0.0.1:7000");
    let first = p.select_backend();
    assert_eq!(first.port, 9001);
    assert_eq!(p.select_backend().port, 9002);
    assert_eq!(p.release_backend(first), UpdateOutcome::Ignored);
    assert_eq!(p.select_backend().port, 9001);
}

#[test]
fn a_udp_proxy_chooses_per_datagram() {
    let mut p = UdpProxy::new(7001, rr_balancer(&["10.0.0.1:9001", "10.0.0.2:9002"]));
    assert_eq!(p.address(), "127.0.0.1:7001");
    assert_eq!(p.choose_backend().port, 9001);
    assert_eq!(p.choose_backend().port, 9002);
    assert_eq!(p.choose_backend().port, 9001);
}

#[test]
fn a_server_knows_its_protocol_and_address() {
    let s = Server::new(Protocol::Udp, 9100);
    assert!(matches!(s.protocol, Protocol::Udp));
    assert_eq!(s.address(), "127.0.0.1:9100");
}

#[test]
fn build_server_follows_the_arguments() {
    let s = build_server(&CliArgs { server_type: ServerType::Http, port: 80 });
    assert!(matches!(s.protocol, Protocol::Http));
    assert_eq!(s.address, "127.0.0.1:80");
}
