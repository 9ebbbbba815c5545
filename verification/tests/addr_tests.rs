use load_balancer::addr::BackendAddress;
use load_balancer::addr::loopback_listen_address;
use load_balancer::addr::parse_backend_address;

#[test]
fn parses_a_plain_loopback_address() {
    let a = parse_backend_address("127.0.0.1:9000").unwrap();
    assert_eq!(
        a,
        BackendAddress { o1: 127, o2: 0, o3: 0, o4: 1, port: 9000 }
    );
}

#[test]
fn parses_extreme_octets_and_ports() {
    let a = parse_backend_address("0.0.0.0:0").unwrap();
    assert_eq!(a, BackendAddress { o1: 0, o2: 0, o3: 0, o4: 0, port: 0 });
    let b = parse_backend_address("255.255.255.255:65535").unwrap();
    assert_eq!(
        b,
        BackendAddress { o1: 255, o2: 255, o3: 255, o4: 255, port: 65535 }
    );
}

#[test]
fn accepts_a_port_with_leading_zeros() {
    let a = parse_backend_address("10.0.0.2:0080").unwrap();
    assert_eq!(a.port, 80);
}

#[test]
fn rejects_text_that_is_not_an_address() {
    assert!(parse_backend_address("not-an-address").is_none());
    assert!(parse_backend_address("").is_none());
    assert!(parse_backend_address("hello world").is_none());
}

#[test]
fn rejects_malformed_hosts() {
    assert!(parse_backend_address("127.0.0:9000").is_none());
    assert!(parse_backend_address("127.0.0.1.5:9000").is_none());
    assert!(parse_backend_address("127.0.0.256:9000").is_none());
    assert!(parse_backend_address("01.2.3.4:9000").is_none());
    assert!(parse_backend_address(".1.2.3:9000").is_none());
    assert!(parse_backend_address("a.b.c.d:9000").is_none());
}

#[test]
fn rejects_malformed_ports() {
    assert!(parse_backend_address("127.0.0.1").is_none());
    assert!(parse_backend_address("127.0.0.1:").is_none());
    assert!(parse_backend_address("127.0.0.1:65536").is_none());
    assert!(parse_backend_address("127.0.0.1:9000x").is_none());
    assert!(parse_backend_address("127.0.0.1:80:90").is_none());
}

#[test]
fn builds_the_loopback_listen_text() {
    assert_eq!(loopback_listen_address(8080), "127.0.0.1:8080");
    assert_eq!(loopback_listen_address(0), "127.0.0.1:0");
    assert_eq!(loopback_listen_address(65535), "127.0.0.1:65535");
}

#[test]
fn the_listen_text_parses_back_to_loopback() {
    for p in [0u16, 1, 80, 8080, 65535] {
        let text = loopback_listen_address(p);
        let a = parse_backend_address(text.as_str()).unwrap();
        assert_eq!(
            a,
            BackendAddress { o1: 127, o2: 0, o3: 0, o4: 1, port: p }
        );
    }
}
