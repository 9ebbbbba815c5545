use load_balancer::registry::BackendPool;
use load_balancer::registry::RegistryError;

#[test]
fn an_empty_server_list_fails() {
    let servers: Vec<String> = vec![];
    assert_eq!(
        BackendPool::parse(&servers).err().unwrap(),
        RegistryError::EmptyServerList
    );
}

#[test]
fn the_first_bad_entry_is_named() {
    let servers = vec![
        String::from("127.0.0.1:9000"),
        String::from("not-an-address"),
    ];
    assert_eq!(
        BackendPool::parse(&servers).err().unwrap(),
        RegistryError::InvalidAddress { index: 1 }
    );
}

#[test]
fn a_bad_entry_fails_the_whole_pool() {
    let servers = vec![
        String::from("bogus"),
        String::from("127.0.0.1:9000"),
    ];
    assert_eq!(
        BackendPool::parse(&servers).err().unwrap(),
        RegistryError::InvalidAddress { index: 0 }
    );
}

#[test]
fn a_valid_list_keeps_its_order() {
    let servers = vec![
        String::from("10.0.0.1:9001"),
        String::from("10.0.0.2:9002"),
        String::from("10.0.0.3:9003"),
    ];
    let pool = BackendPool::parse(&servers).unwrap();
    assert_eq!(pool.len(), 3);
    assert_eq!(pool.get(0).o4, 1);
    assert_eq!(pool.get(0).port, 9001);
    assert_eq!(pool.get(1).o4, 2);
    assert_eq!(pool.get(2).port, 9003);
}
