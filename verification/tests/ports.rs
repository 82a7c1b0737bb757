use turn_rs::address::Address;
use turn_rs::address::IpAddress;
use turn_rs::router::ports::capacity;
use turn_rs::router::ports::PortError;
use turn_rs::router::ports::PortPool;

fn client(port: u16) -> Address {
    Address::new(IpAddress::v4(10, 0, 0, 1), port)
}

fn peer(port: u16) -> Address {
    Address::new(IpAddress::v4(203, 0, 113, 5), port)
}

#[test]
fn ports_default_range_holds_16384_ports() {
    assert_eq!(capacity(), 16384);
    let mut pool = PortPool::with_default_range();
    assert_eq!(pool.allocate(&client(1)), Ok(49152));
}

#[test]
fn ports_allocate_gives_the_lowest_free_port() {
    let mut pool = PortPool::new(50000, 50003);
    assert_eq!(pool.allocate(&client(1)), Ok(50000));
    assert_eq!(pool.allocate(&client(2)), Ok(50001));
    assert_eq!(pool.allocate(&client(1)), Ok(50002));
    pool.release_all(&client(2));
    assert_eq!(pool.allocate(&client(3)), Ok(50001));
    assert_eq!(pool.allocate(&client(3)), Ok(50003));
}

#[test]
fn ports_allocate_refuses_when_none_is_free() {
    let mut pool = PortPool::new(50000, 50001);
    assert_eq!(pool.allocate(&client(1)), Ok(50000));
    assert_eq!(pool.allocate(&client(1)), Ok(50001));
    assert_eq!(pool.allocate(&client(2)), Err(PortError::NoCapacity));
    assert_eq!(pool.allocate(&client(1)), Err(PortError::NoCapacity));
}

#[test]
fn ports_empty_range_has_no_capacity() {
    let mut pool = PortPool::new(50001, 50000);
    assert_eq!(pool.allocate(&client(1)), Err(PortError::NoCapacity));
    assert!(pool.lease(50000).is_none());
}

#[test]
fn ports_range_of_one_port_at_the_top() {
    let mut pool = PortPool::new(65535, 65535);
    assert_eq!(pool.allocate(&client(1)), Ok(65535));
    assert_eq!(pool.allocate(&client(1)), Err(PortError::NoCapacity));
    pool.release_all(&client(1));
    assert_eq!(pool.allocate(&client(2)), Ok(65535));
}

#[test]
fn ports_lease_names_owner_and_peer() {
    let mut pool = PortPool::new(50000, 50003);
    assert!(pool.lease(50000).is_none());
    assert!(pool.lease(40000).is_none());
    pool.allocate(&client(1)).unwrap();
    let lease = pool.lease(50000).unwrap();
    assert_eq!(lease.owner, client(1));
    assert_eq!(lease.peer, None);
    assert_eq!(pool.bind(&client(1), 50000, &peer(6000)), Ok(()));
    let lease = pool.lease(50000).unwrap();
    assert_eq!(lease.owner, client(1));
    assert_eq!(lease.peer, Some(peer(6000)));
}

#[test]
fn ports_bind_refuses_what_is_not_owned() {
    let mut pool = PortPool::new(50000, 50003);
    pool.allocate(&client(1)).unwrap();
    assert_eq!(pool.bind(&client(2), 50000, &peer(6000)), Err(PortError::NotOwned));
    assert_eq!(pool.bind(&client(1), 50001, &peer(6000)), Err(PortError::NotOwned));
    assert_eq!(pool.bind(&client(1), 1, &peer(6000)), Err(PortError::NotOwned));
    assert_eq!(pool.lease(50000).unwrap().peer, None);
}

#[test]
fn ports_bind_is_idempotent_and_replaces_the_peer() {
    let mut pool = PortPool::new(50000, 50003);
    pool.allocate(&client(1)).unwrap();
    assert_eq!(pool.bind(&client(1), 50000, &peer(6000)), Ok(()));
    assert_eq!(pool.bind(&client(1), 50000, &peer(6000)), Ok(()));
    assert_eq!(pool.resolve_port(50000), Some((client(1), peer(6000))));
    assert_eq!(pool.bind(&client(1), 50000, &peer(6001)), Ok(()));
    assert_eq!(pool.resolve_port(50000), Some((client(1), peer(6001))));
    assert_eq!(pool.resolve(&client(1), &peer(6000)), None);
}

#[test]
fn ports_resolve_both_ways() {
    let mut pool = PortPool::new(50000, 50003);
    pool.allocate(&client(1)).unwrap();
    pool.allocate(&client(1)).unwrap();
    pool.allocate(&client(2)).unwrap();
    assert_eq!(pool.resolve_port(50000), None);
    assert_eq!(pool.resolve(&client(1), &peer(6000)), None);
    pool.bind(&client(1), 50001, &peer(6000)).unwrap();
    pool.bind(&client(2), 50002, &peer(6000)).unwrap();
    assert_eq!(pool.resolve(&client(1), &peer(6000)), Some(50001));
    assert_eq!(pool.resolve(&client(2), &peer(6000)), Some(50002));
    pool.bind(&client(1), 50000, &peer(6000)).unwrap();
    assert_eq!(pool.resolve(&client(1), &peer(6000)), Some(50000));
    assert_eq!(pool.resolve_port(50001), Some((client(1), peer(6000))));
    assert_eq!(pool.resolve_port(50003), None);
    assert_eq!(pool.resolve_port(7), None);
}

#[test]
fn ports_allocate_then_release_all_restores_the_free_set() {
    let mut pool = PortPool::new(50000, 50002);
    pool.allocate(&client(9)).unwrap();
    let port = pool.allocate(&client(1)).unwrap();
    assert_eq!(port, 50001);
    pool.bind(&client(1), port, &peer(6000)).unwrap();
    pool.release_all(&client(1));
    assert!(pool.lease(50001).is_none());
    assert_eq!(pool.resolve(&client(1), &peer(6000)), None);
    assert_eq!(pool.lease(50000).unwrap().owner, client(9));
    assert_eq!(pool.allocate(&client(2)), Ok(50001));
    assert_eq!(pool.allocate(&client(2)), Ok(50002));
    assert_eq!(pool.allocate(&client(2)), Err(PortError::NoCapacity));
}

#[test]
fn ports_release_all_gives_back_every_port_of_the_owner() {
    let mut pool = PortPool::new(50000, 50004);
    pool.allocate(&client(1)).unwrap();
    pool.allocate(&client(2)).unwrap();
    pool.allocate(&client(1)).unwrap();
    pool.allocate(&client(2)).unwrap();
    pool.allocate(&client(1)).unwrap();
    pool.release_all(&client(1));
    assert!(pool.lease(50000).is_none());
    assert!(pool.lease(50002).is_none());
    assert!(pool.lease(50004).is_none());
    assert_eq!(pool.lease(50001).unwrap().owner, client(2));
    assert_eq!(pool.lease(50003).unwrap().owner, client(2));
    assert_eq!(pool.allocate(&client(3)), Ok(50000));
    assert_eq!(pool.allocate(&client(3)), Ok(50002));
    assert_eq!(pool.allocate(&client(3)), Ok(50004));
    assert_eq!(pool.allocate(&client(3)), Err(PortError::NoCapacity));
    pool.release_all(&client(4));
    assert_eq!(pool.allocate(&client(3)), Err(PortError::NoCapacity));
}
