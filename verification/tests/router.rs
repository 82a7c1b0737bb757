use turn_rs::address::Address;
use turn_rs::address::IpAddress;
use turn_rs::router::ports::PortError;
use turn_rs::router::BindError;
use turn_rs::router::Router;

const SECOND: u128 = 1_000_000_000;

fn client(port: u16) -> Address {
    Address::new(IpAddress::v4(10, 0, 0, 1), port)
}

fn peer(port: u16) -> Address {
    Address::new(IpAddress::v4(203, 0, 113, 5), port)
}

fn router() -> Router {
    Router::new(49152, 65535, 300)
}

#[test]
fn router_allocate_opens_a_session_with_the_lowest_port() {
    let mut router = router();
    let port = router.allocate(3, &client(5000), "alice", [1u8; 16], "secret", 7).unwrap();
    assert_eq!(port, 49152);
    let node = router.get_node(&client(5000)).unwrap();
    assert_eq!(node.mark, 3);
    assert_eq!(node.username.as_str(), "alice");
    assert_eq!(node.password.as_str(), "secret");
    assert_eq!(node.secret.as_slice(), &[1u8; 16]);
    assert_eq!(node.ports, vec![49152]);
    assert!(node.channels.is_empty());
    assert_eq!(node.lifetime, 600);
    assert_eq!(node.timer, 7);
    assert_eq!(router.get_secret(&client(5000)).unwrap().as_slice(), &[1u8; 16]);
    assert_eq!(router.get_node_addrs("alice"), vec![client(5000)]);
    assert_eq!(router.allocate(3, &client(5001), "bob", [2u8; 16], "x", 7), Ok(49153));
    let users = router.get_users(0, 10);
    assert_eq!(users.len(), 2);
    assert_eq!(users[0].0.as_str(), "alice");
    assert_eq!(users[1].0.as_str(), "bob");
}

#[test]
fn router_every_port_of_a_session_points_back_to_its_client() {
    let mut router = router();
    router.allocate(0, &client(1), "a", [0u8; 16], "x", 0).unwrap();
    router.allocate(0, &client(2), "b", [0u8; 16], "x", 0).unwrap();
    router.bind_port(&client(1), &peer(6000), 0).unwrap();
    for c in [client(1), client(2)] {
        let node = router.get_node(&c).unwrap();
        for port in node.ports {
            assert_eq!(router.get_port_owner(port).map(|x| x.0).unwrap_or(c), c);
        }
    }
    assert_eq!(router.get_port_owner(49152), Some((client(1), peer(6000))));
    assert_eq!(router.get_port_owner(49153), None);
}

#[test]
fn router_allocate_again_replaces_the_session() {
    let mut router = router();
    router.allocate(0, &client(1), "alice", [1u8; 16], "x", 0).unwrap();
    router.bind_port(&client(1), &peer(6000), 0).unwrap();
    router.bind_channel(&client(1), 0x4001, &peer(6000), 0).unwrap();
    assert_eq!(router.allocate(0, &client(1), "bob", [2u8; 16], "y", 5), Ok(49152));
    let node = router.get_node(&client(1)).unwrap();
    assert_eq!(node.username.as_str(), "bob");
    assert_eq!(node.ports, vec![49152]);
    assert!(node.channels.is_empty());
    assert!(router.get_node_addrs("alice").is_empty());
    assert_eq!(router.get_channel_bound(&client(1), 0x4001), None);
    assert!(!router.check_permission(&client(1), &peer(6000).ip, 5));
    assert_eq!(router.get_port_bound(&client(1), 6000), None);
}

#[test]
fn router_allocate_without_capacity_leaves_no_session() {
    let mut router = Router::new(50000, 50000, 300);
    assert_eq!(router.allocate(0, &client(1), "a", [0u8; 16], "x", 0), Ok(50000));
    assert_eq!(
        router.allocate(0, &client(2), "b", [0u8; 16], "x", 0),
        Err(PortError::NoCapacity)
    );
    assert!(router.get_node(&client(2)).is_none());
    assert!(router.get_node_addrs("b").is_empty());
    assert_eq!(router.allocate(0, &client(1), "a", [0u8; 16], "x", 0), Ok(50000));
}

#[test]
fn router_bind_port_needs_a_session() {
    let mut router = router();
    assert_eq!(router.bind_port(&client(1), &peer(6000), 0), None);
    assert_eq!(router.get_port_bound(&client(1), 6000), None);
    assert!(!router.check_permission(&client(1), &peer(6000).ip, 0));
}

#[test]
fn router_bind_port_binds_and_permits() {
    let mut router = router();
    router.allocate(0, &client(1), "a", [0u8; 16], "x", 0).unwrap();
    assert_eq!(router.bind_port(&client(1), &peer(6000), SECOND), Some(()));
    assert_eq!(router.get_port_bound(&client(1), 6000), Some(peer(6000)));
    assert_eq!(router.get_port_bound(&client(1), 6001), None);
    assert_eq!(router.get_bound_port(&client(1), &peer(6000)), Some(49152));
    assert_eq!(router.get_bound_port(&client(1), &peer(6001)), None);
    assert!(router.check_permission(&client(1), &peer(1).ip, SECOND));
    assert!(router.check_permission(&client(1), &peer(1).ip, 301 * SECOND - 1));
    assert!(!router.check_permission(&client(1), &peer(1).ip, 301 * SECOND));
    assert!(!router.check_permission(&client(1), &IpAddress::v4(1, 1, 1, 1), SECOND));
}

#[test]
fn router_bind_channel_names_the_channel_in_the_session() {
    let mut router = router();
    assert_eq!(
        router.bind_channel(&client(1), 0x4001, &peer(6000), 0),
        Err(BindError::NoSession)
    );
    router.allocate(0, &client(1), "a", [0u8; 16], "x", 0).unwrap();
    assert_eq!(router.bind_channel(&client(1), 0x4001, &peer(6000), 0), Ok(()));
    assert_eq!(router.bind_channel(&client(1), 0x4001, &peer(6000), 0), Ok(()));
    assert_eq!(router.get_node(&client(1)).unwrap().channels, vec![0x4001]);
    assert_eq!(router.get_channel_bound(&client(1), 0x4001), Some(peer(6000)));
    assert_eq!(router.get_bound_channel(&client(1), &peer(6000)), Some(0x4001));
    assert!(router.check_permission(&client(1), &peer(6000).ip, 0));
    assert_eq!(
        router.bind_channel(&client(1), 0x4001, &peer(6001), 0),
        Err(BindError::InUse)
    );
    assert_eq!(
        router.bind_channel(&client(1), 0x4002, &peer(6000), 0),
        Err(BindError::InUse)
    );
    assert_eq!(
        router.bind_channel(&client(1), 0x3FFF, &peer(6002), 0),
        Err(BindError::OutOfRange)
    );
    assert_eq!(
        router.bind_channel(&client(1), 0x7FFF, &peer(6002), 0),
        Err(BindError::OutOfRange)
    );
    assert_eq!(router.bind_channel(&client(1), 0x7FFE, &peer(6002), 0), Ok(()));
    let node = router.get_node(&client(1)).unwrap();
    assert_eq!(node.channels, vec![0x4001, 0x7FFE]);
    for number in node.channels {
        assert!(router.get_channel_bound(&client(1), number).is_some());
    }
}

#[test]
fn router_remove_leaves_nothing_of_the_client() {
    let mut router = router();
    router.allocate(0, &client(1), "alice", [0u8; 16], "x", 0).unwrap();
    router.allocate(0, &client(2), "alice", [0u8; 16], "x", 0).unwrap();
    router.bind_port(&client(1), &peer(6000), 0).unwrap();
    router.bind_channel(&client(1), 0x4001, &peer(6000), 0).unwrap();
    router.bind_channel(&client(2), 0x4001, &peer(6000), 0).unwrap();
    let gone = router.remove(&client(1)).unwrap();
    assert_eq!(gone.ports, vec![49152]);
    assert_eq!(gone.channels, vec![0x4001]);
    assert!(router.get_node(&client(1)).is_none());
    assert_eq!(router.get_port_owner(49152), None);
    assert_eq!(router.get_bound_port(&client(1), &peer(6000)), None);
    assert_eq!(router.get_channel_bound(&client(1), 0x4001), None);
    assert_eq!(router.get_bound_channel(&client(1), &peer(6000)), None);
    assert!(!router.check_permission(&client(1), &peer(6000).ip, 0));
    assert_eq!(router.get_node_addrs("alice"), vec![client(2)]);
    assert_eq!(router.get_channel_bound(&client(2), 0x4001), Some(peer(6000)));
    assert!(router.check_permission(&client(2), &peer(6000).ip, 0));
    assert!(router.remove(&client(1)).is_none());
    assert_eq!(router.allocate(0, &client(3), "c", [0u8; 16], "x", 0), Ok(49152));
}

#[test]
fn router_refresh_sets_the_lifetime_or_removes() {
    let mut router = router();
    assert_eq!(router.refresh(&client(1), 600, 0), None);
    assert_eq!(router.refresh(&client(1), 0, 0), None);
    router.allocate(0, &client(1), "alice", [0u8; 16], "x", 0).unwrap();
    assert_eq!(router.refresh(&client(1), 1200, 5 * SECOND), Some(()));
    let node = router.get_node(&client(1)).unwrap();
    assert_eq!(node.lifetime, 1200);
    assert_eq!(node.timer, 5 * SECOND);
    assert_eq!(node.ports, vec![49152]);
    assert_eq!(router.refresh(&client(1), 0, 6 * SECOND), Some(()));
    assert!(router.get_node(&client(1)).is_none());
    assert!(router.get_node_addrs("alice").is_empty());
    assert_eq!(router.get_port_owner(49152), None);
}

#[test]
fn router_reap_takes_out_the_dead() {
    let mut router = router();
    router.allocate(0, &client(1), "a", [0u8; 16], "x", 0).unwrap();
    router.allocate(0, &client(2), "b", [0u8; 16], "x", 0).unwrap();
    router.allocate(0, &client(3), "c", [0u8; 16], "x", 0).unwrap();
    router.refresh(&client(2), 1200, 0).unwrap();
    router.bind_channel(&client(1), 0x4001, &peer(6000), 0).unwrap();
    assert!(router.get_deaths(599 * SECOND).is_empty());
    assert!(router.reap(599 * SECOND).is_empty());
    assert!(router.get_node(&client(1)).is_some());
    let mut dead = router.get_deaths(600 * SECOND);
    dead.sort_by_key(|x| x.port);
    assert_eq!(dead, vec![client(1), client(3)]);
    let mut reaped = router.reap(600 * SECOND);
    reaped.sort_by_key(|x| x.port);
    assert_eq!(reaped, vec![client(1), client(3)]);
    assert!(router.get_node(&client(1)).is_none());
    assert!(router.get_node(&client(3)).is_none());
    assert!(router.get_node(&client(2)).is_some());
    assert_eq!(router.get_channel_bound(&client(1), 0x4001), None);
    assert!(!router.check_permission(&client(1), &peer(6000).ip, 0));
    assert_eq!(router.get_node(&client(2)).unwrap().ports, vec![49153]);
    assert_eq!(router.allocate(0, &client(4), "d", [0u8; 16], "x", 600 * SECOND), Ok(49152));
    assert!(router.reap(600 * SECOND).is_empty());
    assert!(router.reap(1199 * SECOND).is_empty());
    let mut rest = router.reap(1200 * SECOND);
    rest.sort_by_key(|x| x.port);
    assert_eq!(rest, vec![client(2), client(4)]);
}

#[test]
fn router_sweep_permissions_keeps_what_is_fresh() {
    let mut router = router();
    router.allocate(0, &client(1), "a", [0u8; 16], "x", 0).unwrap();
    router.bind_port(&client(1), &peer(6000), 0).unwrap();
    router.bind_channel(&client(1), 0x4001, &Address::new(IpAddress::v4(1, 2, 3, 4), 9), 200 * SECOND)
        .unwrap();
    router.sweep_permissions(300 * SECOND);
    assert!(!router.check_permission(&client(1), &peer(6000).ip, 0));
    assert!(router.check_permission(&client(1), &IpAddress::v4(1, 2, 3, 4), 300 * SECOND));
    assert_eq!(router.get_port_bound(&client(1), 6000), Some(peer(6000)));
    assert_eq!(router.get_node(&client(1)).unwrap().channels, vec![0x4001]);
}
