use turn_rs::address::Address;
use turn_rs::address::IpAddress;
use turn_rs::proxy::Payload;
use turn_rs::proxy::PermissionRequest;
use turn_rs::proxy::Proxy;
use turn_rs::proxy::ProxyError;
use turn_rs::proxy::ProxyObserver;
use turn_rs::proxy::ProxyStateNotifyNode;
use std::cell::RefCell;

fn node(index: u8, last: u8, online: bool) -> ProxyStateNotifyNode {
    ProxyStateNotifyNode {
        index,
        external: Address::new(IpAddress::v4(198, 51, 100, last), 3478),
        online,
    }
}

fn ip(last: u8) -> IpAddress {
    IpAddress::v4(198, 51, 100, last)
}

fn proxy_with(nodes: Vec<ProxyStateNotifyNode>) -> Proxy {
    let mut proxy = Proxy::new();
    assert!(proxy.accept(Payload::ProxyStateNotify(nodes)).is_none());
    proxy
}

struct Recorder {
    permissions: RefCell<Vec<(u8, Address, Address)>>,
    relayed: RefCell<Vec<Vec<u8>>>,
}

impl ProxyObserver for Recorder {
    fn create_permission(&self, id: u8, from: Address, peer: Address) {
        self.permissions.borrow_mut().push((id, from, peer));
    }

    fn relay(&self, buf: &[u8]) {
        self.relayed.borrow_mut().push(buf.to_vec());
    }
}

#[test]
fn proxy_new_knows_nobody() {
    let proxy = Proxy::new();
    assert!(!proxy.in_online_nodes(&ip(9)));
    assert_eq!(proxy.get_online_node(&ip(9)), None);
}

#[test]
fn proxy_in_online_nodes_finds_an_online_node_with_that_ip() {
    let proxy = proxy_with(vec![node(1, 8, true), node(2, 9, false), node(3, 9, true)]);
    assert!(proxy.in_online_nodes(&ip(8)));
    assert!(proxy.in_online_nodes(&ip(9)));
    assert!(!proxy.in_online_nodes(&ip(7)));
    let offline = proxy_with(vec![node(2, 9, false), node(4, 9, false)]);
    assert!(!offline.in_online_nodes(&ip(9)));
    let last = proxy_with(vec![node(7, 9, false), node(8, 9, true)]);
    assert!(last.in_online_nodes(&ip(9)));
}

#[test]
fn proxy_in_online_nodes_ignores_the_port() {
    let one = ProxyStateNotifyNode {
        index: 7,
        external: Address::new(IpAddress::v4(198, 51, 100, 9), 1),
        online: false,
    };
    let two = ProxyStateNotifyNode {
        index: 8,
        external: Address::new(IpAddress::v4(198, 51, 100, 9), 2),
        online: true,
    };
    let proxy = proxy_with(vec![one, two]);
    assert!(proxy.in_online_nodes(&ip(9)));
    assert_eq!(proxy.get_online_node(&ip(9)), Some(two));
    assert!(!proxy.in_online_nodes(&ip(8)));
}

#[test]
fn proxy_get_online_node_skips_what_is_offline() {
    let proxy = proxy_with(vec![node(1, 8, true), node(2, 9, false), node(3, 9, true), node(4, 9, true)]);
    assert_eq!(proxy.get_online_node(&ip(9)), Some(node(3, 9, true)));
    assert_eq!(proxy.get_online_node(&ip(8)), Some(node(1, 8, true)));
    assert_eq!(proxy.get_online_node(&ip(7)), None);
    let offline = proxy_with(vec![node(2, 9, false)]);
    assert_eq!(offline.get_online_node(&ip(9)), None);
}

#[test]
fn proxy_create_permission_goes_to_the_host_of_the_peer() {
    let proxy = proxy_with(vec![node(1, 8, true), node(7, 9, false), node(3, 9, true)]);
    let from = Address::new(IpAddress::v4(10, 0, 0, 1), 5000);
    let peer = Address::new(ip(9), 7000);
    assert_eq!(
        proxy.create_permission(&from, &peer),
        Ok(PermissionRequest { id: 7, from, peer })
    );
    let nowhere = Address::new(ip(1), 7000);
    assert_eq!(proxy.create_permission(&from, &nowhere), Err(ProxyError::NotFound));
}

#[test]
fn proxy_state_notify_replaces_the_view() {
    let mut proxy = proxy_with(vec![node(1, 8, true)]);
    assert!(proxy.accept(Payload::ProxyStateNotify(vec![node(2, 9, true)])).is_none());
    assert!(!proxy.in_online_nodes(&ip(8)));
    assert!(proxy.in_online_nodes(&ip(9)));
    assert!(proxy.accept(Payload::ProxyStateNotify(vec![])).is_none());
    assert!(!proxy.in_online_nodes(&ip(9)));
}

#[test]
fn proxy_accept_hands_back_a_permission_request() {
    let mut proxy = proxy_with(vec![node(1, 8, true)]);
    let from = Address::new(IpAddress::v4(10, 0, 0, 1), 5000);
    let peer = Address::new(ip(8), 7000);
    let got = proxy.accept(Payload::CreatePermission { id: 1, from, peer });
    assert_eq!(got, Some(PermissionRequest { id: 1, from, peer }));
    assert!(proxy.in_online_nodes(&ip(8)));
}

#[test]
fn proxy_on_tells_the_observer() {
    let recorder = Recorder { permissions: RefCell::new(vec![]), relayed: RefCell::new(vec![]) };
    let mut proxy = Proxy::new();
    let from = Address::new(IpAddress::v4(10, 0, 0, 1), 5000);
    let peer = Address::new(ip(8), 7000);
    proxy.on(Payload::ProxyStateNotify(vec![node(1, 8, true)]), &recorder);
    assert!(recorder.permissions.borrow().is_empty());
    assert!(proxy.in_online_nodes(&ip(8)));
    proxy.on(Payload::CreatePermission { id: 4, from, peer }, &recorder);
    assert_eq!(*recorder.permissions.borrow(), vec![(4, from, peer)]);
    proxy.on_relay(b"hi", &recorder);
    assert_eq!(*recorder.relayed.borrow(), vec![b"hi".to_vec()]);
}
