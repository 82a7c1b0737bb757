use turn_rs::address::Address;
use turn_rs::address::IpAddress;
use turn_rs::processor::message::Credentials;
use turn_rs::processor::message::Effect;
use turn_rs::processor::message::ErrKind;
use turn_rs::processor::message::Kind;
use turn_rs::processor::message::Method;
use turn_rs::processor::message::Outcome;
use turn_rs::processor::message::Request;
use turn_rs::processor::message::Response;
use turn_rs::processor::message::Route;
use turn_rs::processor::Processor;
use turn_rs::processor::Reach;
use turn_rs::proxy::Payload;
use turn_rs::proxy::PermissionRequest;
use turn_rs::proxy::Proxy;
use turn_rs::proxy::ProxyStateNotifyNode;

const SECOND: u128 = 1_000_000_000;
const ALICE_KEY: [u8; 16] = [84, 62, 26, 236, 93, 54, 20, 240, 49, 65, 101, 45, 106, 218, 81, 178];
const PANDA_KEY: [u8; 16] = [62, 47, 121, 30, 31, 20, 209, 115, 252, 145, 255, 47, 89, 181, 15, 209];

fn client() -> Address {
    Address::new(IpAddress::v4(10, 0, 0, 1), 5000)
}

fn external() -> Address {
    Address::new(IpAddress::v4(203, 0, 113, 5), 3478)
}

fn local_peer() -> Address {
    Address::new(IpAddress::v4(203, 0, 113, 5), 6000)
}

fn remote_peer() -> Address {
    Address::new(IpAddress::v4(198, 51, 100, 9), 7000)
}

fn fabric(nodes: Vec<ProxyStateNotifyNode>) -> Proxy {
    let mut proxy = Proxy::new();
    proxy.accept(Payload::ProxyStateNotify(nodes));
    proxy
}

fn processor(proxy: Option<Proxy>) -> Processor {
    Processor::new(external(), "example.org".to_string(), 0, 49152, 65535, 300, 3600, proxy)
}

fn small(ports: u16) -> Processor {
    Processor::new(
        external(),
        "example.org".to_string(),
        0,
        50000,
        50000 + ports - 1,
        300,
        3600,
        None,
    )
}

fn alice() -> Option<Credentials> {
    Some(Credentials { username: "alice".to_string(), password: "secret".to_string() })
}

fn request(method: Method, id: u8) -> Request {
    Request {
        method,
        transaction: [id; 12],
        auth: alice(),
        transport: None,
        lifetime: None,
        peer: None,
        channel: None,
        has_data: false,
    }
}

fn allocate(id: u8) -> Request {
    Request { transport: Some(17), ..request(Method::Allocate(Kind::Request), id) }
}

fn create_permission(id: u8, peer: Address) -> Request {
    Request { peer: Some(peer), ..request(Method::CreatePermission(Kind::Request), id) }
}

fn channel_bind(id: u8, number: u16, peer: Address) -> Request {
    Request {
        peer: Some(peer),
        channel: Some(number),
        ..request(Method::ChannelBind(Kind::Request), id)
    }
}

fn refresh(id: u8, lifetime: Option<u32>) -> Request {
    Request { lifetime, ..request(Method::Refresh(Kind::Request), id) }
}

fn send(peer: Address) -> Request {
    Request {
        auth: None,
        peer: Some(peer),
        has_data: true,
        ..request(Method::SendIndication, 0)
    }
}

fn rejected(method: Method, id: u8, error: ErrKind) -> Outcome {
    Outcome {
        reply: Some(Response {
            method,
            transaction: [id; 12],
            error: Some(error),
            realm: true,
            software: false,
            mapped: None,
            relayed: None,
            lifetime: None,
            key: None,
        }),
        effect: None,
    }
}

fn granted(method: Method, id: u8) -> Response {
    Response {
        method,
        transaction: [id; 12],
        error: None,
        realm: false,
        software: true,
        mapped: None,
        relayed: None,
        lifetime: None,
        key: Some(ALICE_KEY),
    }
}

fn quiet() -> Outcome {
    Outcome { reply: None, effect: None }
}

#[test]
fn error_codes_are_those_of_the_protocol() {
    assert_eq!(ErrKind::BadRequest.code(), 400);
    assert_eq!(ErrKind::Unauthorized.code(), 401);
    assert_eq!(ErrKind::Forbidden.code(), 403);
    assert_eq!(ErrKind::AllocationMismatch.code(), 437);
    assert_eq!(ErrKind::UnsupportedTransport.code(), 442);
    assert_eq!(ErrKind::InsufficientCapacity.code(), 508);
}

#[test]
fn get_key_is_the_md5_of_the_credential() {
    let p = Processor::new(external(), "raspberry".to_string(), 0, 49152, 65535, 300, 3600, None);
    assert_eq!(p.get_key(&client(), "panda", "panda"), PANDA_KEY);
    assert_eq!(processor(None).get_key(&client(), "alice", "secret"), ALICE_KEY);
}

#[test]
fn get_key_is_the_key_of_the_session_where_there_is_one() {
    let mut p = processor(None);
    p.process_with_key(&client(), &allocate(1), [7u8; 16], 0);
    assert_eq!(p.get_key(&client(), "alice", "secret"), [7u8; 16]);
    assert_eq!(p.get_key(&client(), "bob", "other"), [7u8; 16]);
}

#[test]
fn binding_answers_with_the_address_of_the_client() {
    let mut p = processor(None);
    let mut req = request(Method::Binding(Kind::Request), 9);
    req.auth = None;
    let outcome = p.process(&client(), &req, 0);
    assert_eq!(
        outcome,
        Outcome {
            reply: Some(Response {
                method: Method::Binding(Kind::Response),
                transaction: [9u8; 12],
                error: None,
                realm: false,
                software: true,
                mapped: Some(client()),
                relayed: None,
                lifetime: None,
                key: None,
            }),
            effect: None,
        }
    );
    assert!(p.router().get_node(&client()).is_none());
}

#[test]
fn scenario_allocate_success() {
    let mut p = processor(None);
    let outcome = p.process(&client(), &allocate(1), 0);
    let reply = outcome.reply.unwrap();
    assert_eq!(outcome.effect, None);
    assert_eq!(reply.method, Method::Allocate(Kind::Response));
    assert_eq!(reply.transaction, [1u8; 12]);
    assert_eq!(reply.error, None);
    let relayed = reply.relayed.unwrap();
    assert_eq!(relayed.ip, IpAddress::v4(203, 0, 113, 5));
    assert!(relayed.port >= 49152);
    assert_eq!(relayed.port, 49152);
    assert_eq!(reply.mapped, Some(client()));
    assert_eq!(reply.lifetime, Some(600));
    assert_eq!(reply.key, Some(ALICE_KEY));
    let node = p.router().get_node(&client()).unwrap();
    assert_eq!(node.username.as_str(), "alice");
    assert_eq!(node.password.as_str(), "secret");
    assert_eq!(node.secret.as_slice(), &ALICE_KEY);
    assert_eq!(node.mark, 0);
    assert_eq!(node.ports, vec![49152]);
    assert_eq!(p.router().get_node_addrs("alice"), vec![client()]);
}

#[test]
fn allocate_carries_the_mark_of_the_instance() {
    let mut p =
        Processor::new(external(), "example.org".to_string(), 7, 49152, 65535, 300, 3600, None);
    p.process(&client(), &allocate(1), 0);
    assert_eq!(p.router().get_node(&client()).unwrap().mark, 7);
}

#[test]
fn allocate_without_credentials_is_unauthorized() {
    let mut p = processor(None);
    let mut req = allocate(1);
    req.auth = None;
    assert_eq!(
        p.process(&client(), &req, 0),
        rejected(Method::Allocate(Kind::Error), 1, ErrKind::Unauthorized)
    );
    assert!(p.router().get_node(&client()).is_none());
}

#[test]
fn allocate_for_another_transport_is_unsupported() {
    let mut p = processor(None);
    let mut req = allocate(1);
    req.transport = Some(6);
    assert_eq!(
        p.process(&client(), &req, 0),
        rejected(Method::Allocate(Kind::Error), 1, ErrKind::UnsupportedTransport)
    );
    req.transport = None;
    assert_eq!(
        p.process(&client(), &req, 0),
        rejected(Method::Allocate(Kind::Error), 1, ErrKind::UnsupportedTransport)
    );
    assert!(p.router().get_node(&client()).is_none());
}

#[test]
fn allocate_replayed_is_answered_again() {
    let mut p = processor(None);
    let first = p.process(&client(), &allocate(1), 0);
    p.process(&client(), &create_permission(2, local_peer()), SECOND);
    let again = p.process(&client(), &allocate(1), 2 * SECOND);
    assert_eq!(first, again);
    let node = p.router().get_node(&client()).unwrap();
    assert_eq!(node.timer, 0);
    assert_eq!(p.router().get_port_bound(&client(), 6000), Some(local_peer()));
}

#[test]
fn allocate_over_a_live_session_is_a_mismatch() {
    let mut p = processor(None);
    p.process(&client(), &allocate(1), 0);
    assert_eq!(
        p.process(&client(), &allocate(2), SECOND),
        rejected(Method::Allocate(Kind::Error), 2, ErrKind::AllocationMismatch)
    );
    assert_eq!(p.router().get_node(&client()).unwrap().ports, vec![49152]);
}

#[test]
fn allocate_over_a_dead_session_replaces_it() {
    let mut p = processor(None);
    p.process(&client(), &allocate(1), 0);
    p.process(&client(), &channel_bind(2, 0x4001, local_peer()), 0);
    let outcome = p.process(&client(), &allocate(3), 600 * SECOND);
    assert_eq!(outcome.reply.unwrap().relayed.unwrap().port, 49152);
    let node = p.router().get_node(&client()).unwrap();
    assert_eq!(node.timer, 600 * SECOND);
    assert!(node.channels.is_empty());
    assert_eq!(p.router().get_channel_bound(&client(), 0x4001), None);
    assert_eq!(
        p.process(&client(), &allocate(1), 601 * SECOND),
        rejected(Method::Allocate(Kind::Error), 1, ErrKind::AllocationMismatch)
    );
}

#[test]
fn allocate_from_an_empty_pool_is_insufficient_capacity() {
    let mut p = small(1);
    let other = Address::new(IpAddress::v4(10, 0, 0, 2), 5000);
    assert!(p.process(&other, &allocate(1), 0).reply.unwrap().error.is_none());
    let outcome = p.process(&client(), &allocate(2), 0);
    assert_eq!(outcome, rejected(Method::Allocate(Kind::Error), 2, ErrKind::InsufficientCapacity));
    assert_eq!(outcome.reply.unwrap().error.unwrap().code(), 508);
    assert!(p.router().get_node(&client()).is_none());
}

#[test]
fn scenario_local_create_permission() {
    let mut p = processor(None);
    p.process(&client(), &allocate(1), 0);
    let outcome = p.process(&client(), &create_permission(2, local_peer()), 0);
    assert_eq!(
        outcome,
        Outcome {
            reply: Some(granted(Method::CreatePermission(Kind::Response), 2)),
            effect: Some(Effect::PermissionCreated { peer: local_peer() }),
        }
    );
    assert!(p.router().get_port_bound(&client(), 6000).is_some());
    assert!(p.router().check_permission(&client(), &local_peer().ip, 0));
}

#[test]
fn scenario_cross_server_create_permission() {
    let node = ProxyStateNotifyNode {
        index: 7,
        external: Address::new(IpAddress::v4(198, 51, 100, 9), 3478),
        online: true,
    };
    let mut p = processor(Some(fabric(vec![node])));
    p.process(&client(), &allocate(1), 0);
    let outcome = p.process(&client(), &create_permission(2, remote_peer()), 0);
    assert_eq!(
        outcome,
        Outcome {
            reply: Some(granted(Method::CreatePermission(Kind::Response), 2)),
            effect: Some(Effect::ForwardPermission {
                request: PermissionRequest { id: 7, from: client(), peer: remote_peer() },
            }),
        }
    );
    assert_eq!(p.router().get_port_bound(&client(), 7000), None);
    assert_eq!(p.router().get_port_owner(49152), None);
    assert!(!p.router().check_permission(&client(), &remote_peer().ip, 0));
}

#[test]
fn scenario_forbidden() {
    let mut p = processor(Some(fabric(vec![])));
    p.process(&client(), &allocate(1), 0);
    let outcome = p.process(&client(), &create_permission(2, remote_peer()), 0);
    assert_eq!(outcome, rejected(Method::CreatePermission(Kind::Error), 2, ErrKind::Forbidden));
    assert_eq!(outcome.reply.unwrap().error.unwrap().code(), 403);
    let mut lone = processor(None);
    lone.process(&client(), &allocate(1), 0);
    assert_eq!(
        lone.process(&client(), &create_permission(2, remote_peer()), 0),
        rejected(Method::CreatePermission(Kind::Error), 2, ErrKind::Forbidden)
    );
}

#[test]
fn create_permission_toward_an_offline_instance_is_forbidden() {
    let node = ProxyStateNotifyNode {
        index: 7,
        external: Address::new(IpAddress::v4(198, 51, 100, 9), 3478),
        online: false,
    };
    let mut p = processor(Some(fabric(vec![node])));
    p.process(&client(), &allocate(1), 0);
    assert_eq!(p.check_addr(&remote_peer()), Reach::Failed);
    assert_eq!(
        p.process(&client(), &create_permission(2, remote_peer()), 0),
        rejected(Method::CreatePermission(Kind::Error), 2, ErrKind::Forbidden)
    );
}

#[test]
fn check_addr_tells_local_from_relayed() {
    let node = ProxyStateNotifyNode {
        index: 7,
        external: Address::new(IpAddress::v4(198, 51, 100, 9), 3478),
        online: true,
    };
    let p = processor(Some(fabric(vec![node])));
    assert_eq!(p.check_addr(&local_peer()), Reach::Local);
    assert_eq!(p.check_addr(&remote_peer()), Reach::Relay(7));
    assert_eq!(p.check_addr(&Address::new(IpAddress::v4(1, 1, 1, 1), 1)), Reach::Failed);
    assert_eq!(p.route(&local_peer()), Route::Direct);
    assert_eq!(p.route(&remote_peer()), Route::Fabric(7));
    assert_eq!(p.route(&Address::new(IpAddress::v4(1, 1, 1, 1), 1)), Route::Direct);
}

#[test]
fn create_permission_without_credentials_or_peer() {
    let mut p = processor(None);
    p.process(&client(), &allocate(1), 0);
    let mut req = create_permission(2, local_peer());
    req.auth = None;
    assert_eq!(
        p.process(&client(), &req, 0),
        rejected(Method::CreatePermission(Kind::Error), 2, ErrKind::Unauthorized)
    );
    let mut req = create_permission(3, local_peer());
    req.peer = None;
    assert_eq!(
        p.process(&client(), &req, 0),
        rejected(Method::CreatePermission(Kind::Error), 3, ErrKind::BadRequest)
    );
    assert_eq!(p.router().get_port_bound(&client(), 6000), None);
}

#[test]
fn create_permission_without_a_session_is_forbidden() {
    let mut p = processor(None);
    assert_eq!(
        p.process(&client(), &create_permission(2, local_peer()), 0),
        rejected(Method::CreatePermission(Kind::Error), 2, ErrKind::Forbidden)
    );
}

#[test]
fn scenario_refresh_to_zero() {
    let mut p = processor(None);
    p.process(&client(), &allocate(1), 0);
    let outcome = p.process(&client(), &refresh(2, Some(0)), SECOND);
    let mut expected = granted(Method::Refresh(Kind::Response), 2);
    expected.lifetime = Some(0);
    assert_eq!(outcome, Outcome { reply: Some(expected), effect: None });
    assert!(p.router().get_node(&client()).is_none());
    assert!(!p.router().get_node_addrs("alice").contains(&client()));
    assert_eq!(p.process(&client(), &send(local_peer()), SECOND), quiet());
    assert_eq!(p.channel_data(&client(), 0x4001, SECOND), quiet());
    assert!(p.process(&client(), &allocate(3), 2 * SECOND).reply.unwrap().error.is_none());
}

#[test]
fn refresh_to_zero_silences_a_client_that_could_send() {
    let mut p = processor(None);
    p.process(&client(), &allocate(1), 0);
    p.process(&client(), &create_permission(2, local_peer()), 0);
    p.process(&client(), &channel_bind(3, 0x4001, local_peer()), 0);
    assert!(p.process(&client(), &send(local_peer()), 0).effect.is_some());
    p.process(&client(), &refresh(4, Some(0)), 0);
    assert_eq!(p.process(&client(), &send(local_peer()), 0), quiet());
    assert_eq!(p.channel_data(&client(), 0x4001, 0), quiet());
}

#[test]
fn refresh_applies_what_is_asked_up_to_the_maximum() {
    let mut p = processor(None);
    p.process(&client(), &allocate(1), 0);
    let mut expected = granted(Method::Refresh(Kind::Response), 2);
    expected.lifetime = Some(1200);
    assert_eq!(
        p.process(&client(), &refresh(2, Some(1200)), SECOND),
        Outcome { reply: Some(expected), effect: None }
    );
    let node = p.router().get_node(&client()).unwrap();
    assert_eq!(node.lifetime, 1200);
    assert_eq!(node.timer, SECOND);
    expected.lifetime = Some(3600);
    assert_eq!(
        p.process(&client(), &refresh(2, Some(100_000)), SECOND),
        Outcome { reply: Some(expected), effect: None }
    );
    assert_eq!(p.router().get_node(&client()).unwrap().lifetime, 3600);
    expected.lifetime = Some(600);
    assert_eq!(
        p.process(&client(), &refresh(2, None), SECOND),
        Outcome { reply: Some(expected), effect: None }
    );
    assert_eq!(p.router().get_node(&client()).unwrap().lifetime, 600);
}

#[test]
fn refresh_without_credentials_or_session() {
    let mut p = processor(None);
    let mut req = refresh(2, Some(600));
    req.auth = None;
    assert_eq!(
        p.process(&client(), &req, 0),
        rejected(Method::Refresh(Kind::Error), 2, ErrKind::Unauthorized)
    );
    assert_eq!(
        p.process(&client(), &refresh(3, Some(600)), 0),
        rejected(Method::Refresh(Kind::Error), 3, ErrKind::AllocationMismatch)
    );
    let reply = p.process(&client(), &refresh(4, Some(0)), 0).reply.unwrap();
    assert_eq!(reply.error, None);
    assert_eq!(reply.lifetime, Some(0));
}

#[test]
fn scenario_channel_echo() {
    let mut p = processor(None);
    let port = p.process(&client(), &allocate(1), 0).reply.unwrap().relayed.unwrap().port;
    p.process(&client(), &create_permission(2, local_peer()), 0);
    let bound = p.process(&client(), &channel_bind(3, 0x4001, local_peer()), 0);
    assert_eq!(
        bound,
        Outcome { reply: Some(granted(Method::ChannelBind(Kind::Response), 3)), effect: None }
    );
    let frame = turn_rs::processor::frame::build_channel_frame(0x4001, b"hi", false).unwrap();
    let header = turn_rs::processor::frame::parse_channel_header(&frame).unwrap();
    assert_eq!(&frame[4..4 + header.len as usize], b"hi");
    let outcome = p.channel_data(&client(), header.number, SECOND);
    assert_eq!(
        outcome,
        Outcome {
            reply: None,
            effect: Some(Effect::SendChannelData {
                port,
                peer: local_peer(),
                number: 0x4001,
                route: Route::Direct,
            }),
        }
    );
    assert_eq!(p.router().get_node(&client()).unwrap().channels, vec![0x4001]);
}

#[test]
fn channel_bind_rejects_numbers_at_the_bounds() {
    let mut p = processor(None);
    p.process(&client(), &allocate(1), 0);
    assert_eq!(
        p.process(&client(), &channel_bind(2, 0x3FFF, local_peer()), 0),
        rejected(Method::ChannelBind(Kind::Error), 2, ErrKind::BadRequest)
    );
    assert_eq!(
        p.process(&client(), &channel_bind(3, 0x7FFF, local_peer()), 0),
        rejected(Method::ChannelBind(Kind::Error), 3, ErrKind::BadRequest)
    );
    assert!(p.process(&client(), &channel_bind(4, 0x4000, local_peer()), 0)
        .reply
        .unwrap()
        .error
        .is_none());
    let other = Address::new(IpAddress::v4(203, 0, 113, 5), 6001);
    assert!(p.process(&client(), &channel_bind(5, 0x7FFE, other), 0).reply.unwrap().error.is_none());
    assert_eq!(p.router().get_node(&client()).unwrap().channels, vec![0x4000, 0x7FFE]);
}

#[test]
fn channel_bind_refusals() {
    let mut p = processor(None);
    assert_eq!(
        p.process(&client(), &channel_bind(1, 0x4001, local_peer()), 0),
        rejected(Method::ChannelBind(Kind::Error), 1, ErrKind::Forbidden)
    );
    p.process(&client(), &allocate(1), 0);
    let mut req = channel_bind(2, 0x4001, local_peer());
    req.auth = None;
    assert_eq!(
        p.process(&client(), &req, 0),
        rejected(Method::ChannelBind(Kind::Error), 2, ErrKind::Unauthorized)
    );
    let mut req = channel_bind(3, 0x4001, local_peer());
    req.channel = None;
    assert_eq!(
        p.process(&client(), &req, 0),
        rejected(Method::ChannelBind(Kind::Error), 3, ErrKind::BadRequest)
    );
    let mut req = channel_bind(4, 0x4001, local_peer());
    req.peer = None;
    assert_eq!(
        p.process(&client(), &req, 0),
        rejected(Method::ChannelBind(Kind::Error), 4, ErrKind::BadRequest)
    );
    assert_eq!(
        p.process(&client(), &channel_bind(5, 0x4001, remote_peer()), 0),
        rejected(Method::ChannelBind(Kind::Error), 5, ErrKind::Forbidden)
    );
    assert!(p.process(&client(), &channel_bind(6, 0x4001, local_peer()), 0)
        .reply
        .unwrap()
        .error
        .is_none());
    assert!(p.process(&client(), &channel_bind(7, 0x4001, local_peer()), 0)
        .reply
        .unwrap()
        .error
        .is_none());
    let other = Address::new(IpAddress::v4(203, 0, 113, 5), 6001);
    assert_eq!(
        p.process(&client(), &channel_bind(8, 0x4001, other), 0),
        rejected(Method::ChannelBind(Kind::Error), 8, ErrKind::BadRequest)
    );
    assert_eq!(
        p.process(&client(), &channel_bind(9, 0x4002, local_peer()), 0),
        rejected(Method::ChannelBind(Kind::Error), 9, ErrKind::BadRequest)
    );
}

#[test]
fn send_indication_needs_peer_data_and_permission() {
    let mut p = processor(None);
    p.process(&client(), &allocate(1), 0);
    assert_eq!(p.process(&client(), &send(local_peer()), 0), quiet());
    p.process(&client(), &create_permission(2, local_peer()), 0);
    let other_port = Address::new(IpAddress::v4(203, 0, 113, 5), 9);
    assert_eq!(
        p.process(&client(), &send(other_port), 0),
        Outcome {
            reply: None,
            effect: Some(Effect::SendData {
                port: 49152,
                peer: other_port,
                from: client(),
                route: Route::Direct,
            }),
        }
    );
    let mut req = send(local_peer());
    req.has_data = false;
    assert_eq!(p.process(&client(), &req, 0), quiet());
    let mut req = send(local_peer());
    req.peer = None;
    assert_eq!(p.process(&client(), &req, 0), quiet());
    assert_eq!(p.process(&client(), &send(remote_peer()), 0), quiet());
    assert!(p.process(&client(), &send(local_peer()), 300 * SECOND - 1).effect.is_some());
    assert_eq!(p.process(&client(), &send(local_peer()), 300 * SECOND), quiet());
}

#[test]
fn channel_data_under_an_unknown_channel_is_dropped() {
    let mut p = processor(None);
    p.process(&client(), &allocate(1), 0);
    assert_eq!(p.channel_data(&client(), 0x4001, 0), quiet());
    p.process(&client(), &channel_bind(2, 0x4001, local_peer()), 0);
    assert!(p.channel_data(&client(), 0x4001, 0).effect.is_some());
    assert_eq!(p.channel_data(&client(), 0x4002, 0), quiet());
    assert_eq!(p.channel_data(&client(), 0x4001, 300 * SECOND), quiet());
}

#[test]
fn what_is_no_request_leads_to_nothing() {
    let mut p = processor(None);
    p.process(&client(), &allocate(1), 0);
    for method in [
        Method::Allocate(Kind::Response),
        Method::Allocate(Kind::Error),
        Method::Binding(Kind::Response),
        Method::Refresh(Kind::Error),
        Method::DataIndication,
    ] {
        assert_eq!(p.process(&client(), &request(method, 5), 0), quiet());
    }
    assert!(p.router().get_node(&client()).is_some());
}

#[test]
fn reap_takes_out_dead_sessions_and_their_openers() {
    let mut p = processor(None);
    p.process(&client(), &allocate(1), 0);
    assert!(p.reap(599 * SECOND).is_empty());
    assert_eq!(p.reap(600 * SECOND), vec![client()]);
    assert!(p.router().get_node(&client()).is_none());
    assert!(p.process(&client(), &allocate(1), 601 * SECOND).reply.unwrap().error.is_none());
}

#[test]
fn handle_and_tick_read_the_clock() {
    let mut p = processor(None);
    let reply = p.handle(&client(), &allocate(1)).reply.unwrap();
    assert_eq!(reply.error, None);
    assert_eq!(reply.relayed.unwrap().port, 49152);
    assert!(p.tick().is_empty());
    assert!(p.router().get_node(&client()).is_some());
    let reply = p.handle(&client(), &refresh(2, Some(0))).reply.unwrap();
    assert_eq!(reply.lifetime, Some(0));
    assert!(p.router().get_node(&client()).is_none());
}

#[test]
fn with_defaults_uses_the_default_range() {
    let mut p = Processor::with_defaults(external(), "example.org".to_string(), 0, None);
    let reply = p.process(&client(), &allocate(1), 0).reply.unwrap();
    assert_eq!(reply.relayed.unwrap().port, 49152);
    let mut req = refresh(2, Some(4000));
    req.transaction = [2u8; 12];
    assert_eq!(p.process(&client(), &req, 0).reply.unwrap().lifetime, Some(3600));
    p.process(&client(), &create_permission(3, local_peer()), 0);
    assert!(p.router().check_permission(&client(), &local_peer().ip, 300 * SECOND - 1));
    assert!(!p.router().check_permission(&client(), &local_peer().ip, 300 * SECOND));
}

#[test]
fn accept_updates_what_is_known_of_the_fabric() {
    let node = ProxyStateNotifyNode {
        index: 7,
        external: Address::new(IpAddress::v4(198, 51, 100, 9), 3478),
        online: true,
    };
    let mut p = processor(Some(Proxy::new()));
    assert_eq!(p.check_addr(&remote_peer()), Reach::Failed);
    assert_eq!(p.accept(Payload::ProxyStateNotify(vec![node])), None);
    assert_eq!(p.check_addr(&remote_peer()), Reach::Relay(7));
    assert!(p.proxy().unwrap().in_online_nodes(&remote_peer().ip));
    let request = PermissionRequest { id: 0, from: client(), peer: local_peer() };
    assert_eq!(
        p.accept(Payload::CreatePermission { id: 0, from: client(), peer: local_peer() }),
        Some(request)
    );
    let mut lone = processor(None);
    assert_eq!(lone.accept(Payload::ProxyStateNotify(vec![node])), None);
    assert_eq!(lone.check_addr(&remote_peer()), Reach::Failed);
    assert!(lone.proxy().is_none());
    assert_eq!(
        lone.accept(Payload::CreatePermission { id: 0, from: client(), peer: local_peer() }),
        None
    );
}

#[test]
fn sweep_permissions_drops_what_has_run_out() {
    let mut p = processor(None);
    p.process(&client(), &allocate(1), 0);
    p.process(&client(), &create_permission(2, local_peer()), 0);
    p.sweep_permissions(299 * SECOND);
    assert!(p.router().check_permission(&client(), &local_peer().ip, 0));
    p.sweep_permissions(300 * SECOND);
    assert!(!p.router().check_permission(&client(), &local_peer().ip, 0));
    assert_eq!(p.router().get_port_bound(&client(), 6000), Some(local_peer()));
    assert!(p.router().get_node(&client()).is_some());
}

#[test]
fn arrival_is_handed_to_the_holder_of_the_port() {
    let mut p = processor(None);
    p.process(&client(), &allocate(1), 0);
    assert_eq!(p.arrival(49152, &local_peer(), 0), quiet());
    p.process(&client(), &create_permission(2, local_peer()), 0);
    assert_eq!(
        p.arrival(49152, &local_peer(), 0),
        Outcome {
            reply: None,
            effect: Some(Effect::DeliverData { client: client(), peer: local_peer() }),
        }
    );
    assert_eq!(p.arrival(49153, &local_peer(), 0), quiet());
    assert_eq!(p.arrival(1, &local_peer(), 0), quiet());
    assert_eq!(p.arrival(49152, &remote_peer(), 0), quiet());
    assert_eq!(p.arrival(49152, &local_peer(), 300 * SECOND), quiet());
    p.process(&client(), &channel_bind(3, 0x4001, local_peer()), SECOND);
    assert_eq!(
        p.arrival(49152, &local_peer(), SECOND),
        Outcome {
            reply: None,
            effect: Some(Effect::DeliverChannelData { client: client(), number: 0x4001 }),
        }
    );
    let other = Address::new(IpAddress::v4(203, 0, 113, 5), 6001);
    assert_eq!(
        p.arrival(49152, &other, SECOND),
        Outcome {
            reply: None,
            effect: Some(Effect::DeliverData { client: client(), peer: other }),
        }
    );
}

#[test]
fn handle_arrival_reads_the_clock() {
    let mut p = processor(None);
    p.handle(&client(), &allocate(1));
    p.handle(&client(), &create_permission(2, local_peer()));
    assert_eq!(
        p.handle_arrival(49152, &local_peer()).effect,
        Some(Effect::DeliverData { client: client(), peer: local_peer() })
    );
    assert_eq!(
        p.handle_channel_data(&client(), 0x4001),
        quiet()
    );
}

#[test]
fn readings_of_the_handlers_never_go_back() {
    let mut p = processor(None);
    p.handle(&client(), &allocate(1));
    let opened = p.router().get_node(&client()).unwrap().timer;
    p.handle(&client(), &refresh(2, Some(1200)));
    let refreshed = p.router().get_node(&client()).unwrap().timer;
    assert!(opened <= refreshed);
    p.handle(&client(), &refresh(3, Some(900)));
    let again = p.router().get_node(&client()).unwrap();
    assert!(refreshed <= again.timer);
    assert_eq!(again.lifetime, 900);
}
