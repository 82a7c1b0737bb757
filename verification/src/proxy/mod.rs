//! The view that one relay instance has of the others, and what it decides
//! on that view: which instance hosts a peer, and what to do with a payload
//! that the fabric delivers.

pub mod retry;
pub mod wire;

use crate::address::Address;
use crate::address::IpAddress;
use crate::proxy::wire::encode_frame;
use crate::proxy::wire::fits;
use crate::proxy::wire::frame_bytes;
use crate::proxy::wire::Frame;
use vstd::prelude::*;

verus! {

/// What the fabric says of one relay instance.
#[derive(Clone, Copy, Debug, PartialEq, Eq)]
pub struct ProxyStateNotifyNode {
    /// The number that the fabric gave the instance.
    pub index: u8,
    /// The public address of the instance.
    pub external: Address,
    pub online: bool,
}

/// What the fabric carries between instances, apart from relayed data.
#[derive(Debug)]
pub enum Payload {
    /// The instances that the fabric knows, all of them.
    ProxyStateNotify(Vec<ProxyStateNotifyNode>),
    /// A request to the instance `id` to let `from` reach `peer`.
    CreatePermission { id: u8, from: Address, peer: Address },
}

/// What the host of an instance does with what the fabric delivers.
pub trait ProxyObserver {
    /// The fabric asks this instance to let `from` reach `peer`.
    fn create_permission(&self, id: u8, from: Address, peer: Address);

    /// The fabric hands over a relayed datagram.
    fn relay(&self, buf: &[u8]);
}

/// Why the proxy refused.
#[derive(Clone, Copy, Debug, PartialEq, Eq, Structural)]
pub enum ProxyError {
    /// No known instance has the IP address of the peer.
    NotFound,
    /// The payload is longer than a frame can carry.
    TooLong,
}

/// A frame on its way to an instance.
#[derive(Debug)]
pub struct Outbound {
    /// The instance that the frame goes to.
    pub to: u8,
    /// Whether the frame has to arrive behind every frame that was sent in
    /// order to the same instance before.
    pub ordered: bool,
    /// The bytes of the frame.
    pub bytes: Vec<u8>,
}

/// A request to let a client reach a peer, on its way to the instance that
/// hosts the peer.
#[derive(Clone, Copy, Debug, PartialEq, Eq)]
pub struct PermissionRequest {
    /// The instance that the request goes to.
    pub id: u8,
    pub from: Address,
    pub peer: Address,
}

/// Whether `nodes[at]` is the first instance with the public IP address
/// `ip`; with `online_only`, the first such that is online.
pub open spec fn is_first_with_ip(
    nodes: Seq<ProxyStateNotifyNode>,
    ip: IpAddress,
    online_only: bool,
    at: int,
) -> bool {
    &&& 0 <= at < nodes.len()
    &&& matches_ip(nodes[at], ip, online_only)
    &&& forall|i: int| 0 <= i < at ==> !matches_ip(#[trigger] nodes[i], ip, online_only)
}

/// Whether the instance has the public IP address `ip` and, with
/// `online_only`, is online.
pub open spec fn matches_ip(node: ProxyStateNotifyNode, ip: IpAddress, online_only: bool) -> bool {
    node.external.ip == ip && (online_only ==> node.online)
}

/// The first instance with the public IP address `ip`; with `online_only`,
/// the first such that is online.
pub open spec fn first_with_ip(nodes: Seq<ProxyStateNotifyNode>, ip: IpAddress, online_only: bool)
    -> Option<ProxyStateNotifyNode> {
    if exists|at: int| is_first_with_ip(nodes, ip, online_only, at) {
        Some(nodes[choose|at: int| is_first_with_ip(nodes, ip, online_only, at)])
    } else {
        None
    }
}

/// Whether some instance of the view is online and has the public IP
/// address `ip`.
pub open spec fn has_online(nodes: Seq<ProxyStateNotifyNode>, ip: IpAddress) -> bool {
    exists|i: int| 0 <= i < nodes.len() && matches_ip(#[trigger] nodes[i], ip, true)
}

/// Where some instance is online with an IP address there is a first such,
/// and only there.
pub proof fn lemma_first_online(nodes: Seq<ProxyStateNotifyNode>, ip: IpAddress)
    ensures
        has_online(nodes, ip) == (first_with_ip(nodes, ip, true) is Some),
        first_with_ip(nodes, ip, true) matches Some(node) ==> node.online && node.external.ip
            == ip,
{
    if has_online(nodes, ip) {
        let i = choose|i: int| 0 <= i < nodes.len() && matches_ip(#[trigger] nodes[i], ip, true);
        lemma_first_before(nodes, ip, i);
    }
    if first_with_ip(nodes, ip, true) is Some {
        let at = choose|at: int| is_first_with_ip(nodes, ip, true, at);
        assert(matches_ip(nodes[at], ip, true));
    }
}

/// At or before a place that matches there is a first place that matches.
proof fn lemma_first_before(nodes: Seq<ProxyStateNotifyNode>, ip: IpAddress, upto: int)
    requires
        0 <= upto < nodes.len(),
        matches_ip(nodes[upto], ip, true),
    ensures
        exists|at: int| is_first_with_ip(nodes, ip, true, at),
    decreases upto,
{
    if exists|k: int| 0 <= k < upto && matches_ip(#[trigger] nodes[k], ip, true) {
        let k = choose|k: int| 0 <= k < upto && matches_ip(#[trigger] nodes[k], ip, true);
        lemma_first_before(nodes, ip, k);
    } else {
        assert(is_first_with_ip(nodes, ip, true, upto));
    }
}

/// There is one first place at most.
proof fn lemma_first_is_unique(
    nodes: Seq<ProxyStateNotifyNode>,
    ip: IpAddress,
    online_only: bool,
    a: int,
    b: int,
)
    requires
        is_first_with_ip(nodes, ip, online_only, a),
        is_first_with_ip(nodes, ip, online_only, b),
    ensures
        a == b,
{
}

/// The instances that the fabric knows, as it last told them.
pub struct Proxy {
    nodes: Vec<ProxyStateNotifyNode>,
}

impl View for Proxy {
    type V = Seq<ProxyStateNotifyNode>;

    closed spec fn view(&self) -> Seq<ProxyStateNotifyNode> {
        self.nodes@
    }
}

impl Proxy {
    /// A proxy that knows no instance yet.
    pub fn new() -> (proxy: Proxy)
        ensures
            proxy@.len() == 0,
    {
        Proxy { nodes: Vec::new() }
    }

    /// The first instance with the public IP address `ip`; with
    /// `online_only`, the first such that is online.
    fn find(&self, ip: &IpAddress, online_only: bool) -> (found: Option<ProxyStateNotifyNode>)
        ensures
            found == first_with_ip(self@, *ip, online_only),
    {
        let mut i: usize = 0;
        while i < self.nodes.len()
            invariant
                i <= self.nodes@.len(),
                forall|k: int| 0 <= k < i ==> !matches_ip(#[trigger] self.nodes@[k], *ip, online_only),
            decreases self.nodes.len() - i,
        {
            let node = self.nodes[i];
            if node.external.ip == *ip && (!online_only || node.online) {
                proof {
                    assert(is_first_with_ip(self@, *ip, online_only, i as int));
                    let at = choose|at: int| is_first_with_ip(self@, *ip, online_only, at);
                    lemma_first_is_unique(self@, *ip, online_only, at, i as int);
                }
                return Some(node);
            }
            i += 1;
        }
        None
    }

    /// Whether some instance is online and has the public IP address
    /// `ip`, whatever its port and whatever stands before it in the view.
    pub fn in_online_nodes(&self, ip: &IpAddress) -> (online: bool)
        ensures
            online == has_online(self@, *ip),
            online == (first_with_ip(self@, *ip, true) is Some),
    {
        proof {
            lemma_first_online(self@, *ip);
        }
        self.find(ip, true).is_some()
    }

    /// The first instance that is online and has the public IP address
    /// `ip`.
    pub fn get_online_node(&self, ip: &IpAddress) -> (node: Option<ProxyStateNotifyNode>)
        ensures
            node == first_with_ip(self@, *ip, true),
    {
        self.find(ip, true)
    }

    /// The request that lets `from` reach `peer`, addressed to the first
    /// instance that has the IP address of `peer`. It is to be sent in
    /// order. `NotFound` where no instance has that address.
    pub fn create_permission(&self, from: &Address, peer: &Address) -> (request: Result<
        PermissionRequest,
        ProxyError,
    >)
        ensures
            request == match first_with_ip(self@, peer.ip, false) {
                Some(node) => Ok::<PermissionRequest, ProxyError>(
                    PermissionRequest { id: node.index, from: *from, peer: *peer },
                ),
                None => Err(ProxyError::NotFound),
            },
    {
        match self.find(&peer.ip, false) {
            Some(node) => Ok(PermissionRequest { id: node.index, from: *from, peer: *peer }),
            None => Err(ProxyError::NotFound),
        }
    }

    /// The frame `frame` on its way to the instance `to`, in or out of
    /// order.
    fn outbound(frame: Frame, to: u8, ordered: bool) -> (out: Result<Outbound, ProxyError>)
        ensures
            match out {
                Ok(o) => fits(frame@) && o.to == to && o.ordered == ordered && o.bytes@
                    == frame_bytes(frame@),
                Err(e) => !fits(frame@) && e == ProxyError::TooLong,
            },
    {
        match encode_frame(&frame) {
            Some(bytes) => Ok(Outbound { to, ordered, bytes }),
            None => Err(ProxyError::TooLong),
        }
    }

    /// The frame that carries the relayed datagram `data` to the instance
    /// `to`, to be sent in order. `TooLong` where no frame can carry it.
    pub fn relay_data(&self, data: Vec<u8>, to: u8) -> (out: Result<Outbound, ProxyError>)
        ensures
            match out {
                Ok(o) => fits(Frame::Relay(data)@) && o.to == to && o.ordered && o.bytes@
                    == frame_bytes(Frame::Relay(data)@),
                Err(e) => !fits(Frame::Relay(data)@) && e == ProxyError::TooLong,
            },
    {
        Proxy::outbound(Frame::Relay(data), to, true)
    }

    /// The frame that carries `payload` to the instance `to`, to be sent
    /// without regard to order. `TooLong` where no frame can carry it.
    pub fn send(&self, payload: Payload, to: u8) -> (out: Result<Outbound, ProxyError>)
        ensures
            match out {
                Ok(o) => fits(Frame::Payload(payload)@) && o.to == to && !o.ordered && o.bytes@
                    == frame_bytes(Frame::Payload(payload)@),
                Err(e) => !fits(Frame::Payload(payload)@) && e == ProxyError::TooLong,
            },
    {
        Proxy::outbound(Frame::Payload(payload), to, false)
    }

    /// The frame that carries `payload` to the instance `to`, to be sent in
    /// order. `TooLong` where no frame can carry it.
    pub fn relay(&self, payload: Payload, to: u8) -> (out: Result<Outbound, ProxyError>)
        ensures
            match out {
                Ok(o) => fits(Frame::Payload(payload)@) && o.to == to && o.ordered && o.bytes@
                    == frame_bytes(Frame::Payload(payload)@),
                Err(e) => !fits(Frame::Payload(payload)@) && e == ProxyError::TooLong,
            },
    {
        Proxy::outbound(Frame::Payload(payload), to, true)
    }

    /// Takes in a payload from the fabric. A state notification replaces
    /// all that was known of the instances; a request for a permission is
    /// handed back for the host to act on.
    pub fn accept(&mut self, payload: Payload) -> (request: Option<PermissionRequest>)
        ensures
            match payload {
                Payload::ProxyStateNotify(nodes) => final(self)@ == nodes@ && request is None,
                Payload::CreatePermission { id, from, peer } => final(self)@ == old(self)@
                    && request == Some(PermissionRequest { id, from, peer }),
            },
    {
        match payload {
            Payload::ProxyStateNotify(nodes) => {
                self.nodes = nodes;
                None
            },
            Payload::CreatePermission { id, from, peer } => Some(
                PermissionRequest { id, from, peer },
            ),
        }
    }

    /// Takes in a payload from the fabric and hands a request for a
    /// permission to `observer`.
    pub fn on<O: ProxyObserver>(&mut self, payload: Payload, observer: &O)
        ensures
            match payload {
                Payload::ProxyStateNotify(nodes) => final(self)@ == nodes@,
                Payload::CreatePermission { id, from, peer } => final(self)@ == old(self)@,
            },
    {
        match self.accept(payload) {
            Some(request) => observer.create_permission(request.id, request.from, request.peer),
            None => {},
        }
    }

    /// Hands a relayed datagram from the fabric to `observer`.
    pub fn on_relay<O: ProxyObserver>(&self, buf: &[u8], observer: &O) {
        observer.relay(buf);
    }
}

} // verus!
