//! The protocol handlers: for each request, the answer and what it does to
//! the routing table.

pub mod allocate;
pub mod binding;
pub mod channel_bind;
pub mod create_permission;
pub mod credentials;
pub mod dispatch;
pub mod frame;
pub mod indication;
pub mod laws;
pub mod message;
pub mod refresh;

use crate::address::Address;
use crate::address::IpAddress;
use crate::clock::Clock;
use crate::processor::credentials::derive_key;
use crate::processor::credentials::long_key_of;
use crate::processor::message::Request;
use crate::processor::message::Route;
use crate::proxy::first_with_ip;
use crate::router::permissions::lapsed;
use crate::router::permissions::DEFAULT_PERMISSION_LIFETIME;
use crate::router::ports::DEFAULT_PORT_MAX;
use crate::router::ports::DEFAULT_PORT_MIN;
use crate::proxy::Payload;
use crate::proxy::PermissionRequest;
use crate::proxy::Proxy;
use crate::proxy::ProxyStateNotifyNode;
use crate::router::owners::OwnerMap;
use crate::router::Router;
use crate::router::RouterView;
use vstd::prelude::*;

verus! {

/// The longest lifetime, in seconds, that a session is given when nothing
/// else is configured.
pub const DEFAULT_MAX_LIFETIME: u32 = 3600;

/// Seconds between two sweeps when nothing else is configured.
pub const DEFAULT_REAPER_INTERVAL: u64 = 60;

/// What a request carries, as mathematical values.
pub struct RequestView {
    pub method: crate::processor::message::Method,
    pub transaction: [u8; 12],
    /// The user name and the password of the credential.
    pub auth: Option<(Seq<char>, Seq<char>)>,
    pub transport: Option<u8>,
    pub lifetime: Option<u32>,
    pub peer: Option<Address>,
    pub channel: Option<u16>,
    pub has_data: bool,
}

impl View for Request {
    type V = RequestView;

    open spec fn view(&self) -> RequestView {
        RequestView {
            method: self.method,
            transaction: self.transaction,
            auth: match self.auth {
                Some(c) => Some((c.username@, c.password@)),
                None => None,
            },
            transport: self.transport,
            lifetime: self.lifetime,
            peer: self.peer,
            channel: self.channel,
            has_data: self.has_data,
        }
    }
}

/// The state that the handlers work on, as mathematical values.
pub struct ProcessorView {
    pub router: RouterView,
    /// The instances that the fabric knows; `None` without a fabric.
    pub proxy: Option<Seq<ProxyStateNotifyNode>>,
    /// The public address of this instance.
    pub external: Address,
    pub realm: Seq<char>,
    /// The tag of this instance, which its sessions carry.
    pub mark: u8,
    /// The longest lifetime, in seconds, that a refresh can ask for.
    pub max_lifetime: u32,
    /// Seconds a permission lasts.
    pub permission_lifetime: u64,
    /// The transaction that opened the session of each client.
    pub openers: Map<Address, [u8; 12]>,
}

/// How a peer can be reached from this instance.
#[derive(Clone, Copy, Debug, PartialEq, Eq, Structural)]
pub enum Reach {
    /// The peer has the public IP address of this instance.
    Local,
    /// The peer has the public IP address of the instance of this number,
    /// which is online.
    Relay(u8),
    /// The peer cannot be reached.
    Failed,
}

impl ProcessorView {
    /// How `peer` can be reached: through this instance where it has this
    /// instance's public IP address; else through the first instance of the
    /// fabric that is online and has its IP address; else not at all.
    pub open spec fn reach_of(self, peer: Address) -> Reach {
        if self.external.ip == peer.ip {
            Reach::Local
        } else {
            match self.proxy {
                Some(nodes) => match first_with_ip(nodes, peer.ip, true) {
                    Some(node) => Reach::Relay(node.index),
                    None => Reach::Failed,
                },
                None => Reach::Failed,
            }
        }
    }

    /// The way that data for `peer` takes: through the fabric where the
    /// peer is hosted by another instance, and else through a socket of
    /// this one.
    pub open spec fn route_of(self, peer: Address) -> Route {
        match self.reach_of(peer) {
            Reach::Relay(index) => Route::Fabric(index),
            _ => Route::Direct,
        }
    }

    /// Whether the client at `addr` may send to `ip` at the reading `now`.
    pub open spec fn permits(self, addr: Address, ip: IpAddress, now: u128) -> bool {
        self.router.permissions.contains_key((addr, ip)) && !lapsed(
            self.router.permissions[(addr, ip)],
            now,
            self.permission_lifetime,
        )
    }

    /// Whether the client at `addr` has a session that is alive at the
    /// reading `now`.
    pub open spec fn has_live_session(self, addr: Address, now: u128) -> bool {
        self.router.nodes.contains_key(addr) && !self.router.nodes[addr].is_dead_at(now)
    }
}

/// The handlers with the state they work on.
pub struct Processor {
    router: Router,
    proxy: Option<Proxy>,
    external: Address,
    realm: String,
    mark: u8,
    max_lifetime: u32,
    openers: OwnerMap<[u8; 12]>,
    clock: Clock,
}

impl View for Processor {
    type V = ProcessorView;

    closed spec fn view(&self) -> ProcessorView {
        ProcessorView {
            router: self.router@,
            proxy: match self.proxy {
                Some(p) => Some(p@),
                None => None,
            },
            external: self.external,
            realm: self.realm@,
            mark: self.mark,
            max_lifetime: self.max_lifetime,
            permission_lifetime: self.router.permission_lifetime(),
            openers: self.openers@,
        }
    }
}

impl Processor {
    /// The last reading that the clock of the handlers gave: zero before
    /// the first.
    pub closed spec fn last_reading(&self) -> u128 {
        self.clock.last_reading()
    }

    /// What holds of the state between any two requests.
    pub closed spec fn wf(&self) -> bool {
        self.router.wf() && self.openers.wf()
    }

    /// What `wf` says of the routing table.
    pub proof fn lemma_router_in_order(&self)
        requires
            self.wf(),
        ensures
            self@.router.inv(),
    {
    }

    /// Handlers for the instance with the public address `external` and
    /// the tag `mark`, over an empty routing table with the relayed ports
    /// from `port_min` to `port_max`. `proxy` is the view of the fabric,
    /// where the instance is part of one.
    pub fn new(
        external: Address,
        realm: String,
        mark: u8,
        port_min: u16,
        port_max: u16,
        permission_lifetime: u64,
        max_lifetime: u32,
        proxy: Option<Proxy>,
    ) -> (processor: Processor)
        ensures
            processor.wf(),
            processor.last_reading() == 0,
            processor@.router.nodes == Map::<Address, crate::router::nodes::NodeView>::empty(),
            processor@.router.ports.lo == port_min,
            processor@.router.ports.hi == port_max,
            processor@.router.ports.leases == Map::<u16, crate::router::ports::Lease>::empty(),
            processor@.router.channels == Map::<(Address, u16), Address>::empty(),
            processor@.router.permissions == Map::<(Address, IpAddress), u128>::empty(),
            processor@.openers == Map::<Address, [u8; 12]>::empty(),
            processor@.external == external,
            processor@.realm == realm@,
            processor@.mark == mark,
            processor@.max_lifetime == max_lifetime,
            processor@.permission_lifetime == permission_lifetime,
            processor@.proxy == match proxy {
                Some(p) => Some(p@),
                None => None,
            },
    {
        Processor {
            router: Router::new(port_min, port_max, permission_lifetime),
            proxy,
            external,
            realm,
            mark,
            max_lifetime,
            openers: OwnerMap::new(),
            clock: Clock::start(),
        }
    }

    /// Handlers as `new` builds them, with what is used when nothing else
    /// is configured: the relayed ports from 49152 to 65535, permissions
    /// that last 300 seconds, lifetimes of 3600 seconds at most.
    pub fn with_defaults(external: Address, realm: String, mark: u8, proxy: Option<Proxy>) -> (processor:
        Processor)
        ensures
            processor.wf(),
            processor.last_reading() == 0,
            processor@.router.nodes == Map::<Address, crate::router::nodes::NodeView>::empty(),
            processor@.router.ports.lo == DEFAULT_PORT_MIN,
            processor@.router.ports.hi == DEFAULT_PORT_MAX,
            processor@.router.ports.leases == Map::<u16, crate::router::ports::Lease>::empty(),
            processor@.router.channels == Map::<(Address, u16), Address>::empty(),
            processor@.router.permissions == Map::<(Address, IpAddress), u128>::empty(),
            processor@.openers == Map::<Address, [u8; 12]>::empty(),
            processor@.external == external,
            processor@.realm == realm@,
            processor@.mark == mark,
            processor@.max_lifetime == DEFAULT_MAX_LIFETIME,
            processor@.permission_lifetime == DEFAULT_PERMISSION_LIFETIME,
            processor@.proxy == match proxy {
                Some(p) => Some(p@),
                None => None,
            },
    {
        Processor::new(
            external,
            realm,
            mark,
            DEFAULT_PORT_MIN,
            DEFAULT_PORT_MAX,
            DEFAULT_PERMISSION_LIFETIME,
            DEFAULT_MAX_LIFETIME,
            proxy,
        )
    }

    /// Takes in a payload from the fabric. A state notification replaces
    /// all that was known of the instances; a request for a permission is
    /// handed back for the host to act on. Without a fabric the payload is
    /// dropped.
    pub fn accept(&mut self, payload: Payload) -> (request: Option<PermissionRequest>)
        requires
            old(self).wf(),
        ensures
            final(self).wf(),
            final(self).last_reading() == old(self).last_reading(),
            final(self)@ == (ProcessorView {
                proxy: match (old(self)@.proxy, payload) {
                    (Some(_), Payload::ProxyStateNotify(nodes)) => Some(nodes@),
                    _ => old(self)@.proxy,
                },
                ..old(self)@
            }),
            request == match (old(self)@.proxy, payload) {
                (Some(_), Payload::CreatePermission { id, from, peer }) => Some(
                    PermissionRequest { id, from, peer },
                ),
                _ => None,
            },
    {
        match &mut self.proxy {
            Some(proxy) => proxy.accept(payload),
            None => None,
        }
    }

    /// What is known of the fabric, for reading; `None` without a fabric.
    pub fn proxy(&self) -> (proxy: Option<&Proxy>)
        ensures
            match proxy {
                Some(p) => self@.proxy == Some(p@),
                None => self@.proxy is None,
            },
    {
        self.proxy.as_ref()
    }

    /// The routing table, for reading.
    pub fn router(&self) -> (router: &Router)
        ensures
            router@ == self@.router,
            self.wf() ==> router.wf(),
    {
        &self.router
    }

    /// The key under which a message from the client at `addr`, signed in
    /// the name of `username`, is to be checked: the key of its session
    /// where it has one, and else the key of the credential with
    /// `password`.
    pub fn get_key(&self, addr: &Address, username: &str, password: &str) -> (key: [u8; 16])
        ensures
            key == key_for(self@, *addr, username@, password@),
    {
        match self.router.get_secret(addr) {
            Some(secret) => *secret,
            None => derive_key(username, password, self.realm.as_str()),
        }
    }
}

/// The key of the session at `addr` where there is one, and else the key of
/// the credential.
pub open spec fn key_for(
    state: ProcessorView,
    addr: Address,
    username: Seq<char>,
    password: Seq<char>,
) -> [u8; 16] {
    if state.router.nodes.contains_key(addr) {
        state.router.nodes[addr].secret
    } else {
        long_key_of(username, password, state.realm)
    }
}

} // verus!
