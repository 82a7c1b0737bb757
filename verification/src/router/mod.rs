//! The routing table: sessions, relayed ports, channels and permissions,
//! and the one object through which the protocol handlers change them.

pub mod channels;
pub mod laws;
pub mod names;
pub mod nodes;
pub mod owners;
pub mod permissions;
pub mod ports;
pub mod tables;
pub mod users;

use crate::address::Address;
use crate::address::IpAddress;
use crate::router::channels::bind_verdict;
use crate::router::channels::peer_is_bound;
use crate::router::channels::ChannelError;
use crate::router::channels::ChannelTable;
use crate::router::channels::ChannelView;
use crate::router::nodes::deaths;
use crate::router::nodes::first_port_of;
use crate::router::nodes::fresh_node;
use crate::router::nodes::Node;
use crate::router::nodes::NodeView;
use crate::router::nodes::Nodes;
use crate::router::permissions::lapsed;
use crate::router::permissions::swept;
use crate::router::permissions::PermissionTable;
use crate::router::permissions::PermissionView;
use crate::router::ports::Lease;
use crate::router::ports::PortError;
use crate::router::ports::PortPool;
use crate::router::ports::PortPoolView;
use vstd::prelude::*;

verus! {

/// The routing table as mathematical values.
pub struct RouterView {
    pub nodes: Map<Address, NodeView>,
    pub ports: PortPoolView,
    pub channels: ChannelView,
    pub permissions: PermissionView,
}

impl RouterView {
    /// Every port that a session names is held by the client of that
    /// session.
    pub open spec fn ports_point_back(self) -> bool {
        forall|addr: Address, port: u16|
            self.nodes.contains_key(addr) && #[trigger] self.nodes[addr].ports.contains(port)
                ==> self.ports.holds(addr, port)
    }

    /// Every bound channel is named by the session of the client that
    /// bound it.
    pub open spec fn channels_are_listed(self) -> bool {
        forall|owner: Address, number: u16| #[trigger]
            self.channels.contains_key((owner, number)) ==> self.nodes.contains_key(owner)
                && self.nodes[owner].channels.contains(number)
    }

    /// Every channel that a session names is bound, in the channel table,
    /// for the client of that session.
    pub open spec fn channels_are_bound(self) -> bool {
        forall|addr: Address, number: u16|
            self.nodes.contains_key(addr) && #[trigger] self.nodes[addr].channels.contains(number)
                ==> self.channels.contains_key((addr, number))
    }

    /// Whether a port, a channel or a permission is held in the name of
    /// `addr`.
    pub open spec fn refers_to(self, addr: Address) -> bool {
        ||| exists|port: u16| self.ports.holds(addr, port)
        ||| exists|number: u16| self.channels.contains_key((addr, number))
        ||| exists|ip: IpAddress| self.permissions.contains_key((addr, ip))
    }

    /// Nothing is held in the name of a client without a session.
    pub open spec fn owners_have_sessions(self) -> bool {
        forall|addr: Address| #[trigger] self.refers_to(addr) ==> self.nodes.contains_key(addr)
    }

    /// What holds of the routing table after every operation.
    pub open spec fn inv(self) -> bool {
        &&& self.ports.wf()
        &&& self.ports_point_back()
        &&& self.channels_are_listed()
        &&& self.channels_are_bound()
        &&& self.owners_have_sessions()
    }

    /// The table without the clients of `gone`: their sessions and all
    /// that was held in their names.
    pub open spec fn without(self, gone: Set<Address>) -> RouterView {
        RouterView {
            nodes: self.nodes.remove_keys(gone),
            ports: PortPoolView {
                leases: Map::new(
                    |port: u16|
                        self.ports.leases.contains_key(port) && !gone.contains(
                            self.ports.leases[port].owner,
                        ),
                    |port: u16| self.ports.leases[port],
                ),
                ..self.ports
            },
            channels: Map::new(
                |key: (Address, u16)| self.channels.contains_key(key) && !gone.contains(key.0),
                |key: (Address, u16)| self.channels[key],
            ),
            permissions: Map::new(
                |key: (Address, IpAddress)|
                    self.permissions.contains_key(key) && !gone.contains(key.0),
                |key: (Address, IpAddress)| self.permissions[key],
            ),
        }
    }

    /// The table without the client at `addr`.
    pub open spec fn removed(self, addr: Address) -> RouterView {
        self.without(set![addr])
    }

    /// The table after the client at `addr`, which had no session, has
    /// been given the session `node` and the port `port`.
    pub open spec fn admitted(self, addr: Address, node: NodeView, port: u16) -> RouterView {
        RouterView {
            nodes: self.nodes.insert(addr, node.with_port(port)),
            ports: self.ports.allocated(addr, port),
            ..self
        }
    }

    /// The table after the lifetime of the session at `addr` has been set
    /// to `delay` seconds at the reading `now`: with a `delay` of zero the
    /// client is taken out.
    pub open spec fn refreshed(self, addr: Address, delay: u32, now: u128) -> RouterView {
        if !self.nodes.contains_key(addr) {
            self
        } else if delay == 0 {
            self.removed(addr)
        } else {
            RouterView { nodes: self.nodes.insert(addr, self.nodes[addr].refreshed(delay, now)), ..self }
        }
    }

    /// The table after the client at `addr` has bound its first port,
    /// `port`, toward `peer` at the reading `now`, which also permits it to
    /// send to the peer's IP address.
    pub open spec fn port_bound(self, addr: Address, port: u16, peer: Address, now: u128)
        -> RouterView {
        RouterView {
            ports: self.ports.bound(addr, port, peer),
            permissions: self.permissions.insert((addr, peer.ip), now),
            ..self
        }
    }

    /// The table after the client at `addr` has bound the channel
    /// `number` to `peer` at the reading `now`, which also permits it to
    /// send to the peer's IP address.
    pub open spec fn channel_bound(self, addr: Address, number: u16, peer: Address, now: u128)
        -> RouterView {
        RouterView {
            nodes: self.nodes.insert(addr, self.nodes[addr].with_channel(number)),
            channels: self.channels.insert((addr, number), peer),
            permissions: self.permissions.insert((addr, peer.ip), now),
            ..self
        }
    }

    /// The peer toward which the client at `addr` relays through its
    /// first port.
    pub open spec fn bound_peer(self, addr: Address) -> Option<Address> {
        match first_port_of(self.nodes, addr) {
            Some(port) => if self.ports.leases.contains_key(port) {
                self.ports.leases[port].peer
            } else {
                None
            },
            None => None,
        }
    }
}

/// Why the routing table refused to bind a channel.
#[derive(Clone, Copy, Debug, PartialEq, Eq, Structural)]
pub enum BindError {
    /// The client has no session.
    NoSession,
    /// The number is bound to another peer, or the peer to another number.
    InUse,
    /// The number is not one that can be bound.
    OutOfRange,
}

/// What `bind_channel` answers.
pub open spec fn bind_channel_verdict(
    table: RouterView,
    addr: Address,
    number: u16,
    peer: Address,
) -> Result<(), BindError> {
    if !table.nodes.contains_key(addr) {
        Err(BindError::NoSession)
    } else {
        match bind_verdict(table.channels, addr, number, peer) {
            Ok(_) => Ok(()),
            Err(ChannelError::InUse) => Err(BindError::InUse),
            Err(ChannelError::OutOfRange) => Err(BindError::OutOfRange),
        }
    }
}

/// Taking clients out keeps the table in order.
proof fn lemma_without_keeps_inv(table: RouterView, gone: Set<Address>)
    requires
        table.inv(),
    ensures
        table.without(gone).inv(),
{
    let after = table.without(gone);
    assert forall|addr: Address, port: u16|
        after.nodes.contains_key(addr) && #[trigger] after.nodes[addr].ports.contains(
            port,
        ) implies after.ports.holds(addr, port) by {
        assert(table.nodes[addr].ports.contains(port));
        assert(table.ports.holds(addr, port));
    }
    assert forall|owner: Address, number: u16| #[trigger]
        after.channels.contains_key((owner, number)) implies after.nodes.contains_key(owner)
        && after.nodes[owner].channels.contains(number) by {
        assert(table.channels.contains_key((owner, number)));
    }
    assert forall|addr: Address| #[trigger] after.refers_to(addr) implies after.nodes.contains_key(
        addr,
    ) by {
        if exists|port: u16| after.ports.holds(addr, port) {
            let port = choose|port: u16| after.ports.holds(addr, port);
            assert(table.ports.holds(addr, port));
        } else if exists|number: u16| after.channels.contains_key((addr, number)) {
            let number = choose|number: u16| after.channels.contains_key((addr, number));
            assert(table.channels.contains_key((addr, number)));
        } else {
            let ip = choose|ip: IpAddress| after.permissions.contains_key((addr, ip));
            assert(table.permissions.contains_key((addr, ip)));
        }
        assert(table.refers_to(addr));
    }
}

/// The routing table: the one object through which the protocol handlers
/// read and change sessions, ports, channels and permissions.
pub struct Router {
    nodes: Nodes,
    ports: PortPool,
    channels: ChannelTable,
    permissions: PermissionTable,
}

impl View for Router {
    type V = RouterView;

    closed spec fn view(&self) -> RouterView {
        RouterView {
            nodes: self.nodes@,
            ports: self.ports@,
            channels: self.channels@,
            permissions: self.permissions@,
        }
    }
}

impl Router {
    /// Each table is in order by itself.
    pub closed spec fn tables_wf(&self) -> bool {
        &&& self.nodes.wf()
        &&& self.ports.wf()
        &&& self.channels.wf()
        &&& self.permissions.wf()
    }

    /// What holds of the routing table between any two operations.
    pub open spec fn wf(&self) -> bool {
        self.tables_wf() && self@.inv()
    }

    /// Seconds a permission lasts.
    pub closed spec fn permission_lifetime(&self) -> u64 {
        self.permissions.lifetime()
    }

    /// The user names that have a session, in ascending order, each with
    /// the addresses of its sessions.
    pub closed spec fn users(&self) -> crate::router::users::UserIndexView {
        self.nodes.users()
    }

    /// A routing table without sessions, over the relayed ports from
    /// `port_min` to `port_max`, in which permissions last
    /// `permission_lifetime` seconds.
    pub fn new(port_min: u16, port_max: u16, permission_lifetime: u64) -> (router: Router)
        ensures
            router.wf(),
            router.permission_lifetime() == permission_lifetime,
            router.users().len() == 0,
            router@.nodes == Map::<Address, NodeView>::empty(),
            router@.ports.lo == port_min,
            router@.ports.hi == port_max,
            router@.ports.leases == Map::<u16, Lease>::empty(),
            router@.channels == Map::<(Address, u16), Address>::empty(),
            router@.permissions == Map::<(Address, IpAddress), u128>::empty(),
    {
        Router {
            nodes: Nodes::new(),
            ports: PortPool::new(port_min, port_max),
            channels: ChannelTable::new(),
            permissions: PermissionTable::new(permission_lifetime),
        }
    }

    /// Closes the session of the client at `addr` and gives back every
    /// port, channel and permission held in its name. Hands back the
    /// session, if there was one.
    pub fn remove(&mut self, addr: &Address) -> (node: Option<Node>)
        requires
            old(self).wf(),
        ensures
            final(self).wf(),
            final(self).permission_lifetime() == old(self).permission_lifetime(),
            final(self)@ == old(self)@.removed(*addr),
            node.is_some() == old(self)@.nodes.contains_key(*addr),
            node matches Some(n) ==> n@ == old(self)@.nodes[*addr],
    {
        self.ports.release_all(addr);
        self.channels.release_all(addr);
        self.permissions.release_all(addr);
        let node = self.nodes.remove(addr);
        proof {
            let goal = old(self)@.removed(*addr);
            assert(self@.nodes =~= goal.nodes);
            assert(self@.ports.leases =~= goal.ports.leases);
            assert(self@.channels =~= goal.channels);
            assert(self@.permissions =~= goal.permissions);
            lemma_without_keeps_inv(old(self)@, set![*addr]);
        }
        node
    }
}

impl Router {
    /// Opens a session for the client at `addr` at the reading `now` and
    /// gives it the lowest free port. A session that the client had is
    /// closed first, with all that was held in its name. Where no port is
    /// free the client is left without a session.
    pub fn allocate(
        &mut self,
        mark: u8,
        addr: &Address,
        username: &str,
        secret: [u8; 16],
        password: &str,
        now: u128,
    ) -> (got: Result<u16, PortError>)
        requires
            old(self).wf(),
        ensures
            final(self).wf(),
            final(self).permission_lifetime() == old(self).permission_lifetime(),
            match got {
                Ok(port) => old(self)@.removed(*addr).ports.is_lowest_free(port) && final(self)@
                    == old(self)@.removed(*addr).admitted(
                    *addr,
                    fresh_node(mark, username@, secret, password@, now),
                    port,
                ),
                Err(e) => e == PortError::NoCapacity && (forall|port: u16|
                    !old(self)@.removed(*addr).ports.is_free(port)) && final(self)@ == old(
                    self,
                )@.removed(*addr),
            },
    {
        self.remove(addr);
        let ghost base = self@;
        match self.ports.allocate(addr) {
            Ok(port) => {
                self.nodes.insert(mark, addr, username, secret, password, now);
                self.nodes.push_port(addr, port);
                proof {
                    let fresh = fresh_node(mark, username@, secret, password@, now);
                    let goal = base.admitted(*addr, fresh, port);
                    assert(self@.nodes =~= goal.nodes);
                    assert(fresh.with_port(port).ports =~= seq![port]);
                    assert forall|a: Address, p: u16|
                        goal.nodes.contains_key(a) && #[trigger] goal.nodes[a].ports.contains(
                            p,
                        ) implies goal.ports.holds(a, p) by {
                        if a == *addr {
                            assert(p == port);
                        } else {
                            assert(base.nodes[a].ports.contains(p));
                            assert(base.ports.holds(a, p));
                        }
                    }
                    assert forall|owner: Address, number: u16| #[trigger]
                        goal.channels.contains_key((owner, number)) implies goal.nodes.contains_key(
                        owner,
                    ) && goal.nodes[owner].channels.contains(number) by {
                        assert(base.channels.contains_key((owner, number)));
                    }
                    assert forall|a: Address| #[trigger] goal.refers_to(a) implies
                        goal.nodes.contains_key(a) by {
                        if a != *addr {
                            if exists|p: u16| goal.ports.holds(a, p) {
                                let p = choose|p: u16| goal.ports.holds(a, p);
                                assert(base.ports.holds(a, p));
                            }
                            assert(base.refers_to(a));
                        }
                    }
                }
                Ok(port)
            },
            Err(e) => Err(e),
        }
    }
}

impl Router {
    /// Sets the lifetime of the session of the client at `addr` to `delay`
    /// seconds counted from the reading `now`. With a `delay` of zero the
    /// client is taken out at once. `None` where it has no session.
    pub fn refresh(&mut self, addr: &Address, delay: u32, now: u128) -> (done: Option<()>)
        requires
            old(self).wf(),
        ensures
            final(self).wf(),
            final(self).permission_lifetime() == old(self).permission_lifetime(),
            done.is_some() == old(self)@.nodes.contains_key(*addr),
            final(self)@ == old(self)@.refreshed(*addr, delay, now),
    {
        if !self.nodes.contains(addr) {
            return None;
        }
        if delay == 0 {
            self.remove(addr);
        } else {
            self.nodes.set_lifetime(addr, delay, now);
            proof {
                let goal = old(self)@.refreshed(*addr, delay, now);
                assert forall|a: Address, p: u16|
                    goal.nodes.contains_key(a) && #[trigger] goal.nodes[a].ports.contains(
                        p,
                    ) implies goal.ports.holds(a, p) by {
                    assert(old(self)@.nodes[a].ports.contains(p));
                }
                assert forall|owner: Address, number: u16| #[trigger]
                    goal.channels.contains_key((owner, number)) implies goal.nodes.contains_key(
                    owner,
                ) && goal.nodes[owner].channels.contains(number) by {
                    assert(old(self)@.channels.contains_key((owner, number)));
                }
                assert forall|a: Address| #[trigger] goal.refers_to(a) implies
                    goal.nodes.contains_key(a) by {
                    assert(old(self)@.refers_to(a));
                }
            }
        }
        Some(())
    }

    /// Records that the client at `addr` relays through its first port
    /// toward `peer`, and permits it to send to the peer's IP address from
    /// the reading `now` on. `None`, and nothing changed, where the client
    /// has no session with a port.
    pub fn bind_port(&mut self, addr: &Address, peer: &Address, now: u128) -> (done: Option<()>)
        requires
            old(self).wf(),
        ensures
            final(self).wf(),
            final(self).permission_lifetime() == old(self).permission_lifetime(),
            done.is_some() == first_port_of(old(self)@.nodes, *addr).is_some(),
            final(self)@ == match first_port_of(old(self)@.nodes, *addr) {
                Some(port) => old(self)@.port_bound(*addr, port, *peer, now),
                None => old(self)@,
            },
    {
        match self.nodes.first_port(addr) {
            Some(port) => {
                assert(old(self)@.nodes[*addr].ports.contains(port));
                assert(old(self)@.ports.holds(*addr, port));
                let bound = self.ports.bind(addr, port, peer);
                self.permissions.grant(addr, &peer.ip, now);
                proof {
                    let goal = old(self)@.port_bound(*addr, port, *peer, now);
                    lemma_port_bound_keeps_inv(old(self)@, *addr, port, *peer, now);
                }
                Some(())
            },
            None => None,
        }
    }

    /// The peer toward which the client at `addr` relays through its first
    /// port, where that peer's port is `peer_port`.
    pub fn get_port_bound(&self, addr: &Address, peer_port: u16) -> (peer: Option<Address>)
        requires
            self.wf(),
        ensures
            peer == match self@.bound_peer(*addr) {
                Some(p) => if p.port == peer_port {
                    Some(p)
                } else {
                    None
                },
                None => None,
            },
    {
        match self.nodes.first_port(addr) {
            Some(port) => match self.ports.lease(port) {
                Some(lease) => match lease.peer {
                    Some(p) => if p.port == peer_port {
                        Some(p)
                    } else {
                        None
                    },
                    None => None,
                },
                None => None,
            },
            None => None,
        }
    }

    /// The port through which the client at `addr` relays toward `peer`,
    /// the lowest if there are several.
    pub fn get_bound_port(&self, addr: &Address, peer: &Address) -> (port: Option<u16>)
        requires
            self.wf(),
        ensures
            match port {
                Some(p) => self@.ports.relays(*addr, p, *peer) && forall|other: u16|
                    self@.ports.relays(*addr, other, *peer) ==> p <= other,
                None => forall|p: u16| !self@.ports.relays(*addr, p, *peer),
            },
    {
        self.ports.resolve(addr, peer)
    }

    /// The lease on the relayed port `port`, if it is held.
    pub fn get_lease(&self, port: u16) -> (found: Option<Lease>)
        requires
            self.wf(),
        ensures
            found == if self@.ports.leases.contains_key(port) {
                Some(self@.ports.leases[port])
            } else {
                None
            },
    {
        self.ports.lease(port)
    }

    /// No peer stands behind two channels of one client, and every bound
    /// number is one that can be bound.
    pub proof fn lemma_one_peer_one_channel(&self)
        requires
            self.wf(),
        ensures
            crate::router::channels::channels_wf(self@.channels),
    {
        self.channels.law_one_peer_one_channel();
    }

    /// The client that holds the relayed port `port` and the peer it
    /// relays toward, where both are recorded.
    pub fn get_port_owner(&self, port: u16) -> (found: Option<(Address, Address)>)
        requires
            self.wf(),
        ensures
            match found {
                Some((owner, peer)) => self@.ports.relays(owner, port, peer),
                None => forall|owner: Address, peer: Address| !self@.ports.relays(owner, port, peer),
            },
    {
        self.ports.resolve_port(port)
    }
}

/// Binding a port that the client holds keeps the table in order.
proof fn lemma_port_bound_keeps_inv(
    table: RouterView,
    addr: Address,
    port: u16,
    peer: Address,
    now: u128,
)
    requires
        table.inv(),
        table.nodes.contains_key(addr),
        table.ports.holds(addr, port),
    ensures
        table.port_bound(addr, port, peer, now).inv(),
{
    let goal = table.port_bound(addr, port, peer, now);
    assert forall|a: Address, p: u16|
        goal.nodes.contains_key(a) && #[trigger] goal.nodes[a].ports.contains(
            p,
        ) implies goal.ports.holds(a, p) by {
        assert(table.ports.holds(a, p));
    }
    assert forall|a: Address| #[trigger] goal.refers_to(a) implies goal.nodes.contains_key(a) by {
        if a != addr {
            if exists|p: u16| goal.ports.holds(a, p) {
                let p = choose|p: u16| goal.ports.holds(a, p);
                assert(table.ports.holds(a, p));
            } else if exists|number: u16| goal.channels.contains_key((a, number)) {
            } else {
                let ip = choose|ip: IpAddress| goal.permissions.contains_key((a, ip));
                assert(table.permissions.contains_key((a, ip)));
            }
            assert(table.refers_to(a));
        }
    }
}

/// The addresses that stand in `list` before the place `upto`.
pub open spec fn listed_before(list: Seq<Address>, upto: int) -> Set<Address> {
    Set::new(|addr: Address| exists|k: int| 0 <= k < upto && #[trigger] list[k] == addr)
}

/// Binding a channel for a client with a session keeps the table in
/// order.
proof fn lemma_channel_bound_keeps_inv(
    table: RouterView,
    addr: Address,
    number: u16,
    peer: Address,
    now: u128,
)
    requires
        table.inv(),
        table.nodes.contains_key(addr),
    ensures
        table.channel_bound(addr, number, peer, now).inv(),
{
    let goal = table.channel_bound(addr, number, peer, now);
    let node = table.nodes[addr];
    assert forall|a: Address, c: u16|
        goal.nodes.contains_key(a) && #[trigger] goal.nodes[a].channels.contains(
            c,
        ) implies goal.channels.contains_key((a, c)) by {
        if a == addr {
            if c != number {
                let after = node.with_channel(number).channels;
                let i = choose|i: int| 0 <= i < after.len() && after[i] == c;
                assert(node.channels[i] == c);
                assert(node.channels.contains(c));
            }
        } else {
            assert(table.nodes[a].channels.contains(c));
        }
    }
    assert forall|a: Address, p: u16|
        goal.nodes.contains_key(a) && #[trigger] goal.nodes[a].ports.contains(
            p,
        ) implies goal.ports.holds(a, p) by {
        assert(table.nodes[a].ports.contains(p));
    }
    assert forall|owner: Address, c: u16| #[trigger]
        goal.channels.contains_key((owner, c)) implies goal.nodes.contains_key(owner)
        && goal.nodes[owner].channels.contains(c) by {
        if owner == addr {
            if c == number {
                if !node.channels.contains(number) {
                    assert(node.channels.push(number)[node.channels.len() as int] == number);
                }
            } else {
                assert(table.channels.contains_key((owner, c)));
                let i = choose|i: int| 0 <= i < node.channels.len() && node.channels[i] == c;
                assert(node.with_channel(number).channels[i] == c);
            }
        } else {
            assert(table.channels.contains_key((owner, c)));
        }
    }
    assert forall|a: Address| #[trigger] goal.refers_to(a) implies goal.nodes.contains_key(a) by {
        if a != addr {
            if exists|p: u16| goal.ports.holds(a, p) {
            } else if exists|c: u16| goal.channels.contains_key((a, c)) {
                let c = choose|c: u16| goal.channels.contains_key((a, c));
                assert(table.channels.contains_key((a, c)));
            } else {
                let ip = choose|ip: IpAddress| goal.permissions.contains_key((a, ip));
                assert(table.permissions.contains_key((a, ip)));
            }
            assert(table.refers_to(a));
        }
    }
}

impl Router {
    /// Binds the channel `number` of the client at `addr` to `peer`, names
    /// the channel in its session, and permits it to send to the peer's IP
    /// address from the reading `now` on. Refused, with nothing changed,
    /// where the client has no session, where the number or the peer is
    /// bound otherwise, and where the number cannot be bound.
    pub fn bind_channel(&mut self, addr: &Address, number: u16, peer: &Address, now: u128) -> (done:
        Result<(), BindError>)
        requires
            old(self).wf(),
        ensures
            final(self).wf(),
            final(self).permission_lifetime() == old(self).permission_lifetime(),
            done == bind_channel_verdict(old(self)@, *addr, number, *peer),
            final(self)@ == if done is Ok {
                old(self)@.channel_bound(*addr, number, *peer, now)
            } else {
                old(self)@
            },
    {
        if !self.nodes.contains(addr) {
            return Err(BindError::NoSession);
        }
        match self.channels.bind(addr, number, peer) {
            Ok(_) => {
                self.nodes.push_channel(addr, number);
                self.permissions.grant(addr, &peer.ip, now);
                proof {
                    lemma_channel_bound_keeps_inv(old(self)@, *addr, number, *peer, now);
                }
                Ok(())
            },
            Err(ChannelError::InUse) => Err(BindError::InUse),
            Err(ChannelError::OutOfRange) => Err(BindError::OutOfRange),
        }
    }

    /// The peer behind the channel `number` of the client at `addr`, if it
    /// is bound.
    pub fn get_channel_bound(&self, addr: &Address, number: u16) -> (peer: Option<Address>)
        requires
            self.wf(),
        ensures
            peer == if self@.channels.contains_key((*addr, number)) {
                Some(self@.channels[(*addr, number)])
            } else {
                None
            },
    {
        self.channels.peer_of(addr, number)
    }

    /// The channel of the client at `addr` behind which `peer` stands, if
    /// there is one.
    pub fn get_bound_channel(&self, addr: &Address, peer: &Address) -> (number: Option<u16>)
        requires
            self.wf(),
        ensures
            number.is_some() == peer_is_bound(self@.channels, *addr, *peer),
            number matches Some(n) ==> self@.channels.contains_key((*addr, n))
                && self@.channels[(*addr, n)] == *peer,
    {
        self.channels.channel_of(addr, peer)
    }

    /// Whether the client at `addr` may send to `ip` at the reading `now`.
    pub fn check_permission(&self, addr: &Address, ip: &IpAddress, now: u128) -> (allowed: bool)
        requires
            self.wf(),
        ensures
            allowed == (self@.permissions.contains_key((*addr, *ip)) && !lapsed(
                self@.permissions[(*addr, *ip)],
                now,
                self.permission_lifetime(),
            )),
    {
        self.permissions.check(addr, ip, now)
    }

    /// Drops every permission that has run out at the reading `now`.
    pub fn sweep_permissions(&mut self, now: u128)
        requires
            old(self).wf(),
        ensures
            final(self).wf(),
            final(self).permission_lifetime() == old(self).permission_lifetime(),
            final(self)@ == (RouterView {
                permissions: swept(old(self)@.permissions, now, old(self).permission_lifetime()),
                ..old(self)@
            }),
    {
        self.permissions.sweep(now);
        proof {
            assert forall|a: Address| #[trigger] self@.refers_to(a) implies self@.nodes.contains_key(
                a,
            ) by {
                if exists|p: u16| self@.ports.holds(a, p) {
                } else if exists|c: u16| self@.channels.contains_key((a, c)) {
                } else {
                    let ip = choose|ip: IpAddress| self@.permissions.contains_key((a, ip));
                    assert(old(self)@.permissions.contains_key((a, ip)));
                }
                assert(old(self)@.refers_to(a));
            }
        }
    }

    /// The index names the users in ascending order, none without an
    /// address, and lists under each user name exactly the addresses whose
    /// session runs under that name.
    pub proof fn lemma_users(&self, name: Seq<char>)
        requires
            self.wf(),
        ensures
            crate::router::users::names_ascend(self.users()),
            crate::router::users::none_empty(self.users()),
            crate::router::users::addrs_under(self.users(), name) == crate::router::nodes::holders(
                self@.nodes,
                name,
            ),
    {
        assert(self.nodes.addrs_of(name) == crate::router::nodes::holders(self.nodes@, name));
    }

    /// Up to `limit` users from the `skip`-th on, in ascending order of
    /// their names, each with the addresses of its sessions in no
    /// particular order.
    pub fn get_users(&self, skip: usize, limit: usize) -> (users: Vec<(String, Vec<Address>)>)
        requires
            self.wf(),
        ensures
            users@.len() == crate::router::users::page_len(
                self.users().len(),
                skip as nat,
                limit as nat,
            ),
            forall|i: int|
                0 <= i < users@.len() ==> {
                    &&& (#[trigger] users@[i]).0@ == self.users()[skip + i].0
                    &&& users@[i].1@.no_duplicates()
                    &&& forall|addr: Address|
                        users@[i].1@.contains(addr) <==> self.users()[skip + i].1.contains(addr)
                },
    {
        self.nodes.get_users(skip, limit)
    }

    /// The session table, for reading.
    pub fn nodes(&self) -> (nodes: &Nodes)
        ensures
            nodes@ == self@.nodes,
    {
        &self.nodes
    }

    /// The session of the client at `addr`, if it has one.
    pub fn get_node(&self, addr: &Address) -> (node: Option<Node>)
        ensures
            node.is_some() == self@.nodes.contains_key(*addr),
            node matches Some(n) ==> n@ == self@.nodes[*addr],
    {
        self.nodes.get_node(addr)
    }

    /// The key of the session of the client at `addr`, if it has one.
    pub fn get_secret(&self, addr: &Address) -> (secret: Option<std::sync::Arc<[u8; 16]>>)
        ensures
            secret.is_some() == self@.nodes.contains_key(*addr),
            secret matches Some(key) ==> *key == self@.nodes[*addr].secret,
    {
        self.nodes.get_secret(addr)
    }

    /// The addresses whose session runs under the user name `name`, each
    /// once, in no particular order.
    pub fn get_node_addrs(&self, name: &str) -> (addrs: Vec<Address>)
        requires
            self.wf(),
        ensures
            addrs@.no_duplicates(),
            forall|addr: Address|
                addrs@.contains(addr) <==> self@.nodes.contains_key(addr)
                    && self@.nodes[addr].username == name@,
    {
        self.nodes.get_addrs(name)
    }

    /// The addresses whose session is dead at the reading `now`, each once,
    /// in no particular order.
    pub fn get_deaths(&self, now: u128) -> (dead: Vec<Address>)
        requires
            self.wf(),
        ensures
            dead@.no_duplicates(),
            forall|addr: Address| dead@.contains(addr) <==> deaths(self@.nodes, now).contains(addr),
    {
        self.nodes.get_deaths(now)
    }

    /// Takes out every client whose session is dead at the reading `now`,
    /// with all that is held in its name, and hands back their addresses.
    pub fn reap(&mut self, now: u128) -> (dead: Vec<Address>)
        requires
            old(self).wf(),
        ensures
            final(self).wf(),
            final(self).permission_lifetime() == old(self).permission_lifetime(),
            dead@.no_duplicates(),
            forall|addr: Address|
                dead@.contains(addr) <==> deaths(old(self)@.nodes, now).contains(addr),
            final(self)@ == old(self)@.without(deaths(old(self)@.nodes, now)),
    {
        let dead = self.nodes.get_deaths(now);
        let mut i: usize = 0;
        assert(self@ =~= old(self)@.without(listed_before(dead@, 0))) by {
            let goal = old(self)@.without(listed_before(dead@, 0));
            assert(self@.nodes =~= goal.nodes);
            assert(self@.ports.leases =~= goal.ports.leases);
            assert(self@.channels =~= goal.channels);
            assert(self@.permissions =~= goal.permissions);
        }
        while i < dead.len()
            invariant
                i <= dead@.len(),
                self.wf(),
                self.permission_lifetime() == old(self).permission_lifetime(),
                self@ == old(self)@.without(listed_before(dead@, i as int)),
            decreases dead.len() - i,
        {
            let ghost done = listed_before(dead@, i as int);
            self.remove(&dead[i]);
            proof {
                let next = listed_before(dead@, i + 1);
                assert forall|a: Address| next.contains(a) == done.insert(dead@[i as int]).contains(
                    a,
                ) by {
                    if done.contains(a) {
                        let k = choose|k: int| 0 <= k < i && #[trigger] dead@[k] == a;
                        assert(0 <= k < i + 1 && dead@[k] == a);
                    }
                }
                assert(next =~= done.insert(dead@[i as int]));
                let goal = old(self)@.without(next);
                assert(self@.nodes =~= goal.nodes);
                assert(self@.ports.leases =~= goal.ports.leases);
                assert(self@.channels =~= goal.channels);
                assert(self@.permissions =~= goal.permissions);
            }
            i += 1;
        }
        proof {
            assert forall|a: Address| listed_before(dead@, dead@.len() as int).contains(a)
                == deaths(old(self)@.nodes, now).contains(a) by {
                if dead@.contains(a) {
                    let k = choose|k: int| 0 <= k < dead@.len() && dead@[k] == a;
                    assert(listed_before(dead@, dead@.len() as int).contains(a));
                }
            }
            assert(listed_before(dead@, dead@.len() as int) =~= deaths(old(self)@.nodes, now));
        }
        dead
    }
}

} // verus!
