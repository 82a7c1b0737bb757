//! What holds of the routing table whatever was done to it.

use crate::address::Address;
use crate::router::nodes::fresh_node;
use crate::router::nodes::holders;
use crate::router::nodes::NodeView;
use crate::router::nodes::Nodes;
use crate::router::users::addrs_under;
use crate::router::Router;
use crate::router::RouterView;
use vstd::prelude::*;

verus! {

/// Every port that a session names is held, in the port pool, by the
/// client of that session.
pub proof fn law_ports_point_back(router: &Router, addr: Address, port: u16)
    requires
        router.wf(),
        router@.nodes.contains_key(addr),
        router@.nodes[addr].ports.contains(port),
    ensures
        router@.ports.leases.contains_key(port),
        router@.ports.leases[port].owner == addr,
{
    assert(router@.ports.holds(addr, port));
}

/// Every channel that the channel table holds for a client is named by
/// the session of that client.
pub proof fn law_channels_are_listed(router: &Router, owner: Address, number: u16)
    requires
        router.wf(),
        router@.channels.contains_key((owner, number)),
    ensures
        router@.nodes.contains_key(owner),
        router@.nodes[owner].channels.contains(number),
{
}

/// Every channel that a session names is bound, in the channel table, for
/// the client of that session.
pub proof fn law_session_channels_are_bound(router: &Router, addr: Address, number: u16)
    requires
        router.wf(),
        router@.nodes.contains_key(addr),
        router@.nodes[addr].channels.contains(number),
    ensures
        router@.channels.contains_key((addr, number)),
{
}

/// The index lists under each user name exactly the addresses whose
/// session runs under that name.
pub proof fn law_index_is_exact(nodes: &Nodes, name: Seq<char>, addr: Address)
    requires
        nodes.wf(),
    ensures
        nodes.addrs_of(name).contains(addr) <==> nodes@.contains_key(addr) && nodes@[addr].username
            == name,
{
    assert(nodes.addrs_of(name) == holders(nodes@, name));
}

/// The same of the routing table as a whole.
pub proof fn law_router_index_is_exact(router: &Router, name: Seq<char>, addr: Address)
    requires
        router.wf(),
    ensures
        addrs_under(router.users(), name).contains(addr) <==> router@.nodes.contains_key(addr)
            && router@.nodes[addr].username == name,
{
    router.lemma_users(name);
}

/// Once a client has been taken out, it has no session, no port, channel
/// or permission is held in its name, and the index lists it under no
/// user name.
pub proof fn law_remove_leaves_nothing(before: RouterView, after: &Router, addr: Address)
    requires
        after.wf(),
        after@ == before.removed(addr),
    ensures
        !after@.nodes.contains_key(addr),
        forall|port: u16| !after@.ports.holds(addr, port),
        forall|number: u16| !after@.channels.contains_key((addr, number)),
        forall|ip: crate::address::IpAddress| !after@.permissions.contains_key((addr, ip)),
        forall|name: Seq<char>| !addrs_under(after.users(), name).contains(addr),
{
    assert forall|name: Seq<char>| !addrs_under(after.users(), name).contains(addr) by {
        after.lemma_users(name);
    }
}

/// A session that has just been opened is found under its address with
/// the credentials it was opened with, and names no port and no channel.
pub proof fn law_insert_then_get(
    before: Map<Address, NodeView>,
    mark: u8,
    addr: Address,
    username: Seq<char>,
    secret: [u8; 16],
    password: Seq<char>,
    now: u128,
)
    ensures
        ({
            let after = before.insert(addr, fresh_node(mark, username, secret, password, now));
            &&& after.contains_key(addr)
            &&& after[addr].mark == mark
            &&& after[addr].username == username
            &&& after[addr].password == password
            &&& after[addr].secret == secret
            &&& after[addr].ports.len() == 0
            &&& after[addr].channels.len() == 0
        }),
{
}

} // verus!
