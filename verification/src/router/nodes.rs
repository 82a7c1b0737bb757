//! Sessions, one per client address, and the index from user name to the
//! addresses that hold a session under it.

use crate::address::from_keys;
use crate::address::is_key;
use crate::address::key_of;
use crate::address::lemma_keys;
use crate::address::AddrKey;
use crate::address::Address;
use crate::clock::elapsed_secs;
use crate::clock::has_elapsed;
use crate::router::ports::capacity;
use crate::router::tables::sessions;
use crate::router::tables::sessions_addresses;
use crate::router::tables::sessions_get;
use crate::router::tables::sessions_get_mut;
use crate::router::tables::sessions_insert;
use crate::router::tables::sessions_new;
use crate::router::tables::sessions_remove;
use crate::router::tables::SessionMap;
use crate::router::users::UserIndex;
use crate::router::users::UserIndexView;
use crate::router::users::addrs_under;
use crate::router::users::names_ascend;
use crate::router::users::none_empty;
use crate::router::users::page_len;
use std::sync::Arc;
use vstd::prelude::*;

verus! {

/// Seconds a session stays valid when nothing asks for another lifetime.
pub const DEFAULT_LIFETIME: u64 = 600;

/// `Arc::clone` on a shared key: another handle to the same sixteen bytes.
#[verifier::external_body]
fn share_secret(secret: &Arc<[u8; 16]>) -> (shared: Arc<[u8; 16]>)
    ensures
        shared == secret,
{
    Arc::clone(secret)
}

/// The session of one client address.
pub struct Node {
    /// Tag of the relay instance the session belongs to.
    pub mark: u8,
    /// Channel numbers bound by the session, in the order they were bound.
    pub channels: Vec<u16>,
    /// Relayed ports allocated to the session, in the order they were allocated.
    pub ports: Vec<u16>,
    /// Clock reading taken when the lifetime was last set.
    pub timer: u128,
    /// Seconds of validity counted from `timer`.
    pub lifetime: u64,
    /// Key derived from the long-term credential.
    pub secret: Arc<[u8; 16]>,
    pub username: String,
    pub password: String,
}

/// What a session is, as mathematical values.
pub struct NodeView {
    pub mark: u8,
    pub channels: Seq<u16>,
    pub ports: Seq<u16>,
    pub timer: u128,
    pub lifetime: u64,
    pub secret: [u8; 16],
    pub username: Seq<char>,
    pub password: Seq<char>,
}

impl NodeView {
    /// A session is dead once as many whole seconds as its lifetime have
    /// passed since its timer; with a lifetime of zero it is dead at once.
    pub open spec fn is_dead_at(self, now: u128) -> bool {
        elapsed_secs(self.timer, now) >= self.lifetime
    }

    /// Neither list names anything twice.
    pub open spec fn wf(self) -> bool {
        self.ports.no_duplicates() && self.channels.no_duplicates()
    }

    /// The same session with its lifetime set to `delay` at the reading `now`.
    pub open spec fn refreshed(self, delay: u32, now: u128) -> NodeView {
        NodeView { lifetime: delay as u64, timer: now, ..self }
    }

    /// The same session with `port` added behind its ports, unless it is
    /// among them already.
    pub open spec fn with_port(self, port: u16) -> NodeView {
        if self.ports.contains(port) {
            self
        } else {
            NodeView { ports: self.ports.push(port), ..self }
        }
    }

    /// The same session with `channel` added behind its channels, unless it
    /// is among them already.
    pub open spec fn with_channel(self, channel: u16) -> NodeView {
        if self.channels.contains(channel) {
            self
        } else {
            NodeView { channels: self.channels.push(channel), ..self }
        }
    }
}

/// The session that `Node::new` creates at the reading `now`.
pub open spec fn fresh_node(
    mark: u8,
    username: Seq<char>,
    secret: [u8; 16],
    password: Seq<char>,
    now: u128,
) -> NodeView {
    NodeView {
        mark,
        channels: Seq::empty(),
        ports: Seq::empty(),
        timer: now,
        lifetime: DEFAULT_LIFETIME,
        secret,
        username,
        password,
    }
}

impl View for Node {
    type V = NodeView;

    open spec fn view(&self) -> NodeView {
        NodeView {
            mark: self.mark,
            channels: self.channels@,
            ports: self.ports@,
            timer: self.timer,
            lifetime: self.lifetime,
            secret: *self.secret,
            username: self.username@,
            password: self.password@,
        }
    }
}

/// Whether `list` holds `x`.
fn list_contains(list: &Vec<u16>, x: u16) -> (found: bool)
    ensures
        found == list@.contains(x),
{
    let mut i: usize = 0;
    while i < list.len()
        invariant
            i <= list.len(),
            forall|j: int| 0 <= j < i ==> list@[j] != x,
        decreases list.len() - i,
    {
        if list[i] == x {
            return true;
        }
        i += 1;
    }
    false
}

impl Node {
    /// Creates the session of a client that has just been admitted at the
    /// reading `now`: no ports, no channels, the default lifetime.
    pub fn new(mark: u8, username: String, secret: [u8; 16], password: String, now: u128) -> (node:
        Node)
        ensures
            node@ == fresh_node(mark, username@, secret, password@, now),
            node@.wf(),
    {
        Node {
            channels: Vec::with_capacity(5),
            ports: Vec::with_capacity(10),
            secret: Arc::new(secret),
            timer: now,
            lifetime: DEFAULT_LIFETIME,
            username,
            password,
            mark,
        }
    }

    /// Sets the lifetime to `delay` seconds counted from the reading `now`.
    /// With a `delay` of zero the session is dead from `now` on.
    pub fn set_lifetime(&mut self, delay: u32, now: u128)
        ensures
            final(self)@ == old(self)@.refreshed(delay, now),
    {
        self.lifetime = delay as u64;
        self.timer = now;
    }

    /// Whether the session is dead at the reading `now`.
    pub fn is_death(&self, now: u128) -> (dead: bool)
        ensures
            dead == self@.is_dead_at(now),
    {
        has_elapsed(self.timer, now, self.lifetime)
    }

    /// The key of the session.
    pub fn get_secret(&self) -> (secret: Arc<[u8; 16]>)
        ensures
            *secret == self@.secret,
    {
        share_secret(&self.secret)
    }

    /// Records `port` as allocated to the session; a port that is recorded
    /// already is not recorded twice.
    pub fn push_port(&mut self, port: u16)
        ensures
            final(self)@ == old(self)@.with_port(port),
            old(self)@.wf() ==> final(self)@.wf(),
    {
        if !list_contains(&self.ports, port) {
            self.ports.push(port);
        }
    }

    /// Records `channel` as bound by the session; a channel that is recorded
    /// already is not recorded twice.
    pub fn push_channel(&mut self, channel: u16)
        ensures
            final(self)@ == old(self)@.with_channel(channel),
            old(self)@.wf() ==> final(self)@.wf(),
    {
        if !list_contains(&self.channels, channel) {
            self.channels.push(channel);
        }
    }
}

impl Clone for Node {
    /// A second record of the same session, sharing its key.
    fn clone(&self) -> (copy: Node)
        ensures
            copy@ == self@,
    {
        Node {
            mark: self.mark,
            channels: self.channels.clone(),
            ports: self.ports.clone(),
            timer: self.timer,
            lifetime: self.lifetime,
            secret: share_secret(&self.secret),
            username: self.username.clone(),
            password: self.password.clone(),
        }
    }
}

/// The addresses whose session runs under the user name `name`.
pub open spec fn holders(nodes: Map<Address, NodeView>, name: Seq<char>) -> Set<Address> {
    Set::new(|addr: Address| nodes.contains_key(addr) && nodes[addr].username == name)
}

/// The addresses whose session is dead at the reading `now`.
pub open spec fn deaths(nodes: Map<Address, NodeView>, now: u128) -> Set<Address> {
    Set::new(|addr: Address| nodes.contains_key(addr) && nodes[addr].is_dead_at(now))
}

/// The port that was allocated first to the session at `addr`.
pub open spec fn first_port_of(nodes: Map<Address, NodeView>, addr: Address) -> Option<u16> {
    if nodes.contains_key(addr) && nodes[addr].ports.len() > 0 {
        Some(nodes[addr].ports[0])
    } else {
        None
    }
}

/// The session table: every session by the address of its client, with the
/// index from user name to addresses kept in step.
pub struct Nodes {
    map: SessionMap,
    addrs: UserIndex,
}

impl Default for Nodes {
    /// A table without sessions.
    fn default() -> (table: Nodes)
        ensures
            table.wf(),
            table@ == Map::<Address, NodeView>::empty(),
            table.users().len() == 0,
    {
        Nodes::new()
    }
}

impl View for Nodes {
    type V = Map<Address, NodeView>;

    closed spec fn view(&self) -> Map<Address, NodeView> {
        Map::new(
            |addr: Address| sessions(self.map).contains_key(key_of(addr)),
            |addr: Address| sessions(self.map)[key_of(addr)]@,
        )
    }
}

impl Nodes {
    /// The index of the table: the user names in their order, each with its
    /// addresses.
    pub closed spec fn users(&self) -> UserIndexView {
        self.addrs@
    }

    /// The addresses that the index lists under `name`.
    pub open spec fn addrs_of(&self, name: Seq<char>) -> Set<Address> {
        addrs_under(self.users(), name)
    }

    /// The hash collections hold nothing but the numbers of addresses.
    pub closed spec fn keys_wf(&self) -> bool {
        &&& self.addrs.keys_wf()
        &&& forall|key: AddrKey| sessions(self.map).contains_key(key) ==> is_key(key)
    }

    /// What holds of the table between any two operations: the index lists
    /// under each user name exactly the addresses whose session runs under
    /// it, in ascending order of the names, and no session names a port or
    /// a channel twice.
    pub open spec fn wf(&self) -> bool {
        &&& self.keys_wf()
        &&& names_ascend(self.users())
        &&& none_empty(self.users())
        &&& forall|name: Seq<char>| #[trigger] self.addrs_of(name) == holders(self@, name)
        &&& forall|addr: Address| self@.contains_key(addr) ==> (#[trigger] self@[addr]).wf()
    }

    /// A table without sessions.
    pub fn new() -> (table: Nodes)
        ensures
            table.wf(),
            table@ == Map::<Address, NodeView>::empty(),
            table.users().len() == 0,
    {
        let table = Nodes { addrs: UserIndex::new(), map: sessions_new(capacity()) };
        assert(table@ =~= Map::<Address, NodeView>::empty());
        assert forall|name: Seq<char>| #[trigger]
            table.addrs_of(name) == holders(table@, name) by {
            assert(table.addrs_of(name) =~= holders(table@, name));
        }
        table
    }
}

impl Nodes {
    /// The session of the client at `addr`, if it has one.
    pub fn get_node(&self, addr: &Address) -> (node: Option<Node>)
        ensures
            node.is_some() == self@.contains_key(*addr),
            node matches Some(n) ==> n@ == self@[*addr],
    {
        match sessions_get(&self.map, &addr.key()) {
            Some(node) => Some(node.clone()),
            None => None,
        }
    }

    /// Whether the client at `addr` has a session.
    pub fn contains(&self, addr: &Address) -> (held: bool)
        ensures
            held == self@.contains_key(*addr),
    {
        sessions_get(&self.map, &addr.key()).is_some()
    }

    /// The port that was allocated first to the session of the client at
    /// `addr`, if it has a session with a port.
    pub fn first_port(&self, addr: &Address) -> (port: Option<u16>)
        ensures
            port == first_port_of(self@, *addr),
    {
        match sessions_get(&self.map, &addr.key()) {
            Some(node) => if node.ports.len() > 0 {
                Some(node.ports[0])
            } else {
                None
            },
            None => None,
        }
    }

    /// The key of the session of the client at `addr`, if it has one.
    pub fn get_secret(&self, addr: &Address) -> (secret: Option<Arc<[u8; 16]>>)
        ensures
            secret.is_some() == self@.contains_key(*addr),
            secret matches Some(key) ==> *key == self@[*addr].secret,
    {
        match sessions_get(&self.map, &addr.key()) {
            Some(node) => Some(node.get_secret()),
            None => None,
        }
    }

    /// Opens a session for the client at `addr` at the reading `now`,
    /// in place of any session it had, and hands back the key.
    pub fn insert(
        &mut self,
        mark: u8,
        addr: &Address,
        username: &str,
        secret: [u8; 16],
        password: &str,
        now: u128,
    ) -> (key: Option<Arc<[u8; 16]>>)
        requires
            old(self).wf(),
        ensures
            final(self).wf(),
            final(self)@ == old(self)@.insert(
                *addr,
                fresh_node(mark, username@, secret, password@, now),
            ),
            key matches Some(k) && *k == secret,
    {
        let node = Node::new(mark, username.to_owned(), secret, password.to_owned(), now);
        let key = node.get_secret();
        let ghost fresh = node@;
        let prev = sessions_insert(&mut self.map, addr.key(), node);
        proof {
            assert forall|a: Address| self@.contains_key(a) == old(self)@.insert(
                *addr,
                fresh,
            ).contains_key(a) && (self@.contains_key(a) ==> self@[a] == old(self)@.insert(
                *addr,
                fresh,
            )[a]) by {
                lemma_keys(a, key_of(*addr));
                lemma_keys(*addr, key_of(a));
            }
        }
        assert(self@ =~= old(self)@.insert(*addr, fresh));
        let ghost index0 = self.addrs;
        match prev {
            Some(old_node) => {
                assert(old_node@ == old(self)@[*addr]);
                self.addrs.drop(old_node.username.as_str(), addr);
            },
            None => {},
        }
        let ghost index1 = self.addrs;
        self.addrs.add(username, *addr);
        assert forall|name: Seq<char>| #[trigger] self.addrs_of(name) == holders(self@, name) by {
            assert(old(self).addrs_of(name) == holders(old(self)@, name));
            assert(index0.addrs_of(name) == old(self).addrs_of(name));
            if old(self)@.contains_key(*addr) {
                assert(index1.addrs_of(name) == if name == old(self)@[*addr].username {
                    index0.addrs_of(name).remove(*addr)
                } else {
                    index0.addrs_of(name)
                });
            } else {
                assert(index1.addrs_of(name) == index0.addrs_of(name));
            }
            assert(self.addrs.addrs_of(name) == if name == username@ {
                index1.addrs_of(username@).insert(*addr)
            } else {
                index1.addrs_of(name)
            });
            assert(self.addrs_of(name) == self.addrs.addrs_of(name));
            assert(self.addrs_of(name) =~= holders(self@, name));
        }
        Some(key)
    }

    /// Closes the session of the client at `addr` and hands it back, if
    /// there is one.
    pub fn remove(&mut self, addr: &Address) -> (node: Option<Node>)
        requires
            old(self).wf(),
        ensures
            final(self).wf(),
            final(self)@ == old(self)@.remove(*addr),
            node.is_some() == old(self)@.contains_key(*addr),
            node matches Some(n) ==> n@ == old(self)@[*addr],
    {
        let prev = sessions_remove(&mut self.map, &addr.key());
        proof {
            assert forall|a: Address| self@.contains_key(a) == old(self)@.remove(
                *addr,
            ).contains_key(a) && (self@.contains_key(a) ==> self@[a] == old(self)@.remove(
                *addr,
            )[a]) by {
                lemma_keys(a, key_of(*addr));
                lemma_keys(*addr, key_of(a));
            }
        }
        assert(self@ =~= old(self)@.remove(*addr));
        let ghost index0 = self.addrs;
        match prev {
            Some(node) => {
                assert(node@ == old(self)@[*addr]);
                self.addrs.drop(node.username.as_str(), addr);
                assert forall|name: Seq<char>| #[trigger]
                    self.addrs_of(name) == holders(self@, name) by {
                    assert(old(self).addrs_of(name) == holders(old(self)@, name));
                    assert(index0.addrs_of(name) == old(self).addrs_of(name));
                    assert(self.addrs.addrs_of(name) == if name == node@.username {
                        index0.addrs_of(name).remove(*addr)
                    } else {
                        index0.addrs_of(name)
                    });
                    assert(self.addrs_of(name) == self.addrs.addrs_of(name));
                    assert(self.addrs_of(name) =~= holders(self@, name));
                }
                Some(node)
            },
            None => {
                assert forall|name: Seq<char>| #[trigger]
                    self.addrs_of(name) == holders(self@, name) by {
                    assert(old(self).addrs_of(name) == holders(old(self)@, name));
                    assert(self.addrs_of(name) =~= holders(self@, name));
                }
                None
            },
        }
    }
}

impl Nodes {
    /// Records `port` with the session of the client at `addr`; `None`
    /// where it has no session.
    pub fn push_port(&mut self, addr: &Address, port: u16) -> (done: Option<()>)
        requires
            old(self).wf(),
        ensures
            final(self).wf(),
            done.is_some() == old(self)@.contains_key(*addr),
            final(self)@ == if old(self)@.contains_key(*addr) {
                old(self)@.insert(*addr, old(self)@[*addr].with_port(port))
            } else {
                old(self)@
            },
    {
        let done = match sessions_get_mut(&mut self.map, &addr.key()) {
            Some(node) => {
                node.push_port(port);
                Some(())
            },
            None => None,
        };
        proof {
            assert(old(self)@.contains_key(*addr) ==> old(self)@[*addr].wf());
            self.lemma_session_changed(*old(self), *addr);
        }
        done
    }

    /// Records `channel` with the session of the client at `addr`; `None`
    /// where it has no session.
    pub fn push_channel(&mut self, addr: &Address, channel: u16) -> (done: Option<()>)
        requires
            old(self).wf(),
        ensures
            final(self).wf(),
            done.is_some() == old(self)@.contains_key(*addr),
            final(self)@ == if old(self)@.contains_key(*addr) {
                old(self)@.insert(*addr, old(self)@[*addr].with_channel(channel))
            } else {
                old(self)@
            },
    {
        let done = match sessions_get_mut(&mut self.map, &addr.key()) {
            Some(node) => {
                node.push_channel(channel);
                Some(())
            },
            None => None,
        };
        proof {
            assert(old(self)@.contains_key(*addr) ==> old(self)@[*addr].wf());
            self.lemma_session_changed(*old(self), *addr);
        }
        done
    }

    /// Sets the lifetime of the session of the client at `addr` to `delay`
    /// seconds counted from the reading `now`; `None` where it has no
    /// session.
    pub fn set_lifetime(&mut self, addr: &Address, delay: u32, now: u128) -> (done: Option<()>)
        requires
            old(self).wf(),
        ensures
            final(self).wf(),
            done.is_some() == old(self)@.contains_key(*addr),
            final(self)@ == if old(self)@.contains_key(*addr) {
                old(self)@.insert(*addr, old(self)@[*addr].refreshed(delay, now))
            } else {
                old(self)@
            },
    {
        let done = match sessions_get_mut(&mut self.map, &addr.key()) {
            Some(node) => {
                node.set_lifetime(delay, now);
                Some(())
            },
            None => None,
        };
        proof {
            assert(old(self)@.contains_key(*addr) ==> old(self)@[*addr].wf());
            self.lemma_session_changed(*old(self), *addr);
        }
        done
    }

    /// A table that differs from a well-formed one in the session at one
    /// address only, which kept its user name and its own order, is
    /// well-formed, and is the other with that session put in.
    proof fn lemma_session_changed(&self, before: Nodes, addr: Address)
        requires
            before.wf(),
            self.addrs == before.addrs,
            sessions(self.map).dom() =~= sessions(before.map).dom(),
            forall|other: AddrKey|
                other != key_of(addr) && sessions(before.map).contains_key(other) ==> sessions(
                    self.map,
                )[other] == sessions(before.map)[other],
            sessions(before.map).contains_key(key_of(addr)) ==> sessions(self.map)[key_of(
                addr,
            )]@.username == sessions(before.map)[key_of(addr)]@.username && sessions(
                self.map,
            )[key_of(addr)]@.wf(),
        ensures
            self.wf(),
            self@ == if before@.contains_key(addr) {
                before@.insert(addr, sessions(self.map)[key_of(addr)]@)
            } else {
                before@
            },
    {
        assert forall|a: Address| a != addr implies key_of(a) != key_of(addr) by {
            lemma_keys(a, key_of(addr));
            lemma_keys(addr, key_of(a));
        }
        if before@.contains_key(addr) {
            assert(self@ =~= before@.insert(addr, sessions(self.map)[key_of(addr)]@));
        } else {
            assert(self@ =~= before@);
        }
        assert forall|name: Seq<char>| #[trigger] self.addrs_of(name) == holders(self@, name) by {
            assert(before.addrs_of(name) == holders(before@, name));
            assert(holders(self@, name) =~= holders(before@, name));
        }
    }
}

impl Nodes {
    /// The addresses whose session runs under the user name `name`, each
    /// once, in no particular order.
    pub fn get_addrs(&self, name: &str) -> (addrs: Vec<Address>)
        requires
            self.wf(),
        ensures
            addrs@.no_duplicates(),
            forall|addr: Address|
                addrs@.contains(addr) <==> self@.contains_key(addr) && self@[addr].username
                    == name@,
    {
        let addrs = self.addrs.list(name);
        assert(self.addrs_of(name@) == holders(self@, name@));
        addrs
    }

    /// Up to `limit` users from the `skip`-th on, in ascending order of
    /// their names, each with the addresses of its sessions in no
    /// particular order.
    pub fn get_users(&self, skip: usize, limit: usize) -> (users: Vec<(String, Vec<Address>)>)
        requires
            self.wf(),
        ensures
            users@.len() == page_len(self.users().len(), skip as nat, limit as nat),
            forall|i: int|
                0 <= i < users@.len() ==> {
                    &&& (#[trigger] users@[i]).0@ == self.users()[skip + i].0
                    &&& users@[i].1@.no_duplicates()
                    &&& forall|addr: Address|
                        users@[i].1@.contains(addr) <==> self.users()[skip + i].1.contains(addr)
                },
    {
        self.addrs.page(skip, limit)
    }

    /// The addresses whose session is dead at the reading `now`, each once,
    /// in no particular order.
    pub fn get_deaths(&self, now: u128) -> (dead: Vec<Address>)
        requires
            self.wf(),
        ensures
            dead@.no_duplicates(),
            forall|addr: Address| dead@.contains(addr) <==> deaths(self@, now).contains(addr),
    {
        let keys = sessions_addresses(&self.map);
        assert forall|i: int| 0 <= i < keys@.len() implies is_key(#[trigger] keys@[i]) by {
            assert(keys@.contains(keys@[i]));
        }
        let addrs = from_keys(&keys);
        let mut dead: Vec<Address> = Vec::new();
        let mut i: usize = 0;
        while i < addrs.len()
            invariant
                i <= addrs.len(),
                addrs@.no_duplicates(),
                forall|addr: Address|
                    addrs@.contains(addr) <==> sessions(self.map).contains_key(key_of(addr)),
                dead@.no_duplicates(),
                forall|k: int|
                    0 <= k < dead@.len() ==> exists|j: int|
                        0 <= j < i && addrs@[j] == #[trigger] dead@[k],
                forall|k: int| 0 <= k < dead@.len() ==> self@[#[trigger] dead@[k]].is_dead_at(now),
                forall|j: int|
                    0 <= j < i && self@[#[trigger] addrs@[j]].is_dead_at(now) ==> dead@.contains(
                        addrs@[j],
                    ),
            decreases addrs.len() - i,
        {
            let addr = addrs[i];
            assert(addrs@.contains(addr));
            match sessions_get(&self.map, &addr.key()) {
                Some(node) => {
                    if node.is_death(now) {
                        let ghost before = dead@;
                        dead.push(addr);
                        assert forall|j: int|
                            0 <= j < i + 1 && self@[#[trigger] addrs@[j]].is_dead_at(
                                now,
                            ) implies dead@.contains(addrs@[j]) by {
                            if j < i {
                                let k = choose|k: int| 0 <= k < before.len() && before[k] == addrs@[j];
                                assert(dead@[k] == addrs@[j]);
                            } else {
                                assert(dead@[before.len() as int] == addr);
                            }
                        }
                    }
                },
                None => {},
            }
            i += 1;
        }
        assert forall|addr: Address| dead@.contains(addr) <==> deaths(self@, now).contains(
            addr,
        ) by {
            if deaths(self@, now).contains(addr) {
                assert(addrs@.contains(addr));
                let j = choose|j: int| 0 <= j < addrs@.len() && addrs@[j] == addr;
                assert(self@[addrs@[j]].is_dead_at(now));
            }
            if dead@.contains(addr) {
                let k = choose|k: int| 0 <= k < dead@.len() && dead@[k] == addr;
                assert(self@[dead@[k]].is_dead_at(now));
                let j = choose|j: int| 0 <= j < i && addrs@[j] == dead@[k];
                assert(addrs@.contains(addr));
            }
        }
        dead
    }
}

} // verus!
