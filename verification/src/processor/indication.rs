//! What a client sends toward a peer: Send indications and channel data.

use crate::address::Address;
use crate::processor::message::Effect;
use crate::processor::message::Outcome;
use crate::processor::message::Request;
use crate::processor::message::Route;
use crate::processor::Processor;
use crate::processor::ProcessorView;
use crate::processor::Reach;
use crate::processor::RequestView;
use crate::router::channels::peer_is_bound;
use crate::router::nodes::first_port_of;
use vstd::prelude::*;

verus! {

/// The relayed port from which data of the client at `addr` leaves for
/// `peer` at the reading `now`: its first port, where it may send to the
/// peer's IP address and holds a port.
pub open spec fn sending_port(state: ProcessorView, addr: Address, peer: Address, now: u128)
    -> Option<u16> {
    if state.permits(addr, peer.ip, now) {
        first_port_of(state.router.nodes, addr)
    } else {
        None
    }
}

/// What a Send indication leads to: never an answer; the data goes to the
/// peer where the indication names a peer and carries data and the client
/// may send to that peer; else nothing happens.
pub open spec fn send_outcome(state: ProcessorView, addr: Address, request: RequestView, now: u128)
    -> Outcome {
    let effect = if request.peer is Some && request.has_data {
        let peer = request.peer->Some_0;
        match sending_port(state, addr, peer, now) {
            Some(port) => Some(
                Effect::SendData { port, peer, from: addr, route: state.route_of(peer) },
            ),
            None => None,
        }
    } else {
        None
    };
    Outcome { reply: None, effect }
}

/// What a channel data frame leads to: never an answer; the payload goes
/// to the peer behind the channel where the client has bound the channel
/// and may send to that peer; else the frame is dropped.
pub open spec fn channel_data_outcome(state: ProcessorView, addr: Address, number: u16, now: u128)
    -> Outcome {
    let effect = if state.router.channels.contains_key((addr, number)) {
        let peer = state.router.channels[(addr, number)];
        match sending_port(state, addr, peer, now) {
            Some(port) => Some(
                Effect::SendChannelData { port, peer, number, route: state.route_of(peer) },
            ),
            None => None,
        }
    } else {
        None
    };
    Outcome { reply: None, effect }
}

/// The channel of `owner` behind which `peer` stands.
pub open spec fn channel_toward(state: ProcessorView, owner: Address, peer: Address) -> u16 {
    choose|number: u16| #[trigger]
        state.router.channels.contains_key((owner, number)) && state.router.channels[(
            owner,
            number,
        )] == peer
}

/// What a datagram leads to that arrives at the relayed port `port` from
/// `peer`: never an answer; it is handed to the client that holds the port
/// where that client may send to the peer's IP address, under the channel
/// that the client has bound to the peer where there is one and else as a
/// Data indication; else it is dropped.
pub open spec fn arrival_outcome(state: ProcessorView, port: u16, peer: Address, now: u128)
    -> Outcome {
    let effect = if state.router.ports.leases.contains_key(port) {
        let client = state.router.ports.leases[port].owner;
        if !state.permits(client, peer.ip, now) {
            None
        } else if peer_is_bound(state.router.channels, client, peer) {
            Some(
                Effect::DeliverChannelData {
                    client,
                    number: channel_toward(state, client, peer),
                },
            )
        } else {
            Some(Effect::DeliverData { client, peer })
        }
    } else {
        None
    };
    Outcome { reply: None, effect }
}

impl Processor {
    /// Handles a datagram that arrives at the relayed port `port` from
    /// `peer`, at the reading `now`.
    pub fn arrival(&self, port: u16, peer: &Address, now: u128) -> (outcome: Outcome)
        requires
            self.wf(),
        ensures
            outcome == arrival_outcome(self@, port, *peer, now),
    {
        let effect = match self.router.get_lease(port) {
            Some(lease) => {
                let client = lease.owner;
                if !self.router.check_permission(&client, &peer.ip, now) {
                    None
                } else {
                    match self.router.get_bound_channel(&client, peer) {
                        Some(number) => {
                            proof {
                                self.router.lemma_one_peer_one_channel();
                                let other = channel_toward(self@, client, *peer);
                                assert(self@.router.channels[(client, other)] == self@.router.channels[(
                                    client,
                                    number,
                                )]);
                            }
                            Some(Effect::DeliverChannelData { client, number })
                        },
                        None => Some(Effect::DeliverData { client, peer: *peer }),
                    }
                }
            },
            None => None,
        };
        Outcome { reply: None, effect }
    }

    /// The way that data for `peer` takes.
    pub fn route(&self, peer: &Address) -> (route: Route)
        ensures
            route == self@.route_of(*peer),
    {
        match self.check_addr(peer) {
            Reach::Relay(index) => Route::Fabric(index),
            _ => Route::Direct,
        }
    }

    /// The relayed port from which data of the client at `addr` leaves for
    /// `peer`, if it may send there.
    fn port_toward(&self, addr: &Address, peer: &Address, now: u128) -> (port: Option<u16>)
        requires
            self.wf(),
        ensures
            port == sending_port(self@, *addr, *peer, now),
    {
        if self.router.check_permission(addr, &peer.ip, now) {
            self.router.nodes().first_port(addr)
        } else {
            None
        }
    }

    /// Handles a Send indication of the client at `addr`, at the reading
    /// `now`.
    pub fn send_indication(&self, addr: &Address, request: &Request, now: u128) -> (outcome: Outcome)
        requires
            self.wf(),
        ensures
            outcome == send_outcome(self@, *addr, request@, now),
    {
        let effect = match request.peer {
            Some(peer) => if request.has_data {
                match self.port_toward(addr, &peer, now) {
                    Some(port) => Some(
                        Effect::SendData { port, peer, from: *addr, route: self.route(&peer) },
                    ),
                    None => None,
                }
            } else {
                None
            },
            None => None,
        };
        Outcome { reply: None, effect }
    }

    /// Handles a channel data frame of the client at `addr` under the
    /// channel `number`, at the reading `now`.
    pub fn channel_data(&self, addr: &Address, number: u16, now: u128) -> (outcome: Outcome)
        requires
            self.wf(),
        ensures
            outcome == channel_data_outcome(self@, *addr, number, now),
    {
        let effect = match self.router.get_channel_bound(addr, number) {
            Some(peer) => match self.port_toward(addr, &peer, now) {
                Some(port) => Some(
                    Effect::SendChannelData { port, peer, number, route: self.route(&peer) },
                ),
                None => None,
            },
            None => None,
        };
        Outcome { reply: None, effect }
    }
}

} // verus!
