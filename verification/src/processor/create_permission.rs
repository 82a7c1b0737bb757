//! CreatePermission: lets a client reach a peer, through this instance or
//! through the instance that hosts the peer.

use crate::address::Address;
use crate::processor::message::reject;
use crate::processor::message::rejection;
use crate::processor::message::resolve;
use crate::processor::message::success;
use crate::processor::message::Effect;
use crate::processor::message::ErrKind;
use crate::processor::message::Kind;
use crate::processor::message::Method;
use crate::processor::message::Outcome;
use crate::processor::message::Request;
use crate::processor::Processor;
use crate::processor::ProcessorView;
use crate::processor::Reach;
use crate::processor::RequestView;
use crate::proxy::PermissionRequest;
use crate::router::nodes::first_port_of;
use vstd::prelude::*;

verus! {

/// What CreatePermission answers and asks for.
///
/// | the request                                   | the answer                       |
/// |-----------------------------------------------|----------------------------------|
/// | is not signed by a known user                 | 401                              |
/// | names no peer                                 | 400                              |
/// | names a peer that cannot be reached           | 403                              |
/// | names a peer hosted by another instance       | success, request sent on         |
/// | names a peer at this instance, no port held   | 403                              |
/// | names a peer at this instance                 | success, port bound, host told   |
pub open spec fn create_permission_outcome(
    state: ProcessorView,
    addr: Address,
    request: RequestView,
    key: [u8; 16],
) -> Outcome {
    let refuse = Method::CreatePermission(Kind::Error);
    let grant = Method::CreatePermission(Kind::Response);
    let id = request.transaction;
    if request.auth is None {
        Outcome { reply: Some(rejection(refuse, id, ErrKind::Unauthorized)), effect: None }
    } else if request.peer is None {
        Outcome { reply: Some(rejection(refuse, id, ErrKind::BadRequest)), effect: None }
    } else {
        let peer = request.peer->Some_0;
        match state.reach_of(peer) {
            Reach::Failed => Outcome {
                reply: Some(rejection(refuse, id, ErrKind::Forbidden)),
                effect: None,
            },
            Reach::Relay(index) => Outcome {
                reply: Some(success(grant, id, key)),
                effect: Some(
                    Effect::ForwardPermission {
                        request: PermissionRequest { id: index, from: addr, peer },
                    },
                ),
            },
            Reach::Local => if first_port_of(state.router.nodes, addr) is None {
                Outcome { reply: Some(rejection(refuse, id, ErrKind::Forbidden)), effect: None }
            } else {
                Outcome {
                    reply: Some(success(grant, id, key)),
                    effect: Some(Effect::PermissionCreated { peer }),
                }
            },
        }
    }
}

/// The state after CreatePermission: changed only where the peer is at
/// this instance and the client holds a port, which is then bound toward
/// the peer.
pub open spec fn create_permission_next(
    state: ProcessorView,
    addr: Address,
    request: RequestView,
    now: u128,
) -> ProcessorView {
    if request.auth is Some && request.peer is Some && state.reach_of(request.peer->Some_0)
        == Reach::Local && first_port_of(state.router.nodes, addr) is Some {
        ProcessorView {
            router: state.router.port_bound(
                addr,
                first_port_of(state.router.nodes, addr)->Some_0,
                request.peer->Some_0,
                now,
            ),
            ..state
        }
    } else {
        state
    }
}

impl Processor {
    /// How `peer` can be reached from this instance.
    pub fn check_addr(&self, peer: &Address) -> (reach: Reach)
        ensures
            reach == self@.reach_of(*peer),
    {
        if self.external.ip == peer.ip {
            return Reach::Local;
        }
        match &self.proxy {
            Some(proxy) => match proxy.get_online_node(&peer.ip) {
                Some(node) => Reach::Relay(node.index),
                None => Reach::Failed,
            },
            None => Reach::Failed,
        }
    }

    /// Handles a CreatePermission request of the client at `addr`, at the
    /// reading `now`. `key` signs the answer where the request is granted.
    pub fn create_permission(&mut self, addr: &Address, request: &Request, key: [u8; 16], now: u128)
        -> (outcome: Outcome)
        requires
            old(self).wf(),
        ensures
            final(self).wf(),
            final(self).last_reading() == old(self).last_reading(),
            outcome == create_permission_outcome(old(self)@, *addr, request@, key),
            final(self)@ == create_permission_next(old(self)@, *addr, request@, now),
    {
        let refuse = Method::CreatePermission(Kind::Error);
        let grant = Method::CreatePermission(Kind::Response);
        let id = request.transaction;
        if request.auth.is_none() {
            return Outcome { reply: Some(reject(refuse, id, ErrKind::Unauthorized)), effect: None };
        }
        let peer = match request.peer {
            Some(peer) => peer,
            None => {
                return Outcome {
                    reply: Some(reject(refuse, id, ErrKind::BadRequest)),
                    effect: None,
                };
            },
        };
        match self.check_addr(&peer) {
            Reach::Failed => Outcome {
                reply: Some(reject(refuse, id, ErrKind::Forbidden)),
                effect: None,
            },
            Reach::Relay(index) => Outcome {
                reply: Some(resolve(grant, id, key)),
                effect: Some(
                    Effect::ForwardPermission {
                        request: PermissionRequest { id: index, from: *addr, peer },
                    },
                ),
            },
            Reach::Local => {
                if self.router.bind_port(addr, &peer, now).is_none() {
                    return Outcome {
                        reply: Some(reject(refuse, id, ErrKind::Forbidden)),
                        effect: None,
                    };
                }
                Outcome {
                    reply: Some(resolve(grant, id, key)),
                    effect: Some(Effect::PermissionCreated { peer }),
                }
            },
        }
    }
}

} // verus!
