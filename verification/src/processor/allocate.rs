//! Allocate: opens a session for a client and gives it a relayed port.

use crate::address::Address;
use crate::processor::message::reject;
use crate::processor::message::rejection;
use crate::processor::message::ErrKind;
use crate::processor::message::Kind;
use crate::processor::message::Method;
use crate::processor::message::Outcome;
use crate::processor::message::Request;
use crate::processor::message::Response;
use crate::processor::message::TRANSPORT_UDP;
use crate::processor::Processor;
use crate::processor::ProcessorView;
use crate::processor::RequestView;
use crate::router::nodes::first_port_of;
use crate::router::nodes::fresh_node;
use crate::router::nodes::DEFAULT_LIFETIME;
use crate::router::ports::lemma_lowest_free;
use vstd::prelude::*;

verus! {

/// The answer that grants an allocation of the relayed port `port` to the
/// client at `addr`: the relayed address at the public IP address of this
/// instance, the address of the client as the server sees it, the default
/// lifetime.
pub open spec fn allocation_granted(
    state: ProcessorView,
    addr: Address,
    transaction: [u8; 12],
    port: u16,
    secret: [u8; 16],
) -> Response {
    Response {
        method: Method::Allocate(Kind::Response),
        transaction,
        error: None,
        realm: false,
        software: true,
        mapped: Some(addr),
        relayed: Some(Address { ip: state.external.ip, port }),
        lifetime: Some(DEFAULT_LIFETIME as u32),
        key: Some(secret),
    }
}

/// Whether `request` repeats the request that opened the session of the
/// client at `addr`.
pub open spec fn replays_opener(state: ProcessorView, addr: Address, request: RequestView) -> bool {
    state.openers.contains_key(addr) && state.openers[addr] == request.transaction && first_port_of(
        state.router.nodes,
        addr,
    ) is Some
}

/// Whether Allocate gets as far as asking the pool for a port: the request
/// is signed, asks for UDP, and the client has no session that is alive.
pub open spec fn allocation_is_attempted(
    state: ProcessorView,
    addr: Address,
    request: RequestView,
    now: u128,
) -> bool {
    request.auth is Some && request.transport == Some(TRANSPORT_UDP) && !state.has_live_session(
        addr,
        now,
    )
}

/// What Allocate answers.
///
/// | the request                                          | the answer          |
/// |------------------------------------------------------|---------------------|
/// | is not signed by a known user                        | 401                 |
/// | does not ask for UDP                                 | 442                 |
/// | repeats the one that opened the client's live session| the same success    |
/// | comes while the client has another live session      | 437                 |
/// | finds no free port                                   | 508                 |
/// | else                                                 | success             |
pub open spec fn allocate_outcome(
    state: ProcessorView,
    addr: Address,
    request: RequestView,
    secret: [u8; 16],
    now: u128,
) -> Outcome {
    let refuse = Method::Allocate(Kind::Error);
    let id = request.transaction;
    let reply = if request.auth is None {
        rejection(refuse, id, ErrKind::Unauthorized)
    } else if request.transport != Some(TRANSPORT_UDP) {
        rejection(refuse, id, ErrKind::UnsupportedTransport)
    } else if state.has_live_session(addr, now) {
        if replays_opener(state, addr, request) {
            allocation_granted(
                state,
                addr,
                id,
                first_port_of(state.router.nodes, addr)->Some_0,
                secret,
            )
        } else {
            rejection(refuse, id, ErrKind::AllocationMismatch)
        }
    } else {
        match state.router.removed(addr).ports.lowest_free() {
            Some(port) => allocation_granted(state, addr, id, port, secret),
            None => rejection(refuse, id, ErrKind::InsufficientCapacity),
        }
    };
    Outcome { reply: Some(reply), effect: None }
}

/// The state after Allocate. Where the pool is asked for a port, a session
/// that the client had is closed; where a port is free, the client gets
/// the lowest and a new session under the credential of the request.
pub open spec fn allocate_next(
    state: ProcessorView,
    addr: Address,
    request: RequestView,
    secret: [u8; 16],
    now: u128,
) -> ProcessorView {
    if allocation_is_attempted(state, addr, request, now) {
        let base = state.router.removed(addr);
        match base.ports.lowest_free() {
            Some(port) => ProcessorView {
                router: base.admitted(
                    addr,
                    fresh_node(
                        state.mark,
                        request.auth->Some_0.0,
                        secret,
                        request.auth->Some_0.1,
                        now,
                    ),
                    port,
                ),
                openers: state.openers.insert(addr, request.transaction),
                ..state
            },
            None => ProcessorView { router: base, openers: state.openers.remove(addr), ..state },
        }
    } else {
        state
    }
}

/// Whether two transaction identifiers are the same.
pub fn same_transaction(a: &[u8; 12], b: &[u8; 12]) -> (same: bool)
    ensures
        same == (*a == *b),
{
    let mut i: usize = 0;
    while i < 12
        invariant
            i <= 12,
            forall|k: int| 0 <= k < i ==> a@[k] == b@[k],
        decreases 12 - i,
    {
        if a[i] != b[i] {
            return false;
        }
        i += 1;
    }
    assert(*a =~= *b);
    true
}

impl Processor {
    /// Handles an Allocate request of the client at `addr`, at the reading
    /// `now`. `secret` is the key of the credential of the request: it
    /// becomes the key of the session and signs the answer.
    pub fn allocate(&mut self, addr: &Address, request: &Request, secret: [u8; 16], now: u128) -> (outcome:
        Outcome)
        requires
            old(self).wf(),
        ensures
            final(self).wf(),
            final(self).last_reading() == old(self).last_reading(),
            outcome == allocate_outcome(old(self)@, *addr, request@, secret, now),
            final(self)@ == allocate_next(old(self)@, *addr, request@, secret, now),
    {
        let refuse = Method::Allocate(Kind::Error);
        let id = request.transaction;
        let auth = match &request.auth {
            Some(auth) => auth,
            None => {
                return Outcome {
                    reply: Some(reject(refuse, id, ErrKind::Unauthorized)),
                    effect: None,
                };
            },
        };
        let udp = match request.transport {
            Some(t) => t == TRANSPORT_UDP,
            None => false,
        };
        if !udp {
            return Outcome {
                reply: Some(reject(refuse, id, ErrKind::UnsupportedTransport)),
                effect: None,
            };
        }
        let live = match self.router.get_node(addr) {
            Some(node) => !node.is_death(now),
            None => false,
        };
        if live {
            let replay = match self.openers.get(addr) {
                Some(opener) => same_transaction(opener, &id),
                None => false,
            };
            let reply = match self.router.nodes().first_port(addr) {
                Some(port) => if replay {
                    self.granted(addr, id, port, secret)
                } else {
                    reject(refuse, id, ErrKind::AllocationMismatch)
                },
                None => reject(refuse, id, ErrKind::AllocationMismatch),
            };
            return Outcome { reply: Some(reply), effect: None };
        }
        proof {
            lemma_lowest_free(old(self)@.router.removed(*addr).ports);
        }
        let got = self.router.allocate(
            self.mark,
            addr,
            auth.username.as_str(),
            secret,
            auth.password.as_str(),
            now,
        );
        match got {
            Ok(port) => {
                self.openers.insert(*addr, id);
                Outcome { reply: Some(self.granted(addr, id, port, secret)), effect: None }
            },
            Err(_) => {
                self.openers.remove(addr);
                Outcome {
                    reply: Some(reject(refuse, id, ErrKind::InsufficientCapacity)),
                    effect: None,
                }
            },
        }
    }

    /// Builds the answer that grants an allocation.
    fn granted(&self, addr: &Address, transaction: [u8; 12], port: u16, secret: [u8; 16]) -> (response:
        Response)
        ensures
            response == allocation_granted(self@, *addr, transaction, port, secret),
    {
        Response {
            method: Method::Allocate(Kind::Response),
            transaction,
            error: None,
            realm: false,
            software: true,
            mapped: Some(*addr),
            relayed: Some(Address { ip: self.external.ip, port }),
            lifetime: Some(DEFAULT_LIFETIME as u32),
            key: Some(secret),
        }
    }
}

} // verus!
