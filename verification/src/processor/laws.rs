//! What holds of the handlers whatever the state they meet.

use crate::address::Address;
use crate::processor::allocate::allocate_outcome;
use crate::processor::indication::channel_data_outcome;
use crate::processor::indication::send_outcome;
use crate::processor::message::rejection;
use crate::processor::message::ErrKind;
use crate::processor::message::Kind;
use crate::processor::message::Method;
use crate::processor::message::Outcome;
use crate::processor::message::TRANSPORT_UDP;
use crate::processor::refresh::refresh_next;
use crate::processor::ProcessorView;
use crate::processor::RequestView;
use crate::router::ports::lemma_lowest_free;
use vstd::prelude::*;

verus! {

/// A signed Refresh with a lifetime of zero closes the session at once:
/// whatever the client sends afterwards, as a Send indication or under a
/// channel, leads to nothing.
pub proof fn law_refresh_to_zero_silences(
    state: ProcessorView,
    addr: Address,
    refresh: RequestView,
    now: u128,
    send: RequestView,
    number: u16,
    later: u128,
)
    requires
        state.router.inv(),
        refresh.auth is Some,
        refresh.lifetime == Some(0u32),
    ensures
        !refresh_next(state, addr, refresh, now).router.nodes.contains_key(addr),
        send_outcome(refresh_next(state, addr, refresh, now), addr, send, later) == (Outcome {
            reply: None,
            effect: None,
        }),
        channel_data_outcome(refresh_next(state, addr, refresh, now), addr, number, later)
            == (Outcome { reply: None, effect: None }),
{
    let next = refresh_next(state, addr, refresh, now);
    if !state.router.nodes.contains_key(addr) {
        assert forall|ip: crate::address::IpAddress|
            !state.router.permissions.contains_key((addr, ip)) by {
            if state.router.permissions.contains_key((addr, ip)) {
                assert(state.router.refers_to(addr));
            }
        }
        if state.router.channels.contains_key((addr, number)) {
            assert(state.router.refers_to(addr));
        }
    }
}

/// While no port is free, a signed Allocate for UDP from a client without
/// a session is answered with the error 508.
pub proof fn law_no_port_no_allocation(
    state: ProcessorView,
    addr: Address,
    request: RequestView,
    secret: [u8; 16],
    now: u128,
)
    requires
        state.router.inv(),
        forall|port: u16| !state.router.ports.is_free(port),
        request.auth is Some,
        request.transport == Some(TRANSPORT_UDP),
        !state.router.nodes.contains_key(addr),
    ensures
        allocate_outcome(state, addr, request, secret, now).reply == Some(
            rejection(
                Method::Allocate(Kind::Error),
                request.transaction,
                ErrKind::InsufficientCapacity,
            ),
        ),
        ErrKind::InsufficientCapacity.spec_code() == 508,
{
    let base = state.router.removed(addr);
    assert forall|port: u16| !base.ports.is_free(port) by {
        assert(!state.router.ports.is_free(port));
        if state.router.ports.leases.contains_key(port) {
            if state.router.ports.leases[port].owner == addr {
                assert(state.router.ports.holds(addr, port));
                assert(state.router.refers_to(addr));
            }
        }
    }
    lemma_lowest_free(base.ports);
}

} // verus!
