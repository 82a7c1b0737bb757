//! ChannelBind: binds a channel number of a client to a peer.

use crate::address::Address;
use crate::processor::message::reject;
use crate::processor::message::rejection;
use crate::processor::message::resolve;
use crate::processor::message::success;
use crate::processor::message::ErrKind;
use crate::processor::message::Kind;
use crate::processor::message::Method;
use crate::processor::message::Outcome;
use crate::processor::message::Request;
use crate::processor::Processor;
use crate::processor::ProcessorView;
use crate::processor::Reach;
use crate::processor::RequestView;
use crate::router::bind_channel_verdict;
use crate::router::channels::is_valid_channel;
use crate::router::channels::valid_channel;
use crate::router::BindError;
use vstd::prelude::*;

verus! {

/// Whether the client at `addr` has, or can be given, the permission to
/// send to `peer`: it has one that has not run out, or the peer can be
/// reached.
pub open spec fn permission_in_reach(state: ProcessorView, addr: Address, peer: Address, now: u128)
    -> bool {
    state.permits(addr, peer.ip, now) || state.reach_of(peer) != Reach::Failed
}

/// The error that ChannelBind answers with; `None` where it grants.
///
/// | the request                                             | the answer |
/// |---------------------------------------------------------|------------|
/// | is not signed by a known user                           | 401        |
/// | names no channel number or no peer                      | 400        |
/// | names a channel number outside 0x4000 to 0x7FFE         | 400        |
/// | names a peer for which there can be no permission       | 403        |
/// | comes from a client without a session                   | 403        |
/// | names a number or a peer that the client bound otherwise| 400        |
pub open spec fn channel_bind_error(
    state: ProcessorView,
    addr: Address,
    request: RequestView,
    now: u128,
) -> Option<ErrKind> {
    if request.auth is None {
        Some(ErrKind::Unauthorized)
    } else if request.channel is None || request.peer is None {
        Some(ErrKind::BadRequest)
    } else if !valid_channel(request.channel->Some_0) {
        Some(ErrKind::BadRequest)
    } else if !permission_in_reach(state, addr, request.peer->Some_0, now) {
        Some(ErrKind::Forbidden)
    } else {
        match bind_channel_verdict(
            state.router,
            addr,
            request.channel->Some_0,
            request.peer->Some_0,
        ) {
            Ok(_) => None,
            Err(BindError::NoSession) => Some(ErrKind::Forbidden),
            Err(BindError::InUse) => Some(ErrKind::BadRequest),
            Err(BindError::OutOfRange) => Some(ErrKind::BadRequest),
        }
    }
}

/// What ChannelBind answers.
pub open spec fn channel_bind_outcome(
    state: ProcessorView,
    addr: Address,
    request: RequestView,
    key: [u8; 16],
    now: u128,
) -> Outcome {
    let reply = match channel_bind_error(state, addr, request, now) {
        Some(error) => rejection(Method::ChannelBind(Kind::Error), request.transaction, error),
        None => success(Method::ChannelBind(Kind::Response), request.transaction, key),
    };
    Outcome { reply: Some(reply), effect: None }
}

/// The state after ChannelBind: changed only where the request is
/// granted, and then the channel is bound, the session names it, and the
/// permission toward the peer starts anew.
pub open spec fn channel_bind_next(
    state: ProcessorView,
    addr: Address,
    request: RequestView,
    now: u128,
) -> ProcessorView {
    if channel_bind_error(state, addr, request, now) is None {
        ProcessorView {
            router: state.router.channel_bound(
                addr,
                request.channel->Some_0,
                request.peer->Some_0,
                now,
            ),
            ..state
        }
    } else {
        state
    }
}

impl Processor {
    /// Handles a ChannelBind request of the client at `addr`, at the
    /// reading `now`. `key` signs the answer where the request is granted.
    pub fn channel_bind(&mut self, addr: &Address, request: &Request, key: [u8; 16], now: u128) -> (outcome:
        Outcome)
        requires
            old(self).wf(),
        ensures
            final(self).wf(),
            final(self).last_reading() == old(self).last_reading(),
            outcome == channel_bind_outcome(old(self)@, *addr, request@, key, now),
            final(self)@ == channel_bind_next(old(self)@, *addr, request@, now),
    {
        let refuse = Method::ChannelBind(Kind::Error);
        let id = request.transaction;
        if request.auth.is_none() {
            return Outcome { reply: Some(reject(refuse, id, ErrKind::Unauthorized)), effect: None };
        }
        let (number, peer) = match (request.channel, request.peer) {
            (Some(number), Some(peer)) => (number, peer),
            _ => {
                return Outcome {
                    reply: Some(reject(refuse, id, ErrKind::BadRequest)),
                    effect: None,
                };
            },
        };
        if !is_valid_channel(number) {
            return Outcome { reply: Some(reject(refuse, id, ErrKind::BadRequest)), effect: None };
        }
        let reachable = match self.check_addr(&peer) {
            Reach::Failed => false,
            _ => true,
        };
        if !reachable && !self.router.check_permission(addr, &peer.ip, now) {
            return Outcome { reply: Some(reject(refuse, id, ErrKind::Forbidden)), effect: None };
        }
        let reply = match self.router.bind_channel(addr, number, &peer, now) {
            Ok(_) => resolve(Method::ChannelBind(Kind::Response), id, key),
            Err(BindError::NoSession) => reject(refuse, id, ErrKind::Forbidden),
            Err(BindError::InUse) => reject(refuse, id, ErrKind::BadRequest),
            Err(BindError::OutOfRange) => reject(refuse, id, ErrKind::BadRequest),
        };
        Outcome { reply: Some(reply), effect: None }
    }
}

} // verus!
