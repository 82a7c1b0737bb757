//! Refresh: sets the lifetime of a session, or closes it.

use crate::address::Address;
use crate::processor::message::reject;
use crate::processor::message::rejection;
use crate::processor::message::ErrKind;
use crate::processor::message::Kind;
use crate::processor::message::Method;
use crate::processor::message::Outcome;
use crate::processor::message::Request;
use crate::processor::message::Response;
use crate::processor::Processor;
use crate::processor::ProcessorView;
use crate::processor::RequestView;
use crate::router::nodes::DEFAULT_LIFETIME;
use vstd::prelude::*;

verus! {

/// The lifetime that a refresh applies: what the request asks for, the
/// default where it asks for nothing, and no more than `max`.
pub open spec fn applied_lifetime(asked: Option<u32>, max: u32) -> u32 {
    let wanted = match asked {
        Some(secs) => secs,
        None => DEFAULT_LIFETIME as u32,
    };
    if wanted < max {
        wanted
    } else {
        max
    }
}

/// The answer that grants a refresh with the lifetime `lifetime`.
pub open spec fn refresh_granted(transaction: [u8; 12], lifetime: u32, key: [u8; 16]) -> Response {
    Response {
        method: Method::Refresh(Kind::Response),
        transaction,
        error: None,
        realm: false,
        software: true,
        mapped: None,
        relayed: None,
        lifetime: Some(lifetime),
        key: Some(key),
    }
}

/// What Refresh answers.
///
/// | the request                              | the answer                      |
/// |------------------------------------------|---------------------------------|
/// | is not signed by a known user            | 401                             |
/// | asks for a lifetime of zero              | success, with a lifetime of zero|
/// | comes from a client without a session    | 437                             |
/// | else                                     | success, with what was applied  |
pub open spec fn refresh_outcome(
    state: ProcessorView,
    addr: Address,
    request: RequestView,
    key: [u8; 16],
) -> Outcome {
    let refuse = Method::Refresh(Kind::Error);
    let id = request.transaction;
    let reply = if request.auth is None {
        rejection(refuse, id, ErrKind::Unauthorized)
    } else if request.lifetime == Some(0u32) {
        refresh_granted(id, 0, key)
    } else if !state.router.nodes.contains_key(addr) {
        rejection(refuse, id, ErrKind::AllocationMismatch)
    } else {
        refresh_granted(id, applied_lifetime(request.lifetime, state.max_lifetime), key)
    };
    Outcome { reply: Some(reply), effect: None }
}

/// The state after Refresh: the session has the applied lifetime from the
/// reading `now` on; with a lifetime of zero the client is taken out, and
/// with it the record of what opened its session.
pub open spec fn refresh_next(
    state: ProcessorView,
    addr: Address,
    request: RequestView,
    now: u128,
) -> ProcessorView {
    if request.auth is None {
        state
    } else {
        let delay = applied_lifetime(request.lifetime, state.max_lifetime);
        ProcessorView {
            router: state.router.refreshed(addr, delay, now),
            openers: if delay == 0 {
                state.openers.remove(addr)
            } else {
                state.openers
            },
            ..state
        }
    }
}

impl Processor {
    /// Handles a Refresh request of the client at `addr`, at the reading
    /// `now`. `key` signs the answer where the request is granted.
    pub fn refresh(&mut self, addr: &Address, request: &Request, key: [u8; 16], now: u128) -> (outcome:
        Outcome)
        requires
            old(self).wf(),
        ensures
            final(self).wf(),
            final(self).last_reading() == old(self).last_reading(),
            outcome == refresh_outcome(old(self)@, *addr, request@, key),
            final(self)@ == refresh_next(old(self)@, *addr, request@, now),
    {
        let refuse = Method::Refresh(Kind::Error);
        let id = request.transaction;
        if request.auth.is_none() {
            return Outcome { reply: Some(reject(refuse, id, ErrKind::Unauthorized)), effect: None };
        }
        let wanted = match request.lifetime {
            Some(secs) => secs,
            None => DEFAULT_LIFETIME as u32,
        };
        let delay = if wanted < self.max_lifetime {
            wanted
        } else {
            self.max_lifetime
        };
        let done = self.router.refresh(addr, delay, now);
        if delay == 0 {
            self.openers.remove(addr);
        }
        let zero = match request.lifetime {
            Some(secs) => secs == 0,
            None => false,
        };
        let reply = if zero {
            granted(id, 0, key)
        } else if done.is_none() {
            reject(refuse, id, ErrKind::AllocationMismatch)
        } else {
            granted(id, delay, key)
        };
        Outcome { reply: Some(reply), effect: None }
    }
}

/// Builds the answer that grants a refresh.
fn granted(transaction: [u8; 12], lifetime: u32, key: [u8; 16]) -> (response: Response)
    ensures
        response == refresh_granted(transaction, lifetime, key),
{
    Response {
        method: Method::Refresh(Kind::Response),
        transaction,
        error: None,
        realm: false,
        software: true,
        mapped: None,
        relayed: None,
        lifetime: Some(lifetime),
        key: Some(key),
    }
}

} // verus!
