//! Binding: tells a client the address from which the server hears it.

use crate::address::Address;
use crate::processor::message::Kind;
use crate::processor::message::Method;
use crate::processor::message::Outcome;
use crate::processor::message::Request;
use crate::processor::message::Response;
use crate::processor::Processor;
use vstd::prelude::*;

verus! {

/// What Binding answers: the address of the client as the server sees it,
/// unsigned.
pub open spec fn binding_outcome(addr: Address, transaction: [u8; 12]) -> Outcome {
    Outcome {
        reply: Some(
            Response {
                method: Method::Binding(Kind::Response),
                transaction,
                error: None,
                realm: false,
                software: true,
                mapped: Some(addr),
                relayed: None,
                lifetime: None,
                key: None,
            },
        ),
        effect: None,
    }
}

impl Processor {
    /// Handles a Binding request of the client at `addr`.
    pub fn binding(&self, addr: &Address, request: &Request) -> (outcome: Outcome)
        ensures
            outcome == binding_outcome(*addr, request.transaction),
    {
        Outcome {
            reply: Some(
                Response {
                    method: Method::Binding(Kind::Response),
                    transaction: request.transaction,
                    error: None,
                    realm: false,
                    software: true,
                    mapped: Some(*addr),
                    relayed: None,
                    lifetime: None,
                    key: None,
                },
            ),
            effect: None,
        }
    }
}

} // verus!
