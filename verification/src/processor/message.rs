//! Requests and responses as the handlers see them: the values that a
//! decoded message carries, and the values that an encoder needs to build
//! the answer.

use crate::address::Address;
use crate::proxy::PermissionRequest;
use vstd::prelude::*;

verus! {

/// The transport number of UDP in REQUESTED-TRANSPORT.
pub const TRANSPORT_UDP: u8 = 17;

/// Whether a message asks, answers, or answers with an error.
#[derive(Clone, Copy, Debug, PartialEq, Eq, Structural)]
pub enum Kind {
    Request,
    Response,
    Error,
}

/// The method of a message.
#[derive(Clone, Copy, Debug, PartialEq, Eq, Structural)]
pub enum Method {
    Binding(Kind),
    Allocate(Kind),
    CreatePermission(Kind),
    ChannelBind(Kind),
    Refresh(Kind),
    SendIndication,
    DataIndication,
}

/// The errors that the handlers answer with.
#[derive(Clone, Copy, Debug, PartialEq, Eq, Structural)]
pub enum ErrKind {
    BadRequest,
    Unauthorized,
    Forbidden,
    AllocationMismatch,
    UnsupportedTransport,
    InsufficientCapacity,
}

impl ErrKind {
    /// The number of the error, as a client reads it.
    pub open spec fn spec_code(self) -> u16 {
        match self {
            ErrKind::BadRequest => 400,
            ErrKind::Unauthorized => 401,
            ErrKind::Forbidden => 403,
            ErrKind::AllocationMismatch => 437,
            ErrKind::UnsupportedTransport => 442,
            ErrKind::InsufficientCapacity => 508,
        }
    }

    /// The number of the error, as a client reads it.
    #[verifier::when_used_as_spec(spec_code)]
    pub fn code(self) -> (code: u16)
        ensures
            code == self.spec_code(),
    {
        match self {
            ErrKind::BadRequest => 400,
            ErrKind::Unauthorized => 401,
            ErrKind::Forbidden => 403,
            ErrKind::AllocationMismatch => 437,
            ErrKind::UnsupportedTransport => 442,
            ErrKind::InsufficientCapacity => 508,
        }
    }
}

/// The user whose long-term credential a message was signed with.
#[derive(Clone, Debug)]
pub struct Credentials {
    pub username: String,
    pub password: String,
}

/// What a decoded message carries. `auth` is there only where the message
/// carried a MESSAGE-INTEGRITY that is valid under the key of that user.
#[derive(Clone, Debug)]
pub struct Request {
    pub method: Method,
    pub transaction: [u8; 12],
    pub auth: Option<Credentials>,
    /// REQUESTED-TRANSPORT.
    pub transport: Option<u8>,
    /// LIFETIME.
    pub lifetime: Option<u32>,
    /// The first XOR-PEER-ADDRESS.
    pub peer: Option<Address>,
    /// CHANNEL-NUMBER.
    pub channel: Option<u16>,
    /// Whether the message carries DATA.
    pub has_data: bool,
}

/// What an encoder needs to build the answer to a request.
#[derive(Clone, Copy, Debug, PartialEq, Eq)]
pub struct Response {
    pub method: Method,
    pub transaction: [u8; 12],
    /// ERROR-CODE.
    pub error: Option<ErrKind>,
    /// Whether the answer carries the configured REALM.
    pub realm: bool,
    /// Whether the answer carries the SOFTWARE name.
    pub software: bool,
    /// XOR-MAPPED-ADDRESS.
    pub mapped: Option<Address>,
    /// XOR-RELAYED-ADDRESS.
    pub relayed: Option<Address>,
    /// LIFETIME.
    pub lifetime: Option<u32>,
    /// The key to sign MESSAGE-INTEGRITY with, where the answer is signed.
    pub key: Option<[u8; 16]>,
}

/// Whether data leaves through a socket of this instance or through the
/// fabric.
#[derive(Clone, Copy, Debug, PartialEq, Eq, Structural)]
pub enum Route {
    Direct,
    /// Through the fabric, to the instance of this number.
    Fabric(u8),
}

/// What is to be done besides answering.
#[derive(Clone, Copy, Debug, PartialEq, Eq)]
pub enum Effect {
    /// Tell the host that the client may now reach `peer`.
    PermissionCreated { peer: Address },
    /// Send the request over the fabric, in order, to the instance it
    /// names.
    ForwardPermission { request: PermissionRequest },
    /// Send the DATA of the message to `peer` from the relayed port
    /// `port`, as a Data indication that names `from` as its origin.
    SendData { port: u16, peer: Address, from: Address, route: Route },
    /// Send the payload of the frame to `peer` from the relayed port
    /// `port`, under the channel `number`.
    SendChannelData { port: u16, peer: Address, number: u16, route: Route },
    /// Hand what arrived from `peer` to the client at `client`, as a Data
    /// indication that names `peer` as its origin.
    DeliverData { client: Address, peer: Address },
    /// Hand what arrived to the client at `client` as channel data under
    /// the channel `number`.
    DeliverChannelData { client: Address, number: u16 },
}

/// What a handler decided: the answer, if there is one, and what else is
/// to be done.
#[derive(Clone, Copy, Debug, PartialEq, Eq)]
pub struct Outcome {
    pub reply: Option<Response>,
    pub effect: Option<Effect>,
}

/// The answer that refuses `request` with `error`: it names the error and
/// the realm, and is not signed.
pub open spec fn rejection(method: Method, transaction: [u8; 12], error: ErrKind) -> Response {
    Response {
        method,
        transaction,
        error: Some(error),
        realm: true,
        software: false,
        mapped: None,
        relayed: None,
        lifetime: None,
        key: None,
    }
}

/// The answer that grants `request`: it names the software and is signed
/// with `key`.
pub open spec fn success(method: Method, transaction: [u8; 12], key: [u8; 16]) -> Response {
    Response {
        method,
        transaction,
        error: None,
        realm: false,
        software: true,
        mapped: None,
        relayed: None,
        lifetime: None,
        key: Some(key),
    }
}

/// Builds the answer that refuses with `error`.
pub fn reject(method: Method, transaction: [u8; 12], error: ErrKind) -> (response: Response)
    ensures
        response == rejection(method, transaction, error),
{
    Response {
        method,
        transaction,
        error: Some(error),
        realm: true,
        software: false,
        mapped: None,
        relayed: None,
        lifetime: None,
        key: None,
    }
}

/// Builds the answer that grants, signed with `key`.
pub fn resolve(method: Method, transaction: [u8; 12], key: [u8; 16]) -> (response: Response)
    ensures
        response == success(method, transaction, key),
{
    Response {
        method,
        transaction,
        error: None,
        realm: false,
        software: true,
        mapped: None,
        relayed: None,
        lifetime: None,
        key: Some(key),
    }
}

} // verus!
