//! The frames of the fabric: four bytes of length, one byte that tells
//! what the frame carries, and the body.
//!
//! A state notification lists the instances one after the other, each as
//! its number, its public address and one byte that is 1 where it is
//! online. A request for a permission is the number of the instance it
//! goes to, the address of the client and the address of the peer. A
//! relayed datagram is carried as it is. An address is one byte for the
//! family, 4 or 6, the bytes of the IP address and the two bytes of the
//! port. Every number stands with its high byte first.

use crate::address::Address;
use crate::address::IpAddress;
use crate::numbers::be128;
use crate::numbers::be128_bytes;
use crate::numbers::be16;
use crate::numbers::be16_bytes;
use crate::numbers::be32;
use crate::numbers::be32_bytes;
use crate::numbers::lemma_be128_round_trip;
use crate::numbers::lemma_be16_round_trip;
use crate::numbers::lemma_be32_round_trip;
use crate::numbers::push_be128;
use crate::numbers::push_be16;
use crate::numbers::push_be32;
use crate::numbers::read_be128;
use crate::numbers::read_be16;
use crate::numbers::read_be32;
use crate::proxy::Payload;
use crate::proxy::ProxyStateNotifyNode;
use vstd::prelude::*;

verus! {

/// The tag of a state notification.
pub const TAG_STATE: u8 = 0x01;

/// The tag of a request for a permission.
pub const TAG_PERMISSION: u8 = 0x02;

/// The tag of a relayed datagram.
pub const TAG_RELAY: u8 = 0x10;

/// The byte that announces an address of the older family.
pub const FAMILY_V4: u8 = 4;

/// The byte that announces an address of the newer family.
pub const FAMILY_V6: u8 = 6;

/// What a frame carries, as mathematical values.
pub enum FrameView {
    State(Seq<ProxyStateNotifyNode>),
    Permission { id: u8, from: Address, peer: Address },
    Relay(Seq<u8>),
}

/// Why bytes could not be read as a frame.
#[derive(Clone, Copy, Debug, PartialEq, Eq, Structural)]
pub enum WireError {
    /// The bytes end before the frame does.
    Incomplete,
    /// The bytes begin with what is no frame.
    Malformed,
}

/// The bytes of an address.
pub open spec fn addr_bytes(addr: Address) -> Seq<u8> {
    match addr.ip {
        IpAddress::V4(v) => seq![FAMILY_V4] + be32_bytes(v) + be16_bytes(addr.port),
        IpAddress::V6(v) => seq![FAMILY_V6] + be128_bytes(v) + be16_bytes(addr.port),
    }
}

/// The bytes of what the fabric says of one instance.
#[verifier::opaque]
pub open spec fn node_bytes(node: ProxyStateNotifyNode) -> Seq<u8> {
    seq![node.index] + addr_bytes(node.external) + seq![if node.online {
        1u8
    } else {
        0u8
    }]
}

/// The bytes of a list of instances: those of each, one after the other.
pub open spec fn nodes_bytes(nodes: Seq<ProxyStateNotifyNode>) -> Seq<u8>
    decreases nodes.len(),
{
    if nodes.len() == 0 {
        Seq::empty()
    } else {
        node_bytes(nodes[0]) + nodes_bytes(nodes.drop_first())
    }
}

/// The tag of a frame.
pub open spec fn tag_of(frame: FrameView) -> u8 {
    match frame {
        FrameView::State(_) => TAG_STATE,
        FrameView::Permission { .. } => TAG_PERMISSION,
        FrameView::Relay(_) => TAG_RELAY,
    }
}

/// The body of a frame.
pub open spec fn body_bytes(frame: FrameView) -> Seq<u8> {
    match frame {
        FrameView::State(nodes) => nodes_bytes(nodes),
        FrameView::Permission { id, from, peer } => seq![id] + addr_bytes(from) + addr_bytes(peer),
        FrameView::Relay(data) => data,
    }
}

/// Whether the length of the frame can be written in four bytes.
pub open spec fn fits(frame: FrameView) -> bool {
    1 + body_bytes(frame).len() <= u32::MAX
}

/// The bytes of a frame.
pub open spec fn frame_bytes(frame: FrameView) -> Seq<u8> {
    be32_bytes((1 + body_bytes(frame).len()) as u32) + seq![tag_of(frame)] + body_bytes(frame)
}

/// The address that stands in `bytes` from `at` on and ends before `end`,
/// with the place behind it.
pub open spec fn parse_addr(bytes: Seq<u8>, at: int, end: int) -> Option<(Address, int)> {
    if at < end && bytes[at] == FAMILY_V4 && at + 7 <= end {
        Some(
            (
                Address {
                    ip: IpAddress::V4(be32(bytes.subrange(at + 1, at + 5))),
                    port: be16(bytes.subrange(at + 5, at + 7)),
                },
                at + 7,
            ),
        )
    } else if at < end && bytes[at] == FAMILY_V6 && at + 19 <= end {
        Some(
            (
                Address {
                    ip: IpAddress::V6(be128(bytes.subrange(at + 1, at + 17))),
                    port: be16(bytes.subrange(at + 17, at + 19)),
                },
                at + 19,
            ),
        )
    } else {
        None
    }
}

/// The instance that stands in `bytes` from `at` on and ends before `end`,
/// with the place behind it.
pub open spec fn parse_node(bytes: Seq<u8>, at: int, end: int) -> Option<
    (ProxyStateNotifyNode, int),
> {
    if at < end {
        match parse_addr(bytes, at + 1, end) {
            Some((external, next)) => if next < end && bytes[next] <= 1 {
                Some(
                    (
                        ProxyStateNotifyNode { index: bytes[at], external, online: bytes[next] == 1 },
                        next + 1,
                    ),
                )
            } else {
                None
            },
            None => None,
        }
    } else {
        None
    }
}

/// The instances that stand in `bytes` from `at` up to `end`, where these
/// bytes are instances from the first to the last.
pub open spec fn parse_nodes(bytes: Seq<u8>, at: int, end: int) -> Option<
    Seq<ProxyStateNotifyNode>,
>
    decreases end - at,
{
    if at >= end {
        Some(Seq::empty())
    } else {
        match parse_node(bytes, at, end) {
            Some((node, next)) => if next > at {
                match parse_nodes(bytes, next, end) {
                    Some(rest) => Some(seq![node] + rest),
                    None => None,
                }
            } else {
                None
            },
            None => None,
        }
    }
}

/// What the body of a frame with the tag `tag` carries, where the body
/// stands in `bytes` from `at` up to `end`.
pub open spec fn parse_body(bytes: Seq<u8>, tag: u8, at: int, end: int) -> Option<FrameView> {
    if tag == TAG_STATE {
        match parse_nodes(bytes, at, end) {
            Some(nodes) => Some(FrameView::State(nodes)),
            None => None,
        }
    } else if tag == TAG_PERMISSION {
        if at < end {
            match parse_addr(bytes, at + 1, end) {
                Some((from, next)) => match parse_addr(bytes, next, end) {
                    Some((peer, last)) => if last == end {
                        Some(FrameView::Permission { id: bytes[at], from, peer })
                    } else {
                        None
                    },
                    None => None,
                },
                None => None,
            }
        } else {
            None
        }
    } else if tag == TAG_RELAY {
        Some(FrameView::Relay(bytes.subrange(at, end)))
    } else {
        None
    }
}

/// The frame that `bytes` begins with, and its length. The bytes are
/// incomplete where they end before the frame that they announce; they are
/// malformed where the frame that they announce is none.
pub open spec fn parse_frame(bytes: Seq<u8>) -> Result<(FrameView, int), WireError> {
    if bytes.len() < 4 {
        Err(WireError::Incomplete)
    } else if be32(bytes.subrange(0, 4)) == 0 {
        Err(WireError::Malformed)
    } else if bytes.len() < 4 + be32(bytes.subrange(0, 4)) {
        Err(WireError::Incomplete)
    } else {
        let end = 4 + be32(bytes.subrange(0, 4));
        match parse_body(bytes, bytes[4], 5, end) {
            Some(frame) => Ok((frame, end)),
            None => Err(WireError::Malformed),
        }
    }
}

/// Whether `part` stands in `bytes` from `at` on.
pub open spec fn stands_at(bytes: Seq<u8>, at: int, part: Seq<u8>) -> bool {
    0 <= at && at + part.len() <= bytes.len() && bytes.subrange(at, at + part.len()) == part
}

/// Where the bytes of an address stand, that address is read.
proof fn lemma_addr_round_trip(bytes: Seq<u8>, at: int, end: int, addr: Address)
    requires
        stands_at(bytes, at, addr_bytes(addr)),
        at + addr_bytes(addr).len() <= end,
    ensures
        parse_addr(bytes, at, end) == Some((addr, at + addr_bytes(addr).len())),
{
    let part = addr_bytes(addr);
    let here = bytes.subrange(at, at + part.len());
    assert(bytes[at] == here[0]);
    lemma_be16_round_trip(addr.port);
    match addr.ip {
        IpAddress::V4(v) => {
            lemma_be32_round_trip(v);
            assert(bytes.subrange(at + 1, at + 5) =~= here.subrange(1, 5));
            assert(here.subrange(1, 5) =~= be32_bytes(v));
            assert(bytes.subrange(at + 5, at + 7) =~= here.subrange(5, 7));
            assert(here.subrange(5, 7) =~= be16_bytes(addr.port));
        },
        IpAddress::V6(v) => {
            lemma_be128_round_trip(v);
            assert(bytes.subrange(at + 1, at + 17) =~= here.subrange(1, 17));
            assert(here.subrange(1, 17) =~= be128_bytes(v));
            assert(bytes.subrange(at + 17, at + 19) =~= here.subrange(17, 19));
            assert(here.subrange(17, 19) =~= be16_bytes(addr.port));
        },
    }
}

/// A part of what stands somewhere stands at its own place.
proof fn lemma_part_stands(bytes: Seq<u8>, at: int, whole: Seq<u8>, from: int, to: int)
    requires
        stands_at(bytes, at, whole),
        0 <= from <= to <= whole.len(),
    ensures
        stands_at(bytes, at + from, whole.subrange(from, to)),
{
    assert(bytes.subrange(at + from, at + to) =~= bytes.subrange(at, at + whole.len()).subrange(
        from,
        to,
    ));
}

/// Where the bytes of an instance stand, that instance is read.
proof fn lemma_node_round_trip(bytes: Seq<u8>, at: int, end: int, node: ProxyStateNotifyNode)
    requires
        stands_at(bytes, at, node_bytes(node)),
        at + node_bytes(node).len() <= end,
    ensures
        parse_node(bytes, at, end) == Some((node, at + node_bytes(node).len())),
{
    reveal(node_bytes);
    let part = node_bytes(node);
    let addr = addr_bytes(node.external);
    let here = bytes.subrange(at, at + part.len());
    let n = addr.len() as int;
    assert(bytes[at] == here[0]);
    assert(bytes[at + 1 + n] == here[1 + n]);
    lemma_part_stands(bytes, at, part, 1, 1 + n);
    assert(part.subrange(1, 1 + n) =~= addr);
    lemma_addr_round_trip(bytes, at + 1, end, node.external);
}

/// Where the bytes of a list of instances stand and end, that list is
/// read.
proof fn lemma_nodes_round_trip(
    bytes: Seq<u8>,
    at: int,
    nodes: Seq<ProxyStateNotifyNode>,
)
    requires
        stands_at(bytes, at, nodes_bytes(nodes)),
    ensures
        parse_nodes(bytes, at, at + nodes_bytes(nodes).len()) == Some(nodes),
    decreases nodes.len(),
{
    let end = at + nodes_bytes(nodes).len();
    if nodes.len() == 0 {
        assert(nodes =~= Seq::empty());
    } else {
        let first = node_bytes(nodes[0]);
        let whole = nodes_bytes(nodes);
        lemma_part_stands(bytes, at, whole, 0, first.len() as int);
        assert(whole.subrange(0, first.len() as int) =~= first);
        lemma_node_round_trip(bytes, at, end, nodes[0]);
        lemma_part_stands(bytes, at, whole, first.len() as int, whole.len() as int);
        assert(whole.subrange(first.len() as int, whole.len() as int) =~= nodes_bytes(
            nodes.drop_first(),
        ));
        lemma_nodes_round_trip(bytes, at + first.len(), nodes.drop_first());
        assert(seq![nodes[0]] + nodes.drop_first() =~= nodes);
    }
}

/// Reading the bytes of a frame, whatever follows them, gives back the
/// frame and the number of its bytes.
pub proof fn law_wire_round_trip(frame: FrameView, rest: Seq<u8>)
    requires
        fits(frame),
    ensures
        parse_frame(frame_bytes(frame) + rest) == Ok::<(FrameView, int), WireError>(
            (frame, frame_bytes(frame).len() as int),
        ),
{
    let body = body_bytes(frame);
    let bytes = frame_bytes(frame) + rest;
    let total = (1 + body.len()) as u32;
    lemma_be32_round_trip(total);
    assert(bytes.subrange(0, 4) =~= be32_bytes(total));
    assert(bytes[4] == tag_of(frame));
    let end = 4 + total;
    assert(bytes.subrange(5, end as int) =~= body);
    assert(stands_at(bytes, 5, body));
    match frame {
        FrameView::State(nodes) => {
            lemma_nodes_round_trip(bytes, 5, nodes);
        },
        FrameView::Permission { id, from, peer } => {
            let a = addr_bytes(from);
            let b = addr_bytes(peer);
            let n = a.len() as int;
            let m = b.len() as int;
            lemma_part_stands(bytes, 5, body, 1, 1 + n);
            assert(body.subrange(1, 1 + n) =~= a);
            lemma_addr_round_trip(bytes, 6, end as int, from);
            lemma_part_stands(bytes, 5, body, 1 + n, 1 + n + m);
            assert(body.subrange(1 + n, 1 + n + m) =~= b);
            lemma_addr_round_trip(bytes, 6 + n, end as int, peer);
            assert(bytes[5] == body[0]);
        },
        FrameView::Relay(data) => {},
    }
}

/// What a frame carries.
#[derive(Debug)]
pub enum Frame {
    /// A state notification or a request for a permission.
    Payload(Payload),
    /// A relayed datagram.
    Relay(Vec<u8>),
}

impl View for Frame {
    type V = FrameView;

    open spec fn view(&self) -> FrameView {
        match self {
            Frame::Payload(Payload::ProxyStateNotify(nodes)) => FrameView::State(nodes@),
            Frame::Payload(Payload::CreatePermission { id, from, peer }) => FrameView::Permission {
                id: *id,
                from: *from,
                peer: *peer,
            },
            Frame::Relay(data) => FrameView::Relay(data@),
        }
    }
}

/// The bytes of a list with one more instance at its end are those of the
/// list and then those of the instance.
proof fn lemma_nodes_bytes_push(nodes: Seq<ProxyStateNotifyNode>, node: ProxyStateNotifyNode)
    ensures
        nodes_bytes(nodes.push(node)) == nodes_bytes(nodes) + node_bytes(node),
    decreases nodes.len(),
{
    let more = nodes.push(node);
    let last = node_bytes(node);
    if nodes.len() == 0 {
        assert(more[0] == node);
        assert(more.drop_first() =~= Seq::<ProxyStateNotifyNode>::empty());
        assert(nodes_bytes(more.drop_first()) =~= Seq::<u8>::empty());
        assert(nodes_bytes(nodes) =~= Seq::<u8>::empty());
        assert(nodes_bytes(more) == last + nodes_bytes(more.drop_first()));
        assert(last + Seq::<u8>::empty() =~= Seq::<u8>::empty() + last);
    } else {
        let first = node_bytes(nodes[0]);
        let middle = nodes_bytes(nodes.drop_first());
        assert(more[0] == nodes[0]);
        assert(more.drop_first() =~= nodes.drop_first().push(node));
        lemma_nodes_bytes_push(nodes.drop_first(), node);
        assert(nodes_bytes(more) == first + nodes_bytes(more.drop_first()));
        assert(nodes_bytes(more.drop_first()) == middle + last);
        assert(nodes_bytes(nodes) == first + middle);
        assert(first + (middle + last) =~= (first + middle) + last);
    }
}

/// Writes the bytes of `addr` behind `out`.
fn push_addr(out: &mut Vec<u8>, addr: &Address)
    ensures
        final(out)@ == old(out)@ + addr_bytes(*addr),
{
    match addr.ip {
        IpAddress::V4(v) => {
            out.push(FAMILY_V4);
            push_be32(out, v);
        },
        IpAddress::V6(v) => {
            out.push(FAMILY_V6);
            push_be128(out, v);
        },
    }
    push_be16(out, addr.port);
    assert(out@ =~= old(out)@ + addr_bytes(*addr));
}

/// Writes the bytes of `node` behind `out`.
fn push_node(out: &mut Vec<u8>, node: &ProxyStateNotifyNode)
    ensures
        final(out)@ == old(out)@ + node_bytes(*node),
{
    out.push(node.index);
    push_addr(out, &node.external);
    out.push(if node.online {
        1
    } else {
        0
    });
    proof {
        reveal(node_bytes);
    }
    assert(out@ =~= old(out)@ + node_bytes(*node));
}

/// Builds the body of `frame`.
fn build_body(frame: &Frame) -> (body: Vec<u8>)
    ensures
        body@ == body_bytes(frame@),
{
    let mut body: Vec<u8> = Vec::new();
    match frame {
        Frame::Payload(Payload::ProxyStateNotify(nodes)) => {
            let mut i: usize = 0;
            while i < nodes.len()
                invariant
                    i <= nodes@.len(),
                    body@ == nodes_bytes(nodes@.subrange(0, i as int)),
                decreases nodes.len() - i,
            {
                push_node(&mut body, &nodes[i]);
                proof {
                    lemma_nodes_bytes_push(nodes@.subrange(0, i as int), nodes@[i as int]);
                    assert(nodes@.subrange(0, i + 1) =~= nodes@.subrange(0, i as int).push(
                        nodes@[i as int],
                    ));
                }
                i += 1;
            }
            assert(nodes@.subrange(0, nodes@.len() as int) =~= nodes@);
        },
        Frame::Payload(Payload::CreatePermission { id, from, peer }) => {
            body.push(*id);
            push_addr(&mut body, from);
            push_addr(&mut body, peer);
            assert(body@ =~= seq![*id] + addr_bytes(*from) + addr_bytes(*peer));
        },
        Frame::Relay(data) => {
            let mut i: usize = 0;
            while i < data.len()
                invariant
                    i <= data@.len(),
                    body@ == data@.subrange(0, i as int),
                decreases data.len() - i,
            {
                body.push(data[i]);
                assert(data@.subrange(0, i + 1) =~= data@.subrange(0, i as int).push(
                    data@[i as int],
                ));
                i += 1;
            }
            assert(data@.subrange(0, data@.len() as int) =~= data@);
        },
    }
    body
}

/// The tag of `frame`.
fn tag(frame: &Frame) -> (tag: u8)
    ensures
        tag == tag_of(frame@),
{
    match frame {
        Frame::Payload(Payload::ProxyStateNotify(_)) => TAG_STATE,
        Frame::Payload(Payload::CreatePermission { .. }) => TAG_PERMISSION,
        Frame::Relay(_) => TAG_RELAY,
    }
}

/// Builds the bytes of `frame`; `None` where the frame is longer than
/// four bytes of length can tell.
pub fn encode_frame(frame: &Frame) -> (bytes: Option<Vec<u8>>)
    ensures
        bytes.is_some() == fits(frame@),
        bytes matches Some(b) ==> b@ == frame_bytes(frame@),
{
    let mut body = build_body(frame);
    if body.len() >= 0xFFFF_FFFF {
        return None;
    }
    let mut bytes: Vec<u8> = Vec::new();
    push_be32(&mut bytes, (body.len() + 1) as u32);
    bytes.push(tag(frame));
    bytes.append(&mut body);
    assert(bytes@ =~= frame_bytes(frame@));
    Some(bytes)
}

/// Reads the address that stands in `bytes` from `at` on and ends before
/// `end`.
fn read_addr(bytes: &[u8], at: usize, end: usize) -> (found: Option<(Address, usize)>)
    requires
        at <= end <= bytes@.len(),
    ensures
        match found {
            Some((addr, next)) => parse_addr(bytes@, at as int, end as int) == Some(
                (addr, next as int),
            ) && at < next <= end,
            None => parse_addr(bytes@, at as int, end as int) is None,
        },
{
    if at >= end {
        return None;
    }
    let family = bytes[at];
    if family == FAMILY_V4 && end - at >= 7 {
        let ip = read_be32(bytes, at + 1);
        let port = read_be16(bytes, at + 5);
        Some((Address { ip: IpAddress::V4(ip), port }, at + 7))
    } else if family == FAMILY_V6 && end - at >= 19 {
        let ip = read_be128(bytes, at + 1);
        let port = read_be16(bytes, at + 17);
        Some((Address { ip: IpAddress::V6(ip), port }, at + 19))
    } else {
        None
    }
}

/// Reads the instance that stands in `bytes` from `at` on and ends before
/// `end`.
fn read_node(bytes: &[u8], at: usize, end: usize) -> (found: Option<(ProxyStateNotifyNode, usize)>)
    requires
        at <= end <= bytes@.len(),
    ensures
        match found {
            Some((node, next)) => parse_node(bytes@, at as int, end as int) == Some(
                (node, next as int),
            ) && at < next <= end,
            None => parse_node(bytes@, at as int, end as int) is None,
        },
{
    if at >= end {
        return None;
    }
    match read_addr(bytes, at + 1, end) {
        Some((external, next)) => {
            if next < end && bytes[next] <= 1 {
                Some(
                    (
                        ProxyStateNotifyNode {
                            index: bytes[at],
                            external,
                            online: bytes[next] == 1,
                        },
                        next + 1,
                    ),
                )
            } else {
                None
            }
        },
        None => None,
    }
}

/// Reads the instances that stand in `bytes` from `at` up to `end`.
fn read_nodes(bytes: &[u8], at: usize, end: usize) -> (found: Option<Vec<ProxyStateNotifyNode>>)
    requires
        at <= end <= bytes@.len(),
    ensures
        match found {
            Some(nodes) => parse_nodes(bytes@, at as int, end as int) == Some(nodes@),
            None => parse_nodes(bytes@, at as int, end as int) is None,
        },
{
    let mut nodes: Vec<ProxyStateNotifyNode> = Vec::new();
    let mut here: usize = at;
    while here < end
        invariant
            at <= here <= end <= bytes@.len(),
            parse_nodes(bytes@, at as int, end as int) == match parse_nodes(
                bytes@,
                here as int,
                end as int,
            ) {
                Some(rest) => Some(nodes@ + rest),
                None => None,
            },
        decreases end - here,
    {
        match read_node(bytes, here, end) {
            Some((node, next)) => {
                proof {
                    let rest = parse_nodes(bytes@, next as int, end as int);
                    if rest is Some {
                        assert(nodes@.push(node) + rest->Some_0 =~= nodes@ + (seq![node]
                            + rest->Some_0));
                    }
                }
                nodes.push(node);
                here = next;
            },
            None => {
                return None;
            },
        }
    }
    assert(nodes@ + Seq::<ProxyStateNotifyNode>::empty() =~= nodes@);
    Some(nodes)
}

/// Reads the frame that `bytes` begins with, and says how many bytes it
/// takes.
pub fn decode_frame(bytes: &[u8]) -> (found: Result<(Frame, usize), WireError>)
    ensures
        match found {
            Ok((frame, used)) => parse_frame(bytes@) == Ok::<(FrameView, int), WireError>(
                (frame@, used as int),
            ),
            Err(e) => parse_frame(bytes@) == Err::<(FrameView, int), WireError>(e),
        },
{
    if bytes.len() < 4 {
        return Err(WireError::Incomplete);
    }
    let total = read_be32(bytes, 0);
    if total == 0 {
        return Err(WireError::Malformed);
    }
    if bytes.len() - 4 < total as usize {
        return Err(WireError::Incomplete);
    }
    let end: usize = 4 + total as usize;
    let tag = bytes[4];
    if tag == TAG_STATE {
        match read_nodes(bytes, 5, end) {
            Some(nodes) => Ok((Frame::Payload(Payload::ProxyStateNotify(nodes)), end)),
            None => Err(WireError::Malformed),
        }
    } else if tag == TAG_PERMISSION {
        if 5 >= end {
            return Err(WireError::Malformed);
        }
        let (from, next) = match read_addr(bytes, 6, end) {
            Some(found) => found,
            None => {
                return Err(WireError::Malformed);
            },
        };
        let (peer, last) = match read_addr(bytes, next, end) {
            Some(found) => found,
            None => {
                return Err(WireError::Malformed);
            },
        };
        if last != end {
            return Err(WireError::Malformed);
        }
        Ok((Frame::Payload(Payload::CreatePermission { id: bytes[5], from, peer }), end))
    } else if tag == TAG_RELAY {
        let mut data: Vec<u8> = Vec::new();
        let mut i: usize = 5;
        while i < end
            invariant
                5 <= i <= end <= bytes@.len(),
                data@ == bytes@.subrange(5, i as int),
            decreases end - i,
        {
            data.push(bytes[i]);
            assert(bytes@.subrange(5, i + 1) =~= bytes@.subrange(5, i as int).push(
                bytes@[i as int],
            ));
            i += 1;
        }
        Ok((Frame::Relay(data), end))
    } else {
        Err(WireError::Malformed)
    }
}

} // verus!
