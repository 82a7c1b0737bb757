//! Channel data frames: the channel number, the length of the payload, the
//! payload, and on stream transports the padding to a multiple of four.

use crate::numbers::be16;
use crate::numbers::be16_bytes;
use crate::numbers::push_be16;
use crate::numbers::read_be16;
use crate::router::channels::is_valid_channel;
use crate::router::channels::valid_channel;
use vstd::prelude::*;

verus! {

/// The longest payload that a frame can carry.
pub const MAX_PAYLOAD: usize = 0xFFFF;

/// How many bytes of padding follow a payload of `len` bytes to fill it
/// up to a multiple of four.
pub open spec fn pad_len(len: nat) -> nat {
    ((4 - len % 4) % 4) as nat
}

/// The frame that carries `data` under the channel `number`; with
/// `padded`, filled up with zero bytes to a multiple of four.
pub open spec fn channel_frame(number: u16, data: Seq<u8>, padded: bool) -> Seq<u8> {
    be16_bytes(number) + be16_bytes(data.len() as u16) + data + Seq::new(
        if padded {
            pad_len(data.len())
        } else {
            0
        },
        |i: int| 0u8,
    )
}

/// What stands at the head of a channel data frame.
#[derive(Clone, Copy, Debug, PartialEq, Eq, Structural)]
pub struct ChannelHeader {
    pub number: u16,
    /// The length of the payload, which follows the four bytes of the
    /// header.
    pub len: u16,
}

/// The header of the frame that `bytes` begins with: there is one where
/// the bytes hold a header with a channel number that can be bound, and
/// the whole payload that the header announces.
pub open spec fn channel_header(bytes: Seq<u8>) -> Option<ChannelHeader> {
    if bytes.len() >= 4 && valid_channel(be16(bytes.subrange(0, 2))) && 4 + be16(
        bytes.subrange(2, 4),
    ) <= bytes.len() {
        Some(
            ChannelHeader { number: be16(bytes.subrange(0, 2)), len: be16(bytes.subrange(2, 4)) },
        )
    } else {
        None
    }
}

/// The payload of a frame with the header `header`.
pub open spec fn channel_payload(bytes: Seq<u8>, header: ChannelHeader) -> Seq<u8> {
    bytes.subrange(4, 4 + header.len)
}

/// Reading a frame that was built gives back the channel number and the
/// payload, padded or not.
pub proof fn law_frame_round_trip(number: u16, data: Seq<u8>, padded: bool)
    requires
        valid_channel(number),
        data.len() <= MAX_PAYLOAD,
    ensures
        channel_header(channel_frame(number, data, padded)) == Some(
            ChannelHeader { number, len: data.len() as u16 },
        ),
        channel_payload(
            channel_frame(number, data, padded),
            ChannelHeader { number, len: data.len() as u16 },
        ) == data,
{
    let frame = channel_frame(number, data, padded);
    assert(frame.subrange(0, 2) =~= be16_bytes(number));
    assert(frame.subrange(2, 4) =~= be16_bytes(data.len() as u16));
    crate::numbers::lemma_be16_round_trip(number);
    crate::numbers::lemma_be16_round_trip(data.len() as u16);
    assert(channel_payload(frame, ChannelHeader { number, len: data.len() as u16 }) =~= data);
}

/// Reads the header of the frame that `bytes` begins with.
pub fn parse_channel_header(bytes: &[u8]) -> (header: Option<ChannelHeader>)
    ensures
        header == channel_header(bytes@),
{
    if bytes.len() < 4 {
        return None;
    }
    let number = read_be16(bytes, 0);
    let len = read_be16(bytes, 2);
    if !is_valid_channel(number) {
        return None;
    }
    if len as usize > bytes.len() - 4 {
        return None;
    }
    Some(ChannelHeader { number, len })
}

/// Builds the frame that carries `data` under the channel `number`; with
/// `padded`, filled up to a multiple of four. `None` where the number
/// cannot be bound or the data is longer than a frame can carry.
pub fn build_channel_frame(number: u16, data: &[u8], padded: bool) -> (frame: Option<Vec<u8>>)
    ensures
        frame.is_some() == (valid_channel(number) && data@.len() <= MAX_PAYLOAD),
        frame matches Some(bytes) ==> bytes@ == channel_frame(number, data@, padded),
{
    if !is_valid_channel(number) || data.len() > MAX_PAYLOAD {
        return None;
    }
    let len: u16 = data.len() as u16;
    let mut bytes: Vec<u8> = Vec::new();
    push_be16(&mut bytes, number);
    push_be16(&mut bytes, len);
    assert(bytes@ =~= be16_bytes(number) + be16_bytes(len) + data@.subrange(0, 0));
    let mut i: usize = 0;
    while i < data.len()
        invariant
            i <= data@.len(),
            bytes@ == be16_bytes(number) + be16_bytes(len) + data@.subrange(0, i as int),
        decreases data.len() - i,
    {
        bytes.push(data[i]);
        assert(data@.subrange(0, i + 1) =~= data@.subrange(0, i as int).push(data@[i as int]));
        i += 1;
    }
    assert(data@.subrange(0, data@.len() as int) =~= data@);
    let pad: usize = if padded {
        (4 - data.len() % 4) % 4
    } else {
        0
    };
    let mut k: usize = 0;
    while k < pad
        invariant
            k <= pad,
            bytes@ == be16_bytes(number) + be16_bytes(len) + data@ + Seq::new(
                k as nat,
                |i: int| 0u8,
            ),
        decreases pad - k,
    {
        bytes.push(0);
        assert(Seq::new((k + 1) as nat, |i: int| 0u8) =~= Seq::new(k as nat, |i: int| 0u8).push(0u8));
        k += 1;
    }
    Some(bytes)
}

} // verus!
