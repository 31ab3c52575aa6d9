//! Frames: the length-delimited units of the wire protocol.
//!
//! A frame is a type byte, a 16-bit channel identifier, a 32-bit payload
//! size, the payload and an end marker.

use crate::error::{DecodeError, EncodeError};
use crate::method::{encodable, encode_method, method_payload, parse_method, Method, MethodView};
use crate::method::lemma_method_round_trip;
use crate::wire::{long_string, put_bytes, put_u16, put_u32, read_u16, read_u32};
use crate::wire::{u16_at, u16_be, u32_at};
use crate::wire::{lemma_long_string_round_trip, lemma_u16_be_len, lemma_u16_bytes_round_trip};
use crate::wire::{lemma_u16_written, lemma_u32_be_len, lemma_u32_bytes_round_trip};
use vstd::prelude::*;

verus! {

/// The byte that closes every frame.
pub const FRAME_END: u8 = 0xce;

/// Bytes of a frame that stand before its payload.
pub const FRAME_HEADER_SIZE: usize = 7;

/// The kinds of frame.
#[derive(Clone, Copy, Debug, PartialEq, Eq, Structural)]
pub enum FrameType {
    Method,
    Header,
    Body,
    Heartbeat,
}

/// What stands before the payload of a frame.
#[derive(Clone, Copy, Debug, PartialEq, Eq, Structural)]
pub struct FrameHeader {
    pub frame_type: FrameType,
    pub channel_id: u16,
    pub size: u32,
}

/// What the front of a byte window holds.
#[derive(Clone, Copy, Debug, PartialEq, Eq)]
pub enum FrameDecode {
    /// Not yet a whole frame: more bytes are needed.
    Incomplete,
    /// Bytes that no frame starts or ends with.
    Malformed(DecodeError),
    /// A whole frame, and the number of bytes it takes.
    Decoded(FrameHeader, usize),
}

/// The frame type that a type byte names.
pub open spec fn frame_type_of(byte: u8) -> Option<FrameType> {
    if byte == 1 {
        Some(FrameType::Method)
    } else if byte == 2 {
        Some(FrameType::Header)
    } else if byte == 3 {
        Some(FrameType::Body)
    } else if byte == 8 {
        Some(FrameType::Heartbeat)
    } else {
        None
    }
}

/// The type byte of a frame type.
pub open spec fn type_byte(frame_type: FrameType) -> u8 {
    match frame_type {
        FrameType::Method => 1,
        FrameType::Header => 2,
        FrameType::Body => 3,
        FrameType::Heartbeat => 8,
    }
}

/// What the front of `data` holds. A type byte is judged as soon as it is
/// there; the rest waits until the whole frame has arrived.
pub open spec fn parse_frame(data: Seq<u8>) -> FrameDecode {
    if data.len() == 0 {
        FrameDecode::Incomplete
    } else {
        match frame_type_of(data[0]) {
            None => FrameDecode::Malformed(DecodeError::UnknownFrameType),
            Some(frame_type) => if data.len() < 7 || data.len() < 8 + u32_at(data, 3) {
                FrameDecode::Incomplete
            } else if data[7 + u32_at(data, 3)] != FRAME_END {
                FrameDecode::Malformed(DecodeError::MissingFrameEnd)
            } else {
                FrameDecode::Decoded(
                    FrameHeader {
                        frame_type,
                        channel_id: u16_at(data, 1),
                        size: u32_at(data, 3),
                    },
                    (8 + u32_at(data, 3)) as usize,
                )
            },
        }
    }
}

/// The payload of the frame at the front of `data`.
pub open spec fn payload_of(data: Seq<u8>, header: FrameHeader) -> Seq<u8> {
    data.subrange(7, 7 + header.size)
}

/// The bytes of a frame.
pub open spec fn frame_bytes(frame_type: FrameType, channel_id: u16, payload: Seq<u8>) -> Seq<u8> {
    seq![type_byte(frame_type)] + u16_be(channel_id) + long_string(payload) + seq![FRAME_END]
}

/// The bytes of the frame that carries a method, or why there are none.
pub open spec fn method_frame(channel_id: u16, v: MethodView) -> Result<Seq<u8>, EncodeError> {
    if !encodable(v) {
        Err(EncodeError::Unencodable)
    } else if method_payload(v).len() > u32::MAX {
        Err(EncodeError::FrameTooLarge)
    } else {
        Ok(frame_bytes(FrameType::Method, channel_id, method_payload(v)))
    }
}

/// The preamble that opens a connection: the protocol's name and version.
pub open spec fn protocol_header() -> Seq<u8> {
    seq![0x41u8, 0x4du8, 0x51u8, 0x50u8, 0u8, 0u8, 9u8, 1u8]
}

/// Encodes the protocol header.
pub fn encode_protocol_header() -> (bytes: Vec<u8>)
    ensures
        bytes@ == protocol_header(),
{
    let mut out: Vec<u8> = Vec::new();
    out.push(0x41u8);
    out.push(0x4du8);
    out.push(0x51u8);
    out.push(0x50u8);
    out.push(0u8);
    out.push(0u8);
    out.push(9u8);
    out.push(1u8);
    assert(out@ =~= protocol_header());
    out
}

/// Decodes the frame at the front of `data`.
pub fn decode_frame(data: &[u8]) -> (decoded: FrameDecode)
    ensures
        decoded == parse_frame(data@),
        decoded matches FrameDecode::Decoded(header, taken) ==> taken == 8 + header.size,
        decoded matches FrameDecode::Decoded(header, taken) ==> taken <= data@.len(),
{
    let len: usize = data.len();
    if len == 0 {
        return FrameDecode::Incomplete;
    }
    let first: u8 = data[0];
    let frame_type = if first == 1 {
        FrameType::Method
    } else if first == 2 {
        FrameType::Header
    } else if first == 3 {
        FrameType::Body
    } else if first == 8 {
        FrameType::Heartbeat
    } else {
        return FrameDecode::Malformed(DecodeError::UnknownFrameType);
    };
    if len < FRAME_HEADER_SIZE {
        return FrameDecode::Incomplete;
    }
    let channel_id: u16 = read_u16(data, 1);
    let size: u32 = read_u32(data, 3);
    let payload_len: usize = size as usize;
    if len - FRAME_HEADER_SIZE <= payload_len {
        return FrameDecode::Incomplete;
    }
    if data[FRAME_HEADER_SIZE + payload_len] != FRAME_END {
        return FrameDecode::Malformed(DecodeError::MissingFrameEnd);
    }
    FrameDecode::Decoded(FrameHeader { frame_type, channel_id, size }, 8 + payload_len)
}

/// Encodes a frame.
pub fn encode_frame(frame_type: FrameType, channel_id: u16, payload: &[u8]) -> (encoded: Result<
    Vec<u8>,
    EncodeError,
>)
    ensures
        match encoded {
            Ok(bytes) => payload@.len() <= u32::MAX && bytes@ == frame_bytes(
                frame_type,
                channel_id,
                payload@,
            ),
            Err(e) => payload@.len() > u32::MAX && e == EncodeError::FrameTooLarge,
        },
{
    if payload.len() > 0xffff_ffff {
        return Err(EncodeError::FrameTooLarge);
    }
    let mut out: Vec<u8> = Vec::new();
    out.push(
        match frame_type {
            FrameType::Method => 1u8,
            FrameType::Header => 2u8,
            FrameType::Body => 3u8,
            FrameType::Heartbeat => 8u8,
        },
    );
    put_u16(&mut out, channel_id);
    put_u32(&mut out, payload.len() as u32);
    put_bytes(&mut out, payload);
    out.push(FRAME_END);
    assert(out@ =~= frame_bytes(frame_type, channel_id, payload@));
    Ok(out)
}

/// Encodes the frame that carries `method` on channel `channel_id`.
pub fn encode_method_frame(channel_id: u16, method: &Method) -> (encoded: Result<
    Vec<u8>,
    EncodeError,
>)
    requires
        method.wf(),
    ensures
        match encoded {
            Ok(bytes) => method_frame(channel_id, method@) == Ok::<Seq<u8>, EncodeError>(bytes@),
            Err(e) => method_frame(channel_id, method@) == Err::<Seq<u8>, EncodeError>(e),
        },
{
    match encode_method(method) {
        Ok(payload) => encode_frame(FrameType::Method, channel_id, payload.as_slice()),
        Err(e) => Err(e),
    }
}

/// A frame is decoded as it was encoded, whatever follows it.
pub proof fn lemma_frame_round_trip(
    frame_type: FrameType,
    channel_id: u16,
    payload: Seq<u8>,
    rest: Seq<u8>,
)
    requires
        payload.len() <= u32::MAX,
    ensures
        frame_bytes(frame_type, channel_id, payload).len() == payload.len() + 8,
        parse_frame(frame_bytes(frame_type, channel_id, payload) + rest) == FrameDecode::Decoded(
            FrameHeader { frame_type, channel_id, size: payload.len() as u32 },
            (8 + payload.len()) as usize,
        ),
        payload_of(
            frame_bytes(frame_type, channel_id, payload) + rest,
            FrameHeader { frame_type, channel_id, size: payload.len() as u32 },
        ) == payload,
{
    let data = frame_bytes(frame_type, channel_id, payload) + rest;
    let first = seq![type_byte(frame_type)];
    let tail = seq![FRAME_END] + rest;
    lemma_u16_be_len(channel_id);
    assert(data =~= first + u16_be(channel_id) + (long_string(payload) + tail));
    lemma_u16_written(first, channel_id, long_string(payload) + tail);
    assert(data =~= (first + u16_be(channel_id)) + long_string(payload) + tail);
    lemma_long_string_round_trip(first + u16_be(channel_id), payload, tail);
    assert(data[0] == type_byte(frame_type));
    assert(data[(7 + payload.len()) as int] == FRAME_END);
    assert(data.subrange(7, (7 + payload.len()) as int) =~= payload);
}

/// Encoding a method and decoding the frame gives an equal method, on the
/// channel it was sent on, whatever follows the frame.
pub proof fn lemma_method_frame_round_trip(channel_id: u16, v: MethodView, rest: Seq<u8>)
    requires
        method_frame(channel_id, v) is Ok,
    ensures
        parse_frame(method_frame(channel_id, v).unwrap() + rest) matches FrameDecode::Decoded(
            header,
            taken,
        ) && header.frame_type == FrameType::Method && header.channel_id == channel_id
            && parse_method(payload_of(method_frame(channel_id, v).unwrap() + rest, header))
            == Ok::<MethodView, DecodeError>(v),
{
    let payload = method_payload(v);
    let frame = frame_bytes(FrameType::Method, channel_id, payload);
    let header = FrameHeader {
        frame_type: FrameType::Method,
        channel_id,
        size: payload.len() as u32,
    };
    assert(method_frame(channel_id, v).unwrap() == frame);
    lemma_frame_round_trip(FrameType::Method, channel_id, payload, rest);
    assert(payload_of(frame + rest, header) == payload);
    lemma_method_round_trip(v);
}

/// The bytes of a decoded frame, which are eight more than its payload,
/// are the encoding of that frame: only the encoding of a frame is
/// decoded.
pub proof fn lemma_frame_bytes_round_trip(data: Seq<u8>)
    requires
        parse_frame(data) is Decoded,
    ensures
        parse_frame(data) matches FrameDecode::Decoded(header, taken) && 8 + header.size
            <= data.len() && data.subrange(0, 8 + header.size) == frame_bytes(
            header.frame_type,
            header.channel_id,
            payload_of(data, header),
        ),
{
    let size = u32_at(data, 3);
    let taken = 8 + size;
    lemma_u16_bytes_round_trip(data, 1);
    lemma_u32_bytes_round_trip(data, 3);
    lemma_u16_be_len(u16_at(data, 1));
    lemma_u32_be_len(size);
    let header = parse_frame(data)->Decoded_0;
    assert(type_byte(header.frame_type) == data[0]);
    assert(payload_of(data, header).len() == size);
    assert(data.subrange(0, taken) =~= frame_bytes(
        header.frame_type,
        header.channel_id,
        payload_of(data, header),
    ));
}

} // verus!
