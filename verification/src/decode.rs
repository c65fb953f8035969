//! Reading packets out of a receive buffer.

use bytes::{Bytes, BytesMut};
use vstd::prelude::*;
use vstd::slice::slice_to_vec;
use vstd::utf8::{encode_utf8, encode_utf8_decode_utf8, valid_utf8};
use crate::buf::{
    buffer_freeze, buffer_len, buffer_slice, buffer_split_to, bytes_advance, bytes_get_u16,
    bytes_len, bytes_mut_view, bytes_slice, bytes_split_to, bytes_view,
};
use crate::error::Error;
use crate::header::{header_len, parse_fixed_header, FixedHeader};
use crate::packet::{
    packet_result, publish_result, Packet, PacketView, PubAck, Publish, PublishView,
};
use crate::wire::{
    after_string, assemble_puback, assemble_publish, parse_string, stream_consumed,
    stream_header, stream_read, stream_read_publish,
};

verus! {

/// `String::from_utf8`: the vector becomes a string exactly when its bytes
/// are valid UTF-8, and the string is then made of those bytes.
#[verifier::external_body]
fn string_from_utf8(v: Vec<u8>) -> (r: Option<String>)
    ensures
        r is Some <==> valid_utf8(v@),
        r matches Some(s) ==> encode_utf8(s@) == v@,
{
    match String::from_utf8(v) {
        Ok(s) => Some(s),
        Err(_) => None,
    }
}

/// Reads a length-prefixed string off the front of `stream`.
pub fn read_mqtt_string(stream: &mut Bytes) -> (r: Result<String, Error>)
    ensures
        match r {
            Ok(s) => parse_string(bytes_view(*old(stream))) == Ok::<Seq<char>, Error>(s@),
            Err(e) => parse_string(bytes_view(*old(stream))) == Err::<Seq<char>, Error>(e),
        },
        bytes_view(*final(stream)) == after_string(bytes_view(*old(stream))),
{
    let ghost start = bytes_view(*stream);
    if bytes_len(stream) < 2 {
        return Err(Error::TruncatedFrame);
    }
    let len = bytes_get_u16(stream) as usize;
    if bytes_len(stream) < len {
        return Err(Error::TruncatedFrame);
    }
    let s = bytes_split_to(stream, len);
    proof {
        assert(bytes_view(s) =~= start.subrange(2, 2 + len));
        assert(bytes_view(*stream) =~= start.skip(2 + len));
    }
    match string_from_utf8(slice_to_vec(bytes_slice(&s))) {
        Some(v) => {
            proof {
                encode_utf8_decode_utf8(v@);
            }
            Ok(v)
        },
        None => Err(Error::InvalidTopic),
    }
}

/// Reads a publish out of a frame: `byte1` is the frame's control byte, and
/// its content starts at `variable_header_index`. The payload shares the
/// frame's storage.
pub fn assemble(byte1: u8, variable_header_index: usize, payload: Bytes) -> (r: Result<
    Publish,
    Error,
>)
    ensures
        publish_result(r) == assemble_publish(byte1, variable_header_index, bytes_view(payload)),
{
    let mut payload = payload;
    let qos = (byte1 & 0b0110) >> 1;
    let dup = (byte1 & 0b1000) != 0;
    let retain = (byte1 & 0b0001) != 0;
    proof {
        assert((byte1 & 0b0110) >> 1 == (byte1 / 2) % 4) by (bit_vector);
        assert(((byte1 & 0b1000) != 0) == ((byte1 / 8) % 2 == 1)) by (bit_vector);
        assert(((byte1 & 0b0001) != 0) == (byte1 % 2 == 1)) by (bit_vector);
    }
    if variable_header_index > bytes_len(&payload) {
        return Err(Error::TruncatedFrame);
    }
    bytes_advance(&mut payload, variable_header_index);
    let topic = match read_mqtt_string(&mut payload) {
        Ok(topic) => topic,
        Err(e) => {
            return Err(e);
        },
    };
    // Packet identifier exists where QoS > 0
    let pkid = match qos {
        0 => 0,
        1 | 2 => {
            if bytes_len(&payload) < 2 {
                return Err(Error::TruncatedFrame);
            }
            bytes_get_u16(&mut payload)
        },
        qos => {
            return Err(Error::InvalidQos(qos));
        },
    };
    if qos != 0 && pkid == 0 {
        return Err(Error::ZeroPacketId);
    }
    Ok(Publish { qos, pkid, topic, payload, dup, retain })
}

impl Publish {
    /// Reads a publish out of the frame that `fixed_header` opens.
    pub fn assemble(fixed_header: FixedHeader, payload: Bytes) -> (r: Result<Publish, Error>)
        ensures
            publish_result(r) == assemble_publish(
                fixed_header.byte1,
                fixed_header.header_len,
                bytes_view(payload),
            ),
    {
        assemble(fixed_header.byte1, fixed_header.header_len, payload)
    }
}

impl PubAck {
    /// Reads an acknowledge out of the frame that `fixed_header` opens.
    pub fn assemble(fixed_header: FixedHeader, bytes: Bytes) -> (r: Result<PubAck, Error>)
        ensures
            r == assemble_puback(fixed_header, bytes_view(bytes)),
    {
        let mut bytes = bytes;
        if fixed_header.remaining_len != 2 {
            return Err(Error::PayloadSizeIncorrect);
        }
        if fixed_header.header_len > bytes_len(&bytes) {
            return Err(Error::TruncatedFrame);
        }
        bytes_advance(&mut bytes, fixed_header.header_len);
        if bytes_len(&bytes) < 2 {
            return Err(Error::TruncatedFrame);
        }
        let pkid = bytes_get_u16(&mut bytes);
        let puback = PubAck { pkid };
        Ok(puback)
    }
}

/// Cuts the frame at the front of `stream` off it, once it is all there,
/// and hands it out with its fixed header. Until then nothing is taken.
fn next_frame(stream: &mut BytesMut) -> (r: Result<(FixedHeader, Bytes), Error>)
    ensures
        match r {
            Ok((header, frame)) => {
                let len = header.header_len + header.remaining_len;
                &&& stream_header(bytes_mut_view(*old(stream))) == Ok::<FixedHeader, Error>(header)
                &&& bytes_mut_view(*old(stream)).len() >= len
                &&& bytes_view(frame) == bytes_mut_view(*old(stream)).take(len)
                &&& bytes_mut_view(*final(stream)) == bytes_mut_view(*old(stream)).skip(len)
            },
            Err(e) => {
                &&& stream_read(bytes_mut_view(*old(stream))) == Err::<PacketView, Error>(e)
                &&& stream_read_publish(bytes_mut_view(*old(stream))) == Err::<PublishView, Error>(
                    e,
                )
                &&& stream_consumed(bytes_mut_view(*old(stream))) == 0
                &&& bytes_mut_view(*final(stream)) == bytes_mut_view(*old(stream))
            },
        },
{
    // The header is read without taking anything off the stream
    let (byte1, remaining_len) = match parse_fixed_header(buffer_slice(stream)) {
        Ok(parsed) => parsed,
        Err(e) => {
            return Err(e);
        },
    };
    let header_len = match header_len(remaining_len) {
        Ok(n) => n,
        Err(e) => {
            return Err(e);
        },
    };
    let len = header_len + remaining_len;
    // The frame is asked for whole before any of it is taken
    if buffer_len(stream) < len {
        return Err(Error::Insufficient(len));
    }
    let fixed_header = FixedHeader { byte1, header_len, remaining_len };
    let s = buffer_split_to(stream, len);
    Ok((fixed_header, buffer_freeze(s)))
}

/// Reads the publish at the front of `stream`, whatever the kind of the
/// frame says. An incomplete frame leaves the stream as it is.
pub fn next_packet(stream: &mut BytesMut) -> (r: Result<Publish, Error>)
    ensures
        publish_result(r) == stream_read_publish(bytes_mut_view(*old(stream))),
        bytes_mut_view(*final(stream)) == bytes_mut_view(*old(stream)).skip(
            stream_consumed(bytes_mut_view(*old(stream))) as int,
        ),
{
    let ghost start = bytes_mut_view(*stream);
    match next_frame(stream) {
        Ok((header, frame)) => assemble(header.byte1, header.header_len, frame),
        Err(e) => {
            assert(start.skip(0) =~= start);
            Err(e)
        },
    }
}

/// Reads the packet at the front of `stream`. An incomplete frame leaves
/// the stream as it is and asks for more bytes; a complete one is taken off
/// the stream, whether or not it then reads as a packet.
pub fn mqtt_read(stream: &mut BytesMut) -> (r: Result<Packet, Error>)
    ensures
        packet_result(r) == stream_read(bytes_mut_view(*old(stream))),
        bytes_mut_view(*final(stream)) == bytes_mut_view(*old(stream)).skip(
            stream_consumed(bytes_mut_view(*old(stream))) as int,
        ),
{
    let ghost start = bytes_mut_view(*stream);
    let (fixed_header, frame) = match next_frame(stream) {
        Ok(framed) => framed,
        Err(e) => {
            assert(start.skip(0) =~= start);
            return Err(e);
        },
    };
    let byte1 = fixed_header.byte1;
    let control_type = byte1 >> 4;
    assert(byte1 >> 4 == byte1 / 16) by (bit_vector);
    match control_type {
        3 => match Publish::assemble(fixed_header, frame) {
            Ok(publish) => Ok(Packet::Publish(publish)),
            Err(e) => Err(e),
        },
        4 => match PubAck::assemble(fixed_header, frame) {
            Ok(ack) => Ok(Packet::PubAck(ack)),
            Err(e) => Err(e),
        },
        typ => Err(Error::UnknownPacketType(typ)),
    }
}

} // verus!
