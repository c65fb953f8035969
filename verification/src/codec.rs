//! The codec as one value with a decoding and an encoding side, in the
//! shape that framed transports ask for.

use bytes::BytesMut;
use vstd::prelude::*;
use crate::buf::{buffer_len, bytes_mut_view, can_grow};
use crate::decode::mqtt_read;
use crate::encode::{mqtt_write, packet_reserve};
use crate::error::Error;
use crate::packet::{Packet, PacketView};
use crate::wire::{packet_fault, packet_frame, stream_consumed, stream_read};

verus! {

/// Decodes packets from a receive buffer and encodes them into a send buffer.
#[derive(Debug, Clone, Copy, PartialEq, Eq, Structural)]
pub struct MqttCodec;

impl MqttCodec {
    /// Takes the next packet off `buf` if a whole frame is there, and
    /// nothing if more bytes have to arrive first.
    pub fn decode(&mut self, buf: &mut BytesMut) -> (r: Result<Option<Packet>, Error>)
        ensures
            match r {
                Ok(Some(p)) => stream_read(bytes_mut_view(*old(buf))) == Ok::<PacketView, Error>(
                    p@,
                ),
                Ok(None) => stream_read(bytes_mut_view(*old(buf))) matches Err(e)
                    && e is Insufficient,
                Err(e) => stream_read(bytes_mut_view(*old(buf))) == Err::<PacketView, Error>(e)
                    && !(e is Insufficient),
            },
            bytes_mut_view(*final(buf)) == bytes_mut_view(*old(buf)).skip(
                stream_consumed(bytes_mut_view(*old(buf))) as int,
            ),
    {
        // `decode` might be called with `buf.len == 0`
        if buffer_len(buf) < 2 {
            assert(bytes_mut_view(*buf).skip(0) =~= bytes_mut_view(*buf));
            return Ok(None);
        }
        let packet = match mqtt_read(buf) {
            Ok(packet) => packet,
            Err(Error::Insufficient(_)) => {
                return Ok(None);
            },
            Err(e) => {
                return Err(e);
            },
        };
        Ok(Some(packet))
    }

    /// Appends the frame of `packet` to `buf`; a packet that cannot be put
    /// on the wire is refused, and nothing is written.
    pub fn encode(&mut self, packet: Packet, buf: &mut BytesMut) -> (r: Result<(), Error>)
        requires
            packet_fault(packet@) is None ==> can_grow(*old(buf), packet_reserve(packet@) as int),
        ensures
            match packet_fault(packet@) {
                Some(e) => r == Err::<(), Error>(e) && bytes_mut_view(*final(buf))
                    == bytes_mut_view(*old(buf)),
                None => r == Ok::<(), Error>(()) && bytes_mut_view(*final(buf)) == bytes_mut_view(
                    *old(buf),
                ) + packet_frame(packet@),
            },
    {
        mqtt_write(packet, buf)
    }
}

} // verus!
