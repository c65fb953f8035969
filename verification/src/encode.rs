//! Writing packets into a send buffer.

use bytes::BytesMut;
use vstd::prelude::*;
use vstd::utf8::encode_utf8;
use crate::buf::{
    buffer_extend_from_slice, buffer_put_u16, buffer_put_u8, buffer_reserve, bytes_len,
    bytes_mut_view, bytes_slice, can_grow, u16_be,
};
use crate::error::Error;
use crate::header::{
    lemma_remaining_length_size, remaining_length_bytes, write_remaining_length,
    MAX_REMAINING_LENGTH,
};
use crate::packet::{Packet, PacketView, Publish, PublishView};
use crate::wire::{packet_fault, packet_frame, publish_fault, publish_frame, puback_frame};

verus! {

/// Room that is set aside in the send buffer before a publish is written:
/// topic, payload, and ten bytes for all the rest.
pub open spec fn publish_reserve(p: PublishView) -> nat {
    encode_utf8(p.topic).len() + p.payload.len() + 10
}

/// Room that is set aside in the send buffer before a packet is written.
pub open spec fn packet_reserve(p: PacketView) -> nat {
    match p {
        PacketView::Publish(publish) => publish_reserve(publish),
        PacketView::PubAck(_) => 4,
    }
}

/// Appends `string` behind its length in two bytes.
pub(crate) fn write_mqtt_string(stream: &mut BytesMut, string: &str)
    requires
        encode_utf8(string@).len() <= 0xFFFF,
        can_grow(*old(stream), 2 + encode_utf8(string@).len() as int),
    ensures
        bytes_mut_view(*final(stream)) == bytes_mut_view(*old(stream)) + u16_be(
            encode_utf8(string@).len() as u16,
        ) + encode_utf8(string@),
{
    let bytes = string.as_bytes();
    buffer_put_u16(stream, bytes.len() as u16);
    buffer_extend_from_slice(stream, bytes);
}

/// The control byte of a publish with the given flags.
fn control_byte(retain: bool, qos: u8, dup: bool) -> (control: u8)
    requires
        qos <= 2,
    ensures
        control == 0x30 + (if dup { 8int } else { 0int }) + 2 * qos + (if retain {
            1int
        } else {
            0int
        }),
{
    let r: u8 = if retain { 1 } else { 0 };
    let d: u8 = if dup { 1 } else { 0 };
    assert((0b0011_0000u8 | r | (qos << 1) | (d << 3)) == 0x30 + 8 * d + 2 * qos + r)
        by (bit_vector)
        requires
            r <= 1,
            d <= 1,
            qos <= 2,
    ;
    0b0011_0000 | r | (qos << 1) | (d << 3)
}

impl Publish {
    /// Why this publish cannot be put on the wire, if it cannot.
    pub fn fault(&self) -> (fault: Option<Error>)
        ensures
            fault == publish_fault(self@),
    {
        if self.qos > 2 {
            return Some(Error::InvalidQos(self.qos));
        }
        if self.qos != 0 && self.pkid == 0 {
            return Some(Error::ZeroPacketId);
        }
        let topic_len = self.topic.as_str().as_bytes().len();
        if topic_len > 0xFFFF {
            return Some(Error::TopicTooLong);
        }
        let id_len: usize = if self.qos != 0 { 2 } else { 0 };
        if bytes_len(&self.payload) > MAX_REMAINING_LENGTH - 2 - topic_len - id_len {
            return Some(Error::PayloadTooLong);
        }
        None
    }
}

impl Packet {
    /// Why this packet cannot be put on the wire, if it cannot.
    pub fn fault(&self) -> (fault: Option<Error>)
        ensures
            fault == packet_fault(self@),
    {
        match self {
            Packet::Publish(publish) => publish.fault(),
            Packet::PubAck(_) => None,
        }
    }
}

/// Appends the frame of `packet` to `payload`. A publish that cannot be put
/// on the wire is refused, and nothing is written.
pub fn disassemble(packet: Publish, payload: &mut BytesMut) -> (r: Result<(), Error>)
    requires
        publish_fault(packet@) is None ==> can_grow(
            *old(payload),
            publish_reserve(packet@) as int,
        ),
    ensures
        match publish_fault(packet@) {
            Some(e) => r == Err::<(), Error>(e) && bytes_mut_view(*final(payload))
                == bytes_mut_view(*old(payload)),
            None => r == Ok::<(), Error>(()) && bytes_mut_view(*final(payload)) == bytes_mut_view(
                *old(payload),
            ) + publish_frame(packet@),
        },
{
    if let Some(e) = packet.fault() {
        return Err(e);
    }
    let topic_len = packet.topic.as_str().as_bytes().len();
    let payload_len = bytes_len(&packet.payload);
    let id_len: usize = if packet.qos != 0 { 2 } else { 0 };
    let ghost start = bytes_mut_view(*payload);
    let ghost view = packet@;
    let ghost topic = encode_utf8(view.topic);
    let ghost id = if view.qos != 0 { u16_be(view.pkid) } else { Seq::<u8>::empty() };
    buffer_reserve(payload, topic_len + payload_len + 10);
    let control = control_byte(packet.retain, packet.qos, packet.dup);
    buffer_put_u8(payload, control);
    let len = topic_len + 2 + payload_len + id_len;
    match write_remaining_length(payload, len) {
        Ok(()) => {},
        Err(e) => {
            return Err(e);
        },
    }
    proof {
        lemma_remaining_length_size(len as nat);
    }
    write_mqtt_string(payload, packet.topic.as_str());
    if packet.qos != 0 {
        buffer_put_u16(payload, packet.pkid);
    }
    assert(bytes_mut_view(*payload) == start.push(control) + remaining_length_bytes(len as nat)
        + u16_be(topic.len() as u16) + topic + id);
    buffer_extend_from_slice(payload, bytes_slice(&packet.payload));
    proof {
        lemma_frame_concat(
            start,
            control,
            remaining_length_bytes(len as nat),
            u16_be(topic.len() as u16),
            topic,
            id,
            view.payload,
        );
    }
    Ok(())
}

/// Bytes appended piece by piece are the bytes of the pieces put together.
proof fn lemma_frame_concat(
    start: Seq<u8>,
    control: u8,
    length: Seq<u8>,
    prefix: Seq<u8>,
    topic: Seq<u8>,
    id: Seq<u8>,
    body: Seq<u8>,
)
    ensures
        start.push(control) + length + prefix + topic + id + body == start + (seq![control]
            + length + (prefix + topic + id + body)),
{
    assert(start.push(control) + length + prefix + topic + id + body =~= start + (seq![control]
        + length + (prefix + topic + id + body)));
}

/// Appends the frame of `packet` to `payload`. A packet that cannot be put
/// on the wire is refused, and nothing is written.
pub fn mqtt_write(packet: Packet, payload: &mut BytesMut) -> (r: Result<(), Error>)
    requires
        packet_fault(packet@) is None ==> can_grow(*old(payload), packet_reserve(packet@) as int),
    ensures
        match packet_fault(packet@) {
            Some(e) => r == Err::<(), Error>(e) && bytes_mut_view(*final(payload))
                == bytes_mut_view(*old(payload)),
            None => r == Ok::<(), Error>(()) && bytes_mut_view(*final(payload)) == bytes_mut_view(
                *old(payload),
            ) + packet_frame(packet@),
        },
{
    match packet {
        Packet::Publish(packet) => disassemble(packet, payload),
        Packet::PubAck(packet) => {
            let ghost start = bytes_mut_view(*payload);
            buffer_reserve(payload, 4);
            buffer_put_u8(payload, 0x40);
            buffer_put_u8(payload, 0x02);
            buffer_put_u16(payload, packet.pkid);
            proof {
                assert(bytes_mut_view(*payload) =~= start + puback_frame(packet));
            }
            Ok(())
        },
    }
}

} // verus!
