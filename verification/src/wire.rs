//! The wire format, stated over plain values.
//!
//! A frame is a control byte, the remaining length, and that many bytes of
//! content. For a publish the content is the topic, prefixed by its length
//! in two bytes, then the packet id in two bytes if an acknowledgment is
//! asked for, then the payload. For an acknowledge it is the packet id.
//! Numbers of more than one byte are big-endian.

use vstd::prelude::*;
use vstd::utf8::{decode_utf8, encode_utf8, valid_utf8};
use crate::buf::{u16_be, u16_from_be};
use crate::error::Error;
use crate::header::{
    remaining_length_bytes, spec_header_len, spec_parse_fixed_header, FixedHeader,
    MAX_REMAINING_LENGTH,
};
use crate::packet::{PacketView, PubAck, PublishView};

verus! {

/// The packet kind that the high nibble of the control byte names.
pub open spec fn control_type(control: u8) -> u8 {
    control / 16
}

/// The quality-of-service bits of a control byte.
pub open spec fn control_qos(control: u8) -> u8 {
    (control / 2) % 4
}

/// The duplicate flag of a control byte.
pub open spec fn control_dup(control: u8) -> bool {
    (control / 8) % 2 == 1
}

/// The retain flag of a control byte.
pub open spec fn control_retain(control: u8) -> bool {
    control % 2 == 1
}

/// The control byte of a publish: kind 3 in the high nibble, then the
/// duplicate flag, two bits of quality of service, and the retain flag.
pub open spec fn publish_control_byte(p: PublishView) -> u8 {
    (0x30 + (if p.dup { 8int } else { 0int }) + 2 * (p.qos % 4) + (if p.retain {
        1int
    } else {
        0int
    })) as u8
}

/// The content of a publish frame: everything behind the fixed header.
pub open spec fn publish_content(p: PublishView) -> Seq<u8> {
    u16_be(encode_utf8(p.topic).len() as u16) + encode_utf8(p.topic) + (if p.qos != 0 {
        u16_be(p.pkid)
    } else {
        Seq::<u8>::empty()
    }) + p.payload
}

/// Number of bytes of `publish_content`.
pub open spec fn publish_content_len(p: PublishView) -> nat {
    2 + encode_utf8(p.topic).len() + (if p.qos != 0 { 2nat } else { 0nat }) + p.payload.len()
}

/// The frame of a publish.
pub open spec fn publish_frame(p: PublishView) -> Seq<u8> {
    seq![publish_control_byte(p)] + remaining_length_bytes(publish_content_len(p))
        + publish_content(p)
}

/// The frame of an acknowledge: always four bytes.
pub open spec fn puback_frame(ack: PubAck) -> Seq<u8> {
    seq![0x40u8, 0x02u8] + u16_be(ack.pkid)
}

/// The frame of a packet.
pub open spec fn packet_frame(p: PacketView) -> Seq<u8> {
    match p {
        PacketView::Publish(publish) => publish_frame(publish),
        PacketView::PubAck(ack) => puback_frame(ack),
    }
}

/// Why a publish cannot be put on the wire, if it cannot: the first of
/// these that applies. A quality of service above 2; a packet id of 0 where
/// an acknowledgment is asked for; a topic whose length does not fit its
/// two-byte prefix; content beyond what the remaining length can express.
pub open spec fn publish_fault(p: PublishView) -> Option<Error> {
    if p.qos > 2 {
        Some(Error::InvalidQos(p.qos))
    } else if p.qos != 0 && p.pkid == 0 {
        Some(Error::ZeroPacketId)
    } else if encode_utf8(p.topic).len() > 0xFFFF {
        Some(Error::TopicTooLong)
    } else if publish_content_len(p) > MAX_REMAINING_LENGTH {
        Some(Error::PayloadTooLong)
    } else {
        None
    }
}

/// Why a packet cannot be put on the wire, if it cannot. An acknowledge
/// always can.
pub open spec fn packet_fault(p: PacketView) -> Option<Error> {
    match p {
        PacketView::Publish(publish) => publish_fault(publish),
        PacketView::PubAck(_) => None,
    }
}

/// What a length-prefixed string at the start of `s` reads as: the two-byte
/// length, then that many bytes of UTF-8.
pub open spec fn parse_string(s: Seq<u8>) -> Result<Seq<char>, Error> {
    if s.len() < 2 {
        Err(Error::TruncatedFrame)
    } else {
        let len = u16_from_be(s[0], s[1]) as int;
        if s.len() < 2 + len {
            Err(Error::TruncatedFrame)
        } else if !valid_utf8(s.subrange(2, 2 + len)) {
            Err(Error::InvalidTopic)
        } else {
            Ok(decode_utf8(s.subrange(2, 2 + len)))
        }
    }
}

/// What is left of `s` once a string has been read from it, or once the
/// attempt has failed: the length prefix is consumed as soon as it is
/// there, the string as soon as it is complete.
pub open spec fn after_string(s: Seq<u8>) -> Seq<u8> {
    if s.len() < 2 {
        s
    } else {
        let len = u16_from_be(s[0], s[1]) as int;
        if s.len() < 2 + len {
            s.skip(2)
        } else {
            s.skip(2 + len)
        }
    }
}

/// What the content of a publish frame reads as under the given control
/// byte. The topic comes first; then the quality of service decides whether
/// a packet id follows; what is left is the payload.
pub open spec fn parse_publish(control: u8, content: Seq<u8>) -> Result<PublishView, Error> {
    let qos = control_qos(control);
    match parse_string(content) {
        Err(e) => Err(e),
        Ok(topic) => {
            let rest = after_string(content);
            if qos == 3 {
                Err(Error::InvalidQos(qos))
            } else if qos == 0 {
                Ok(
                    PublishView {
                        topic,
                        dup: control_dup(control),
                        retain: control_retain(control),
                        qos,
                        pkid: 0,
                        payload: rest,
                    },
                )
            } else if rest.len() < 2 {
                Err(Error::TruncatedFrame)
            } else if u16_from_be(rest[0], rest[1]) == 0 {
                Err(Error::ZeroPacketId)
            } else {
                Ok(
                    PublishView {
                        topic,
                        dup: control_dup(control),
                        retain: control_retain(control),
                        qos,
                        pkid: u16_from_be(rest[0], rest[1]),
                        payload: rest.skip(2),
                    },
                )
            }
        },
    }
}

/// What the content of an acknowledge frame reads as: the packet id.
pub open spec fn parse_puback(content: Seq<u8>) -> Result<PubAck, Error> {
    if content.len() < 2 {
        Err(Error::TruncatedFrame)
    } else {
        Ok(PubAck { pkid: u16_from_be(content[0], content[1]) })
    }
}

/// The part of a frame behind its fixed header, or an error if the frame is
/// shorter than the header is said to be.
pub open spec fn frame_content(header_len: usize, frame: Seq<u8>) -> Result<Seq<u8>, Error> {
    if header_len > frame.len() {
        Err(Error::TruncatedFrame)
    } else {
        Ok(frame.skip(header_len as int))
    }
}

/// What a frame reads as when it is taken for a publish.
pub open spec fn assemble_publish(byte1: u8, header_len: usize, frame: Seq<u8>) -> Result<
    PublishView,
    Error,
> {
    match frame_content(header_len, frame) {
        Err(e) => Err(e),
        Ok(content) => parse_publish(byte1, content),
    }
}

/// What a frame reads as when it is taken for an acknowledge: its header
/// must have declared a remaining length of exactly 2.
pub open spec fn assemble_puback(header: FixedHeader, frame: Seq<u8>) -> Result<PubAck, Error> {
    if header.remaining_len != 2 {
        Err(Error::PayloadSizeIncorrect)
    } else {
        match frame_content(header.header_len, frame) {
            Err(e) => Err(e),
            Ok(content) => parse_puback(content),
        }
    }
}

/// What a whole frame reads as, given its fixed header: kind 3 is a
/// publish, kind 4 an acknowledge, and nothing else is known.
pub open spec fn parse_frame(header: FixedHeader, frame: Seq<u8>) -> Result<PacketView, Error> {
    let kind = control_type(header.byte1);
    if kind == 3 {
        match assemble_publish(header.byte1, header.header_len, frame) {
            Err(e) => Err(e),
            Ok(publish) => Ok(PacketView::Publish(publish)),
        }
    } else if kind == 4 {
        match assemble_puback(header, frame) {
            Err(e) => Err(e),
            Ok(ack) => Ok(PacketView::PubAck(ack)),
        }
    } else {
        Err(Error::UnknownPacketType(kind))
    }
}

/// The fixed header that opens the stream `s`, if it is complete.
pub open spec fn stream_header(s: Seq<u8>) -> Result<FixedHeader, Error> {
    match spec_parse_fixed_header(s) {
        Err(e) => Err(e),
        Ok((byte1, remaining_len)) => Ok(
            FixedHeader {
                byte1,
                header_len: spec_header_len(remaining_len as nat) as usize,
                remaining_len,
            },
        ),
    }
}

/// Number of bytes that an attempt to read one packet from the stream `s`
/// takes away from its front: the whole frame if it is all there, nothing
/// otherwise.
pub open spec fn stream_consumed(s: Seq<u8>) -> nat {
    match stream_header(s) {
        Err(_) => 0,
        Ok(header) => if s.len() < header.header_len + header.remaining_len {
            0
        } else {
            (header.header_len + header.remaining_len) as nat
        },
    }
}

/// What an attempt to read one packet from the stream `s` gives. An
/// incomplete header or frame asks for more bytes, a frame asking for its
/// full length. A complete frame is cut off the stream and read by its
/// kind.
pub open spec fn stream_read(s: Seq<u8>) -> Result<PacketView, Error> {
    match stream_header(s) {
        Err(e) => Err(e),
        Ok(header) => {
            let len = header.header_len + header.remaining_len;
            if s.len() < len {
                Err(Error::Insufficient(len as usize))
            } else {
                parse_frame(header, s.take(len))
            }
        },
    }
}

/// What an attempt to read one publish from the stream `s` gives, the kind
/// of the frame not being looked at.
pub open spec fn stream_read_publish(s: Seq<u8>) -> Result<PublishView, Error> {
    match stream_header(s) {
        Err(e) => Err(e),
        Ok(header) => {
            let len = header.header_len + header.remaining_len;
            if s.len() < len {
                Err(Error::Insufficient(len as usize))
            } else {
                assemble_publish(header.byte1, header.header_len, s.take(len))
            }
        },
    }
}

} // verus!
