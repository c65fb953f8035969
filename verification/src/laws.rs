//! What holds of the wire format as a whole: reading undoes writing, and a
//! frame that arrives in pieces is never misread.

use vstd::prelude::*;
use vstd::utf8::{encode_utf8, encode_utf8_decode_utf8, encode_utf8_valid_utf8};
use crate::buf::{u16_be, u16_from_be};
use crate::error::Error;
use crate::header::{
    lemma_fixed_header_prefix, lemma_fixed_header_round_trip, lemma_header_is_bounded,
    lemma_remaining_length_size, remaining_length_bytes, spec_header_len,
    spec_parse_fixed_header, FixedHeader,
};
use crate::packet::{PacketView, PubAck, PublishView};
use crate::session::{batch_splits, lemma_read_batch_step, read_batch, Batch};
use crate::wire::{
    after_string, control_dup, control_qos, control_retain, control_type, frame_content,
    packet_fault, packet_frame, parse_frame, parse_publish, parse_string, puback_frame,
    publish_content, publish_content_len, publish_control_byte, publish_fault, publish_frame,
    stream_consumed, stream_header, stream_read,
};

verus! {

/// The two bytes of a number read back as that number.
pub proof fn lemma_u16_round_trip(n: u16)
    ensures
        u16_be(n).len() == 2,
        u16_from_be(u16_be(n)[0], u16_be(n)[1]) == n,
{
}

/// The control byte of a publish that can be put on the wire gives back
/// its kind, its quality of service and its two flags.
pub proof fn lemma_control_byte_round_trip(p: PublishView)
    requires
        p.qos <= 2,
    ensures
        control_type(publish_control_byte(p)) == 3,
        control_qos(publish_control_byte(p)) == p.qos,
        control_dup(publish_control_byte(p)) == p.dup,
        control_retain(publish_control_byte(p)) == p.retain,
{
}

/// A string written behind its length reads back as that string, and
/// what follows it is what is left.
pub proof fn lemma_string_round_trip(text: Seq<char>, rest: Seq<u8>)
    requires
        encode_utf8(text).len() <= 0xFFFF,
    ensures
        parse_string(u16_be(encode_utf8(text).len() as u16) + encode_utf8(text) + rest) == Ok::<
            Seq<char>,
            Error,
        >(text),
        after_string(u16_be(encode_utf8(text).len() as u16) + encode_utf8(text) + rest) == rest,
{
    let bytes = encode_utf8(text);
    let prefix = u16_be(bytes.len() as u16);
    let s = prefix + bytes + rest;
    lemma_u16_round_trip(bytes.len() as u16);
    encode_utf8_valid_utf8(text);
    encode_utf8_decode_utf8(text);
    assert(s[0] == prefix[0]);
    assert(s[1] == prefix[1]);
    assert(s.subrange(2, 2 + bytes.len() as int) =~= bytes);
    assert(s.skip(2 + bytes.len() as int) =~= rest);
}

/// The content of a publish that can be put on the wire reads back as
/// that publish, provided that a publish which asks for no acknowledgment
/// carries packet id 0: such a publish has no packet id on the wire.
pub proof fn lemma_publish_content_round_trip(p: PublishView)
    requires
        publish_fault(p) is None,
        p.qos == 0 ==> p.pkid == 0,
    ensures
        publish_content(p).len() == publish_content_len(p),
        parse_publish(publish_control_byte(p), publish_content(p)) == Ok::<PublishView, Error>(p),
{
    let content = publish_content(p);
    let id = if p.qos != 0 { u16_be(p.pkid) } else { Seq::<u8>::empty() };
    let behind = id + p.payload;
    let prefix = u16_be(encode_utf8(p.topic).len() as u16);
    lemma_control_byte_round_trip(p);
    lemma_u16_round_trip(encode_utf8(p.topic).len() as u16);
    lemma_u16_round_trip(p.pkid);
    lemma_string_round_trip(p.topic, behind);
    assert(content =~= prefix + encode_utf8(p.topic) + behind);
    assert(after_string(content) == behind);
    if p.qos == 0 {
        assert(behind =~= p.payload);
    } else {
        assert(behind[0] == u16_be(p.pkid)[0]);
        assert(behind[1] == u16_be(p.pkid)[1]);
        assert(behind.skip(2) =~= p.payload);
    }
}

/// How a frame with something behind it comes apart again.
proof fn lemma_frame_parts(control: u8, length: Seq<u8>, content: Seq<u8>, rest: Seq<u8>)
    ensures
        ({
            let frame = seq![control] + length + content;
            &&& frame.len() == 1 + length.len() + content.len()
            &&& frame + rest == seq![control] + length + (content + rest)
            &&& (frame + rest).take(frame.len() as int) == frame
            &&& (frame + rest).skip(frame.len() as int) == rest
            &&& frame.skip(1 + length.len() as int) == content
            &&& frame.take(1 + length.len() as int) == seq![control] + length
        }),
{
    let frame = seq![control] + length + content;
    assert(frame + rest =~= seq![control] + length + (content + rest));
    assert((frame + rest).take(frame.len() as int) =~= frame);
    assert((frame + rest).skip(frame.len() as int) =~= rest);
    assert(frame.skip(1 + length.len() as int) =~= content);
    assert(frame.take(1 + length.len() as int) =~= seq![control] + length);
}

/// The fixed header of a frame with something behind it.
proof fn lemma_frame_header(control: u8, content: Seq<u8>, rest: Seq<u8>)
    requires
        content.len() <= crate::header::MAX_REMAINING_LENGTH,
    ensures
        ({
            let frame = seq![control] + remaining_length_bytes(content.len()) + content;
            let header = FixedHeader {
                byte1: control,
                header_len: spec_header_len(content.len()) as usize,
                remaining_len: content.len() as usize,
            };
            &&& stream_header(frame + rest) == Ok::<FixedHeader, Error>(header)
            &&& frame.len() == header.header_len + header.remaining_len
            &&& (frame + rest).take(frame.len() as int) == frame
            &&& (frame + rest).skip(frame.len() as int) == rest
            &&& frame.skip(header.header_len as int) == content
        }),
{
    let n = content.len();
    lemma_remaining_length_size(n);
    lemma_fixed_header_round_trip(control, n, content + rest);
    lemma_frame_parts(control, remaining_length_bytes(n), content, rest);
}

/// A stream that opens with a whole frame reads as that frame reads, and
/// the frame is what is taken off it.
proof fn lemma_read_of_frame(control: u8, content: Seq<u8>, rest: Seq<u8>)
    requires
        content.len() <= crate::header::MAX_REMAINING_LENGTH,
    ensures
        ({
            let frame = seq![control] + remaining_length_bytes(content.len()) + content;
            let header = FixedHeader {
                byte1: control,
                header_len: spec_header_len(content.len()) as usize,
                remaining_len: content.len() as usize,
            };
            &&& stream_read(frame + rest) == parse_frame(header, frame)
            &&& stream_consumed(frame + rest) == frame.len()
            &&& frame_content(header.header_len, frame) == Ok::<Seq<u8>, Error>(content)
        }),
{
    lemma_frame_header(control, content, rest);
}

/// Reading undoes writing, for a publish.
proof fn lemma_publish_round_trip(p: PublishView, rest: Seq<u8>)
    requires
        publish_fault(p) is None,
        p.qos == 0 ==> p.pkid == 0,
    ensures
        stream_read(publish_frame(p) + rest) == Ok::<PacketView, Error>(PacketView::Publish(p)),
        stream_consumed(publish_frame(p) + rest) == publish_frame(p).len(),
{
    lemma_publish_content_round_trip(p);
    lemma_control_byte_round_trip(p);
    lemma_read_of_frame(publish_control_byte(p), publish_content(p), rest);
}

/// Reading undoes writing, for an acknowledge.
proof fn lemma_puback_round_trip(ack: PubAck, rest: Seq<u8>)
    ensures
        stream_read(puback_frame(ack) + rest) == Ok::<PacketView, Error>(PacketView::PubAck(ack)),
        stream_consumed(puback_frame(ack) + rest) == puback_frame(ack).len(),
{
    lemma_u16_round_trip(ack.pkid);
    assert(remaining_length_bytes(2) =~= seq![2u8]);
    assert(puback_frame(ack) =~= seq![0x40u8] + remaining_length_bytes(2) + u16_be(ack.pkid));
    lemma_read_of_frame(0x40, u16_be(ack.pkid), rest);
}

/// Reading undoes writing: the frame of a packet that can be put on the
/// wire, with anything behind it, reads as that packet and is consumed
/// whole. A publish that asks for no acknowledgment must carry packet id 0
/// for this to hold, since its packet id is not written.
pub proof fn lemma_round_trip(p: PacketView, rest: Seq<u8>)
    requires
        packet_fault(p) is None,
        p matches PacketView::Publish(publish) ==> (publish.qos == 0 ==> publish.pkid == 0),
    ensures
        stream_read(packet_frame(p) + rest) == Ok::<PacketView, Error>(p),
        stream_consumed(packet_frame(p) + rest) == packet_frame(p).len(),
{
    match p {
        PacketView::Publish(publish) => lemma_publish_round_trip(publish, rest),
        PacketView::PubAck(ack) => lemma_puback_round_trip(ack, rest),
    }
}

/// Whether reading undoes writing for the packet `p`: it can be put on the
/// wire, and if it is a publish that asks for no acknowledgment its packet
/// id, which is not written, is 0.
pub open spec fn round_trips(p: PacketView) -> bool {
    &&& packet_fault(p) is None
    &&& p matches PacketView::Publish(publish) ==> (publish.qos == 0 ==> publish.pkid == 0)
}

/// The frames of a run of packets, one behind the other.
pub open spec fn packet_frames(packets: Seq<PacketView>) -> Seq<u8>
    decreases packets.len(),
{
    if packets.len() == 0 {
        Seq::empty()
    } else {
        packet_frame(packets.first()) + packet_frames(packets.drop_first())
    }
}

/// The frames of a run of packets open with the frame of the first.
proof fn lemma_frames_split(packets: Seq<PacketView>, rest: Seq<u8>)
    requires
        packets.len() > 0,
    ensures
        ({
            let frame = packet_frame(packets.first());
            let behind = packet_frames(packets.drop_first()) + rest;
            &&& packet_frames(packets) + rest == frame + behind
            &&& (frame + behind).skip(frame.len() as int) == behind
        }),
{
    let frame = packet_frame(packets.first());
    let behind = packet_frames(packets.drop_first()) + rest;
    assert(packet_frames(packets) + rest =~= frame + behind);
    assert((frame + behind).skip(frame.len() as int) =~= behind);
}

/// A batch that splits, and whose second part splits again, splits into
/// the packets of both parts and what is left.
proof fn lemma_batch_splits_twice(
    whole: Batch,
    front: Seq<PacketView>,
    middle: Batch,
    back: Seq<PacketView>,
    tail: Batch,
)
    requires
        batch_splits(whole, front, middle),
        batch_splits(middle, back, tail),
    ensures
        batch_splits(whole, front + back, tail),
{
    assert(front + (back + tail.packets) =~= (front + back) + tail.packets);
}

/// Packets come out in the order in which they were written: a stream that
/// opens with the frames of a run of packets reads, in a batch with room
/// for them all, as those packets followed by whatever the rest of the
/// stream reads as.
pub proof fn lemma_batch_round_trip(packets: Seq<PacketView>, rest: Seq<u8>, limit: nat)
    requires
        packets.len() <= limit,
        forall|i: int| 0 <= i < packets.len() ==> round_trips(#[trigger] packets[i]),
    ensures
        batch_splits(
            read_batch(packet_frames(packets) + rest, limit),
            packets,
            read_batch(rest, (limit - packets.len()) as nat),
        ),
    decreases packets.len(),
{
    let s = packet_frames(packets) + rest;
    let tail = read_batch(rest, (limit - packets.len()) as nat);
    if packets.len() == 0 {
        assert(s =~= rest);
        assert(packets + tail.packets =~= tail.packets);
    } else {
        let first = packets.first();
        let others = packets.drop_first();
        let behind = packet_frames(others) + rest;
        assert(round_trips(packets[0]));
        assert forall|i: int| 0 <= i < others.len() implies round_trips(#[trigger] others[i]) by {
            assert(others[i] == packets[i + 1]);
        }
        lemma_frames_split(packets, rest);
        lemma_round_trip(first, behind);
        lemma_read_batch_step(s, limit);
        lemma_batch_round_trip(others, rest, (limit - 1) as nat);
        lemma_batch_splits_twice(
            read_batch(s, limit),
            seq![first],
            read_batch(behind, (limit - 1) as nat),
            others,
            tail,
        );
        assert(seq![first] + others =~= packets);
    }
}

/// An attempt to read never takes more than is there, and takes nothing
/// unless a whole frame is there. Where it asks for more bytes, it asks
/// for more than are there, so that waiting for them makes progress.
pub proof fn lemma_read_takes_whole_frames(s: Seq<u8>)
    ensures
        stream_consumed(s) <= s.len(),
        stream_read(s) matches Err(Error::Insufficient(n)) ==> stream_consumed(s) == 0 && n
            > s.len(),
        stream_consumed(s) == 0 ==> stream_read(s) is Err,
{
    match spec_parse_fixed_header(s) {
        Ok((byte1, remaining_len)) => {
            lemma_header_is_bounded(s);
            let header = FixedHeader {
                byte1,
                header_len: spec_header_len(remaining_len as nat) as usize,
                remaining_len,
            };
            assert(stream_header(s) == Ok::<FixedHeader, Error>(header));
            if s.len() >= header.header_len + header.remaining_len {
                lemma_frame_is_never_short(
                    header,
                    s.take(header.header_len + header.remaining_len),
                );
            }
        },
        Err(_) => {},
    }
}

/// A frame that is as long as its header says does not read as a request
/// for more bytes.
proof fn lemma_frame_is_never_short(header: FixedHeader, frame: Seq<u8>)
    ensures
        !(parse_frame(header, frame) matches Err(Error::Insufficient(_))),
{
}

/// The control byte of a packet's frame.
pub open spec fn frame_control(p: PacketView) -> u8 {
    match p {
        PacketView::Publish(publish) => publish_control_byte(publish),
        PacketView::PubAck(_) => 0x40,
    }
}

/// The number of content bytes of a packet's frame.
pub open spec fn frame_content_len(p: PacketView) -> nat {
    match p {
        PacketView::Publish(publish) => publish_content_len(publish),
        PacketView::PubAck(_) => 2,
    }
}

/// A frame is its control byte, the shortest encoding of its content
/// length, and that many bytes of content.
pub proof fn lemma_frame_shape(p: PacketView)
    requires
        packet_fault(p) is None,
    ensures
        frame_content_len(p) <= crate::header::MAX_REMAINING_LENGTH,
        packet_frame(p).len() == spec_header_len(frame_content_len(p)) + frame_content_len(p),
        packet_frame(p).take(spec_header_len(frame_content_len(p)) as int) == seq![
            frame_control(p),
        ] + remaining_length_bytes(frame_content_len(p)),
{
    let n = frame_content_len(p);
    lemma_remaining_length_size(n);
    match p {
        PacketView::Publish(publish) => {
            lemma_u16_round_trip(encode_utf8(publish.topic).len() as u16);
            lemma_u16_round_trip(publish.pkid);
            assert(publish_content(publish).len() == n);
            assert(packet_frame(p).take(spec_header_len(n) as int) =~= seq![frame_control(p)]
                + remaining_length_bytes(n));
        },
        PacketView::PubAck(ack) => {
            assert(remaining_length_bytes(2) =~= seq![2u8]);
            assert(packet_frame(p).take(2) =~= seq![frame_control(p)] + remaining_length_bytes(2));
        },
    }
}

/// What a reader asks for when it holds the first `cut` bytes of a frame
/// whose fixed header has `header_len` bytes and which has `frame_len`
/// bytes in all: two bytes to begin with, one more while the header is
/// open, and the whole frame from then on.
pub open spec fn bytes_wanted(header_len: nat, frame_len: nat, cut: nat) -> nat {
    if cut < 2 {
        2
    } else if cut < header_len {
        cut + 1
    } else {
        frame_len
    }
}

/// A frame that has arrived only in part is never misread: whatever proper
/// prefix of a packet's frame is there, the attempt to read takes nothing
/// and asks for more bytes than are there, and for no more than the frame
/// has.
pub proof fn lemma_partial_delivery(p: PacketView, cut: nat)
    requires
        packet_fault(p) is None,
        cut < packet_frame(p).len(),
    ensures
        stream_read(packet_frame(p).take(cut as int)) == Err::<PacketView, Error>(
            Error::Insufficient(
                bytes_wanted(
                    spec_header_len(frame_content_len(p)),
                    packet_frame(p).len(),
                    cut,
                ) as usize,
            ),
        ),
        cut < bytes_wanted(spec_header_len(frame_content_len(p)), packet_frame(p).len(), cut)
            <= packet_frame(p).len(),
        stream_consumed(packet_frame(p).take(cut as int)) == 0,
{
    let frame = packet_frame(p);
    let n = frame_content_len(p);
    let h = spec_header_len(n);
    let control = frame_control(p);
    let enc = remaining_length_bytes(n);
    let s = frame.take(cut as int);
    lemma_frame_shape(p);
    lemma_remaining_length_size(n);
    if cut < h {
        lemma_fixed_header_prefix(control, n, cut);
        assert(s =~= frame.take(h as int).take(cut as int));
    } else {
        let tail = frame.skip(h as int).take(cut - h);
        lemma_fixed_header_round_trip(control, n, tail);
        assert(s =~= frame.take(h as int) + tail);
    }
}

} // verus!
