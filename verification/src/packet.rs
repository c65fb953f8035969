//! The two packet kinds and their mathematical views.

use bytes::Bytes;
use vstd::prelude::*;
use crate::buf::{bytes_from_vec, bytes_view};
use crate::error::Error;

verus! {

/// A message published on a topic.
///
/// `qos` is 0 when no acknowledgment is asked for, 1 or 2 when one is; a
/// publish that asks for one carries a packet id other than 0.
#[derive(Debug, Clone)]
pub struct Publish {
    pub topic: String,
    pub dup: bool,
    pub retain: bool,
    pub qos: u8,
    pub pkid: u16,
    pub payload: Bytes,
}

/// A publish as plain values: the topic as characters, the payload as bytes.
pub struct PublishView {
    pub topic: Seq<char>,
    pub dup: bool,
    pub retain: bool,
    pub qos: u8,
    pub pkid: u16,
    pub payload: Seq<u8>,
}

impl View for Publish {
    type V = PublishView;

    open spec fn view(&self) -> PublishView {
        PublishView {
            topic: self.topic@,
            dup: self.dup,
            retain: self.retain,
            qos: self.qos,
            pkid: self.pkid,
            payload: bytes_view(self.payload),
        }
    }
}

impl Publish {
    /// A publish with quality of service 1 and both flags clear.
    pub fn new(pkid: u16, topic: &str, payload: Vec<u8>) -> (publish: Publish)
        ensures
            publish@ == (PublishView {
                topic: topic@,
                dup: false,
                retain: false,
                qos: 1,
                pkid,
                payload: payload@,
            }),
    {
        Publish {
            topic: topic.to_owned(),
            dup: false,
            retain: false,
            qos: 1,
            pkid,
            payload: bytes_from_vec(payload),
        }
    }
}

/// The acknowledgment of the publish with the same packet id.
#[derive(Debug, Clone, Copy, PartialEq, Eq, Structural)]
pub struct PubAck {
    pub pkid: u16,
}

impl PubAck {
    pub fn new(pkid: u16) -> (ack: PubAck)
        ensures
            ack.pkid == pkid,
    {
        PubAck { pkid }
    }
}

/// One frame's worth of protocol.
#[derive(Debug, Clone)]
pub enum Packet {
    Publish(Publish),
    PubAck(PubAck),
}

/// A packet as plain values.
pub enum PacketView {
    Publish(PublishView),
    PubAck(PubAck),
}

impl View for Packet {
    type V = PacketView;

    open spec fn view(&self) -> PacketView {
        match self {
            Packet::Publish(publish) => PacketView::Publish(publish@),
            Packet::PubAck(ack) => PacketView::PubAck(*ack),
        }
    }
}

/// The outcome of reading a publish, as plain values.
pub open spec fn publish_result(r: Result<Publish, Error>) -> Result<PublishView, Error> {
    match r {
        Ok(publish) => Ok(publish@),
        Err(e) => Err(e),
    }
}

/// The outcome of reading a packet, as plain values.
pub open spec fn packet_result(r: Result<Packet, Error>) -> Result<PacketView, Error> {
    match r {
        Ok(packet) => Ok(packet@),
        Err(e) => Err(e),
    }
}

/// The views of a run of packets, in order.
pub open spec fn packet_views(packets: Seq<Packet>) -> Seq<PacketView> {
    packets.map_values(|p: Packet| p@)
}

} // verus!
