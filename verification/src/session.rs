//! The flow-controlled session: one connection's receive buffer, send
//! buffer and credit window, and the decisions that drive them.
//!
//! The session does no input or output. Whoever owns the transport hands
//! it what was read with `feed`, takes what is to be written from
//! `pending_output`, and says so with `flushed`.

use bytes::BytesMut;
use vstd::prelude::*;
use crate::buf::{
    buffer_clear, buffer_extend_from_slice, buffer_len, buffer_slice, buffer_with_capacity,
    bytes_mut_view,
};
use crate::decode::mqtt_read;
use crate::encode::{mqtt_write, packet_reserve};
use crate::error::Error;
use crate::packet::{packet_views, Packet, PacketView, PubAck};
use crate::window::{CreditWindow, WindowView};
use crate::wire::{packet_fault, packet_frame, puback_frame, stream_consumed, stream_read};

verus! {

/// The most packets that one call of `receive_batch` hands out.
pub const BATCH_SIZE: usize = 10;

/// What reading up to `limit` packets off the stream `s` comes to.
pub struct Batch {
    /// The packets read, in order.
    pub packets: Seq<PacketView>,
    /// What is left of the stream.
    pub rest: Seq<u8>,
    /// What ended the batch before its limit, if anything did.
    pub stop: Option<Error>,
}

/// Reads packets off the stream `s` until `limit` are read or an attempt
/// fails.
pub open spec fn read_batch(s: Seq<u8>, limit: nat) -> Batch
    decreases limit,
{
    if limit == 0 {
        Batch { packets: Seq::empty(), rest: s, stop: None }
    } else {
        match stream_read(s) {
            Err(e) => Batch {
                packets: Seq::empty(),
                rest: s.skip(stream_consumed(s) as int),
                stop: Some(e),
            },
            Ok(p) => {
                let tail = read_batch(s.skip(stream_consumed(s) as int), (limit - 1) as nat);
                Batch { packets: seq![p] + tail.packets, rest: tail.rest, stop: tail.stop }
            },
        }
    }
}

/// The frame that answers a packet: an acknowledge with the same packet id
/// for a publish, nothing for an acknowledge.
pub open spec fn reply(p: PacketView) -> Seq<u8> {
    match p {
        PacketView::Publish(publish) => puback_frame(PubAck { pkid: publish.pkid }),
        PacketView::PubAck(_) => Seq::empty(),
    }
}

/// The frames that answer a run of packets, in order.
pub open spec fn replies(packets: Seq<PacketView>) -> Seq<u8>
    decreases packets.len(),
{
    if packets.len() == 0 {
        Seq::empty()
    } else {
        replies(packets.drop_last()) + reply(packets.last())
    }
}

/// Number of acknowledges in a run of packets.
pub open spec fn ack_count(packets: Seq<PacketView>) -> nat
    decreases packets.len(),
{
    if packets.len() == 0 {
        0
    } else {
        ack_count(packets.drop_last()) + (if packets.last() is PubAck { 1nat } else { 0nat })
    }
}

/// The smaller of two numbers.
pub open spec fn min(a: int, b: int) -> int {
    if a <= b {
        a
    } else {
        b
    }
}

/// Whether the batch `whole` is the packets `done` followed by the batch
/// `tail`.
pub open spec fn batch_splits(whole: Batch, done: Seq<PacketView>, tail: Batch) -> bool {
    &&& whole.packets == done + tail.packets
    &&& whole.rest == tail.rest
    &&& whole.stop == tail.stop
}

/// The batch that lies ahead of a reader which has stopped on `stop`, or
/// which has not stopped and has room for `left` more packets.
pub open spec fn batch_ahead(stop: Option<Error>, s: Seq<u8>, left: nat) -> Batch {
    match stop {
        Some(e) => Batch { packets: Seq::empty(), rest: s, stop: Some(e) },
        None => read_batch(s, left),
    }
}

/// A batch with room for a packet is made by one attempt to read and, if
/// that succeeds, the batch that follows.
pub proof fn lemma_read_batch_step(s: Seq<u8>, limit: nat)
    requires
        limit > 0,
    ensures
        stream_read(s) matches Err(e) ==> read_batch(s, limit) == (Batch {
            packets: Seq::empty(),
            rest: s.skip(stream_consumed(s) as int),
            stop: Some(e),
        }),
        stream_read(s) matches Ok(p) ==> batch_splits(
            read_batch(s, limit),
            seq![p],
            read_batch(s.skip(stream_consumed(s) as int), (limit - 1) as nat),
        ),
{
}

/// One more packet read moves from the batch ahead to the packets done.
proof fn lemma_batch_extends(
    whole: Batch,
    done: Seq<PacketView>,
    p: PacketView,
    tail: Batch,
    next: Batch,
)
    requires
        batch_splits(whole, done, tail),
        batch_splits(tail, seq![p], next),
    ensures
        batch_splits(whole, done.push(p), next),
{
    assert(done + (seq![p] + next.packets) =~= done.push(p) + next.packets);
}

/// The answers to, and the acknowledges among, a run of packets with one
/// more packet behind it.
proof fn lemma_push_packet(done: Seq<PacketView>, p: PacketView)
    ensures
        replies(done.push(p)) == replies(done) + reply(p),
        ack_count(done.push(p)) == ack_count(done) + (if p is PubAck { 1nat } else { 0nat }),
        reply(p).len() <= 4,
{
    assert(done.push(p).drop_last() =~= done);
}

/// What `receive_batch` hands back.
#[derive(Debug)]
pub enum Received {
    /// At least one packet, in the order of arrival.
    Packets(Vec<Packet>),
    /// No packet yet: the receive buffer must hold at least this many
    /// bytes before another attempt can succeed.
    NeedBytes(usize),
}

/// Where a session stands with the frame at the front of its receive buffer.
#[derive(Debug, Clone, Copy, PartialEq, Eq, Structural)]
pub enum State {
    /// Nothing is buffered.
    Idle,
    /// Bytes are buffered, and the fixed header among them is not complete.
    HeaderPending,
    /// The fixed header is complete; the frame is awaited or ready.
    FramePending,
    /// The peer is gone or a fatal error has occurred.
    Closed,
}

/// One connection's buffers and counters.
pub struct Session {
    /// Length that the receive buffer must reach before the next frame
    /// can be read; 0 when nothing is known to be missing.
    pending: usize,
    read: BytesMut,
    write: BytesMut,
    window: CreditWindow,
    failure: Option<Error>,
}

impl Session {
    /// The bytes that were received and not yet read as packets.
    pub closed spec fn received(&self) -> Seq<u8> {
        bytes_mut_view(self.read)
    }

    /// The bytes that were stored and not yet flushed.
    pub closed spec fn outgoing(&self) -> Seq<u8> {
        bytes_mut_view(self.write)
    }

    /// The credit window.
    pub closed spec fn spec_window(&self) -> CreditWindow {
        self.window
    }

    /// The error that closed the session, if it is closed.
    pub closed spec fn spec_failure(&self) -> Option<Error> {
        self.failure
    }

    /// Length that the receive buffer must reach before the next frame can
    /// be read; 0 when nothing is known to be missing.
    pub closed spec fn spec_pending(&self) -> usize {
        self.pending
    }

    /// Where the session stands.
    pub open spec fn spec_state(&self) -> State {
        if self.spec_failure() is Some {
            State::Closed
        } else if self.received().len() == 0 {
            State::Idle
        } else if crate::wire::stream_header(self.received()) is Ok {
            State::FramePending
        } else {
            State::HeaderPending
        }
    }

    /// A session with empty buffers and a credit window of the given
    /// capacity.
    pub fn new(window_capacity: u64) -> (session: Session)
        ensures
            session.received() == Seq::<u8>::empty(),
            session.outgoing() == Seq::<u8>::empty(),
            session.spec_failure() is None,
            session.spec_pending() == 0,
            session.spec_window()@ == WindowView::fresh(window_capacity as nat),
    {
        let read = buffer_with_capacity(32 * 1024);
        let write = buffer_with_capacity(4 * 1024);
        Session {
            pending: 0,
            read,
            write,
            window: CreditWindow::new(window_capacity),
            failure: None,
        }
    }

    /// The credit window, for the caller's decision to send.
    #[verifier::when_used_as_spec(spec_window)]
    pub fn window(&self) -> (window: CreditWindow)
        ensures
            window == self.spec_window(),
    {
        self.window
    }

    /// The error that closed the session, if it is closed.
    #[verifier::when_used_as_spec(spec_failure)]
    pub fn failure(&self) -> (failure: Option<Error>)
        ensures
            failure == self.spec_failure(),
    {
        self.failure
    }

    /// Number of bytes that were received and not yet read as packets.
    pub fn buffered(&self) -> (n: usize)
        ensures
            n == self.received().len(),
    {
        buffer_len(&self.read)
    }

    /// Where the session stands.
    pub fn state(&self) -> (state: State)
        ensures
            state == self.spec_state(),
    {
        if self.failure.is_some() {
            State::Closed
        } else if buffer_len(&self.read) == 0 {
            State::Idle
        } else {
            match crate::header::parse_fixed_header(buffer_slice(&self.read)) {
                Ok(_) => State::FramePending,
                Err(_) => State::HeaderPending,
            }
        }
    }

    /// Whether the transport has to be read before another attempt to
    /// receive can succeed.
    pub fn wants_read(&self) -> (b: bool)
        ensures
            b == (self.spec_failure() is None && self.received().len() < self.spec_pending()),
    {
        self.failure.is_none() && buffer_len(&self.read) < self.pending
    }

    /// Whether the credit window admits another publish.
    pub fn can_send(&self) -> (b: bool)
        ensures
            b == self.spec_window()@.open(),
    {
        self.window.can_send()
    }

    /// Writes the frame of `packet` into the send buffer, whatever the
    /// credit window says. A packet that cannot be put on the wire is
    /// refused, and nothing is written.
    pub fn store(&mut self, packet: Packet) -> (r: Result<(), Error>)
        requires
            packet_fault(packet@) is None ==> old(self).outgoing().len() + packet_reserve(packet@)
                <= isize::MAX,
        ensures
            final(self).received() == old(self).received(),
            final(self).spec_window() == old(self).spec_window(),
            final(self).spec_failure() == old(self).spec_failure(),
            final(self).spec_pending() == old(self).spec_pending(),
            match packet_fault(packet@) {
                Some(e) => r == Err::<(), Error>(e) && final(self).outgoing() == old(
                    self,
                ).outgoing(),
                None => r == Ok::<(), Error>(()) && final(self).outgoing() == old(self).outgoing()
                    + packet_frame(packet@),
            },
    {
        mqtt_write(packet, &mut self.write)
    }

    /// Sends `packet`: writes its frame into the send buffer and, for a
    /// publish, counts it in the credit window. A closed session refuses
    /// with the error that closed it; a packet that cannot be put on the
    /// wire is refused with its fault; a publish is refused with
    /// `WindowFull` while the window is shut. A refusal changes nothing.
    pub fn send(&mut self, packet: Packet) -> (r: Result<(), Error>)
        requires
            old(self).send_refusal(packet@) is None ==> old(self).outgoing().len()
                + packet_reserve(packet@) <= isize::MAX,
        ensures
            final(self).received() == old(self).received(),
            final(self).spec_failure() == old(self).spec_failure(),
            final(self).spec_pending() == old(self).spec_pending(),
            match old(self).send_refusal(packet@) {
                Some(e) => {
                    &&& r == Err::<(), Error>(e)
                    &&& final(self).outgoing() == old(self).outgoing()
                    &&& final(self).spec_window()@ == old(self).spec_window()@
                },
                None => {
                    &&& r == Ok::<(), Error>(())
                    &&& final(self).outgoing() == old(self).outgoing() + packet_frame(packet@)
                    &&& final(self).spec_window()@ == (if packet@ is Publish {
                        old(self).spec_window()@.send()
                    } else {
                        old(self).spec_window()@
                    })
                },
            },
    {
        if let Some(e) = self.failure {
            return Err(e);
        }
        if let Some(e) = packet.fault() {
            return Err(e);
        }
        let counted = match &packet {
            Packet::Publish(_) => true,
            Packet::PubAck(_) => false,
        };
        if counted && !self.window.try_send() {
            return Err(Error::WindowFull);
        }
        mqtt_write(packet, &mut self.write)
    }

    /// Why `send` would refuse the packet `p`, if it would.
    pub open spec fn send_refusal(&self, p: PacketView) -> Option<Error> {
        if self.spec_failure() is Some {
            self.spec_failure()
        } else if packet_fault(p) is Some {
            packet_fault(p)
        } else if p is Publish && !self.spec_window()@.open() {
            Some(Error::WindowFull)
        } else {
            None
        }
    }

    /// Reads up to `BATCH_SIZE` packets off the receive buffer. Each
    /// acknowledge among them is counted in the credit window if a send is
    /// waiting for it, and each publish is answered by an acknowledge in
    /// the send buffer.
    ///
    /// The batch ends early where the buffer runs out. If it then holds
    /// packets they are handed out; if it holds none, the length that the
    /// buffer must reach is. A fatal error closes the session, whatever
    /// was read before it. A closed session refuses with the error that
    /// closed it.
    pub fn receive_batch(&mut self) -> (r: Result<Received, Error>)
        requires
            old(self).outgoing().len() + 4 * BATCH_SIZE <= isize::MAX,
        ensures
            old(self).spec_failure() matches Some(e) ==> {
                &&& r == Err::<Received, Error>(e)
                &&& final(self).received() == old(self).received()
                &&& final(self).outgoing() == old(self).outgoing()
                &&& final(self).spec_window() == old(self).spec_window()
                &&& final(self).spec_failure() == old(self).spec_failure()
                &&& final(self).spec_pending() == old(self).spec_pending()
            },
            old(self).spec_failure() is None ==> {
                let batch = read_batch(old(self).received(), BATCH_SIZE as nat);
                &&& final(self).received() == batch.rest
                &&& final(self).outgoing() == old(self).outgoing() + replies(batch.packets)
                &&& final(self).spec_window()@ == (WindowView {
                    acknowledged: (old(self).spec_window()@.acknowledged + min(
                        old(self).spec_window()@.in_flight(),
                        ack_count(batch.packets) as int,
                    )) as nat,
                    ..old(self).spec_window()@
                })
                &&& match batch.stop {
                    Some(Error::Insufficient(n)) => {
                        &&& final(self).spec_failure() is None
                        &&& final(self).spec_pending() == n
                        &&& if batch.packets.len() > 0 {
                            r matches Ok(Received::Packets(v)) && packet_views(v@) == batch.packets
                        } else {
                            r matches Ok(Received::NeedBytes(m)) && m == n
                        }
                    },
                    Some(e) => {
                        &&& final(self).spec_failure() == Some(e)
                        &&& final(self).spec_pending() == 0
                        &&& r == Err::<Received, Error>(e)
                    },
                    None => {
                        &&& final(self).spec_failure() is None
                        &&& final(self).spec_pending() == 0
                        &&& r matches Ok(Received::Packets(v)) && packet_views(v@) == batch.packets
                    },
                }
            },
    {
        if let Some(e) = self.failure {
            return Err(e);
        }
        let ghost start = bytes_mut_view(self.read);
        let ghost written = bytes_mut_view(self.write);
        let ghost acked = self.window@.acknowledged;
        let in_flight = self.window.in_flight();
        let mut out: Vec<Packet> = Vec::with_capacity(BATCH_SIZE);
        let mut stop: Option<Error> = None;
        proof {
            assert(packet_views(out@) =~= Seq::<PacketView>::empty());
            assert(written + replies(packet_views(out@)) =~= written);
            assert(packet_views(out@) + read_batch(start, BATCH_SIZE as nat).packets
                =~= read_batch(start, BATCH_SIZE as nat).packets);
        }
        while out.len() < BATCH_SIZE && stop.is_none()
            invariant
                out.len() <= BATCH_SIZE,
                self.failure is None,
                self.pending == old(self).pending,
                written.len() + 4 * BATCH_SIZE <= isize::MAX,
                self.window@ == (WindowView {
                    acknowledged: (acked + min(
                        in_flight as int,
                        ack_count(packet_views(out@)) as int,
                    )) as nat,
                    ..old(self).window@
                }),
                acked == old(self).window@.acknowledged,
                in_flight == old(self).window@.in_flight(),
                bytes_mut_view(self.write) == written + replies(packet_views(out@)),
                replies(packet_views(out@)).len() <= 4 * out.len(),
                batch_splits(
                    read_batch(start, BATCH_SIZE as nat),
                    packet_views(out@),
                    batch_ahead(stop, bytes_mut_view(self.read), (BATCH_SIZE - out.len()) as nat),
                ),
            decreases BATCH_SIZE - out.len() + (if stop is None { 1int } else { 0int }),
        {
            let ghost before = bytes_mut_view(self.read);
            let ghost done = packet_views(out@);
            let ghost left = (BATCH_SIZE - out.len()) as nat;
            proof {
                lemma_read_batch_step(before, left);
            }
            match self.receive_one() {
                Ok(packet) => {
                    out.push(packet);
                    proof {
                        lemma_batch_extends(
                            read_batch(start, BATCH_SIZE as nat),
                            done,
                            packet@,
                            read_batch(before, left),
                            read_batch(bytes_mut_view(self.read), (left - 1) as nat),
                        );
                        lemma_push_packet(done, packet@);
                        assert(packet_views(out@) =~= done.push(packet@));
                        assert(written + replies(done) + reply(packet@) =~= written + (replies(
                            done,
                        ) + reply(packet@)));
                    }
                },
                Err(e) => {
                    stop = Some(e);
                },
            }
        }
        proof {
            assert(packet_views(out@) + Seq::<PacketView>::empty() =~= packet_views(out@));
        }
        match stop {
            Some(Error::Insufficient(required)) => {
                self.pending = required;
                if out.len() > 0 {
                    Ok(Received::Packets(out))
                } else {
                    Ok(Received::NeedBytes(required))
                }
            },
            Some(e) => {
                self.failure = Some(e);
                self.pending = 0;
                Err(e)
            },
            None => {
                self.pending = 0;
                Ok(Received::Packets(out))
            },
        }
    }

    /// Reads one packet off the receive buffer, counts it if it is an
    /// acknowledge that a send is waiting for, and answers it if it is a
    /// publish.
    fn receive_one(&mut self) -> (r: Result<Packet, Error>)
        requires
            old(self).outgoing().len() + 4 <= isize::MAX,
        ensures
            final(self).failure == old(self).failure,
            final(self).pending == old(self).pending,
            final(self).window@.capacity == old(self).window@.capacity,
            final(self).window@.sent == old(self).window@.sent,
            bytes_mut_view(final(self).read) == bytes_mut_view(old(self).read).skip(
                stream_consumed(bytes_mut_view(old(self).read)) as int,
            ),
            match r {
                Ok(p) => {
                    &&& stream_read(bytes_mut_view(old(self).read)) == Ok::<PacketView, Error>(p@)
                    &&& bytes_mut_view(final(self).write) == bytes_mut_view(old(self).write)
                        + reply(p@)
                    &&& final(self).window@.acknowledged == old(
                        self,
                    ).window@.acknowledged + (if p@ is PubAck && old(
                        self,
                    ).window@.in_flight() > 0 {
                        1int
                    } else {
                        0int
                    })
                },
                Err(e) => {
                    &&& stream_read(bytes_mut_view(old(self).read)) == Err::<PacketView, Error>(e)
                    &&& bytes_mut_view(final(self).write) == bytes_mut_view(old(self).write)
                    &&& final(self).window@.acknowledged == old(
                        self,
                    ).window@.acknowledged
                },
            },
    {
        let ghost written = bytes_mut_view(self.write);
        let packet = match mqtt_read(&mut self.read) {
            Ok(packet) => packet,
            Err(e) => {
                return Err(e);
            },
        };
        match &packet {
            Packet::Publish(publish) => {
                let ack = Packet::PubAck(PubAck::new(publish.pkid));
                let _ = mqtt_write(ack, &mut self.write);
            },
            Packet::PubAck(_) => {
                self.window.acknowledge();
                assert(written + Seq::<u8>::empty() =~= written);
            },
        }
        Ok(packet)
    }

    /// The bytes to hand to the transport.
    pub fn pending_output(&self) -> (bytes: &[u8])
        ensures
            bytes@ == self.outgoing(),
    {
        buffer_slice(&self.write)
    }

    /// Empties the send buffer, once the transport has taken its bytes.
    pub fn flushed(&mut self)
        ensures
            final(self).outgoing() == Seq::<u8>::empty(),
            final(self).received() == old(self).received(),
            final(self).spec_window() == old(self).spec_window(),
            final(self).spec_failure() == old(self).spec_failure(),
            final(self).spec_pending() == old(self).spec_pending(),
    {
        buffer_clear(&mut self.write);
    }

    /// Takes in what the transport has read. An empty read means that the
    /// peer is gone: the session closes with `ConnectionReset` if nothing
    /// was buffered, and with `ConnectionBroken` if part of a frame was. A
    /// closed session refuses with the error that closed it.
    pub fn feed(&mut self, data: &[u8]) -> (r: Result<(), Error>)
        requires
            old(self).received().len() + data@.len() <= isize::MAX,
        ensures
            final(self).outgoing() == old(self).outgoing(),
            final(self).spec_window() == old(self).spec_window(),
            final(self).spec_pending() == old(self).spec_pending(),
            match old(self).feed_refusal(data@) {
                Some(e) => {
                    &&& r == Err::<(), Error>(e)
                    &&& final(self).spec_failure() == Some(e)
                    &&& final(self).received() == old(self).received()
                },
                None => {
                    &&& r == Ok::<(), Error>(())
                    &&& final(self).spec_failure() is None
                    &&& final(self).received() == old(self).received() + data@
                },
            },
    {
        if let Some(e) = self.failure {
            return Err(e);
        }
        if data.len() == 0 {
            let e = if buffer_len(&self.read) == 0 {
                Error::ConnectionReset
            } else {
                Error::ConnectionBroken
            };
            self.failure = Some(e);
            return Err(e);
        }
        buffer_extend_from_slice(&mut self.read, data);
        Ok(())
    }

    /// Why `feed` would refuse `data`, if it would.
    pub open spec fn feed_refusal(&self, data: Seq<u8>) -> Option<Error> {
        if self.spec_failure() is Some {
            self.spec_failure()
        } else if data.len() == 0 {
            if self.received().len() == 0 {
                Some(Error::ConnectionReset)
            } else {
                Some(Error::ConnectionBroken)
            }
        } else {
            None
        }
    }
}

} // verus!
