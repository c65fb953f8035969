//! Traffic to drive a session with: runs of publishes, handed out in
//! batches, and random payloads.

use rand::distributions::Alphanumeric;
use rand::rngs::ThreadRng;
use rand::Rng;
use vstd::prelude::*;
use crate::packet::{Packet, PacketView, Publish, PublishView};
use crate::session::BATCH_SIZE;

verus! {

/// `rand::rngs::ThreadRng`: a handle on the calling thread's generator.
#[verifier::external_type_specification]
#[verifier::external_body]
pub struct ExThreadRng(ThreadRng);

/// `String::push`: appends the character.
pub assume_specification[ String::push ](s: &mut String, ch: char)
    ensures
        final(s)@ == old(s)@.push(ch),
;

/// `rand::thread_rng`: the calling thread's generator. Nothing is known
/// of what it will hand out.
#[verifier::external_body]
fn thread_rng() -> ThreadRng {
    rand::thread_rng()
}

/// `Rng::gen_range` from 0: some byte below `high`, whichever the
/// generator picks. It panics on an empty range, which is left out.
#[verifier::external_body]
fn random_below(rng: &mut ThreadRng, high: u8) -> (b: u8)
    requires
        0 < high,
    ensures
        b < high,
{
    rng.gen_range(0, high)
}

/// `Rng::sample` with `Alphanumeric`: some ASCII letter or digit,
/// whichever the generator picks.
#[verifier::external_body]
fn random_alphanumeric(rng: &mut ThreadRng) -> (c: char)
    ensures
        is_alphanumeric(c),
{
    rng.sample(Alphanumeric)
}

/// Whether `c` is one of `a` to `z`, `A` to `Z`, `0` to `9`.
pub open spec fn is_alphanumeric(c: char) -> bool {
    ||| 'a' <= c <= 'z'
    ||| 'A' <= c <= 'Z'
    ||| '0' <= c <= '9'
}

/// A random string of `payload_size` ASCII letters and digits.
pub fn generate_string(payload_size: usize) -> (s: String)
    ensures
        s@.len() == payload_size,
        forall|i: int| 0 <= i < s@.len() ==> is_alphanumeric(#[trigger] s@[i]),
{
    let mut rng = thread_rng();
    let mut rand_string = String::new();
    let mut i: usize = 0;
    while i < payload_size
        invariant
            i <= payload_size,
            rand_string@.len() == i,
            forall|j: int| 0 <= j < rand_string@.len() ==> is_alphanumeric(
                #[trigger] rand_string@[j],
            ),
        decreases payload_size - i,
    {
        let c = random_alphanumeric(&mut rng);
        rand_string.push(c);
        i += 1;
    }
    rand_string
}

/// `payload_size` random bytes, none of them 255.
pub fn generate_payload(payload_size: usize) -> (payload: Vec<u8>)
    ensures
        payload@.len() == payload_size,
        forall|i: int| 0 <= i < payload@.len() ==> #[trigger] payload@[i] < 255,
{
    let mut rng = thread_rng();
    let mut payload: Vec<u8> = Vec::new();
    let mut i: usize = 0;
    while i < payload_size
        invariant
            i <= payload_size,
            payload@.len() == i,
            forall|j: int| 0 <= j < payload@.len() ==> #[trigger] payload@[j] < 255,
        decreases payload_size - i,
    {
        let b = random_below(&mut rng, 255);
        payload.push(b);
        i += 1;
    }
    payload
}

/// The `i`-th publish of a run whose payloads have `size` bytes: packet ids
/// go round from 1 to 65000, and the payload repeats the low byte of `i`.
pub open spec fn load_packet(i: nat, size: nat) -> PacketView {
    PacketView::Publish(
        PublishView {
            topic: "hello/mqtt/topic/bytes"@,
            dup: false,
            retain: false,
            qos: 1,
            pkid: (i % 65000 + 1) as u16,
            payload: Seq::new(size, |j: int| (i % 256) as u8),
        },
    )
}

/// A run of `count` publishes with payloads of `size` bytes.
pub fn packets(size: usize, count: usize) -> (out: Vec<Packet>)
    ensures
        out@.len() == count,
        forall|i: int|
            0 <= i < count ==> (#[trigger] out@[i])@ == load_packet(i as nat, size as nat),
{
    let mut out: Vec<Packet> = Vec::new();
    let mut i: usize = 0;
    while i < count
        invariant
            i <= count,
            out@.len() == i,
            forall|j: int|
                0 <= j < i ==> (#[trigger] out@[j])@ == load_packet(j as nat, size as nat),
        decreases count - i,
    {
        let pkid = (i % 65000) as u16 + 1;
        let payload = filled(#[verifier::truncate] (i as u8), size);
        let packet = Publish::new(pkid, "hello/mqtt/topic/bytes", payload);
        proof {
            assert(i as u8 == (i % 256) as u8) by (bit_vector);
            assert(packet@.payload =~= Seq::new(size as nat, |j: int| (i % 256) as u8));
        }
        out.push(Packet::Publish(packet));
        i += 1;
    }
    out
}

/// `size` copies of `byte`.
fn filled(byte: u8, size: usize) -> (v: Vec<u8>)
    ensures
        v@.len() == size,
        forall|j: int| 0 <= j < size ==> v@[j] == byte,
{
    let v = vec![byte; size];
    v
}

/// Hands out a run of packets in batches.
pub struct Reader {
    stream: Vec<Packet>,
}

impl Reader {
    /// The packets that are still to be handed out, in order.
    pub closed spec fn remaining(&self) -> Seq<Packet> {
        self.stream@
    }

    /// A reader that will hand out `stream` from its start.
    pub fn new(stream: Vec<Packet>) -> (reader: Reader)
        ensures
            reader.remaining() == stream@,
    {
        Reader { stream }
    }

    /// Number of packets in the next batch: `BATCH_SIZE`, or what is left
    /// if that is less.
    pub open spec fn next_len(&self) -> int {
        if self.remaining().len() < BATCH_SIZE {
            self.remaining().len() as int
        } else {
            BATCH_SIZE as int
        }
    }

    /// The next batch, or nothing when every packet has been handed out.
    pub fn next(&mut self) -> (batch: Option<Vec<Packet>>)
        ensures
            old(self).remaining().len() == 0 ==> (batch is None && final(self).remaining() == old(
                self,
            ).remaining()),
            old(self).remaining().len() > 0 ==> (batch matches Some(o) && o@ == old(
                self,
            ).remaining().take(old(self).next_len()) && final(self).remaining() == old(
                self,
            ).remaining().skip(old(self).next_len())),
    {
        let len = self.stream.len();
        let count = if len < BATCH_SIZE { len } else { BATCH_SIZE };
        if count == 0 {
            return None;
        }
        let mut o = self.stream.split_off(count);
        core::mem::swap(&mut self.stream, &mut o);
        proof {
            assert(o@ =~= old(self).stream@.take(count as int));
            assert(self.stream@ =~= old(self).stream@.skip(count as int));
        }
        Some(o)
    }
}

} // verus!
