//! The fixed header of a frame: one control byte, then the remaining length
//! as one to four base-128 groups, least significant group first. The top bit
//! of a group says that another group follows.

use bytes::BytesMut;
use vstd::prelude::*;
use crate::buf::{buffer_put_u8, bytes_mut_view, can_grow};
use crate::error::Error;

verus! {

/// The largest remaining length that four groups can express.
pub const MAX_REMAINING_LENGTH: usize = 268_435_455;

/// What the fixed header of one frame says.
#[derive(Debug, Clone, Copy, PartialEq, Eq, Structural)]
pub struct FixedHeader {
    /// The control byte: packet kind in the high nibble, flags in the low one.
    pub byte1: u8,
    /// Length of the fixed header itself, control byte included.
    pub header_len: usize,
    /// Number of bytes that follow the fixed header.
    pub remaining_len: usize,
}

/// Number of groups in the shortest encoding of `len`.
pub open spec fn length_field_size(len: nat) -> nat {
    if len < 128 {
        1
    } else if len < 16_384 {
        2
    } else if len < 2_097_152 {
        3
    } else {
        4
    }
}

/// Length of the fixed header of a frame with `len` bytes of content:
/// the control byte and the groups of the length field.
pub open spec fn spec_header_len(len: nat) -> nat {
    1 + length_field_size(len)
}

/// The shortest encoding of `len`.
pub open spec fn remaining_length_bytes(len: nat) -> Seq<u8>
    decreases len,
{
    if len < 128 {
        seq![len as u8]
    } else {
        seq![(128 + len % 128) as u8] + remaining_length_bytes(len / 128)
    }
}

/// 128 to the power `n`.
pub open spec fn pow128(n: nat) -> nat
    decreases n,
{
    if n == 0 {
        1
    } else {
        128 * pow128((n - 1) as nat)
    }
}

/// The number that a run of groups stands for; continuation flags are not
/// looked at.
pub open spec fn groups_value(s: Seq<u8>) -> nat
    decreases s.len(),
{
    if s.len() == 0 {
        0
    } else {
        groups_value(s.drop_last()) + (s.last() % 128) as nat * pow128((s.len() - 1) as nat)
    }
}

/// Index of the first group without continuation flag; `s.len()` if every
/// group carries the flag.
pub open spec fn first_terminator(s: Seq<u8>) -> nat
    decreases s.len(),
{
    if s.len() == 0 || s[0] < 128 {
        0
    } else {
        1 + first_terminator(s.skip(1))
    }
}

/// What the start of a stream says about the frame it opens.
///
/// With fewer than two bytes nothing can be said. Otherwise the length field
/// is read up to its first group without continuation flag. A field that ends
/// within four groups gives the control byte and the remaining length. A
/// field that runs into a fifth group is malformed. A field that is cut off
/// by the end of the input asks for at least one more byte.
pub open spec fn spec_parse_fixed_header(s: Seq<u8>) -> Result<(u8, usize), Error> {
    if s.len() < 2 {
        Err(Error::Insufficient(2))
    } else {
        let field = s.skip(1);
        let t = first_terminator(field);
        if t < field.len() && t < 4 {
            Ok((s[0], groups_value(field.take((t + 1) as int)) as usize))
        } else if field.len() > 4 {
            Err(Error::MalformedRemainingLength)
        } else {
            Err(Error::Insufficient((s.len() + 1) as usize))
        }
    }
}

/// Groups that all carry the continuation flag push the terminator behind them.
proof fn lemma_terminator_after_flags(s: Seq<u8>, k: nat)
    requires
        k <= s.len(),
        forall|j: int| 0 <= j < k ==> s[j] >= 128,
    ensures
        first_terminator(s) >= k,
        k < s.len() && s[k as int] < 128 ==> first_terminator(s) == k,
    decreases k,
{
    if k > 0 {
        let rest = s.skip(1);
        assert forall|j: int| 0 <= j < k - 1 implies rest[j] >= 128 by {
            assert(rest[j] == s[j + 1]);
        }
        lemma_terminator_after_flags(rest, (k - 1) as nat);
    }
}

/// A run of `n` groups stands for a number below 128 to the `n`.
proof fn lemma_groups_value_bound(s: Seq<u8>)
    ensures
        groups_value(s) < pow128(s.len()),
    decreases s.len(),
{
    if s.len() > 0 {
        lemma_groups_value_bound(s.drop_last());
        let p = pow128((s.len() - 1) as nat);
        let d = (s.last() % 128) as nat;
        assert(d * p <= 127 * p) by (nonlinear_arith)
            requires
                d <= 127,
        ;
    }
}

/// A remaining length that is read from a stream is one that four groups
/// can express, and a request for more bytes asks for more than are there.
pub proof fn lemma_header_is_bounded(s: Seq<u8>)
    ensures
        spec_parse_fixed_header(s) matches Ok((_, len)) ==> len <= MAX_REMAINING_LENGTH,
        spec_parse_fixed_header(s) matches Err(Error::Insufficient(n)) ==> n > s.len(),
{
    if s.len() >= 2 {
        let field = s.skip(1);
        let t = first_terminator(field);
        if t < field.len() && t < 4 {
            lemma_groups_value_bound(field.take((t + 1) as int));
            reveal_with_fuel(pow128, 5);
        }
    }
}

/// Length of the fixed header for a frame with `remaining_len` bytes of
/// content, control byte included; an error if four groups cannot express it.
pub fn header_len(remaining_len: usize) -> (r: Result<usize, Error>)
    ensures
        remaining_len <= MAX_REMAINING_LENGTH ==> r == Ok::<usize, Error>(
            spec_header_len(remaining_len as nat) as usize,
        ),
        remaining_len > MAX_REMAINING_LENGTH ==> r == Err::<usize, Error>(Error::PayloadTooLong),
{
    if remaining_len > MAX_REMAINING_LENGTH {
        Err(Error::PayloadTooLong)
    } else if remaining_len >= 2_097_152 {
        Ok(4 + 1)
    } else if remaining_len >= 16_384 {
        Ok(3 + 1)
    } else if remaining_len >= 128 {
        Ok(2 + 1)
    } else {
        Ok(1 + 1)
    }
}

/// Reads the control byte and the remaining length from the start of
/// `stream`, without consuming anything.
pub fn parse_fixed_header(stream: &[u8]) -> (r: Result<(u8, usize), Error>)
    ensures
        r == spec_parse_fixed_header(stream@),
        r matches Ok((_, len)) ==> len <= MAX_REMAINING_LENGTH,
{
    let stream_len = stream.len();
    if stream_len < 2 {
        return Err(Error::Insufficient(2));
    }
    let ghost field = stream@.skip(1);
    let byte1 = stream[0];
    let mut mult: usize = 1;
    let mut len: usize = 0;
    let mut done = false;
    let mut i: usize = 1;
    while i < stream_len && !done
        invariant
            stream_len == stream@.len(),
            field == stream@.skip(1),
            1 <= i <= stream_len,
            i <= 5,
            mult == pow128((i - 1) as nat),
            len == groups_value(field.take(i - 1)),
            len < mult,
            !done ==> forall|j: int| 0 <= j < i - 1 ==> field[j] >= 128,
            done ==> forall|j: int| 0 <= j < i - 2 ==> field[j] >= 128,
            done ==> i >= 2 && field[i - 2] < 128,
        decreases stream_len - i + (if done { 0int } else { 1int }),
    {
        if i > 4 {
            proof {
                lemma_terminator_after_flags(field, 4);
            }
            return Err(Error::MalformedRemainingLength);
        }
        let byte = stream[i];
        let group = (byte & 0x7F) as usize;
        proof {
            assert(byte & 0x7F == byte % 128) by (bit_vector);
            assert((byte & 0x80 == 0) == (byte < 128)) by (bit_vector);
            reveal_with_fuel(pow128, 5);
            let run = field.take(i as int);
            assert(run.drop_last() =~= field.take(i - 1));
            assert(run.last() == byte);
            assert(group * mult <= 127 * mult) by (nonlinear_arith)
                requires
                    group <= 127,
            ;
        }
        len += group * mult;
        mult *= 0x80;
        done = (byte & 0x80) == 0;
        i += 1;
    }
    if !done {
        proof {
            lemma_terminator_after_flags(field, (i - 1) as nat);
        }
        return Err(Error::Insufficient(stream_len + 1));
    }
    proof {
        lemma_terminator_after_flags(field, (i - 2) as nat);
        reveal_with_fuel(pow128, 5);
    }
    Ok((byte1, len))
}

/// Putting a group in front multiplies what follows by 128.
proof fn lemma_groups_value_front(b: u8, t: Seq<u8>)
    ensures
        groups_value(seq![b] + t) == (b % 128) as nat + 128 * groups_value(t),
    decreases t.len(),
{
    let s = seq![b] + t;
    if t.len() == 0 {
        assert(s.drop_last() =~= Seq::<u8>::empty());
        assert(s.last() == b);
        assert(groups_value(s) == groups_value(s.drop_last()) + (b % 128) as nat * pow128(0));
        assert(groups_value(s.drop_last()) == 0);
        assert(groups_value(t) == 0);
        assert(pow128(0) == 1);
    } else {
        assert(s.drop_last() =~= seq![b] + t.drop_last());
        assert(s.last() == t.last());
        lemma_groups_value_front(b, t.drop_last());
        let d = (t.last() % 128) as nat;
        let p = pow128((t.len() - 1) as nat);
        assert(pow128(t.len()) == 128 * p);
        assert(groups_value(s) == groups_value(s.drop_last()) + d * pow128(t.len()));
        assert(groups_value(t) == groups_value(t.drop_last()) + d * p);
        assert(d * (128 * p) == 128 * (d * p)) by (nonlinear_arith);
    }
}

/// The shortest encoding has as many groups as `length_field_size` says.
pub proof fn lemma_remaining_length_size(len: nat)
    requires
        len <= MAX_REMAINING_LENGTH,
    ensures
        remaining_length_bytes(len).len() == length_field_size(len),
    decreases len,
{
    if len >= 128 {
        lemma_remaining_length_size(len / 128);
    }
}

/// In the shortest encoding every group but the last carries the
/// continuation flag.
pub proof fn lemma_remaining_length_shape(len: nat)
    ensures
        remaining_length_bytes(len).len() >= 1,
        forall|j: int|
            0 <= j < remaining_length_bytes(len).len() - 1 ==> remaining_length_bytes(len)[j]
                >= 128,
        remaining_length_bytes(len).last() < 128,
    decreases len,
{
    let enc = remaining_length_bytes(len);
    if len >= 128 {
        let rest = remaining_length_bytes(len / 128);
        lemma_remaining_length_shape(len / 128);
        assert forall|j: int| 0 <= j < enc.len() - 1 implies enc[j] >= 128 by {
            if j > 0 {
                assert(enc[j] == rest[j - 1]);
            }
        }
        assert(enc.last() == rest.last());
    }
}

/// The groups of the shortest encoding of `len` stand for `len`.
pub proof fn lemma_remaining_length_value(len: nat)
    ensures
        groups_value(remaining_length_bytes(len)) == len,
    decreases len,
{
    let enc = remaining_length_bytes(len);
    if len < 128 {
        lemma_groups_value_front(len as u8, Seq::<u8>::empty());
        assert(enc =~= seq![len as u8] + Seq::<u8>::empty());
        assert(groups_value(Seq::<u8>::empty()) == 0);
    } else {
        let rest = remaining_length_bytes(len / 128);
        let b = (128 + len % 128) as u8;
        lemma_remaining_length_value(len / 128);
        lemma_groups_value_front(b, rest);
        assert(b % 128 == len % 128);
        assert(len == len % 128 + 128 * (len / 128));
    }
}

/// Decoding undoes encoding: a stream that opens with a control byte and the
/// shortest encoding of `len` parses to that byte and `len`, whatever follows.
pub proof fn lemma_fixed_header_round_trip(control: u8, len: nat, rest: Seq<u8>)
    requires
        len <= MAX_REMAINING_LENGTH,
    ensures
        spec_parse_fixed_header(seq![control] + remaining_length_bytes(len) + rest) == Ok::<
            (u8, usize),
            Error,
        >((control, len as usize)),
{
    let enc = remaining_length_bytes(len);
    let s = seq![control] + enc + rest;
    let field = s.skip(1);
    lemma_remaining_length_size(len);
    lemma_remaining_length_shape(len);
    lemma_remaining_length_value(len);
    let k = (enc.len() - 1) as nat;
    assert(field =~= enc + rest);
    assert forall|j: int| 0 <= j < k implies field[j] >= 128 by {
        assert(field[j] == enc[j]);
    }
    assert(field[k as int] == enc.last());
    lemma_terminator_after_flags(field, k);
    assert(field.take((k + 1) as int) =~= enc);
}

/// A stream that ends inside the fixed header asks for more bytes: cut
/// anywhere before the end of the shortest encoding of `len`, it parses to
/// `Insufficient` with a count above what is there.
pub proof fn lemma_fixed_header_prefix(control: u8, len: nat, cut: nat)
    requires
        len <= MAX_REMAINING_LENGTH,
        cut <= remaining_length_bytes(len).len(),
    ensures
        spec_parse_fixed_header((seq![control] + remaining_length_bytes(len)).take(cut as int))
            == Err::<(u8, usize), Error>(
            Error::Insufficient(if cut < 2 { 2usize } else { (cut + 1) as usize }),
        ),
{
    let enc = remaining_length_bytes(len);
    let s = (seq![control] + enc).take(cut as int);
    lemma_remaining_length_size(len);
    lemma_remaining_length_shape(len);
    if cut >= 2 {
        let field = s.skip(1);
        assert(field.len() == cut - 1);
        assert forall|j: int| 0 <= j < field.len() implies field[j] >= 128 by {
            assert(field[j] == enc[j]);
        }
        lemma_terminator_after_flags(field, field.len());
    }
}

/// Appends the shortest encoding of `len` to `stream`; a length that four
/// groups cannot express is refused and nothing is written.
pub fn write_remaining_length(stream: &mut BytesMut, len: usize) -> (r: Result<(), Error>)
    requires
        can_grow(*old(stream), 4),
    ensures
        len > MAX_REMAINING_LENGTH ==> r == Err::<(), Error>(Error::PayloadTooLong)
            && bytes_mut_view(*final(stream)) == bytes_mut_view(*old(stream)),
        len <= MAX_REMAINING_LENGTH ==> r == Ok::<(), Error>(()) && bytes_mut_view(*final(stream))
            == bytes_mut_view(*old(stream)) + remaining_length_bytes(len as nat),
{
    if len > MAX_REMAINING_LENGTH {
        return Err(Error::PayloadTooLong);
    }
    let ghost start = bytes_mut_view(*stream);
    let ghost whole = remaining_length_bytes(len as nat);
    let mut done = false;
    let mut x: usize = len;
    while !done
        invariant
            x <= MAX_REMAINING_LENGTH,
            whole == remaining_length_bytes(len as nat),
            !done ==> bytes_mut_view(*stream) + remaining_length_bytes(x as nat) == start + whole,
            !done ==> bytes_mut_view(*stream).len() + length_field_size(x as nat) <= start.len()
                + 4,
            done ==> bytes_mut_view(*stream) == start + whole,
            start.len() + 4 <= isize::MAX,
        decreases x + (if done { 0int } else { 1int }),
    {
        let ghost before = bytes_mut_view(*stream);
        let ghost todo = remaining_length_bytes(x as nat);
        let mut byte = (x % 128) as u8;
        let ghost low = byte;
        x /= 128;
        if x > 0 {
            byte |= 128;
            assert(low | 128 == low + 128) by (bit_vector)
                requires
                    low < 128,
            ;
        }
        buffer_put_u8(stream, byte);
        done = x == 0;
        proof {
            if done {
                assert(todo =~= seq![byte]);
                assert(before.push(byte) =~= before + todo);
            } else {
                assert(todo =~= seq![byte] + remaining_length_bytes(x as nat));
                assert(before.push(byte) + remaining_length_bytes(x as nat) =~= before + todo);
            }
        }
    }
    Ok(())
}

} // verus!
