//! The error type shared by the codec and the session.

use vstd::prelude::*;

verus! {

/// Everything that can go wrong while framing, decoding or encoding.
///
/// `Insufficient` asks for more input and `WindowFull` for patience; every
/// other variant is fatal for the connection it occurs on.
#[derive(Debug, Clone, Copy, PartialEq, Eq, Structural)]
pub enum Error {
    /// Not enough bytes are buffered; the buffer must hold at least this many
    /// before another attempt can succeed.
    Insufficient(usize),
    /// The remaining-length field does not end within four bytes.
    MalformedRemainingLength,
    /// The high nibble of the control byte names no known packet kind.
    UnknownPacketType(u8),
    /// The topic of a publish is not valid UTF-8.
    InvalidTopic,
    /// The quality-of-service bits hold a value other than 0, 1 or 2.
    InvalidQos(u8),
    /// A publish that asks for acknowledgment carries packet id 0.
    ZeroPacketId,
    /// An acknowledge frame whose remaining length is not 2.
    PayloadSizeIncorrect,
    /// The frame content exceeds what the remaining-length field can express.
    PayloadTooLong,
    /// The topic is longer than its two-byte length prefix can express.
    TopicTooLong,
    /// The frame ends before its variable header does.
    TruncatedFrame,
    /// The credit window is full: the send has to wait for an acknowledgment.
    WindowFull,
    /// The peer closed the connection between two frames.
    ConnectionReset,
    /// The peer closed the connection in the middle of a frame.
    ConnectionBroken,
}

impl Error {
    /// Whether the connection can go on after this error.
    pub open spec fn recoverable(self) -> bool {
        self is Insufficient || self is WindowFull
    }

    /// Whether the connection can go on after this error.
    pub fn is_recoverable(&self) -> (b: bool)
        ensures
            b == self.recoverable(),
    {
        match self {
            Error::Insufficient(_) => true,
            Error::WindowFull => true,
            _ => false,
        }
    }

    /// A short description, one per variant.
    pub fn message(&self) -> (s: &'static str)
        ensures
            s@ == self.spec_message(),
    {
        match self {
            Error::Insufficient(_) => "Not enough bytes in the io buffer",
            Error::MalformedRemainingLength => "Malformed remaining length",
            Error::UnknownPacketType(_) => "Invalid packet type",
            Error::InvalidTopic => "Topic is not valid UTF-8",
            Error::InvalidQos(_) => "Invalid qos",
            Error::ZeroPacketId => "Wrong packet id",
            Error::PayloadSizeIncorrect => "Payload size incorrect",
            Error::PayloadTooLong => "Payload too long",
            Error::TopicTooLong => "Topic too long",
            Error::TruncatedFrame => "Frame ends before its variable header",
            Error::WindowFull => "Credit window is full",
            Error::ConnectionReset => "connection reset by peer",
            Error::ConnectionBroken => "connection broken by peer",
        }
    }

    /// The text that `message` returns.
    pub open spec fn spec_message(self) -> Seq<char> {
        match self {
            Error::Insufficient(_) => "Not enough bytes in the io buffer"@,
            Error::MalformedRemainingLength => "Malformed remaining length"@,
            Error::UnknownPacketType(_) => "Invalid packet type"@,
            Error::InvalidTopic => "Topic is not valid UTF-8"@,
            Error::InvalidQos(_) => "Invalid qos"@,
            Error::ZeroPacketId => "Wrong packet id"@,
            Error::PayloadSizeIncorrect => "Payload size incorrect"@,
            Error::PayloadTooLong => "Payload too long"@,
            Error::TopicTooLong => "Topic too long"@,
            Error::TruncatedFrame => "Frame ends before its variable header"@,
            Error::WindowFull => "Credit window is full"@,
            Error::ConnectionReset => "connection reset by peer"@,
            Error::ConnectionBroken => "connection broken by peer"@,
        }
    }
}

} // verus!
