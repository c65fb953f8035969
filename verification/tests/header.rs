use bytes::BytesMut;
use minimqtt::{header_len, parse_fixed_header, write_remaining_length, Error, MAX_REMAINING_LENGTH};

fn encoded(len: usize) -> Vec<u8> {
    let mut buf = BytesMut::new();
    assert_eq!(write_remaining_length(&mut buf, len), Ok(()));
    buf.to_vec()
}

#[test]
fn remaining_length_uses_the_fewest_groups() {
    let cases: [(usize, usize); 7] = [
        (0, 1),
        (127, 1),
        (128, 2),
        (16_383, 2),
        (16_384, 3),
        (2_097_151, 3),
        (2_097_152, 4),
    ];
    for (len, groups) in cases {
        assert_eq!(encoded(len).len(), groups, "length {}", len);
        assert_eq!(header_len(len), Ok(groups + 1), "length {}", len);
    }
    assert_eq!(encoded(MAX_REMAINING_LENGTH).len(), 4);
    assert_eq!(header_len(MAX_REMAINING_LENGTH), Ok(5));
}

#[test]
fn remaining_length_exact_bytes() {
    assert_eq!(encoded(0), vec![0x00]);
    assert_eq!(encoded(8), vec![0x08]);
    assert_eq!(encoded(127), vec![0x7F]);
    assert_eq!(encoded(128), vec![0x80, 0x01]);
    assert_eq!(encoded(321), vec![0xC1, 0x02]);
    assert_eq!(encoded(16_383), vec![0xFF, 0x7F]);
    assert_eq!(encoded(16_384), vec![0x80, 0x80, 0x01]);
    assert_eq!(encoded(2_097_151), vec![0xFF, 0xFF, 0x7F]);
    assert_eq!(encoded(2_097_152), vec![0x80, 0x80, 0x80, 0x01]);
    assert_eq!(encoded(268_435_455), vec![0xFF, 0xFF, 0xFF, 0x7F]);
}

#[test]
fn remaining_length_appends_behind_what_is_there() {
    let mut buf = BytesMut::new();
    buf.extend_from_slice(&[9, 9]);
    assert_eq!(write_remaining_length(&mut buf, 200), Ok(()));
    assert_eq!(&buf[..], &[9, 9, 0xC8, 0x01]);
}

#[test]
fn oversized_length_fails_encode() {
    let mut buf = BytesMut::new();
    buf.extend_from_slice(&[7]);
    assert_eq!(write_remaining_length(&mut buf, 268_435_456), Err(Error::PayloadTooLong));
    assert_eq!(&buf[..], &[7]);
    assert_eq!(header_len(268_435_456), Err(Error::PayloadTooLong));
    assert_eq!(header_len(usize::MAX), Err(Error::PayloadTooLong));
}

#[test]
fn fixed_header_reads_what_was_written() {
    for len in [0usize, 1, 127, 128, 16_383, 16_384, 2_097_151, 2_097_152, 268_435_455] {
        let mut stream = vec![0x32u8];
        stream.extend_from_slice(&encoded(len));
        stream.extend_from_slice(&[0xFF, 0x00, 0x80]);
        assert_eq!(parse_fixed_header(&stream), Ok((0x32, len)), "length {}", len);
    }
}

#[test]
fn fixed_header_leaves_the_control_byte_untouched() {
    assert_eq!(parse_fixed_header(&[0x00, 0x00]), Ok((0x00, 0)));
    assert_eq!(parse_fixed_header(&[0xFF, 0x05]), Ok((0xFF, 5)));
    assert_eq!(parse_fixed_header(&[0x40, 0x02, 0x00, 0x05]), Ok((0x40, 2)));
}

#[test]
fn fixed_header_accepts_padded_groups() {
    // two groups for a number that one group could hold
    assert_eq!(parse_fixed_header(&[0x30, 0x85, 0x00]), Ok((0x30, 5)));
    assert_eq!(parse_fixed_header(&[0x30, 0x80, 0x80, 0x80, 0x00]), Ok((0x30, 0)));
}

#[test]
fn fixed_header_asks_for_two_bytes_first() {
    assert_eq!(parse_fixed_header(&[]), Err(Error::Insufficient(2)));
    assert_eq!(parse_fixed_header(&[0x30]), Err(Error::Insufficient(2)));
}

#[test]
fn fixed_header_asks_for_one_more_byte_while_open() {
    assert_eq!(parse_fixed_header(&[0x30, 0x80]), Err(Error::Insufficient(3)));
    assert_eq!(parse_fixed_header(&[0x30, 0x80, 0xFF]), Err(Error::Insufficient(4)));
    assert_eq!(parse_fixed_header(&[0x30, 0x80, 0xFF, 0x81]), Err(Error::Insufficient(5)));
    assert_eq!(
        parse_fixed_header(&[0x30, 0x80, 0xFF, 0x81, 0x80]),
        Err(Error::Insufficient(6))
    );
}

#[test]
fn fixed_header_rejects_a_fifth_group() {
    assert_eq!(
        parse_fixed_header(&[0x30, 0x80, 0x80, 0x80, 0x80, 0x01]),
        Err(Error::MalformedRemainingLength)
    );
    assert_eq!(
        parse_fixed_header(&[0x30, 0xFF, 0xFF, 0xFF, 0xFF, 0x7F, 0x00]),
        Err(Error::MalformedRemainingLength)
    );
}

#[test]
fn error_messages() {
    assert_eq!(Error::Insufficient(3).message(), "Not enough bytes in the io buffer");
    assert_eq!(Error::MalformedRemainingLength.message(), "Malformed remaining length");
    assert_eq!(Error::PayloadTooLong.message(), "Payload too long");
    assert_eq!(Error::ConnectionReset.message(), "connection reset by peer");
    assert_eq!(Error::ConnectionBroken.message(), "connection broken by peer");
    assert!(Error::Insufficient(3).is_recoverable());
    assert!(Error::WindowFull.is_recoverable());
    assert!(!Error::InvalidTopic.is_recoverable());
    assert!(!Error::UnknownPacketType(7).is_recoverable());
}
