use bytes::{Bytes, BytesMut};
use minimqtt::{
    assemble, disassemble, mqtt_read, mqtt_write, next_packet, read_mqtt_string, Error,
    FixedHeader, MqttCodec, Packet, PubAck, Publish,
};

fn publish(topic: &str, qos: u8, pkid: u16, payload: &[u8]) -> Publish {
    Publish {
        topic: topic.to_owned(),
        dup: false,
        retain: false,
        qos,
        pkid,
        payload: Bytes::from(payload.to_vec()),
    }
}

fn frame_of(packet: Packet) -> Vec<u8> {
    let mut buf = BytesMut::new();
    assert_eq!(mqtt_write(packet, &mut buf), Ok(()));
    buf.to_vec()
}

fn same_publish(a: &Publish, b: &Publish) -> bool {
    a.topic == b.topic
        && a.dup == b.dup
        && a.retain == b.retain
        && a.qos == b.qos
        && a.pkid == b.pkid
        && a.payload[..] == b.payload[..]
}

fn read_publish(stream: &mut BytesMut) -> Publish {
    match mqtt_read(stream) {
        Ok(Packet::Publish(p)) => p,
        other => panic!("not a publish: {:?}", other),
    }
}

#[test]
fn end_to_end_publish_and_acknowledge() {
    let written = publish("a/b", 1, 5, &[1, 2, 3]);
    let bytes = frame_of(Packet::Publish(written.clone()));
    assert_eq!(
        bytes,
        vec![0x32, 0x0A, 0x00, 0x03, b'a', b'/', b'b', 0x00, 0x05, 1, 2, 3]
    );
    let mut stream = BytesMut::from(&bytes[..]);
    let back = read_publish(&mut stream);
    assert!(same_publish(&back, &written));
    assert_eq!(back.topic, "a/b");
    assert_eq!(back.qos, 1);
    assert_eq!(back.pkid, 5);
    assert_eq!(&back.payload[..], &[1, 2, 3]);
    assert!(stream.is_empty());

    let ack = frame_of(Packet::PubAck(PubAck::new(5)));
    assert_eq!(ack, vec![0x40, 0x02, 0x00, 0x05]);
}

#[test]
fn remaining_length_counts_the_packet_id() {
    // the content is the topic with its prefix (5 bytes), the packet id (2)
    // and the payload (3): a frame that declares 8 bytes instead of 10 ends
    // behind the first byte of the payload
    let mut stream =
        BytesMut::from(&[0x32u8, 0x08, 0x00, 0x03, b'a', b'/', b'b', 0x00, 0x05, 1, 2, 3][..]);
    let short = read_publish(&mut stream);
    assert_eq!(short.pkid, 5);
    assert_eq!(&short.payload[..], &[1]);
    assert_eq!(&stream[..], &[2, 3]);
}

#[test]
fn publish_new_asks_for_acknowledgment() {
    let p = Publish::new(7, "t", vec![9, 8]);
    assert_eq!(p.topic, "t");
    assert_eq!(p.qos, 1);
    assert_eq!(p.pkid, 7);
    assert!(!p.dup);
    assert!(!p.retain);
    assert_eq!(&p.payload[..], &[9, 8]);
    assert_eq!(PubAck::new(3), PubAck { pkid: 3 });
}

#[test]
fn control_byte_carries_the_flags() {
    let mut p = publish("x", 0, 0, &[]);
    assert_eq!(frame_of(Packet::Publish(p.clone()))[0], 0x30);
    p.retain = true;
    assert_eq!(frame_of(Packet::Publish(p.clone()))[0], 0x31);
    p.dup = true;
    assert_eq!(frame_of(Packet::Publish(p.clone()))[0], 0x39);
    p.qos = 2;
    p.pkid = 1;
    assert_eq!(frame_of(Packet::Publish(p.clone()))[0], 0x3D);
    p.retain = false;
    p.qos = 1;
    assert_eq!(frame_of(Packet::Publish(p))[0], 0x3A);
}

#[test]
fn publish_without_acknowledgment_has_no_packet_id_on_the_wire() {
    let bytes = frame_of(Packet::Publish(publish("ab", 0, 0, &[7])));
    assert_eq!(bytes, vec![0x30, 0x05, 0x00, 0x02, b'a', b'b', 7]);
    // the id of such a publish is not written, and reads back as 0
    let bytes = frame_of(Packet::Publish(publish("ab", 0, 5, &[7])));
    assert_eq!(bytes, vec![0x30, 0x05, 0x00, 0x02, b'a', b'b', 7]);
    let mut stream = BytesMut::from(&bytes[..]);
    assert_eq!(read_publish(&mut stream).pkid, 0);
}

#[test]
fn round_trip_keeps_every_field() {
    let topics = [
        "",
        "a",
        "hello/mqtt/topic/bytes",
        "gr\u{00fc}\u{00df}e/\u{4e16}\u{754c}/\u{1F600}",
    ];
    let payloads: [Vec<u8>; 4] = [vec![], vec![0], vec![0xFF; 200], vec![0x80; 20_000]];
    for topic in topics {
        for payload in &payloads {
            for qos in 0u8..=2 {
                for flags in 0u8..4 {
                    let written = Publish {
                        topic: topic.to_owned(),
                        dup: flags & 1 != 0,
                        retain: flags & 2 != 0,
                        qos,
                        pkid: if qos == 0 { 0 } else { 0xABCD },
                        payload: Bytes::from(payload.clone()),
                    };
                    let mut stream = BytesMut::new();
                    assert_eq!(mqtt_write(Packet::Publish(written.clone()), &mut stream), Ok(()));
                    stream.extend_from_slice(&[0x30, 0x80]);
                    let back = read_publish(&mut stream);
                    assert!(same_publish(&back, &written));
                    assert_eq!(&stream[..], &[0x30, 0x80]);
                }
            }
        }
    }
}

#[test]
fn round_trip_of_acknowledge() {
    for pkid in [0u16, 1, 5, 255, 256, 0xFFFF] {
        let mut stream = BytesMut::new();
        assert_eq!(mqtt_write(Packet::PubAck(PubAck::new(pkid)), &mut stream), Ok(()));
        assert_eq!(stream.len(), 4);
        match mqtt_read(&mut stream) {
            Ok(Packet::PubAck(ack)) => assert_eq!(ack, PubAck { pkid }),
            other => panic!("not an acknowledge: {:?}", other),
        }
        assert!(stream.is_empty());
    }
}

#[test]
fn frame_fed_byte_by_byte_reads_as_fed_whole() {
    let written = publish("a/b", 1, 5, &[1, 2, 3]);
    let bytes = frame_of(Packet::Publish(written.clone()));
    let mut stream = BytesMut::new();
    for (i, byte) in bytes.iter().enumerate() {
        let have = stream.to_vec();
        match mqtt_read(&mut stream) {
            Err(Error::Insufficient(n)) => {
                assert!(n > i && n <= bytes.len());
                assert_eq!(n, if i < 2 { 2 } else { bytes.len() });
            }
            other => panic!("read {:?} from {} bytes", other, i),
        }
        assert_eq!(stream.to_vec(), have);
        stream.extend_from_slice(&[*byte]);
    }
    let back = read_publish(&mut stream);
    assert!(same_publish(&back, &written));
    assert!(stream.is_empty());
}

#[test]
fn frame_split_at_every_boundary() {
    let written = publish("some/topic", 2, 77, &[0xAA; 300]);
    let bytes = frame_of(Packet::Publish(written.clone()));
    assert_eq!(bytes.len(), 3 + 2 + 10 + 2 + 300);
    for cut in 0..bytes.len() {
        let mut stream = BytesMut::from(&bytes[..cut]);
        let wanted = if cut < 2 {
            2
        } else if cut < 3 {
            cut + 1
        } else {
            bytes.len()
        };
        assert!(matches!(mqtt_read(&mut stream), Err(Error::Insufficient(n)) if n == wanted));
        assert_eq!(&stream[..], &bytes[..cut]);
        stream.extend_from_slice(&bytes[cut..]);
        let back = read_publish(&mut stream);
        assert!(same_publish(&back, &written));
        assert!(stream.is_empty());
    }
}

#[test]
fn acknowledge_split_at_every_boundary() {
    let bytes = frame_of(Packet::PubAck(PubAck::new(0x1234)));
    for cut in 0..bytes.len() {
        let mut stream = BytesMut::from(&bytes[..cut]);
        let wanted = if cut < 2 { 2 } else { 4 };
        assert!(matches!(mqtt_read(&mut stream), Err(Error::Insufficient(n)) if n == wanted));
        assert_eq!(&stream[..], &bytes[..cut]);
    }
}

#[test]
fn two_frames_in_one_buffer_come_out_in_order() {
    let mut stream = BytesMut::new();
    assert_eq!(mqtt_write(Packet::Publish(publish("one", 1, 1, &[1])), &mut stream), Ok(()));
    assert_eq!(mqtt_write(Packet::PubAck(PubAck::new(9)), &mut stream), Ok(()));
    assert_eq!(read_publish(&mut stream).topic, "one");
    assert!(matches!(mqtt_read(&mut stream), Ok(Packet::PubAck(PubAck { pkid: 9 }))));
    assert!(matches!(mqtt_read(&mut stream), Err(Error::Insufficient(2))));
}

#[test]
fn unknown_packet_type_is_rejected() {
    let mut stream = BytesMut::from(&[0x70u8, 0x00][..]);
    assert!(matches!(mqtt_read(&mut stream), Err(Error::UnknownPacketType(7))));
    // the frame is taken off the stream all the same
    assert!(stream.is_empty());
    let mut stream = BytesMut::from(&[0x00u8, 0x01, 0xEE, 0x40][..]);
    assert!(matches!(mqtt_read(&mut stream), Err(Error::UnknownPacketType(0))));
    assert_eq!(&stream[..], &[0x40]);
    let mut stream = BytesMut::from(&[0xF1u8, 0x00][..]);
    assert!(matches!(mqtt_read(&mut stream), Err(Error::UnknownPacketType(15))));
}

#[test]
fn acknowledge_of_wrong_length_is_rejected() {
    let mut stream = BytesMut::from(&[0x40u8, 0x03, 0x00, 0x05, 0x00][..]);
    assert!(matches!(mqtt_read(&mut stream), Err(Error::PayloadSizeIncorrect)));
    let mut stream = BytesMut::from(&[0x40u8, 0x01, 0x05][..]);
    assert!(matches!(mqtt_read(&mut stream), Err(Error::PayloadSizeIncorrect)));
    let mut stream = BytesMut::from(&[0x40u8, 0x00][..]);
    assert!(matches!(mqtt_read(&mut stream), Err(Error::PayloadSizeIncorrect)));
}

#[test]
fn publish_with_qos_three_is_rejected() {
    let mut stream = BytesMut::from(&[0x36u8, 0x05, 0x00, 0x01, b'a', 0x00, 0x01][..]);
    assert!(matches!(mqtt_read(&mut stream), Err(Error::InvalidQos(3))));
    let p = publish("a", 3, 1, &[]);
    let mut buf = BytesMut::new();
    assert_eq!(mqtt_write(Packet::Publish(p), &mut buf), Err(Error::InvalidQos(3)));
    assert!(buf.is_empty());
}

#[test]
fn publish_with_invalid_topic_is_rejected() {
    let mut stream = BytesMut::from(&[0x30u8, 0x04, 0x00, 0x02, 0xC3, 0x28][..]);
    assert!(matches!(mqtt_read(&mut stream), Err(Error::InvalidTopic)));
    let mut stream = BytesMut::from(&[0x30u8, 0x03, 0x00, 0x01, 0xFF][..]);
    assert!(matches!(mqtt_read(&mut stream), Err(Error::InvalidTopic)));
}

#[test]
fn publish_with_packet_id_zero_is_rejected() {
    let mut stream = BytesMut::from(&[0x32u8, 0x05, 0x00, 0x01, b'a', 0x00, 0x00][..]);
    assert!(matches!(mqtt_read(&mut stream), Err(Error::ZeroPacketId)));
    let mut buf = BytesMut::new();
    assert_eq!(
        mqtt_write(Packet::Publish(publish("a", 1, 0, &[])), &mut buf),
        Err(Error::ZeroPacketId)
    );
    assert!(buf.is_empty());
}

#[test]
fn publish_cut_short_by_its_own_header_is_rejected() {
    // no room for the topic's length
    let mut stream = BytesMut::from(&[0x30u8, 0x01, 0x00][..]);
    assert!(matches!(mqtt_read(&mut stream), Err(Error::TruncatedFrame)));
    // the topic claims more than the frame holds
    let mut stream = BytesMut::from(&[0x30u8, 0x03, 0x00, 0x05, b'a'][..]);
    assert!(matches!(mqtt_read(&mut stream), Err(Error::TruncatedFrame)));
    // no room for the packet id
    let mut stream = BytesMut::from(&[0x32u8, 0x04, 0x00, 0x01, b'a', 0x00][..]);
    assert!(matches!(mqtt_read(&mut stream), Err(Error::TruncatedFrame)));
}

#[test]
fn topic_beyond_its_prefix_is_rejected() {
    let topic = "a".repeat(65_536);
    let p = publish(&topic, 0, 0, &[]);
    assert_eq!(p.fault(), Some(Error::TopicTooLong));
    let mut buf = BytesMut::new();
    assert_eq!(disassemble(p, &mut buf), Err(Error::TopicTooLong));
    assert!(buf.is_empty());
    let topic = "a".repeat(65_535);
    let p = publish(&topic, 0, 0, &[]);
    assert_eq!(p.fault(), None);
    let mut buf = BytesMut::new();
    assert_eq!(disassemble(p, &mut buf), Ok(()));
    assert_eq!(buf.len(), 1 + 3 + 2 + 65_535);
    assert_eq!(&buf[..6], &[0x30, 0x81, 0x80, 0x04, 0xFF, 0xFF]);
}

#[test]
fn content_beyond_the_limit_is_rejected() {
    // a topic of one byte takes three bytes of content
    let fits = publish("t", 0, 0, &[]);
    let fits = Publish { payload: Bytes::from(vec![0u8; 268_435_455 - 3]), ..fits };
    assert_eq!(fits.fault(), None);
    let over = Publish { payload: Bytes::from(vec![0u8; 268_435_455 - 2]), ..fits.clone() };
    assert_eq!(over.fault(), Some(Error::PayloadTooLong));
    // the packet id takes two bytes more
    let with_id = Publish { qos: 1, pkid: 1, ..fits };
    assert_eq!(with_id.fault(), Some(Error::PayloadTooLong));
    let mut buf = BytesMut::new();
    assert_eq!(mqtt_write(Packet::Publish(with_id), &mut buf), Err(Error::PayloadTooLong));
    assert!(buf.is_empty());
}

#[test]
fn faults_come_in_a_fixed_order() {
    let topic = "a".repeat(65_536);
    assert_eq!(publish(&topic, 3, 0, &[]).fault(), Some(Error::InvalidQos(3)));
    assert_eq!(publish(&topic, 7, 0, &[]).fault(), Some(Error::InvalidQos(7)));
    assert_eq!(publish(&topic, 2, 0, &[]).fault(), Some(Error::ZeroPacketId));
    assert_eq!(publish(&topic, 2, 1, &[]).fault(), Some(Error::TopicTooLong));
    assert_eq!(Packet::PubAck(PubAck::new(0)).fault(), None);
    assert_eq!(Packet::Publish(publish("t", 1, 0, &[])).fault(), Some(Error::ZeroPacketId));
}

#[test]
fn read_mqtt_string_takes_prefix_and_text() {
    let mut stream = Bytes::from(vec![0x00, 0x03, b'a', b'/', b'b', 9, 9]);
    assert_eq!(read_mqtt_string(&mut stream), Ok("a/b".to_owned()));
    assert_eq!(&stream[..], &[9, 9]);
    let mut stream = Bytes::from(vec![0x00, 0x00]);
    assert_eq!(read_mqtt_string(&mut stream), Ok(String::new()));
    assert!(stream.is_empty());
    let mut stream = Bytes::from(vec![0x01, 0x00, b'x']);
    assert_eq!(read_mqtt_string(&mut stream), Err(Error::TruncatedFrame));
    assert_eq!(&stream[..], &[b'x']);
    let mut stream = Bytes::from(vec![0x07]);
    assert_eq!(read_mqtt_string(&mut stream), Err(Error::TruncatedFrame));
    assert_eq!(&stream[..], &[0x07]);
    let mut stream = Bytes::from(vec![0x00, 0x01, 0x80, 5]);
    assert_eq!(read_mqtt_string(&mut stream), Err(Error::InvalidTopic));
    assert_eq!(&stream[..], &[5]);
}

#[test]
fn assemble_reads_behind_the_header() {
    let frame = Bytes::from(vec![0x3B, 0x06, 0x00, 0x01, b't', 0x01, 0x02, 0xEE]);
    let p = assemble(0x3B, 2, frame.clone()).unwrap();
    assert_eq!(p.topic, "t");
    assert_eq!(p.qos, 1);
    assert!(p.dup);
    assert!(p.retain);
    assert_eq!(p.pkid, 0x0102);
    assert_eq!(&p.payload[..], &[0xEE]);
    let header = FixedHeader { byte1: 0x3B, header_len: 2, remaining_len: 6 };
    let q = Publish::assemble(header, frame.clone()).unwrap();
    assert!(same_publish(&p, &q));
    assert!(matches!(assemble(0x3B, 9, frame), Err(Error::TruncatedFrame)));
}

#[test]
fn puback_assemble_checks_the_declared_length() {
    let frame = Bytes::from(vec![0x40, 0x02, 0x12, 0x34]);
    let header = FixedHeader { byte1: 0x40, header_len: 2, remaining_len: 2 };
    assert_eq!(PubAck::assemble(header, frame.clone()), Ok(PubAck { pkid: 0x1234 }));
    let header = FixedHeader { byte1: 0x40, header_len: 2, remaining_len: 3 };
    assert_eq!(PubAck::assemble(header, frame.clone()), Err(Error::PayloadSizeIncorrect));
    let header = FixedHeader { byte1: 0x40, header_len: 3, remaining_len: 2 };
    assert_eq!(PubAck::assemble(header, frame.clone()), Err(Error::TruncatedFrame));
    let header = FixedHeader { byte1: 0x40, header_len: 5, remaining_len: 2 };
    assert_eq!(PubAck::assemble(header, frame), Err(Error::TruncatedFrame));
}

#[test]
fn next_packet_reads_publishes_only() {
    let written = publish("a/b", 1, 5, &[1, 2, 3]);
    let mut stream = BytesMut::new();
    assert_eq!(disassemble(written.clone(), &mut stream), Ok(()));
    assert_eq!(
        &stream[..],
        &[0x32, 0x0A, 0x00, 0x03, b'a', b'/', b'b', 0x00, 0x05, 1, 2, 3]
    );
    stream.extend_from_slice(&[0x32, 0x08, 0x00]);
    let back = next_packet(&mut stream).unwrap();
    assert!(same_publish(&back, &written));
    assert!(matches!(next_packet(&mut stream), Err(Error::Insufficient(10))));
    assert_eq!(&stream[..], &[0x32, 0x08, 0x00]);
    // the kind of the frame is not looked at
    let mut stream = BytesMut::from(&[0x70u8, 0x03, 0x00, 0x01, b'q'][..]);
    let p = next_packet(&mut stream).unwrap();
    assert_eq!(p.topic, "q");
    assert_eq!(p.qos, 0);
}

#[test]
fn codec_decodes_nothing_from_a_partial_frame() {
    let mut codec = MqttCodec;
    let mut buf = BytesMut::new();
    assert!(matches!(codec.decode(&mut buf), Ok(None)));
    buf.extend_from_slice(&[0x40]);
    assert!(matches!(codec.decode(&mut buf), Ok(None)));
    buf.extend_from_slice(&[0x02, 0x00]);
    assert!(matches!(codec.decode(&mut buf), Ok(None)));
    assert_eq!(&buf[..], &[0x40, 0x02, 0x00]);
    buf.extend_from_slice(&[0x05, 0x40]);
    assert!(matches!(codec.decode(&mut buf), Ok(Some(Packet::PubAck(PubAck { pkid: 5 })))));
    assert_eq!(&buf[..], &[0x40]);
}

#[test]
fn codec_encodes_and_reports_fatal_errors() {
    let mut codec = MqttCodec;
    let mut buf = BytesMut::new();
    assert_eq!(codec.encode(Packet::PubAck(PubAck::new(5)), &mut buf), Ok(()));
    assert_eq!(&buf[..], &[0x40, 0x02, 0x00, 0x05]);
    assert_eq!(
        codec.encode(Packet::Publish(publish("t", 1, 0, &[])), &mut buf),
        Err(Error::ZeroPacketId)
    );
    assert_eq!(buf.len(), 4);
    let mut buf = BytesMut::from(&[0x50u8, 0x00][..]);
    assert!(matches!(codec.decode(&mut buf), Err(Error::UnknownPacketType(5))));
    let mut buf = BytesMut::from(&[0x30u8, 0x80, 0x80, 0x80, 0x80, 0x80][..]);
    assert!(matches!(codec.decode(&mut buf), Err(Error::MalformedRemainingLength)));
    assert_eq!(buf.len(), 6);
}
