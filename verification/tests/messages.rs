use bytes::Bytes;
use shardnet::netmessage::{
    bytes_readable, decode_msg, encode_msg, msg_is_readable, AnyMessage, Input, InputMessage, MessageId, PubSubMessage,
    PubSubOp, SnapshotMessage,
};
use shardnet::serializer::{Deserializer, Serializer};
use shardnet::topics::Topic;

fn input(up: bool, down: bool, left: bool, right: bool) -> Input {
    Input { up, down, left, right }
}

#[test]
fn message_id_from_u8_reads_known_ids() {
    assert!(matches!(MessageId::from_u8(0), Some(MessageId::Chat)));
    assert!(matches!(MessageId::from_u8(1), Some(MessageId::Input)));
    assert!(matches!(MessageId::from_u8(2), Some(MessageId::Snapshot)));
    assert!(matches!(MessageId::from_u8(3), Some(MessageId::PubSub)));
    assert!(MessageId::from_u8(4).is_none());
    assert!(MessageId::from_u8(9).is_none());
}

#[test]
fn message_id_to_u8_inverts_from_u8() {
    for v in 0u8..4 {
        assert_eq!(MessageId::from_u8(v).unwrap().to_u8(), v);
    }
}

#[test]
fn pubsub_op_bytes_roundtrip() {
    let ops = [
        PubSubOp::Pub,
        PubSubOp::ForcedPub,
        PubSubOp::StopPub,
        PubSubOp::Sub,
        PubSubOp::ForcedSub,
        PubSubOp::StopSub,
        PubSubOp::Helo,
        PubSubOp::End,
    ];
    for (i, op) in ops.iter().enumerate() {
        assert_eq!(op.to_u8(), i as u8);
        assert_eq!(PubSubOp::from_u8(i as u8), *op);
    }
    assert_eq!(PubSubOp::Error.to_u8(), 8);
    assert_eq!(PubSubOp::from_u8(8), PubSubOp::Error);
    assert_eq!(PubSubOp::from_u8(200), PubSubOp::Error);
}

#[test]
fn topic_parts_and_keys() {
    assert_eq!(Topic::Input(5).tag(), 0);
    assert_eq!(Topic::Snapshot(5).tag(), 1);
    assert_eq!(Topic::View(5).tag(), 2);
    assert_eq!(Topic::View(77).number(), 77);
    assert_eq!(Topic::from_parts(1, 9), Some(Topic::Snapshot(9)));
    assert_eq!(Topic::from_parts(3, 9), None);
    assert_eq!(Topic::Snapshot(2).key(), 0x1_0000_0002);
    assert_ne!(Topic::Input(1).key(), Topic::Snapshot(1).key());
}

#[test]
fn serializer_writes_little_endian_and_reads_back() {
    let mut s = Serializer::new();
    s.write_u8(7);
    s.write_bool(true);
    s.write_u16(0x0102);
    s.write_u32(0x0A0B0C0D);
    s.write_i32(-2);
    s.write_string("hi");
    s.write_topic(&Topic::View(3));
    s.write_bytes(&[9, 8]);
    let bytes = s.into_bytes();
    assert_eq!(
        bytes.to_vec(),
        vec![
            7, 1, 0x02, 0x01, 0x0D, 0x0C, 0x0B, 0x0A, 0xFE, 0xFF, 0xFF, 0xFF, 2, 0, b'h', b'i', 2, 3, 0, 0, 0, 9,
            8
        ]
    );
    let mut d = Deserializer::new(bytes);
    assert_eq!(d.read_u8(), 7);
    assert!(d.read_bool());
    assert_eq!(d.read_u16(), 0x0102);
    assert_eq!(d.read_u32(), 0x0A0B0C0D);
    assert_eq!(d.read_i32(), -2);
    assert_eq!(d.read_string(), "hi".to_string());
    assert_eq!(d.read_topic(), Topic::View(3));
    assert_eq!(d.remaining(), 2);
}

#[test]
fn input_byte_packs_directions() {
    let mut s = Serializer::new();
    input(true, false, true, false).serialize(&mut s);
    input(false, true, false, true).serialize(&mut s);
    let bytes = s.into_bytes();
    assert_eq!(bytes.to_vec(), vec![0b0101, 0b1010]);
    let mut d = Deserializer::new(Bytes::from(vec![0xF3u8]));
    assert_eq!(Input::deserialize(&mut d), input(true, true, false, false));
}

#[test]
fn input_message_push_keeps_latest_twenty() {
    let mut m = InputMessage::new();
    assert!(m.is_empty());
    assert!(m.latest().is_none());
    assert!(m.oldest_id().is_none());
    assert!(m.get_by_id(0).is_none());
    for k in 1..=25u32 {
        m.push(input(k % 2 == 0, false, false, k % 3 == 0));
    }
    assert!(!m.is_empty());
    assert_eq!(m.len, 20);
    assert_eq!(m.latest, 25);
    assert_eq!(m.oldest_id(), Some(6));
    assert!(m.get_by_id(5).is_none());
    assert!(m.get_by_id(26).is_none());
    assert_eq!(*m.get_by_id(6).unwrap(), input(true, false, false, true));
    assert_eq!(*m.get_by_id(25).unwrap(), input(false, false, false, false));
    assert_eq!(*m.latest().unwrap(), input(false, false, false, false));
}

#[test]
fn input_message_get_by_id_before_full() {
    let mut m = InputMessage::default();
    m.push(input(true, false, false, false));
    m.push(input(false, true, false, false));
    assert_eq!(m.oldest_id(), Some(1));
    assert_eq!(*m.get_by_id(1).unwrap(), input(true, false, false, false));
    assert_eq!(*m.get_by_id(2).unwrap(), input(false, true, false, false));
    assert!(m.get_by_id(3).is_none());
    assert!(m.get_by_id(0).is_none());
}

#[test]
fn pubsub_message_wire_layout() {
    let m = PubSubMessage { op: PubSubOp::Sub, topic: Topic::Snapshot(2), stream: Some(7), target: None };
    let b = encode_msg(&m);
    assert_eq!(b.to_vec(), vec![3, 3, 1, 2, 0, 0, 0, 1, 7, 0, 0]);
    let t = PubSubMessage { op: PubSubOp::StopSub, topic: Topic::Input(1), stream: None, target: Some(0x01020304) };
    assert_eq!(encode_msg(&t).to_vec(), vec![3, 5, 0, 1, 0, 0, 0, 0, 1, 4, 3, 2, 1]);
}

#[test]
fn framed_messages_decode_to_themselves() {
    let m = PubSubMessage { op: PubSubOp::ForcedPub, topic: Topic::View(4), stream: Some(300), target: Some(9) };
    let b = encode_msg(&m);
    assert!(msg_is_readable(&b));
    match decode_msg(&b) {
        Some(AnyMessage::PubSub(x)) => assert_eq!(x, m),
        _ => panic!("expected a pub/sub message"),
    }

    let snap = SnapshotMessage { tmp_val: 42 };
    let b = encode_msg(&snap);
    assert_eq!(b.to_vec(), vec![2, 42]);
    match decode_msg(&b) {
        Some(AnyMessage::Snapshot(x)) => assert_eq!(x, snap),
        _ => panic!("expected a snapshot"),
    }

    let mut im = InputMessage::new();
    im.push(input(true, true, false, false));
    im.push(input(false, false, true, true));
    let b = encode_msg(&im);
    assert_eq!(b.len(), 26);
    assert_eq!(&b.to_vec()[..8], &[1, 2, 2, 0, 0, 0, 3, 12]);
    match decode_msg(&b) {
        Some(AnyMessage::Input(x)) => {
            assert_eq!(x.len, 2);
            assert_eq!(x.latest, 2);
            assert_eq!(*x.get_by_id(2).unwrap(), input(false, false, true, true));
        }
        _ => panic!("expected an input message"),
    }
}

#[test]
fn unknown_and_chat_ids_decode_to_nothing() {
    let chat = Bytes::from(vec![0u8, 1, 2]);
    assert!(msg_is_readable(&chat));
    assert!(decode_msg(&chat).is_none());
    let text = Bytes::from("WELCOME t");
    assert!(msg_is_readable(&text));
    assert!(decode_msg(&text).is_none());
}

#[test]
fn truncated_messages_are_not_readable() {
    assert!(!msg_is_readable(&[]));
    assert!(!msg_is_readable(&[1, 0, 0]));
    assert!(!msg_is_readable(&[3, 3, 1, 2, 0]));
    // an unknown topic tag
    assert!(!msg_is_readable(&[3, 3, 9, 2, 0, 0, 0, 0, 0]));
    // the stream flag is set but the stream is cut short
    assert!(!msg_is_readable(&[3, 3, 1, 2, 0, 0, 0, 1, 7]));
    // the target flag is set but the target is cut short
    assert!(!msg_is_readable(&[3, 3, 1, 2, 0, 0, 0, 0, 1, 4]));
    assert!(msg_is_readable(&[3, 3, 1, 2, 0, 0, 0, 0, 0]));
    assert!(msg_is_readable(&[2, 1]));
    assert!(!msg_is_readable(&[2]));
}

#[test]
fn bytes_readable_agrees_with_slices() {
    for v in [vec![], vec![1u8, 0, 0], vec![2u8, 1], vec![3u8, 3, 1, 2, 0, 0, 0, 0, 0], b"WELCOME t".to_vec()] {
        assert_eq!(bytes_readable(&Bytes::from(v.clone())), msg_is_readable(&v));
    }
}

#[test]
fn default_input_message_is_new() {
    let d = InputMessage::default();
    let n = InputMessage::new();
    assert_eq!(d.inputs, n.inputs);
    assert_eq!(d.len, 0);
    assert!(d.oldest_id().is_none());
}

#[test]
fn oldest_id_counts_back_from_latest() {
    let mut m = InputMessage::new();
    m.len = 25;
    m.latest = 30;
    assert_eq!(m.oldest_id(), Some(6));
    m.len = 30;
    assert_eq!(m.oldest_id(), Some(1));
}

#[test]
fn push_works_whatever_the_counts() {
    let mut m = InputMessage::new();
    m.len = 5;
    m.latest = 0;
    m.push(input(true, false, false, false));
    assert_eq!(m.len, 6);
    assert_eq!(m.latest, 1);
    assert_eq!(*m.latest().unwrap(), input(true, false, false, false));
    assert!(!m.is_empty());

    let mut big = InputMessage::new();
    big.len = 25;
    big.latest = 30;
    big.inputs[1] = input(false, true, false, false);
    big.push(input(false, false, true, false));
    assert_eq!(big.len, 25);
    assert_eq!(big.latest, 31);
    assert_eq!(big.inputs[0], input(false, true, false, false));
    assert_eq!(big.inputs[19], input(false, false, true, false));
    // the oldest id is 31 - 25 + 1 = 7, at the front of the array
    assert_eq!(*big.get_by_id(7).unwrap(), input(false, true, false, false));
    assert!(big.get_by_id(6).is_none());
}
