use bytes::Bytes;
use shardnet::netmessage::{encode_msg, PubSubMessage, PubSubOp};
use shardnet::routing::{distinct_sorted, SpatialRouter};
use shardnet::session::{classify_reply, BrokerSession, ServerReply};
use shardnet::topics::Topic;

fn connected() -> BrokerSession {
    let mut s = BrokerSession::new();
    s.on_connected(3);
    s.on_stream_created(10, true);
    s.on_stream_created(11, false);
    s
}

fn msg(op: PubSubOp, topic: Topic, stream: Option<u16>, target: Option<u32>) -> PubSubMessage {
    PubSubMessage { op, topic, stream, target }
}

#[test]
fn streams_and_disconnect() {
    let s = connected();
    assert_eq!(s.connection, Some(3));
    assert_eq!(s.reliable_stream, Some(10));
    assert_eq!(s.unreliable_stream, Some(11));
    let mut s = s;
    s.joined = true;
    s.welcomed = true;
    s.registered = true;
    s.on_disconnected();
    assert_eq!(s.connection, None);
    assert_eq!(s.reliable_stream, None);
    assert_eq!(s.unreliable_stream, None);
    assert!(!s.joined && !s.welcomed && !s.registered);
}

#[test]
fn shard_session_joins_then_registers() {
    let mut s = BrokerSession::new();
    let out = s.drive_shard(2);
    assert!(out.join.is_none());
    assert!(out.control.is_empty());
    assert!(!s.joined);

    let mut s = connected();
    let out = s.drive_shard(2);
    assert_eq!(out.join.as_deref(), Some("JOIN shard 2"));
    assert!(out.control.is_empty());
    assert!(s.joined);
    // not welcomed yet: nothing more
    let out = s.drive_shard(2);
    assert!(out.join.is_none());
    assert!(out.control.is_empty());

    let welcome = Bytes::from("WELCOME t");
    assert!(s.handle_control_message(&welcome).is_none());
    assert!(s.welcomed);
    let out = s.drive_shard(2);
    assert!(out.join.is_none());
    assert_eq!(
        out.control,
        vec![
            msg(PubSubOp::Pub, Topic::Snapshot(2), Some(11), None),
            msg(PubSubOp::Sub, Topic::Snapshot(1), Some(11), None),
            msg(PubSubOp::Sub, Topic::Snapshot(3), Some(11), None),
            msg(PubSubOp::Sub, Topic::View(0), Some(11), None),
            msg(PubSubOp::Sub, Topic::Input(0), Some(11), None),
        ]
    );
    assert!(s.registered);
    let out = s.drive_shard(2);
    assert!(out.control.is_empty());
}

#[test]
fn shard_zero_has_no_left_neighbour() {
    let mut s = connected();
    s.drive_shard(0);
    s.welcomed = true;
    let out = s.drive_shard(0);
    assert_eq!(out.control.len(), 4);
    assert_eq!(out.control[1], msg(PubSubOp::Sub, Topic::Snapshot(1), Some(11), None));
}

#[test]
fn spatial_session_subscribes_every_shard() {
    let mut s = connected();
    let out = s.drive_spatial(3);
    assert_eq!(out.join.as_deref(), Some("JOIN spatial"));
    s.welcomed = true;
    let out = s.drive_spatial(3);
    assert_eq!(
        out.control,
        vec![
            msg(PubSubOp::Pub, Topic::View(0), Some(11), None),
            msg(PubSubOp::Sub, Topic::Snapshot(0), Some(11), None),
            msg(PubSubOp::Sub, Topic::Snapshot(1), Some(11), None),
            msg(PubSubOp::Sub, Topic::Snapshot(2), Some(11), None),
        ]
    );
}

#[test]
fn registration_waits_for_the_unreliable_stream() {
    let mut s = BrokerSession::new();
    s.on_connected(1);
    s.on_stream_created(10, true);
    s.drive_shard(5);
    s.welcomed = true;
    assert!(s.drive_shard(5).control.is_empty());
    assert!(!s.registered);
    s.on_stream_created(12, false);
    assert_eq!(s.drive_shard(5).control.len(), 5);
}

#[test]
fn forced_messages_are_taken_up() {
    let mut s = connected();
    let forced_pub = encode_msg(&msg(PubSubOp::ForcedPub, Topic::Input(4), None, None));
    assert_eq!(s.handle_control_message(&forced_pub), Some(msg(PubSubOp::Pub, Topic::Input(4), Some(11), None)));
    let forced_sub = encode_msg(&msg(PubSubOp::ForcedSub, Topic::View(1), None, None));
    assert_eq!(s.handle_control_message(&forced_sub), Some(msg(PubSubOp::Sub, Topic::View(1), Some(11), None)));
    let stop = encode_msg(&msg(PubSubOp::StopPub, Topic::View(1), None, None));
    assert!(s.handle_control_message(&stop).is_none());
    assert!(s.handle_control_message(&Bytes::new()).is_none());
    assert!(!s.welcomed);
    // without a lifeline nothing can be answered
    let mut idle = BrokerSession::new();
    assert!(idle.handle_control_message(&forced_pub).is_none());
}

#[test]
fn client_join_request_and_registration() {
    let s = BrokerSession::new();
    assert!(s.join_request(77).is_none());
    let mut s = connected();
    assert_eq!(s.join_request(77).as_deref(), Some("JOIN 77"));
    assert_eq!(
        s.register_client(),
        vec![
            msg(PubSubOp::Pub, Topic::Input(0), Some(11), None),
            msg(PubSubOp::Sub, Topic::Snapshot(0), Some(11), None),
        ]
    );
    assert!(s.registered);
    assert!(s.register_client().is_empty());
}

#[test]
fn client_reads_replies() {
    assert_eq!(classify_reply(&Bytes::from("WELCOME t")), ServerReply::Welcome);
    assert_eq!(classify_reply(&Bytes::from("  REJECT full")), ServerReply::Reject);
    assert_eq!(classify_reply(&Bytes::from("HELLO")), ServerReply::Other);
    let control = encode_msg(&msg(PubSubOp::ForcedSub, Topic::View(0), None, None));
    assert_eq!(classify_reply(&control), ServerReply::Control);
}

#[test]
fn routing_follows_entities_between_shards() {
    let s = connected();
    let mut r = SpatialRouter::new();
    let out = r.route_position(&s, 9, 0, &vec![0]);
    assert_eq!(out.control, vec![msg(PubSubOp::Sub, Topic::Snapshot(0), Some(11), Some(9))]);
    assert!(out.alert.is_none());
    let out = r.route_position(&s, 9, 0, &vec![0]);
    assert!(out.control.is_empty());
    let out = r.route_position(&s, 9, 1, &vec![1, 0]);
    assert_eq!(
        out.control,
        vec![
            msg(PubSubOp::StopSub, Topic::Snapshot(0), Some(11), Some(9)),
            msg(PubSubOp::Sub, Topic::Snapshot(1), Some(11), Some(9)),
        ]
    );
    assert_eq!(out.alert, Some(vec![0x30, 9, 0, 0, 0, 1, 0, 0, 0, 0, 0, 0, 0]));
    assert_eq!(r.entity_shard.get(&9), Some(&1));
    r.clear();
    assert!(r.entity_shard.is_empty());
}

#[test]
fn routing_without_a_session_only_records() {
    let s = BrokerSession::new();
    let mut r = SpatialRouter::new();
    let out = r.route_position(&s, 9, 2, &vec![2, 3]);
    assert!(out.control.is_empty());
    assert!(out.alert.is_none());
    assert_eq!(r.entity_shard.get(&9), Some(&2));
}

#[test]
fn distinct_sorted_orders_shards_once() {
    assert_eq!(distinct_sorted(&vec![3, 1, 3, 0, 1]), vec![0, 1, 3]);
    assert_eq!(distinct_sorted(&vec![2]), vec![2]);
    assert!(distinct_sorted(&vec![]).is_empty());
}

#[test]
fn readiness_and_registration_step() {
    let mut s = connected();
    assert!(!s.is_ready());
    assert!(!s.registers_next());
    s.drive_shard(u32::MAX);
    s.welcomed = true;
    assert!(s.registers_next());
    s.drive_shard(4);
    assert!(s.is_ready());
    assert!(!s.registers_next());
    // a shard with the largest id can join while it does not register
    let mut t = connected();
    assert_eq!(t.drive_shard(u32::MAX).join.as_deref(), Some("JOIN shard 4294967295"));
}
