use bytes::Bytes;
use shardnet::broker::{new_player_handler, Broker, Outgoing, Subscriber};
use shardnet::netmessage::{encode_msg, PubSubMessage, PubSubOp};
use shardnet::topics::Topic;

fn sorted(v: Vec<Subscriber>) -> Vec<(u32, u16)> {
    let mut out: Vec<(u32, u16)> = v.iter().map(|s| (s.connection, s.stream)).collect();
    out.sort();
    out
}

fn control(op: PubSubOp, topic: Topic, stream: Option<u16>) -> Bytes {
    encode_msg(&PubSubMessage { op, topic, stream, target: None })
}

#[test]
fn join_registers_service_and_welcomes() {
    let mut b = Broker::new();
    assert!(!b.is_existing_service(1));
    let reply = b.handle_message(1, 10, true, &Bytes::from("  JOIN shard 0 \n"));
    assert!(reply.welcome);
    assert!(reply.forward_to.is_empty());
    assert!(reply.control.is_empty());
    assert!(b.is_existing_service(1));
    assert!(b.is_existing_lifeline(1, 10));
    assert!(!b.is_existing_lifeline(1, 11));
}

#[test]
fn non_join_text_from_unknown_connection_is_ignored() {
    let mut b = Broker::new();
    let reply = b.handle_message(1, 10, true, &Bytes::from("HELLO"));
    assert!(!reply.welcome);
    assert!(!b.is_existing_service(1));
    let reply = b.handle_message(1, 10, true, &Bytes::from("JOIN"));
    assert!(!reply.welcome);
}

#[test]
fn new_player_handler_answers_welcome() {
    let mut b = Broker::new();
    assert_eq!(new_player_handler(&mut b, 4, 2), "WELCOME t");
    assert!(b.is_existing_lifeline(4, 2));
}

#[test]
fn published_bytes_reach_each_subscriber() {
    let mut b = Broker::new();
    b.register_service(1, 10);
    b.register_service(2, 20);
    b.register_service(3, 30);
    b.handle_message(1, 10, true, &control(PubSubOp::Pub, Topic::Snapshot(0), Some(11)));
    b.handle_message(2, 20, true, &control(PubSubOp::Sub, Topic::Snapshot(0), Some(21)));
    b.handle_message(3, 30, true, &control(PubSubOp::Sub, Topic::Snapshot(0), None));
    let reply = b.handle_message(1, 11, false, &Bytes::from(vec![0x10u8, 1, 2]));
    assert_eq!(sorted(reply.forward_to), vec![(2, 21), (3, 30)]);
    // the same via publish
    assert_eq!(sorted(b.publish(1, 11)), vec![(2, 21), (3, 30)]);
    // a stream that publishes nothing reaches nobody
    assert!(b.publish(1, 12).is_empty());
    assert!(b.publish(9, 11).is_empty());
}

#[test]
fn reliable_non_lifeline_stream_of_a_service_is_published() {
    let mut b = Broker::new();
    b.register_service(1, 10);
    b.register_service(2, 20);
    b.create_topic(Topic::View(0), 1, 12);
    b.subscribe(Topic::View(0), 2, 22);
    let reply = b.handle_message(1, 12, true, &Bytes::from(vec![1u8]));
    assert_eq!(sorted(reply.forward_to), vec![(2, 22)]);
}

#[test]
fn unsubscribe_stops_delivery() {
    let mut b = Broker::new();
    b.register_service(1, 10);
    b.register_service(2, 20);
    b.create_topic(Topic::Input(0), 1, 11);
    b.subscribe(Topic::Input(0), 2, 21);
    assert_eq!(sorted(b.publish(1, 11)), vec![(2, 21)]);
    b.handle_message(2, 20, true, &control(PubSubOp::StopSub, Topic::Input(0), None));
    assert!(b.publish(1, 11).is_empty());
    // unsubscribing again changes nothing
    b.unsubscribe(Topic::Input(0), 2);
    assert!(b.publish(1, 11).is_empty());
}

#[test]
fn stop_pub_suppresses_topic_and_tells_publisher() {
    let mut b = Broker::new();
    b.register_service(1, 10);
    b.register_service(2, 20);
    b.create_topic(Topic::Snapshot(3), 1, 11);
    b.subscribe(Topic::Snapshot(3), 2, 21);
    let reply = b.handle_message(1, 10, true, &control(PubSubOp::StopPub, Topic::Snapshot(3), None));
    assert_eq!(
        reply.control,
        vec![Outgoing {
            connection: 1,
            stream: 10,
            message: PubSubMessage { op: PubSubOp::StopPub, topic: Topic::Snapshot(3), stream: None, target: None },
        }]
    );
    assert!(b.publish(1, 11).is_empty());
    // suppressing a topic that is gone does nothing
    assert!(b.suppress_topic(Topic::Snapshot(3), 1).is_none());
}

#[test]
fn end_removes_service_from_every_topic() {
    let mut b = Broker::new();
    b.register_service(1, 10);
    b.register_service(2, 20);
    b.create_topic(Topic::Snapshot(0), 1, 11);
    b.create_topic(Topic::Snapshot(1), 2, 21);
    b.subscribe(Topic::Snapshot(0), 2, 22);
    b.subscribe(Topic::Snapshot(1), 1, 12);
    let reply = b.handle_message(2, 20, true, &control(PubSubOp::End, Topic::Snapshot(1), None));
    assert_eq!(reply.control.len(), 1);
    assert_eq!(reply.control[0].connection, 2);
    assert_eq!(reply.control[0].stream, 20);
    assert_eq!(reply.control[0].message.op, PubSubOp::StopPub);
    assert_eq!(reply.control[0].message.topic, Topic::Snapshot(1));
    // nobody receives what service 1 publishes, service 2 is gone from it
    assert!(b.publish(1, 11).is_empty());
    assert!(b.publish(2, 21).is_empty());
}

#[test]
fn remove_service_of_unknown_connection_sends_nothing() {
    let mut b = Broker::new();
    assert!(b.remove_service(5).is_empty());
}

#[test]
fn forced_messages_go_on_the_lifeline() {
    let mut b = Broker::new();
    assert!(b.forced_subscribe(&Topic::View(0), 1).is_none());
    assert!(b.forced_create_topic(&Topic::View(0), 1).is_none());
    b.register_service(1, 10);
    let o = b.forced_subscribe(&Topic::View(0), 1).unwrap();
    assert_eq!(
        o,
        Outgoing {
            connection: 1,
            stream: 10,
            message: PubSubMessage { op: PubSubOp::ForcedSub, topic: Topic::View(0), stream: None, target: None },
        }
    );
    let o = b.forced_create_topic(&Topic::Input(2), 1).unwrap();
    assert_eq!(o.message.op, PubSubOp::ForcedPub);
    assert_eq!(o.stream, 10);
}

#[test]
fn forced_client_subscriptions() {
    let mut b = Broker::new();
    b.register_service(1, 10);
    b.register_service(7, 70);
    b.create_topic(Topic::Snapshot(0), 1, 11);
    b.create_topic(Topic::Snapshot(1), 1, 12);
    b.subscribe(Topic::Snapshot(0), 7, 71);
    b.register_client_id(42, 7);
    b.force_subscribe_client(42, Topic::Snapshot(1));
    assert_eq!(sorted(b.publish(1, 12)), vec![(7, 71)]);
    b.force_unsubscribe_client(42, Topic::Snapshot(1));
    assert!(b.publish(1, 12).is_empty());
    assert_eq!(sorted(b.publish(1, 11)), vec![(7, 71)]);
    // an unknown client changes nothing
    b.force_subscribe_client(43, Topic::Snapshot(1));
    assert!(b.publish(1, 12).is_empty());
}

#[test]
fn control_message_streams_default_to_the_lifeline() {
    let mut b = Broker::new();
    b.register_service(1, 10);
    b.register_service(2, 20);
    b.handle_message(1, 10, true, &control(PubSubOp::Pub, Topic::View(0), None));
    b.handle_message(2, 20, true, &control(PubSubOp::Sub, Topic::View(0), None));
    assert_eq!(sorted(b.publish(1, 10)), vec![(2, 20)]);
}

#[test]
fn ending_a_service_leaves_other_topics_alone() {
    let mut b = Broker::new();
    for (c, l) in [(1u32, 10u16), (2, 20), (3, 30)] {
        b.register_service(c, l);
    }
    b.create_topic(Topic::Snapshot(0), 1, 11);
    b.create_topic(Topic::View(0), 3, 31);
    b.subscribe(Topic::View(0), 1, 12);
    b.subscribe(Topic::View(0), 2, 22);
    b.subscribe(Topic::Snapshot(0), 2, 23);
    let out = b.remove_service(1);
    assert_eq!(out.len(), 1);
    assert_eq!(out[0].message.topic, Topic::Snapshot(0));
    // View(0) still exists and still reaches service 2; service 1 no longer hears it
    assert_eq!(sorted(b.publish(3, 31)), vec![(2, 22)]);
}
