//! The pub/sub broker: which services are connected, which topics exist, who
//! publishes each topic and who is subscribed to it.
//!
//! Connections are known by a number and streams by their stream id. The
//! broker decides; the messages that it wants sent are handed back to the caller.
use vstd::prelude::*;
use vstd::string::*;
use std::collections::{HashMap, HashSet};
use crate::collections::{map_keys, set_elements};
use bytes::Bytes;
use crate::netmessage::{self, AnyMessage, MessageId, NetMessage, PubSubMessage, PubSubOp, decode_msg};
use crate::serializer;
use crate::text::{self, is_join_request};
use crate::topics::{self, Topic};

verus! {

broadcast use vstd::std_specs::hash::group_hash_axioms;

/// A stream of a connection that receives a topic.
#[derive(Clone, Copy, Debug, PartialEq, Eq, Hash, Structural)]
pub struct Subscriber {
    pub connection: u32,
    pub stream: u16,
}

/// The number that stands for a subscriber in a topic's set.
pub open spec fn sub_key(connection: u32, stream: u16) -> u64 {
    (connection as int * 65536 + stream as int) as u64
}

/// The subscriber that a number stands for.
pub open spec fn sub_of_key(k: u64) -> Subscriber {
    Subscriber { connection: (k / 65536) as u32, stream: (k % 65536) as u16 }
}

pub proof fn lemma_sub_key_roundtrip(connection: u32, stream: u16)
    ensures
        sub_key(connection, stream) < 0x1_0000_0000_0000,
        sub_of_key(sub_key(connection, stream)) == (Subscriber { connection, stream }),
{
}

/// A connected service: its lifeline stream, the topics that it publishes (by
/// the stream it publishes on) and the topics it subscribes to (by topic key,
/// with the stream that receives them).
pub struct Service {
    pub connection: u32,
    pub stream_lifeline: u16,
    pub publications: HashMap<u16, Topic>,
    pub subscriptions: HashMap<u64, u16>,
}

pub struct ServiceModel {
    pub connection: u32,
    pub lifeline: u16,
    pub publications: Map<u16, Topic>,
    pub subscriptions: Map<u64, u16>,
}

impl View for Service {
    type V = ServiceModel;

    open spec fn view(&self) -> ServiceModel {
        ServiceModel {
            connection: self.connection,
            lifeline: self.stream_lifeline,
            publications: self.publications@,
            subscriptions: self.subscriptions@,
        }
    }
}

impl Service {
    pub fn is_lifeline_stream(&self, stream: u16) -> (r: bool)
        ensures
            r == (stream == self.stream_lifeline),
    {
        stream == self.stream_lifeline
    }
}

pub struct ServicesRegistry(pub HashMap<u32, Service>);

/// Each topic (by key) with the keys of its subscribers.
pub struct TopicsRegistry(pub HashMap<u64, HashSet<u64>>);

/// The broker's state, abstractly.
pub struct BrokerModel {
    pub services: Map<u32, ServiceModel>,
    pub topics: Map<u64, Set<u64>>,
    pub clients: Map<u32, u32>,
}

/// A control message that the broker wants sent.
#[derive(Clone, Copy, Debug, PartialEq, Eq, Structural)]
pub struct Outgoing {
    pub connection: u32,
    pub stream: u16,
    pub message: PubSubMessage,
}

/// The control message of an op about a topic, with no stream or target.
pub open spec fn control(op: PubSubOp, topic: Topic) -> PubSubMessage {
    PubSubMessage { op, topic, stream: None, target: None }
}

impl BrokerModel {
    /// Registers a service with a lifeline, in place of any earlier one.
    pub open spec fn register_service(self, connection: u32, lifeline: u16) -> Self {
        BrokerModel {
            services: self.services.insert(
                connection,
                ServiceModel { connection, lifeline, publications: Map::empty(), subscriptions: Map::empty() },
            ),
            ..self
        }
    }

    /// The subscriber keys of a topic; none when the topic does not exist.
    pub open spec fn subscribers(self, tk: u64) -> Set<u64> {
        if self.topics.contains_key(tk) {
            self.topics[tk]
        } else {
            Set::empty()
        }
    }

    /// Every subscriber key stands for a subscriber.
    pub open spec fn wf(self) -> bool {
        forall|tk: u64, sk: u64| #[trigger]
            self.topics.contains_key(tk) && #[trigger] self.topics[tk].contains(sk) ==> sk
                < 0x1_0000_0000_0000
    }

    /// Subscribes a stream of a connection to a topic; the connection's service,
    /// if any, records the subscription.
    pub open spec fn subscribe(self, tk: u64, connection: u32, stream: u16) -> Self {
        BrokerModel {
            topics: self.topics.insert(tk, self.subscribers(tk).insert(sub_key(connection, stream))),
            services: if self.services.contains_key(connection) {
                self.services.insert(
                    connection,
                    ServiceModel {
                        subscriptions: self.services[connection].subscriptions.insert(tk, stream),
                        ..self.services[connection]
                    },
                )
            } else {
                self.services
            },
            clients: self.clients,
        }
    }

    /// Drops a connection's subscription to a topic, if its service holds one,
    /// and takes the stream it recorded out of the topic's subscribers.
    pub open spec fn unsubscribe(self, tk: u64, connection: u32) -> Self {
        if self.services.contains_key(connection) && self.services[connection].subscriptions.contains_key(tk) {
            let stream = self.services[connection].subscriptions[tk];
            BrokerModel {
                services: self.services.insert(
                    connection,
                    ServiceModel {
                        subscriptions: self.services[connection].subscriptions.remove(tk),
                        ..self.services[connection]
                    },
                ),
                topics: if self.topics.contains_key(tk) {
                    self.topics.insert(tk, self.topics[tk].remove(sub_key(connection, stream)))
                } else {
                    self.topics
                },
                clients: self.clients,
            }
        } else {
            self
        }
    }

    /// Makes the topic exist; the connection's service, if any, publishes it on `stream`.
    pub open spec fn create_topic(self, topic: Topic, connection: u32, stream: u16) -> Self {
        let tk = topics::topic_key(topic);
        BrokerModel {
            topics: self.topics.insert(tk, self.subscribers(tk)),
            services: if self.services.contains_key(connection) {
                self.services.insert(
                    connection,
                    ServiceModel {
                        publications: self.services[connection].publications.insert(stream, topic),
                        ..self.services[connection]
                    },
                )
            } else {
                self.services
            },
            clients: self.clients,
        }
    }

    /// `pick` is a stream on which the connection publishes `topic`, or `None`
    /// when it publishes it on none.
    pub open spec fn publication_pick(self, connection: u32, topic: Topic, pick: Option<u16>) -> bool {
        match pick {
            Some(s) => self.services.contains_key(connection)
                && self.services[connection].publications.contains_key(s)
                && self.services[connection].publications[s] == topic,
            None => !(self.services.contains_key(connection) && exists|s: u16|
                #[trigger] self.services[connection].publications.contains_key(s)
                    && self.services[connection].publications[s] == topic),
        }
    }

    /// The services after each connection among `connections` dropped its
    /// subscription to a topic.
    pub open spec fn without_subscriptions(self, tk: u64, connections: Set<u32>) -> Map<
        u32,
        ServiceModel,
    > {
        Map::new(
            |c: u32| self.services.contains_key(c),
            |c: u32|
                if connections.contains(c) {
                    ServiceModel {
                        subscriptions: self.services[c].subscriptions.remove(tk),
                        ..self.services[c]
                    }
                } else {
                    self.services[c]
                },
        )
    }

    /// The connections of a topic's subscribers.
    pub open spec fn subscriber_connections(self, tk: u64) -> Set<u32> {
        Set::new(|c: u32| exists|sk: u64| #[trigger] self.subscribers(tk).contains(sk) && sub_of_key(sk).connection == c)
    }

    /// Ends a topic that exists: its subscribers drop their subscriptions to it,
    /// the publisher stops publishing it on the picked stream, and the topic goes.
    pub open spec fn suppress_topic(self, topic: Topic, connection: u32, pick: Option<u16>) -> Self {
        let tk = topics::topic_key(topic);
        let dropped = self.without_subscriptions(tk, self.subscriber_connections(tk));
        BrokerModel {
            services: match pick {
                Some(s) => dropped.insert(
                    connection,
                    ServiceModel {
                        publications: dropped[connection].publications.remove(s),
                        ..dropped[connection]
                    },
                ),
                None => dropped,
            },
            topics: self.topics.remove(tk),
            clients: self.clients,
        }
    }
}

/// A stream on which `topic` is published, if any.
fn find_publication(publications: &HashMap<u16, Topic>, topic: &Topic) -> (r: Option<u16>)
    ensures
        r matches Some(s) ==> publications@.contains_key(s) && publications@[s] == *topic,
        r is None ==> forall|s: u16| #[trigger]
            publications@.contains_key(s) ==> publications@[s] != *topic,
{
    let keys = map_keys(publications);
    let mut i: usize = 0;
    while i < keys.len()
        invariant
            i <= keys@.len(),
            keys@.to_set() == publications@.dom(),
            forall|j: int| 0 <= j < i ==> publications@[#[trigger] keys@[j]] != *topic,
        decreases keys@.len() - i,
    {
        let s = keys[i];
        assert(keys@.to_set().contains(s));
        match publications.get(&s) {
            Some(t) => {
                if *t == *topic {
                    return Some(s);
                }
            },
            None => {},
        }
        i += 1;
    }
    proof {
        assert forall|s: u16| #[trigger] publications@.contains_key(s) implies publications@[s] != *topic by {
            assert(keys@.to_set().contains(s));
            let j = choose|j: int| 0 <= j < keys@.len() && keys@[j] == s;
        }
    }
    None
}

/// The topics published, in the order the streams are walked; a topic published
/// on several streams appears once per stream.
fn publication_topics(publications: &HashMap<u16, Topic>) -> (r: Vec<Topic>)
    ensures
        forall|t: Topic| #[trigger]
            r@.contains(t) <==> exists|s: u16| #[trigger]
                publications@.contains_key(s) && publications@[s] == t,
{
    let keys = map_keys(publications);
    let mut out: Vec<Topic> = Vec::new();
    let mut i: usize = 0;
    while i < keys.len()
        invariant
            i <= keys@.len(),
            keys@.to_set() == publications@.dom(),
            out@.len() == i,
            forall|j: int| 0 <= j < i ==> publications@[#[trigger] keys@[j]] == out@[j],
        decreases keys@.len() - i,
    {
        let s = keys[i];
        assert(keys@.to_set().contains(s));
        match publications.get(&s) {
            Some(t) => {
                out.push(*t);
            },
            None => {
                assert(false);
            },
        }
        i += 1;
    }
    proof {
        assert forall|t: Topic| #[trigger] out@.contains(t) implies exists|s: u16| #[trigger]
            publications@.contains_key(s) && publications@[s] == t by {
            let j = choose|j: int| 0 <= j < out@.len() && out@[j] == t;
            assert(keys@.to_set().contains(keys@[j]));
            assert(publications@.contains_key(keys@[j]) && publications@[keys@[j]] == t);
        }
        assert forall|t: Topic| (exists|s: u16| #[trigger]
            publications@.contains_key(s) && publications@[s] == t) implies #[trigger] out@.contains(t) by {
            let s = choose|s: u16| #[trigger] publications@.contains_key(s) && publications@[s] == t;
            assert(keys@.to_set().contains(s));
            let j = choose|j: int| 0 <= j < keys@.len() && keys@[j] == s;
            assert(out@[j] == t);
        }
    }
    out
}

/// The connections of the first `n` subscriber keys of a list.
pub open spec fn connections_in(keys: Seq<u64>, n: int) -> Set<u32> {
    Set::new(|c: u32| exists|j: int| 0 <= j < n && sub_of_key(keys[j]).connection == c)
}

/// What ending a topic does: nothing to a topic that does not exist; else the
/// topic ends as the model says, for some stream on which the connection
/// published it, and the publisher, if it has a service, is told on its lifeline.
pub open spec fn suppress_outcome(
    before: BrokerModel,
    after: BrokerModel,
    topic: Topic,
    connection: u32,
    r: Option<Outgoing>,
) -> bool {
    &&& !before.topics.contains_key(topics::topic_key(topic)) ==> after == before && r is None
    &&& before.topics.contains_key(topics::topic_key(topic)) ==> {
        &&& exists|pick: Option<u16>|
            before.publication_pick(connection, topic, pick) && after == before.suppress_topic(
                topic,
                connection,
                pick,
            )
        &&& r == (if before.services.contains_key(connection) {
            Some(
                Outgoing {
                    connection,
                    stream: before.services[connection].lifeline,
                    message: control(PubSubOp::StopPub, topic),
                },
            )
        } else {
            None
        })
    }
}

/// The model after a connection drops, in turn, its subscriptions to the
/// topics with these keys.
pub open spec fn unsubscribe_all(m: BrokerModel, connection: u32, keys: Seq<u64>) -> BrokerModel
    decreases keys.len(),
{
    if keys.len() == 0 {
        m
    } else {
        unsubscribe_all(m, connection, keys.drop_last()).unsubscribe(keys.last(), connection)
    }
}

/// The model after a connection ends these topics in turn, with the stream
/// picked for each; a topic that no longer exists is passed over.
pub open spec fn suppress_all(m: BrokerModel, connection: u32, ts: Seq<Topic>, picks: Seq<Option<u16>>) -> BrokerModel
    decreases ts.len(),
{
    if ts.len() == 0 {
        m
    } else {
        let prev = suppress_all(m, connection, ts.drop_last(), picks.drop_last());
        if prev.topics.contains_key(topics::topic_key(ts.last())) {
            prev.suppress_topic(ts.last(), connection, picks.last())
        } else {
            prev
        }
    }
}

/// Each pick is, at its turn, a stream on which the connection publishes the
/// topic then ended.
pub open spec fn picks_fit(m: BrokerModel, connection: u32, ts: Seq<Topic>, picks: Seq<Option<u16>>) -> bool
    decreases ts.len(),
{
    &&& picks.len() == ts.len()
    &&& ts.len() > 0 ==> {
        let prev = suppress_all(m, connection, ts.drop_last(), picks.drop_last());
        &&& picks_fit(m, connection, ts.drop_last(), picks.drop_last())
        &&& prev.topics.contains_key(topics::topic_key(ts.last())) ==> prev.publication_pick(
            connection,
            ts.last(),
            picks.last(),
        )
    }
}

/// The messages of ending these topics in turn: a `StopPub` on the
/// connection's lifeline for each topic that still existed, when the
/// connection has a service.
pub open spec fn stop_messages(m: BrokerModel, connection: u32, ts: Seq<Topic>, picks: Seq<Option<u16>>) -> Seq<
    Outgoing,
>
    decreases ts.len(),
{
    if ts.len() == 0 {
        Seq::empty()
    } else {
        let prev = suppress_all(m, connection, ts.drop_last(), picks.drop_last());
        stop_messages(m, connection, ts.drop_last(), picks.drop_last()) + (if prev.topics.contains_key(
            topics::topic_key(ts.last()),
        ) && prev.services.contains_key(connection) {
            seq![
                Outgoing {
                    connection,
                    stream: prev.services[connection].lifeline,
                    message: control(PubSubOp::StopPub, ts.last()),
                },
            ]
        } else {
            Seq::<Outgoing>::empty()
        })
    }
}

/// Removing a connection's service walked in one order: it drops each of its
/// subscriptions (the keys `keys`, each once), then ends each topic that it
/// publishes (`ts`, every such topic, each at least once) with the picks
/// `picks`; `after` and `r` are the model and the messages that this gives.
pub open spec fn removal_walk(
    before: BrokerModel,
    connection: u32,
    keys: Seq<u64>,
    ts: Seq<Topic>,
    picks: Seq<Option<u16>>,
    after: BrokerModel,
    r: Seq<Outgoing>,
) -> bool {
    let service = before.services[connection];
    let mid = unsubscribe_all(before, connection, keys);
    &&& keys.no_duplicates()
    &&& keys.to_set() == service.subscriptions.dom()
    &&& forall|t: Topic| #[trigger]
        ts.contains(t) <==> exists|s: u16| #[trigger]
            service.publications.contains_key(s) && service.publications[s] == t
    &&& picks_fit(mid, connection, ts, picks)
    &&& after == suppress_all(mid, connection, ts, picks)
    &&& r == stop_messages(mid, connection, ts, picks)
}

/// What removing a connection's service does, whatever order its topics are
/// walked in: nothing without a service; else it is left with no subscription,
/// the topics it subscribed to no longer list the streams it subscribed with,
/// none of the topics it published exists any more, no topic appears, and the
/// messages are `StopPub`s on its lifeline, one at least for each topic that it
/// published and that existed, and none for anything else.
pub open spec fn removal_outcome(
    before: BrokerModel,
    after: BrokerModel,
    connection: u32,
    r: Seq<Outgoing>,
) -> bool {
    &&& !before.services.contains_key(connection) ==> after == before && r.len() == 0
    &&& before.services.contains_key(connection) ==> {
        let service = before.services[connection];
        &&& exists|keys: Seq<u64>, ts: Seq<Topic>, picks: Seq<Option<u16>>|
            removal_walk(before, connection, keys, ts, picks, after, r)
        &&& after.services.dom() == before.services.dom()
        &&& after.services[connection].subscriptions == Map::<u64, u16>::empty()
        &&& after.services[connection].lifeline == service.lifeline
        &&& forall|s: u16| #[trigger]
            after.services[connection].publications.contains_key(s) ==> service.publications.contains_key(s)
                && after.services[connection].publications[s] == service.publications[s]
        &&& forall|s: u16| #[trigger]
            service.publications.contains_key(s) ==> !after.topics.contains_key(
                topics::topic_key(service.publications[s]),
            )
        &&& forall|tk: u64| #[trigger] after.topics.contains_key(tk) ==> before.topics.contains_key(tk)
        &&& forall|tk: u64| #[trigger]
            service.subscriptions.contains_key(tk) && after.topics.contains_key(tk) ==> !after.topics[tk].contains(
                sub_key(connection, service.subscriptions[tk]),
            )
        &&& after.clients == before.clients
        &&& forall|s: u16| #[trigger]
            service.publications.contains_key(s) && before.topics.contains_key(
                topics::topic_key(service.publications[s]),
            ) ==> r.contains(
                (Outgoing {
                    connection,
                    stream: service.lifeline,
                    message: control(PubSubOp::StopPub, service.publications[s]),
                }),
            )
        &&& forall|o: Outgoing| #[trigger]
            r.contains(o) ==> {
                &&& o.connection == connection
                &&& o.stream == service.lifeline
                &&& o.message.op == PubSubOp::StopPub
                &&& o.message.stream is None
                &&& o.message.target is None
                &&& exists|s: u16| #[trigger]
                    service.publications.contains_key(s) && service.publications[s] == o.message.topic
            }
    }
}

/// The receivers of what a connection sends on a stream: each subscriber of the
/// topic it publishes there, once; nobody when it publishes nothing there.
pub open spec fn publish_outcome(m: BrokerModel, connection: u32, stream: u16, r: Seq<Subscriber>) -> bool {
    &&& r.no_duplicates()
    &&& m.services.contains_key(connection) && m.services[connection].publications.contains_key(stream)
        ==> r.to_set() == m.subscribers(topics::topic_key(m.services[connection].publications[stream])).map(
        |k: u64| sub_of_key(k),
    )
    &&& !(m.services.contains_key(connection) && m.services[connection].publications.contains_key(stream))
        ==> r.len() == 0
}

/// The effect of a control message from a service's lifeline.
pub open spec fn control_outcome(
    before: BrokerModel,
    after: BrokerModel,
    connection: u32,
    stream: u16,
    msg: PubSubMessage,
    control: Seq<Outgoing>,
) -> bool {
    match msg.op {
        PubSubOp::Pub => after == before.create_topic(msg.topic, connection, msg.stream.unwrap_or(stream))
            && control.len() == 0,
        PubSubOp::StopPub => exists|o: Option<Outgoing>|
            suppress_outcome(before, after, msg.topic, connection, o) && control == (match o {
                Some(x) => seq![x],
                None => Seq::<Outgoing>::empty(),
            }),
        PubSubOp::Sub => after == before.subscribe(
            topics::topic_key(msg.topic),
            connection,
            msg.stream.unwrap_or(stream),
        ) && control.len() == 0,
        PubSubOp::StopSub => after == before.unsubscribe(topics::topic_key(msg.topic), connection)
            && control.len() == 0,
        PubSubOp::End => removal_outcome(before, after, connection, control),
        _ => after == before && control.len() == 0,
    }
}

/// The text that welcomes a newly joined service.
pub open spec fn welcome_text() -> Seq<char> {
    seq!['W', 'E', 'L', 'C', 'O', 'M', 'E', ' ', 't']
}

/// How the broker handles bytes from a connection's stream. On a reliable
/// stream of a registered service: on its lifeline, a pub/sub message is acted
/// on and anything else ignored; on another reliable stream, the bytes are
/// published. On a reliable stream of an unknown connection, a join request
/// registers a service with that stream as its lifeline and is welcomed, and
/// anything else is ignored. Bytes on an unreliable stream are published.
pub open spec fn dispatch_outcome(
    before: BrokerModel,
    after: BrokerModel,
    connection: u32,
    stream: u16,
    reliable: bool,
    data: Seq<u8>,
    forward_to: Seq<Subscriber>,
    control: Seq<Outgoing>,
    welcome: bool,
) -> bool {
    if reliable && before.services.contains_key(connection) {
        if before.services[connection].lifeline == stream {
            &&& forward_to.len() == 0
            &&& !welcome
            &&& if netmessage::message_id_of(data[0]) == Some(MessageId::PubSub) {
                exists|msg: PubSubMessage|
                    PubSubMessage::spec_parses(data.skip(1), msg) && control_outcome(
                        before,
                        after,
                        connection,
                        stream,
                        msg,
                        control,
                    )
            } else {
                after == before && control.len() == 0
            }
        } else {
            after == before && publish_outcome(before, connection, stream, forward_to) && control.len()
                == 0 && !welcome
        }
    } else if reliable {
        &&& forward_to.len() == 0
        &&& control.len() == 0
        &&& welcome == text::trimmed_text_starts_with(data, seq!['J', 'O', 'I', 'N', ' '])
        &&& after == (if welcome {
            before.register_service(connection, stream)
        } else {
            before
        })
    } else {
        after == before && publish_outcome(before, connection, stream, forward_to) && control.len() == 0
            && !welcome
    }
}

/// What the broker sends in answer to bytes: the bytes themselves to the
/// subscribers in `forward_to`, the control messages, and the welcome text
/// back on the same stream when `welcome` holds.
pub struct BrokerReply {
    pub forward_to: Vec<Subscriber>,
    pub control: Vec<Outgoing>,
    pub welcome: bool,
}

/// The text that welcomes a newly joined service.
pub fn welcome_message() -> (r: &'static str)
    ensures
        r@ == welcome_text(),
{
    proof {
        reveal_strlit("WELCOME t");
    }
    let r = "WELCOME t";
    assert(r@ =~= welcome_text());
    r
}

/// Registers a newly joined service with its lifeline and answers with the
/// text that welcomes it.
pub fn new_player_handler(broker: &mut Broker, connection: u32, stream: u16) -> (r: &'static str)
    ensures
        final(broker)@ == old(broker)@.register_service(connection, stream),
        r@ == welcome_text(),
{
    broker.register_service(connection, stream);
    welcome_message()
}

impl View for Broker {
    type V = BrokerModel;

    open spec fn view(&self) -> BrokerModel {
        BrokerModel {
            services: self.services.0@.map_values(|s: Service| s@),
            topics: self.topics.0@.map_values(|s: HashSet<u64>| s@),
            clients: self.clients@,
        }
    }
}

/// The broker: the services connected to it, the topics, and the clients (by
/// the number a client gave when it joined) with their connections.
pub struct Broker {
    pub services: ServicesRegistry,
    pub topics: TopicsRegistry,
    pub clients: HashMap<u32, u32>,
}

impl Broker {
    pub fn new() -> (r: Self)
        ensures
            r@.services == Map::<u32, ServiceModel>::empty(),
            r@.topics == Map::<u64, Set<u64>>::empty(),
            r@.clients == Map::<u32, u32>::empty(),
            r@.wf(),
    {
        let r = Self {
            services: ServicesRegistry(HashMap::new()),
            topics: TopicsRegistry(HashMap::new()),
            clients: HashMap::new(),
        };
        assert(r@.services =~= Map::<u32, ServiceModel>::empty());
        assert(r@.topics =~= Map::<u64, Set<u64>>::empty());
        r
    }

    pub fn register_client_id(&mut self, client_id: u32, connection: u32)
        ensures
            final(self)@ == (BrokerModel { clients: old(self)@.clients.insert(client_id, connection), ..old(self)@ }),
    {
        self.clients.insert(client_id, connection);
    }

    pub fn is_existing_service(&self, connection: u32) -> (r: bool)
        ensures
            r == self@.services.contains_key(connection),
    {
        self.services.0.contains_key(&connection)
    }

    /// Whether `stream` is the lifeline of the connection's service.
    pub fn is_existing_lifeline(&self, connection: u32, stream: u16) -> (r: bool)
        ensures
            r == (self@.services.contains_key(connection) && self@.services[connection].lifeline == stream),
    {
        match self.services.0.get(&connection) {
            Some(service) => service.is_lifeline_stream(stream),
            None => false,
        }
    }

    /// Registers a service with its lifeline stream, in place of any earlier one.
    pub fn register_service(&mut self, connection: u32, stream_reliable: u16)
        ensures
            final(self)@ == old(self)@.register_service(connection, stream_reliable),
    {
        let service = Service {
            connection,
            stream_lifeline: stream_reliable,
            publications: HashMap::new(),
            subscriptions: HashMap::new(),
        };
        self.services.0.insert(connection, service);
        assert(self@.services =~= old(self)@.services.insert(connection, service@));
    }

    /// Subscribes a stream of a connection to a topic.
    pub fn subscribe(&mut self, topic: Topic, connection: u32, stream: u16)
        requires
            old(self)@.wf(),
        ensures
            final(self)@.wf(),
            final(self)@ == old(self)@.subscribe(topics::topic_key(topic), connection, stream),
    {
        let tk = topic.key();
        let key = connection as u64 * 65536 + stream as u64;
        let mut subs = match self.topics.0.remove(&tk) {
            Some(s) => s,
            None => HashSet::new(),
        };
        subs.insert(key);
        self.topics.0.insert(tk, subs);
        match self.services.0.remove(&connection) {
            Some(mut service) => {
                service.subscriptions.insert(tk, stream);
                self.services.0.insert(connection, service);
            },
            None => {},
        }
        let ghost want = old(self)@.subscribe(tk, connection, stream);
        assert(self@.topics =~= want.topics);
        assert(self@.services =~= want.services);
    }

    /// Drops a connection's subscription to the topic with key `tk`.
    fn unsubscribe_key(&mut self, tk: u64, connection: u32)
        requires
            old(self)@.wf(),
        ensures
            final(self)@.wf(),
            final(self)@ == old(self)@.unsubscribe(tk, connection),
    {
        let mut service = match self.services.0.remove(&connection) {
            Some(s) => s,
            None => {
                assert(self.services.0@ =~= old(self).services.0@);
                return;
            },
        };
        match service.subscriptions.remove(&tk) {
            None => {
                assert(service.subscriptions@ =~= old(self)@.services[connection].subscriptions);
                self.services.0.insert(connection, service);
                assert(self@.services =~= old(self)@.services);
            },
            Some(stream) => {
                self.services.0.insert(connection, service);
                match self.topics.0.remove(&tk) {
                    Some(mut subs) => {
                        let key = connection as u64 * 65536 + stream as u64;
                        subs.remove(&key);
                        self.topics.0.insert(tk, subs);
                    },
                    None => {},
                }
                let ghost want = old(self)@.unsubscribe(tk, connection);
                assert(self@.topics =~= want.topics);
                assert(self@.services =~= want.services);
            },
        }
    }

    /// Drops a connection's subscription to a topic, if it holds one.
    pub fn unsubscribe(&mut self, topic: Topic, connection: u32)
        requires
            old(self)@.wf(),
        ensures
            final(self)@.wf(),
            final(self)@ == old(self)@.unsubscribe(topics::topic_key(topic), connection),
    {
        self.unsubscribe_key(topic.key(), connection);
    }

    /// Makes a topic exist, published by the connection's service on `stream`.
    pub fn create_topic(&mut self, topic: Topic, connection: u32, stream: u16)
        requires
            old(self)@.wf(),
        ensures
            final(self)@.wf(),
            final(self)@ == old(self)@.create_topic(topic, connection, stream),
    {
        let tk = topic.key();
        let subs = match self.topics.0.remove(&tk) {
            Some(s) => s,
            None => HashSet::new(),
        };
        self.topics.0.insert(tk, subs);
        match self.services.0.remove(&connection) {
            Some(mut service) => {
                service.publications.insert(stream, topic);
                self.services.0.insert(connection, service);
            },
            None => {},
        }
        let ghost want = old(self)@.create_topic(topic, connection, stream);
        assert(self@.topics =~= want.topics);
        assert(self@.services =~= want.services);
    }

    /// Makes a topic exist and asks the connection, on its lifeline, to publish
    /// it. Nothing happens for a connection without a service.
    pub fn forced_create_topic(&mut self, topic: &Topic, connection: u32) -> (r: Option<Outgoing>)
        requires
            old(self)@.wf(),
        ensures
            final(self)@.wf(),
            old(self)@.services.contains_key(connection) ==> {
                let tk = topics::topic_key(*topic);
                &&& final(self)@ == (BrokerModel {
                    topics: old(self)@.topics.insert(tk, old(self)@.subscribers(tk)),
                    ..old(self)@
                })
                &&& r == Some(
                    Outgoing {
                        connection,
                        stream: old(self)@.services[connection].lifeline,
                        message: control(PubSubOp::ForcedPub, *topic),
                    },
                )
            },
            !old(self)@.services.contains_key(connection) ==> final(self)@ == old(self)@ && r is None,
    {
        let lifeline = match self.services.0.get(&connection) {
            Some(service) => service.stream_lifeline,
            None => {
                return None;
            },
        };
        let tk = topic.key();
        let subs = match self.topics.0.remove(&tk) {
            Some(s) => s,
            None => HashSet::new(),
        };
        self.topics.0.insert(tk, subs);
        assert(self@.topics =~= old(self)@.topics.insert(tk, old(self)@.subscribers(tk)));
        Some(
            Outgoing {
                connection,
                stream: lifeline,
                message: PubSubMessage { op: PubSubOp::ForcedPub, topic: *topic, stream: None, target: None },
            },
        )
    }

    /// Asks the connection, on its lifeline, to subscribe to a topic.
    pub fn forced_subscribe(&self, topic: &Topic, connection: u32) -> (r: Option<Outgoing>)
        ensures
            r == (if self@.services.contains_key(connection) {
                Some(
                    Outgoing {
                        connection,
                        stream: self@.services[connection].lifeline,
                        message: control(PubSubOp::ForcedSub, *topic),
                    },
                )
            } else {
                None
            }),
    {
        match self.services.0.get(&connection) {
            Some(service) => Some(
                Outgoing {
                    connection,
                    stream: service.stream_lifeline,
                    message: PubSubMessage { op: PubSubOp::ForcedSub, topic: *topic, stream: None, target: None },
                },
            ),
            None => None,
        }
    }

    /// Ends a topic: its subscribers drop their subscriptions to it, the publisher
    /// stops publishing it on one of the streams where it does, the topic goes,
    /// and the publisher is told on its lifeline. Nothing happens for a topic
    /// that does not exist.
    pub fn suppress_topic(&mut self, topic: Topic, connection: u32) -> (r: Option<Outgoing>)
        requires
            old(self)@.wf(),
        ensures
            final(self)@.wf(),
            suppress_outcome(old(self)@, final(self)@, topic, connection, r),
    {
        let tk = topic.key();
        let keys = match self.topics.0.get(&tk) {
            Some(s) => set_elements(s),
            None => {
                return None;
            },
        };
        let ghost old_m = self@;
        proof {
            assert(old_m.services =~= old_m.without_subscriptions(tk, connections_in(keys@, 0)));
            assert forall|j: int| 0 <= j < keys@.len() implies #[trigger] keys@[j] < 0x1_0000_0000_0000 by {
                assert(keys@.to_set().contains(keys@[j]));
                assert(old_m.topics.contains_key(tk) && old_m.topics[tk].contains(keys@[j]));
            }
        }
        let mut i: usize = 0;
        while i < keys.len()
            invariant
                i <= keys@.len(),
                forall|j: int| 0 <= j < keys@.len() ==> #[trigger] keys@[j] < 0x1_0000_0000_0000,
                old_m == old(self)@,
                old_m.wf(),
                old_m.topics.contains_key(tk),
                self@.wf(),
                self@.topics.contains_key(tk),
                self@.topics.remove(tk) == old_m.topics.remove(tk),
                self@.clients == old_m.clients,
                self@.services == old_m.without_subscriptions(tk, connections_in(keys@, i as int)),
            decreases keys@.len() - i,
        {
            let c = (keys[i] / 65536) as u32;
            let ghost before = self@;
            self.unsubscribe_key(tk, c);
            i += 1;
            proof {
                assert(sub_of_key(keys@[i - 1]).connection == c);
                assert forall|x: u32| #[trigger] connections_in(keys@, i as int).contains(x) implies connections_in(keys@, i - 1).insert(c).contains(x) by {
                    let j = choose|j: int| 0 <= j < i && sub_of_key(keys@[j]).connection == x;
                    if j < i - 1 {
                        assert(connections_in(keys@, i - 1).contains(x));
                    }
                }
                assert forall|x: u32| #[trigger] connections_in(keys@, i - 1).insert(c).contains(x) implies connections_in(keys@, i as int).contains(x) by {
                    if x != c {
                        let j = choose|j: int| 0 <= j < i - 1 && sub_of_key(keys@[j]).connection == x;
                        assert(0 <= j < i && sub_of_key(keys@[j]).connection == x);
                    }
                }
                assert(connections_in(keys@, i as int) =~= connections_in(keys@, i - 1).insert(c));
                let want = old_m.without_subscriptions(tk, connections_in(keys@, i as int));
                assert forall|x: u32| #[trigger] self@.services.contains_key(x) implies self@.services[x] == want[x] by {
                    if x == c && before.services.contains_key(c) {
                        assert(self@.services[x].subscriptions =~= want[x].subscriptions);
                    }
                }
                assert(self@.services =~= want);
                assert(self@.topics.remove(tk) =~= old_m.topics.remove(tk));
            }
        }
        let pick: Option<u16> = match self.services.0.get(&connection) {
            Some(service) => find_publication(&service.publications, &topic),
            None => None,
        };
        proof {
            assert(connections_in(keys@, keys@.len() as int) =~= old_m.subscriber_connections(tk)) by {
                assert forall|c: u32| #[trigger] connections_in(keys@, keys@.len() as int).contains(c) implies old_m.subscriber_connections(tk).contains(c) by {
                    let j = choose|j: int| 0 <= j < keys@.len() && sub_of_key(keys@[j]).connection == c;
                    assert(keys@.to_set().contains(keys@[j]));
                }
                assert forall|c: u32| #[trigger] old_m.subscriber_connections(tk).contains(c) implies connections_in(keys@, keys@.len() as int).contains(c) by {
                    let sk = choose|sk: u64| #[trigger] old_m.subscribers(tk).contains(sk) && sub_of_key(sk).connection == c;
                    assert(keys@.to_set().contains(sk));
                    let j = choose|j: int| 0 <= j < keys@.len() && keys@[j] == sk;
                    assert(sub_of_key(keys@[j]).connection == c);
                }
            }
            assert(self@.services.dom() =~= old_m.services.dom());
            if old_m.services.contains_key(connection) {
                assert(self@.services[connection].publications == old_m.services[connection].publications);
                assert(self.services.0@[connection].publications@ == old_m.services[connection].publications);
            }
            assert(old_m.publication_pick(connection, topic, pick));
        }
        match pick {
            Some(s) => {
                match self.services.0.remove(&connection) {
                    Some(mut service) => {
                        service.publications.remove(&s);
                        self.services.0.insert(connection, service);
                    },
                    None => {},
                }
            },
            None => {},
        }
        self.topics.0.remove(&tk);
        proof {
            let want = old_m.suppress_topic(topic, connection, pick);
            assert(self@.topics =~= want.topics);
            assert(self@.services =~= want.services);
        }
        match self.services.0.get(&connection) {
            Some(service) => Some(
                Outgoing {
                    connection,
                    stream: service.stream_lifeline,
                    message: PubSubMessage { op: PubSubOp::StopPub, topic, stream: None, target: None },
                },
            ),
            None => None,
        }
    }

    /// Ends everything of a connection: it drops all its subscriptions and every
    /// topic that it publishes is ended. Its service stays registered.
    pub fn remove_service(&mut self, connection: u32) -> (r: Vec<Outgoing>)
        requires
            old(self)@.wf(),
        ensures
            final(self)@.wf(),
            removal_outcome(old(self)@, final(self)@, connection, r@),
    {
        let mut out: Vec<Outgoing> = Vec::new();
        let (sub_keys, pub_topics) = match self.services.0.get(&connection) {
            Some(service) => (map_keys(&service.subscriptions), publication_topics(&service.publications)),
            None => {
                assert(self@ == old(self)@);
                return out;
            },
        };
        let ghost old_m = self@;
        let ghost before = old_m.services[connection];
        let mut i: usize = 0;
        assert(sub_keys@.take(0) =~= Seq::<u64>::empty());
        while i < sub_keys.len()
            invariant
                i <= sub_keys@.len(),
                old_m == old(self)@,
                old_m.services.contains_key(connection),
                before == old_m.services[connection],
                sub_keys@.to_set() == before.subscriptions.dom(),
                self@.wf(),
                self@.services.dom() == old_m.services.dom(),
                self@.services[connection].lifeline == before.lifeline,
                self@.services[connection].publications == before.publications,
                forall|k: u64| #[trigger]
                    self@.services[connection].subscriptions.contains_key(k) ==> before.subscriptions.contains_key(k)
                        && !sub_keys@.take(i as int).contains(k),
                forall|k: u64| #[trigger]
                    before.subscriptions.contains_key(k) && !sub_keys@.take(i as int).contains(k)
                        ==> self@.services[connection].subscriptions.contains_key(k)
                        && self@.services[connection].subscriptions[k] == before.subscriptions[k],
                forall|k: u64| #[trigger]
                    before.subscriptions.contains_key(k) && sub_keys@.take(i as int).contains(k)
                        && self@.topics.contains_key(k) ==> !self@.topics[k].contains(
                        sub_key(connection, before.subscriptions[k]),
                    ),
                self@.topics.dom() == old_m.topics.dom(),
                self@.clients == old_m.clients,
                self@ == unsubscribe_all(old_m, connection, sub_keys@.take(i as int)),
            decreases sub_keys@.len() - i,
        {
            let ghost prev = self@;
            let ghost k0 = sub_keys@[i as int];
            self.unsubscribe_key(sub_keys[i], connection);
            i += 1;
            proof {
                assert(sub_keys@.take(i as int).drop_last() =~= sub_keys@.take(i - 1));
                let taken = sub_keys@.take(i as int);
                let taken_before = sub_keys@.take(i - 1);
                assert(taken =~= taken_before.push(k0));
                assert forall|k: u64| #[trigger] taken.contains(k) <==> (taken_before.contains(k) || k == k0) by {
                    if k == k0 {
                        assert(taken[taken_before.len() as int] == k0);
                    }
                    if taken_before.contains(k) {
                        let j = choose|j: int| 0 <= j < taken_before.len() && taken_before[j] == k;
                        assert(taken[j] == k);
                    }
                    if taken.contains(k) && k != k0 {
                        let j = choose|j: int| 0 <= j < taken.len() && taken[j] == k;
                        assert(taken_before[j] == k);
                    }
                }
                assert forall|k: u64| #[trigger]
                    before.subscriptions.contains_key(k) && sub_keys@.take(i as int).contains(k)
                        && self@.topics.contains_key(k) implies !self@.topics[k].contains(
                        sub_key(connection, before.subscriptions[k]),
                    ) by {
                    if k != k0 {
                        assert(self@.topics[k] == prev.topics[k]);
                    } else if !sub_keys@.take(i - 1).contains(k) {
                        assert(prev.services[connection].subscriptions.contains_key(k));
                        assert(prev.services[connection].subscriptions[k] == before.subscriptions[k]);
                    } else {
                        assert(prev.topics.contains_key(k));
                    }
                }
                assert(self@.topics.dom() =~= old_m.topics.dom());
                assert forall|k: u64| #[trigger]
                    self@.services[connection].subscriptions.contains_key(k) implies before.subscriptions.contains_key(k)
                        && !sub_keys@.take(i as int).contains(k) by {
                    assert(prev.services[connection].subscriptions.contains_key(k));
                    if sub_keys@.take(i as int).contains(k) {
                        let j = choose|j: int| 0 <= j < i && sub_keys@.take(i as int)[j] == k;
                        if j < i - 1 {
                            assert(sub_keys@.take(i - 1).contains(k));
                        }
                    }
                }
            }
        }
        proof {
            assert(sub_keys@.take(sub_keys@.len() as int) =~= sub_keys@);
            assert forall|k: u64| #[trigger]
                before.subscriptions.contains_key(k) && self@.topics.contains_key(k) implies !self@.topics[k].contains(
                sub_key(connection, before.subscriptions[k]),
            ) by {
                assert(sub_keys@.to_set().contains(k));
                assert(sub_keys@.take(sub_keys@.len() as int).contains(k));
            }
            assert forall|k: u64| !self@.services[connection].subscriptions.contains_key(k) by {
                if self@.services[connection].subscriptions.contains_key(k) {
                    assert(sub_keys@.to_set().contains(k));
                }
            }
            assert(self@.services[connection].subscriptions =~= Map::<u64, u16>::empty());
        }
        let ghost mid = self@;
        let ghost mut picks: Seq<Option<u16>> = Seq::empty();
        let mut j: usize = 0;
        assert(pub_topics@.take(0) =~= Seq::<Topic>::empty());
        while j < pub_topics.len()
            invariant
                j <= pub_topics@.len(),
                old_m == old(self)@,
                old_m.services.contains_key(connection),
                before == old_m.services[connection],
                forall|t: Topic| #[trigger]
                    pub_topics@.contains(t) <==> exists|s: u16| #[trigger]
                        before.publications.contains_key(s) && before.publications[s] == t,
                self@.wf(),
                self@.services.dom() == old_m.services.dom(),
                self@.services[connection].lifeline == before.lifeline,
                self@.services[connection].subscriptions == Map::<u64, u16>::empty(),
                forall|s: u16| #[trigger]
                    self@.services[connection].publications.contains_key(s) ==> before.publications.contains_key(s)
                        && self@.services[connection].publications[s] == before.publications[s],
                mid == unsubscribe_all(old_m, connection, sub_keys@),
                picks.len() == j,
                picks_fit(mid, connection, pub_topics@.take(j as int), picks),
                self@ == suppress_all(mid, connection, pub_topics@.take(j as int), picks),
                out@ == stop_messages(mid, connection, pub_topics@.take(j as int), picks),
                forall|n: int| 0 <= n < j ==> !self@.topics.contains_key(
                    topics::topic_key(#[trigger] pub_topics@[n]),
                ),
                forall|tk: u64| #[trigger] self@.topics.contains_key(tk) ==> old_m.topics.contains_key(tk),
                forall|tk: u64| #[trigger]
                    old_m.topics.contains_key(tk) && !self@.topics.contains_key(tk) ==> exists|n: int|
                        0 <= n < j && topics::topic_key(#[trigger] pub_topics@[n]) == tk,
                forall|n: int|
                    0 <= n < j && old_m.topics.contains_key(topics::topic_key(#[trigger] pub_topics@[n]))
                        ==> out@.contains(
                        (Outgoing {
                            connection,
                            stream: before.lifeline,
                            message: control(PubSubOp::StopPub, pub_topics@[n]),
                        }),
                    ),
                forall|k: u64| #[trigger]
                    before.subscriptions.contains_key(k) && self@.topics.contains_key(k) ==> !self@.topics[k].contains(
                        sub_key(connection, before.subscriptions[k]),
                    ),
                self@.clients == old_m.clients,
                forall|o: Outgoing| #[trigger]
                    out@.contains(o) ==> {
                        &&& o.connection == connection
                        &&& o.stream == before.lifeline
                        &&& o.message.op == PubSubOp::StopPub
                        &&& o.message.stream is None
                        &&& o.message.target is None
                        &&& exists|s: u16| #[trigger]
                            before.publications.contains_key(s) && before.publications[s] == o.message.topic
                    },
            decreases pub_topics@.len() - j,
        {
            let ghost prev = self@;
            let ghost prev_out = out@;
            let topic = pub_topics[j];
            assert(pub_topics@.contains(topic));
            let sent = self.suppress_topic(topic, connection);
            let ghost pick: Option<u16> = if prev.topics.contains_key(topics::topic_key(topic)) {
                choose|pick: Option<u16>|
                    prev.publication_pick(connection, topic, pick) && self@ == prev.suppress_topic(
                        topic,
                        connection,
                        pick,
                    )
            } else {
                None
            };
            proof {
                let tk = topics::topic_key(topic);
                if prev.topics.contains_key(tk) {
                    let pick = choose|pick: Option<u16>|
                        prev.publication_pick(connection, topic, pick) && self@ == prev.suppress_topic(
                            topic,
                            connection,
                            pick,
                        );
                    assert(self@.services[connection].subscriptions =~= Map::<u64, u16>::empty());
                    assert(self@.services.dom() =~= old_m.services.dom());
                } else {
                    assert(self@ == prev);
                }
                assert forall|n: int| 0 <= n < j + 1 implies !self@.topics.contains_key(
                    topics::topic_key(#[trigger] pub_topics@[n]),
                ) by {
                    if n < j {
                        assert(!prev.topics.contains_key(topics::topic_key(pub_topics@[n])));
                    }
                }
            }
            let ghost out_before = out@;
            match sent {
                Some(o) => {
                    out.push(o);
                    proof {
                        assert forall|x: Outgoing| #[trigger] out@.contains(x) implies out_before.contains(x) || x == o by {
                            let k = choose|k: int| 0 <= k < out@.len() && out@[k] == x;
                            if k < out_before.len() {
                                assert(out_before[k] == x);
                            }
                        }
                        assert(out@[out_before.len() as int] == o);
                    }
                },
                None => {},
            }
            proof {
                let tk = topics::topic_key(topic);
                assert forall|x: Outgoing| #[trigger] out_before.contains(x) implies out@.contains(x) by {
                    let k = choose|k: int| 0 <= k < out_before.len() && out_before[k] == x;
                    assert(out@[k] == x);
                }
                assert forall|k: u64| #[trigger]
                    old_m.topics.contains_key(k) && !self@.topics.contains_key(k) implies exists|n: int|
                        0 <= n < j + 1 && topics::topic_key(#[trigger] pub_topics@[n]) == k by {
                    if prev.topics.contains_key(k) {
                        assert(k == tk);
                        assert(topics::topic_key(pub_topics@[j as int]) == k);
                    } else {
                        let n = choose|n: int| 0 <= n < j && topics::topic_key(#[trigger] pub_topics@[n]) == k;
                        assert(topics::topic_key(pub_topics@[n]) == k);
                    }
                }
                assert forall|n: int|
                    0 <= n < j + 1 && old_m.topics.contains_key(
                        topics::topic_key(#[trigger] pub_topics@[n]),
                    ) implies out@.contains(
                    (Outgoing {
                        connection,
                        stream: before.lifeline,
                        message: control(PubSubOp::StopPub, pub_topics@[n]),
                    }),
                ) by {
                    if n == j {
                        if !prev.topics.contains_key(tk) {
                            let m = choose|m: int| 0 <= m < j && topics::topic_key(#[trigger] pub_topics@[m]) == tk;
                            topics::lemma_topic_key_injective(pub_topics@[m], topic);
                        }
                    }
                }
                let ts = pub_topics@.take(j + 1);
                assert(ts.drop_last() =~= pub_topics@.take(j as int));
                assert(ts.last() == topic);
                let picks2 = picks.push(pick);
                assert(picks2.drop_last() =~= picks);
                assert(picks2.last() == pick);
                if prev.topics.contains_key(topics::topic_key(topic)) {
                    assert(out@ =~= prev_out + seq![sent.unwrap()]);
                } else {
                    assert(out@ =~= prev_out + Seq::<Outgoing>::empty());
                }
                picks = picks2;
            }
            j += 1;
        }
        proof {
            assert forall|s: u16| #[trigger] before.publications.contains_key(s) implies !self@.topics.contains_key(
                topics::topic_key(before.publications[s]),
            ) by {
                let t = before.publications[s];
                assert(pub_topics@.contains(t));
                let n = choose|n: int| 0 <= n < pub_topics@.len() && pub_topics@[n] == t;
            }
            assert(pub_topics@.take(pub_topics@.len() as int) =~= pub_topics@);
            assert(removal_walk(old_m, connection, sub_keys@, pub_topics@, picks, self@, out@));
            assert forall|s: u16| #[trigger]
                before.publications.contains_key(s) && old_m.topics.contains_key(
                    topics::topic_key(before.publications[s]),
                ) implies out@.contains(
                (Outgoing {
                    connection,
                    stream: before.lifeline,
                    message: control(PubSubOp::StopPub, before.publications[s]),
                }),
            ) by {
                let t = before.publications[s];
                assert(pub_topics@.contains(t));
                let n = choose|n: int| 0 <= n < pub_topics@.len() && pub_topics@[n] == t;
                assert(old_m.topics.contains_key(topics::topic_key(pub_topics@[n])));
            }
        }
        out
    }

    /// Subscribes a known client's connection to a topic, on a stream on which it
    /// already receives some topic. Nothing happens for an unknown client or one
    /// whose service holds no subscription.
    pub fn force_subscribe_client(&mut self, client_id: u32, topic: Topic)
        requires
            old(self)@.wf(),
        ensures
            final(self)@.wf(),
            ({
                let m = old(self)@;
                if m.clients.contains_key(client_id) && m.services.contains_key(m.clients[client_id])
                    && m.services[m.clients[client_id]].subscriptions.dom().len() > 0 {
                    exists|k: u64| #[trigger]
                        m.services[m.clients[client_id]].subscriptions.contains_key(k) && final(self)@
                            == m.subscribe(
                            topics::topic_key(topic),
                            m.clients[client_id],
                            m.services[m.clients[client_id]].subscriptions[k],
                        )
                } else {
                    final(self)@ == m
                }
            }),
    {
        let connection = match self.clients.get(&client_id) {
            Some(c) => *c,
            None => {
                return;
            },
        };
        let stream = match self.services.0.get(&connection) {
            Some(service) => {
                let keys = map_keys(&service.subscriptions);
                if keys.len() == 0 {
                    None
                } else {
                    assert(keys@.to_set().contains(keys@[0]));
                    match service.subscriptions.get(&keys[0]) {
                        Some(s) => Some(*s),
                        None => None,
                    }
                }
            },
            None => None,
        };
        match stream {
            Some(s) => {
                self.subscribe(topic, connection, s);
            },
            None => {},
        }
    }

    /// Drops a known client's subscription to a topic.
    pub fn force_unsubscribe_client(&mut self, client_id: u32, topic: Topic)
        requires
            old(self)@.wf(),
        ensures
            final(self)@.wf(),
            old(self)@.clients.contains_key(client_id) ==> final(self)@ == old(self)@.unsubscribe(
                topics::topic_key(topic),
                old(self)@.clients[client_id],
            ),
            !old(self)@.clients.contains_key(client_id) ==> final(self)@ == old(self)@,
    {
        match self.clients.get(&client_id) {
            Some(c) => {
                let connection = *c;
                self.unsubscribe(topic, connection);
            },
            None => {},
        }
    }

    /// Handles bytes that arrived from a connection on a stream. On a service's
    /// lifeline they must frame a readable message.
    pub fn handle_message(&mut self, connection: u32, stream: u16, reliable: bool, data: &Bytes) -> (r:
        BrokerReply)
        requires
            old(self)@.wf(),
            reliable && old(self)@.services.contains_key(connection) && old(self)@.services[connection].lifeline
                == stream ==> netmessage::msg_fits(serializer::bytes_contents(*data)),
        ensures
            final(self)@.wf(),
            dispatch_outcome(
                old(self)@,
                final(self)@,
                connection,
                stream,
                reliable,
                serializer::bytes_contents(*data),
                r.forward_to@,
                r.control@,
                r.welcome,
            ),
    {
        let ghost s = serializer::bytes_contents(*data);
        if reliable {
            if self.is_existing_service(connection) {
                if self.is_existing_lifeline(connection, stream) {
                    let mut control: Vec<Outgoing> = Vec::new();
                    match decode_msg(data) {
                        Some(AnyMessage::PubSub(msg)) => {
                            let ghost before = self@;
                            let on = match msg.stream {
                                Some(x) => x,
                                None => stream,
                            };
                            match msg.op {
                                PubSubOp::Pub => {
                                    self.create_topic(msg.topic, connection, on);
                                },
                                PubSubOp::StopPub => {
                                    let sent = self.suppress_topic(msg.topic, connection);
                                    match sent {
                                        Some(o) => {
                                            control.push(o);
                                        },
                                        None => {},
                                    }
                                    assert(control@ =~= (match sent {
                                        Some(x) => seq![x],
                                        None => Seq::<Outgoing>::empty(),
                                    }));
                                },
                                PubSubOp::Sub => {
                                    self.subscribe(msg.topic, connection, on);
                                },
                                PubSubOp::StopSub => {
                                    self.unsubscribe(msg.topic, connection);
                                },
                                PubSubOp::End => {
                                    control = self.remove_service(connection);
                                },
                                _ => {},
                            }
                            assert(control_outcome(before, self@, connection, stream, msg, control@));
                        },
                        _ => {},
                    }
                    return BrokerReply { forward_to: Vec::new(), control, welcome: false };
                } else {
                    let forward_to = self.publish(connection, stream);
                    return BrokerReply { forward_to, control: Vec::new(), welcome: false };
                }
            }
            let bytes = serializer::bytes_to_vec(data);
            let welcome = is_join_request(bytes.as_slice());
            if welcome {
                new_player_handler(self, connection, stream);
            }
            return BrokerReply { forward_to: Vec::new(), control: Vec::new(), welcome };
        }
        let forward_to = self.publish(connection, stream);
        BrokerReply { forward_to, control: Vec::new(), welcome: false }
    }

    /// The subscribers that receive what a connection sends on a stream: those of
    /// the topic that it publishes there. None when it publishes nothing there.
    pub fn publish(&self, connection: u32, stream: u16) -> (r: Vec<Subscriber>)
        requires
            self@.wf(),
        ensures
            publish_outcome(self@, connection, stream, r@),
    {
        let mut out: Vec<Subscriber> = Vec::new();
        let service = match self.services.0.get(&connection) {
            Some(s) => s,
            None => {
                return out;
            },
        };
        let topic = match service.publications.get(&stream) {
            Some(t) => t,
            None => {
                return out;
            },
        };
        let tk = topic.key();
        let subscribers = match self.topics.0.get(&tk) {
            Some(s) => s,
            None => {
                assert(self@.subscribers(tk) =~= Set::<u64>::empty());
                assert(self@.subscribers(tk).map(|k: u64| sub_of_key(k)) =~= Set::<Subscriber>::empty());
                assert(out@.to_set() =~= Set::<Subscriber>::empty());
                return out;
            },
        };
        let keys = set_elements(subscribers);
        proof {
            assert(self@.topics[tk] == subscribers@);
            assert forall|j: int| 0 <= j < keys@.len() implies #[trigger] keys@[j] < 0x1_0000_0000_0000 by {
                assert(keys@.to_set().contains(keys@[j]));
                assert(self@.topics.contains_key(tk) && self@.topics[tk].contains(keys@[j]));
            }
        }
        let mut i: usize = 0;
        while i < keys.len()
            invariant
                i <= keys@.len(),
                keys@.no_duplicates(),
                forall|j: int| 0 <= j < keys@.len() ==> #[trigger] keys@[j] < 0x1_0000_0000_0000,
                out@ == keys@.take(i as int).map_values(|k: u64| sub_of_key(k)),
            decreases keys@.len() - i,
        {
            let k = keys[i];
            out.push(Subscriber { connection: (k / 65536) as u32, stream: (k % 65536) as u16 });
            i += 1;
            assert(out@ =~= keys@.take(i as int).map_values(|k: u64| sub_of_key(k)));
        }
        proof {
            assert(keys@.take(keys@.len() as int) =~= keys@);
            let f = |k: u64| sub_of_key(k);
            assert forall|a: int, b: int| 0 <= a < b < out@.len() implies out@[a] != out@[b] by {
                assert(keys@[a] != keys@[b]);
                lemma_sub_key_roundtrip(out@[a].connection, out@[a].stream);
            }
            assert(out@.to_set() =~= self@.subscribers(tk).map(f)) by {
                assert forall|x: Subscriber| out@.to_set().contains(x) implies self@.subscribers(tk).map(f).contains(x) by {
                    let j = choose|j: int| 0 <= j < out@.len() && out@[j] == x;
                    assert(keys@.to_set().contains(keys@[j]));
                }
                assert forall|x: Subscriber| self@.subscribers(tk).map(f).contains(x) implies out@.to_set().contains(x) by {
                    let k = choose|k: u64| self@.subscribers(tk).contains(k) && f(k) == x;
                    assert(keys@.to_set().contains(k));
                    let j = choose|j: int| 0 <= j < keys@.len() && keys@[j] == k;
                    assert(out@[j] == x);
                }
            }
        }
        out
    }
}

/// A stream subscribed to a topic receives what the topic's publisher sends on
/// the stream where it publishes the topic.
pub proof fn law_subscriber_receives_publications(
    m: BrokerModel,
    topic: Topic,
    connection: u32,
    stream: u16,
    publisher: u32,
    publisher_stream: u16,
    r: Seq<Subscriber>,
)
    requires
        m.services.contains_key(publisher),
        m.services[publisher].publications.contains_key(publisher_stream),
        m.services[publisher].publications[publisher_stream] == topic,
        publish_outcome(
            m.subscribe(topics::topic_key(topic), connection, stream),
            publisher,
            publisher_stream,
            r,
        ),
    ensures
        r.contains(Subscriber { connection, stream }),
{
    let tk = topics::topic_key(topic);
    let m2 = m.subscribe(tk, connection, stream);
    assert(m2.services[publisher].publications == m.services[publisher].publications);
    assert(m2.subscribers(tk).contains(sub_key(connection, stream)));
    lemma_sub_key_roundtrip(connection, stream);
    let f = |k: u64| sub_of_key(k);
    assert(m2.subscribers(tk).map(f).contains(f(sub_key(connection, stream))));
    assert(r.to_set().contains(Subscriber { connection, stream }));
}

/// A stream that a connection unsubscribes from a topic no longer receives what
/// the topic's publisher sends on it.
pub proof fn law_unsubscribed_receives_nothing(
    m: BrokerModel,
    topic: Topic,
    connection: u32,
    publisher: u32,
    publisher_stream: u16,
    r: Seq<Subscriber>,
)
    requires
        m.wf(),
        m.services.contains_key(connection),
        m.services[connection].subscriptions.contains_key(topics::topic_key(topic)),
        m.services.contains_key(publisher),
        m.services[publisher].publications.contains_key(publisher_stream),
        m.services[publisher].publications[publisher_stream] == topic,
        publish_outcome(
            m.unsubscribe(topics::topic_key(topic), connection),
            publisher,
            publisher_stream,
            r,
        ),
    ensures
        !r.contains(
            Subscriber {
                connection,
                stream: m.services[connection].subscriptions[topics::topic_key(topic)],
            },
        ),
{
    let tk = topics::topic_key(topic);
    let stream = m.services[connection].subscriptions[tk];
    let m2 = m.unsubscribe(tk, connection);
    let x = Subscriber { connection, stream };
    lemma_sub_key_roundtrip(connection, stream);
    if r.contains(x) {
        assert(r.to_set().contains(x));
        let f = |k: u64| sub_of_key(k);
        let pubs = m2.services[publisher].publications;
        if m2.services.contains_key(publisher) && pubs.contains_key(publisher_stream) {
            let ptk = topics::topic_key(pubs[publisher_stream]);
            assert(m2.subscribers(ptk).map(f).contains(x));
            assert(ptk == tk);
            let k = choose|k: u64| m2.subscribers(ptk).contains(k) && f(k) == x;
            assert(m.topics.contains_key(tk));
            assert(m.topics[tk].contains(k));
            assert(k < 0x1_0000_0000_0000);
            assert(k == sub_key(connection, stream));
        }
    }
}

/// Withdrawing a fresh subscription leaves the broker as it was.
pub proof fn law_unsubscribe_undoes_subscribe(m: BrokerModel, topic: Topic, connection: u32, stream: u16)
    requires
        m.services.contains_key(connection),
        m.topics.contains_key(topics::topic_key(topic)),
        !m.services[connection].subscriptions.contains_key(topics::topic_key(topic)),
        !m.topics[topics::topic_key(topic)].contains(sub_key(connection, stream)),
    ensures
        m.subscribe(topics::topic_key(topic), connection, stream).unsubscribe(
            topics::topic_key(topic),
            connection,
        ) == m,
{
    let tk = topics::topic_key(topic);
    let m2 = m.subscribe(tk, connection, stream);
    let m3 = m2.unsubscribe(tk, connection);
    assert(m3.topics[tk] =~= m.topics[tk]);
    assert(m3.topics =~= m.topics);
    assert(m3.services[connection].subscriptions =~= m.services[connection].subscriptions);
    assert(m3.services =~= m.services);
}

/// After a topic ends it no longer exists, and none of its subscribers' services
/// still holds a subscription to it.
pub proof fn law_suppressed_topic_is_gone(
    before: BrokerModel,
    after: BrokerModel,
    topic: Topic,
    connection: u32,
    r: Option<Outgoing>,
    c: u32,
)
    requires
        before.topics.contains_key(topics::topic_key(topic)),
        suppress_outcome(before, after, topic, connection, r),
        before.subscriber_connections(topics::topic_key(topic)).contains(c),
        after.services.contains_key(c),
    ensures
        !after.topics.contains_key(topics::topic_key(topic)),
        !after.services[c].subscriptions.contains_key(topics::topic_key(topic)),
{
}

/// Once a connection's service is removed, nothing it sends on any stream is
/// delivered to anybody.
pub proof fn law_removed_service_reaches_nobody(
    before: BrokerModel,
    after: BrokerModel,
    connection: u32,
    out: Seq<Outgoing>,
    stream: u16,
    r: Seq<Subscriber>,
)
    requires
        before.services.contains_key(connection),
        removal_outcome(before, after, connection, out),
        publish_outcome(after, connection, stream, r),
    ensures
        r.len() == 0,
{
    let pubs = after.services[connection].publications;
    if pubs.contains_key(stream) {
        let tk = topics::topic_key(pubs[stream]);
        assert(before.services[connection].publications.contains_key(stream));
        assert(!after.topics.contains_key(tk));
        assert(after.subscribers(tk) =~= Set::<u64>::empty());
        assert(after.subscribers(tk).map(|k: u64| sub_of_key(k)) =~= Set::<Subscriber>::empty());
        assert(r.to_set() =~= Set::<Subscriber>::empty());
        if r.len() > 0 {
            assert(r.to_set().contains(r[0]));
        }
    }
}

/// Once a connection's service is removed, what is published on a topic that
/// it subscribed to no longer reaches the stream it subscribed with.
pub proof fn law_removed_service_hears_nothing(
    before: BrokerModel,
    after: BrokerModel,
    connection: u32,
    out: Seq<Outgoing>,
    tk: u64,
    publisher: u32,
    publisher_stream: u16,
    r: Seq<Subscriber>,
)
    requires
        after.wf(),
        before.services.contains_key(connection),
        before.services[connection].subscriptions.contains_key(tk),
        removal_outcome(before, after, connection, out),
        after.services.contains_key(publisher),
        after.services[publisher].publications.contains_key(publisher_stream),
        topics::topic_key(after.services[publisher].publications[publisher_stream]) == tk,
        publish_outcome(after, publisher, publisher_stream, r),
    ensures
        !r.contains(Subscriber { connection, stream: before.services[connection].subscriptions[tk] }),
{
    let stream = before.services[connection].subscriptions[tk];
    let x = Subscriber { connection, stream };
    lemma_sub_key_roundtrip(connection, stream);
    if r.contains(x) {
        assert(r.to_set().contains(x));
        let f = |k: u64| sub_of_key(k);
        assert(after.subscribers(tk).map(f).contains(x));
        let k = choose|k: u64| after.subscribers(tk).contains(k) && f(k) == x;
        assert(after.topics.contains_key(tk));
        assert(after.topics[tk].contains(k));
        assert(k < 0x1_0000_0000_0000);
        assert(k == sub_key(connection, stream));
    }
}

/// Every subscription that a service records is listed among its topic's subscribers.
pub open spec fn subscriptions_listed(m: BrokerModel) -> bool {
    forall|c: u32, tk: u64| #[trigger]
        m.services[c].subscriptions.contains_key(tk) && m.services.contains_key(c) ==> m.topics.contains_key(tk)
            && m.topics[tk].contains(sub_key(c, m.services[c].subscriptions[tk]))
}

proof fn lemma_sub_key_injective(c1: u32, s1: u16, c2: u32, s2: u16)
    ensures
        sub_key(c1, s1) == sub_key(c2, s2) ==> c1 == c2 && s1 == s2,
{
    lemma_sub_key_roundtrip(c1, s1);
    lemma_sub_key_roundtrip(c2, s2);
}

proof fn lemma_unsubscribe_keeps_listed(m: BrokerModel, tk: u64, c: u32)
    requires
        subscriptions_listed(m),
    ensures
        subscriptions_listed(m.unsubscribe(tk, c)),
{
    let m2 = m.unsubscribe(tk, c);
    if m.services.contains_key(c) && m.services[c].subscriptions.contains_key(tk) {
        let s = m.services[c].subscriptions[tk];
        assert forall|c2: u32, tk2: u64| #[trigger]
            m2.services[c2].subscriptions.contains_key(tk2) && m2.services.contains_key(c2) implies m2.topics.contains_key(
            tk2,
        ) && m2.topics[tk2].contains(sub_key(c2, m2.services[c2].subscriptions[tk2])) by {
            assert(m.services[c2].subscriptions.contains_key(tk2));
            assert(m2.services[c2].subscriptions[tk2] == m.services[c2].subscriptions[tk2]);
            lemma_sub_key_injective(c2, m.services[c2].subscriptions[tk2], c, s);
        }
    }
}

proof fn lemma_suppress_keeps_listed(m: BrokerModel, topic: Topic, c: u32, pick: Option<u16>)
    requires
        subscriptions_listed(m),
        m.publication_pick(c, topic, pick),
    ensures
        subscriptions_listed(m.suppress_topic(topic, c, pick)),
{
    let tk = topics::topic_key(topic);
    let m2 = m.suppress_topic(topic, c, pick);
    let conns = m.subscriber_connections(tk);
    assert forall|c2: u32, tk2: u64| #[trigger]
        m2.services[c2].subscriptions.contains_key(tk2) && m2.services.contains_key(c2) implies m2.topics.contains_key(
        tk2,
    ) && m2.topics[tk2].contains(sub_key(c2, m2.services[c2].subscriptions[tk2])) by {
        let dropped = m.without_subscriptions(tk, conns);
        assert(m2.services.dom() == dropped.dom());
        assert(dropped.contains_key(c2));
        assert(m.services.contains_key(c2));
        assert(m2.services[c2].subscriptions == dropped[c2].subscriptions);
        let sub = m.services[c2].subscriptions;
        assert(dropped[c2].subscriptions == (if conns.contains(c2) {
            sub.remove(tk)
        } else {
            sub
        }));
        assert(sub.contains_key(tk2));
        if tk2 == tk {
            let sk = sub_key(c2, sub[tk]);
            lemma_sub_key_roundtrip(c2, sub[tk]);
            assert(m.subscribers(tk).contains(sk));
            assert(conns.contains(c2));
        }
    }
}

proof fn lemma_unsubscribe_all_keeps_listed(m: BrokerModel, c: u32, keys: Seq<u64>)
    requires
        subscriptions_listed(m),
    ensures
        subscriptions_listed(unsubscribe_all(m, c, keys)),
    decreases keys.len(),
{
    if keys.len() > 0 {
        lemma_unsubscribe_all_keeps_listed(m, c, keys.drop_last());
        lemma_unsubscribe_keeps_listed(unsubscribe_all(m, c, keys.drop_last()), keys.last(), c);
    }
}

proof fn lemma_suppress_all_keeps_listed(m: BrokerModel, c: u32, ts: Seq<Topic>, picks: Seq<Option<u16>>)
    requires
        subscriptions_listed(m),
        picks_fit(m, c, ts, picks),
    ensures
        subscriptions_listed(suppress_all(m, c, ts, picks)),
    decreases ts.len(),
{
    if ts.len() > 0 {
        lemma_suppress_all_keeps_listed(m, c, ts.drop_last(), picks.drop_last());
        let prev = suppress_all(m, c, ts.drop_last(), picks.drop_last());
        if prev.topics.contains_key(topics::topic_key(ts.last())) {
            lemma_suppress_keeps_listed(prev, ts.last(), c, picks.last());
        }
    }
}

/// Each change of the broker keeps every subscription that a service records
/// listed among its topic's subscribers: subscribing, unsubscribing,
/// registering a service, creating a topic, ending a topic, removing a service.
pub proof fn law_subscriptions_stay_listed(
    m: BrokerModel,
    tk: u64,
    connection: u32,
    stream: u16,
    topic: Topic,
    pick: Option<u16>,
    after: BrokerModel,
    out: Seq<Outgoing>,
)
    requires
        subscriptions_listed(m),
    ensures
        subscriptions_listed(m.subscribe(tk, connection, stream)),
        subscriptions_listed(m.unsubscribe(tk, connection)),
        subscriptions_listed(m.register_service(connection, stream)),
        subscriptions_listed(m.create_topic(topic, connection, stream)),
        m.publication_pick(connection, topic, pick) ==> subscriptions_listed(
            m.suppress_topic(topic, connection, pick),
        ),
        removal_outcome(m, after, connection, out) ==> subscriptions_listed(after),
{
    let m1 = m.subscribe(tk, connection, stream);
    assert forall|c2: u32, tk2: u64| #[trigger]
        m1.services[c2].subscriptions.contains_key(tk2) && m1.services.contains_key(c2) implies m1.topics.contains_key(
        tk2,
    ) && m1.topics[tk2].contains(sub_key(c2, m1.services[c2].subscriptions[tk2])) by {
        if !(c2 == connection && tk2 == tk) {
            assert(m.services[c2].subscriptions.contains_key(tk2));
        }
    }
    let m3 = m.register_service(connection, stream);
    assert forall|c2: u32, tk2: u64| #[trigger]
        m3.services[c2].subscriptions.contains_key(tk2) && m3.services.contains_key(c2) implies m3.topics.contains_key(
        tk2,
    ) && m3.topics[tk2].contains(sub_key(c2, m3.services[c2].subscriptions[tk2])) by {
        assert(c2 != connection);
        assert(m.services[c2].subscriptions.contains_key(tk2));
    }
    let m4 = m.create_topic(topic, connection, stream);
    assert forall|c2: u32, tk2: u64| #[trigger]
        m4.services[c2].subscriptions.contains_key(tk2) && m4.services.contains_key(c2) implies m4.topics.contains_key(
        tk2,
    ) && m4.topics[tk2].contains(sub_key(c2, m4.services[c2].subscriptions[tk2])) by {
        assert(m.services[c2].subscriptions.contains_key(tk2));
    }
    lemma_unsubscribe_keeps_listed(m, tk, connection);
    if m.publication_pick(connection, topic, pick) {
        lemma_suppress_keeps_listed(m, topic, connection, pick);
    }
    if removal_outcome(m, after, connection, out) {
        if m.services.contains_key(connection) {
            let (keys, ts, picks) = choose|keys: Seq<u64>, ts: Seq<Topic>, picks: Seq<Option<u16>>|
                removal_walk(m, connection, keys, ts, picks, after, out);
            lemma_unsubscribe_all_keeps_listed(m, connection, keys);
            lemma_suppress_all_keeps_listed(unsubscribe_all(m, connection, keys), connection, ts, picks);
        }
    }
}

proof fn lemma_unsubscribe_all_keeps_topics(m: BrokerModel, c: u32, keys: Seq<u64>)
    ensures
        unsubscribe_all(m, c, keys).topics.dom() == m.topics.dom(),
    decreases keys.len(),
{
    if keys.len() > 0 {
        lemma_unsubscribe_all_keeps_topics(m, c, keys.drop_last());
        let prev = unsubscribe_all(m, c, keys.drop_last());
        assert(prev.unsubscribe(keys.last(), c).topics.dom() =~= prev.topics.dom());
    }
}

proof fn lemma_suppress_all_keeps_other_topics(m: BrokerModel, c: u32, ts: Seq<Topic>, picks: Seq<Option<u16>>, tk: u64)
    requires
        m.topics.contains_key(tk),
        forall|i: int| 0 <= i < ts.len() ==> topics::topic_key(#[trigger] ts[i]) != tk,
    ensures
        suppress_all(m, c, ts, picks).topics.contains_key(tk),
        suppress_all(m, c, ts, picks).topics[tk] == m.topics[tk],
    decreases ts.len(),
{
    if ts.len() > 0 {
        assert forall|i: int| 0 <= i < ts.drop_last().len() implies topics::topic_key(
            #[trigger] ts.drop_last()[i],
        ) != tk by {
            assert(ts.drop_last()[i] == ts[i]);
        }
        lemma_suppress_all_keeps_other_topics(m, c, ts.drop_last(), picks.drop_last(), tk);
        assert(topics::topic_key(ts[ts.len() - 1]) != tk);
    }
}

/// Removing a service leaves every topic that it did not publish, and the
/// subscribers of a topic that it neither published nor subscribed to.
pub proof fn law_removal_leaves_other_topics(
    before: BrokerModel,
    after: BrokerModel,
    connection: u32,
    out: Seq<Outgoing>,
    tk: u64,
)
    requires
        before.services.contains_key(connection),
        removal_outcome(before, after, connection, out),
        before.topics.contains_key(tk),
        forall|s: u16| #[trigger]
            before.services[connection].publications.contains_key(s) ==> topics::topic_key(
                before.services[connection].publications[s],
            ) != tk,
    ensures
        after.topics.contains_key(tk),
        !before.services[connection].subscriptions.contains_key(tk) ==> after.topics[tk] == before.topics[tk],
{
    let (keys, ts, picks) = choose|keys: Seq<u64>, ts: Seq<Topic>, picks: Seq<Option<u16>>|
        removal_walk(before, connection, keys, ts, picks, after, out);
    let mid = unsubscribe_all(before, connection, keys);
    lemma_unsubscribe_all_keeps_topics(before, connection, keys);
    assert forall|i: int| 0 <= i < ts.len() implies topics::topic_key(#[trigger] ts[i]) != tk by {
        assert(ts.contains(ts[i]));
    }
    lemma_suppress_all_keeps_other_topics(mid, connection, ts, picks, tk);
    if !before.services[connection].subscriptions.contains_key(tk) {
        lemma_unsubscribe_all_other_topic(before, connection, keys, tk);
    }
}

proof fn lemma_unsubscribe_all_other_topic(m: BrokerModel, c: u32, keys: Seq<u64>, tk: u64)
    requires
        m.topics.contains_key(tk),
        m.services.contains_key(c),
        !m.services[c].subscriptions.contains_key(tk),
    ensures
        unsubscribe_all(m, c, keys).topics[tk] == m.topics[tk],
        !unsubscribe_all(m, c, keys).services[c].subscriptions.contains_key(tk),
        unsubscribe_all(m, c, keys).services.contains_key(c),
    decreases keys.len(),
{
    if keys.len() > 0 {
        lemma_unsubscribe_all_other_topic(m, c, keys.drop_last(), tk);
        lemma_unsubscribe_all_keeps_topics(m, c, keys.drop_last());
    }
}

} // verus!
