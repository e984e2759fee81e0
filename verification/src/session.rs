//! A peer's session with the broker: the connection and its two streams, the
//! join and the welcome, the registration of its topics, and the answers to the
//! broker's control messages. Shards, the spatial service and clients each run
//! one.
use vstd::prelude::*;
use vstd::string::*;
use bytes::Bytes;
use crate::netmessage::{self, AnyMessage, MessageId, PubSubMessage, PubSubOp};
use crate::serializer;
use crate::server_info::{self, push_decimal};
use crate::text::{self, is_reject, is_welcome};
use crate::topics::Topic;

verus! {

/// Where a peer stands with the broker.
#[derive(Clone, Copy, Debug)]
pub struct BrokerSession {
    pub connection: Option<u32>,
    /// The lifeline: control messages and the join go there.
    pub reliable_stream: Option<u16>,
    /// The stream that carries the peer's publications.
    pub unreliable_stream: Option<u16>,
    pub joined: bool,
    pub welcomed: bool,
    pub registered: bool,
}

/// A session with nothing set up.
pub open spec fn idle_session() -> BrokerSession {
    BrokerSession {
        connection: None,
        reliable_stream: None,
        unreliable_stream: None,
        joined: false,
        welcomed: false,
        registered: false,
    }
}

/// The session has a connection and a lifeline, so it can send control messages.
pub open spec fn can_send(s: BrokerSession) -> bool {
    s.connection is Some && s.reliable_stream is Some
}

/// A control message of the session: it names the session's unreliable stream.
pub open spec fn control_msg(s: BrokerSession, op: PubSubOp, topic: Topic, target: Option<u32>) -> PubSubMessage {
    PubSubMessage { op, topic, stream: s.unreliable_stream, target }
}

/// What goes out of a list of control messages: all of it when the session can
/// send, nothing otherwise.
pub open spec fn sent(s: BrokerSession, msgs: Seq<PubSubMessage>) -> Seq<PubSubMessage> {
    if can_send(s) {
        msgs
    } else {
        Seq::empty()
    }
}

/// The session after the join step: the join goes out once, as soon as the
/// lifeline is there.
pub open spec fn after_join(s: BrokerSession) -> BrokerSession {
    if !s.joined && can_send(s) {
        BrokerSession { joined: true, ..s }
    } else {
        s
    }
}

/// The join went out in this step.
pub open spec fn joins_now(s: BrokerSession) -> bool {
    !s.joined && can_send(s)
}

/// The session registers its topics: it joined, was welcomed, has not
/// registered yet, and has the stream to publish on.
pub open spec fn ready_to_register(s: BrokerSession) -> bool {
    s.joined && s.welcomed && !s.registered && s.unreliable_stream is Some
}

/// The session after the registration step.
pub open spec fn after_register(s: BrokerSession) -> BrokerSession {
    if ready_to_register(s) {
        BrokerSession { registered: true, ..s }
    } else {
        s
    }
}

/// A shard publishes its own snapshots and follows its neighbours' snapshots,
/// the spatial service's view and the players' inputs.
pub open spec fn shard_topics(s: BrokerSession, shard_id: u32) -> Seq<PubSubMessage> {
    seq![control_msg(s, PubSubOp::Pub, Topic::Snapshot(shard_id), None)] + (if shard_id > 0 {
        seq![control_msg(s, PubSubOp::Sub, Topic::Snapshot((shard_id - 1) as u32), None)]
    } else {
        Seq::<PubSubMessage>::empty()
    }) + seq![
        control_msg(s, PubSubOp::Sub, Topic::Snapshot((shard_id + 1) as u32), None),
        control_msg(s, PubSubOp::Sub, Topic::View(0), None),
        control_msg(s, PubSubOp::Sub, Topic::Input(0), None),
    ]
}

/// The spatial service publishes the view and follows the snapshots of every shard.
pub open spec fn spatial_topics(s: BrokerSession, shard_count: u32) -> Seq<PubSubMessage> {
    seq![control_msg(s, PubSubOp::Pub, Topic::View(0), None)] + Seq::new(
        shard_count as nat,
        |i: int| control_msg(s, PubSubOp::Sub, Topic::Snapshot(i as u32), None),
    )
}

/// A client publishes its inputs and follows the snapshots.
pub open spec fn client_topics(s: BrokerSession) -> Seq<PubSubMessage> {
    seq![
        control_msg(s, PubSubOp::Pub, Topic::Input(0), None),
        control_msg(s, PubSubOp::Sub, Topic::Snapshot(0), None),
    ]
}

/// `JOIN shard ` and the shard's number.
pub open spec fn shard_join_text(shard_id: u32) -> Seq<char> {
    seq!['J', 'O', 'I', 'N', ' ', 's', 'h', 'a', 'r', 'd', ' '] + server_info::decimal(shard_id as nat)
}

/// `JOIN spatial`.
pub open spec fn spatial_join_text() -> Seq<char> {
    seq!['J', 'O', 'I', 'N', ' ', 's', 'p', 'a', 't', 'i', 'a', 'l']
}

/// `JOIN ` and the player's number.
pub open spec fn player_join_text(player_id: u32) -> Seq<char> {
    seq!['J', 'O', 'I', 'N', ' '] + server_info::decimal(player_id as nat)
}

/// The answer to a control message of the broker: a forced publication or
/// subscription is taken up with a publication or subscription of one's own.
pub open spec fn forced_reply(s: BrokerSession, m: PubSubMessage) -> Option<PubSubMessage> {
    if !can_send(s) {
        None
    } else if m.op == PubSubOp::ForcedPub {
        Some(control_msg(s, PubSubOp::Pub, m.topic, None))
    } else if m.op == PubSubOp::ForcedSub {
        Some(control_msg(s, PubSubOp::Sub, m.topic, None))
    } else {
        None
    }
}

/// A session registers its topics once: right after registering, another step
/// registers nothing, and it joins only once.
pub proof fn law_registers_once(s: BrokerSession)
    ensures
        !ready_to_register(after_join(after_register(after_join(s)))),
        !joins_now(after_register(after_join(s))) || !can_send(s),
{
}

/// What one step of a session asks its owner to send on the lifeline, in order:
/// the join first, then the control messages.
pub struct SessionOutput {
    pub join: Option<String>,
    pub control: Vec<PubSubMessage>,
}

/// How a client reads a message on its lifeline.
#[derive(Clone, Copy, Debug, PartialEq, Eq, Structural)]
pub enum ServerReply {
    /// A pub/sub control message, which the client leaves alone.
    Control,
    /// The broker let the client in.
    Welcome,
    /// The broker turned the client away.
    Reject,
    Other,
}

/// How a client reads the bytes `s` of a message on its lifeline.
pub open spec fn reply_kind(s: Seq<u8>) -> ServerReply {
    if netmessage::message_id_of(s[0]) == Some(MessageId::PubSub) {
        ServerReply::Control
    } else if text::text_starts_with(s, seq!['W', 'E', 'L', 'C', 'O', 'M', 'E']) {
        ServerReply::Welcome
    } else if text::text_starts_with(s, seq!['R', 'E', 'J', 'E', 'C', 'T']) {
        ServerReply::Reject
    } else {
        ServerReply::Other
    }
}

/// Reads a message that a client gets on its lifeline.
pub fn classify_reply(data: &Bytes) -> (r: ServerReply)
    requires
        netmessage::msg_fits(serializer::bytes_contents(*data)),
    ensures
        r == reply_kind(serializer::bytes_contents(*data)),
{
    if let Some(AnyMessage::PubSub(_)) = netmessage::decode_msg(data) {
        return ServerReply::Control;
    }
    let bytes = serializer::bytes_to_vec(data);
    if is_welcome(bytes.as_slice()) {
        ServerReply::Welcome
    } else if is_reject(bytes.as_slice()) {
        ServerReply::Reject
    } else {
        ServerReply::Other
    }
}

impl BrokerSession {
    pub fn new() -> (r: Self)
        ensures
            r == idle_session(),
    {
        BrokerSession {
            connection: None,
            reliable_stream: None,
            unreliable_stream: None,
            joined: false,
            welcomed: false,
            registered: false,
        }
    }

    /// The broker accepted the connection.
    pub fn on_connected(&mut self, connection: u32)
        ensures
            *final(self) == (BrokerSession { connection: Some(connection), ..*old(self) }),
    {
        self.connection = Some(connection);
    }

    /// A stream of the connection is open: the reliable one becomes the lifeline.
    pub fn on_stream_created(&mut self, stream: u16, reliable: bool)
        ensures
            *final(self) == (if reliable {
                BrokerSession { reliable_stream: Some(stream), ..*old(self) }
            } else {
                BrokerSession { unreliable_stream: Some(stream), ..*old(self) }
            }),
    {
        if reliable {
            self.reliable_stream = Some(stream);
        } else {
            self.unreliable_stream = Some(stream);
        }
    }

    /// The connection is lost: the session starts over.
    pub fn on_disconnected(&mut self)
        ensures
            *final(self) == idle_session(),
    {
        *self = BrokerSession::new();
    }

    /// Whether the next step registers the session's topics.
    pub fn registers_next(&self) -> (r: bool)
        ensures
            r == ready_to_register(after_join(*self)),
    {
        let joined = self.joined || (self.connection.is_some() && self.reliable_stream.is_some());
        joined && self.welcomed && !self.registered && self.unreliable_stream.is_some()
    }

    /// The session is connected, has the stream to publish on, and has
    /// registered its topics: what it publishes reaches its subscribers.
    pub fn is_ready(&self) -> (r: bool)
        ensures
            r == (self.connection is Some && self.unreliable_stream is Some && self.registered),
    {
        self.connection.is_some() && self.unreliable_stream.is_some() && self.registered
    }

    /// A control message to send, if the session can send.
    pub fn control(&self, op: PubSubOp, topic: Topic, target: Option<u32>) -> (r: Option<PubSubMessage>)
        ensures
            r == (if can_send(*self) {
                Some(control_msg(*self, op, topic, target))
            } else {
                None
            }),
    {
        if self.connection.is_some() && self.reliable_stream.is_some() {
            Some(PubSubMessage { op, topic, stream: self.unreliable_stream, target })
        } else {
            None
        }
    }

    /// Reads a message of the broker on the lifeline. A forced publication or
    /// subscription gets its answer; the welcome is noted.
    pub fn handle_control_message(&mut self, data: &Bytes) -> (r: Option<PubSubMessage>)
        requires
            serializer::bytes_contents(*data).len() > 0 ==> netmessage::msg_fits(
                serializer::bytes_contents(*data),
            ),
        ensures
            ({
                let s = serializer::bytes_contents(*data);
                if s.len() == 0 {
                    r is None && *final(self) == *old(self)
                } else if netmessage::message_id_of(s[0]) == Some(MessageId::PubSub) {
                    &&& r == forced_reply(*old(self), netmessage::pubsub_payload(s.skip(1)))
                    &&& *final(self) == *old(self)
                } else {
                    &&& r is None
                    &&& *final(self) == (BrokerSession {
                        welcomed: old(self).welcomed || text::text_starts_with(
                            s,
                            seq!['W', 'E', 'L', 'C', 'O', 'M', 'E'],
                        ),
                        ..*old(self)
                    })
                }
            }),
    {
        let bytes = serializer::bytes_to_vec(data);
        if bytes.len() == 0 {
            return None;
        }
        if let Some(AnyMessage::PubSub(m)) = netmessage::decode_msg(data) {
            return match m.op {
                PubSubOp::ForcedPub => self.control(PubSubOp::Pub, m.topic, None),
                PubSubOp::ForcedSub => self.control(PubSubOp::Sub, m.topic, None),
                _ => None,
            };
        }
        if is_welcome(bytes.as_slice()) {
            self.welcomed = true;
        }
        None
    }

    /// Sends what is sendable of a list of control messages.
    fn push_control(&self, out: &mut Vec<PubSubMessage>, op: PubSubOp, topic: Topic)
        ensures
            final(out)@ == old(out)@ + sent(*self, seq![control_msg(*self, op, topic, None)]),
    {
        match self.control(op, topic, None) {
            Some(m) => {
                out.push(m);
            },
            None => {
                assert(old(out)@ + Seq::<PubSubMessage>::empty() =~= old(out)@);
            },
        }
    }

    /// The join step: the join goes out once the lifeline is there.
    fn join_step(&mut self, text: String) -> (r: Option<String>)
        ensures
            *final(self) == after_join(*old(self)),
            r == (if joins_now(*old(self)) {
                Some(text)
            } else {
                None
            }),
    {
        if !self.joined && self.connection.is_some() && self.reliable_stream.is_some() {
            self.joined = true;
            Some(text)
        } else {
            None
        }
    }

    /// One step of a shard's session: the join (`JOIN shard <id>`), then, once
    /// welcomed, the registration of the shard's topics.
    pub fn drive_shard(&mut self, shard_id: u32) -> (r: SessionOutput)
        requires
            ready_to_register(after_join(*old(self))) ==> shard_id < u32::MAX,
        ensures
            ({
                let j = after_join(*old(self));
                &&& r.join is Some <==> joins_now(*old(self))
                &&& r.join matches Some(t) ==> t@ == shard_join_text(shard_id)
                &&& r.control@ == (if ready_to_register(j) {
                    sent(j, shard_topics(j, shard_id))
                } else {
                    Seq::empty()
                })
                &&& *final(self) == after_register(j)
            }),
    {
        proof {
            reveal_strlit("JOIN shard ");
        }
        let mut text = String::from_str("JOIN shard ");
        push_decimal(&mut text, shard_id as u64);
        let ghost t = text@;
        let join = self.join_step(text);
        let mut control: Vec<PubSubMessage> = Vec::new();
        if self.joined && self.welcomed && !self.registered && self.unreliable_stream.is_some() {
            self.push_control(&mut control, PubSubOp::Pub, Topic::Snapshot(shard_id));
            if shard_id > 0 {
                self.push_control(&mut control, PubSubOp::Sub, Topic::Snapshot(shard_id - 1));
            }
            self.push_control(&mut control, PubSubOp::Sub, Topic::Snapshot(shard_id + 1));
            self.push_control(&mut control, PubSubOp::Sub, Topic::View(0));
            self.push_control(&mut control, PubSubOp::Sub, Topic::Input(0));
            assert(control@ =~= sent(*self, shard_topics(*self, shard_id)));
            self.registered = true;
        }
        assert(t =~= shard_join_text(shard_id));
        SessionOutput { join, control }
    }

    /// One step of the spatial service's session: the join (`JOIN spatial`),
    /// then, once welcomed, the registration of its topics.
    pub fn drive_spatial(&mut self, shard_count: u32) -> (r: SessionOutput)
        ensures
            ({
                let j = after_join(*old(self));
                &&& r.join is Some <==> joins_now(*old(self))
                &&& r.join matches Some(t) ==> t@ == spatial_join_text()
                &&& r.control@ == (if ready_to_register(j) {
                    sent(j, spatial_topics(j, shard_count))
                } else {
                    Seq::empty()
                })
                &&& *final(self) == after_register(j)
            }),
    {
        proof {
            reveal_strlit("JOIN spatial");
        }
        let text = String::from_str("JOIN spatial");
        let ghost t = text@;
        let join = self.join_step(text);
        let mut control: Vec<PubSubMessage> = Vec::new();
        if self.joined && self.welcomed && !self.registered && self.unreliable_stream.is_some() {
            self.push_control(&mut control, PubSubOp::Pub, Topic::View(0));
            let mut i: u32 = 0;
            while i < shard_count
                invariant
                    i <= shard_count,
                    control@ =~= sent(*self, spatial_topics(*self, i)),
                decreases shard_count - i,
            {
                self.push_control(&mut control, PubSubOp::Sub, Topic::Snapshot(i));
                proof {
                    let s = *self;
                    if can_send(s) {
                        assert(spatial_topics(s, (i + 1) as u32) =~= spatial_topics(s, i).push(
                            control_msg(s, PubSubOp::Sub, Topic::Snapshot(i), None),
                        ));
                    }
                }
                i += 1;
            }
            self.registered = true;
        }
        assert(t =~= spatial_join_text());
        SessionOutput { join, control }
    }

    /// A client's join request (`JOIN <player id>`), sent on each step while it
    /// waits to be let in, when it can send.
    pub fn join_request(&self, player_id: u32) -> (r: Option<String>)
        ensures
            r is Some <==> can_send(*self),
            r matches Some(t) ==> t@ == player_join_text(player_id),
    {
        if self.connection.is_some() && self.reliable_stream.is_some() {
            proof {
                reveal_strlit("JOIN ");
            }
            let mut text = String::from_str("JOIN ");
            push_decimal(&mut text, player_id as u64);
            assert(text@ =~= player_join_text(player_id));
            Some(text)
        } else {
            None
        }
    }

    /// A client in the game registers its topics once, when it has its
    /// unreliable stream and can send.
    pub fn register_client(&mut self) -> (r: Vec<PubSubMessage>)
        ensures
            ({
                let s = *old(self);
                if !s.registered && s.unreliable_stream is Some && can_send(s) {
                    &&& r@ == client_topics(s)
                    &&& *final(self) == (BrokerSession { registered: true, ..s })
                } else {
                    &&& r@ == Seq::<PubSubMessage>::empty()
                    &&& *final(self) == s
                }
            }),
    {
        let mut out: Vec<PubSubMessage> = Vec::new();
        if self.registered || self.unreliable_stream.is_none() {
            return out;
        }
        if self.connection.is_some() && self.reliable_stream.is_some() {
            self.push_control(&mut out, PubSubOp::Pub, Topic::Input(0));
            self.push_control(&mut out, PubSubOp::Sub, Topic::Snapshot(0));
            assert(out@ =~= client_topics(*self));
            self.registered = true;
        }
        out
    }
}

} // verus!
