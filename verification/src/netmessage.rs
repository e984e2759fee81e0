//! The messages that services exchange with the broker: their ids, their
//! layouts on the wire, and the framing of a message behind its id byte.
use vstd::prelude::*;
use bytes::Bytes;
use crate::serializer::{self, Deserializer, Serializer};
use crate::topics::{self, Topic};
use crate::wire;

verus! {

broadcast use vstd::array::group_array_axioms;

/// The kinds of message, told apart by their first byte.
#[derive(Clone, Copy, Debug, PartialEq, Eq, Structural)]
pub enum MessageId {
    Chat,
    Input,
    Snapshot,
    PubSub,
}

/// The byte that stands for a message id.
pub open spec fn message_id_byte(id: MessageId) -> u8 {
    match id {
        MessageId::Chat => 0,
        MessageId::Input => 1,
        MessageId::Snapshot => 2,
        MessageId::PubSub => 3,
    }
}

/// The message id that a byte stands for, if any.
pub open spec fn message_id_of(v: u8) -> Option<MessageId> {
    if v == 0 {
        Some(MessageId::Chat)
    } else if v == 1 {
        Some(MessageId::Input)
    } else if v == 2 {
        Some(MessageId::Snapshot)
    } else if v == 3 {
        Some(MessageId::PubSub)
    } else {
        None
    }
}

impl MessageId {
    pub fn from_u8(v: u8) -> (r: Option<Self>)
        ensures
            r == message_id_of(v),
    {
        match v {
            0 => Some(Self::Chat),
            1 => Some(Self::Input),
            2 => Some(Self::Snapshot),
            3 => Some(Self::PubSub),
            _ => None,
        }
    }

    /// The byte that stands for this id.
    pub fn to_u8(&self) -> (r: u8)
        ensures
            r == message_id_byte(*self),
    {
        match self {
            MessageId::Chat => 0,
            MessageId::Input => 1,
            MessageId::Snapshot => 2,
            MessageId::PubSub => 3,
        }
    }
}

/// Reading back the byte of an id gives the id; no other byte than those four names an id.
pub proof fn law_message_id_roundtrip(id: MessageId, v: u8)
    ensures
        message_id_of(message_id_byte(id)) == Some(id),
        message_id_of(v) is Some <==> v < 4,
        message_id_of(v) matches Some(i) ==> message_id_byte(i) == v,
{
}

/// A message of any kind, as read from the wire.
pub enum AnyMessage {
    Chat(),
    Input(InputMessage),
    Snapshot(SnapshotMessage),
    PubSub(PubSubMessage),
}

/// A message with a layout on the wire.
pub trait NetMessage: Sized {
    /// The id that frames this kind of message.
    spec fn spec_id() -> MessageId;

    /// The bytes that a message is written as.
    spec fn spec_wire(&self) -> Seq<u8>;

    /// The message can be written so that it reads back as itself.
    spec fn spec_wf(&self) -> bool;

    /// The front of `s` can be read as a message without running out of bytes.
    spec fn spec_fits(s: Seq<u8>) -> bool;

    /// `m` is what the front of `s` reads as.
    spec fn spec_parses(s: Seq<u8>, m: Self) -> bool;

    /// How many bytes of `s` a read takes.
    spec fn spec_read_len(s: Seq<u8>) -> nat;

    fn id() -> (r: MessageId)
        ensures
            r == Self::spec_id(),
    ;

    fn serialize(&self, serializer: &mut Serializer)
        requires
            serializer::has_room(old(serializer)@, self.spec_wire().len() as int),
        ensures
            final(serializer)@ == old(serializer)@ + self.spec_wire(),
    ;

    fn deserialize(deserializer: &mut Deserializer) -> (r: Self)
        requires
            Self::spec_fits(old(deserializer)@),
        ensures
            Self::spec_parses(old(deserializer)@, r),
            Self::spec_read_len(old(deserializer)@) <= old(deserializer)@.len(),
            final(deserializer)@ == old(deserializer)@.skip(
                Self::spec_read_len(old(deserializer)@) as int,
            ),
    ;

    /// A message is written in at most 32 bytes.
    proof fn lemma_wire_len(&self)
        ensures
            self.spec_wire().len() <= 32,
    ;

    /// What is written reads back as the same message, whatever follows it.
    proof fn lemma_roundtrip(&self, rest: Seq<u8>, m: Self)
        requires
            self.spec_wf(),
        ensures
            Self::spec_fits(self.spec_wire() + rest),
            Self::spec_read_len(self.spec_wire() + rest) == self.spec_wire().len(),
            Self::spec_parses(self.spec_wire() + rest, m) ==> m == *self,
    ;
}

/// Four directions held down, or not.
#[derive(Clone, Copy, Debug, PartialEq, Eq, Structural)]
pub struct Input {
    pub up: bool,
    pub down: bool,
    pub left: bool,
    pub right: bool,
}

impl Default for Input {
    fn default() -> (r: Self)
        ensures
            r == (Input { up: false, down: false, left: false, right: false }),
    {
        Input { up: false, down: false, left: false, right: false }
    }
}

pub open spec fn flag(b: bool, bit: u8) -> u8 {
    if b {
        bit
    } else {
        0u8
    }
}

/// The byte of an input: `up` in bit 0, `down` in bit 1, `left` in bit 2, `right` in bit 3.
pub open spec fn input_bits(i: Input) -> u8 {
    flag(i.up, 1) | flag(i.down, 2) | flag(i.left, 4) | flag(i.right, 8)
}

/// The input of a byte: each direction is its bit; the upper four bits are ignored.
pub open spec fn input_of_bits(b: u8) -> Input {
    Input { up: b & 1 != 0, down: b & 2 != 0, left: b & 4 != 0, right: b & 8 != 0 }
}

/// An input reads back from its byte.
pub proof fn lemma_input_bits_roundtrip(i: Input)
    ensures
        input_of_bits(input_bits(i)) == i,
{
    let (u, d, l, r) = (i.up, i.down, i.left, i.right);
    assert((((if u { 1u8 } else { 0u8 }) | (if d { 2u8 } else { 0u8 }) | (if l { 4u8 } else { 0u8 })
        | (if r { 8u8 } else { 0u8 })) & 1 != 0) == u) by (bit_vector);
    assert((((if u { 1u8 } else { 0u8 }) | (if d { 2u8 } else { 0u8 }) | (if l { 4u8 } else { 0u8 })
        | (if r { 8u8 } else { 0u8 })) & 2 != 0) == d) by (bit_vector);
    assert((((if u { 1u8 } else { 0u8 }) | (if d { 2u8 } else { 0u8 }) | (if l { 4u8 } else { 0u8 })
        | (if r { 8u8 } else { 0u8 })) & 4 != 0) == l) by (bit_vector);
    assert((((if u { 1u8 } else { 0u8 }) | (if d { 2u8 } else { 0u8 }) | (if l { 4u8 } else { 0u8 })
        | (if r { 8u8 } else { 0u8 })) & 8 != 0) == r) by (bit_vector);
}

impl Input {
    pub fn serialize(&self, serializer: &mut Serializer)
        requires
            serializer::has_room(old(serializer)@, 1),
        ensures
            final(serializer)@ == old(serializer)@.push(input_bits(*self)),
    {
        let mut bits = 0u8;
        if self.up {
            bits = bits | 1;
        }
        if self.down {
            bits = bits | 2;
        }
        if self.left {
            bits = bits | 4;
        }
        if self.right {
            bits = bits | 8;
        }
        let (u, d, l, r) = (self.up, self.down, self.left, self.right);
        assert(bits == ((if u { 1u8 } else { 0u8 }) | (if d { 2u8 } else { 0u8 }) | (if l { 4u8 } else { 0u8 })
            | (if r { 8u8 } else { 0u8 }))) by {
            assert(0u8 | 1u8 == 1u8 && 0u8 | 2u8 == 2u8 && 0u8 | 4u8 == 4u8 && 0u8 | 8u8 == 8u8) by (bit_vector);
            assert(forall|x: u8| #![auto] x | 0u8 == x) by (bit_vector);
        }
        serializer.write_u8(bits);
    }

    pub fn deserialize(deserializer: &mut Deserializer) -> (r: Self)
        requires
            old(deserializer)@.len() >= 1,
        ensures
            r == input_of_bits(old(deserializer)@[0]),
            final(deserializer)@ == old(deserializer)@.skip(1),
    {
        let bits = deserializer.read_u8();
        Self {
            up: (bits & 1) != 0,
            down: (bits & 2) != 0,
            left: (bits & 4) != 0,
            right: (bits & 8) != 0,
        }
    }
}

/// The number of inputs that an input message remembers.
pub const INPUT_HISTORY: usize = 20;

/// The latest inputs of a player, oldest first, numbered by their ids: the
/// latest has id `latest`, the one before it `latest - 1`, and so on.
#[derive(Clone, Copy)]
pub struct InputMessage {
    pub inputs: [Input; 20],
    pub len: usize,
    pub latest: u32,
}

/// `after` is `before` with `input` recorded under the next id; when 20 (or
/// more) were held, the oldest of the array is dropped and the count stays.
pub open spec fn pushed(before: InputMessage, after: InputMessage, input: Input) -> bool {
    &&& after.latest == before.latest + 1
    &&& before.len < 20 ==> after.len == before.len + 1 && after.inputs@ == before.inputs@.update(
        before.len as int,
        input,
    )
    &&& before.len >= 20 ==> after.len == before.len && after.inputs@ == before.inputs@.skip(1).push(input)
}

/// After a push the message is not empty, and, when it held at most 20
/// inputs, the newest input is the one pushed.
pub proof fn law_push_then_latest(before: InputMessage, after: InputMessage, input: Input)
    requires
        pushed(before, after, input),
    ensures
        after.len > 0,
        before.len <= 20 ==> after.len <= 20 && after.inputs@[after.len - 1] == input,
{
}

/// After a push the new input is found under the new latest id, and each
/// earlier input that is still held is found under the id it had.
pub proof fn law_push_then_get(before: InputMessage, after: InputMessage, input: Input, id: int)
    requires
        before.wf(),
        pushed(before, after, input),
    ensures
        after.input_with_id(after.latest as int) == Some(input),
        after.spec_oldest_id() <= id <= before.latest ==> after.input_with_id(id) == before.input_with_id(id),
{
}

impl InputMessage {
    /// The first `len` inputs are the live ones, and ids count from 1.
    pub open spec fn wf(&self) -> bool {
        &&& self.len <= 20
        &&& self.len <= self.latest
    }

    /// The id of the oldest input held.
    pub open spec fn spec_oldest_id(&self) -> int {
        self.latest - self.len + 1
    }

    /// The input with a given id, if it is held.
    pub open spec fn input_with_id(&self, id: int) -> Option<Input> {
        if self.len == 0 || id < self.spec_oldest_id() || id > self.latest {
            None
        } else {
            Some(self.inputs@[id - self.spec_oldest_id()])
        }
    }

    pub fn new() -> (r: Self)
        ensures
            r.wf(),
            r.len == 0,
            r.latest == 0,
            r.inputs@ == Seq::new(20, |i: int| Input { up: false, down: false, left: false, right: false }),
    {
        let none = Input { up: false, down: false, left: false, right: false };
        let r = Self { inputs: [none; 20], len: 0, latest: 0 };
        assert(r.inputs@ =~= Seq::new(20, |i: int| none));
        r
    }

    /// Records a new input, with the next id; when 20 are held the oldest is dropped.
    pub fn push(&mut self, input: Input)
        requires
            old(self).latest < u32::MAX,
        ensures
            old(self).wf() ==> final(self).wf(),
            pushed(*old(self), *final(self), input),
    {
        self.latest += 1;
        if self.len < 20 {
            self.inputs[self.len] = input;
            self.len += 1;
        } else {
            let ghost before = self.inputs@;
            let mut i: usize = 0;
            while i < 19
                invariant
                    i <= 19,
                    self.len == old(self).len,
                    old(self).len >= 20,
                    self.latest == old(self).latest + 1,
                    self.inputs@.len() == 20,
                    forall|j: int| 0 <= j < i ==> self.inputs@[j] == before[j + 1],
                    forall|j: int| i <= j < 20 ==> self.inputs@[j] == before[j],
                decreases 19 - i,
            {
                self.inputs[i] = self.inputs[i + 1];
                i += 1;
            }
            self.inputs[19] = input;
            assert(self.inputs@ =~= before.skip(1).push(input));
        }
    }

    /// The newest input, if any.
    pub fn latest(&self) -> (r: Option<&Input>)
        requires
            self.len <= 20,
        ensures
            r is None <==> self.len == 0,
            r matches Some(x) ==> *x == self.inputs@[self.len - 1],
    {
        if self.len == 0 {
            None
        } else {
            Some(&self.inputs[self.len - 1])
        }
    }

    /// The id of the oldest input held, if any.
    pub fn oldest_id(&self) -> (r: Option<u32>)
        requires
            self.len <= self.latest,
        ensures
            r is None <==> self.len == 0,
            r matches Some(id) ==> id == self.spec_oldest_id(),
    {
        if self.len == 0 {
            None
        } else {
            Some(self.latest - self.len as u32 + 1)
        }
    }

    /// The input with id `id`, if it is still held.
    pub fn get_by_id(&self, id: u32) -> (r: Option<&Input>)
        requires
            self.len > 0 ==> self.len <= self.latest,
            self.len > 0 && self.spec_oldest_id() <= id <= self.latest ==> id - self.spec_oldest_id() < 20,
        ensures
            r is None <==> self.input_with_id(id as int) is None,
            r matches Some(x) ==> Some(*x) == self.input_with_id(id as int),
    {
        if self.len == 0 {
            return None;
        }
        let oldest_id = match self.oldest_id() {
            Some(o) => o,
            None => {
                return None;
            },
        };
        if id < oldest_id || id > self.latest {
            return None;
        }
        let index = (id - oldest_id) as usize;
        Some(&self.inputs[index])
    }

    pub fn is_empty(&self) -> (r: bool)
        ensures
            r == (self.len == 0),
    {
        self.len == 0
    }
}

impl Default for InputMessage {
    fn default() -> (r: Self)
        ensures
            r.wf(),
            r.len == 0,
            r.latest == 0,
            r.inputs@ == Seq::new(20, |i: int| Input { up: false, down: false, left: false, right: false }),
    {
        Self::new()
    }
}

/// The bytes of the 20 inputs of an array, in order.
pub open spec fn inputs_wire(inputs: Seq<Input>) -> Seq<u8> {
    Seq::new(inputs.len(), |i: int| input_bits(inputs[i]))
}

impl NetMessage for InputMessage {
    open spec fn spec_id() -> MessageId {
        MessageId::Input
    }

    /// The count as a byte, the latest id, then all 20 input bytes.
    open spec fn spec_wire(&self) -> Seq<u8> {
        seq![self.len as u8] + wire::le32(self.latest) + inputs_wire(self.inputs@)
    }

    open spec fn spec_wf(&self) -> bool {
        self.len < 256
    }

    open spec fn spec_fits(s: Seq<u8>) -> bool {
        s.len() >= 25
    }

    open spec fn spec_parses(s: Seq<u8>, m: Self) -> bool {
        &&& m.len == s[0] as usize
        &&& m.latest == wire::from_le32(s.skip(1))
        &&& forall|i: int| 0 <= i < 20 ==> #[trigger] m.inputs@[i] == input_of_bits(s[5 + i])
    }

    open spec fn spec_read_len(s: Seq<u8>) -> nat {
        25
    }

    fn id() -> (r: MessageId) {
        MessageId::Input
    }

    fn serialize(&self, serializer: &mut Serializer) {
        let ghost start = serializer@;
        serializer.write_u8(self.len as u8);
        serializer.write_u32(self.latest);
        let mut i: usize = 0;
        while i < 20
            invariant
                i <= 20,
                serializer@ == start + seq![self.len as u8] + wire::le32(self.latest)
                    + inputs_wire(self.inputs@.take(i as int)),
                start.len() + 25 <= isize::MAX,
            decreases 20 - i,
        {
            let ghost before = serializer@;
            self.inputs[i].serialize(serializer);
            i += 1;
            assert(inputs_wire(self.inputs@.take(i as int)) =~= inputs_wire(self.inputs@.take(i - 1)).push(
                input_bits(self.inputs@[i - 1]),
            ));
        }
        assert(self.inputs@.take(20) =~= self.inputs@);
    }

    fn deserialize(deserializer: &mut Deserializer) -> (r: Self) {
        let ghost start = deserializer@;
        let len = deserializer.read_u8() as usize;
        let latest = deserializer.read_u32();
        assert(start.skip(1).skip(4) =~= start.skip(5));
        let none = Input { up: false, down: false, left: false, right: false };
        let mut inputs = [none; 20];
        let mut i: usize = 0;
        while i < 20
            invariant
                i <= 20,
                start.len() >= 25,
                deserializer@ == start.skip(5 + i),
                forall|j: int| 0 <= j < i ==> #[trigger] inputs@[j] == input_of_bits(start[5 + j]),
            decreases 20 - i,
        {
            inputs[i] = Input::deserialize(deserializer);
            assert(start.skip(5 + i).skip(1) =~= start.skip(5 + i + 1));
            i += 1;
        }
        Self { inputs, len, latest }
    }

    proof fn lemma_wire_len(&self) {
    }

    proof fn lemma_roundtrip(&self, rest: Seq<u8>, m: Self) {
        let w = self.spec_wire();
        let s = w + rest;
        assert(s.skip(1).take(4) =~= wire::le32(self.latest));
        wire::lemma_le32_roundtrip(self.latest);
        if Self::spec_parses(s, m) {
            assert forall|i: int| 0 <= i < 20 implies m.inputs@[i] == self.inputs@[i] by {
                assert(s[5 + i] == input_bits(self.inputs@[i]));
                lemma_input_bits_roundtrip(self.inputs@[i]);
            }
            assert(m.inputs@ =~= self.inputs@);
            assert(m.inputs == self.inputs);
            assert(s[0] == self.len as u8);
            assert(s.skip(1) =~= s.skip(1).take(4) + s.skip(5));
        }
    }
}

/// A snapshot of a shard (a single byte for now).
#[derive(Clone, Copy, Debug, PartialEq, Eq, Structural)]
pub struct SnapshotMessage {
    pub tmp_val: u8,
}

impl NetMessage for SnapshotMessage {
    open spec fn spec_id() -> MessageId {
        MessageId::Snapshot
    }

    open spec fn spec_wire(&self) -> Seq<u8> {
        seq![self.tmp_val]
    }

    open spec fn spec_wf(&self) -> bool {
        true
    }

    open spec fn spec_fits(s: Seq<u8>) -> bool {
        s.len() >= 1
    }

    open spec fn spec_parses(s: Seq<u8>, m: Self) -> bool {
        m.tmp_val == s[0]
    }

    open spec fn spec_read_len(s: Seq<u8>) -> nat {
        1
    }

    fn id() -> (r: MessageId) {
        MessageId::Snapshot
    }

    fn serialize(&self, serializer: &mut Serializer) {
        serializer.write_u8(self.tmp_val);
    }

    fn deserialize(deserializer: &mut Deserializer) -> (r: Self) {
        Self { tmp_val: deserializer.read_u8() }
    }

    proof fn lemma_wire_len(&self) {
    }

    proof fn lemma_roundtrip(&self, rest: Seq<u8>, m: Self) {
    }
}

/// What a pub/sub control message asks for.
#[derive(Clone, Copy, Debug, PartialEq, Eq, Structural)]
pub enum PubSubOp {
    /// Sent by a publisher to register as the publisher of a new topic.
    Pub,
    /// Sent by the broker to force registration as a publisher of a topic.
    ForcedPub,
    /// Stops a publication.
    StopPub,
    /// Sent by a subscriber to subscribe to a topic.
    Sub,
    /// Sent by the broker to force a subscription to a topic.
    ForcedSub,
    /// Stops a subscription.
    StopSub,
    Helo,
    /// Ends all subscriptions and publications of the sender.
    End,
    Error,
}

pub open spec fn op_byte(op: PubSubOp) -> u8 {
    match op {
        PubSubOp::Pub => 0,
        PubSubOp::ForcedPub => 1,
        PubSubOp::StopPub => 2,
        PubSubOp::Sub => 3,
        PubSubOp::ForcedSub => 4,
        PubSubOp::StopSub => 5,
        PubSubOp::Helo => 6,
        PubSubOp::End => 7,
        PubSubOp::Error => 8,
    }
}

/// The op of a byte; any byte above 7 reads as `Error`.
pub open spec fn op_of_byte(b: u8) -> PubSubOp {
    if b == 0 {
        PubSubOp::Pub
    } else if b == 1 {
        PubSubOp::ForcedPub
    } else if b == 2 {
        PubSubOp::StopPub
    } else if b == 3 {
        PubSubOp::Sub
    } else if b == 4 {
        PubSubOp::ForcedSub
    } else if b == 5 {
        PubSubOp::StopSub
    } else if b == 6 {
        PubSubOp::Helo
    } else if b == 7 {
        PubSubOp::End
    } else {
        PubSubOp::Error
    }
}

impl PubSubOp {
    pub fn to_u8(&self) -> (r: u8)
        ensures
            r == op_byte(*self),
    {
        match self {
            PubSubOp::Pub => 0,
            PubSubOp::ForcedPub => 1,
            PubSubOp::StopPub => 2,
            PubSubOp::Sub => 3,
            PubSubOp::ForcedSub => 4,
            PubSubOp::StopSub => 5,
            PubSubOp::Helo => 6,
            PubSubOp::End => 7,
            PubSubOp::Error => 8,
        }
    }

    pub fn from_u8(b: u8) -> (r: Self)
        ensures
            r == op_of_byte(b),
    {
        match b {
            0 => PubSubOp::Pub,
            1 => PubSubOp::ForcedPub,
            2 => PubSubOp::StopPub,
            3 => PubSubOp::Sub,
            4 => PubSubOp::ForcedSub,
            5 => PubSubOp::StopSub,
            6 => PubSubOp::Helo,
            7 => PubSubOp::End,
            _ => PubSubOp::Error,
        }
    }
}

/// A control message about a topic: the op, the topic, the stream that the
/// sender uses for it (by id), and the player it concerns.
#[derive(Clone, Copy, Debug, PartialEq, Eq, Structural)]
pub struct PubSubMessage {
    pub op: PubSubOp,
    pub topic: Topic,
    pub stream: Option<u16>,
    pub target: Option<u32>,
}

/// A flag byte, then the value's bytes when the flag is set.
pub open spec fn optional_wire(present: bool, value: Seq<u8>) -> Seq<u8> {
    if present {
        seq![1u8] + value
    } else {
        seq![0u8]
    }
}

/// Where the target's flag byte lies in a pub/sub message.
pub open spec fn target_flag_at(s: Seq<u8>) -> int {
    if s[6] != 0 {
        9
    } else {
        7
    }
}

impl NetMessage for PubSubMessage {
    open spec fn spec_id() -> MessageId {
        MessageId::PubSub
    }

    /// The op byte, the topic, then the stream id and the target, each behind a flag byte.
    open spec fn spec_wire(&self) -> Seq<u8> {
        seq![op_byte(self.op)] + topics::topic_wire(self.topic) + optional_wire(
            self.stream is Some,
            wire::le16(self.stream.unwrap_or(0)),
        ) + optional_wire(self.target is Some, wire::le32(self.target.unwrap_or(0)))
    }

    open spec fn spec_wf(&self) -> bool {
        true
    }

    open spec fn spec_fits(s: Seq<u8>) -> bool {
        &&& s.len() >= 7
        &&& topics::topic_of(s[1], wire::from_le32(s.skip(2))) is Some
        &&& s.len() >= target_flag_at(s) + 1
        &&& s[target_flag_at(s)] != 0 ==> s.len() >= target_flag_at(s) + 5
    }

    open spec fn spec_parses(s: Seq<u8>, m: Self) -> bool {
        &&& m.op == op_of_byte(s[0])
        &&& Some(m.topic) == topics::topic_of(s[1], wire::from_le32(s.skip(2)))
        &&& m.stream == (if s[6] != 0 {
            Some(wire::from_le16(s.skip(7)))
        } else {
            None
        })
        &&& m.target == (if s[target_flag_at(s)] != 0 {
            Some(wire::from_le32(s.skip(target_flag_at(s) + 1)))
        } else {
            None
        })
    }

    open spec fn spec_read_len(s: Seq<u8>) -> nat {
        (target_flag_at(s) + 1 + (if s[target_flag_at(s)] != 0 {
            4int
        } else {
            0
        })) as nat
    }

    fn id() -> (r: MessageId) {
        MessageId::PubSub
    }

    fn serialize(&self, serializer: &mut Serializer) {
        let ghost start = serializer@;
        serializer.write_u8(self.op.to_u8());
        serializer.write_topic(&self.topic);
        match self.stream {
            Some(stream) => {
                serializer.write_bool(true);
                serializer.write_u16(stream);
            },
            None => {
                serializer.write_bool(false);
            },
        }
        let ghost mid = serializer@;
        assert(mid =~= start + seq![op_byte(self.op)] + topics::topic_wire(self.topic) + optional_wire(
            self.stream is Some,
            wire::le16(self.stream.unwrap_or(0)),
        ));
        match self.target {
            Some(target) => {
                serializer.write_bool(true);
                serializer.write_u32(target);
            },
            None => {
                serializer.write_bool(false);
            },
        }
        assert(serializer@ =~= start + self.spec_wire());
    }

    fn deserialize(deserializer: &mut Deserializer) -> (r: Self) {
        let ghost s = deserializer@;
        let op_u8 = deserializer.read_u8();
        let op = PubSubOp::from_u8(op_u8);
        assert(s.skip(1)[0] == s[1]);
        assert(s.skip(1).skip(1) =~= s.skip(2));
        let topic = deserializer.read_topic();
        assert(s.skip(1).skip(5) =~= s.skip(6));
        let stream = if deserializer.read_bool() {
            assert(s.skip(6).skip(1) =~= s.skip(7));
            let id = deserializer.read_u16();
            assert(s.skip(7).skip(2) =~= s.skip(9));
            Some(id)
        } else {
            assert(s.skip(6).skip(1) =~= s.skip(7));
            None
        };
        let ghost k = target_flag_at(s);
        assert(deserializer@ =~= s.skip(k));
        let target = if deserializer.read_bool() {
            assert(s.skip(k).skip(1) =~= s.skip(k + 1));
            let t = deserializer.read_u32();
            assert(s.skip(k + 1).skip(4) =~= s.skip(k + 5));
            Some(t)
        } else {
            assert(s.skip(k).skip(1) =~= s.skip(k + 1));
            None
        };
        Self { op, topic, stream, target }
    }

    proof fn lemma_wire_len(&self) {
    }

    proof fn lemma_roundtrip(&self, rest: Seq<u8>, m: Self) {
        let w = self.spec_wire();
        let s = w + rest;
        assert(s[0] == op_byte(self.op));
        assert(s[1] == topics::topic_tag(self.topic));
        assert(s.skip(2).take(4) =~= wire::le32(topics::topic_number(self.topic)));
        wire::lemma_le32_roundtrip(topics::topic_number(self.topic));
        wire::lemma_le16_roundtrip(self.stream.unwrap_or(0));
        wire::lemma_le32_roundtrip(self.target.unwrap_or(0));
        let k = target_flag_at(s);
        if self.stream is Some {
            assert(s[6] == 1u8);
            assert(s.skip(7).take(2) =~= wire::le16(self.stream.unwrap_or(0)));
            assert(k == 9);
        } else {
            assert(s[6] == 0u8);
            assert(k == 7);
        }
        if self.target is Some {
            assert(s[k] == 1u8);
            assert(s.skip(k + 1).take(4) =~= wire::le32(self.target.unwrap_or(0)));
        } else {
            assert(s[k] == 0u8);
        }
        assert(op_of_byte(op_byte(self.op)) == self.op);
    }
}

/// The pub/sub message that a payload holds, field by field.
pub open spec fn pubsub_payload(s: Seq<u8>) -> PubSubMessage {
    PubSubMessage {
        op: op_of_byte(s[0]),
        topic: topics::topic_of(s[1], wire::from_le32(s.skip(2))).unwrap(),
        stream: if s[6] != 0 {
            Some(wire::from_le16(s.skip(7)))
        } else {
            None
        },
        target: if s[target_flag_at(s)] != 0 {
            Some(wire::from_le32(s.skip(target_flag_at(s) + 1)))
        } else {
            None
        },
    }
}

/// The front of `s` frames a message that can be read: an id byte, then, for
/// the kinds with a payload, enough bytes for it.
pub open spec fn msg_fits(s: Seq<u8>) -> bool {
    &&& s.len() >= 1
    &&& match message_id_of(s[0]) {
        Some(MessageId::Input) => InputMessage::spec_fits(s.skip(1)),
        Some(MessageId::Snapshot) => SnapshotMessage::spec_fits(s.skip(1)),
        Some(MessageId::PubSub) => PubSubMessage::spec_fits(s.skip(1)),
        _ => true,
    }
}

/// `r` is what a framed message decodes to: the message behind the id byte for
/// the kinds with a payload, and `None` for a chat message or an unknown id.
pub open spec fn msg_decodes(s: Seq<u8>, r: Option<AnyMessage>) -> bool {
    match message_id_of(s[0]) {
        Some(MessageId::Input) => r matches Some(AnyMessage::Input(m)) && InputMessage::spec_parses(
            s.skip(1),
            m,
        ),
        Some(MessageId::Snapshot) => r matches Some(AnyMessage::Snapshot(m))
            && SnapshotMessage::spec_parses(s.skip(1), m),
        Some(MessageId::PubSub) => r matches Some(AnyMessage::PubSub(m)) && PubSubMessage::spec_parses(
            s.skip(1),
            m,
        ),
        _ => r is None,
    }
}

/// Whether `bytes` frame a message that `decode_msg` can read.
pub fn msg_is_readable(bytes: &[u8]) -> (r: bool)
    ensures
        r == msg_fits(bytes@),
{
    if bytes.len() < 1 {
        return false;
    }
    let s = bytes;
    let ghost rest = s@.skip(1);
    match MessageId::from_u8(s[0]) {
        Some(MessageId::Input) => s.len() >= 26,
        Some(MessageId::Snapshot) => s.len() >= 2,
        Some(MessageId::PubSub) => {
            if s.len() < 8 {
                return false;
            }
            assert(rest.skip(2) =~= s@.skip(3));
            let n = match wire::read_u32(s, 3) {
                Some(n) => n,
                None => {
                    return false;
                },
            };
            assert(s@.subrange(3, 7) =~= s@.skip(3).take(4));
            if Topic::from_parts(s[2], n).is_none() {
                return false;
            }
            let k: usize = if s[7] != 0 {
                10
            } else {
                8
            };
            if s.len() < k + 1 {
                return false;
            }
            if s[k] != 0 {
                s.len() >= k + 5
            } else {
                true
            }
        },
        _ => true,
    }
}

/// Whether a buffer frames a message that `decode_msg` can read.
pub fn bytes_readable(data: &Bytes) -> (r: bool)
    ensures
        r == msg_fits(serializer::bytes_contents(*data)),
{
    let v = serializer::bytes_to_vec(data);
    msg_is_readable(v.as_slice())
}

/// Reads a framed message: its id byte, then its payload.
pub fn decode_msg(bytes: &Bytes) -> (r: Option<AnyMessage>)
    requires
        msg_fits(serializer::bytes_contents(*bytes)),
    ensures
        msg_decodes(serializer::bytes_contents(*bytes), r),
{
    let ghost s = serializer::bytes_contents(*bytes);
    let mut deserializer = Deserializer::new(serializer::bytes_clone(bytes));
    let id = match MessageId::from_u8(deserializer.read_u8()) {
        Some(id) => id,
        None => {
            return None;
        },
    };
    match id {
        MessageId::Input => Some(AnyMessage::Input(InputMessage::deserialize(&mut deserializer))),
        MessageId::Snapshot => Some(
            AnyMessage::Snapshot(SnapshotMessage::deserialize(&mut deserializer)),
        ),
        MessageId::PubSub => Some(AnyMessage::PubSub(PubSubMessage::deserialize(&mut deserializer))),
        _ => None,
    }
}

/// The bytes that frame a message: its id byte, then its payload.
pub open spec fn framed<M: NetMessage>(msg: M) -> Seq<u8> {
    seq![message_id_byte(M::spec_id())] + msg.spec_wire()
}

/// Frames a message for sending: its id byte, then its payload.
pub fn encode_msg<M: NetMessage>(msg: &M) -> (b: Bytes)
    ensures
        serializer::bytes_contents(b) == framed(*msg),
{
    let mut serializer = Serializer::new();
    serializer.write_u8(M::id().to_u8());
    proof {
        msg.lemma_wire_len();
    }
    msg.serialize(&mut serializer);
    serializer.into_bytes()
}

/// A framed input message decodes to itself.
pub proof fn law_input_message_roundtrip(m: InputMessage, r: Option<AnyMessage>)
    requires
        m.wf(),
        msg_decodes(framed(m), r),
    ensures
        msg_fits(framed(m)),
        r == Some(AnyMessage::Input(m)),
{
    let s = framed(m);
    assert(s.skip(1) =~= m.spec_wire() + Seq::<u8>::empty());
    m.lemma_roundtrip(Seq::empty(), m);
    if let Some(AnyMessage::Input(x)) = r {
        m.lemma_roundtrip(Seq::empty(), x);
    }
}

/// A framed snapshot message decodes to itself.
pub proof fn law_snapshot_message_roundtrip(m: SnapshotMessage, r: Option<AnyMessage>)
    requires
        msg_decodes(framed(m), r),
    ensures
        msg_fits(framed(m)),
        r == Some(AnyMessage::Snapshot(m)),
{
    let s = framed(m);
    assert(s.skip(1) =~= m.spec_wire() + Seq::<u8>::empty());
    if let Some(AnyMessage::Snapshot(x)) = r {
        m.lemma_roundtrip(Seq::empty(), x);
    }
}

/// A framed pub/sub message decodes to itself.
pub proof fn law_pubsub_message_roundtrip(m: PubSubMessage, r: Option<AnyMessage>)
    requires
        msg_decodes(framed(m), r),
    ensures
        msg_fits(framed(m)),
        r == Some(AnyMessage::PubSub(m)),
{
    let s = framed(m);
    assert(s.skip(1) =~= m.spec_wire() + Seq::<u8>::empty());
    m.lemma_roundtrip(Seq::empty(), m);
    if let Some(AnyMessage::PubSub(x)) = r {
        m.lemma_roundtrip(Seq::empty(), x);
    }
}

} // verus!
