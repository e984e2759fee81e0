//! The pub/sub topics that services publish and subscribe to.
use vstd::prelude::*;
use crate::wire;

verus! {

/// A channel of the broker: inputs of a player, snapshots of a shard, or a view.
#[derive(Clone, Copy, Debug, PartialEq, Eq, Hash, Structural)]
pub enum Topic {
    Input(u32),
    Snapshot(u32),
    View(u32),
}

/// The byte that tells the kind of a topic on the wire.
pub open spec fn topic_tag(t: Topic) -> u8 {
    match t {
        Topic::Input(_) => 0,
        Topic::Snapshot(_) => 1,
        Topic::View(_) => 2,
    }
}

/// The number that a topic carries.
pub open spec fn topic_number(t: Topic) -> u32 {
    match t {
        Topic::Input(n) => n,
        Topic::Snapshot(n) => n,
        Topic::View(n) => n,
    }
}

/// The topic of a tag and a number, if the tag is known.
pub open spec fn topic_of(tag: u8, n: u32) -> Option<Topic> {
    if tag == 0 {
        Some(Topic::Input(n))
    } else if tag == 1 {
        Some(Topic::Snapshot(n))
    } else if tag == 2 {
        Some(Topic::View(n))
    } else {
        None
    }
}

/// The five bytes of a topic on the wire: its tag, then its number.
pub open spec fn topic_wire(t: Topic) -> Seq<u8> {
    seq![topic_tag(t)] + wire::le32(topic_number(t))
}

/// A number that identifies a topic among all topics: its tag above its 32-bit number.
pub open spec fn topic_key(t: Topic) -> u64 {
    (topic_tag(t) as int * 0x1_0000_0000 + topic_number(t) as int) as u64
}

/// Distinct topics have distinct keys.
pub proof fn lemma_topic_key_injective(a: Topic, b: Topic)
    ensures
        topic_key(a) == topic_key(b) ==> a == b,
{
}

impl Topic {
    pub fn tag(&self) -> (r: u8)
        ensures
            r == topic_tag(*self),
    {
        match self {
            Topic::Input(_) => 0,
            Topic::Snapshot(_) => 1,
            Topic::View(_) => 2,
        }
    }

    pub fn number(&self) -> (r: u32)
        ensures
            r == topic_number(*self),
    {
        match self {
            Topic::Input(n) => *n,
            Topic::Snapshot(n) => *n,
            Topic::View(n) => *n,
        }
    }

    /// The topic of a tag and a number, `None` for an unknown tag.
    pub fn from_parts(tag: u8, n: u32) -> (r: Option<Topic>)
        ensures
            r == topic_of(tag, n),
    {
        if tag == 0 {
            Some(Topic::Input(n))
        } else if tag == 1 {
            Some(Topic::Snapshot(n))
        } else if tag == 2 {
            Some(Topic::View(n))
        } else {
            None
        }
    }

    pub fn key(&self) -> (r: u64)
        ensures
            r == topic_key(*self),
    {
        self.tag() as u64 * 0x1_0000_0000u64 + self.number() as u64
    }
}

} // verus!
