//! The spatial service's routing: which shard each entity is in, the
//! subscriptions that follow an entity from shard to shard, and the alert that
//! an entity nears another shard.
use vstd::prelude::*;
use std::collections::HashMap;
use crate::gameplay::{self, encode_crossing_alert};
use crate::netmessage::{PubSubMessage, PubSubOp};
use crate::session::{self, BrokerSession};
use crate::topics::Topic;

verus! {

broadcast use vstd::std_specs::hash::group_hash_axioms;

/// The first shard of `near` that is not `current`, if any.
pub open spec fn first_other(near: Seq<u32>, current: u32) -> Option<u32>
    decreases near.len(),
{
    if near.len() == 0 {
        None
    } else if near[0] != current {
        Some(near[0])
    } else {
        first_other(near.skip(1), current)
    }
}

/// The control messages for an entity now in `current`, last seen in
/// `previous`: nothing when it stays; otherwise the subscription to its old
/// shard stops and one to its new shard starts, both on its behalf.
pub open spec fn move_controls(s: BrokerSession, previous: Option<u32>, entity: u32, current: u32) -> Seq<
    PubSubMessage,
> {
    if previous == Some(current) {
        Seq::empty()
    } else {
        session::sent(
            s,
            (match previous {
                Some(old) => seq![
                    session::control_msg(s, PubSubOp::StopSub, Topic::Snapshot(old), Some(entity)),
                ],
                None => Seq::<PubSubMessage>::empty(),
            }) + seq![session::control_msg(s, PubSubOp::Sub, Topic::Snapshot(current), Some(entity))],
        )
    }
}

/// An entity is close to more than one shard and the session can publish: the
/// alert names the first of them that is not its own.
pub open spec fn alert_target(s: BrokerSession, near: Seq<u32>, current: u32) -> Option<u32> {
    if near.len() > 1 && s.connection is Some && s.unreliable_stream is Some {
        first_other(near, current)
    } else {
        None
    }
}

/// Routing an entity again to the shard it was just routed to sends no
/// control message; routing it to another shard moves its subscription there.
pub proof fn law_route_moves_subscription(m: Map<u32, u32>, s: BrokerSession, entity: u32, first: u32, second: u32)
    ensures
        move_controls(s, Some(m.insert(entity, first)[entity]), entity, first) == Seq::<PubSubMessage>::empty(),
        first != second && session::can_send(s) ==> move_controls(
            s,
            Some(m.insert(entity, first)[entity]),
            entity,
            second,
        ) == seq![
            session::control_msg(s, PubSubOp::StopSub, Topic::Snapshot(first), Some(entity)),
            session::control_msg(s, PubSubOp::Sub, Topic::Snapshot(second), Some(entity)),
        ],
{
    assert(seq![session::control_msg(s, PubSubOp::StopSub, Topic::Snapshot(first), Some(entity))] + seq![
        session::control_msg(s, PubSubOp::Sub, Topic::Snapshot(second), Some(entity)),
    ] =~= seq![
        session::control_msg(s, PubSubOp::StopSub, Topic::Snapshot(first), Some(entity)),
        session::control_msg(s, PubSubOp::Sub, Topic::Snapshot(second), Some(entity)),
    ]);
}

/// Each element is smaller than the next.
pub open spec fn strictly_increasing(s: Seq<u32>) -> bool {
    forall|i: int, j: int| 0 <= i < j < s.len() ==> s[i] < s[j]
}

/// The shards of a list, each once, in increasing order: what a spatial query
/// reports of the cells that it found.
pub fn distinct_sorted(shards: &Vec<u32>) -> (r: Vec<u32>)
    ensures
        strictly_increasing(r@),
        forall|x: u32| r@.contains(x) <==> shards@.contains(x),
{
    let mut out: Vec<u32> = Vec::new();
    let mut i: usize = 0;
    while i < shards.len()
        invariant
            i <= shards@.len(),
            strictly_increasing(out@),
            forall|y: u32| out@.contains(y) <==> shards@.take(i as int).contains(y),
        decreases shards@.len() - i,
    {
        let x = shards[i];
        let mut k: usize = 0;
        while k < out.len() && out[k] < x
            invariant
                k <= out@.len(),
                forall|j: int| 0 <= j < k ==> out@[j] < x,
            decreases out@.len() - k,
        {
            k += 1;
        }
        let ghost before = out@;
        let ghost prefix = shards@.take(i as int);
        let ghost next = shards@.take(i + 1);
        assert(next =~= prefix.push(x));
        assert forall|y: u32| next.contains(y) <==> (prefix.contains(y) || y == x) by {
            if y == x {
                assert(next[i as int] == x);
            }
            if prefix.contains(y) {
                let j = choose|j: int| 0 <= j < prefix.len() && prefix[j] == y;
                assert(next[j] == y);
            }
            if next.contains(y) && y != x {
                let j = choose|j: int| 0 <= j < next.len() && next[j] == y;
                assert(prefix[j] == y);
            }
        }
        if k < out.len() && out[k] == x {
            assert(before[k as int] == x);
            assert(before.contains(x));
            assert forall|y: u32| out@.contains(y) <==> next.contains(y) by {
                assert(before.contains(y) <==> prefix.contains(y));
            }
        } else {
            out.insert(k, x);
            proof {
                assert forall|a: int, b: int| 0 <= a < b < out@.len() implies out@[a] < out@[b] by {
                    if b < k {
                    } else if b == k {
                    } else if a < k {
                        assert(out@[b] == before[b - 1]);
                        if k < before.len() {
                            assert(before[k as int] > x);
                            assert(before[k as int] <= before[b - 1]);
                        }
                    } else if a == k {
                        assert(out@[b] == before[b - 1]);
                        assert(before[k as int] > x);
                        assert(before[k as int] <= before[b - 1]);
                    } else {
                        assert(out@[a] == before[a - 1]);
                        assert(out@[b] == before[b - 1]);
                    }
                }
                assert forall|y: u32| out@.contains(y) <==> (before.contains(y) || y == x) by {
                    if y == x {
                        assert(out@[k as int] == x);
                    }
                    if before.contains(y) {
                        let j = choose|j: int| 0 <= j < before.len() && before[j] == y;
                        if j < k {
                            assert(out@[j] == y);
                        } else {
                            assert(out@[j + 1] == y);
                        }
                    }
                    if out@.contains(y) && y != x {
                        let j = choose|j: int| 0 <= j < out@.len() && out@[j] == y;
                        if j < k {
                            assert(before[j] == y);
                        } else {
                            assert(j != k);
                            assert(before[j - 1] == y);
                        }
                    }
                }
                assert forall|y: u32| out@.contains(y) <==> next.contains(y) by {
                    assert(before.contains(y) <==> prefix.contains(y));
                }
            }
        }
        i += 1;
    }
    assert(shards@.take(shards@.len() as int) =~= shards@);
    out
}

/// What a position update asks the spatial service to send.
pub struct RouteOutput {
    /// Control messages for the lifeline, in order.
    pub control: Vec<PubSubMessage>,
    /// A crossing alert to publish.
    pub alert: Option<Vec<u8>>,
}

/// The shard that each entity was last seen in.
pub struct SpatialRouter {
    pub entity_shard: HashMap<u32, u32>,
}

impl View for SpatialRouter {
    type V = Map<u32, u32>;

    open spec fn view(&self) -> Map<u32, u32> {
        self.entity_shard@
    }
}

impl SpatialRouter {
    pub fn new() -> (r: Self)
        ensures
            r@ == Map::<u32, u32>::empty(),
    {
        SpatialRouter { entity_shard: HashMap::new() }
    }

    /// Forgets every entity.
    pub fn clear(&mut self)
        ensures
            final(self)@ == Map::<u32, u32>::empty(),
    {
        self.entity_shard.clear();
    }

    /// Routes an entity that is now in shard `current` and lies close to the
    /// shards `near` (its own among them, as the spatial index reports them).
    pub fn route_position(&mut self, s: &BrokerSession, entity_id: u32, current: u32, near: &Vec<u32>) -> (r:
        RouteOutput)
        ensures
            final(self)@ == old(self)@.insert(entity_id, current),
            r.control@ == move_controls(
                *s,
                if old(self)@.contains_key(entity_id) {
                    Some(old(self)@[entity_id])
                } else {
                    None
                },
                entity_id,
                current,
            ),
            r.alert is Some <==> alert_target(*s, near@, current) is Some,
            r.alert matches Some(b) ==> b@ == gameplay::crossing_alert_bytes(
                entity_id,
                current,
                alert_target(*s, near@, current).unwrap(),
            ),
    {
        let previous = self.entity_shard.insert(entity_id, current);
        let mut control: Vec<PubSubMessage> = Vec::new();
        let moved = match previous {
            Some(p) => p != current,
            None => true,
        };
        if moved {
            if let Some(old_shard) = previous {
                if let Some(m) = s.control(PubSubOp::StopSub, Topic::Snapshot(old_shard), Some(entity_id)) {
                    control.push(m);
                }
            }
            if let Some(m) = s.control(PubSubOp::Sub, Topic::Snapshot(current), Some(entity_id)) {
                control.push(m);
            }
        }
        proof {
            let prev = if old(self)@.contains_key(entity_id) {
                Some(old(self)@[entity_id])
            } else {
                None
            };
            assert(prev == previous);
            assert(control@ =~= move_controls(*s, prev, entity_id, current));
        }
        let mut alert: Option<Vec<u8>> = None;
        if near.len() > 1 && s.connection.is_some() && s.unreliable_stream.is_some() {
            let mut target: Option<u32> = None;
            let mut i: usize = 0;
            assert(near@.skip(0) =~= near@);
            while i < near.len() && target.is_none()
                invariant
                    i <= near@.len(),
                    target is None ==> first_other(near@, current) == first_other(
                        near@.skip(i as int),
                        current,
                    ),
                    target is Some ==> target == first_other(near@, current),
                decreases near@.len() - i,
            {
                assert(near@.skip(i as int).skip(1) =~= near@.skip(i + 1));
                if near[i] != current {
                    target = Some(near[i]);
                }
                i += 1;
            }
            proof {
                if target is None {
                    assert(near@.skip(i as int).len() == 0);
                }
            }
            if let Some(t) = target {
                alert = Some(encode_crossing_alert(entity_id, current, t));
            }
        }
        RouteOutput { control, alert }
    }
}

} // verus!
