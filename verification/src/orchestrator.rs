//! The orchestrator's bookkeeping: when each shard was last heard of, which
//! shards are missing and must be started, and what it records and hands to a
//! shard that it starts. Times are milliseconds on the orchestrator's clock.
use vstd::prelude::*;
use vstd::string::*;
use std::collections::HashMap;
use crate::numbers::{self, parse_u32};
use crate::server_info::{self, push_decimal, Heartbeat};

verus! {

broadcast use vstd::std_specs::hash::group_hash_axioms;

/// Shard `shard` was heard of within `ttl` of `now`. A time stamp after `now`
/// counts as no time elapsed.
pub open spec fn alive(m: Map<u32, u64>, shard: u32, now: u64, ttl: u64) -> bool {
    m.contains_key(shard) && (if now >= m[shard] {
        now - m[shard]
    } else {
        0
    }) <= ttl
}

/// The shards below `count` that are not alive, in increasing order.
pub open spec fn missing_shards(m: Map<u32, u64>, now: u64, ttl: u64, count: nat) -> Seq<u32>
    decreases count,
{
    if count == 0 {
        Seq::empty()
    } else {
        let before = missing_shards(m, now, ttl, (count - 1) as nat);
        let id = (count - 1) as u32;
        if alive(m, id, now, ttl) {
            before
        } else {
            before.push(id)
        }
    }
}

/// The map with each shard of `ids` stamped `now`.
pub open spec fn stamped(m: Map<u32, u64>, ids: Seq<u32>, now: u64) -> Map<u32, u64> {
    m.union_prefer_right(Map::new(|k: u32| ids.contains(k), |k: u32| now))
}

proof fn lemma_missing_below(m: Map<u32, u64>, now: u64, ttl: u64, count: nat)
    requires
        count <= u32::MAX as nat + 1,
    ensures
        forall|j: int| 0 <= j < missing_shards(m, now, ttl, count).len() ==> (#[trigger] missing_shards(m, now, ttl, count)[j]) < count,
    decreases count,
{
    if count > 0 {
        lemma_missing_below(m, now, ttl, (count - 1) as nat);
        let before = missing_shards(m, now, ttl, (count - 1) as nat);
        let all = missing_shards(m, now, ttl, count);
        assert forall|j: int| 0 <= j < all.len() implies #[trigger] all[j] < count by {
            if j < before.len() {
                assert(all[j] == before[j]);
            }
        }
    }
}

/// A shard below the count is missing exactly when it is not alive.
proof fn lemma_missing_iff_dead(m: Map<u32, u64>, now: u64, ttl: u64, count: nat, shard: u32)
    requires
        count <= u32::MAX as nat + 1,
        shard < count,
    ensures
        missing_shards(m, now, ttl, count).contains(shard) <==> !alive(m, shard, now, ttl),
    decreases count,
{
    let before = missing_shards(m, now, ttl, (count - 1) as nat);
    let all = missing_shards(m, now, ttl, count);
    lemma_missing_below(m, now, ttl, (count - 1) as nat);
    if shard == count - 1 {
        if !alive(m, shard, now, ttl) {
            assert(all[before.len() as int] == shard);
        } else {
            assert(!before.contains(shard));
        }
    } else {
        lemma_missing_iff_dead(m, now, ttl, (count - 1) as nat, shard);
        if before.contains(shard) {
            let j = choose|j: int| 0 <= j < before.len() && before[j] == shard;
            assert(all[j] == shard);
        }
        if all.contains(shard) {
            let j = choose|j: int| 0 <= j < all.len() && all[j] == shard;
            if j < before.len() {
                assert(before[j] == shard);
            }
        }
    }
}

/// After a round of supervision every shard below the count is alive: those
/// that were missing count as heard of just now.
pub proof fn law_supervision_leaves_all_alive(m: Map<u32, u64>, now: u64, ttl: u64, count: u32, shard: u32)
    requires
        shard < count,
    ensures
        alive(stamped(m, missing_shards(m, now, ttl, count as nat), now), shard, now, ttl),
{
    lemma_missing_iff_dead(m, now, ttl, count as nat, shard);
}

/// When each shard was last heard of.
pub struct Fleet {
    pub last_seen: HashMap<u32, u64>,
}

impl View for Fleet {
    type V = Map<u32, u64>;

    open spec fn view(&self) -> Map<u32, u64> {
        self.last_seen@
    }
}

impl Fleet {
    pub fn new() -> (r: Self)
        ensures
            r@ == Map::<u32, u64>::empty(),
    {
        Fleet { last_seen: HashMap::new() }
    }

    /// A shard was heard of at `now`.
    pub fn record_heartbeat(&mut self, shard_id: u32, now: u64)
        ensures
            final(self)@ == old(self)@.insert(shard_id, now),
    {
        self.last_seen.insert(shard_id, now);
    }

    /// Takes in a heartbeat whose zone names the shard by its number; a zone
    /// that is no number is ignored. Gives the shard's number.
    pub fn accept_heartbeat(&mut self, zone: &str, now: u64) -> (r: Option<u32>)
        ensures
            match numbers::parsed_unsigned(zone@, u32::MAX as nat) {
                Some(v) => r == Some(v as u32) && final(self)@ == old(self)@.insert(v as u32, now),
                None => r is None && final(self)@ == old(self)@,
            },
    {
        let id = parse_u32(zone);
        if let Some(shard_id) = id {
            self.record_heartbeat(shard_id, now);
        }
        id
    }

    /// Whether a shard was heard of within `ttl` of `now`.
    pub fn is_alive(&self, shard_id: u32, now: u64, ttl: u64) -> (r: bool)
        ensures
            r == alive(self@, shard_id, now, ttl),
    {
        match self.last_seen.get(&shard_id) {
            Some(seen) => now.saturating_sub(*seen) <= ttl,
            None => false,
        }
    }

    /// One round of supervision over shards `0..shard_count`: each that is not
    /// alive is to be started, and counts as heard of now.
    pub fn supervise(&mut self, now: u64, ttl: u64, shard_count: u32) -> (r: Vec<u32>)
        ensures
            r@ == missing_shards(old(self)@, now, ttl, shard_count as nat),
            final(self)@ == stamped(old(self)@, r@, now),
    {
        let ghost m0 = self@;
        let mut out: Vec<u32> = Vec::new();
        let mut i: u32 = 0;
        assert(self@ =~= stamped(m0, out@, now));
        while i < shard_count
            invariant
                i <= shard_count,
                out@ == missing_shards(m0, now, ttl, i as nat),
                self@ == stamped(m0, out@, now),
            decreases shard_count - i,
        {
            proof {
                lemma_missing_below(m0, now, ttl, i as nat);
                assert(!out@.contains(i));
                assert(alive(self@, i, now, ttl) == alive(m0, i, now, ttl));
            }
            if !self.is_alive(i, now, ttl) {
                let ghost before = out@;
                self.record_heartbeat(i, now);
                out.push(i);
                assert forall|k: u32| #[trigger] out@.contains(k) == (before.contains(k) || k == i) by {
                    if k == i {
                        assert(out@[before.len() as int] == i);
                    }
                    if before.contains(k) {
                        let j = choose|j: int| 0 <= j < before.len() && before[j] == k;
                        assert(out@[j] == k);
                    }
                    if out@.contains(k) && k != i {
                        let j = choose|j: int| 0 <= j < out@.len() && out@[j] == k;
                        assert(j < before.len());
                        assert(before[j] == k);
                    }
                }
                assert(self@ =~= stamped(m0, out@, now));
            }
            i += 1;
        }
        out
    }
}

/// `shard:` and the shard's number: the key of a shard's record.
pub open spec fn shard_key_text(shard_id: u32) -> Seq<char> {
    seq!['s', 'h', 'a', 'r', 'd', ':'] + server_info::decimal(shard_id as nat)
}

/// The fields of a shard's record, from its heartbeat.
pub open spec fn record_fields(hb: Heartbeat) -> Seq<(Seq<char>, Seq<char>)> {
    seq![
        (seq!['i', 'd'], hb.id@),
        (seq!['z', 'o', 'n', 'e'], hb.zone@),
        (
            seq!['p', 'l', 'a', 'y', 'e', 'r', '_', 'c', 'o', 'u', 'n', 't'],
            server_info::decimal(hb.player_count as nat),
        ),
        (
            seq!['m', 'a', 'x', '_', 'p', 'l', 'a', 'y', 'e', 'r', 's'],
            server_info::decimal(hb.max_players as nat),
        ),
        (seq!['s', 't', 'a', 't', 'u', 's'], seq!['a', 'l', 'i', 'v', 'e']),
    ]
}

/// A list of pairs of strings, as pairs of texts.
pub open spec fn text_pairs(v: Seq<(String, String)>) -> Seq<(Seq<char>, Seq<char>)> {
    v.map_values(|p: (String, String)| (p.0@, p.1@))
}

/// What the orchestrator records of a shard: under its key, the fields of its
/// last heartbeat.
pub struct ShardRecord {
    pub key: String,
    pub fields: Vec<(String, String)>,
}

/// Appends a pair of strings.
fn push_pair(out: &mut Vec<(String, String)>, name: &str, value: String)
    ensures
        text_pairs(final(out)@) == text_pairs(old(out)@).push((name@, value@)),
{
    let ghost v = value@;
    out.push((String::from_str(name), value));
    assert(text_pairs(out@) =~= text_pairs(old(out)@).push((name@, v)));
}

/// The decimal text of a number.
fn decimal_string(n: u64) -> (r: String)
    ensures
        r@ == server_info::decimal(n as nat),
{
    let mut s = String::new();
    push_decimal(&mut s, n);
    assert(s@ =~= server_info::decimal(n as nat));
    s
}

/// The record of a shard, from its heartbeat.
pub fn shard_record(hb: &Heartbeat, shard_id: u32) -> (r: ShardRecord)
    ensures
        r.key@ == shard_key_text(shard_id),
        text_pairs(r.fields@) == record_fields(*hb),
{
    proof {
        reveal_strlit("shard:");
        reveal_strlit("id");
        reveal_strlit("zone");
        reveal_strlit("player_count");
        reveal_strlit("max_players");
        reveal_strlit("status");
        reveal_strlit("alive");
    }
    let mut key = String::from_str("shard:");
    push_decimal(&mut key, shard_id as u64);
    let mut fields: Vec<(String, String)> = Vec::new();
    push_pair(&mut fields, "id", hb.id.clone());
    push_pair(&mut fields, "zone", hb.zone.clone());
    push_pair(&mut fields, "player_count", decimal_string(hb.player_count as u64));
    push_pair(&mut fields, "max_players", decimal_string(hb.max_players as u64));
    push_pair(&mut fields, "status", String::from_str("alive"));
    assert(key@ =~= shard_key_text(shard_id));
    assert(text_pairs(fields@) =~~= record_fields(*hb));
    ShardRecord { key, fields }
}

/// The environment that a started shard gets: its number, the number of
/// shards, the broker's address, the orchestrator's address, and, for the
/// shard chosen to hold a test entity, the flag for it.
pub open spec fn shard_env(
    shard_id: u32,
    shard_count: u32,
    broker_addr: Seq<char>,
    orch_port: u16,
    dummy_shard: Option<u32>,
) -> Seq<(Seq<char>, Seq<char>)> {
    seq![
        (seq!['S', 'H', 'A', 'R', 'D', '_', 'I', 'D'], server_info::decimal(shard_id as nat)),
        (seq!['S', 'H', 'A', 'R', 'D', '_', 'C', 'O', 'U', 'N', 'T'], server_info::decimal(shard_count as nat)),
        (seq!['B', 'R', 'O', 'K', 'E', 'R', '_', 'A', 'D', 'D', 'R'], broker_addr),
        (
            seq!['O', 'R', 'C', 'H', '_', 'A', 'D', 'D', 'R'],
            seq!['1', '2', '7', '.', '0', '.', '0', '.', '1', ':'] + server_info::decimal(orch_port as nat),
        ),
    ] + (if dummy_shard == Some(shard_id) {
        seq![(seq!['S', 'P', 'A', 'W', 'N', '_', 'D', 'U', 'M', 'M', 'Y'], seq!['1'])]
    } else {
        Seq::<(Seq<char>, Seq<char>)>::empty()
    })
}

/// The environment to start shard `shard_id` with.
pub fn shard_environment(
    shard_id: u32,
    shard_count: u32,
    broker_addr: &str,
    orch_port: u16,
    dummy_shard: Option<u32>,
) -> (r: Vec<(String, String)>)
    ensures
        text_pairs(r@) == shard_env(shard_id, shard_count, broker_addr@, orch_port, dummy_shard),
{
    proof {
        reveal_strlit("SHARD_ID");
        reveal_strlit("SHARD_COUNT");
        reveal_strlit("BROKER_ADDR");
        reveal_strlit("ORCH_ADDR");
        reveal_strlit("127.0.0.1:");
        reveal_strlit("SPAWN_DUMMY");
        reveal_strlit("1");
    }
    let mut env: Vec<(String, String)> = Vec::new();
    push_pair(&mut env, "SHARD_ID", decimal_string(shard_id as u64));
    push_pair(&mut env, "SHARD_COUNT", decimal_string(shard_count as u64));
    push_pair(&mut env, "BROKER_ADDR", String::from_str(broker_addr));
    let mut orch = String::from_str("127.0.0.1:");
    push_decimal(&mut orch, orch_port as u64);
    push_pair(&mut env, "ORCH_ADDR", orch);
    let dummy = match dummy_shard {
        Some(d) => d == shard_id,
        None => false,
    };
    if dummy {
        push_pair(&mut env, "SPAWN_DUMMY", String::from_str("1"));
    }
    assert(text_pairs(env@) =~~= shard_env(shard_id, shard_count, broker_addr@, orch_port, dummy_shard));
    env
}

} // verus!
