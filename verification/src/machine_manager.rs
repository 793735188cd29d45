// Copyright 2023 Memgraph Ltd.
//
// Use of this software is governed by the Business Source License
// included in the file licenses/BSL.txt; by using this file, you agree to be bound by the terms of the Business Source
// License, and you may not use this file except in compliance with the Business Source License.
//
// As of the Change Date specified in that file, in accordance with
// the Business Source License, use of this software will be governed
// by the Apache License, Version 2.0, included in the file
// licenses/APL.txt.

//! A machine that hosts the coordinator replica and a replica for each of
//! its shards, and routes every incoming envelope to the replica it is for.
use vstd::prelude::*;

use crate::coordinator::Coordinator;
use crate::net::{Envelope, Message, RsmId};
use crate::rsm::{deadline, Replica};
use crate::shard::Shard;

use std::collections::BTreeMap;

verus! {

broadcast use vstd::std_specs::btree::group_btree_axioms;

/// The bytes of `n` written in decimal, most significant digit first.
pub open spec fn decimal(n: nat) -> Seq<u8>
    decreases n,
{
    if n < 10 {
        seq![(48 + n) as u8]
    } else {
        decimal(n / 10).push((48 + n % 10) as u8)
    }
}

/// The bytes of `__rsm_`.
pub open spec fn rsm_name_prefix() -> Seq<u8> {
    seq![95u8, 95u8, 114u8, 115u8, 109u8, 95u8]
}

/// Decimal writing has at least one digit, and more than one from 10 on.
pub proof fn lemma_decimal_len(n: nat)
    ensures
        decimal(n).len() >= 1,
        n >= 10 ==> decimal(n).len() >= 2,
    decreases n,
{
    if n >= 10 {
        lemma_decimal_len(n / 10);
    }
}

/// Different numbers are written differently in decimal.
pub proof fn lemma_decimal_injective(a: nat, b: nat)
    requires
        decimal(a) == decimal(b),
    ensures
        a == b,
    decreases a,
{
    lemma_decimal_len(a);
    lemma_decimal_len(b);
    if a < 10 && b < 10 {
        assert(decimal(a)[0] == decimal(b)[0]);
        assert(decimal(a)[0] == (48 + a) as u8);
        assert(decimal(b)[0] == (48 + b) as u8);
    } else if a >= 10 && b >= 10 {
        let da = decimal(a);
        let db = decimal(b);
        assert(da.last() == db.last());
        assert(da.drop_last() =~= decimal(a / 10));
        assert(db.drop_last() =~= decimal(b / 10));
        lemma_decimal_injective(a / 10, b / 10);
        assert(da.last() == (48 + a % 10) as u8);
        assert(db.last() == (48 + b % 10) as u8);
        assert(a % 10 == b % 10);
        assert(a == (a / 10) * 10 + a % 10);
        assert(b == (b / 10) * 10 + b % 10);
    } else {
        assert(decimal(a).len() != decimal(b).len());
    }
}

/// Distinct replicated state machines are stored in distinct trees: the
/// names of two different ids differ.
pub proof fn lemma_rsm_names_distinct(a: RsmId, b: RsmId)
    requires
        a != b,
    ensures
        rsm_name_prefix() + decimal(a as nat) != rsm_name_prefix() + decimal(b as nat),
{
    if rsm_name_prefix() + decimal(a as nat) == rsm_name_prefix() + decimal(b as nat) {
        let x = rsm_name_prefix() + decimal(a as nat);
        let y = rsm_name_prefix() + decimal(b as nat);
        assert(decimal(a as nat) =~= x.skip(6));
        assert(decimal(b as nat) =~= y.skip(6));
        lemma_decimal_injective(a as nat, b as nat);
    }
}

fn push_decimal(out: &mut Vec<u8>, n: u64)
    ensures
        final(out)@ == old(out)@ + decimal(n as nat),
    decreases n,
{
    if n >= 10 {
        push_decimal(out, n / 10);
    }
    let digit = (48 + n % 10) as u8;
    out.push(digit);
    proof {
        if n >= 10 {
            assert(old(out)@ + decimal(n as nat) =~= old(out)@ + decimal((n / 10) as nat) + seq![
                digit,
            ]);
        } else {
            assert(old(out)@ + decimal(n as nat) =~= old(out)@ + seq![digit]);
        }
    }
}

/// The name of the tree that holds the replicated state machine `id`:
/// `__rsm_` followed by `id` in decimal.
pub fn rsm_id_to_serialized_name(id: RsmId) -> (name: Vec<u8>)
    ensures
        name@ == rsm_name_prefix() + decimal(id as nat),
{
    let mut name: Vec<u8> = Vec::new();
    name.push(95u8);
    name.push(95u8);
    name.push(114u8);
    name.push(115u8);
    name.push(109u8);
    name.push(95u8);
    proof {
        assert(name@ =~= rsm_name_prefix());
    }
    push_decimal(&mut name, id);
    name
}

/// Whether `ids` are in increasing order.
pub open spec fn strictly_increasing(ids: Seq<RsmId>) -> bool {
    forall|i: int, j: int| 0 <= i < j < ids.len() ==> ids[i] < ids[j]
}

/// The ids of `dom` in increasing order.
pub open spec fn ordered(dom: Set<RsmId>) -> Seq<RsmId> {
    choose|ids: Seq<RsmId>| ids.to_set() == dom && strictly_increasing(ids)
}

/// A set of ids is listed in increasing order in one way only.
pub proof fn lemma_increasing_unique(s: Seq<RsmId>, t: Seq<RsmId>)
    requires
        strictly_increasing(s),
        strictly_increasing(t),
        s.to_set() == t.to_set(),
    ensures
        s == t,
    decreases s.len(),
{
    if s.len() == 0 {
        if t.len() > 0 {
            assert(t.to_set().contains(t[0]));
            assert(s.to_set().contains(t[0]));
        }
        assert(s =~= t);
    } else if t.len() == 0 {
        assert(s.to_set().contains(s[0]));
        assert(t.to_set().contains(s[0]));
    } else {
        let a = s.last();
        let b = t.last();
        assert(s.to_set().contains(a));
        assert(t.to_set().contains(a));
        let j = choose|j: int| 0 <= j < t.len() && t[j] == a;
        assert(a <= b) by {
            if j < t.len() - 1 {
                assert(t[j] < t[t.len() - 1]);
            }
        }
        assert(t.to_set().contains(b));
        assert(s.to_set().contains(b));
        let k = choose|k: int| 0 <= k < s.len() && s[k] == b;
        assert(b <= a) by {
            if k < s.len() - 1 {
                assert(s[k] < s[s.len() - 1]);
            }
        }
        let s1 = s.drop_last();
        let t1 = t.drop_last();
        assert(s1.to_set() =~= t1.to_set()) by {
            assert forall|x: RsmId| s1.to_set().contains(x) implies t1.to_set().contains(x) by {
                let i = choose|i: int| 0 <= i < s1.len() && s1[i] == x;
                assert(s[i] < a);
                assert(s.to_set().contains(x));
                assert(t.to_set().contains(x));
                let i2 = choose|i2: int| 0 <= i2 < t.len() && t[i2] == x;
                assert(i2 != t.len() - 1);
                assert(t1[i2] == x);
            }
            assert forall|x: RsmId| t1.to_set().contains(x) implies s1.to_set().contains(x) by {
                let i = choose|i: int| 0 <= i < t1.len() && t1[i] == x;
                assert(t[i] < b);
                assert(t.to_set().contains(x));
                assert(s.to_set().contains(x));
                let i2 = choose|i2: int| 0 <= i2 < s.len() && s[i2] == x;
                assert(i2 != s.len() - 1);
                assert(s1[i2] == x);
            }
        }
        lemma_increasing_unique(s1, t1);
        assert(s =~= t) by {
            assert(s =~= s1.push(a));
            assert(t =~= t1.push(b));
        }
    }
}

/// The ids of the hosted shard replicas, in increasing order.
fn sorted_ids(m: &BTreeMap<RsmId, Replica<Shard>>) -> (ids: Vec<RsmId>)
    ensures
        ids@.to_set() == m@.dom(),
        ids@.no_duplicates(),
        strictly_increasing(ids@),
        ids@ == ordered(m@.dom()),
{
    let mut ids: Vec<RsmId> = Vec::new();
    for k in it: m.keys()
        invariant
            ids@.len() == it.index(),
            forall|i: int| 0 <= i < it.index() ==> ids@[i] == *it.seq()[i],
    {
        ids.push(*k);
    }
    proof {
        let r = vstd::std_specs::iter::IteratorSpec::remaining(
            &vstd::std_specs::btree::spec_keys_iter(m),
        );
        assert(ids@ =~= r.unref());
        assert(vstd::laws_cmp::obeys_cmp::<&RsmId>());
        assert forall|i: int, j: int| 0 <= i < j < ids@.len() implies ids@[i] < ids@[j] by {
            assert(vstd::std_specs::cmp::OrdSpec::cmp_spec(&r[i], &r[j]) is Less);
        }
        lemma_increasing_unique(ids@, ordered(m@.dom()));
    }
    ids
}

/// The replicas one machine hosts: the coordinator's, if any, and one per
/// shard, by id.
pub struct MachineManager {
    coordinator: Option<Replica<Coordinator>>,
    rsms: BTreeMap<RsmId, Replica<Shard>>,
}

impl MachineManager {
    pub closed spec fn coordinator(&self) -> Option<Replica<Coordinator>> {
        self.coordinator
    }

    /// The shard replicas, by id.
    pub closed spec fn shards(&self) -> Map<RsmId, Replica<Shard>> {
        self.rsms@
    }

    pub open spec fn wf(&self) -> bool {
        &&& forall|id: RsmId| #[trigger] self.shards().contains_key(id) ==> self.shards()[id].wf()
        &&& self.coordinator() matches Some(c) ==> c.wf()
    }

    /// Whether the shard replica `id` is hosted here.
    pub open spec fn hosts(&self, id: RsmId) -> bool {
        self.shards().contains_key(id)
    }

    /// The shard replica `id`, when it is hosted here.
    pub open spec fn shard(&self, id: RsmId) -> Replica<Shard> {
        self.shards()[id]
    }

    /// A machine that hosts `coordinator`, if given, and no shard yet.
    pub fn new(coordinator: Option<Replica<Coordinator>>) -> (m: Self)
        requires
            coordinator matches Some(c) ==> c.wf(),
        ensures
            m.wf(),
            m.coordinator() == coordinator,
            m.shards() == Map::<RsmId, Replica<Shard>>::empty(),
    {
        MachineManager { coordinator, rsms: BTreeMap::new() }
    }

    /// Hosts `replica` as the shard replica `id`, in place of any replica
    /// hosted under that id before.
    pub fn insert_rsm(&mut self, id: RsmId, replica: Replica<Shard>)
        requires
            old(self).wf(),
            replica.wf(),
        ensures
            final(self).wf(),
            final(self).coordinator() == old(self).coordinator(),
            final(self).shards() == old(self).shards().insert(id, replica),
    {
        self.rsms.insert(id, replica);
        proof {
            assert forall|k: RsmId| #[trigger] self.shards().contains_key(k) implies self.shards()[
                k
            ].wf() by {
                if k != id {
                    assert(old(self).shards().contains_key(k));
                }
            }
        }
    }

    /// Whether `handle` can take `envelope` without failing: the replica it
    /// is for, if hosted here, must accept it.
    pub open spec fn handle_ok(&self, envelope: Envelope) -> bool {
        match envelope.message {
            Message::Shard(_) => self.hosts(envelope.to.id) ==> self.shard(envelope.to.id).accepts(
                envelope,
            ),
            Message::Coordinator(_) => self.coordinator() matches Some(c) ==> c.accepts(envelope),
        }
    }

    /// Routes `envelope` to the replica it is for: a shard message to the
    /// shard replica with the recipient's id, a coordinator message to the
    /// coordinator. A message for a replica not hosted here is dropped.
    pub fn handle(&mut self, envelope: Envelope, now: u64, expiration_ms: u64) -> (res: Vec<
        Envelope,
    >)
        requires
            old(self).wf(),
            deadline(now, expiration_ms) <= u64::MAX,
            old(self).handle_ok(envelope),
        ensures
            final(self).wf(),
            match envelope.message {
                Message::Shard(_) => if old(self).hosts(envelope.to.id) {
                    let id = envelope.to.id;
                    &&& final(self).coordinator() == old(self).coordinator()
                    &&& final(self).hosts(id)
                    &&& final(self).shards() == old(self).shards().insert(id, final(self).shard(id))
                    &&& old(self).shard(id).receive_step(
                        &final(self).shard(id),
                        res@,
                        envelope,
                        now,
                        expiration_ms,
                    )
                } else {
                    &&& final(self).coordinator() == old(self).coordinator()
                    &&& final(self).shards() == old(self).shards()
                    &&& res@.len() == 0
                },
                Message::Coordinator(_) => match old(self).coordinator() {
                    Some(c) => {
                        &&& final(self).shards() == old(self).shards()
                        &&& final(self).coordinator() matches Some(c2) && c.receive_step(
                            &c2,
                            res@,
                            envelope,
                            now,
                            expiration_ms,
                        )
                    },
                    None => {
                        &&& final(self).coordinator() == old(self).coordinator()
                        &&& final(self).shards() == old(self).shards()
                        &&& res@.len() == 0
                    },
                },
            },
    {
        let for_shard = match &envelope.message {
            Message::Shard(_) => true,
            Message::Coordinator(_) => false,
        };
        if for_shard {
            let id = envelope.to.id;
            match self.rsms.remove(&id) {
                Some(mut replica) => {
                    let res = replica.receive(envelope, now, expiration_ms);
                    self.rsms.insert(id, replica);
                    proof {
                        assert(self.rsms@ =~= old(self).rsms@.insert(id, replica));
                        assert forall|k: RsmId| #[trigger] self.shards().contains_key(k) implies self.shards()[
                            k
                        ].wf() by {
                            if k != id {
                                assert(old(self).shards().contains_key(k));
                            }
                        }
                    }
                    res
                },
                None => Vec::new(),
            }
        } else {
            let res = match &mut self.coordinator {
                Some(c) => c.receive(envelope, now, expiration_ms),
                None => Vec::new(),
            };
            proof {
                assert forall|k: RsmId| #[trigger] self.shards().contains_key(k) implies self.shards()[
                    k
                ].wf() by {
                    assert(old(self).shards().contains_key(k));
                }
            }
            res
        }
    }

    /// Computes `handle_ok`.
    pub fn handle_ok_exec(&self, envelope: &Envelope) -> (b: bool)
        requires
            self.wf(),
        ensures
            b == self.handle_ok(*envelope),
    {
        match &envelope.message {
            Message::Shard(_) => match self.rsms.get(&envelope.to.id) {
                Some(replica) => {
                    assert(self.shards().contains_key(envelope.to.id));
                    replica.accepts_envelope(envelope)
                },
                None => true,
            },
            Message::Coordinator(_) => match &self.coordinator {
                Some(c) => c.accepts_envelope(envelope),
                None => true,
            },
        }
    }

    /// Whether `cron` can run at `now` without failing: every hosted replica
    /// can.
    pub open spec fn cron_ok(&self, now: u64) -> bool {
        &&& self.coordinator() matches Some(c) ==> c.cron_ok(now)
        &&& forall|id: RsmId| #[trigger] self.hosts(id) ==> self.shard(id).cron_ok(now)
    }

    /// Computes `cron_ok`.
    pub fn cron_ok_exec(&self, now: u64) -> (b: bool)
        requires
            self.wf(),
        ensures
            b == self.cron_ok(now),
    {
        let coordinator_ok = match &self.coordinator {
            Some(c) => c.cron_ok_exec(now),
            None => true,
        };
        if !coordinator_ok {
            return false;
        }
        let ids = sorted_ids(&self.rsms);
        let n = ids.len();
        let mut i: usize = 0;
        while i < n
            invariant
                self.wf(),
                n == ids@.len(),
                ids@.to_set() == self.shards().dom(),
                i <= n,
                forall|k: int| 0 <= k < i ==> self.shard(#[trigger] ids@[k]).cron_ok(now),
            decreases n - i,
        {
            let id = ids[i];
            assert(ids@.to_set().contains(id));
            assert(self.shards().contains_key(id));
            let replica = self.rsms.get(&id).unwrap();
            if !replica.cron_ok_exec(now) {
                assert(self.hosts(id) && !self.shard(id).cron_ok(now));
                return false;
            }
            i = i + 1;
        }
        proof {
            assert forall|id: RsmId| #[trigger] self.hosts(id) implies self.shard(id).cron_ok(now) by {
                assert(ids@.to_set().contains(id));
                let k = choose|k: int| 0 <= k < ids@.len() && ids@[k] == id;
                assert(self.shard(ids@[k]).cron_ok(now));
            }
        }
        true
    }

    /// Whether handling `envelope` uses an election timeout: it does when the
    /// replica the envelope is for is hosted here and uses one on receiving
    /// it.
    pub fn handle_draws_timeout(&self, envelope: &Envelope) -> (b: bool)
        ensures
            b == match envelope.message {
                Message::Shard(_) => self.hosts(envelope.to.id) && self.shard(
                    envelope.to.id,
                ).draws_timeout_on(*envelope),
                Message::Coordinator(_) => self.coordinator() matches Some(c)
                    && c.draws_timeout_on(*envelope),
            },
    {
        match &envelope.message {
            Message::Shard(_) => match self.rsms.get(&envelope.to.id) {
                Some(replica) => replica.draws_timeout_on_exec(envelope),
                None => false,
            },
            Message::Coordinator(_) => match &self.coordinator {
                Some(c) => c.draws_timeout_on_exec(envelope),
                None => false,
            },
        }
    }

    /// For the coordinator first and then each shard replica in increasing
    /// order of id, whether its periodic step at `now` starts an election and
    /// so uses an election timeout. An absent coordinator starts none.
    pub fn elections_due(&self, now: u64) -> (flags: Vec<bool>)
        ensures
            flags@.len() == ordered(self.shards().dom()).len() + 1,
            flags@[0] == (self.coordinator() matches Some(c) && c.election_due(now)),
            forall|k: int|
                0 <= k < ordered(self.shards().dom()).len() ==> #[trigger] flags@[k + 1]
                    == self.shard(ordered(self.shards().dom())[k]).election_due(now),
    {
        let mut flags: Vec<bool> = Vec::new();
        let first = match &self.coordinator {
            Some(c) => c.is_election_due(now),
            None => false,
        };
        flags.push(first);
        let ids = sorted_ids(&self.rsms);
        let n = ids.len();
        let mut i: usize = 0;
        while i < n
            invariant
                n == ids@.len(),
                ids@ == ordered(self.shards().dom()),
                ids@.to_set() == self.shards().dom(),
                i <= n,
                flags@.len() == i + 1,
                flags@[0] == first,
                forall|k: int|
                    0 <= k < i ==> #[trigger] flags@[k + 1] == self.shard(ids@[k]).election_due(now),
            decreases n - i,
        {
            let id = ids[i];
            assert(ids@.to_set().contains(id));
            let replica = self.rsms.get(&id).unwrap();
            let due = replica.is_election_due(now);
            flags.push(due);
            i = i + 1;
        }
        flags
    }

    /// Runs the periodic step of the coordinator, then of every shard
    /// replica in increasing order of id, and returns all they send, in that
    /// order. `expirations` holds one election timeout per replica, in the
    /// same order (the coordinator's first, also when there is none); a
    /// replica whose step starts no election does not use its own.
    pub fn cron(&mut self, now: u64, expirations: &Vec<u64>) -> (res: Vec<Envelope>)
        requires
            old(self).wf(),
            expirations@.len() == ordered(old(self).shards().dom()).len() + 1,
            forall|k: int| 0 <= k < expirations@.len() ==> deadline(now, #[trigger] expirations@[k]) <= u64::MAX,
            old(self).cron_ok(now),
        ensures
            final(self).wf(),
            final(self).shards().dom() == old(self).shards().dom(),
            exists|parts: Seq<Seq<Envelope>>|
                #![trigger parts.flatten()]
                {
                    let ids = ordered(old(self).shards().dom());
                    &&& parts.len() == ids.len() + 1
                    &&& res@ == parts.flatten()
                    &&& match old(self).coordinator() {
                        Some(c) => final(self).coordinator() matches Some(c2) && c.cron_step(
                            &c2,
                            parts[0],
                            now,
                            expirations@[0],
                        ),
                        None => final(self).coordinator() is None && parts[0].len() == 0,
                    }
                    &&& forall|k: int|
                        0 <= k < ids.len() ==> old(self).shard(ids[k]).cron_step(
                            &final(self).shard(ids[k]),
                            #[trigger] parts[k + 1],
                            now,
                            expirations@[k + 1],
                        )
                },
    {
        let ids = sorted_ids(&self.rsms);
        let n = ids.len();
        assert(deadline(now, expirations@[0]) <= u64::MAX);
        let mut out = match &mut self.coordinator {
            Some(c) => c.cron(now, expirations[0]),
            None => Vec::new(),
        };
        let ghost coord_sent = out@;
        let ghost mut parts: Seq<Seq<Envelope>> = seq![out@];
        let ghost before = self.rsms@;
        let ghost coordinator_after = self.coordinator;
        proof {
            parts.lemma_flatten_one_element();
            assert forall|id: RsmId| #[trigger] self.rsms@.contains_key(id) implies self.rsms@[id].wf() by {
                assert(old(self).shards().contains_key(id));
            }
            assert forall|id: RsmId| #[trigger] before.contains_key(id) implies before[id].cron_ok(now) by {
                assert(old(self).hosts(id));
            }
        }
        let mut i: usize = 0;
        while i < n
            invariant
                n == ids@.len(),
                ids@ == ordered(before.dom()),
                expirations@.len() == n + 1,
                forall|k: int| 0 <= k < expirations@.len() ==> deadline(now, #[trigger] expirations@[k]) <= u64::MAX,
                ids@.to_set() == before.dom(),
                ids@.no_duplicates(),
                strictly_increasing(ids@),
                i <= n,
                before == old(self).shards(),
                self.coordinator == coordinator_after,
                coordinator_after matches Some(c) ==> c.wf(),
                self.rsms@.dom() == before.dom(),
                forall|id: RsmId| #[trigger] self.rsms@.contains_key(id) ==> self.rsms@[id].wf(),
                forall|k: int| i <= k < n ==> self.rsms@[#[trigger] ids@[k]] == before[ids@[k]],
                forall|id: RsmId| #[trigger] before.contains_key(id) ==> before[id].cron_ok(now),
                parts.len() == i + 1,
                parts[0] == coord_sent,
                match old(self).coordinator() {
                    Some(c) => coordinator_after matches Some(c2) && c.cron_step(
                        &c2,
                        coord_sent,
                        now,
                        expirations@[0],
                    ),
                    None => coordinator_after is None && coord_sent.len() == 0,
                },
                out@ == parts.flatten(),
                forall|k: int|
                    0 <= k < i ==> before[ids@[k]].cron_step(
                        &self.rsms@[ids@[k]],
                        #[trigger] parts[k + 1],
                        now,
                        expirations@[k + 1],
                    ),
            decreases n - i,
        {
            let id = ids[i];
            let ghost prev = self.rsms@;
            proof {
                assert(ids@.to_set().contains(id));
                assert(self.rsms@[ids@[i as int]] == before[ids@[i as int]]);
            }
            let mut replica = self.rsms.remove(&id).unwrap();
            assert(deadline(now, expirations@[i + 1]) <= u64::MAX);
            let mut sent = replica.cron(now, expirations[i + 1]);
            let ghost sent_seq = sent@;
            self.rsms.insert(id, replica);
            out.append(&mut sent);
            proof {
                assert(self.rsms@ =~= prev.insert(id, replica));
                let parts0 = parts;
                parts0.lemma_flatten_push(sent_seq);
                parts = parts0.push(sent_seq);
                assert forall|k: int| 0 <= k < i + 1 implies before[ids@[k]].cron_step(
                    &self.rsms@[ids@[k]],
                    #[trigger] parts[k + 1],
                    now,
                    expirations@[k + 1],
                ) by {
                    if k < i {
                        assert(parts[k + 1] == parts0[k + 1]);
                        assert(ids@[k] != id);
                        assert(self.rsms@[ids@[k]] == prev[ids@[k]]);
                    }
                }
                assert forall|k: int| i + 1 <= k < n implies self.rsms@[#[trigger] ids@[k]]
                    == before[ids@[k]] by {
                    assert(ids@[k] != id);
                }
                assert(self.rsms@.dom() =~= before.dom());
            }
            i = i + 1;
        }
        out
    }
}

} // verus!
