// Copyright 2023 Memgraph Ltd.
//
// Use of this software is governed by the Business Source License
// included in the file licenses/BSL.txt; by using this file, you agree to be bound by the terms of the Business Source
// License, and you may not use this file except in compliance with the Business Source License.
//
// As of the Change Date specified in that file, in accordance with
// the Business Source License, use of this software will be governed
// by the Apache License, Version 2.0, included in the file
// licenses/APL.txt.

//! The state of a deterministic network simulator: who waits for which
//! message, what has been sent but not taken yet, and the simulated clock.
//!
//! The state decides where each envelope goes; it does not deliver. Where a
//! method returns a waiting party's sender together with an envelope, the
//! caller hands the envelope to that sender. Senders of envelopes are of
//! type `S`, senders of timer wake-ups of type `T`.
use vstd::prelude::*;

use std::collections::BTreeMap;

use crate::net::{Address, Envelope};
use crate::vecmap::{KeyEq, VecMap};

verus! {

broadcast use {
    vstd::std_specs::btree::group_btree_axioms,
    vstd::laws_cmp::group_laws_cmp,
};

#[verifier::external_type_specification]
#[verifier::external_body]
pub struct ExChaCha8Rng(rand_chacha::ChaCha8Rng);

/// The generator that `rand_chacha::ChaCha8Rng::from_seed` builds from the
/// 32 bytes `seed`.
pub uninterp spec fn chacha8_from_seed(seed: Seq<u8>) -> rand_chacha::ChaCha8Rng;

/// The 32 zero bytes the simulation seeds its generator with.
pub open spec fn zero_seed() -> Seq<u8> {
    Seq::new(32, |i: int| 0u8)
}

/// `rand_core::SeedableRng::from_seed` for `rand_chacha::ChaCha8Rng`: the
/// generator it builds is a function of the seed alone, named
/// `chacha8_from_seed`. Nothing else is claimed of it.
#[verifier::external_body]
fn seeded_rng(seed: [u8; 32]) -> (r: rand_chacha::ChaCha8Rng)
    ensures
        r == chacha8_from_seed(seed@),
{
    <rand_chacha::ChaCha8Rng as rand::SeedableRng>::from_seed(seed)
}

/// What `rand::Rng::gen_range` on `low..high` does with a
/// `rand_chacha::ChaCha8Rng` in the state `rng`: the value drawn, and the
/// generator's state after the draw. Both are functions of the state and the
/// range alone.
pub uninterp spec fn chacha8_gen_range(
    rng: rand_chacha::ChaCha8Rng,
    low: u64,
    high: u64,
) -> (u64, rand_chacha::ChaCha8Rng);

/// `rand::Rng::gen_range` on `low..high`: rand documents that it returns a
/// value of the range and panics when the range is empty. The value drawn
/// and the generator's new state are those named by `chacha8_gen_range` for
/// the generator's state before the call; which value that is, is not
/// claimed beyond its range.
#[verifier::external_body]
fn gen_range(rng: &mut rand_chacha::ChaCha8Rng, low: u64, high: u64) -> (r: u64)
    requires
        low < high,
    ensures
        low <= r < high,
        r == chacha8_gen_range(*old(rng), low, high).0,
        *final(rng) == chacha8_gen_range(*old(rng), low, high).1,
{
    rand::Rng::gen_range(rng, low..high)
}

/// A pending request: the requester's address and the request id.
#[derive(Debug, Clone, Copy, PartialEq, Eq, Structural, PartialOrd, Ord, Hash)]
pub struct RequestKey {
    pub address: Address,
    pub request_id: u64,
}

impl KeyEq for RequestKey {
    fn eq_key(&self, other: &Self) -> (b: bool) {
        *self == *other
    }
}

/// The simulated network: the clock, who waits for what, and what waits to
/// be taken.
pub struct SimulatorState<S, T> {
    should_shutdown: bool,
    /// The simulated clock, in microseconds.
    now_us: u64,
    /// Timers, keyed by deadline and a unique id.
    timers: BTreeMap<(u64, u64), T>,
    /// Who waits to receive, by address: the deadline and the sender.
    receivers: VecMap<Address, (u64, S)>,
    /// Who waits for the answer to a request, by requester's address and
    /// request id: the deadline and the sender.
    requests: VecMap<RequestKey, (u64, S)>,
    /// Envelopes sent to an address that nobody took yet, oldest first.
    can_receive: VecMap<Address, Vec<Envelope>>,
    rng: rand_chacha::ChaCha8Rng,
    /// How many servers the simulation waits for before the clock moves.
    server_count: usize,
}

impl<S, T> SimulatorState<S, T> {
    pub closed spec fn shutting_down(&self) -> bool {
        self.should_shutdown
    }

    /// The simulated clock, in microseconds.
    pub closed spec fn clock(&self) -> u64 {
        self.now_us
    }

    pub closed spec fn servers(&self) -> usize {
        self.server_count
    }

    /// The simulation's random number generator.
    pub closed spec fn generator(&self) -> rand_chacha::ChaCha8Rng {
        self.rng
    }

    /// The timers, keyed by deadline and unique id.
    pub closed spec fn timers(&self) -> Map<(u64, u64), T> {
        self.timers@
    }

    pub closed spec fn receivers(&self) -> Map<Address, (u64, S)> {
        self.receivers@
    }

    pub closed spec fn requests(&self) -> Map<RequestKey, (u64, S)> {
        self.requests@
    }

    pub closed spec fn can_receive(&self) -> Map<Address, Vec<Envelope>> {
        self.can_receive@
    }

    /// The envelopes waiting at `address`, oldest first.
    pub open spec fn waiting(&self, address: Address) -> Seq<Envelope> {
        if self.can_receive().contains_key(address) {
            self.can_receive()[address]@
        } else {
            Seq::empty()
        }
    }

    pub closed spec fn wf(&self) -> bool {
        &&& self.receivers.wf()
        &&& self.requests.wf()
        &&& self.can_receive.wf()
    }

    /// The clock, the flag, the server count and the generator are as in
    /// `other`.
    pub open spec fn same_scalars(&self, other: &Self) -> bool {
        &&& self.generator() == other.generator()
        &&& self.shutting_down() == other.shutting_down()
        &&& self.clock() == other.clock()
        &&& self.servers() == other.servers()
    }

    /// A simulation at time 0 with one server, nothing pending, and a
    /// generator seeded with zeros.
    pub fn new() -> (s: Self)
        ensures
            s.wf(),
            !s.shutting_down(),
            s.clock() == 0,
            s.servers() == 1,
            s.timers() == Map::<(u64, u64), T>::empty(),
            s.receivers() == Map::<Address, (u64, S)>::empty(),
            s.requests() == Map::<RequestKey, (u64, S)>::empty(),
            s.can_receive() == Map::<Address, Vec<Envelope>>::empty(),
            s.generator() == chacha8_from_seed(zero_seed()),
    {
        let seed: [u8; 32] = [0u8; 32];
        proof {
            assert(seed@.len() == 32);
            assert forall|i: int| 0 <= i < 32 implies seed@[i] == 0u8 by {
                vstd::array::axiom_spec_array_fill_for_copy_type::<u8, 32>(0u8);
            }
            assert(seed@ =~= zero_seed());
        }
        SimulatorState {
            should_shutdown: false,
            now_us: 0,
            timers: BTreeMap::new(),
            receivers: VecMap::new(),
            requests: VecMap::new(),
            can_receive: VecMap::new(),
            rng: seeded_rng(seed),
            server_count: 1,
        }
    }

    pub fn now(&self) -> (t: u64)
        ensures
            t == self.clock(),
    {
        self.now_us
    }

    pub fn should_shutdown(&self) -> (b: bool)
        ensures
            b == self.shutting_down(),
    {
        self.should_shutdown
    }

    /// Asks every party to shut down.
    pub fn shutdown(&mut self)
        requires
            old(self).wf(),
        ensures
            final(self).wf(),
            final(self).shutting_down(),
            final(self).generator() == old(self).generator(),
            final(self).clock() == old(self).clock(),
            final(self).servers() == old(self).servers(),
            final(self).timers() == old(self).timers(),
            final(self).receivers() == old(self).receivers(),
            final(self).requests() == old(self).requests(),
            final(self).can_receive() == old(self).can_receive(),
    {
        self.should_shutdown = true;
    }

    /// Whether every server waits to receive.
    pub open spec fn is_quiescent(&self) -> bool {
        self.receivers().dom().len() == self.servers()
    }

    pub fn quiescent(&self) -> (b: bool)
        requires
            self.wf(),
        ensures
            b == self.is_quiescent(),
    {
        self.receivers.len() == self.server_count
    }

    /// When every server waits, advances the clock by a millisecond and
    /// gives up on every receive and request whose deadline has come.
    /// Otherwise does nothing.
    pub fn maybe_tick(&mut self)
        requires
            old(self).wf(),
            old(self).clock() + 1000 <= u64::MAX,
        ensures
            final(self).wf(),
            final(self).shutting_down() == old(self).shutting_down(),
            final(self).servers() == old(self).servers(),
            final(self).generator() == old(self).generator(),
            final(self).timers() == old(self).timers(),
            final(self).can_receive() == old(self).can_receive(),
            if old(self).is_quiescent() {
                let now = (old(self).clock() + 1000) as u64;
                &&& final(self).clock() == now
                &&& final(self).receivers() == Map::new(
                    |a: Address| old(self).receivers().contains_key(a) && old(self).receivers()[a].0
                        > now,
                    |a: Address| old(self).receivers()[a],
                )
                &&& final(self).requests() == Map::new(
                    |k: RequestKey| old(self).requests().contains_key(k)
                        && old(self).requests()[k].0 > now,
                    |k: RequestKey| old(self).requests()[k],
                )
            } else {
                &&& final(self).clock() == old(self).clock()
                &&& final(self).receivers() == old(self).receivers()
                &&& final(self).requests() == old(self).requests()
            },
    {
        if !self.quiescent() {
            return;
        }
        self.now_us = self.now_us + 1000;
        self.receivers.retain_later_than(self.now_us);
        self.requests.retain_later_than(self.now_us);
    }

    fn enqueue(&mut self, envelope: Envelope)
        requires
            old(self).wf(),
        ensures
            final(self).wf(),
            final(self).same_scalars(&*old(self)),
            final(self).timers() == old(self).timers(),
            final(self).receivers() == old(self).receivers(),
            final(self).requests() == old(self).requests(),
            final(self).can_receive().dom() == old(self).can_receive().dom().insert(envelope.to),
            final(self).waiting(envelope.to) == old(self).waiting(envelope.to).push(envelope),
            forall|a: Address|
                a != envelope.to ==> #[trigger] final(self).can_receive().contains_key(a)
                    == old(self).can_receive().contains_key(a) && final(self).waiting(a)
                    == old(self).waiting(a),
    {
        let to = envelope.to;
        let mut queue = match self.can_receive.remove(&to) {
            Some(q) => q,
            None => Vec::new(),
        };
        queue.push(envelope);
        self.can_receive.insert(to, queue);
        proof {
            assert(self.can_receive@.dom() =~= old(self).can_receive@.dom().insert(to));
        }
    }

    /// Routes `envelope`. A matching request of its recipient takes it
    /// first; otherwise a receiver waiting at the recipient's address takes
    /// it; otherwise it waits there. Returns the sender to deliver it to, if
    /// someone took it.
    pub fn send(&mut self, envelope: Envelope) -> (r: Option<(S, Envelope)>)
        requires
            old(self).wf(),
        ensures
            final(self).wf(),
            final(self).same_scalars(&*old(self)),
            final(self).timers() == old(self).timers(),
            old(self).send_step(&*final(self), envelope, r),
    {
        match envelope.request_id {
            Some(request_id) => {
                match self.requests.remove(&RequestKey { address: envelope.to, request_id }) {
                    Some((_timeout, sender)) => {
                        return Some((sender, envelope));
                    },
                    None => {},
                }
            },
            None => {},
        }
        match self.receivers.remove(&envelope.to) {
            Some((_timeout, sender)) => Some((sender, envelope)),
            None => {
                self.enqueue(envelope);
                None
            },
        }
    }

    /// What `send` does with `envelope`, besides leaving the clock and the
    /// timers alone.
    pub open spec fn send_step(
        &self,
        after: &Self,
        envelope: Envelope,
        r: Option<(S, Envelope)>,
    ) -> bool {
        let to = envelope.to;
        if envelope.request_id is Some && self.requests().contains_key(
            RequestKey { address: to, request_id: envelope.request_id->0 },
        ) {
            let key = RequestKey { address: to, request_id: envelope.request_id->0 };
            &&& r == Some((self.requests()[key].1, envelope))
            &&& after.requests() == self.requests().remove(key)
            &&& after.receivers() == self.receivers()
            &&& after.can_receive() == self.can_receive()
        } else if self.receivers().contains_key(to) {
            &&& r == Some((self.receivers()[to].1, envelope))
            &&& after.requests() == self.requests()
            &&& after.receivers() == self.receivers().remove(to)
            &&& after.can_receive() == self.can_receive()
        } else {
            &&& r is None
            &&& after.requests() == self.requests()
            &&& after.receivers() == self.receivers()
            &&& after.can_receive().dom() == self.can_receive().dom().insert(to)
            &&& after.waiting(to) == self.waiting(to).push(envelope)
            &&& forall|a: Address|
                a != to ==> #[trigger] after.can_receive().contains_key(a)
                    == self.can_receive().contains_key(a) && after.waiting(a) == self.waiting(a)
        }
    }

    /// Waits at `receiver_address` for an envelope, `timeout` microseconds at
    /// most. When an envelope waits there, the most recent one is handed to
    /// `sender` at once; otherwise `sender` waits there, in place of any
    /// receiver waiting there before.
    pub fn receive(&mut self, timeout: u64, receiver_address: Address, sender: S) -> (r: Option<
        (S, Envelope),
    >)
        requires
            old(self).wf(),
            old(self).clock() + timeout <= u64::MAX,
        ensures
            final(self).wf(),
            final(self).same_scalars(&*old(self)),
            final(self).timers() == old(self).timers(),
            final(self).requests() == old(self).requests(),
            old(self).receive_step(&*final(self), timeout, receiver_address, sender, r),
    {
        match self.can_receive.remove(&receiver_address) {
            Some(mut queue) => {
                if queue.len() > 0 {
                    let envelope = queue.pop().unwrap();
                    self.can_receive.insert(receiver_address, queue);
                    return Some((sender, envelope));
                }
                self.can_receive.insert(receiver_address, queue);
            },
            None => {},
        }
        let deadline = timeout + self.now_us;
        self.receivers.insert(receiver_address, (deadline, sender));
        proof {
            assert(self.can_receive@ =~= old(self).can_receive@);
        }
        None
    }

    /// What `receive` does, besides leaving the clock, the timers and the
    /// requests alone.
    pub open spec fn receive_step(
        &self,
        after: &Self,
        timeout: u64,
        receiver_address: Address,
        sender: S,
        r: Option<(S, Envelope)>,
    ) -> bool {
        let q = self.waiting(receiver_address);
        if q.len() > 0 {
            &&& r == Some((sender, q.last()))
            &&& after.receivers() == self.receivers()
            &&& after.can_receive().dom() == self.can_receive().dom()
            &&& after.waiting(receiver_address) == q.drop_last()
            &&& forall|a: Address|
                a != receiver_address ==> #[trigger] after.waiting(a) == self.waiting(a)
        } else {
            &&& r is None
            &&& after.receivers() == self.receivers().insert(
                receiver_address,
                ((self.clock() + timeout) as u64, sender),
            )
            &&& after.can_receive() == self.can_receive()
        }
    }

    /// Sets a timer that fires `duration` microseconds from now, under the
    /// unique id `unique_id`.
    pub fn timer(&mut self, duration: u64, unique_id: u64, sender: T)
        requires
            old(self).wf(),
            old(self).clock() + duration <= u64::MAX,
        ensures
            final(self).wf(),
            final(self).same_scalars(&*old(self)),
            final(self).receivers() == old(self).receivers(),
            final(self).requests() == old(self).requests(),
            final(self).can_receive() == old(self).can_receive(),
            final(self).timers() == old(self).timers().insert(
                ((old(self).clock() + duration) as u64, unique_id),
                sender,
            ),
    {
        let deadline = duration + self.now_us;
        self.timers.insert((deadline, unique_id), sender);
    }

    /// Whether a request can be registered: it must carry a request id that
    /// its sender has no request pending under.
    pub open spec fn request_ok(&self, request_envelope: Envelope) -> bool {
        &&& request_envelope.request_id is Some
        &&& !self.requests().contains_key(
            RequestKey {
                address: request_envelope.from,
                request_id: request_envelope.request_id->0,
            },
        )
    }

    /// Computes `request_ok`.
    pub fn request_ok_exec(&self, request_envelope: &Envelope) -> (b: bool)
        requires
            self.wf(),
        ensures
            b == self.request_ok(*request_envelope),
    {
        match request_envelope.request_id {
            Some(id) => !self.requests.contains_key(
                &RequestKey { address: request_envelope.from, request_id: id },
            ),
            None => false,
        }
    }

    /// What `request` does, besides leaving the clock and the timers alone.
    pub open spec fn request_step(
        &self,
        after: &Self,
        timeout: u64,
        request_envelope: Envelope,
        sender: S,
        r: Option<(S, Envelope)>,
    ) -> bool {
        &&& after.requests() == self.requests().insert(
            RequestKey {
                address: request_envelope.from,
                request_id: request_envelope.request_id->0,
            },
            ((self.clock() + timeout) as u64, sender),
        )
        &&& if self.receivers().contains_key(request_envelope.to) {
            &&& r == Some((self.receivers()[request_envelope.to].1, request_envelope))
            &&& after.receivers() == self.receivers().remove(request_envelope.to)
            &&& after.can_receive() == self.can_receive()
        } else {
            let to = request_envelope.to;
            &&& r is None
            &&& after.receivers() == self.receivers()
            &&& after.can_receive().dom() == self.can_receive().dom().insert(to)
            &&& after.waiting(to) == self.waiting(to).push(request_envelope)
            &&& forall|a: Address|
                a != to ==> #[trigger] after.can_receive().contains_key(a)
                    == self.can_receive().contains_key(a) && after.waiting(a) == self.waiting(a)
        }
    }

    /// Sends a request and waits for its answer, `timeout` microseconds at
    /// most: `sender` waits for an envelope to the requester with the same
    /// request id. The request goes to a receiver waiting at its recipient's
    /// address, if there is one, and otherwise waits there.
    pub fn request(&mut self, timeout: u64, request_envelope: Envelope, sender: S) -> (r: Option<
        (S, Envelope),
    >)
        requires
            old(self).wf(),
            old(self).clock() + timeout <= u64::MAX,
            old(self).request_ok(request_envelope),
        ensures
            final(self).wf(),
            final(self).same_scalars(&*old(self)),
            final(self).timers() == old(self).timers(),
            old(self).request_step(&*final(self), timeout, request_envelope, sender, r),
    {
        let deadline = timeout + self.now_us;
        let request_id = match request_envelope.request_id {
            Some(id) => id,
            None => 0,
        };
        let key = RequestKey { address: request_envelope.from, request_id };
        self.requests.insert(key, (deadline, sender));
        match self.receivers.remove(&request_envelope.to) {
            Some((_timeout, rx_sender)) => Some((rx_sender, request_envelope)),
            None => {
                self.enqueue(request_envelope);
                None
            },
        }
    }

    /// A number drawn from the simulation's generator, at least `low` and
    /// below `high`: the draw that `chacha8_gen_range` names for the
    /// generator's state, which moves on to the state after that draw.
    pub fn rand(&mut self, low: u64, high: u64) -> (r: u64)
        requires
            old(self).wf(),
            low < high,
        ensures
            final(self).wf(),
            final(self).shutting_down() == old(self).shutting_down(),
            final(self).clock() == old(self).clock(),
            final(self).servers() == old(self).servers(),
            final(self).timers() == old(self).timers(),
            final(self).receivers() == old(self).receivers(),
            final(self).requests() == old(self).requests(),
            final(self).can_receive() == old(self).can_receive(),
            low <= r < high,
            r == chacha8_gen_range(old(self).generator(), low, high).0,
            final(self).generator() == chacha8_gen_range(old(self).generator(), low, high).1,
    {
        gen_range(&mut self.rng, low, high)
    }
}

/// A receive finds nothing waiting exactly when nothing was queued for the
/// address; then the receiver waits there with its sender until the clock at
/// the call plus the timeout, and the clock itself does not move.
pub proof fn lemma_receiver_waits_until_clock_plus_timeout<S, T>(
    before: SimulatorState<S, T>,
    after: SimulatorState<S, T>,
    timeout: u64,
    receiver_address: Address,
    sender: S,
    r: Option<(S, Envelope)>,
)
    requires
        before.receive_step(&after, timeout, receiver_address, sender, r),
        before.clock() + timeout <= u64::MAX,
    ensures
        r is None <==> before.waiting(receiver_address).len() == 0,
        r is None ==> after.receivers().contains_key(receiver_address)
            && after.receivers()[receiver_address].0 == before.clock() + timeout
            && after.receivers()[receiver_address].1 == sender,
{
}

/// A registered request waits for its answer, under its sender's address
/// and request id, until the clock at the call plus the timeout.
pub proof fn lemma_request_waits_until_clock_plus_timeout<S, T>(
    before: SimulatorState<S, T>,
    after: SimulatorState<S, T>,
    timeout: u64,
    request_envelope: Envelope,
    sender: S,
    r: Option<(S, Envelope)>,
)
    requires
        before.request_step(&after, timeout, request_envelope, sender, r),
        before.clock() + timeout <= u64::MAX,
        request_envelope.request_id is Some,
    ensures
        ({
            let key = RequestKey {
                address: request_envelope.from,
                request_id: request_envelope.request_id->0,
            };
            &&& after.requests().contains_key(key)
            &&& after.requests()[key].0 == before.clock() + timeout
            &&& after.requests()[key].1 == sender
        }),
{
}

/// Simulations are deterministic in their draws: two simulations whose
/// generators are in the same state, as two fresh ones are, draw the same
/// value from the same range and leave their generators in the same state.
pub proof fn lemma_same_generator_same_draw<S, T>(
    a: SimulatorState<S, T>,
    b: SimulatorState<S, T>,
    low: u64,
    high: u64,
)
    requires
        a.generator() == chacha8_from_seed(zero_seed()),
        b.generator() == chacha8_from_seed(zero_seed()),
    ensures
        chacha8_gen_range(a.generator(), low, high) == chacha8_gen_range(b.generator(), low, high),
{
}

impl<S, T> Default for SimulatorState<S, T> {
    /// The same as `new`.
    fn default() -> (s: Self)
        ensures
            s.wf(),
            !s.shutting_down(),
            s.clock() == 0,
            s.servers() == 1,
            s.timers() == Map::<(u64, u64), T>::empty(),
            s.receivers() == Map::<Address, (u64, S)>::empty(),
            s.requests() == Map::<RequestKey, (u64, S)>::empty(),
            s.can_receive() == Map::<Address, Vec<Envelope>>::empty(),
            s.generator() == chacha8_from_seed(zero_seed()),
    {
        Self::new()
    }
}

/// An answer reaches the request it answers: once a request is registered,
/// an envelope to the requester with the same request id goes to the
/// request's sender.
pub proof fn lemma_answer_reaches_request<S, T>(
    s0: SimulatorState<S, T>,
    s1: SimulatorState<S, T>,
    s2: SimulatorState<S, T>,
    timeout: u64,
    request_envelope: Envelope,
    sender: S,
    forwarded: Option<(S, Envelope)>,
    answer: Envelope,
    delivered: Option<(S, Envelope)>,
)
    requires
        s0.request_ok(request_envelope),
        s0.request_step(&s1, timeout, request_envelope, sender, forwarded),
        answer.to == request_envelope.from,
        answer.request_id == request_envelope.request_id,
        s1.send_step(&s2, answer, delivered),
    ensures
        delivered == Some((sender, answer)),
{
    let key = RequestKey {
        address: request_envelope.from,
        request_id: request_envelope.request_id->0,
    };
    assert(s1.requests().contains_key(key));
}

/// Delivery keeps order at an address: when nobody waits at the recipient
/// and no request waits for it, a sent envelope is the next one that a
/// receive at the recipient takes.
pub proof fn lemma_send_then_receive<S, T>(
    s0: SimulatorState<S, T>,
    s1: SimulatorState<S, T>,
    s2: SimulatorState<S, T>,
    envelope: Envelope,
    sent: Option<(S, Envelope)>,
    timeout: u64,
    sender: S,
    received: Option<(S, Envelope)>,
)
    requires
        s0.send_step(&s1, envelope, sent),
        sent is None,
        s1.receive_step(&s2, timeout, envelope.to, sender, received),
    ensures
        received == Some((sender, envelope)),
        s2.waiting(envelope.to) == s0.waiting(envelope.to),
{
    assert(s1.waiting(envelope.to).last() == envelope);
    assert(s1.waiting(envelope.to).drop_last() =~= s0.waiting(envelope.to));
}

} // verus!
