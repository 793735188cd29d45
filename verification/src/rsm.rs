// Copyright 2023 Memgraph Ltd.
//
// Use of this software is governed by the Business Source License
// included in the file licenses/BSL.txt; by using this file, you agree to be bound by the terms of the Business Source
// License, and you may not use this file except in compliance with the Business Source License.
//
// As of the Change Date specified in that file, in accordance with
// the Business Source License, use of this software will be governed
// by the Apache License, Version 2.0, included in the file
// licenses/APL.txt.

//! A replicated state machine: a Raft-style replica that keeps a log of
//! write requests, elects a leader among its peers, and applies the
//! committed prefix of the log to the machine's state.
//!
//! The replica decides; it does no I/O. Each handler takes what the
//! environment observed (the current time, in microseconds since the Unix
//! epoch, and a randomly drawn election timeout, in milliseconds) and
//! returns the envelopes to send.
use vstd::prelude::*;

use crate::net::{Address, Envelope, Message, RsmId};
use std::collections::HashMap;

use crate::vecmap::{keys_of, VecMap};

verus! {

broadcast use vstd::std_specs::hash::group_hash_axioms;

/// A state machine that can be replicated. Reads see the state; writes
/// change it. `wrap` and `unwrap` put the machine's messages into the
/// cluster-wide `Message` and take them out again.
pub trait Rsm: Sized {
    type ReadReq: Clone + core::fmt::Debug;
    type ReadRes: Clone + core::fmt::Debug;
    type WriteReq: Clone + core::fmt::Debug;
    type WriteRes: Clone + core::fmt::Debug;

    /// What a read of `request` answers in this state.
    spec fn read_result(&self, request: Self::ReadReq) -> Self::ReadRes;

    /// Whether the machine can apply `request` at all.
    spec fn write_accepted(request: Self::WriteReq) -> bool;

    /// The state after applying `request`, and the answer.
    spec fn write_result(self, request: Self::WriteReq) -> (Self, Self::WriteRes);

    spec fn wrap_message(msg: RsmMessage<Self>) -> Message;

    spec fn unwrap_message(msg: Message) -> Result<RsmMessage<Self>, Message>;

    fn read(&self, request: Self::ReadReq) -> (res: Self::ReadRes)
        ensures
            res == self.read_result(request),
    ;

    fn write(&mut self, request: &Self::WriteReq) -> (res: Self::WriteRes)
        requires
            Self::write_accepted(*request),
        ensures
            (*final(self), res) == old(self).write_result(*request),
    ;

    fn wrap(msg: RsmMessage<Self>) -> (m: Message)
        ensures
            m == Self::wrap_message(msg),
    ;

    fn unwrap(msg: Message) -> (r: Result<RsmMessage<Self>, Message>)
        ensures
            r == Self::unwrap_message(msg),
    ;

    /// Whether the machine can apply `request`, computed.
    fn accepts_write(request: &Self::WriteReq) -> (b: bool)
        ensures
            b == Self::write_accepted(*request),
    ;

    /// The machine's own message inside `msg`, if `msg` carries one.
    fn peek(msg: &Message) -> (r: Option<&RsmMessage<Self>>)
        ensures
            match Self::unwrap_message(*msg) {
                Ok(inner) => r == Some(&inner),
                Err(_) => r is None,
            },
    ;

    /// An exact copy of a write request.
    fn clone_write_req(request: &Self::WriteReq) -> (r: Self::WriteReq)
        ensures
            r == *request,
    ;

    /// Unwrapping a wrapped message gives it back.
    proof fn lemma_unwrap_wrap(msg: RsmMessage<Self>)
        ensures
            Self::unwrap_message(Self::wrap_message(msg)) == Ok::<RsmMessage<Self>, Message>(msg),
    ;

    /// Unwrapping either takes out a message that wraps back to the same
    /// one, or hands the message back unchanged.
    proof fn lemma_wrap_unwrap(msg: Message)
        ensures
            match Self::unwrap_message(msg) {
                Ok(inner) => Self::wrap_message(inner) == msg,
                Err(other) => other == msg,
            },
    ;
}

#[derive(Debug, Clone, Copy, PartialEq, Eq, Structural, PartialOrd, Ord, Hash)]
pub struct Term(pub u64);

impl Term {
    /// The next term.
    #[must_use]
    pub fn increment(&self) -> (t: Term)
        requires
            self.0 < u64::MAX,
        ensures
            t.0 == self.0 + 1,
    {
        Term(self.0 + 1)
    }
}

#[derive(Debug, Clone)]
pub enum RsmMessage<R: Rsm> {
    AppendReq(AppendReq<R::WriteReq>),
    AppendRes(AppendRes),
    ReadReq(R::ReadReq),
    ReadRes(R::ReadRes),
    WriteReq(R::WriteReq),
    WriteRes(R::WriteRes),
    VoteReq {
        proposed_leadership_term: Term,
        last_log_term: Option<Term>,
        committed_log_size: u64,
    },
    VoteRes { success: bool, term: Term, committed_log_size: u64 },
    Redirect { leader: Address, term: Term },
}

#[derive(Debug, Clone)]
pub struct AppendReq<Req> {
    pub term: Term,
    pub batch_start_log_index: u64,
    pub last_log_term: Option<Term>,
    pub entries: Vec<(Term, Req)>,
    pub leader_committed_log_size: u64,
}

#[derive(Debug, Clone, Copy, PartialEq, Eq, Structural)]
pub struct AppendRes {
    pub term: Term,
    pub last_log_term: Option<Term>,
    /// A small optimization over the Raft paper: tells the leader the
    /// offset from which it should send log entries to this replica. Only
    /// useful at the beginning of a leader's term.
    pub log_size: u64,
}

} // verus!

verus! {

/// The part a replica plays in its current term.
pub enum Role {
    /// Asking its peers for votes. `successes` holds, for each peer that
    /// granted its vote, the committed log size that the peer reported;
    /// `outstanding_votes` the peers that have not answered yet.
    Candidate {
        term: Term,
        successes: VecMap<Address, u64>,
        outstanding_votes: VecMap<Address, ()>,
        attempt_expiration: u64,
    },
    /// Replicating its log. `broadcast_indices` holds, for each peer, the log
    /// index from which the next append is sent; `confirmed_log_lengths` the
    /// log length that the peer confirmed.
    Leader {
        term: Term,
        broadcast_indices: VecMap<Address, u64>,
        confirmed_log_lengths: VecMap<Address, u64>,
    },
    /// Following `leader` until `leader_timeout` passes without news.
    Follower { leader: Address, leader_timeout: u64, term: Term },
}

impl Role {
    pub open spec fn current_term(self) -> Term {
        match self {
            Role::Candidate { term, .. } => term,
            Role::Leader { term, .. } => term,
            Role::Follower { term, .. } => term,
        }
    }

    pub open spec fn wf(self) -> bool {
        match self {
            Role::Candidate { successes, outstanding_votes, .. } => successes.wf()
                && outstanding_votes.wf(),
            Role::Leader { broadcast_indices, confirmed_log_lengths, .. } => broadcast_indices.wf()
                && confirmed_log_lengths.wf() && broadcast_indices@.dom()
                == confirmed_log_lengths@.dom(),
            Role::Follower { .. } => true,
        }
    }
}

/// The time `ms` milliseconds after `now` (both in microseconds).
pub open spec fn deadline(now: u64, ms: u64) -> int {
    now + ms * 1000
}

/// The state after applying, in order, the write requests of `entries`.
pub open spec fn apply_log<R: Rsm>(state: R, entries: Seq<(Term, R::WriteReq)>) -> R
    decreases entries.len(),
{
    if entries.len() == 0 {
        state
    } else {
        apply_log(state, entries.drop_last()).write_result(entries.last().1).0
    }
}

/// An envelope from `from` to `to` that carries `msg` for the machine `R`.
pub open spec fn carries<R: Rsm>(
    e: Envelope,
    from: Address,
    to: Address,
    request_id: Option<u64>,
    msg: RsmMessage<R>,
) -> bool {
    &&& e.from == from
    &&& e.to == to
    &&& e.request_id == request_id
    &&& e.message == R::wrap_message(msg)
}

/// An envelope from `from` to `to` that carries an append request with the
/// given fields.
pub open spec fn carries_append_req<R: Rsm>(
    e: Envelope,
    from: Address,
    to: Address,
    term: Term,
    batch_start_log_index: u64,
    last_log_term: Option<Term>,
    entries: Seq<(Term, R::WriteReq)>,
    leader_committed_log_size: u64,
) -> bool {
    &&& e.from == from
    &&& e.to == to
    &&& e.request_id == None::<u64>
    &&& match R::unwrap_message(e.message) {
        Ok(RsmMessage::AppendReq(a)) => {
            &&& e.message == R::wrap_message(RsmMessage::AppendReq(a))
            &&& a.term == term
            &&& a.batch_start_log_index == batch_start_log_index
            &&& a.last_log_term == last_log_term
            &&& a.entries@ == entries
            &&& a.leader_committed_log_size == leader_committed_log_size
        },
        _ => false,
    }
}

/// What a replica recovers from: the state as of a log index, with the
/// metadata stored beside it.
pub struct Snapshot<R> {
    pub state: R,
    pub corresponding_raft_index: u64,
    pub committed_log_size: u64,
    pub rsm_id: RsmId,
    pub peers: Vec<Address>,
}

/// One replica of a replicated state machine: the machine's state, the log
/// of write requests, how much of it is committed (and applied), the client
/// requests awaiting an answer, and its part in the current term.
pub struct Replica<R: Rsm> {
    state: R,
    log: Vec<(Term, R::WriteReq)>,
    pending_requests: HashMap<usize, (Address, Option<u64>)>,
    committed_log_size: u64,
    address: Address,
    role: Role,
    peers: Vec<Address>,
}

impl<R: Rsm> Replica<R> {
    pub closed spec fn state(&self) -> R {
        self.state
    }

    pub closed spec fn log(&self) -> Seq<(Term, R::WriteReq)> {
        self.log@
    }

    /// Client requests awaiting their answer, by the log length at which
    /// their write was appended.
    pub closed spec fn pending(&self) -> Map<usize, (Address, Option<u64>)> {
        self.pending_requests@
    }

    pub closed spec fn committed(&self) -> u64 {
        self.committed_log_size
    }

    pub closed spec fn address(&self) -> Address {
        self.address
    }

    pub closed spec fn role(&self) -> Role {
        self.role
    }

    pub closed spec fn peers(&self) -> Seq<Address> {
        self.peers@
    }

    pub closed spec fn wf(&self) -> bool {
        self.role.wf()
    }

    pub open spec fn current_term(&self) -> Term {
        self.role().current_term()
    }

    /// The peers other than this replica itself, in order.
    pub open spec fn other_peers(&self) -> Seq<Address> {
        self.peers().filter(|p: Address| p != self.address())
    }

    /// Everything but the role and the log is as in `other`.
    pub open spec fn same_but_role_and_log(&self, other: &Self) -> bool {
        &&& self.state() == other.state()
        &&& self.pending() == other.pending()
        &&& self.committed() == other.committed()
        &&& self.address() == other.address()
        &&& self.peers() == other.peers()
    }

    /// How a replica may move on: its term never goes back, its log only
    /// grows, its committed size never shrinks, and its state is its earlier
    /// state with the newly committed log entries applied, in order.
    pub open spec fn progresses_to(&self, after: &Self) -> bool {
        &&& after.current_term().0 >= self.current_term().0
        &&& self.log().is_prefix_of(after.log())
        &&& after.committed() >= self.committed()
        &&& if after.committed() > self.committed() {
            &&& after.committed() <= after.log().len()
            &&& after.state() == apply_log(
                self.state(),
                after.log().subrange(self.committed() as int, after.committed() as int),
            )
        } else {
            after.state() == self.state()
        }
    }

    /// A replica recovered from `snapshot` and the log entries stored after
    /// it. It starts as a candidate in term 0 whose attempt has already
    /// expired, and takes the replicated state machine's id from the
    /// snapshot.
    pub fn recover(snapshot: Snapshot<R>, log: Vec<(Term, R::WriteReq)>, address: Address) -> (r:
        Self)
        ensures
            r.wf(),
            r.state() == snapshot.state,
            r.log() == log@,
            r.committed() == snapshot.committed_log_size,
            r.address() == (Address { id: snapshot.rsm_id, ..address }),
            r.peers() == snapshot.peers@,
            r.pending() == Map::<usize, (Address, Option<u64>)>::empty(),
            r.role() matches Role::Candidate {
                term,
                successes,
                outstanding_votes,
                attempt_expiration,
            } && term == Term(0) && successes@ == Map::<Address, u64>::empty()
                && outstanding_votes@ == Map::<Address, ()>::empty() && attempt_expiration == 0,
    {
        Replica {
            state: snapshot.state,
            log,
            pending_requests: HashMap::new(),
            committed_log_size: snapshot.committed_log_size,
            address: Address { id: snapshot.rsm_id, ..address },
            role: Role::Candidate {
                term: Term(0),
                successes: VecMap::new(),
                outstanding_votes: VecMap::new(),
                attempt_expiration: 0,
            },
            peers: snapshot.peers,
        }
    }

    pub fn committed_log_size(&self) -> (c: u64)
        ensures
            c == self.committed(),
    {
        self.committed_log_size
    }

    pub fn log_len(&self) -> (n: usize)
        ensures
            n == self.log().len(),
    {
        self.log.len()
    }

    /// The term of the log entry at `i`.
    pub fn log_term_at(&self, i: usize) -> (t: Term)
        requires
            i < self.log().len(),
        ensures
            t == self.log()[i as int].0,
    {
        self.log[i].0
    }

    pub fn current_role(&self) -> (r: &Role)
        ensures
            *r == self.role(),
    {
        &self.role
    }

    pub fn machine_state(&self) -> (r: &R)
        ensures
            *r == self.state(),
    {
        &self.state
    }

    pub fn own_address(&self) -> (a: Address)
        ensures
            a == self.address(),
    {
        self.address
    }

    pub fn term(&self) -> (t: Term)
        ensures
            t == self.current_term(),
    {
        match &self.role {
            Role::Candidate { term, .. } => *term,
            Role::Follower { term, .. } => *term,
            Role::Leader { term, .. } => *term,
        }
    }

    fn redirect_or_drop(&self, from: Address, request_id: Option<u64>) -> (res: Vec<Envelope>)
        ensures
            match self.role() {
                Role::Follower { leader, term, .. } => res@.len() == 1 && carries::<R>(
                    res@[0],
                    self.address(),
                    from,
                    request_id,
                    RsmMessage::Redirect { leader, term },
                ),
                _ => res@.len() == 0,
            },
    {
        let mut out: Vec<Envelope> = Vec::new();
        match &self.role {
            Role::Follower { leader, term, .. } => {
                let msg = R::wrap(RsmMessage::Redirect { leader: *leader, term: *term });
                out.push(Envelope { from: self.address, to: from, message: msg, request_id });
            },
            _ => {},
        }
        out
    }

    /// What a read request does: nothing changes, and a leader answers it
    /// from its state, a follower redirects it, a candidate drops it.
    pub open spec fn read_req_step(
        &self,
        after: &Self,
        sent: Seq<Envelope>,
        from: Address,
        request_id: Option<u64>,
        req: R::ReadReq,
    ) -> bool {
        &&& after == self
        &&& match self.role() {
            Role::Leader { .. } => sent.len() == 1 && carries::<R>(
                sent[0],
                self.address(),
                from,
                request_id,
                RsmMessage::ReadRes(self.state().read_result(req)),
            ),
            Role::Follower { leader, term, .. } => sent.len() == 1 && carries::<R>(
                sent[0],
                self.address(),
                from,
                request_id,
                RsmMessage::Redirect { leader, term },
            ),
            Role::Candidate { .. } => sent.len() == 0,
        }
    }

    /// A leader answers a read from its state; a follower redirects the
    /// client to its leader; a candidate drops the request.
    fn handle_read_req(&self, from: Address, request_id: Option<u64>, req: R::ReadReq) -> (res: Vec<
        Envelope,
    >)
        ensures
            self.read_req_step(self, res@, from, request_id, req),
    {
        match &self.role {
            Role::Leader { .. } => {
                let answer = self.state.read(req);
                let msg = R::wrap(RsmMessage::ReadRes(answer));
                let mut out: Vec<Envelope> = Vec::new();
                out.push(Envelope { from: self.address, to: from, message: msg, request_id });
                out
            },
            _ => self.redirect_or_drop(from, request_id),
        }
    }

    /// What a write request does: a leader appends it to its log in its term
    /// and remembers whom to answer; a follower redirects it; a candidate drops
    /// it.
    pub open spec fn write_req_step(
        &self,
        after: &Self,
        sent: Seq<Envelope>,
        from: Address,
        request_id: Option<u64>,
        req: R::WriteReq,
    ) -> bool {
        &&& after.role() == self.role()
        &&& after.state() == self.state()
        &&& after.committed() == self.committed()
        &&& after.address() == self.address()
        &&& after.peers() == self.peers()
        &&& match self.role() {
            Role::Leader { term, .. } => {
                &&& after.log() == self.log().push((term, req))
                &&& after.pending() == self.pending().insert(
                    (self.log().len() + 1) as usize,
                    (from, request_id),
                )
                &&& sent.len() == 0
            },
            Role::Follower { leader, term, .. } => {
                &&& after.log() == self.log()
                &&& after.pending() == self.pending()
                &&& sent.len() == 1
                &&& carries::<R>(
                    sent[0],
                    self.address(),
                    from,
                    request_id,
                    RsmMessage::Redirect { leader, term },
                )
            },
            Role::Candidate { .. } => {
                &&& after.log() == self.log()
                &&& after.pending() == self.pending()
                &&& sent.len() == 0
            },
        }
    }

    /// A leader appends the write to its log, in its term, and remembers who
    /// to answer; a follower redirects the client to its leader; a candidate
    /// drops the request.
    fn handle_write_req(
        &mut self,
        from: Address,
        request_id: Option<u64>,
        req: R::WriteReq,
    ) -> (res: Vec<Envelope>)
        requires
            old(self).wf(),
        ensures
            final(self).wf(),
            old(self).write_req_step(&*final(self), res@, from, request_id, req),
    {
        let leader_term = match &self.role {
            Role::Leader { term, .. } => Some(*term),
            _ => None,
        };
        match leader_term {
            Some(term) => {
                self.log.push((term, req));
                let n = self.log.len();
                self.pending_requests.insert(n, (from, request_id));
                Vec::new()
            },
            None => self.redirect_or_drop(from, request_id),
        }
    }

    /// What an append result does: a leader raises the peer's broadcast index
    /// and confirmed length to the reported log size, if lower, or starts
    /// tracking the peer at that size; other roles ignore it.
    pub open spec fn append_res_step(
        &self,
        after: &Self,
        sent: Seq<Envelope>,
        from: Address,
        res: AppendRes,
    ) -> bool {
        &&& sent.len() == 0
        &&& after.log() == self.log()
        &&& after.same_but_role_and_log(self)
        &&& match self.role() {
            Role::Leader { term, broadcast_indices, confirmed_log_lengths } => {
                after.role() matches Role::Leader {
                    term: t,
                    broadcast_indices: b,
                    confirmed_log_lengths: c,
                } && t == term && if broadcast_indices@.contains_key(from) {
                    &&& b@ == broadcast_indices@.insert(
                        from,
                        if broadcast_indices@[from] >= res.log_size {
                            broadcast_indices@[from]
                        } else {
                            res.log_size
                        },
                    )
                    &&& c@ == confirmed_log_lengths@.insert(
                        from,
                        if confirmed_log_lengths@[from] >= res.log_size {
                            confirmed_log_lengths@[from]
                        } else {
                            res.log_size
                        },
                    )
                } else {
                    &&& b@ == broadcast_indices@.insert(from, res.log_size)
                    &&& c@ == confirmed_log_lengths@.insert(from, res.log_size)
                }
            },
            _ => after.role() == self.role(),
        }
    }

    /// A leader takes a peer's reported log size as a lower bound on where
    /// to send from and on what the peer holds; other roles ignore it.
    fn handle_append_res(&mut self, from: Address, res: AppendRes)
        requires
            old(self).wf(),
        ensures
            final(self).wf(),
            old(self).append_res_step(&*final(self), Seq::<Envelope>::empty(), from, res),
    {
        match &mut self.role {
            Role::Leader { broadcast_indices, confirmed_log_lengths, .. } => {
                match broadcast_indices.get(&from) {
                    Some(peer_index) => {
                        let new_index = if peer_index >= res.log_size {
                            peer_index
                        } else {
                            res.log_size
                        };
                        broadcast_indices.insert(from, new_index);
                        let confirmed = confirmed_log_lengths.get(&from).unwrap();
                        let new_confirmed = if confirmed >= res.log_size {
                            confirmed
                        } else {
                            res.log_size
                        };
                        confirmed_log_lengths.insert(from, new_confirmed);
                    },
                    None => {
                        broadcast_indices.insert(from, res.log_size);
                        confirmed_log_lengths.insert(from, res.log_size);
                    },
                }
            },
            _ => {},
        }
    }

    /// What a vote request does: the vote is granted exactly when
    /// `grants_vote` holds, and a granted vote makes the replica follow the
    /// candidate in the proposed term.
    pub open spec fn vote_req_step(
        &self,
        after: &Self,
        sent: Seq<Envelope>,
        from: Address,
        proposed_leadership_term: Term,
        committed_log_size: u64,
        now: u64,
        expiration_ms: u64,
    ) -> bool {
        &&& after.log() == self.log()
        &&& after.same_but_role_and_log(self)
        &&& sent.len() == 1
        &&& ({
            let granted = self.grants_vote(proposed_leadership_term, committed_log_size);
            &&& carries::<R>(
                sent[0],
                self.address(),
                from,
                None,
                RsmMessage::VoteRes {
                    success: granted,
                    term: self.current_term(),
                    committed_log_size: self.committed(),
                },
            )
            &&& if granted {
                after.role() == Role::Follower {
                    leader: from,
                    term: proposed_leadership_term,
                    leader_timeout: deadline(now, expiration_ms) as u64,
                }
            } else {
                after.role() == self.role()
            }
        })
    }

    /// Grants the vote when the proposed term is newer than this replica's
    /// and the candidate has committed at least as much; then follows the
    /// candidate in the proposed term. Answers with this replica's term and
    /// committed log size either way.
    fn handle_vote_req(
        &mut self,
        from: Address,
        proposed_leadership_term: Term,
        last_log_term: Option<Term>,
        committed_log_size: u64,
        now: u64,
        expiration_ms: u64,
    ) -> (res: Vec<Envelope>)
        requires
            old(self).wf(),
            deadline(now, expiration_ms) <= u64::MAX,
        ensures
            final(self).wf(),
            old(self).vote_req_step(
                &*final(self),
                res@,
                from,
                proposed_leadership_term,
                committed_log_size,
                now,
                expiration_ms,
            ),
    {
        let term = self.term();
        let granted = proposed_leadership_term.0 > term.0 && committed_log_size
            >= self.committed_log_size;
        let msg = R::wrap(
            RsmMessage::VoteRes {
                success: granted,
                term,
                committed_log_size: self.committed_log_size,
            },
        );
        let mut out: Vec<Envelope> = Vec::new();
        out.push(Envelope { from: self.address, to: from, message: msg, request_id: None });
        if granted {
            self.role =
            Role::Follower {
                leader: from,
                term: proposed_leadership_term,
                leader_timeout: now + expiration_ms * 1000,
            };
        }
        out
    }

    /// Whether this replica grants its vote to a candidate that proposes
    /// `proposed` and reports `committed_log_size` committed entries.
    pub open spec fn grants_vote(&self, proposed: Term, committed_log_size: u64) -> bool {
        proposed.0 > self.current_term().0 && committed_log_size >= self.committed()
    }

    /// What a vote result does to a candidate: a granted vote in its term
    /// from a peer it waits for is counted, and enough of them make it leader.
    pub open spec fn vote_res_step(
        &self,
        after: &Self,
        sent: Seq<Envelope>,
        from: Address,
        success: bool,
        accepted_term: Term,
        committed_log_size: u64,
    ) -> bool {
        &&& sent.len() == 0
        &&& after.log() == self.log()
        &&& after.same_but_role_and_log(self)
        &&& match self.role() {
            Role::Candidate { term, successes, outstanding_votes, attempt_expiration } => {
                if success && term == accepted_term && outstanding_votes@.contains_key(from) {
                    let s = successes@.insert(from, committed_log_size);
                    let o = outstanding_votes@.remove(from);
                    if s.dom().len() >= o.dom().len() {
                        let tally = s.union_prefer_right(
                            Map::new(|a: Address| o.contains_key(a), |a: Address| 0u64),
                        );
                        after.role() matches Role::Leader {
                            term: t,
                            broadcast_indices: b,
                            confirmed_log_lengths: c,
                        } && t == term && b@ == tally && c@ == tally
                    } else {
                        after.role() matches Role::Candidate {
                            term: t,
                            successes: s2,
                            outstanding_votes: o2,
                            attempt_expiration: x,
                        } && t == term && s2@ == s && o2@ == o && x == attempt_expiration
                    }
                } else {
                    after.role() == self.role()
                }
            },
            _ => after.role() == self.role(),
        }
    }

    /// A candidate counts a vote granted in its term by a peer it was still
    /// waiting for. Once the granted votes are at least as many as those
    /// still outstanding, it becomes leader: every peer that voted starts at
    /// the committed log size it reported, every peer still outstanding at 0.
    fn handle_vote_res(
        &mut self,
        from: Address,
        success: bool,
        accepted_term: Term,
        committed_log_size: u64,
    )
        requires
            old(self).wf(),
        ensures
            final(self).wf(),
            old(self).vote_res_step(
                &*final(self),
                Seq::<Envelope>::empty(),
                from,
                success,
                accepted_term,
                committed_log_size,
            ),
    {
        if !success {
            return;
        }
        let mut become_leader: Option<(Term, VecMap<Address, u64>)> = None;
        match &mut self.role {
            Role::Candidate { term, outstanding_votes, successes, .. } => {
                if *term != accepted_term {
                    return;
                }
                if outstanding_votes.remove(&from).is_none() {
                    return;
                }
                successes.insert(from, committed_log_size);
                if successes.len() >= outstanding_votes.len() {
                    let mut tally = successes.clone_map();
                    let n = outstanding_votes.len();
                    let mut i: usize = 0;
                    while i < n
                        invariant
                            n == outstanding_votes.entries().len(),
                            outstanding_votes.wf(),
                            i <= n,
                            tally.wf(),
                            forall|a: Address| #[trigger]
                                tally@.contains_key(a) <==> (successes@.contains_key(a) || exists|
                                    j: int,
                                | 0 <= j < i && outstanding_votes.entries()[j].0 == a),
                            forall|a: Address| #[trigger]
                                tally@.contains_key(a) ==> tally@[a] == if (exists|j: int|
                                    0 <= j < i && outstanding_votes.entries()[j].0 == a) {
                                    0u64
                                } else {
                                    successes@[a]
                                },
                        decreases n - i,
                    {
                        let a = outstanding_votes.key_at(i);
                        tally.insert(a, 0);
                        i = i + 1;
                    }
                    proof {
                        let o = outstanding_votes@;
                        let ks = keys_of(outstanding_votes.entries());
                        assert forall|a: Address|
                            o.contains_key(a) <==> exists|j: int|
                                0 <= j < n && outstanding_votes.entries()[j].0 == a by {
                            if o.contains_key(a) {
                                let j = ks.index_of(a);
                                assert(ks[j] == a);
                            }
                            if exists|j: int| 0 <= j < n && outstanding_votes.entries()[j].0 == a {
                                let j = choose|j: int|
                                    0 <= j < n && outstanding_votes.entries()[j].0 == a;
                                assert(ks[j] == a);
                            }
                        }
                        assert(tally@ =~= successes@.union_prefer_right(
                            Map::new(|a: Address| o.contains_key(a), |a: Address| 0u64),
                        ));
                    }
                    become_leader = Some((*term, tally));
                }
            },
            _ => {},
        }
        match become_leader {
            Some((term, tally)) => {
                let confirmed = tally.clone_map();
                self.role =
                Role::Leader { term, confirmed_log_lengths: confirmed, broadcast_indices: tally };
            },
            None => {},
        }
    }

    /// What starting an election does: the next term, a fresh candidacy that
    /// waits for every other peer, and a vote request to each of them in
    /// order.
    pub open spec fn candidacy_step(
        &self,
        after: &Self,
        sent: Seq<Envelope>,
        now: u64,
        expiration_ms: u64,
    ) -> bool {
        &&& after.log() == self.log()
        &&& after.same_but_role_and_log(self)
        &&& after.role() matches Role::Candidate {
            term,
            successes,
            outstanding_votes,
            attempt_expiration,
        } && term.0 == self.current_term().0 + 1
            && successes@ == Map::<Address, u64>::empty() && outstanding_votes@ == Map::new(
            |a: Address| self.other_peers().contains(a),
            |a: Address| (),
        ) && attempt_expiration == deadline(now, expiration_ms)
        &&& sent.len() == self.other_peers().len()
        &&& forall|k: int|
            0 <= k < sent.len() ==> carries::<R>(
                #[trigger] sent[k],
                self.address(),
                self.other_peers()[k],
                None,
                RsmMessage::VoteReq {
                    proposed_leadership_term: Term((self.current_term().0 + 1) as u64),
                    last_log_term: self.last_committed_term(),
                    committed_log_size: self.committed(),
                },
            )
    }

    /// Starts an election in the next term: becomes a candidate that waits
    /// for every other peer's vote until `expiration_ms` milliseconds from
    /// `now`, and asks each other peer, in order, for its vote.
    fn become_candidate(&mut self, now: u64, expiration_ms: u64) -> (res: Vec<Envelope>)
        requires
            old(self).wf(),
            old(self).current_term().0 < u64::MAX,
            deadline(now, expiration_ms) <= u64::MAX,
        ensures
            final(self).wf(),
            old(self).candidacy_step(&*final(self), res@, now, expiration_ms),
    {
        let term = self.term().increment();
        let last_log_term = if self.committed_log_size > 0 {
            if self.committed_log_size < self.log.len() as u64 {
                Some(self.log[self.committed_log_size as usize].0)
            } else {
                None
            }
        } else {
            None
        };
        let ghost pred = |p: Address| p != self.address;
        let mut outstanding_votes: VecMap<Address, ()> = VecMap::new();
        let mut out: Vec<Envelope> = Vec::new();
        let mut i: usize = 0;
        while i < self.peers.len()
            invariant
                i <= self.peers@.len(),
                pred == (|p: Address| p != self.address),
                outstanding_votes.wf(),
                forall|a: Address| #[trigger]
                    outstanding_votes@.contains_key(a) <==> self.peers@.take(i as int).filter(
                        pred,
                    ).contains(a),
                out@.len() == self.peers@.take(i as int).filter(pred).len(),
                forall|k: int|
                    0 <= k < out@.len() ==> carries::<R>(
                        #[trigger] out@[k],
                        self.address,
                        self.peers@.take(i as int).filter(pred)[k],
                        None,
                        RsmMessage::VoteReq {
                            proposed_leadership_term: term,
                            last_log_term,
                            committed_log_size: self.committed_log_size,
                        },
                    ),
            decreases self.peers@.len() - i,
        {
            let peer = self.peers[i];
            let ghost f0 = self.peers@.take(i as int).filter(pred);
            proof {
                assert(self.peers@.take(i + 1) =~= self.peers@.take(i as int).push(peer));
                self.peers@.take(i as int).lemma_filter_push(peer, pred);
                assert forall|a: Address| f0.push(peer).contains(a) <==> (f0.contains(a) || a
                    == peer) by {
                    if f0.contains(a) {
                        let j = choose|j: int| 0 <= j < f0.len() && f0[j] == a;
                        assert(f0.push(peer)[j] == a);
                    }
                    if a == peer {
                        assert(f0.push(peer)[f0.len() as int] == a);
                    }
                    if f0.push(peer).contains(a) {
                        let j = choose|j: int| 0 <= j < f0.len() + 1 && f0.push(peer)[j] == a;
                        if j < f0.len() {
                            assert(f0[j] == a);
                        }
                    }
                }
            }
            if peer != self.address {
                outstanding_votes.insert(peer, ());
                let msg = R::wrap(
                    RsmMessage::VoteReq {
                        proposed_leadership_term: term,
                        last_log_term,
                        committed_log_size: self.committed_log_size,
                    },
                );
                out.push(Envelope { from: self.address, to: peer, message: msg, request_id: None });
            }
            i = i + 1;
        }
        proof {
            assert(self.peers@.take(self.peers@.len() as int) =~= self.peers@);
            assert(pred =~= (|p: Address| p != self.address()));
            assert(self.peers@.filter(pred) == self.other_peers());
            assert(outstanding_votes@ =~= Map::new(
                |a: Address| self.other_peers().contains(a),
                |a: Address| (),
            ));
        }
        self.role =
        Role::Candidate {
            term,
            successes: VecMap::new(),
            outstanding_votes,
            attempt_expiration: now + expiration_ms * 1000,
        };
        out
    }

    /// The term reported beside the committed log size when asking for
    /// votes: that of the entry at index `committed()`, when the committed
    /// size is positive and such an entry exists.
    pub open spec fn last_committed_term(&self) -> Option<Term> {
        if self.committed() > 0 && self.committed() < self.log().len() {
            Some(self.log()[self.committed() as int].0)
        } else {
            None
        }
    }

    /// Whether this replica, on an append request in `term` from `from`,
    /// follows `from` in that term: either the term is newer than its own,
    /// or it already follows `from` in that very term.
    pub open spec fn follows_after_append_req(&self, from: Address, term: Term) -> bool {
        ||| self.current_term().0 < term.0
        ||| self.role() matches Role::Follower { leader, term: t, .. } && t == term && leader
            == from
    }

    /// The role after an append request in `term` from `from`: a newer term
    /// makes the replica follow `from`.
    pub open spec fn role_after_append_req(
        &self,
        from: Address,
        term: Term,
        now: u64,
        expiration_ms: u64,
    ) -> Role {
        if self.current_term().0 < term.0 {
            Role::Follower {
                leader: from,
                term,
                leader_timeout: deadline(now, expiration_ms) as u64,
            }
        } else {
            self.role()
        }
    }

    /// Whether an append request can be taken without failing: when its
    /// entries are appended, the leader's committed size must lie within the
    /// new log, and every entry up to it that is not committed here yet must
    /// be a write the state machine accepts.
    pub open spec fn append_req_ok(&self, from: Address, req: AppendReq<R::WriteReq>) -> bool {
        (self.follows_after_append_req(from, req.term) && req.batch_start_log_index
            == self.log().len()) ==> {
            let new_log = self.log() + req.entries@;
            &&& req.leader_committed_log_size <= new_log.len()
            &&& forall|i: int|
                self.committed() <= i < req.leader_committed_log_size ==> R::write_accepted(
                    #[trigger] new_log[i].1,
                )
        }
    }

    /// The term of the last log entry, if there is one.
    pub open spec fn last_log_term(&self) -> Option<Term> {
        if self.log().len() > 0 {
            Some(self.log().last().0)
        } else {
            None
        }
    }

    /// What an append request does: the role may change to following the
    /// sender; a follower of the sender in the request's term either takes the
    /// entries and applies the newly committed ones, or reports its log size.
    pub open spec fn append_req_step(
        &self,
        after: &Self,
        sent: Seq<Envelope>,
        from: Address,
        req: AppendReq<R::WriteReq>,
        now: u64,
        expiration_ms: u64,
    ) -> bool {
        &&& after.pending() == self.pending()
        &&& after.address() == self.address()
        &&& after.peers() == self.peers()
        &&& after.role() == self.role_after_append_req(
            from,
            req.term,
            now,
            expiration_ms,
        )
        &&& if !self.follows_after_append_req(from, req.term) {
            &&& after.log() == self.log()
            &&& after.state() == self.state()
            &&& after.committed() == self.committed()
            &&& sent.len() == 0
        } else if req.batch_start_log_index != self.log().len() {
            &&& after.log() == self.log()
            &&& after.state() == self.state()
            &&& after.committed() == self.committed()
            &&& sent.len() == 1
            &&& carries::<R>(
                sent[0],
                self.address(),
                from,
                None,
                RsmMessage::AppendRes(
                    AppendRes {
                        log_size: self.log().len() as u64,
                        term: req.term,
                        last_log_term: self.last_log_term(),
                    },
                ),
            )
        } else {
            let c = if self.committed() >= req.leader_committed_log_size {
                self.committed()
            } else {
                req.leader_committed_log_size
            };
            &&& after.log() == self.log() + req.entries@
            &&& after.committed() == c
            &&& if self.committed() < req.leader_committed_log_size {
                after.state() == apply_log(
                    self.state(),
                    after.log().subrange(self.committed() as int, c as int),
                )
            } else {
                after.state() == self.state()
            }
            &&& sent.len() == 0
        }
    }

    /// Follows a leader of a newer term. A follower of `from` in the
    /// request's term appends the entries when they start where its log
    /// ends, then applies the log up to the leader's committed size; when
    /// they start elsewhere, it tells the leader its log size instead.
    #[verifier::loop_isolation(false)]
    fn handle_append_req(
        &mut self,
        from: Address,
        req: AppendReq<R::WriteReq>,
        now: u64,
        expiration_ms: u64,
    ) -> (res: Vec<Envelope>)
        requires
            old(self).wf(),
            deadline(now, expiration_ms) <= u64::MAX,
            old(self).append_req_ok(from, req),
        ensures
            final(self).wf(),
            old(self).append_req_step(&*final(self), res@, from, req, now, expiration_ms),
    {
        if self.term().0 < req.term.0 {
            self.role =
            Role::Follower {
                leader: from,
                term: req.term,
                leader_timeout: now + expiration_ms * 1000,
            };
        }
        let follows = match &self.role {
            Role::Follower { leader, term, .. } => *term == req.term && *leader == from,
            _ => false,
        };
        if !follows {
            return Vec::new();
        }
        if req.batch_start_log_index != self.log.len() as u64 {
            let last_log_term = if self.log.len() > 0 {
                Some(self.log[self.log.len() - 1].0)
            } else {
                None
            };
            let msg = R::wrap(
                RsmMessage::AppendRes(
                    AppendRes { log_size: self.log.len() as u64, term: req.term, last_log_term },
                ),
            );
            let mut out: Vec<Envelope> = Vec::new();
            out.push(Envelope { from: self.address, to: from, message: msg, request_id: None });
            return out;
        }
        let ghost c0 = self.committed_log_size;
        let ghost s0 = self.state;
        let ghost pending0 = self.pending_requests;
        let ghost role0 = self.role;
        let ghost address0 = self.address;
        let ghost peers0 = self.peers@;
        let leader_committed = req.leader_committed_log_size;
        let mut entries = req.entries;
        self.log.append(&mut entries);
        let ghost log1 = self.log@;
        proof {
            if c0 <= self.log@.len() {
                assert(self.log@.subrange(c0 as int, c0 as int) =~= Seq::<
                    (Term, R::WriteReq),
                >::empty());
            }
        }
        while self.committed_log_size < leader_committed
            invariant
                self.pending_requests == pending0,
                self.role == role0,
                self.address == address0,
                self.peers@ == peers0,
                self.log@ == log1,
                c0 <= self.committed_log_size,
                self.committed_log_size <= leader_committed || self.committed_log_size == c0,
                leader_committed <= self.log@.len(),
                forall|i: int|
                    c0 <= i < leader_committed ==> R::write_accepted(#[trigger] self.log@[i].1),
                c0 < leader_committed ==> self.state == apply_log(
                    s0,
                    self.log@.subrange(c0 as int, self.committed_log_size as int),
                ),
                c0 >= leader_committed ==> self.state == s0,
            decreases leader_committed - self.committed_log_size,
        {
            let n = self.log.len();
            assert(self.committed_log_size < n);
            let i = self.committed_log_size as usize;
            assert(R::write_accepted(self.log@[i as int].1));
            self.state.write(&self.log[i].1);
            self.committed_log_size = self.committed_log_size + 1;
            proof {
                let sub = self.log@.subrange(c0 as int, self.committed_log_size as int);
                assert(sub.drop_last() =~= self.log@.subrange(c0 as int, i as int));
                assert(sub.last() == self.log@[i as int]);
            }
        }
        Vec::new()
    }

    /// The append request that a leader in `term` sends to a peer whose
    /// broadcast index is `idx`: the committed entries from `idx` on, with
    /// the term of the entry just before them.
    fn append_req_to(&self, peer: Address, term: Term, idx: u64) -> (e: Envelope)
        requires
            idx <= self.committed() <= self.log().len(),
        ensures
            carries_append_req::<R>(
                e,
                self.address(),
                peer,
                term,
                idx,
                self.term_before(idx),
                self.log().subrange(idx as int, self.committed() as int),
                self.committed(),
            ),
    {
        let n = self.log.len();
        assert(self.committed_log_size <= n);
        let committed = self.committed_log_size as usize;
        let mut entries: Vec<(Term, R::WriteReq)> = Vec::new();
        let mut j = idx as usize;
        while j < committed
            invariant
                idx <= j <= committed,
                committed == self.committed_log_size,
                committed <= self.log@.len(),
                entries@ == self.log@.subrange(idx as int, j as int),
            decreases committed - j,
        {
            let entry = (self.log[j].0, R::clone_write_req(&self.log[j].1));
            entries.push(entry);
            j = j + 1;
            proof {
                assert(entries@ =~= self.log@.subrange(idx as int, j as int));
            }
        }
        let last_log_term = if idx > 0 {
            Some(self.log[(idx - 1) as usize].0)
        } else {
            None
        };
        let req = AppendReq {
            term,
            leader_committed_log_size: self.committed_log_size,
            batch_start_log_index: idx,
            entries,
            last_log_term,
        };
        let ghost m = RsmMessage::<R>::AppendReq(req);
        proof {
            R::lemma_unwrap_wrap(m);
        }
        let msg = R::wrap(RsmMessage::AppendReq(req));
        Envelope { from: self.address, to: peer, message: msg, request_id: None }
    }

    /// The term of the log entry just before index `idx`, if `idx` is positive.
    pub open spec fn term_before(&self, idx: u64) -> Option<Term> {
        if idx > 0 {
            Some(self.log()[idx - 1].0)
        } else {
            None
        }
    }

    /// Whether a periodic step can run without failing: a candidate or
    /// follower whose time is up must have a next term to start; a leader
    /// sends only committed entries, so every peer's broadcast index must
    /// lie within them.
    pub open spec fn cron_ok(&self, now: u64) -> bool {
        match self.role() {
            Role::Candidate { attempt_expiration, .. } => now >= attempt_expiration
                ==> self.current_term().0 < u64::MAX,
            Role::Follower { leader_timeout, .. } => now >= leader_timeout
                ==> self.current_term().0 < u64::MAX,
            Role::Leader { broadcast_indices, .. } => {
                &&& self.committed() <= self.log().len()
                &&& forall|p: Address| #[trigger]
                    broadcast_indices@.contains_key(p) ==> broadcast_indices@[p] <= self.committed()
            },
        }
    }

    /// Whether the periodic step at `now` starts an election: the replica is
    /// a candidate whose attempt expired or a follower whose leader timed
    /// out. Only then does the step use an election timeout.
    pub open spec fn election_due(&self, now: u64) -> bool {
        match self.role() {
            Role::Candidate { attempt_expiration, .. } => now >= attempt_expiration,
            Role::Follower { leader_timeout, .. } => now >= leader_timeout,
            Role::Leader { .. } => false,
        }
    }

    /// Computes `election_due`.
    pub fn is_election_due(&self, now: u64) -> (b: bool)
        ensures
            b == self.election_due(now),
    {
        match &self.role {
            Role::Candidate { attempt_expiration, .. } => now >= *attempt_expiration,
            Role::Follower { leader_timeout, .. } => now >= *leader_timeout,
            Role::Leader { .. } => false,
        }
    }

    /// Whether receiving `envelope` uses an election timeout: an append
    /// request always does, and a vote request does when the vote is
    /// granted.
    pub open spec fn draws_timeout_on(&self, envelope: Envelope) -> bool {
        match R::unwrap_message(envelope.message) {
            Ok(RsmMessage::AppendReq(_)) => true,
            Ok(RsmMessage::VoteReq { proposed_leadership_term, committed_log_size, .. }) => {
                self.grants_vote(proposed_leadership_term, committed_log_size)
            },
            _ => false,
        }
    }

    /// Computes `draws_timeout_on`.
    pub fn draws_timeout_on_exec(&self, envelope: &Envelope) -> (b: bool)
        ensures
            b == self.draws_timeout_on(*envelope),
    {
        match R::peek(&envelope.message) {
            Some(RsmMessage::AppendReq(_)) => true,
            Some(RsmMessage::VoteReq { proposed_leadership_term, committed_log_size, .. }) => {
                proposed_leadership_term.0 > self.term().0 && *committed_log_size
                    >= self.committed_log_size
            },
            _ => false,
        }
    }

    /// What the periodic step does: a candidate or follower whose time is up
    /// starts an election; a leader sends every peer its append request and
    /// moves every broadcast index to the end of its log; otherwise nothing.
    pub open spec fn cron_step(
        &self,
        after: &Self,
        sent: Seq<Envelope>,
        now: u64,
        expiration_ms: u64,
    ) -> bool {
        match self.role() {
            Role::Candidate { attempt_expiration, .. } => if now >= attempt_expiration {
                self.candidacy_step(after, sent, now, expiration_ms)
            } else {
                after == self && sent.len() == 0
            },
            Role::Follower { leader_timeout, .. } => if now >= leader_timeout {
                self.candidacy_step(after, sent, now, expiration_ms)
            } else {
                after == self && sent.len() == 0
            },
            Role::Leader { term, broadcast_indices, confirmed_log_lengths } => {
                &&& after.log() == self.log()
                &&& after.same_but_role_and_log(self)
                &&& after.role() matches Role::Leader {
                    term: t,
                    broadcast_indices: b,
                    confirmed_log_lengths: c,
                } && t == term && c == confirmed_log_lengths && keys_of(b.entries()) == keys_of(
                    broadcast_indices.entries(),
                ) && b@.dom() == broadcast_indices@.dom() && forall|p: Address| #[trigger]
                    b@.contains_key(p) ==> b@[p] == self.log().len()
                &&& sent.len() == broadcast_indices.entries().len()
                &&& forall|k: int|
                    0 <= k < sent.len() ==> {
                        let (peer, idx) = broadcast_indices.entries()[k];
                        carries_append_req::<R>(
                            #[trigger] sent[k],
                            self.address(),
                            peer,
                            term,
                            idx,
                            self.term_before(idx),
                            self.log().subrange(idx as int, self.committed() as int),
                            self.committed(),
                        )
                    }
            },
        }
    }

    /// The periodic step. A candidate whose attempt expired, or a follower
    /// whose leader timed out, starts an election in the next term. A leader
    /// sends each peer the committed entries from its broadcast index on,
    /// then moves every broadcast index to the end of its log.
    pub fn cron(&mut self, now: u64, expiration_ms: u64) -> (res: Vec<Envelope>)
        requires
            old(self).wf(),
            deadline(now, expiration_ms) <= u64::MAX,
            old(self).cron_ok(now),
        ensures
            final(self).wf(),
            old(self).cron_step(&*final(self), res@, now, expiration_ms),
            old(self).progresses_to(&*final(self)),
            final(self).log() == old(self).log(),
            final(self).committed() == old(self).committed(),
            final(self).state() == old(self).state(),
    {
        let expired = match &self.role {
            Role::Candidate { attempt_expiration, .. } => Some(now >= *attempt_expiration),
            Role::Follower { leader_timeout, .. } => Some(now >= *leader_timeout),
            Role::Leader { .. } => None,
        };
        match expired {
            Some(true) => self.become_candidate(now, expiration_ms),
            Some(false) => Vec::new(),
            None => self.broadcast(),
        }
    }

    /// A leader's broadcast: one append request per peer, in the order the
    /// broadcast indices are kept.
    fn broadcast(&mut self) -> (res: Vec<Envelope>)
        requires
            old(self).wf(),
            old(self).role() is Leader,
            old(self).cron_ok(0),
        ensures
            final(self).wf(),
            old(self).cron_step(&*final(self), res@, 0, 0),
    {
        let mut out: Vec<Envelope> = Vec::new();
        let log_len = self.log.len() as u64;
        match &self.role {
            Role::Leader { term, broadcast_indices, .. } => {
                let n = broadcast_indices.len();
                let mut i: usize = 0;
                while i < n
                    invariant
                        n == broadcast_indices.entries().len(),
                        broadcast_indices.wf(),
                        i <= n,
                        self.committed() <= self.log().len(),
                        forall|p: Address| #[trigger]
                            broadcast_indices@.contains_key(p) ==> broadcast_indices@[p]
                                <= self.committed(),
                        out@.len() == i,
                        forall|k: int|
                            0 <= k < i ==> {
                                let (peer, idx) = broadcast_indices.entries()[k];
                                carries_append_req::<R>(
                                    #[trigger] out@[k],
                                    self.address(),
                                    peer,
                                    *term,
                                    idx,
                                    self.term_before(idx),
                                    self.log().subrange(idx as int, self.committed() as int),
                                    self.committed(),
                                )
                            },
                    decreases n - i,
                {
                    let peer = broadcast_indices.key_at(i);
                    let idx = broadcast_indices.value_at(i);
                    proof {
                        let ks = keys_of(broadcast_indices.entries());
                        assert(ks[i as int] == peer);
                        crate::vecmap::lemma_index_of_unique(ks, i as int);
                        assert(broadcast_indices@.contains_key(peer));
                        assert(broadcast_indices@[peer] == idx);
                    }
                    let e = self.append_req_to(peer, *term, idx);
                    out.push(e);
                    i = i + 1;
                }
            },
            _ => {},
        }
        match &mut self.role {
            Role::Leader { broadcast_indices, .. } => {
                broadcast_indices.set_all(log_len);
            },
            _ => {},
        }
        out
    }

    /// Whether `envelope` can be received without failing: it must carry a
    /// message of this machine that a replica takes (not an answer meant for
    /// a client), and an append request must be safe to take.
    pub open spec fn accepts(&self, envelope: Envelope) -> bool {
        match R::unwrap_message(envelope.message) {
            Ok(RsmMessage::AppendReq(req)) => self.append_req_ok(envelope.from, req),
            Ok(RsmMessage::AppendRes(_)) => true,
            Ok(RsmMessage::ReadReq(_)) => true,
            Ok(RsmMessage::WriteReq(_)) => true,
            Ok(RsmMessage::VoteReq { .. }) => true,
            Ok(RsmMessage::VoteRes { .. }) => true,
            _ => false,
        }
    }

    /// What receiving an envelope does: the step of the message it carries.
    pub open spec fn receive_step(
        &self,
        after: &Self,
        sent: Seq<Envelope>,
        envelope: Envelope,
        now: u64,
        expiration_ms: u64,
    ) -> bool {
        let from = envelope.from;
        match R::unwrap_message(envelope.message) {
            Ok(RsmMessage::AppendReq(req)) => self.append_req_step(
                after,
                sent,
                from,
                req,
                now,
                expiration_ms,
            ),
            Ok(RsmMessage::AppendRes(res)) => self.append_res_step(after, sent, from, res),
            Ok(RsmMessage::ReadReq(req)) => self.read_req_step(
                after,
                sent,
                from,
                envelope.request_id,
                req,
            ),
            Ok(RsmMessage::WriteReq(req)) => self.write_req_step(
                after,
                sent,
                from,
                envelope.request_id,
                req,
            ),
            Ok(
                RsmMessage::VoteReq { proposed_leadership_term, last_log_term, committed_log_size },
            ) => self.vote_req_step(
                after,
                sent,
                from,
                proposed_leadership_term,
                committed_log_size,
                now,
                expiration_ms,
            ),
            Ok(RsmMessage::VoteRes { success, term, committed_log_size }) => self.vote_res_step(
                after,
                sent,
                from,
                success,
                term,
                committed_log_size,
            ),
            _ => false,
        }
    }

    /// Takes one message addressed to this replica, with the current time
    /// and a freshly drawn election timeout, and returns what to send.
    pub fn receive(&mut self, envelope: Envelope, now: u64, expiration_ms: u64) -> (res: Vec<
        Envelope,
    >)
        requires
            old(self).wf(),
            deadline(now, expiration_ms) <= u64::MAX,
            old(self).accepts(envelope),
        ensures
            final(self).wf(),
            old(self).receive_step(&*final(self), res@, envelope, now, expiration_ms),
            old(self).progresses_to(&*final(self)),
            final(self).address() == old(self).address(),
            final(self).peers() == old(self).peers(),
    {
        let from = envelope.from;
        let request_id = envelope.request_id;
        let ghost old_log = self.log@;
        let res = match R::unwrap(envelope.message) {
            Ok(RsmMessage::AppendReq(req)) => self.handle_append_req(from, req, now, expiration_ms),
            Ok(RsmMessage::AppendRes(res)) => {
                self.handle_append_res(from, res);
                Vec::new()
            },
            Ok(RsmMessage::ReadReq(req)) => self.handle_read_req(from, request_id, req),
            Ok(RsmMessage::WriteReq(req)) => self.handle_write_req(from, request_id, req),
            Ok(
                RsmMessage::VoteReq { proposed_leadership_term, last_log_term, committed_log_size },
            ) => self.handle_vote_req(
                from,
                proposed_leadership_term,
                last_log_term,
                committed_log_size,
                now,
                expiration_ms,
            ),
            Ok(RsmMessage::VoteRes { success, term, committed_log_size }) => {
                self.handle_vote_res(from, success, term, committed_log_size);
                Vec::new()
            },
            _ => Vec::new(),
        };
        proof {
            assert(old_log.is_prefix_of(self.log@)) by {
                assert(old_log =~= self.log@.subrange(0, old_log.len() as int));
            }
        }
        res
    }

    /// Computes `accepts`: whether `receive` can take `envelope`.
    pub fn accepts_envelope(&self, envelope: &Envelope) -> (b: bool)
        requires
            self.wf(),
        ensures
            b == self.accepts(*envelope),
    {
        match R::peek(&envelope.message) {
            Some(RsmMessage::AppendReq(req)) => self.append_req_ok_exec(envelope.from, req),
            Some(RsmMessage::AppendRes(_)) => true,
            Some(RsmMessage::ReadReq(_)) => true,
            Some(RsmMessage::WriteReq(_)) => true,
            Some(RsmMessage::VoteReq { .. }) => true,
            Some(RsmMessage::VoteRes { .. }) => true,
            _ => false,
        }
    }

    #[verifier::loop_isolation(false)]
    fn append_req_ok_exec(&self, from: Address, req: &AppendReq<R::WriteReq>) -> (b: bool)
        ensures
            b == self.append_req_ok(from, *req),
    {
        let term = self.term();
        let follows = term.0 < req.term.0 || match &self.role {
            Role::Follower { leader, term: t, .. } => *t == req.term && *leader == from,
            _ => false,
        };
        if !follows || req.batch_start_log_index != self.log.len() as u64 {
            return true;
        }
        let nu = self.log.len();
        let n = nu as u64;
        let mu = req.entries.len();
        let m = mu as u64;
        let lc = req.leader_committed_log_size;
        if lc > n && lc - n > m {
            return false;
        }
        let ghost new_log = self.log() + req.entries@;
        let mut i = self.committed_log_size;
        while i < lc
            invariant
                self.committed_log_size <= i,
                lc <= n + m,
                n == self.log@.len(),
                n == nu,
                nu == self.log@.len(),
                m == req.entries@.len(),
                m == mu,
                new_log == self.log() + req.entries@,
                forall|j: int|
                    self.committed_log_size <= j < i ==> R::write_accepted(
                        #[trigger] new_log[j].1,
                    ),
            decreases lc - i,
        {
            if i < n {
                let k = i as usize;
                assert(new_log[i as int] == self.log@[k as int]);
                if !R::accepts_write(&self.log[k].1) {
                    return false;
                }
            } else {
                let k = (i - n) as usize;
                assert(new_log[i as int] == req.entries@[k as int]);
                if !R::accepts_write(&req.entries[k].1) {
                    return false;
                }
            }
            i = i + 1;
        }
        true
    }

    /// Computes `cron_ok`: whether `cron` can run at `now`.
    #[verifier::loop_isolation(false)]
    pub fn cron_ok_exec(&self, now: u64) -> (b: bool)
        requires
            self.wf(),
        ensures
            b == self.cron_ok(now),
    {
        match &self.role {
            Role::Candidate { attempt_expiration, .. } => now < *attempt_expiration
                || self.term().0 < u64::MAX,
            Role::Follower { leader_timeout, .. } => now < *leader_timeout || self.term().0
                < u64::MAX,
            Role::Leader { broadcast_indices, .. } => {
                if self.committed_log_size > self.log.len() as u64 {
                    return false;
                }
                let n = broadcast_indices.len();
                let mut i: usize = 0;
                while i < n
                    invariant
                        n == broadcast_indices.entries().len(),
                        broadcast_indices.wf(),
                        i <= n,
                        forall|k: int|
                            0 <= k < i ==> #[trigger] broadcast_indices.entries()[k].1
                                <= self.committed(),
                    decreases n - i,
                {
                    let v = broadcast_indices.value_at(i);
                    if v > self.committed_log_size {
                        proof {
                            let ks = keys_of(broadcast_indices.entries());
                            let p = broadcast_indices.entries()[i as int].0;
                            assert(ks[i as int] == p);
                            crate::vecmap::lemma_index_of_unique(ks, i as int);
                            assert(broadcast_indices@.contains_key(p));
                            assert(broadcast_indices@[p] == broadcast_indices.entries()[i as int].1);
                        }
                        return false;
                    }
                    i = i + 1;
                }
                proof {
                    let ks = keys_of(broadcast_indices.entries());
                    assert forall|p: Address| #[trigger]
                        broadcast_indices@.contains_key(p) implies broadcast_indices@[p]
                        <= self.committed() by {
                        let k = ks.index_of(p);
                        assert(ks[k] == p);
                    }
                }
                true
            },
        }
    }
}

/// Applying two runs of entries one after the other is applying them
/// together.
pub proof fn lemma_apply_log_concat<R: Rsm>(
    state: R,
    first: Seq<(Term, R::WriteReq)>,
    second: Seq<(Term, R::WriteReq)>,
)
    ensures
        apply_log(state, first + second) == apply_log(apply_log(state, first), second),
    decreases second.len(),
{
    if second.len() == 0 {
        assert(first + second =~= first);
    } else {
        lemma_apply_log_concat(state, first, second.drop_last());
        assert((first + second).drop_last() =~= first + second.drop_last());
        assert((first + second).last() == second.last());
    }
}

/// The way a replica moves on composes: over any run of steps, its state
/// stays its state at the start with every entry committed since applied in
/// log order, and its log keeps what it held.
pub proof fn lemma_progress_composes<R: Rsm>(a: Replica<R>, b: Replica<R>, c: Replica<R>)
    requires
        a.progresses_to(&b),
        b.progresses_to(&c),
    ensures
        a.progresses_to(&c),
{
    let (ca, cb, cc) = (a.committed() as int, b.committed() as int, c.committed() as int);
    assert(a.log().is_prefix_of(c.log())) by {
        assert(a.log() =~= c.log().subrange(0, a.log().len() as int)) by {
            assert(a.log() =~= b.log().subrange(0, a.log().len() as int));
            assert(b.log() =~= c.log().subrange(0, b.log().len() as int));
        }
    }
    if cc > ca {
        if cb == ca {
        } else if cb == cc {
            assert(b.log().subrange(ca, cb) =~= c.log().subrange(ca, cc)) by {
                assert(b.log() =~= c.log().subrange(0, b.log().len() as int));
            }
        } else {
            let first = b.log().subrange(ca, cb);
            let second = c.log().subrange(cb, cc);
            lemma_apply_log_concat(a.state(), first, second);
            assert(first + second =~= c.log().subrange(ca, cc)) by {
                assert(b.log() =~= c.log().subrange(0, b.log().len() as int));
            }
        }
    }
}

/// A candidate becomes leader only on a granted vote, in its own term, from
/// a peer whose vote it was still waiting for, and it keeps its term.
pub proof fn lemma_leadership_needs_a_vote<R: Rsm>(
    before: Replica<R>,
    after: Replica<R>,
    sent: Seq<Envelope>,
    voter: Address,
    success: bool,
    term: Term,
    committed_log_size: u64,
)
    requires
        before.vote_res_step(&after, sent, voter, success, term, committed_log_size),
        before.role() is Candidate,
        after.role() is Leader,
    ensures
        success,
        term == before.current_term(),
        after.current_term() == before.current_term(),
        before.role()->outstanding_votes@.contains_key(voter),
{
}

/// A vote result delivered twice is counted at most once: the second
/// delivery changes nothing and sends nothing.
pub proof fn lemma_duplicate_vote_counted_once<R: Rsm>(
    s0: Replica<R>,
    s1: Replica<R>,
    s2: Replica<R>,
    sent: Seq<Envelope>,
    voter: Address,
    success: bool,
    term: Term,
    committed_log_size: u64,
)
    requires
        s0.vote_res_step(&s1, Seq::empty(), voter, success, term, committed_log_size),
        s1.vote_res_step(&s2, sent, voter, success, term, committed_log_size),
    ensures
        sent.len() == 0,
        s2.role() == s1.role(),
        s2.log() == s1.log(),
        s2.same_but_role_and_log(&s1),
{
    match s1.role() {
        Role::Candidate { term: t1, outstanding_votes: o1, .. } => {
            if success && t1 == term && o1@.contains_key(voter) {
                match s0.role() {
                    Role::Candidate { term: t0, outstanding_votes: o0, .. } => {
                        if success && t0 == term && o0@.contains_key(voter) {
                            assert(!o0@.remove(voter).contains_key(voter));
                        }
                    },
                    _ => {},
                }
            }
        },
        _ => {},
    }
}

/// A replica just recovered starts an election at its first periodic step,
/// whatever the time: it becomes a candidate in term 1 and asks every other
/// peer, in order, for its vote.
pub proof fn lemma_recovered_replica_starts_election<R: Rsm>(
    r: Replica<R>,
    after: Replica<R>,
    sent: Seq<Envelope>,
    now: u64,
    expiration_ms: u64,
)
    requires
        r.role() matches Role::Candidate { term, attempt_expiration, .. } && term == Term(0)
            && attempt_expiration == 0,
        r.cron_step(&after, sent, now, expiration_ms),
    ensures
        after.role() matches Role::Candidate { term, .. } && term == Term(1),
        sent.len() == r.other_peers().len(),
        forall|k: int|
            0 <= k < sent.len() ==> carries::<R>(
                #[trigger] sent[k],
                r.address(),
                r.other_peers()[k],
                None,
                RsmMessage::VoteReq {
                    proposed_leadership_term: Term(1),
                    last_log_term: r.last_committed_term(),
                    committed_log_size: r.committed(),
                },
            ),
{
}

/// A replica grants at most one vote per term: once it has granted its vote
/// for `term`, it grants no vote for that term again, to any candidate.
pub proof fn lemma_one_vote_per_term<R: Rsm>(
    before: Replica<R>,
    after: Replica<R>,
    sent: Seq<Envelope>,
    candidate: Address,
    term: Term,
    committed_log_size: u64,
    now: u64,
    expiration_ms: u64,
    other_committed_log_size: u64,
)
    requires
        before.vote_req_step(&after, sent, candidate, term, committed_log_size, now, expiration_ms),
        before.grants_vote(term, committed_log_size),
    ensures
        !after.grants_vote(term, other_committed_log_size),
{
}

/// A candidate that receives a vote result becomes leader exactly when the
/// vote is granted, in its own term, by a peer it was still waiting for, and,
/// with that vote counted, the peers that granted their vote are at least as
/// many as the peers still outstanding. Otherwise it stays a candidate in its
/// term, and it sends nothing either way.
pub proof fn lemma_leader_once_grants_reach_outstanding<R: Rsm>(
    before: Replica<R>,
    after: Replica<R>,
    sent: Seq<Envelope>,
    envelope: Envelope,
    now: u64,
    expiration_ms: u64,
    success: bool,
    term: Term,
    committed_log_size: u64,
)
    requires
        before.receive_step(&after, sent, envelope, now, expiration_ms),
        R::unwrap_message(envelope.message) == Ok::<RsmMessage<R>, Message>(
            RsmMessage::VoteRes { success, term, committed_log_size },
        ),
        before.role() is Candidate,
    ensures
        sent.len() == 0,
        after.current_term() == before.current_term(),
        ({
            let voter = envelope.from;
            let granted = before.role()->successes@.dom().insert(voter);
            let waiting = before.role()->outstanding_votes@.dom().remove(voter);
            (after.role() is Leader) <==> (success && term == before.current_term()
                && before.role()->outstanding_votes@.contains_key(voter) && granted.len()
                >= waiting.len())
        }),
        !(after.role() is Leader) ==> after.role() is Candidate,
        after.role() is Leader ==> {
            let voter = envelope.from;
            let successes = before.role()->successes@;
            let waiting = before.role()->outstanding_votes@.remove(voter);
            let indices = after.role()->broadcast_indices@;
            &&& after.role()->confirmed_log_lengths@ == indices
            &&& forall|p: Address|
                #[trigger] indices.contains_key(p) <==> (p == voter || successes.contains_key(p)
                    || waiting.contains_key(p))
            &&& forall|p: Address| #[trigger] waiting.contains_key(p) ==> indices[p] == 0
            &&& !waiting.contains_key(voter) && indices[voter] == committed_log_size
            &&& forall|p: Address|
                p != voter && successes.contains_key(p) && !waiting.contains_key(p)
                    ==> #[trigger] indices[p] == successes[p]
        },
{
}

/// Whatever its role, a leader's included, a replica grants a vote request
/// exactly when the proposed term is above its current term and the
/// candidate has committed at least as many entries as it has. It answers the
/// candidate alone, with its own term and committed size; when it grants the
/// vote it follows the candidate in the proposed term until `expiration_ms`
/// milliseconds from `now`, and otherwise its role stays as it was.
pub proof fn lemma_vote_granted_exactly_for_newer_term<R: Rsm>(
    before: Replica<R>,
    after: Replica<R>,
    sent: Seq<Envelope>,
    envelope: Envelope,
    now: u64,
    expiration_ms: u64,
    proposed: Term,
    last_log_term: Option<Term>,
    committed_log_size: u64,
)
    requires
        before.receive_step(&after, sent, envelope, now, expiration_ms),
        R::unwrap_message(envelope.message) == Ok::<RsmMessage<R>, Message>(
            RsmMessage::VoteReq {
                proposed_leadership_term: proposed,
                last_log_term,
                committed_log_size,
            },
        ),
    ensures
        ({
            let granted = proposed.0 > before.current_term().0 && committed_log_size
                >= before.committed();
            &&& sent.len() == 1
            &&& sent[0].from == before.address()
            &&& sent[0].to == envelope.from
            &&& sent[0].request_id == None::<u64>
            &&& sent[0].message == R::wrap_message(
                RsmMessage::VoteRes {
                    success: granted,
                    term: before.current_term(),
                    committed_log_size: before.committed(),
                },
            )
            &&& granted ==> after.role() == Role::Follower {
                leader: envelope.from,
                term: proposed,
                leader_timeout: (now + expiration_ms * 1000) as u64,
            }
            &&& !granted ==> after.role() == before.role()
        }),
        after.log() == before.log(),
        after.committed() == before.committed(),
{
}

/// Whatever its role, a leader's included, a replica that receives an append
/// request of a term above its current one follows the sender in that term
/// until `expiration_ms` milliseconds from `now`.
pub proof fn lemma_newer_append_makes_follower<R: Rsm>(
    before: Replica<R>,
    after: Replica<R>,
    sent: Seq<Envelope>,
    envelope: Envelope,
    now: u64,
    expiration_ms: u64,
    req: AppendReq<R::WriteReq>,
)
    requires
        before.receive_step(&after, sent, envelope, now, expiration_ms),
        R::unwrap_message(envelope.message) == Ok::<RsmMessage<R>, Message>(
            RsmMessage::AppendReq(req),
        ),
        before.current_term().0 < req.term.0,
    ensures
        after.role() == (Role::Follower {
            leader: envelope.from,
            term: req.term,
            leader_timeout: (now + expiration_ms * 1000) as u64,
        }),
{
}

/// A candidate or follower starts an election at its periodic step exactly
/// when its attempt expired or its leader timed out by `now`: it becomes a
/// candidate in the next term, with no vote granted yet, waiting for every
/// other peer until `expiration_ms` milliseconds from `now`, and sends each
/// other peer, in order, a vote request for that term. Before its time it
/// does nothing.
pub proof fn lemma_election_starts_when_time_is_up<R: Rsm>(
    before: Replica<R>,
    after: Replica<R>,
    sent: Seq<Envelope>,
    now: u64,
    expiration_ms: u64,
)
    requires
        before.cron_step(&after, sent, now, expiration_ms),
        !(before.role() is Leader),
    ensures
        ({
            let due = if before.role() is Candidate {
                now >= before.role()->attempt_expiration
            } else {
                now >= before.role()->leader_timeout
            };
            &&& !due ==> after.role() == before.role() && sent.len() == 0
            &&& due ==> {
                &&& after.role() is Candidate
                &&& after.current_term().0 == before.current_term().0 + 1
                &&& after.role()->successes@.dom() == Set::<Address>::empty()
                &&& forall|p: Address|
                    #[trigger] after.role()->outstanding_votes@.contains_key(p) <==> (
                    before.peers().contains(p) && p != before.address())
                &&& after.role()->attempt_expiration == now + expiration_ms * 1000
                &&& sent.len() == before.other_peers().len()
                &&& forall|k: int|
                    0 <= k < sent.len() ==> {
                        &&& (#[trigger] sent[k]).from == before.address()
                        &&& sent[k].to == before.other_peers()[k]
                        &&& sent[k].to != before.address()
                        &&& R::unwrap_message(sent[k].message) matches Ok(
                            RsmMessage::VoteReq { proposed_leadership_term, .. },
                        ) && proposed_leadership_term.0 == before.current_term().0 + 1
                    }
            }
        }),
        after.log() == before.log(),
        after.committed() == before.committed(),
{
    let pred = |a: Address| a != before.address();
    assert forall|p: Address| before.other_peers().contains(p) <==> (before.peers().contains(p)
        && p != before.address()) by {
        broadcast use vstd::seq_lib::group_filter_ensures;
        if before.other_peers().contains(p) {
            before.peers().lemma_filter_contains_rev(pred, p);
            let j = choose|j: int| 0 <= j < before.other_peers().len() && before.other_peers()[j] == p;
            assert(pred(before.peers().filter(pred)[j]));
        }
        if before.peers().contains(p) && p != before.address() {
            let i = choose|i: int| 0 <= i < before.peers().len() && before.peers()[i] == p;
            before.peers().lemma_filter_contains(pred, i);
        }
    }
    let due = if before.role() is Candidate {
        now >= before.role()->attempt_expiration
    } else {
        now >= before.role()->leader_timeout
    };
    if due {
        let msg = RsmMessage::<R>::VoteReq {
            proposed_leadership_term: Term((before.current_term().0 + 1) as u64),
            last_log_term: before.last_committed_term(),
            committed_log_size: before.committed(),
        };
        R::lemma_unwrap_wrap(msg);
        assert forall|k: int| 0 <= k < sent.len() implies sent[k].to != before.address() by {
            assert(before.other_peers().contains(before.other_peers()[k]));
        }
    }
}

/// An append request from the leader a replica follows after it, in that
/// leader's term (a newer term, or the term it already follows the sender
/// in): when the entries start where the replica's log ends, they are
/// appended and the committed size rises to the leader's, if that is larger,
/// with nothing sent; when they start elsewhere, the log stays and the leader
/// alone is told the log's size in the request's term. An append request
/// from anyone else, in an older or other term, changes neither log nor
/// commit point and is not answered.
pub proof fn lemma_append_from_followed_leader<R: Rsm>(
    before: Replica<R>,
    after: Replica<R>,
    sent: Seq<Envelope>,
    envelope: Envelope,
    now: u64,
    expiration_ms: u64,
    req: AppendReq<R::WriteReq>,
)
    requires
        before.receive_step(&after, sent, envelope, now, expiration_ms),
        R::unwrap_message(envelope.message) == Ok::<RsmMessage<R>, Message>(
            RsmMessage::AppendReq(req),
        ),
    ensures
        ({
            let follows = before.current_term().0 < req.term.0 || (before.role() is Follower
                && before.role()->leader == envelope.from && before.current_term() == req.term);
            &&& !follows ==> after.log() == before.log() && after.committed() == before.committed()
                && sent.len() == 0 && after.role() == before.role()
            &&& (follows && req.batch_start_log_index == before.log().len()) ==> {
                &&& after.log() == before.log() + req.entries@
                &&& after.committed() == if before.committed() >= req.leader_committed_log_size {
                    before.committed()
                } else {
                    req.leader_committed_log_size
                }
                &&& sent.len() == 0
            }
            &&& (follows && req.batch_start_log_index != before.log().len()) ==> {
                &&& after.log() == before.log()
                &&& after.committed() == before.committed()
                &&& sent.len() == 1
                &&& sent[0].from == before.address()
                &&& sent[0].to == envelope.from
                &&& sent[0].message == R::wrap_message(
                    RsmMessage::AppendRes(
                        AppendRes {
                            log_size: before.log().len() as u64,
                            term: req.term,
                            last_log_term: before.last_log_term(),
                        },
                    ),
                )
            }
        }),
{
}

/// Every answer to a client's read or write request, a result or a
/// redirect, goes from this replica to the requester under the request id of
/// the request it answers. A follower answers with exactly one redirect to
/// its leader in its term; a leader answers a read at once, and remembers a
/// write under its new log position with the requester and request id.
pub proof fn lemma_client_answers_carry_request_id<R: Rsm>(
    before: Replica<R>,
    after: Replica<R>,
    sent: Seq<Envelope>,
    envelope: Envelope,
    now: u64,
    expiration_ms: u64,
)
    requires
        before.receive_step(&after, sent, envelope, now, expiration_ms),
        (R::unwrap_message(envelope.message) matches Ok(RsmMessage::ReadReq(_)))
            || (R::unwrap_message(envelope.message) matches Ok(RsmMessage::WriteReq(_))),
    ensures
        forall|k: int|
            0 <= k < sent.len() ==> {
                &&& (#[trigger] sent[k]).from == before.address()
                &&& sent[k].to == envelope.from
                &&& sent[k].request_id == envelope.request_id
            },
        before.role() is Follower ==> sent.len() == 1 && sent[0].message == R::wrap_message(
            RsmMessage::Redirect { leader: before.role()->leader, term: before.current_term() },
        ),
        before.role() is Candidate ==> sent.len() == 0,
        (before.role() is Leader && (R::unwrap_message(envelope.message) matches Ok(
            RsmMessage::ReadReq(_),
        ))) ==> sent.len() == 1,
        (before.role() is Leader && (R::unwrap_message(envelope.message) matches Ok(
            RsmMessage::WriteReq(_),
        ))) ==> sent.len() == 0 && after.pending()[(before.log().len() + 1) as usize] == (
            envelope.from,
            envelope.request_id,
        ),
{
}

/// The number that `bytes` stand for, most significant byte first.
pub open spec fn be_value(bytes: Seq<u8>) -> nat
    decreases bytes.len(),
{
    if bytes.len() == 0 {
        0
    } else {
        be_value(bytes.drop_last()) * 256 + bytes.last() as nat
    }
}

/// 256 to the `n`.
pub open spec fn pow256(n: nat) -> nat
    decreases n,
{
    if n == 0 {
        1
    } else {
        256 * pow256((n - 1) as nat)
    }
}

/// `n` bytes stand for a number below 256 to the `n`.
pub proof fn lemma_be_value_bound(bytes: Seq<u8>)
    ensures
        be_value(bytes) < pow256(bytes.len()),
    decreases bytes.len(),
{
    if bytes.len() > 0 {
        let d = bytes.drop_last();
        lemma_be_value_bound(d);
        let a = be_value(d);
        let p = pow256(d.len());
        let b = bytes.last();
        assert(a * 256 + b < p * 256) by (nonlinear_arith)
            requires
                a < p,
                b < 256,
        ;
    }
}

/// The log index that a stored log key holds: a key of eight bytes, read
/// most significant byte first. Keys of another length hold none.
pub fn index_from_key(key: &Vec<u8>) -> (r: Option<u64>)
    ensures
        key@.len() == 8 ==> r == Some(be_value(key@) as u64) && be_value(key@) <= u64::MAX,
        key@.len() != 8 ==> r is None,
{
    if key.len() != 8 {
        return None;
    }
    let mut v: u64 = 0;
    let mut i: usize = 0;
    proof {
        assert(key@.take(0) =~= Seq::<u8>::empty());
        reveal_with_fuel(pow256, 9);
    }
    while i < 8
        invariant
            key@.len() == 8,
            i <= 8,
            v == be_value(key@.take(i as int)),
            pow256(8) == 0x1_0000_0000_0000_0000,
        decreases 8 - i,
    {
        proof {
            lemma_be_value_bound(key@.take(i as int));
            lemma_pow256_monotonic(i as nat, 7);
            assert(pow256(7) == 0x100_0000_0000_0000) by {
                reveal_with_fuel(pow256, 8);
            }
            assert(key@.take(i + 1).drop_last() =~= key@.take(i as int));
        }
        v = v * 256 + key[i] as u64;
        i = i + 1;
    }
    proof {
        assert(key@.take(8) =~= key@);
        lemma_be_value_bound(key@);
    }
    Some(v)
}

/// Powers of 256 grow with the exponent.
pub proof fn lemma_pow256_monotonic(a: nat, b: nat)
    requires
        a <= b,
    ensures
        pow256(a) <= pow256(b),
    decreases b,
{
    if a < b {
        lemma_pow256_monotonic(a, (b - 1) as nat);
    }
}

/// The eight bytes of `n`, most significant first: how a log index is
/// written as a key.
pub open spec fn be_bytes(n: u64) -> Seq<u8> {
    seq![
        (n >> 56u64) as u8,
        ((n >> 48u64) & 0xff) as u8,
        ((n >> 40u64) & 0xff) as u8,
        ((n >> 32u64) & 0xff) as u8,
        ((n >> 24u64) & 0xff) as u8,
        ((n >> 16u64) & 0xff) as u8,
        ((n >> 8u64) & 0xff) as u8,
        (n & 0xff) as u8,
    ]
}

/// A log index written as a key reads back as the same index: the key of
/// `n` is eight bytes long and holds `n`.
pub proof fn lemma_index_key_roundtrip(n: u64)
    ensures
        be_bytes(n).len() == 8,
        be_value(be_bytes(n)) == n,
{
    let s = be_bytes(n);
    let b0 = (n >> 56u64) as u8;
    let b1 = ((n >> 48u64) & 0xff) as u8;
    let b2 = ((n >> 40u64) & 0xff) as u8;
    let b3 = ((n >> 32u64) & 0xff) as u8;
    let b4 = ((n >> 24u64) & 0xff) as u8;
    let b5 = ((n >> 16u64) & 0xff) as u8;
    let b6 = ((n >> 8u64) & 0xff) as u8;
    let b7 = (n & 0xff) as u8;
    assert(s[0] == b0 && s[1] == b1 && s[2] == b2 && s[3] == b3);
    assert(s[4] == b4 && s[5] == b5 && s[6] == b6 && s[7] == b7);
    assert(s.take(1).last() == b0);
    assert(s.take(2).last() == b1);
    assert(s.take(3).last() == b2);
    assert(s.take(4).last() == b3);
    assert(s.take(5).last() == b4);
    assert(s.take(6).last() == b5);
    assert(s.take(7).last() == b6);
    assert(s.take(8).last() == b7);
    assert(be_value(Seq::<u8>::empty()) == 0);
    assert(s.take(1).drop_last() =~= Seq::<u8>::empty());
    assert(s.take(2).drop_last() =~= s.take(1));
    assert(s.take(3).drop_last() =~= s.take(2));
    assert(s.take(4).drop_last() =~= s.take(3));
    assert(s.take(5).drop_last() =~= s.take(4));
    assert(s.take(6).drop_last() =~= s.take(5));
    assert(s.take(7).drop_last() =~= s.take(6));
    assert(s.take(8).drop_last() =~= s.take(7));
    assert(s.take(8) =~= s);
    assert(be_value(s.take(1)) == b0);
    assert(be_value(s.take(2)) == b0 * 256 + b1);
    assert(be_value(s.take(3)) == (b0 * 256 + b1) * 256 + b2);
    assert(be_value(s.take(4)) == ((b0 * 256 + b1) * 256 + b2) * 256 + b3);
    assert(be_value(s.take(5)) == (((b0 * 256 + b1) * 256 + b2) * 256 + b3) * 256 + b4);
    assert(be_value(s.take(6)) == ((((b0 * 256 + b1) * 256 + b2) * 256 + b3) * 256 + b4) * 256
        + b5);
    assert(be_value(s.take(7)) == (((((b0 * 256 + b1) * 256 + b2) * 256 + b3) * 256 + b4) * 256
        + b5) * 256 + b6);
    assert(be_value(s) == ((((((b0 * 256 + b1) * 256 + b2) * 256 + b3) * 256 + b4) * 256 + b5)
        * 256 + b6) * 256 + b7);
    assert(n == ((((((b0 as u64 * 256 + b1 as u64) * 256 + b2 as u64) * 256 + b3 as u64) * 256
        + b4 as u64) * 256 + b5 as u64) * 256 + b6 as u64) * 256 + b7 as u64) by (bit_vector)
        requires
            b0 == (n >> 56u64) as u8,
            b1 == ((n >> 48u64) & 0xff) as u8,
            b2 == ((n >> 40u64) & 0xff) as u8,
            b3 == ((n >> 32u64) & 0xff) as u8,
            b4 == ((n >> 24u64) & 0xff) as u8,
            b5 == ((n >> 16u64) & 0xff) as u8,
            b6 == ((n >> 8u64) & 0xff) as u8,
            b7 == (n & 0xff) as u8,
    ;
}

/// Why stored log entries could not be read back as a log.
#[derive(Debug, Clone, Copy, PartialEq, Eq, Structural)]
pub enum LogError {
    /// The key at `position` does not hold a log index.
    MalformedKey { position: usize },
    /// The key at `position` holds `key_index`, where the entry that
    /// follows its predecessors belongs one past them.
    OutOfOrder { position: usize, key_index: u64 },
}

/// Whether the stored entry at `position` is keyed by the log index that
/// follows `index` and the entries before it.
pub open spec fn key_in_place(key: Seq<u8>, index: u64, position: int) -> bool {
    key.len() == 8 && be_value(key) == index + position + 1
}

/// The log entries stored after `index`, given as (key, entry) rows in key
/// order. Each row's key must hold the log index that follows `index` and
/// the rows before it; the first row that does not is reported.
pub fn log_after_index<Req>(index: u64, rows: Vec<(Vec<u8>, (Term, Req))>) -> (r: Result<
    Vec<(Term, Req)>,
    LogError,
>)
    ensures
        match r {
            Ok(log) => {
                &&& forall|i: int|
                    0 <= i < rows@.len() ==> key_in_place(#[trigger] rows@[i].0@, index, i)
                &&& log@ == rows@.map_values(|row: (Vec<u8>, (Term, Req))| row.1)
            },
            Err(LogError::MalformedKey { position }) => {
                &&& position < rows@.len()
                &&& rows@[position as int].0@.len() != 8
                &&& forall|i: int|
                    0 <= i < position ==> key_in_place(#[trigger] rows@[i].0@, index, i)
            },
            Err(LogError::OutOfOrder { position, key_index }) => {
                &&& position < rows@.len()
                &&& rows@[position as int].0@.len() == 8
                &&& key_index == be_value(rows@[position as int].0@)
                &&& key_index != index + position + 1
                &&& forall|i: int|
                    0 <= i < position ==> key_in_place(#[trigger] rows@[i].0@, index, i)
            },
        },
{
    let n = rows.len();
    let mut i: usize = 0;
    while i < n
        invariant
            n == rows@.len(),
            i <= n,
            forall|j: int| 0 <= j < i ==> key_in_place(#[trigger] rows@[j].0@, index, j),
        decreases n - i,
    {
        match index_from_key(&rows[i].0) {
            None => {
                return Err(LogError::MalformedKey { position: i });
            },
            Some(key_index) => {
                if key_index < index || key_index - index != (i as u64) + 1 {
                    return Err(LogError::OutOfOrder { position: i, key_index });
                }
            },
        }
        i = i + 1;
    }
    let ghost all = rows@;
    let mut rows = rows;
    let mut reversed: Vec<(Term, Req)> = Vec::new();
    while rows.len() > 0
        invariant
            rows@ == all.take(rows@.len() as int),
            rows@.len() <= all.len(),
            reversed@.len() == all.len() - rows@.len(),
            forall|k: int|
                0 <= k < reversed@.len() ==> #[trigger] reversed@[k] == all[all.len() - 1 - k].1,
        decreases rows@.len(),
    {
        let row = rows.pop().unwrap();
        reversed.push(row.1);
        proof {
            assert(rows@ =~= all.take(rows@.len() as int));
        }
    }
    let mut log: Vec<(Term, Req)> = Vec::new();
    while reversed.len() > 0
        invariant
            reversed@.len() <= all.len(),
            log@.len() == all.len() - reversed@.len(),
            forall|k: int|
                0 <= k < reversed@.len() ==> #[trigger] reversed@[k] == all[all.len() - 1 - k].1,
            forall|k: int| 0 <= k < log@.len() ==> #[trigger] log@[k] == all[k].1,
        decreases reversed@.len(),
    {
        let e = reversed.pop().unwrap();
        log.push(e);
    }
    proof {
        assert(log@ =~= all.map_values(|row: (Vec<u8>, (Term, Req))| row.1));
    }
    Ok(log)
}


/// A client of a replicated state machine. It sends each request to the
/// replica it believes leads, and follows redirects until a leader answers.
pub struct RsmClient<R: Rsm> {
    /// How long to wait for an answer, in microseconds.
    pub timeout: u64,
    pub retries: usize,
    pub peers: Vec<Address>,
    pub leader: Address,
    pub pd: core::marker::PhantomData<R>,
}

impl<R: Rsm> RsmClient<R> {
    /// The message that asks for the read `req`.
    pub fn read_request(req: R::ReadReq) -> (m: Message)
        ensures
            m == R::wrap_message(RsmMessage::ReadReq(req)),
    {
        R::wrap(RsmMessage::ReadReq(req))
    }

    /// The message that asks for the write `req`.
    pub fn write_request(req: R::WriteReq) -> (m: Message)
        ensures
            m == R::wrap_message(RsmMessage::WriteReq(req)),
    {
        R::wrap(RsmMessage::WriteReq(req))
    }

    /// Whether `reply` answers a read: a redirect or a read result of this
    /// machine.
    pub open spec fn read_reply_ok(reply: Message) -> bool {
        match R::unwrap_message(reply) {
            Ok(RsmMessage::Redirect { .. }) => true,
            Ok(RsmMessage::ReadRes(_)) => true,
            _ => false,
        }
    }

    /// Whether `reply` answers a write: a redirect or a write result of this
    /// machine.
    pub open spec fn write_reply_ok(reply: Message) -> bool {
        match R::unwrap_message(reply) {
            Ok(RsmMessage::Redirect { .. }) => true,
            Ok(RsmMessage::WriteRes(_)) => true,
            _ => false,
        }
    }

    /// Computes `read_reply_ok`.
    pub fn accepts_read_reply(reply: &Message) -> (b: bool)
        ensures
            b == Self::read_reply_ok(*reply),
    {
        match R::peek(reply) {
            Some(RsmMessage::Redirect { .. }) => true,
            Some(RsmMessage::ReadRes(_)) => true,
            _ => false,
        }
    }

    /// Computes `write_reply_ok`.
    pub fn accepts_write_reply(reply: &Message) -> (b: bool)
        ensures
            b == Self::write_reply_ok(*reply),
    {
        match R::peek(reply) {
            Some(RsmMessage::Redirect { .. }) => true,
            Some(RsmMessage::WriteRes(_)) => true,
            _ => false,
        }
    }

    /// Takes the reply to a read. A redirect makes the named replica the
    /// leader to ask next, and gives no result; a read result is the answer.
    pub fn read_reply(&mut self, reply: Message) -> (r: Option<R::ReadRes>)
        requires
            Self::read_reply_ok(reply),
        ensures
            final(self).timeout == old(self).timeout,
            final(self).retries == old(self).retries,
            final(self).peers == old(self).peers,
            match R::unwrap_message(reply) {
                Ok(RsmMessage::Redirect { leader, .. }) => r is None && final(self).leader
                    == leader,
                Ok(RsmMessage::ReadRes(res)) => r == Some(res) && final(self).leader == old(
                    self,
                ).leader,
                _ => false,
            },
    {
        match R::unwrap(reply) {
            Ok(RsmMessage::Redirect { leader, .. }) => {
                self.leader = leader;
                None
            },
            Ok(RsmMessage::ReadRes(res)) => Some(res),
            _ => None,
        }
    }

    /// Takes the reply to a write. A redirect makes the named replica the
    /// leader to ask next, and gives no result; a write result is the answer.
    pub fn write_reply(&mut self, reply: Message) -> (r: Option<R::WriteRes>)
        requires
            Self::write_reply_ok(reply),
        ensures
            final(self).timeout == old(self).timeout,
            final(self).retries == old(self).retries,
            final(self).peers == old(self).peers,
            match R::unwrap_message(reply) {
                Ok(RsmMessage::Redirect { leader, .. }) => r is None && final(self).leader
                    == leader,
                Ok(RsmMessage::WriteRes(res)) => r == Some(res) && final(self).leader == old(
                    self,
                ).leader,
                _ => false,
            },
    {
        match R::unwrap(reply) {
            Ok(RsmMessage::Redirect { leader, .. }) => {
                self.leader = leader;
                None
            },
            Ok(RsmMessage::WriteRes(res)) => Some(res),
            _ => None,
        }
    }
}

} // verus!
