// Copyright 2023 Memgraph Ltd.
//
// Use of this software is governed by the Business Source License
// included in the file licenses/BSL.txt; by using this file, you agree to be bound by the terms of the Business Source
// License, and you may not use this file except in compliance with the Business Source License.
//
// As of the Change Date specified in that file, in accordance with
// the Business Source License, use of this software will be governed
// by the Apache License, Version 2.0, included in the file
// licenses/APL.txt.

//! Addresses, messages and envelopes exchanged between machines.
use vstd::prelude::*;

use crate::coordinator::Coordinator;
use crate::rsm::RsmMessage;
use crate::shard::Shard;
use crate::vecmap::KeyEq;

verus! {

/// The identifier of a replicated state machine.
pub type RsmId = u64;

/// An IP address: four octets (IPv4) or eight segments (IPv6), each packed
/// into one integer, most significant first.
#[derive(Debug, Clone, Copy, PartialEq, Eq, Structural, PartialOrd, Ord, Hash)]
pub enum IpAddr {
    V4(u32),
    V6(u128),
}

/// Where a replicated state machine can be reached.
#[derive(Debug, Clone, Copy, PartialEq, Eq, Structural, PartialOrd, Ord, Hash)]
pub struct Address {
    pub id: RsmId,
    pub port: u16,
    pub ip_addr: IpAddr,
}

impl KeyEq for Address {
    fn eq_key(&self, other: &Self) -> (b: bool) {
        *self == *other
    }
}

#[derive(Debug, Clone)]
pub enum Message {
    Coordinator(RsmMessage<Coordinator>),
    Shard(RsmMessage<Shard>),
}

#[derive(Debug, Clone)]
pub struct Envelope {
    pub from: Address,
    pub to: Address,
    pub message: Message,
    pub request_id: Option<u64>,
}

} // verus!
