// Copyright 2023 Memgraph Ltd.
//
// Use of this software is governed by the Business Source License
// included in the file licenses/BSL.txt; by using this file, you agree to be bound by the terms of the Business Source
// License, and you may not use this file except in compliance with the Business Source License.
//
// As of the Change Date specified in that file, in accordance with
// the Business Source License, use of this software will be governed
// by the Apache License, Version 2.0, included in the file
// licenses/APL.txt.

//! The coordinator: a replicated state machine that hands out the shard map.
use vstd::prelude::*;

use crate::net::Message;
use crate::rsm::{Rsm, RsmMessage};

verus! {

#[derive(Debug, Default, Clone, Copy, PartialEq, Eq, Structural, PartialOrd, Ord, Hash)]
pub struct ShardMap {}

#[derive(Debug, Clone, Copy, PartialEq, Eq, Structural, PartialOrd, Ord, Hash)]
pub enum CoordinatorReadReq {
    GetShardMap,
}

#[derive(Debug, Clone, Copy, PartialEq, Eq, Structural, PartialOrd, Ord, Hash)]
pub enum CoordinatorReadRes {
    GetShardMap(ShardMap),
}

/// A write request to the coordinator. The coordinator accepts none yet:
/// the type has no public constructor, and no value of it is ever applied.
#[derive(Debug, Clone, Copy, PartialEq, Eq, Structural, PartialOrd, Ord, Hash)]
pub struct CoordinatorWriteReq {
    no_variant_yet: bool,
}

/// The answer to a coordinator write request; like the request, it has no
/// value that the coordinator produces.
#[derive(Debug, Clone, Copy, PartialEq, Eq, Structural, PartialOrd, Ord, Hash)]
pub struct CoordinatorWriteRes {
    no_variant_yet: bool,
}

#[derive(Debug, Default, Clone, Copy, PartialEq, Eq, Structural, PartialOrd, Ord, Hash)]
pub struct Coordinator {
    pub shard_map: ShardMap,
}

impl Rsm for Coordinator {
    type ReadReq = CoordinatorReadReq;
    type ReadRes = CoordinatorReadRes;
    type WriteReq = CoordinatorWriteReq;
    type WriteRes = CoordinatorWriteRes;

    open spec fn read_result(&self, request: CoordinatorReadReq) -> CoordinatorReadRes {
        match request {
            CoordinatorReadReq::GetShardMap => CoordinatorReadRes::GetShardMap(self.shard_map),
        }
    }

    open spec fn write_accepted(request: CoordinatorWriteReq) -> bool {
        false
    }

    closed spec fn write_result(self, request: CoordinatorWriteReq) -> (Self, CoordinatorWriteRes) {
        (self, CoordinatorWriteRes { no_variant_yet: false })
    }

    open spec fn wrap_message(msg: RsmMessage<Coordinator>) -> Message {
        Message::Coordinator(msg)
    }

    open spec fn unwrap_message(msg: Message) -> Result<RsmMessage<Coordinator>, Message> {
        match msg {
            Message::Coordinator(wrapped) => Ok(wrapped),
            _ => Err(msg),
        }
    }

    fn read(&self, request: CoordinatorReadReq) -> (res: CoordinatorReadRes) {
        match request {
            CoordinatorReadReq::GetShardMap => CoordinatorReadRes::GetShardMap(self.shard_map),
        }
    }

    fn write(&mut self, request: &CoordinatorWriteReq) -> (res: CoordinatorWriteRes) {
        CoordinatorWriteRes { no_variant_yet: false }
    }

    fn wrap(msg: RsmMessage<Coordinator>) -> (m: Message) {
        Message::Coordinator(msg)
    }

    fn unwrap(msg: Message) -> (r: Result<RsmMessage<Coordinator>, Message>) {
        match msg {
            Message::Coordinator(wrapped) => Ok(wrapped),
            _ => Err(msg),
        }
    }

    fn accepts_write(request: &CoordinatorWriteReq) -> (b: bool) {
        false
    }

    fn peek(msg: &Message) -> (r: Option<&RsmMessage<Coordinator>>) {
        match msg {
            Message::Coordinator(wrapped) => Some(wrapped),
            _ => None,
        }
    }

    fn clone_write_req(request: &CoordinatorWriteReq) -> (r: CoordinatorWriteReq) {
        *request
    }

    proof fn lemma_unwrap_wrap(msg: RsmMessage<Coordinator>) {
    }

    proof fn lemma_wrap_unwrap(msg: Message) {
    }
}

} // verus!
