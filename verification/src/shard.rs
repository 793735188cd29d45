// Copyright 2023 Memgraph Ltd.
//
// Use of this software is governed by the Business Source License
// included in the file licenses/BSL.txt; by using this file, you agree to be bound by the terms of the Business Source
// License, and you may not use this file except in compliance with the Business Source License.
//
// As of the Change Date specified in that file, in accordance with
// the Business Source License, use of this software will be governed
// by the Apache License, Version 2.0, included in the file
// licenses/APL.txt.

//! A shard: a replicated state machine that holds part of the graph.
use vstd::prelude::*;

use crate::net::Message;
use crate::rsm::{Rsm, RsmMessage};

verus! {

#[derive(Debug, Clone, Copy, PartialEq, Eq, Structural, PartialOrd, Ord, Hash)]
pub enum ShardReadReq {
    ScanAll,
}

#[derive(Debug, Clone, Copy, PartialEq, Eq, Structural, PartialOrd, Ord, Hash)]
pub struct ScanAll;

#[derive(Debug, Clone, Copy, PartialEq, Eq, Structural, PartialOrd, Ord, Hash)]
pub enum ShardReadRes {
    ScanAll(ScanAll),
}

/// A write request to a shard. Shards accept none yet: the type has no
/// public constructor, and no value of it is ever applied.
#[derive(Debug, Clone, Copy, PartialEq, Eq, Structural, PartialOrd, Ord, Hash)]
pub struct ShardWriteReq {
    no_variant_yet: bool,
}

/// The answer to a shard write request; like the request, it has no value
/// that a shard produces.
#[derive(Debug, Clone, Copy, PartialEq, Eq, Structural, PartialOrd, Ord, Hash)]
pub struct ShardWriteRes {
    no_variant_yet: bool,
}

#[derive(Debug, Default, Clone, Copy, PartialEq, Eq, Structural, PartialOrd, Ord, Hash)]
pub struct Shard {}

impl Rsm for Shard {
    type ReadReq = ShardReadReq;
    type ReadRes = ShardReadRes;
    type WriteReq = ShardWriteReq;
    type WriteRes = ShardWriteRes;

    open spec fn read_result(&self, request: ShardReadReq) -> ShardReadRes {
        match request {
            ShardReadReq::ScanAll => ShardReadRes::ScanAll(ScanAll),
        }
    }

    open spec fn write_accepted(request: ShardWriteReq) -> bool {
        false
    }

    closed spec fn write_result(self, request: ShardWriteReq) -> (Self, ShardWriteRes) {
        (self, ShardWriteRes { no_variant_yet: false })
    }

    open spec fn wrap_message(msg: RsmMessage<Shard>) -> Message {
        Message::Shard(msg)
    }

    open spec fn unwrap_message(msg: Message) -> Result<RsmMessage<Shard>, Message> {
        match msg {
            Message::Shard(wrapped) => Ok(wrapped),
            _ => Err(msg),
        }
    }

    fn read(&self, request: ShardReadReq) -> (res: ShardReadRes) {
        match request {
            ShardReadReq::ScanAll => ShardReadRes::ScanAll(ScanAll),
        }
    }

    fn write(&mut self, request: &ShardWriteReq) -> (res: ShardWriteRes) {
        ShardWriteRes { no_variant_yet: false }
    }

    fn wrap(msg: RsmMessage<Shard>) -> (m: Message) {
        Message::Shard(msg)
    }

    fn unwrap(msg: Message) -> (r: Result<RsmMessage<Shard>, Message>) {
        match msg {
            Message::Shard(wrapped) => Ok(wrapped),
            _ => Err(msg),
        }
    }

    fn accepts_write(request: &ShardWriteReq) -> (b: bool) {
        false
    }

    fn peek(msg: &Message) -> (r: Option<&RsmMessage<Shard>>) {
        match msg {
            Message::Shard(wrapped) => Some(wrapped),
            _ => None,
        }
    }

    fn clone_write_req(request: &ShardWriteReq) -> (r: ShardWriteReq) {
        *request
    }

    proof fn lemma_unwrap_wrap(msg: RsmMessage<Shard>) {
    }

    proof fn lemma_wrap_unwrap(msg: Message) {
    }
}

} // verus!
