// Copyright 2023 Memgraph Ltd.
//
// Use of this software is governed by the Business Source License
// included in the file licenses/BSL.txt; by using this file, you agree to be bound by the terms of the Business Source
// License, and you may not use this file except in compliance with the Business Source License.
//
// As of the Change Date specified in that file, in accordance with
// the Business Source License, use of this software will be governed
// by the Apache License, Version 2.0, included in the file
// licenses/APL.txt.

//! What the cluster knows about itself: its coordinators, schemas and shards.
use vstd::prelude::*;

use crate::common::{Hlc, Key, SchemaPart};
use crate::net::Address;

verus! {

pub type SchemaId = u64;

/// The parts a schema is made of, in order.
pub type Schema = Vec<SchemaPart>;

#[derive(Debug, Clone, Copy, PartialEq, Eq, Structural, PartialOrd, Ord, Hash)]
pub struct PeerMetadata {
    pub address: Address,
}

#[derive(Debug, PartialEq, Eq, PartialOrd, Ord, Hash)]
pub struct ShardMetadata {
    pub low_key: Key,
    pub high_key: Option<Key>,
    pub shard_version: u64,
    pub peers: Vec<PeerMetadata>,
}

/// A schema with its shards, each under its low key; no low key occurs
/// twice (`wf`).
#[derive(Debug, PartialEq, Eq, PartialOrd, Ord, Hash)]
pub struct SchemaMetadata {
    pub schema: Schema,
    pub shards: Vec<(Key, ShardMetadata)>,
}

/// The cluster's metadata. The maps between names and ids, and the schemas,
/// are kept as lists of entries; `wf` says that no key occurs twice and that
/// entries keyed by id come in increasing order of id.
#[derive(Debug, PartialEq, Eq, PartialOrd, Ord, Hash)]
pub struct ClusterMetadata {
    pub version: Hlc,
    pub coordinators: Vec<Address>,
    pub name_to_id: Vec<(String, u64)>,
    pub id_to_name: Vec<(u64, String)>,
    pub schemas: Vec<(SchemaId, SchemaMetadata)>,
}

impl SchemaMetadata {
    pub open spec fn wf(&self) -> bool {
        forall|i: int, j: int|
            0 <= i < j < self.shards@.len() ==> #[trigger] self.shards@[i].0
                != #[trigger] self.shards@[j].0
    }
}

impl ClusterMetadata {
    pub open spec fn wf(&self) -> bool {
        &&& forall|i: int, j: int|
            0 <= i < j < self.name_to_id@.len() ==> #[trigger] self.name_to_id@[i].0@
                != #[trigger] self.name_to_id@[j].0@
        &&& forall|i: int, j: int|
            0 <= i < j < self.id_to_name@.len() ==> #[trigger] self.id_to_name@[i].0
                < #[trigger] self.id_to_name@[j].0
        &&& forall|i: int, j: int|
            0 <= i < j < self.schemas@.len() ==> #[trigger] self.schemas@[i].0
                < #[trigger] self.schemas@[j].0
        &&& forall|i: int| 0 <= i < self.schemas@.len() ==> (#[trigger] self.schemas@[i]).1.wf()
    }

    /// A fresh id: advances the logical clock of the version by one and
    /// returns it.
    pub fn idgen(&mut self) -> (id: u64)
        requires
            old(self).version.logical < u64::MAX,
        ensures
            id == old(self).version.logical + 1,
            final(self).wf() == old(self).wf(),
            final(self).version == (Hlc { logical: id, ..old(self).version }),
            final(self).coordinators == old(self).coordinators,
            final(self).name_to_id == old(self).name_to_id,
            final(self).id_to_name == old(self).id_to_name,
            final(self).schemas == old(self).schemas,
    {
        self.version.logical = self.version.logical + 1;
        proof {
            assert(self.name_to_id@ == old(self).name_to_id@);
            assert(self.id_to_name@ == old(self).id_to_name@);
            assert(self.schemas@ == old(self).schemas@);
        }
        self.version.logical
    }
}

} // verus!
