// Copyright 2023 Memgraph Ltd.
//
// Use of this software is governed by the Business Source License
// included in the file licenses/BSL.txt; by using this file, you agree to be bound by the terms of the Business Source
// License, and you may not use this file except in compliance with the Business Source License.
//
// As of the Change Date specified in that file, in accordance with
// the Business Source License, use of this software will be governed
// by the Apache License, Version 2.0, included in the file
// licenses/APL.txt.

//! The data model shared by the cluster: keys, values and hybrid logical clocks.
use vstd::prelude::*;

verus! {

pub type PropertyId = u64;

pub type EdgeLabelId = u64;

pub type VertexLabelId = u64;

pub type EdgePropertyId = u64;

pub type VertexPropertyId = u64;

/// A hybrid logical clock: a logical counter next to the coordinator's wall
/// clock, kept as microseconds since the Unix epoch.
#[derive(Debug, Clone, Copy, PartialEq, Eq, Structural, PartialOrd, Ord, Hash)]
pub struct Hlc {
    pub logical: u64,
    pub coordinator_wall: u64,
}

#[derive(Debug, PartialEq, Eq, PartialOrd, Ord, Hash)]
pub struct VersionedKey {
    pub key: Key,
    pub version: Hlc,
}

/// Key is a unified way of keying all data in the system. While it is an
/// enum here, it is semantic sugar for a tuple of several fields, some of
/// them optional, as the more complex ones are a superset of the less
/// complex ones.
#[allow(inconsistent_fields)]
#[derive(Debug, PartialEq, Eq, PartialOrd, Ord, Hash)]
pub enum Key {
    Vertex { label: VertexLabelId, key: Vec<Value> },
    VertexProperty { label: VertexLabelId, key: Vec<Value>, property: VertexPropertyId },
    Edge {
        edge_label: EdgeLabelId,
        from_label: VertexLabelId,
        from_key: Vec<Value>,
        to_label: VertexLabelId,
        to_key: Vec<Value>,
    },
    EdgeProperty {
        edge_label: VertexLabelId,
        edge_property: EdgePropertyId,
        from_label: VertexLabelId,
        from_key: Vec<Value>,
        to_label: VertexLabelId,
        to_key: Vec<Value>,
    },
}

/// The least key: the vertex with label 0 and an empty key.
impl Default for Key {
    fn default() -> (k: Key)
        ensures
            k matches Key::Vertex { label, key } && label == 0 && key@.len() == 0,
    {
        Key::Vertex { label: 0, key: Vec::new() }
    }
}

#[derive(Debug, Default, Clone, Copy, PartialEq, Eq, Structural, PartialOrd, Ord, Hash)]
pub enum SchemaPart {
    #[default]
    Int,
    String,
    Mapping,
    List,
    Time,
}

/// A property value. A mapping keeps its entries as a list of key/value
/// pairs in which no key occurs twice (`wf`).
#[derive(Debug, PartialEq, Eq, PartialOrd, Ord, Hash)]
pub enum Value {
    Int(i64),
    String(String),
    Mapping(Vec<(Key, Value)>),
    List(Vec<Value>),
}

impl Value {
    /// Well formed: no mapping, here or nested inside, holds a key twice.
    pub open spec fn wf(self) -> bool
        decreases self,
    {
        match self {
            Value::Mapping(entries) => {
                &&& forall|i: int, j: int|
                    0 <= i < j < entries@.len() ==> #[trigger] entries@[i].0
                        != #[trigger] entries@[j].0
                &&& forall|i: int|
                    0 <= i < entries@.len() ==> {
                        let v = (#[trigger] entries@[i]).1;
                        v.wf()
                    }
            },
            Value::List(items) => forall|i: int|
                0 <= i < items@.len() ==> (#[trigger] items@[i]).wf(),
            _ => true,
        }
    }
}

} // verus!
