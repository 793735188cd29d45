// Copyright 2023 Memgraph Ltd.
//
// Use of this software is governed by the Business Source License
// included in the file licenses/BSL.txt; by using this file, you agree to be bound by the terms of the Business Source
// License, and you may not use this file except in compliance with the Business Source License.
//
// As of the Change Date specified in that file, in accordance with
// the Business Source License, use of this software will be governed
// by the Apache License, Version 2.0, included in the file
// licenses/APL.txt.

pub mod common;
pub mod coordinator;
pub mod io;
pub mod key_range;
pub mod machine_manager;
pub mod metadata;
pub mod net;
pub mod rsm;
pub mod shard;
pub mod simulator;
pub mod vecmap;
