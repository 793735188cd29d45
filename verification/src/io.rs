// Copyright 2023 Memgraph Ltd.
//
// Use of this software is governed by the Business Source License
// included in the file licenses/BSL.txt; by using this file, you agree to be bound by the terms of the Business Source
// License, and you may not use this file except in compliance with the Business Source License.
//
// As of the Change Date specified in that file, in accordance with
// the Business Source License, use of this software will be governed
// by the Apache License, Version 2.0, included in the file
// licenses/APL.txt.

//! The environment a machine runs in: how it sends and receives envelopes,
//! reads the clock and sets timers.
use vstd::prelude::*;

use crate::net::{Address, Envelope};

verus! {

/// What a machine can ask of its environment. Times are microseconds since
/// the Unix epoch; durations are microseconds.
pub trait Handle {
    type ReceiveFuture;
    type RequestFuture;
    type TimerFuture;

    fn should_shutdown(&self) -> bool;

    fn shutdown(&self);

    fn send(&self, envelope: Envelope);

    fn receive(&self, timeout: u64, receiver_address: &Address) -> Self::ReceiveFuture;

    fn request(&self, timeout: u64, request_envelope: Envelope) -> Self::RequestFuture;

    fn now(&self) -> u64;

    fn timer(&self, duration: u64) -> Self::TimerFuture;

    fn idgen(&self) -> u64;

    fn rand(&self, low: u64, high: u64) -> u64;
}

/// A machine's view of its environment: its own address, how long it waits
/// for a message (in microseconds), and the handle that does the work.
pub struct Io<H> {
    pub timeout: u64,
    pub handle: H,
    pub address: Address,
}

impl<H: Handle> Io<H> {
    /// Asks the handle to send `envelope`.
    pub fn send(&self, envelope: Envelope)
        ensures
            call_ensures(H::send, (&self.handle, envelope), ()),
    {
        self.handle.send(envelope)
    }

    /// What the handle answers when asked whether to shut down.
    pub fn should_shutdown(&self) -> (b: bool)
        ensures
            call_ensures(H::should_shutdown, (&self.handle,), b),
    {
        self.handle.should_shutdown()
    }

    /// The time the handle reports.
    pub fn now(&self) -> (t: u64)
        ensures
            call_ensures(H::now, (&self.handle,), t),
    {
        self.handle.now()
    }

    /// The timer the handle sets for `duration`.
    pub fn timer(&self, duration: u64) -> (f: H::TimerFuture)
        ensures
            call_ensures(H::timer, (&self.handle, duration), f),
    {
        self.handle.timer(duration)
    }
}

} // verus!
