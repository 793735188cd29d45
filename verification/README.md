# memgraph

A verified core for a small distributed graph store: replicated state
machines that elect a leader and replicate a log in the style of Raft, a
machine that hosts a coordinator replica and shard replicas, and a
deterministic network simulator. The library is written in Verus; its
functions carry contracts that Verus proves.

## Layout

- `src/` — the verified library.
  - `common.rs`: keys, values and hybrid logical clocks.
  - `net.rs`: addresses, messages and envelopes.
  - `rsm.rs`: the `Rsm` trait for replicable state machines; the replica
    (`Replica`), whose handlers are exact state transitions that return the
    envelopes to send; the client's reply handling (`RsmClient`); reading a
    stored log back (`log_after_index`, `index_from_key`).
  - `coordinator.rs`, `shard.rs`: the two replicated state machines.
  - `machine_manager.rs`: routing envelopes to the hosted replicas, and the
    names of the trees replicas are stored in.
  - `simulator.rs`: the simulated network's state: where each envelope goes,
    the simulated clock, and its random number generator.
  - `metadata.rs`: cluster metadata.
  - `io.rs`: the `Handle` trait of the environment and `Io`.
  - `key_range.rs`: ranges over fixed-width keys built from raw generator
    bytes.
  - `vecmap.rs`: an association list with a map view.
- `app/` — the program around the library: the simulator's threads and
  channels, storage on `sled` with `bincode`, and the machine's main loop.
- `tests/` — tests of the library.

## Time and randomness

Replica handlers take the current time (microseconds since the Unix epoch)
and an election timeout drawn at random (milliseconds) as arguments; the
program reads the clock, draws a timeout only where the library says the step
uses one (`handle_draws_timeout`, `elections_due`), then calls the handler and
sends what it returns.
