# Shredstream forwarder

Receives batches of packets on a few UDP listeners and sends every packet that is not a duplicate
to every destination.

- `src/` is the library, verified with Verus: deduplication and per-source counters (`packet`,
  `filter`, `sources`), what a coordinator does with a batch (`coordinator`, `channel`), the
  end-to-end barrier of a batch and the times (`trace`, `counter`, `barrier`, `clock`), sending by
  a shard (`shard`, `sendmmsg`), the distribution of destinations over shards and the reuse of
  their sockets (`reshard`, `reshard_laws`, `pool`), what reaches the destinations (`delivery`),
  the set of destinations (`discovery`), counters and the rows made of them (`metrics`, `absorb`,
  `report`, `latency`), and what each thread does with what it waits for (`control`).
- `app/` holds threads, sockets, HTTP and logging around the library.
- `tests/` runs the library with the real channel, packet, filter and table types.

Functions marked `#[verifier::external_body]` are the boundary to other crates: what they promise
is believed, and each says in its doc comment what it calls and what it claims.

## Behaviour worth knowing

- A destination that stays in the set keeps its connected socket, also where it moves to another
  shard. Shards are IPv4-only; IPv6 destinations are skipped, but count as destinations.
- With the first packet that a socket refuses, sending to its destination ends for the batch: the
  packets before it count as sent, that one and those after it as failed.
- Threads measure and record on counters of their own, which the shared ones absorb afterwards.
- Times are measured only with the `trace` log level for the forwarder. A batch that no shard could
  be reached with has no end-to-end time.
- Counters wrap around at 2^64.
