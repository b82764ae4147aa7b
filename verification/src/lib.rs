//! Fan-out of packet batches from a few listeners to many UDP destinations.

pub mod absorb;
pub mod addr;
pub mod assignment_laws;
pub mod barrier;
pub mod channel;
pub mod clock;
pub mod control;
pub mod coordinator;
pub mod counter;
pub mod delivery;
pub mod discovery;
pub mod error;
pub mod filter;
pub mod latency;
pub mod metrics;
pub mod packet;
pub mod pool;
pub mod report;
pub mod reshard;
pub mod reshard_laws;
pub mod sendmmsg;
pub mod shard;
pub mod sources;
pub mod trace;
