//! What each thread of the forwarder does with what it waits for. A thread that is not told to
//! stop goes on until the flag for the end of the process is set.
use vstd::prelude::*;

use crate::addr::SocketAddr;

verus! {

/// How many batches wait for a shard before the next one is dropped for it.
pub const SHARD_CHANNEL_CAPACITY: usize = 1024;

/// How many batches wait for reconstruction before the next one is dropped.
pub const RECONSTRUCT_CHANNEL_CAPACITY: usize = 1024;

/// How often the destinations are distributed over the shards anew, in seconds.
pub const SHARD_RECONCILE_INTERVAL_SECS: u64 = 5;

/// How often the discovery service is asked, in seconds.
pub const DESTINATION_REFRESH_INTERVAL_SECS: u64 = 30;

/// How often the size of the destination set is reported, in seconds.
pub const DESTINATION_METRICS_INTERVAL_SECS: u64 = 30;

/// How often the filter for duplicates is looked at, in seconds.
pub const DEDUPER_CHECK_INTERVAL_SECS: u64 = 2;

/// After how many seconds the filter for duplicates starts over.
pub const DEDUPER_RESET_CYCLE_SECS: u64 = 300;

/// How long the reconstructing thread waits for a batch, in milliseconds.
pub const RECONSTRUCT_TIMEOUT_MS: u64 = 100;

/// The most listener threads, unless their number is configured.
pub const MAX_LISTENERS: usize = 4;

/// Channels hold 1024 batches. Destinations are distributed every 5 seconds, and found and reported
/// every 30. The filter for duplicates is looked at every 2 seconds and starts over every 5 minutes.
pub proof fn limits_and_intervals()
    ensures
        SHARD_CHANNEL_CAPACITY == 1024,
        RECONSTRUCT_CHANNEL_CAPACITY == 1024,
        SHARD_RECONCILE_INTERVAL_SECS == 5,
        DESTINATION_REFRESH_INTERVAL_SECS == 30,
        DESTINATION_METRICS_INTERVAL_SECS == 30,
        DEDUPER_CHECK_INTERVAL_SECS == 2,
        DEDUPER_RESET_CYCLE_SECS == 5 * 60,
        RECONSTRUCT_TIMEOUT_MS == 100,
{
}

/// Picks the number of listener threads: the configured one, or else one per core up to a limit.
pub fn listener_threads(num_threads: Option<usize>, parallelism: usize) -> (n: usize)
    ensures
        n == (match num_threads {
            Some(n) => n,
            None => if parallelism < MAX_LISTENERS {
                parallelism
            } else {
                MAX_LISTENERS
            },
        }),
        num_threads is None ==> n <= 4 && n <= parallelism && (n == 4 || n == parallelism),
{
    match num_threads {
        Some(n) => n,
        None => if parallelism < MAX_LISTENERS {
            parallelism
        } else {
            MAX_LISTENERS
        },
    }
}

/// The range of ports to bind listeners in: the configured port, and the one after it, where the
/// range ends.
pub fn listener_ports(src_port: u16) -> (range: (u16, u16))
    requires
        src_port < u16::MAX,
    ensures
        range.0 == src_port,
        range.1 == src_port + 1,
{
    (src_port, src_port + 1)
}

/// What a coordinator finds when it waits for a batch.
#[derive(Clone, Copy, Debug, PartialEq, Eq, Structural)]
pub enum CoordinatorEvent {
    /// A batch was received and handled.
    Handled,
    /// The listener is gone.
    Failed,
    Shutdown,
}

/// Whether a coordinator waits for the next batch. It stops when asked to, and when its listener
/// is gone.
pub fn coordinator_goes_on(event: CoordinatorEvent) -> (go_on: bool)
    ensures
        go_on <==> event == CoordinatorEvent::Handled,
{
    match event {
        CoordinatorEvent::Handled => true,
        CoordinatorEvent::Failed => false,
        CoordinatorEvent::Shutdown => false,
    }
}

/// What the reconstructing thread finds when it waits for a batch.
#[derive(Clone, Copy, Debug, PartialEq, Eq, Structural)]
pub enum ReconstructEvent {
    Batch,
    Timeout,
    Disconnected,
}

/// What the reconstructing thread does next.
#[derive(Clone, Copy, Debug, PartialEq, Eq, Structural)]
pub enum ReconstructAction {
    /// Reconstruct the batch, send the entries out, and wait again.
    Reconstruct,
    Wait,
    Exit,
}

/// What the reconstructing thread does next. Running out of time is no reason to stop.
pub fn reconstruct_action(event: ReconstructEvent) -> (action: ReconstructAction)
    ensures
        action == ReconstructAction::Reconstruct <==> event == ReconstructEvent::Batch,
        action == ReconstructAction::Wait <==> event == ReconstructEvent::Timeout,
        action == ReconstructAction::Exit <==> event == ReconstructEvent::Disconnected,
{
    match event {
        ReconstructEvent::Batch => ReconstructAction::Reconstruct,
        ReconstructEvent::Timeout => ReconstructAction::Wait,
        ReconstructEvent::Disconnected => ReconstructAction::Exit,
    }
}

/// What the shard manager waits for.
#[derive(Clone, Copy, Debug, PartialEq, Eq, Structural)]
pub enum ManagerEvent {
    /// The shards are started.
    Started,
    Tick,
    Shutdown,
}

/// What the shard manager does next.
#[derive(Clone, Copy, Debug, PartialEq, Eq, Structural)]
pub enum ManagerAction {
    /// Distribute the destinations over the shards, and wait.
    Reshard,
    /// Let go of the shards and end the thread.
    Stop,
}

/// What the shard manager does next. Destinations are distributed as soon as the shards are
/// started, so that they have something to serve before the first tick.
pub fn manager_action(event: ManagerEvent) -> (action: ManagerAction)
    ensures
        action == ManagerAction::Stop <==> event == ManagerEvent::Shutdown,
        action == ManagerAction::Reshard <==> event == ManagerEvent::Started || event
            == ManagerEvent::Tick,
{
    match event {
        ManagerEvent::Started | ManagerEvent::Tick => ManagerAction::Reshard,
        ManagerEvent::Shutdown => ManagerAction::Stop,
    }
}

/// What the accessory thread waits for.
#[derive(Clone, Copy, Debug, PartialEq, Eq, Structural)]
pub enum AccessoryEvent {
    DeduperTick,
    MetricsTick,
    Shutdown,
}

/// What the accessory thread does next.
#[derive(Clone, Copy, Debug, PartialEq, Eq, Structural)]
pub enum AccessoryAction {
    /// Let the filter for duplicates start over if it is old or full.
    CheckDeduper,
    /// Report the counters and start the next interval.
    EndInterval,
    Exit,
}

/// What the accessory thread does next.
pub fn accessory_action(event: AccessoryEvent) -> (action: AccessoryAction)
    ensures
        action == AccessoryAction::CheckDeduper <==> event == AccessoryEvent::DeduperTick,
        action == AccessoryAction::EndInterval <==> event == AccessoryEvent::MetricsTick,
        action == AccessoryAction::Exit <==> event == AccessoryEvent::Shutdown,
{
    match event {
        AccessoryEvent::DeduperTick => AccessoryAction::CheckDeduper,
        AccessoryEvent::MetricsTick => AccessoryAction::EndInterval,
        AccessoryEvent::Shutdown => AccessoryAction::Exit,
    }
}

/// What the thread that refreshes the destinations keeps.
#[derive(Clone, Copy, Debug, PartialEq, Eq, Structural)]
pub struct Refresh {
    /// The number of destinations.
    pub socket_count: usize,
}

/// What is to be done with what came of a refresh.
pub enum RefreshAction<E> {
    /// These are the destinations from now on.
    Publish(Vec<SocketAddr>),
    /// The destinations stay as they are, and the error is reported along with their number.
    Keep { prev_unioned_dest_count: i64, error: E },
}

impl Refresh {
    /// Starts with the destinations that are configured.
    pub fn new(num_static: usize) -> (refresh: Refresh)
        ensures
            refresh.socket_count == num_static,
    {
        Refresh { socket_count: num_static }
    }

    /// Decides on the destinations. Those that were found replace the former ones; where they
    /// could not be found the former ones stay.
    pub fn on_fetched<E>(&mut self, fetched: Result<Vec<SocketAddr>, E>) -> (action: RefreshAction<E>)
        ensures
            match fetched {
                Ok(dests) => action == RefreshAction::<E>::Publish(dests)
                    && final(self).socket_count == dests.len(),
                Err(e) => action == (RefreshAction::Keep {
                    prev_unioned_dest_count: old(self).socket_count as i64,
                    error: e,
                }) && *final(self) == *old(self),
            },
            old(self).socket_count <= i64::MAX ==> (action matches RefreshAction::Keep {
                prev_unioned_dest_count,
                ..
            } ==> prev_unioned_dest_count == old(self).socket_count),
    {
        match fetched {
            Ok(dests) => {
                self.socket_count = dests.len();
                RefreshAction::Publish(dests)
            },
            Err(error) => RefreshAction::Keep {
                prev_unioned_dest_count: self.destination_count(),
                error,
            },
        }
    }

    /// The number of destinations, as it is reported.
    pub fn destination_count(&self) -> (count: i64)
        ensures
            count == self.socket_count as i64,
            self.socket_count <= i64::MAX ==> count == self.socket_count,
    {
        #[verifier::truncate]
        (self.socket_count as i64)
    }
}

} // verus!
