//! The send shards as their manager keeps them: started once, and served with destinations.
use std::sync::Arc;

use crossbeam_channel::Sender;
use vstd::prelude::*;

use crate::addr::SocketAddr;
use crate::coordinator::ShardMsg;
use crate::coordinator::ShardSenderList;
use crate::metrics::ShredMetrics;
use crate::reshard::assigned;
use crate::reshard::cached;
use crate::reshard::caches_of;
use crate::reshard::plan_reshard;
use crate::reshard::plans_of;
use crate::reshard::reshard_assignments;
use crate::reshard::reshard_plans;
use crate::reshard::ConnectedDest;
use crate::reshard::PlannedDest;
use crate::reshard::ShardHandle;

verus! {

/// The shards, with the sending ends of their channels. Only what the shards are assigned ever
/// changes: there is no function that changes the list of channels.
pub struct ShardPool<S> {
    senders: ShardSenderList,
    shards: Vec<ShardHandle<S>>,
}

impl<S> ShardPool<S> {
    /// The sending ends of the channels, by shard.
    pub closed spec fn senders(self) -> Seq<Sender<ShardMsg>> {
        self.senders@
    }

    /// What each shard is assigned and which sockets it keeps.
    pub closed spec fn shards(self) -> Seq<ShardHandle<S>> {
        self.shards@
    }

    /// There is one channel per shard, and at least one shard.
    pub open spec fn well_formed(self) -> bool {
        self.senders().len() == self.shards().len() > 0
    }

    /// Takes the channels of the shards that were started. No shard has a destination yet.
    pub fn new(senders: ShardSenderList) -> (pool: Self)
        requires
            senders.len() > 0,
        ensures
            pool.well_formed(),
            pool.senders() == senders@,
            forall|i: int|
                0 <= i < pool.shards().len() ==> (#[trigger] pool.shards()[i]).assignment@
                    == Seq::<ConnectedDest<S>>::empty() && pool.shards()[i].socket_cache@
                    == Map::<u64, Arc<S>>::empty(),
    {
        let mut shards: Vec<ShardHandle<S>> = Vec::new();
        let mut i: usize = 0;
        while i < senders.len()
            invariant
                i <= senders.len(),
                shards.len() == i,
                forall|k: int|
                    0 <= k < shards.len() ==> (#[trigger] shards[k]).assignment@ == Seq::<
                        ConnectedDest<S>,
                    >::empty() && shards[k].socket_cache@ == Map::<u64, Arc<S>>::empty(),
            decreases senders.len() - i,
        {
            shards.push(ShardHandle::new());
            i = i + 1;
        }
        ShardPool { senders, shards }
    }

    /// The channels that coordinators dispatch batches to.
    pub fn sender_list(&self) -> (senders: &ShardSenderList)
        ensures
            senders@ == self.senders(),
    {
        &self.senders
    }

    /// What a shard is assigned.
    pub fn assignment(&self, i: usize) -> (dests: &Vec<ConnectedDest<S>>)
        requires
            i < self.shards().len(),
        ensures
            *dests == self.shards()[i as int].assignment,
    {
        &self.shards[i].assignment
    }

    /// Plans how the destinations are distributed over the shards and how each gets its socket.
    /// The shards keep their assignments until [`Self::commit`] is called.
    pub fn plan(&mut self, desired: &Vec<SocketAddr>) -> (plans: Vec<Vec<PlannedDest<S>>>)
        requires
            old(self).well_formed(),
        ensures
            final(self).well_formed(),
            final(self).senders() == old(self).senders(),
            plans_of(plans@) == reshard_plans(desired@, caches_of(old(self).shards())),
            plans.len() == old(self).shards().len(),
            forall|k: int|
                0 <= k < old(self).shards().len() ==> (#[trigger] final(self).shards()[k]).assignment
                    == old(self).shards()[k].assignment,
    {
        plan_reshard(desired, &mut self.shards)
    }

    /// Gives every shard the destinations and sockets that were planned for it, given the new
    /// sockets.
    pub fn commit(
        &mut self,
        num_dests: usize,
        plans: &Vec<Vec<PlannedDest<S>>>,
        fresh: &Vec<Vec<Option<Arc<S>>>>,
        metrics: &mut ShredMetrics,
    )
        requires
            old(self).well_formed(),
            plans.len() == old(self).shards().len(),
            fresh.len() == plans.len(),
            forall|i: int|
                0 <= i < plans.len() ==> (#[trigger] fresh[i]).len() == plans[i].len(),
        ensures
            final(self).well_formed(),
            final(self).senders() == old(self).senders(),
            forall|i: int|
                0 <= i < plans.len() ==> (#[trigger] final(self).shards()[i]).assignment@
                    == assigned(plans[i]@, fresh[i]@) && final(self).shards()[i].socket_cache@
                    == cached(plans[i]@, fresh[i]@),
            *final(metrics) == (ShredMetrics { worker_count: num_dests, ..*old(metrics) }),
    {
        reshard_assignments(num_dests, &mut self.shards, plans, fresh, metrics);
    }
}

} // verus!
