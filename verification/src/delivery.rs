//! What reaches the destinations: all of the parts of the forwarder taken together.
use std::sync::Arc;

use vstd::arithmetic::div_mod::lemma_fundamental_div_mod;
use vstd::arithmetic::div_mod::lemma_fundamental_div_mod_converse;
use vstd::arithmetic::div_mod::lemma_mod_bound;
use vstd::prelude::*;

use crate::addr::SocketAddr;
use crate::packet::deduplicated;
use crate::packet::deduplicated_batch_forwards_once;
use crate::packet::live_payloads;
use crate::packet::PacketView;
use crate::reshard::assigned;
use crate::reshard::bucket;
use crate::reshard::reshard_plans;
use crate::reshard::ConnectedDest;
use crate::reshard::PlannedDest;
use crate::reshard_laws::buckets_repeat_nothing;
use crate::reshard_laws::every_destination_has_a_shard;
use crate::reshard_laws::lemma_assigned;
use crate::reshard_laws::lemma_assigned_was_planned;
use crate::reshard_laws::lemma_only_turn;
use crate::reshard_laws::plan_for;
use crate::reshard_laws::plans_serve_their_buckets;

verus! {

/// The (destination, payload) pairs that a shard sends, in order: destination by destination, and
/// to each all payloads.
pub open spec fn shard_pairs<S>(
    assignment: Seq<ConnectedDest<S>>,
    payloads: Seq<Seq<u8>>,
) -> Seq<(SocketAddr, Seq<u8>)> {
    Seq::new(
        assignment.len() * payloads.len(),
        |k: int|
            (
                assignment[k / (payloads.len() as int)].addr,
                payloads[k % (payloads.len() as int)],
            ),
    )
}

/// Whether this is the `k`-th pair that shard `i` sends once the destinations are distributed.
pub open spec fn is_pair<S>(
    desired: Seq<SocketAddr>,
    caches: Seq<Map<u64, Arc<S>>>,
    fresh: Seq<Seq<Option<Arc<S>>>>,
    payloads: Seq<Seq<u8>>,
    addr: SocketAddr,
    payload: Seq<u8>,
    i: int,
    k: int,
) -> bool {
    let pairs = shard_pairs(assigned(reshard_plans(desired, caches)[i], fresh[i]), payloads);
    &&& 0 <= i < caches.len()
    &&& 0 <= k < pairs.len()
    &&& pairs[k] == (addr, payload)
}

/// A shard is not assigned a destination twice.
pub(crate) proof fn lemma_assigned_once<S>(
    plan: Seq<PlannedDest<S>>,
    dests: Seq<SocketAddr>,
    fresh: Seq<Option<Arc<S>>>,
    a: int,
    b: int,
)
    requires
        plan_for(plan, dests),
        dests.no_duplicates(),
        0 <= a < b < assigned(plan, fresh).len(),
    ensures
        assigned(plan, fresh)[a].addr != assigned(plan, fresh)[b].addr,
    decreases plan.len(),
{
    let rest = plan.drop_last();
    let fewer = dests.drop_last();
    assert(plan_for(rest, fewer)) by {
        assert forall|j: int| #![trigger rest[j]] 0 <= j < rest.len() implies rest[j].addr()
            == fewer[j] && (rest[j] is Skip <==> !fewer[j].reachable()) by {
            assert(rest[j] == plan[j]);
        }
    }
    let before = assigned(rest, fresh);
    if b < before.len() {
        lemma_assigned_once(rest, fewer, fresh, a, b);
    } else {
        assert(before.contains(before[a]));
        lemma_assigned_was_planned(rest, fresh, before[a]);
        let j = choose|j: int|
            0 <= j < rest.len() && (#[trigger] rest[j]).addr() == before[a].addr
                && rest[j].socket(fresh[j]) == Some(before[a].socket);
        assert(rest[j] == plan[j]);
        let last = plan.len() - 1;
        assert(plan[last] == plan.last());
        assert(dests[j] != dests[last]);
    }
}

/// The place of a pair in the order of a shard.
proof fn lemma_pair_at(num_dests: int, num_payloads: int, d: int, p: int)
    requires
        0 <= d < num_dests,
        0 <= p < num_payloads,
    ensures
        0 <= d * num_payloads + p < num_dests * num_payloads,
        (d * num_payloads + p) / num_payloads == d,
        (d * num_payloads + p) % num_payloads == p,
{
    lemma_fundamental_div_mod_converse(d * num_payloads + p, num_payloads, d, p);
    assert(0 <= d * num_payloads) by (nonlinear_arith)
        requires
            0 <= d,
            0 <= num_payloads,
    ;
    assert(d * num_payloads + num_payloads <= num_dests * num_payloads) by (nonlinear_arith)
        requires
            d + 1 <= num_dests,
            0 <= num_payloads,
    ;
}

/// The destination and the payload at a place in the order of a shard.
proof fn lemma_place(num_dests: int, num_payloads: int, k: int)
    requires
        0 <= k < num_dests * num_payloads,
        0 < num_payloads,
    ensures
        0 <= k / num_payloads < num_dests,
        0 <= k % num_payloads < num_payloads,
        k == (k / num_payloads) * num_payloads + k % num_payloads,
{
    let d = k / num_payloads;
    lemma_fundamental_div_mod(k, num_payloads);
    lemma_mod_bound(k, num_payloads);
    assert(num_payloads * d == d * num_payloads) by (nonlinear_arith);
    assert(0 <= d < num_dests) by (nonlinear_arith)
        requires
            k == d * num_payloads + k % num_payloads,
            0 <= k % num_payloads < num_payloads,
            0 <= k < num_dests * num_payloads,
            0 < num_payloads,
    ;
}

/// Every payload of a deduplicated batch goes to every destination exactly once: for each payload
/// and each destination that can be reached and has its socket, there is exactly one place in the
/// order of exactly one shard.
pub proof fn every_payload_goes_to_every_destination_once<S>(
    desired: Seq<SocketAddr>,
    caches: Seq<Map<u64, Arc<S>>>,
    fresh: Seq<Seq<Option<Arc<S>>>>,
    received: Seq<PacketView>,
    batch: Seq<PacketView>,
    idx: int,
    p: int,
)
    requires
        desired.no_duplicates(),
        0 < caches.len(),
        deduplicated(received, batch),
        0 <= p < live_payloads(batch).len(),
        0 <= idx < desired.len(),
        desired[idx].reachable(),
        ({
            let i = idx % (caches.len() as int);
            let j = idx / (caches.len() as int);
            reshard_plans(desired, caches)[i][j].socket(fresh[i][j]) is Some
        }),
    ensures
        exists|i: int, k: int|
            #[trigger] is_pair(
                desired,
                caches,
                fresh,
                live_payloads(batch),
                desired[idx],
                live_payloads(batch)[p],
                i,
                k,
            ) && forall|i2: int, k2: int|
                #[trigger] is_pair(
                    desired,
                    caches,
                    fresh,
                    live_payloads(batch),
                    desired[idx],
                    live_payloads(batch)[p],
                    i2,
                    k2,
                ) ==> i2 == i && k2 == k,
{
    let n = caches.len() as int;
    let addr = desired[idx];
    let payloads = live_payloads(batch);
    let num = payloads.len() as int;
    let i = idx % n;
    let j = idx / n;
    let plan = reshard_plans(desired, caches)[i];
    let dests = bucket(desired, n, i);
    deduplicated_batch_forwards_once(received, batch);
    every_destination_has_a_shard(desired, n, idx);
    plans_serve_their_buckets(desired, caches, i);
    buckets_repeat_nothing(desired, n, i);
    assert(plan[j].addr() == dests[j]);
    let served = assigned(plan, fresh[i]);
    lemma_assigned(plan, fresh[i], j);
    let dest = ConnectedDest { addr, socket: plan[j].socket(fresh[i][j]).unwrap() };
    let d = choose|d: int| 0 <= d < served.len() && served[d] == dest;
    let k = d * num + p;
    lemma_pair_at(served.len() as int, num, d, p);
    assert(is_pair(desired, caches, fresh, payloads, addr, payloads[p], i, k));
    assert forall|i2: int, k2: int|
        #[trigger] is_pair(desired, caches, fresh, payloads, addr, payloads[p], i2, k2) implies i2
        == i && k2 == k by {
        let plan2 = reshard_plans(desired, caches)[i2];
        let served2 = assigned(plan2, fresh[i2]);
        lemma_place(served2.len() as int, num, k2);
        let d2 = k2 / num;
        let p2 = k2 % num;
        assert(served2[d2].addr == addr);
        assert(payloads[p2] == payloads[p]);
        assert(p2 == p);
        plans_serve_their_buckets(desired, caches, i2);
        assert(served2.contains(served2[d2]));
        lemma_assigned_was_planned(plan2, fresh[i2], served2[d2]);
        let j2 = choose|j2: int|
            0 <= j2 < plan2.len() && (#[trigger] plan2[j2]).addr() == served2[d2].addr
                && plan2[j2].socket(fresh[i2][j2]) == Some(served2[d2].socket);
        assert(bucket(desired, n, i2)[j2] == addr);
        lemma_only_turn(desired, n, idx, i2, j2);
        if d2 < d {
            lemma_assigned_once(plan, dests, fresh[i], d2, d);
        } else if d < d2 {
            lemma_assigned_once(plan, dests, fresh[i], d, d2);
        }
    }
}

} // verus!
