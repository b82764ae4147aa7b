//! What becomes of the destinations and of their sockets when they are distributed.
use std::sync::Arc;

use vstd::arithmetic::div_mod::lemma_fundamental_div_mod_converse;
use vstd::prelude::*;

use crate::addr::cache_key_injective;
use crate::addr::SocketAddr;
use crate::reshard::assigned;
use crate::reshard::bucket;
use crate::reshard::cached;
use crate::reshard::holder;
use crate::reshard::key_unused;
use crate::reshard::reshard_plans;
use crate::reshard::ConnectedDest;
use crate::reshard::PlannedDest;
use crate::reshard_laws::bucket_is_every_nth;
use crate::reshard_laws::buckets_repeat_nothing;
use crate::reshard_laws::entitled_socket;
use crate::reshard_laws::every_destination_has_a_shard;
use crate::reshard_laws::lemma_assigned;
use crate::reshard_laws::lemma_assigned_was_planned;
use crate::reshard_laws::lemma_cached_was_planned;
use crate::reshard_laws::lemma_holder;
use crate::reshard_laws::lemma_only_turn;
use crate::reshard_laws::no_two_shards_keep_the_same_destination;
use crate::reshard_laws::plans_serve_their_buckets;
use crate::reshard_laws::removed_destinations_lose_their_socket;
use crate::reshard_laws::survivors_keep_their_socket;

verus! {

/// A destination for which a new socket could be had is served through it, whatever its address
/// and port, and one whose socket is reused is served through that one.
pub proof fn planned_sockets_are_assigned<S>(
    plan: Seq<PlannedDest<S>>,
    fresh: Seq<Option<Arc<S>>>,
    j: int,
    addr: SocketAddr,
    socket: Arc<S>,
)
    requires
        0 <= j < plan.len(),
    ensures
        plan[j] == PlannedDest::<S>::Connect(addr) && fresh[j] == Some(socket) ==> assigned(
            plan,
            fresh,
        ).contains(ConnectedDest { addr, socket }),
        plan[j] == PlannedDest::Reuse(addr, socket) ==> assigned(plan, fresh).contains(
            ConnectedDest { addr, socket },
        ),
{
    if plan[j].socket(fresh[j]) is Some {
        lemma_assigned(plan, fresh, j);
    }
}

/// A destination is served only through the socket that was reused for it or that is new.
pub proof fn assigned_sockets_were_planned<S>(
    plan: Seq<PlannedDest<S>>,
    fresh: Seq<Option<Arc<S>>>,
    addr: SocketAddr,
    socket: Arc<S>,
)
    requires
        assigned(plan, fresh).contains(ConnectedDest { addr, socket }),
    ensures
        exists|j: int| #![trigger plan[j]]
            0 <= j < plan.len() && (plan[j] == PlannedDest::Reuse(addr, socket) || (plan[j]
                == PlannedDest::<S>::Connect(addr) && fresh[j] == Some(socket))),
{
    let dest = ConnectedDest { addr, socket };
    lemma_assigned_was_planned(plan, fresh, dest);
    let j = choose|j: int|
        0 <= j < plan.len() && (#[trigger] plan[j]).addr() == dest.addr && plan[j].socket(fresh[j])
            == Some(dest.socket);
    assert(plan[j] == PlannedDest::Reuse(addr, socket) || (plan[j] == PlannedDest::<S>::Connect(
        addr,
    ) && fresh[j] == Some(socket)));
}

/// A shard is assigned the destinations that got a socket, one for one and in the order of its
/// plan: those that are skipped, and those for which no new socket could be had, are left out.
pub proof fn assignment_keeps_the_order<S>(
    plan: Seq<PlannedDest<S>>,
    fresh: Seq<Option<Arc<S>>>,
)
    ensures
        ({
            let steps = Seq::new(plan.len(), |j: int| (plan[j], fresh[j]));
            let served = steps.filter(
                |step: (PlannedDest<S>, Option<Arc<S>>)|
                    step.0 is Reuse || (step.0 is Connect && step.1 is Some),
            );
            &&& assigned(plan, fresh).len() == served.len()
            &&& forall|k: int| #![trigger served[k]]
                0 <= k < served.len() ==> {
                    let dest = assigned(plan, fresh)[k];
                    ||| served[k].0 == PlannedDest::Reuse(dest.addr, dest.socket)
                    ||| served[k] == (PlannedDest::<S>::Connect(dest.addr), Some(dest.socket))
                }
        }),
    decreases plan.len(),
{
    reveal(Seq::filter);
    let gets = |step: (PlannedDest<S>, Option<Arc<S>>)|
        step.0 is Reuse || (step.0 is Connect && step.1 is Some);
    let steps = Seq::new(plan.len(), |j: int| (plan[j], fresh[j]));
    if plan.len() > 0 {
        let rest = plan.drop_last();
        assignment_keeps_the_order(rest, fresh);
        let fewer = Seq::new(rest.len(), |j: int| (rest[j], fresh[j]));
        assert(steps.drop_last() =~= fewer);
        let before = fewer.filter(gets);
        let served = steps.filter(gets);
        let last = (plan.last(), fresh[plan.len() - 1]);
        assert(steps.last() == last);
        assert(served == if gets(last) {
            before.push(last)
        } else {
            before
        });
        assert forall|k: int| #![trigger served[k]] 0 <= k < served.len() implies ({
            let dest = assigned(plan, fresh)[k];
            ||| served[k].0 == PlannedDest::Reuse(dest.addr, dest.socket)
            ||| served[k] == (PlannedDest::<S>::Connect(dest.addr), Some(dest.socket))
        }) by {
            if k < before.len() {
                assert(served[k] == before[k]);
                assert(assigned(plan, fresh)[k] == assigned(rest, fresh)[k]);
            }
        }
    }
}

/// A shard keeps the socket of an IPv4 destination under the integer that its address and its
/// port spell; of two sockets to one destination it keeps the last.
pub proof fn sockets_are_kept_by_endpoint<S>(
    plan: Seq<PlannedDest<S>>,
    fresh: Seq<Option<Arc<S>>>,
    j: int,
    ip: u32,
    port: u16,
    socket: Arc<S>,
    key: u64,
)
    requires
        key == ip * 0x1_0000 + port,
        0 <= j < plan.len(),
        plan[j] == PlannedDest::Reuse(SocketAddr::V4 { ip, port }, socket) || (plan[j]
            == PlannedDest::<S>::Connect(SocketAddr::V4 { ip, port }) && fresh[j] == Some(socket)),
        forall|k: int| #![trigger plan[k]]
            j < k < plan.len() ==> match plan[k] {
                PlannedDest::Skip(_) => true,
                PlannedDest::Reuse(addr, _) => addr != (SocketAddr::V4 { ip, port }),
                PlannedDest::Connect(addr) => addr != (SocketAddr::V4 { ip, port })
                    || fresh[k] is None,
            },
    ensures
        cached(plan, fresh).contains_key(key),
        cached(plan, fresh)[key] == socket,
    decreases plan.len(),
{
    let addr = SocketAddr::V4 { ip, port };
    let last = plan.len() - 1;
    assert(plan[last] == plan.last());
    if j < last {
        let rest = plan.drop_last();
        assert(rest[j] == plan[j]);
        assert forall|k: int| #![trigger rest[k]] j < k < rest.len() implies match rest[k] {
            PlannedDest::Skip(_) => true,
            PlannedDest::Reuse(other, _) => other != addr,
            PlannedDest::Connect(other) => other != addr || fresh[k] is None,
        } by {
            assert(rest[k] == plan[k]);
        }
        sockets_are_kept_by_endpoint(rest, fresh, j, ip, port, socket, key);
        let other = plan.last().addr();
        if other.reachable() && other.cache_key() == key {
            cache_key_injective(other, addr);
        }
    }
}

/// A shard keeps no socket but those of the IPv4 destinations in its plan that got one.
pub proof fn kept_sockets_were_planned<S>(
    plan: Seq<PlannedDest<S>>,
    fresh: Seq<Option<Arc<S>>>,
    key: u64,
)
    requires
        cached(plan, fresh).contains_key(key),
    ensures
        key < 0x1_0000_0000_0000,
        ({
            let addr = SocketAddr::V4 {
                ip: (key / 0x1_0000) as u32,
                port: (key % 0x1_0000) as u16,
            };
            let socket = cached(plan, fresh)[key];
            exists|j: int| #![trigger plan[j]]
                0 <= j < plan.len() && (plan[j] == PlannedDest::Reuse(addr, socket) || (plan[j]
                    == PlannedDest::<S>::Connect(addr) && fresh[j] == Some(socket)))
        }),
{
    lemma_cached_was_planned(plan, fresh, key);
    let socket = cached(plan, fresh)[key];
    let j = choose|j: int|
        0 <= j < plan.len() && (#[trigger] plan[j]).addr().reachable()
            && plan[j].addr().cache_key() == key && plan[j].socket(fresh[j]) == Some(socket);
    let addr = SocketAddr::V4 { ip: (key / 0x1_0000) as u32, port: (key % 0x1_0000) as u16 };
    assert(plan[j].addr() == addr);
    assert(plan[j] == PlannedDest::Reuse(addr, socket) || (plan[j] == PlannedDest::<S>::Connect(
        addr,
    ) && fresh[j] == Some(socket)));
}

/// Shard `i` of `n` has a step for the destinations `i`, `i + n`, `i + 2n` and so on, as far as
/// there are any, and no other steps.
pub proof fn plans_have_a_step_per_turn<S>(
    desired: Seq<SocketAddr>,
    caches: Seq<Map<u64, Arc<S>>>,
    i: int,
    j: int,
)
    requires
        0 <= i < caches.len(),
        0 <= j,
    ensures
        reshard_plans(desired, caches).len() == caches.len(),
        j < reshard_plans(desired, caches)[i].len() <==> i + j * caches.len() < desired.len(),
{
    let n = caches.len() as int;
    plans_serve_their_buckets(desired, caches, i);
    if j < bucket(desired, n, i).len() {
        bucket_is_every_nth(desired, n, i, j);
    }
    if i + j * n < desired.len() {
        let idx = i + j * n;
        assert(0 <= j * n) by (nonlinear_arith)
            requires
                0 <= j,
                0 < n,
        ;
        lemma_fundamental_div_mod_converse(idx, n, j, i);
        every_destination_has_a_shard(desired, n, idx);
    }
}

/// Every destination has the step that it is due, on the shard whose turn it is. An IPv6
/// destination is skipped. An IPv4 destination that no shard has a socket to is connected.
pub proof fn destinations_have_the_step_they_are_due<S>(
    desired: Seq<SocketAddr>,
    caches: Seq<Map<u64, Arc<S>>>,
    idx: int,
)
    requires
        0 < caches.len(),
        0 <= idx < desired.len(),
    ensures
        ({
            let n = caches.len() as int;
            let step = reshard_plans(desired, caches)[idx % n][idx / n];
            match desired[idx] {
                SocketAddr::V6 { .. } => step == PlannedDest::<S>::Skip(desired[idx]),
                SocketAddr::V4 { ip, port } => {
                    ||| step == PlannedDest::<S>::Connect(desired[idx])
                    ||| exists|k: int, key: u64| #![trigger caches[k].contains_key(key)]
                        0 <= k < n && key == ip * 0x1_0000 + port && caches[k].contains_key(key)
                            && step == PlannedDest::Reuse(desired[idx], caches[k][key])
                },
            }
        }),
{
    let n = caches.len() as int;
    let i = idx % n;
    let j = idx / n;
    every_destination_has_a_shard(desired, n, idx);
    plans_serve_their_buckets(desired, caches, i);
    let step = reshard_plans(desired, caches)[i][j];
    assert(step.addr() == desired[idx]);
    if step is Reuse {
        let key = desired[idx].cache_key();
        let k = choose|k: int|
            0 <= k < n && (#[trigger] caches[k]).contains_key(key) && caches[k][key]
                == step->Reuse_1;
        assert(caches[k].contains_key(key));
    }
}

/// An IPv4 destination that some shard has a socket to reuses one: that of the shard whose turn it
/// is, if it has one, or else that of the first shard that has one.
pub proof fn known_destinations_reuse_a_socket<S>(
    desired: Seq<SocketAddr>,
    caches: Seq<Map<u64, Arc<S>>>,
    idx: int,
    ip: u32,
    port: u16,
    key: u64,
    shard: int,
)
    requires
        desired.no_duplicates(),
        0 <= idx < desired.len(),
        desired[idx] == (SocketAddr::V4 { ip, port }),
        key == ip * 0x1_0000 + port,
        0 <= shard < caches.len(),
        caches[shard].contains_key(key),
        shard == idx % (caches.len() as int) || (!caches[idx % (
        caches.len() as int)].contains_key(key) && forall|k: int|
            0 <= k < shard ==> !(#[trigger] caches[k]).contains_key(key)),
    ensures
        ({
            let n = caches.len() as int;
            reshard_plans(desired, caches)[idx % n][idx / n] == PlannedDest::Reuse(
                desired[idx],
                caches[shard][key],
            )
        }),
{
    survivors_keep_their_socket(desired, caches, idx, shard, Seq::empty());
    lemma_holder(caches, key, 0);
    let h = holder(caches, key, 0);
    if shard < h {
        assert(!caches[shard].contains_key(key));
    }
}

/// A destination that got a socket when the destinations were distributed still has this socket
/// after they are distributed the next time, if it is still among them, wherever it is listed.
pub proof fn sockets_survive_the_next_distribution<S>(
    desired: Seq<SocketAddr>,
    caches: Seq<Map<u64, Arc<S>>>,
    fresh: Seq<Seq<Option<Arc<S>>>>,
    idx: int,
    socket: Arc<S>,
    kept: Seq<Map<u64, Arc<S>>>,
    next: Seq<SocketAddr>,
    next_idx: int,
)
    requires
        desired.no_duplicates(),
        next.no_duplicates(),
        0 < caches.len(),
        kept.len() == caches.len(),
        forall|k: int| #![trigger kept[k]]
            0 <= k < kept.len() ==> kept[k] == cached(reshard_plans(desired, caches)[k], fresh[k]),
        0 <= idx < desired.len(),
        desired[idx] is V4,
        ({
            let n = caches.len() as int;
            let step = reshard_plans(desired, caches)[idx % n][idx / n];
            ||| step == PlannedDest::Reuse(desired[idx], socket)
            ||| step == PlannedDest::<S>::Connect(desired[idx]) && fresh[idx % n][idx / n] == Some(
                socket,
            )
        }),
        0 <= next_idx < next.len(),
        next[next_idx] == desired[idx],
    ensures
        ({
            let n = kept.len() as int;
            reshard_plans(next, kept)[next_idx % n][next_idx / n] == PlannedDest::Reuse(
                desired[idx],
                socket,
            )
        }),
{
    let n = caches.len() as int;
    let addr = desired[idx];
    let i = idx % n;
    let j = idx / n;
    let plan = reshard_plans(desired, caches)[i];
    let dests = bucket(desired, n, i);
    every_destination_has_a_shard(desired, n, idx);
    plans_serve_their_buckets(desired, caches, i);
    buckets_repeat_nothing(desired, n, i);
    match addr {
        SocketAddr::V4 { ip, port } => {
            let key = addr.cache_key();
            assert forall|k: int| #![trigger plan[k]] j < k < plan.len() implies match plan[k] {
                PlannedDest::Skip(_) => true,
                PlannedDest::Reuse(other, _) => other != addr,
                PlannedDest::Connect(other) => other != addr || fresh[i][k] is None,
            } by {
                assert(plan[k].addr() == dests[k]);
                assert(dests[k] != dests[j]);
            }
            sockets_are_kept_by_endpoint(plan, fresh[i], j, ip, port, socket, key);
            assert(kept[i].contains_key(key) && kept[i][key] == socket);
            assert forall|k: int| 0 <= k < n && (#[trigger] kept[k]).contains_key(key) implies k
                == i by {
                no_two_shards_keep_the_same_destination(
                    desired,
                    caches,
                    k,
                    i,
                    fresh[k],
                    fresh[i],
                    key,
                );
            }
            vstd::arithmetic::div_mod::lemma_mod_bound(next_idx, n);
            let own = next_idx % n;
            assert(kept[own].contains_key(key) ==> own == i);
            known_destinations_reuse_a_socket(next, kept, next_idx, ip, port, key, i);
        },
        _ => {},
    }
}

/// A destination that is no longer among the destinations has no socket on any shard any more,
/// whatever the shards had and whatever becomes of the new sockets.
pub proof fn removed_destinations_are_forgotten<S>(
    desired: Seq<SocketAddr>,
    caches: Seq<Map<u64, Arc<S>>>,
    i: int,
    fresh: Seq<Option<Arc<S>>>,
    ip: u32,
    port: u16,
    key: u64,
)
    requires
        0 <= i < caches.len(),
        !desired.contains(SocketAddr::V4 { ip, port }),
        key == ip * 0x1_0000 + port,
    ensures
        !cached(reshard_plans(desired, caches)[i], fresh).contains_key(key),
        forall|d: int| #![trigger assigned(reshard_plans(desired, caches)[i], fresh)[d]]
            0 <= d < assigned(reshard_plans(desired, caches)[i], fresh).len() ==> assigned(
                reshard_plans(desired, caches)[i],
                fresh,
            )[d].addr != (SocketAddr::V4 { ip, port }),
{
    let n = caches.len() as int;
    let addr = SocketAddr::V4 { ip, port };
    let dests = bucket(desired, n, i);
    let plan = reshard_plans(desired, caches)[i];
    plans_serve_their_buckets(desired, caches, i);
    assert forall|b: int| 0 <= b < dests.len() implies #[trigger] dests[b] != addr by {
        bucket_is_every_nth(desired, n, i, b);
    }
    assert(key_unused(dests, dests.len() as int, key)) by {
        assert forall|b: int| 0 <= b < dests.len() implies !((#[trigger] dests[b]).reachable()
            && dests[b].cache_key() == key) by {
            if dests[b].reachable() && dests[b].cache_key() == key {
                cache_key_injective(dests[b], addr);
            }
        }
    }
    removed_destinations_lose_their_socket(plan, dests, fresh, key);
    let served = assigned(plan, fresh);
    assert forall|d: int| #![trigger served[d]] 0 <= d < served.len() implies served[d].addr
        != addr by {
        assert(served.contains(served[d]));
        lemma_assigned_was_planned(plan, fresh, served[d]);
        let j = choose|j: int|
            0 <= j < plan.len() && (#[trigger] plan[j]).addr() == served[d].addr
                && plan[j].socket(fresh[j]) == Some(served[d].socket);
        assert(plan[j].addr() == dests[j]);
    }
}

/// Every IPv4 destination that got a socket is assigned to exactly one shard, once, with that
/// socket. No IPv6 destination is assigned at all.
pub proof fn destinations_are_assigned_once<S>(
    desired: Seq<SocketAddr>,
    caches: Seq<Map<u64, Arc<S>>>,
    fresh: Seq<Seq<Option<Arc<S>>>>,
    idx: int,
    i: int,
    d: int,
)
    requires
        desired.no_duplicates(),
        0 < caches.len(),
        0 <= idx < desired.len(),
        0 <= i < caches.len(),
        0 <= d < assigned(reshard_plans(desired, caches)[i], fresh[i]).len(),
        assigned(reshard_plans(desired, caches)[i], fresh[i])[d].addr == desired[idx],
    ensures
        desired[idx] is V4,
        i == idx % (caches.len() as int),
        forall|e: int| #![trigger assigned(reshard_plans(desired, caches)[i], fresh[i])[e]]
            0 <= e < assigned(reshard_plans(desired, caches)[i], fresh[i]).len() && assigned(
                reshard_plans(desired, caches)[i],
                fresh[i],
            )[e].addr == desired[idx] ==> e == d,
        ({
            let n = caches.len() as int;
            let step = reshard_plans(desired, caches)[i][idx / n];
            let dest = assigned(reshard_plans(desired, caches)[i], fresh[i])[d];
            ||| step == PlannedDest::Reuse(desired[idx], dest.socket)
            ||| step == PlannedDest::<S>::Connect(desired[idx]) && fresh[i][idx / n] == Some(
                dest.socket,
            )
        }),
{
    let n = caches.len() as int;
    let plan = reshard_plans(desired, caches)[i];
    let dests = bucket(desired, n, i);
    let served = assigned(plan, fresh[i]);
    plans_serve_their_buckets(desired, caches, i);
    buckets_repeat_nothing(desired, n, i);
    assert(served.contains(served[d]));
    assigned_sockets_were_planned(plan, fresh[i], served[d].addr, served[d].socket);
    let j = choose|j: int| #![trigger plan[j]]
        0 <= j < plan.len() && (plan[j] == PlannedDest::Reuse(served[d].addr, served[d].socket) || (
        plan[j] == PlannedDest::<S>::Connect(served[d].addr) && fresh[i][j] == Some(
            served[d].socket,
        )));
    assert(plan[j].addr() == dests[j]);
    lemma_only_turn(desired, n, idx, i, j);
    assert forall|e: int| #![trigger served[e]]
        0 <= e < served.len() && served[e].addr == desired[idx] implies e == d by {
        if e < d {
            crate::delivery::lemma_assigned_once(plan, dests, fresh[i], e, d);
        } else if d < e {
            crate::delivery::lemma_assigned_once(plan, dests, fresh[i], d, e);
        }
    }
}

} // verus!
