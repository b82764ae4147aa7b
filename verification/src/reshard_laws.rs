//! What holds of the distribution of destinations over shards.
use std::sync::Arc;

use vstd::arithmetic::div_mod::lemma_fundamental_div_mod;
use vstd::arithmetic::div_mod::lemma_fundamental_div_mod_converse;
use vstd::prelude::*;

use crate::addr::cache_key_injective;
use crate::addr::SocketAddr;
use crate::reshard::assigned;
use crate::reshard::bucket;
use crate::reshard::cached;
use crate::reshard::claimed_plan;
use crate::reshard::claimed_plans;
use crate::reshard::claimed_step;
use crate::reshard::first_listed;
use crate::reshard::holder;
use crate::reshard::key_unused;
use crate::reshard::leftovers;
use crate::reshard::own_plans;
use crate::reshard::planned;
use crate::reshard::reshard_plans;
use crate::reshard::ConnectedDest;
use crate::reshard::PlannedDest;

verus! {

/// The number of destinations of shard `i` of `n`, out of `total`.
pub open spec fn bucket_len(total: int, n: int, i: int) -> int {
    (total + n - 1 - i) / n
}

/// One destination more is one more for the shard whose turn it is, and for no other.
proof fn lemma_bucket_len_step(total: int, n: int, i: int)
    requires
        0 <= i < n,
        0 < total,
    ensures
        (total - 1) % n == i ==> bucket_len(total, n, i) == bucket_len(total - 1, n, i) + 1
            && total - 1 == i + bucket_len(total - 1, n, i) * n,
        (total - 1) % n != i ==> bucket_len(total, n, i) == bucket_len(total - 1, n, i),
{
    let q = (total - 1) / n;
    let r = (total - 1) % n;
    lemma_fundamental_div_mod(total - 1, n);
    assert(n * q == q * n) by (nonlinear_arith);
    assert((q + 1) * n == q * n + n) by (nonlinear_arith);
    if r == i {
        lemma_fundamental_div_mod_converse(total - 1 + n - 1 - i, n, q, n - 1);
        lemma_fundamental_div_mod_converse(total + n - 1 - i, n, q + 1, 0);
    } else if r > i {
        lemma_fundamental_div_mod_converse(total - 1 + n - 1 - i, n, q + 1, r - i - 1);
        lemma_fundamental_div_mod_converse(total + n - 1 - i, n, q + 1, r - i);
    } else {
        lemma_fundamental_div_mod_converse(total - 1 + n - 1 - i, n, q, n - 1 + r - i);
        lemma_fundamental_div_mod_converse(total + n - 1 - i, n, q, n + r - i);
    }
}

/// Every shard has as many destinations as turns.
pub proof fn bucket_has_its_turns(desired: Seq<SocketAddr>, n: int, i: int)
    requires
        0 <= i < n,
    ensures
        bucket(desired, n, i).len() == bucket_len(desired.len() as int, n, i),
    decreases desired.len(),
{
    if desired.len() == 0 {
        lemma_fundamental_div_mod_converse(n - 1 - i, n, 0, n - 1 - i);
    } else {
        bucket_has_its_turns(desired.drop_last(), n, i);
        lemma_bucket_len_step(desired.len() as int, n, i);
    }
}

/// Shard `i` of `n` serves the destinations `i`, `i + n`, `i + 2n` and so on, in this order.
pub proof fn bucket_is_every_nth(desired: Seq<SocketAddr>, n: int, i: int, j: int)
    requires
        0 <= i < n,
        0 <= j < bucket(desired, n, i).len(),
    ensures
        0 <= i + j * n < desired.len(),
        bucket(desired, n, i)[j] == desired[i + j * n],
    decreases desired.len(),
{
    let rest = desired.drop_last();
    assert(0 <= j * n) by (nonlinear_arith)
        requires
            0 <= j,
            0 < n,
    ;
    if j < bucket(rest, n, i).len() {
        bucket_is_every_nth(rest, n, i, j);
    } else {
        bucket_has_its_turns(rest, n, i);
        lemma_bucket_len_step(desired.len() as int, n, i);
    }
}

/// Every destination is served by the shard whose turn it is.
pub proof fn every_destination_has_a_shard(desired: Seq<SocketAddr>, n: int, idx: int)
    requires
        0 < n,
        0 <= idx < desired.len(),
    ensures
        0 <= idx % n < n,
        0 <= idx / n < bucket(desired, n, idx % n).len(),
        bucket(desired, n, idx % n)[idx / n] == desired[idx],
{
    let total = desired.len() as int;
    let i = idx % n;
    let j = idx / n;
    lemma_fundamental_div_mod(idx, n);
    vstd::arithmetic::div_mod::lemma_mod_bound(idx, n);
    assert(n * j == j * n) by (nonlinear_arith);
    assert(j >= 0) by (nonlinear_arith)
        requires
            j * n + i == idx,
            0 <= idx,
            i < n,
            n > 0,
    ;
    bucket_has_its_turns(desired, n, i);
    let len = bucket_len(total, n, i);
    lemma_fundamental_div_mod(total + n - 1 - i, n);
    vstd::arithmetic::div_mod::lemma_mod_bound(total + n - 1 - i, n);
    assert(n * len == len * n) by (nonlinear_arith);
    assert(j < len) by (nonlinear_arith)
        requires
            len * n + (total + n - 1 - i) % n == total + n - 1 - i,
            (total + n - 1 - i) % n < n,
            j * n + i == idx,
            idx < total,
            n > 0,
    ;
    bucket_is_every_nth(desired, n, i, j);
}

/// No two turns, of one shard or of two, are for the same entry of the list.
pub proof fn every_destination_has_no_other_shard(
    desired: Seq<SocketAddr>,
    n: int,
    i1: int,
    j1: int,
    i2: int,
    j2: int,
)
    requires
        0 <= i1 < n,
        0 <= i2 < n,
        0 <= j1 < bucket(desired, n, i1).len(),
        0 <= j2 < bucket(desired, n, i2).len(),
        i1 + j1 * n == i2 + j2 * n,
    ensures
        i1 == i2,
        j1 == j2,
{
    lemma_fundamental_div_mod_converse(i1 + j1 * n, n, j1, i1);
    lemma_fundamental_div_mod_converse(i1 + j1 * n, n, j2, i2);
}

/// The number of destinations of the first `k` of `n` shards.
pub open spec fn buckets_total(desired: Seq<SocketAddr>, n: int, k: int) -> nat
    decreases k,
{
    if k <= 0 {
        0
    } else {
        buckets_total(desired, n, k - 1) + bucket(desired, n, k - 1).len()
    }
}

/// One destination more is one more for those shards that have the one whose turn it is among
/// them.
proof fn lemma_buckets_total_step(desired: Seq<SocketAddr>, n: int, k: int)
    requires
        desired.len() > 0,
        0 < n,
        0 <= k <= n,
    ensures
        buckets_total(desired, n, k) == buckets_total(desired.drop_last(), n, k) + (if (
        desired.len() - 1) % n < k {
            1nat
        } else {
            0nat
        }),
    decreases k,
{
    vstd::arithmetic::div_mod::lemma_mod_bound(desired.len() - 1, n);
    if k > 0 {
        lemma_buckets_total_step(desired, n, k - 1);
    }
}

/// Together the shards serve as many destinations as there are.
pub proof fn shards_serve_all_destinations(desired: Seq<SocketAddr>, n: int)
    requires
        n > 0,
    ensures
        buckets_total(desired, n, n) == desired.len(),
    decreases desired.len(),
{
    if desired.len() > 0 {
        shards_serve_all_destinations(desired.drop_last(), n);
        lemma_buckets_total_step(desired, n, n);
        vstd::arithmetic::div_mod::lemma_mod_bound(desired.len() - 1, n);
    } else {
        lemma_no_destinations(desired, n, n);
    }
}

/// Without destinations no shard has any.
proof fn lemma_no_destinations(desired: Seq<SocketAddr>, n: int, k: int)
    requires
        desired.len() == 0,
        k >= 0,
    ensures
        buckets_total(desired, n, k) == 0,
    decreases k,
{
    if k > 0 {
        lemma_no_destinations(desired, n, k - 1);
    }
}

/// No shard has two destinations more than another.
pub proof fn shards_are_balanced(desired: Seq<SocketAddr>, n: int, i: int, k: int)
    requires
        0 <= i <= k < n,
    ensures
        bucket(desired, n, k).len() <= bucket(desired, n, i).len() <= bucket(desired, n, k).len()
            + 1,
{
    bucket_has_its_turns(desired, n, i);
    bucket_has_its_turns(desired, n, k);
    let a = desired.len() + n - 1 - i;
    let b = desired.len() + n - 1 - k;
    lemma_fundamental_div_mod(a, n);
    lemma_fundamental_div_mod(b, n);
    vstd::arithmetic::div_mod::lemma_mod_bound(a, n);
    vstd::arithmetic::div_mod::lemma_mod_bound(b, n);
    let qa = a / n;
    let qb = b / n;
    assert(qb <= qa <= qb + 1) by (nonlinear_arith)
        requires
            a == n * qa + a % n,
            b == n * qb + b % n,
            0 <= a % n < n,
            0 <= b % n < n,
            b <= a < b + n,
            n > 0,
    ;
}

/// A list without repetitions is distributed without repetitions.
pub proof fn buckets_repeat_nothing(desired: Seq<SocketAddr>, n: int, i: int)
    requires
        0 <= i < n,
        desired.no_duplicates(),
    ensures
        bucket(desired, n, i).no_duplicates(),
{
    let b = bucket(desired, n, i);
    assert forall|j: int, k: int| 0 <= j < k < b.len() implies b[j] != b[k] by {
        bucket_is_every_nth(desired, n, i, j);
        bucket_is_every_nth(desired, n, i, k);
        assert(i + j * n < i + k * n) by (nonlinear_arith)
            requires
                j < k,
                0 < n,
        ;
    }
}

/// A destination that gets a socket is in the assignment with it.
pub(crate) proof fn lemma_assigned<S>(plan: Seq<PlannedDest<S>>, fresh: Seq<Option<Arc<S>>>, j: int)
    requires
        0 <= j < plan.len(),
        plan[j].socket(fresh[j]) is Some,
    ensures
        assigned(plan, fresh).contains(
            ConnectedDest { addr: plan[j].addr(), socket: plan[j].socket(fresh[j]).unwrap() },
        ),
    decreases plan.len(),
{
    let dest = ConnectedDest {
        addr: plan[j].addr(),
        socket: plan[j].socket(fresh[j]).unwrap(),
    };
    let rest = plan.drop_last();
    if j == plan.len() - 1 {
        assert(assigned(plan, fresh).last() == dest);
    } else {
        lemma_assigned(rest, fresh, j);
        let k = choose|k: int|
            0 <= k < assigned(rest, fresh).len() && assigned(rest, fresh)[k] == dest;
        assert(assigned(plan, fresh)[k] == dest);
    }
}

/// Every destination in the assignment was planned and got its socket.
pub(crate) proof fn lemma_assigned_was_planned<S>(
    plan: Seq<PlannedDest<S>>,
    fresh: Seq<Option<Arc<S>>>,
    dest: ConnectedDest<S>,
)
    requires
        assigned(plan, fresh).contains(dest),
    ensures
        exists|j: int|
            0 <= j < plan.len() && (#[trigger] plan[j]).addr() == dest.addr && plan[j].socket(
                fresh[j],
            ) == Some(dest.socket),
    decreases plan.len(),
{
    let rest = plan.drop_last();
    let k = choose|k: int|
        0 <= k < assigned(plan, fresh).len() && assigned(plan, fresh)[k] == dest;
    if k < assigned(rest, fresh).len() {
        assert(assigned(rest, fresh)[k] == dest);
        lemma_assigned_was_planned(rest, fresh, dest);
        let j = choose|j: int|
            0 <= j < rest.len() && (#[trigger] rest[j]).addr() == dest.addr && rest[j].socket(
                fresh[j],
            ) == Some(dest.socket);
        assert(plan[j] == rest[j]);
    } else {
        assert(plan[plan.len() - 1] == plan.last());
    }
}

/// A socket in the cache belongs to a reachable destination that was planned.
pub(crate) proof fn lemma_cached_was_planned<S>(
    plan: Seq<PlannedDest<S>>,
    fresh: Seq<Option<Arc<S>>>,
    key: u64,
)
    requires
        cached(plan, fresh).contains_key(key),
    ensures
        exists|j: int|
            0 <= j < plan.len() && (#[trigger] plan[j]).addr().reachable()
                && plan[j].addr().cache_key() == key && plan[j].socket(fresh[j]) == Some(
                cached(plan, fresh)[key],
            ),
    decreases plan.len(),
{
    if plan.len() > 0 {
        let rest = plan.drop_last();
        let last = plan.last();
        if last.socket(fresh[plan.len() - 1]) is Some && last.addr().reachable()
            && last.addr().cache_key() == key {
            assert(plan[plan.len() - 1] == last);
        } else {
            lemma_cached_was_planned(rest, fresh, key);
            let j = choose|j: int|
                0 <= j < rest.len() && (#[trigger] rest[j]).addr().reachable()
                    && rest[j].addr().cache_key() == key && rest[j].socket(fresh[j]) == Some(
                    cached(rest, fresh)[key],
                );
            assert(plan[j] == rest[j]);
        }
    }
}

/// A reachable destination that gets a socket has an entry in the cache.
proof fn lemma_socket_is_cached<S>(
    plan: Seq<PlannedDest<S>>,
    fresh: Seq<Option<Arc<S>>>,
    j: int,
)
    requires
        0 <= j < plan.len(),
        plan[j].addr().reachable(),
        plan[j].socket(fresh[j]) is Some,
    ensures
        cached(plan, fresh).contains_key(plan[j].addr().cache_key()),
    decreases plan.len(),
{
    if j < plan.len() - 1 {
        assert(plan.drop_last()[j] == plan[j]);
        lemma_socket_is_cached(plan.drop_last(), fresh, j);
    }
}

/// Whether a plan is for these destinations: it has a step for each, in order, and skips those
/// that cannot be reached, and only those.
pub open spec fn plan_for<S>(plan: Seq<PlannedDest<S>>, dests: Seq<SocketAddr>) -> bool {
    &&& plan.len() == dests.len()
    &&& forall|j: int| #![trigger plan[j]]
        0 <= j < plan.len() ==> plan[j].addr() == dests[j] && (plan[j] is Skip
            <==> !dests[j].reachable())
}

/// Whether a step reuses a socket only if some shard had it for this destination.
pub open spec fn reuses_own_socket<S>(step: PlannedDest<S>, caches: Seq<Map<u64, Arc<S>>>) -> bool {
    step matches PlannedDest::Reuse(addr, socket) ==> exists|i: int|
        0 <= i < caches.len() && (#[trigger] caches[i]).contains_key(addr.cache_key())
            && caches[i][addr.cache_key()] == socket
}

/// Whether every cache is part of its counterpart.
spec fn all_within<S>(left: Seq<Map<u64, Arc<S>>>, caches: Seq<Map<u64, Arc<S>>>) -> bool {
    &&& left.len() == caches.len()
    &&& forall|i: int, key: u64| #![trigger left[i].contains_key(key)]
        0 <= i < left.len() && left[i].contains_key(key) ==> caches[i].contains_key(key)
            && caches[i][key] == left[i][key]
}

/// The first holder of a socket, from the `i`-th shard on, is a shard that has it.
pub(crate) proof fn lemma_holder<S>(caches: Seq<Map<u64, Arc<S>>>, key: u64, i: int)
    requires
        0 <= i <= caches.len(),
    ensures
        i <= holder(caches, key, i) <= caches.len(),
        holder(caches, key, i) < caches.len() ==> caches[holder(caches, key, i)].contains_key(key),
        forall|k: int|
            i <= k < holder(caches, key, i) ==> !(#[trigger] caches[k]).contains_key(key),
    decreases caches.len() - i,
{
    if i < caches.len() && !caches[i].contains_key(key) {
        lemma_holder(caches, key, i + 1);
    }
}

/// Claiming leaves the destinations of a plan alone, takes nothing but what is there, and gives
/// each destination only sockets of its own.
proof fn lemma_claimed_plan<S>(
    plan: Seq<PlannedDest<S>>,
    dests: Seq<SocketAddr>,
    left: Seq<Map<u64, Arc<S>>>,
    caches: Seq<Map<u64, Arc<S>>>,
)
    requires
        plan_for(plan, dests),
        all_within(left, caches),
        forall|j: int| 0 <= j < plan.len() ==> reuses_own_socket(#[trigger] plan[j], caches),
    ensures
        plan_for(claimed_plan(plan, left).0, dests),
        all_within(claimed_plan(plan, left).1, caches),
        forall|j: int|
            0 <= j < plan.len() ==> reuses_own_socket(
                #[trigger] claimed_plan(plan, left).0[j],
                caches,
            ),
    decreases plan.len(),
{
    if plan.len() > 0 {
        let rest = plan.drop_last();
        assert forall|j: int| 0 <= j < rest.len() implies reuses_own_socket(
            #[trigger] rest[j],
            caches,
        ) by {
            assert(rest[j] == plan[j]);
        }
        assert(plan_for(rest, dests.drop_last())) by {
            assert forall|j: int| #![trigger rest[j]] 0 <= j < rest.len() implies rest[j].addr()
                == dests.drop_last()[j] && (rest[j] is Skip <==> !dests.drop_last()[j].reachable()) by {
                assert(rest[j] == plan[j]);
            }
        }
        lemma_claimed_plan(rest, dests.drop_last(), left, caches);
        let (steps, now) = claimed_plan(rest, left);
        let last = plan.last();
        assert(last == plan[plan.len() - 1]);
        let key = last.addr().cache_key();
        lemma_holder(now, key, 0);
        let (step, after) = claimed_step(last, now);
        let claimed = claimed_plan(plan, left).0;
        assert(claimed == steps.push(step));
        assert(plan_for(claimed, dests)) by {
            assert forall|j: int| #![trigger claimed[j]] 0 <= j < claimed.len() implies claimed[j].addr()
                == dests[j] && (claimed[j] is Skip <==> !dests[j].reachable()) by {
                if j < steps.len() {
                    assert(claimed[j] == steps[j]);
                }
            }
        }
        assert forall|j: int| 0 <= j < plan.len() implies reuses_own_socket(
            #[trigger] claimed[j],
            caches,
        ) by {
            if j < steps.len() {
                assert(claimed[j] == steps[j]);
            } else if step != last {
                let i = holder(now, key, 0);
                assert(now[i].contains_key(key));
                assert(caches[i].contains_key(key));
            }
        }
    }
}

/// The plans of a distribution, one by one.
proof fn lemma_reshard_plans<S>(
    desired: Seq<SocketAddr>,
    caches: Seq<Map<u64, Arc<S>>>,
    m: int,
)
    requires
        0 <= m <= caches.len(),
    ensures
        ({
            let own = own_plans(desired, caches);
            let (plans, left) = claimed_plans(own.take(m), leftovers(desired, caches));
            &&& plans.len() == m
            &&& all_within(left, caches)
            &&& forall|i: int| #![trigger plans[i]]
                0 <= i < m ==> plan_for(plans[i], bucket(desired, caches.len() as int, i)) && (
                forall|j: int|
                    0 <= j < plans[i].len() ==> reuses_own_socket(#[trigger] plans[i][j], caches))
        }),
    decreases m,
{
    let own = own_plans(desired, caches);
    let start = leftovers(desired, caches);
    if m == 0 {
        assert(own.take(0) =~= Seq::empty());
    } else {
        lemma_reshard_plans(desired, caches, m - 1);
        assert(own.take(m).drop_last() =~= own.take(m - 1));
        assert(own.take(m).last() == own[m - 1]);
        let (done, left) = claimed_plans(own.take(m - 1), start);
        let dests = bucket(desired, caches.len() as int, m - 1);
        let plan = own[m - 1];
        assert forall|j: int| 0 <= j < plan.len() implies reuses_own_socket(
            #[trigger] plan[j],
            caches,
        ) by {
            assert(plan[j] == planned(dests, caches[m - 1], j));
        }
        lemma_claimed_plan(plan, dests, left, caches);
        let plans = claimed_plans(own.take(m), start).0;
        assert(plans == done.push(claimed_plan(plan, left).0));
        assert forall|i: int| #![trigger plans[i]] 0 <= i < m implies plan_for(
            plans[i],
            bucket(desired, caches.len() as int, i),
        ) && (forall|j: int|
            0 <= j < plans[i].len() ==> reuses_own_socket(#[trigger] plans[i][j], caches)) by {
            if i < m - 1 {
                assert(plans[i] == done[i]);
            }
        }
    }
}

/// The plan of a shard has a step for each of its destinations, in order. It skips those that
/// cannot be reached, and reuses a socket only for the destination that it is connected to.
pub proof fn plans_serve_their_buckets<S>(
    desired: Seq<SocketAddr>,
    caches: Seq<Map<u64, Arc<S>>>,
    i: int,
)
    requires
        0 <= i < caches.len(),
    ensures
        reshard_plans(desired, caches).len() == caches.len(),
        plan_for(reshard_plans(desired, caches)[i], bucket(desired, caches.len() as int, i)),
        forall|j: int|
            0 <= j < reshard_plans(desired, caches)[i].len() ==> reuses_own_socket(
                #[trigger] reshard_plans(desired, caches)[i][j],
                caches,
            ),
{
    lemma_reshard_plans(desired, caches, caches.len() as int);
    let own = own_plans(desired, caches);
    assert(own.take(caches.len() as int) =~= own);
    let plans = reshard_plans(desired, caches);
    assert(plan_for(plans[i], bucket(desired, caches.len() as int, i)));
}

/// Whether two lists of caches agree on one key.
spec fn agree_at<S>(a: Seq<Map<u64, Arc<S>>>, b: Seq<Map<u64, Arc<S>>>, key: u64) -> bool {
    &&& a.len() == b.len()
    &&& forall|i: int| #![trigger a[i]]
        0 <= i < a.len() ==> (a[i].contains_key(key) <==> b[i].contains_key(key)) && (
        a[i].contains_key(key) ==> a[i][key] == b[i][key])
}

/// Lists of caches that agree on a key agree on its first holder.
proof fn lemma_same_holder<S>(
    a: Seq<Map<u64, Arc<S>>>,
    b: Seq<Map<u64, Arc<S>>>,
    key: u64,
    i: int,
)
    requires
        agree_at(a, b, key),
        0 <= i <= a.len(),
    ensures
        holder(a, key, i) == holder(b, key, i),
    decreases a.len() - i,
{
    if i < a.len() {
        assert(a[i].contains_key(key) <==> b[i].contains_key(key));
        lemma_same_holder(a, b, key, i + 1);
    }
}

/// Destinations other than `addr` do not claim its sockets.
proof fn lemma_others_leave_socket<S>(
    plan: Seq<PlannedDest<S>>,
    left: Seq<Map<u64, Arc<S>>>,
    addr: SocketAddr,
)
    requires
        addr.reachable(),
        forall|j: int| 0 <= j < plan.len() ==> (#[trigger] plan[j]).addr() != addr,
    ensures
        agree_at(claimed_plan(plan, left).1, left, addr.cache_key()),
        claimed_plan(plan, left).0.len() == plan.len(),
    decreases plan.len(),
{
    if plan.len() > 0 {
        let rest = plan.drop_last();
        assert forall|j: int| 0 <= j < rest.len() implies (#[trigger] rest[j]).addr() != addr by {
            assert(rest[j] == plan[j]);
        }
        lemma_others_leave_socket(rest, left, addr);
        let last = plan.last();
        assert(last == plan[plan.len() - 1]);
        if last.addr().reachable() && last.addr().cache_key() == addr.cache_key() {
            cache_key_injective(last.addr(), addr);
        }
        lemma_holder(claimed_plan(rest, left).1, last.addr().cache_key(), 0);
    }
}

/// The step that destination `j` ends up with is the one that it claims after those before it.
proof fn lemma_claimed_at<S>(plan: Seq<PlannedDest<S>>, left: Seq<Map<u64, Arc<S>>>, j: int)
    requires
        0 <= j < plan.len(),
    ensures
        claimed_plan(plan, left).0.len() == plan.len(),
        claimed_plan(plan, left).0[j] == claimed_step(
            plan[j],
            claimed_plan(plan.take(j), left).1,
        ).0,
    decreases plan.len(),
{
    let rest = plan.drop_last();
    if j == plan.len() - 1 {
        assert(plan.take(j) =~= rest);
        if rest.len() > 0 {
            lemma_claimed_at(rest, left, 0);
        } else {
            assert(claimed_plan(rest, left).0.len() == 0);
        }
    } else {
        lemma_claimed_at(rest, left, j);
        assert(rest.take(j) =~= plan.take(j));
    }
    let (steps, now) = claimed_plan(rest, left);
    assert(claimed_plan(plan, left).0 == steps.push(claimed_step(plan.last(), now).0));
}

/// The plan that shard `i` ends up with is the one that it claims after those before it.
proof fn lemma_claimed_by<S>(
    plans: Seq<Seq<PlannedDest<S>>>,
    left: Seq<Map<u64, Arc<S>>>,
    i: int,
)
    requires
        0 <= i < plans.len(),
    ensures
        claimed_plans(plans, left).0.len() == plans.len(),
        claimed_plans(plans, left).0[i] == claimed_plan(
            plans[i],
            claimed_plans(plans.take(i), left).1,
        ).0,
    decreases plans.len(),
{
    let rest = plans.drop_last();
    if i == plans.len() - 1 {
        assert(plans.take(i) =~= rest);
        if rest.len() > 0 {
            lemma_claimed_by(rest, left, 0);
        } else {
            assert(claimed_plans(rest, left).0.len() == 0);
        }
    } else {
        lemma_claimed_by(rest, left, i);
        assert(rest.take(i) =~= plans.take(i));
    }
    let (done, now) = claimed_plans(rest, left);
    assert(claimed_plans(plans, left).0 == done.push(claimed_plan(plans.last(), now).0));
}

/// Shards that do not serve `addr` do not claim its sockets.
proof fn lemma_other_shards_leave_socket<S>(
    plans: Seq<Seq<PlannedDest<S>>>,
    left: Seq<Map<u64, Arc<S>>>,
    addr: SocketAddr,
)
    requires
        addr.reachable(),
        forall|i: int, j: int|
            0 <= i < plans.len() && 0 <= j < plans[i].len() ==> (#[trigger] plans[i][j]).addr()
                != addr,
    ensures
        agree_at(claimed_plans(plans, left).1, left, addr.cache_key()),
    decreases plans.len(),
{
    if plans.len() > 0 {
        let rest = plans.drop_last();
        assert forall|i: int, j: int|
            0 <= i < rest.len() && 0 <= j < rest[i].len() implies (#[trigger] rest[i][j]).addr()
            != addr by {
            assert(rest[i] == plans[i]);
        }
        lemma_other_shards_leave_socket(rest, left, addr);
        let last = plans.last();
        assert forall|j: int| 0 <= j < last.len() implies (#[trigger] last[j]).addr() != addr by {
            assert(plans[plans.len() - 1][j] == last[j]);
        }
        let now = claimed_plans(rest, left).1;
        lemma_others_leave_socket(last, now, addr);
        let after = claimed_plan(last, now).1;
        assert forall|i: int| #![trigger after[i]] 0 <= i < after.len() implies (
        after[i].contains_key(addr.cache_key()) <==> left[i].contains_key(addr.cache_key())) && (
        after[i].contains_key(addr.cache_key()) ==> after[i][addr.cache_key()]
            == left[i][addr.cache_key()]) by {
            assert(now[i].contains_key(addr.cache_key()) <==> left[i].contains_key(
                addr.cache_key(),
            ));
        }
    }
}

/// In a list without repetitions a destination has its turn and no other.
pub(crate) proof fn lemma_only_turn(desired: Seq<SocketAddr>, n: int, idx: int, i: int, j: int)
    requires
        0 < n,
        desired.no_duplicates(),
        0 <= idx < desired.len(),
        0 <= i < n,
        0 <= j < bucket(desired, n, i).len(),
        bucket(desired, n, i)[j] == desired[idx],
    ensures
        i == idx % n,
        j == idx / n,
{
    bucket_is_every_nth(desired, n, i, j);
    lemma_fundamental_div_mod_converse(idx, n, j, i);
}

/// The socket that a destination is entitled to: the one that its own shard has, or else the one
/// that the first other shard has.
pub open spec fn entitled_socket<S>(
    caches: Seq<Map<u64, Arc<S>>>,
    own: int,
    key: u64,
) -> Arc<S> {
    if caches[own].contains_key(key) {
        caches[own][key]
    } else {
        caches[holder(caches, key, 0)][key]
    }
}

/// A destination that stays in the set keeps its socket, on whichever shard it ends up and
/// whatever becomes of the new sockets: the shard that serves it reuses a socket that is
/// connected to it, its own if it has one.
pub proof fn survivors_keep_their_socket<S>(
    desired: Seq<SocketAddr>,
    caches: Seq<Map<u64, Arc<S>>>,
    idx: int,
    shard: int,
    fresh: Seq<Option<Arc<S>>>,
)
    requires
        desired.no_duplicates(),
        0 <= idx < desired.len(),
        desired[idx].reachable(),
        0 <= shard < caches.len(),
        caches[shard].contains_key(desired[idx].cache_key()),
    ensures
        ({
            let i = idx % (caches.len() as int);
            let key = desired[idx].cache_key();
            let socket = entitled_socket(caches, i, key);
            let plan = reshard_plans(desired, caches)[i];
            &&& plan[idx / (caches.len() as int)] == PlannedDest::Reuse(desired[idx], socket)
            &&& assigned(plan, fresh).contains(ConnectedDest { addr: desired[idx], socket })
            &&& cached(plan, fresh).contains_key(key)
            &&& cached(plan, fresh)[key] == socket
        }),
{
    let n = caches.len() as int;
    let addr = desired[idx];
    let key = addr.cache_key();
    let i = idx % n;
    let j = idx / n;
    every_destination_has_a_shard(desired, n, idx);
    let own = own_plans(desired, caches);
    let start = leftovers(desired, caches);
    let dests = bucket(desired, n, i);
    buckets_repeat_nothing(desired, n, i);
    assert(first_listed(dests, j));
    assert(own[i][j] == planned(dests, caches[i], j));

    // the shards before shard `i` leave the socket alone
    let before = own.take(i);
    assert forall|a: int, b: int|
        0 <= a < before.len() && 0 <= b < before[a].len() implies (#[trigger] before[a][b]).addr()
        != addr by {
        assert(before[a][b].addr() == bucket(desired, n, a)[b]);
        if bucket(desired, n, a)[b] == addr {
            lemma_only_turn(desired, n, idx, a, b);
        }
    }
    lemma_other_shards_leave_socket(before, start, addr);
    let now = claimed_plans(before, start).1;

    // and so do the destinations of shard `i` before this one
    let earlier = own[i].take(j);
    assert forall|b: int| 0 <= b < earlier.len() implies (#[trigger] earlier[b]).addr() != addr by {
        assert(earlier[b].addr() == dests[b]);
    }
    lemma_others_leave_socket(earlier, now, addr);
    let left = claimed_plan(earlier, now).1;
    assert(agree_at(left, start, key)) by {
        assert forall|k: int| #![trigger left[k]] 0 <= k < left.len() implies (
        left[k].contains_key(key) <==> start[k].contains_key(key)) && (left[k].contains_key(key)
            ==> left[k][key] == start[k][key]) by {
            assert(now[k].contains_key(key) <==> start[k].contains_key(key));
        }
    }
    lemma_same_holder(left, start, key, 0);
    lemma_claimed_by(own, start, i);
    lemma_claimed_at(own[i], now, j);

    // what is left over of the others is what they have
    if !caches[i].contains_key(key) {
        assert(agree_at(start, caches, key)) by {
            assert forall|k: int| #![trigger start[k]] 0 <= k < start.len() implies (
            start[k].contains_key(key) <==> caches[k].contains_key(key)) && (start[k].contains_key(
                key,
            ) ==> start[k][key] == caches[k][key]) by {
                let others = bucket(desired, n, k);
                if k != i {
                    assert forall|b: int| 0 <= b < others.len() implies !((
                    #[trigger] others[b]).reachable() && others[b].cache_key() == key) by {
                        if others[b].reachable() && others[b].cache_key() == key {
                            cache_key_injective(others[b], addr);
                            lemma_only_turn(desired, n, idx, k, b);
                        }
                    }
                    assert(key_unused(others, others.len() as int, key));
                }
            }
        }
        lemma_same_holder(start, caches, key, 0);
        lemma_holder(caches, key, 0);
        lemma_holder(start, key, 0);
        assert(holder(caches, key, 0) < caches.len()) by {
            if holder(caches, key, 0) == caches.len() {
                assert(!caches[shard].contains_key(key));
            }
        }
        let h = holder(caches, key, 0);
        assert(start[h][key] == caches[h][key]);
        assert(left[h][key] == start[h][key]);
    }
    let plan = reshard_plans(desired, caches)[i];
    let socket = entitled_socket(caches, i, key);
    assert(plan[j] == PlannedDest::Reuse(addr, socket));
    plans_serve_their_buckets(desired, caches, i);
    lemma_assigned(plan, fresh, j);
    lemma_socket_is_cached(plan, fresh, j);
    lemma_cached_was_planned(plan, fresh, key);
    let k = choose|k: int|
        0 <= k < plan.len() && (#[trigger] plan[k]).addr().reachable()
            && plan[k].addr().cache_key() == key && plan[k].socket(fresh[k]) == Some(
            cached(plan, fresh)[key],
        );
    assert(plan[k].addr() == dests[k]);
    cache_key_injective(dests[k], addr);
}

/// A destination that a shard does not serve has no socket there any more.
pub proof fn removed_destinations_lose_their_socket<S>(
    plan: Seq<PlannedDest<S>>,
    dests: Seq<SocketAddr>,
    fresh: Seq<Option<Arc<S>>>,
    key: u64,
)
    requires
        plan_for(plan, dests),
        key_unused(dests, dests.len() as int, key),
    ensures
        !cached(plan, fresh).contains_key(key),
{
    if cached(plan, fresh).contains_key(key) {
        lemma_cached_was_planned(plan, fresh, key);
        let j = choose|j: int|
            0 <= j < plan.len() && (#[trigger] plan[j]).addr().reachable()
                && plan[j].addr().cache_key() == key && plan[j].socket(fresh[j]) == Some(
                cached(plan, fresh)[key],
            );
        assert(plan[j].addr() == dests[j]);
    }
}

/// A shard serves reachable destinations of its own and no others.
pub proof fn shards_serve_reachable_destinations<S>(
    plan: Seq<PlannedDest<S>>,
    dests: Seq<SocketAddr>,
    fresh: Seq<Option<Arc<S>>>,
    dest: ConnectedDest<S>,
)
    requires
        plan_for(plan, dests),
        assigned(plan, fresh).contains(dest),
    ensures
        dest.addr.reachable(),
        dests.contains(dest.addr),
{
    lemma_assigned_was_planned(plan, fresh, dest);
    let j = choose|j: int|
        0 <= j < plan.len() && (#[trigger] plan[j]).addr() == dest.addr && plan[j].socket(
            fresh[j],
        ) == Some(dest.socket);
    assert(plan[j].addr() == dests[j]);
}

/// A shard keeps the sockets of the destinations that it serves, and no others.
pub proof fn shards_keep_the_sockets_they_use<S>(
    plan: Seq<PlannedDest<S>>,
    dests: Seq<SocketAddr>,
    fresh: Seq<Option<Arc<S>>>,
    dest: ConnectedDest<S>,
)
    requires
        plan_for(plan, dests),
        dests.no_duplicates(),
        dest.addr.reachable(),
    ensures
        assigned(plan, fresh).contains(dest) <==> cached(plan, fresh).contains_key(
            dest.addr.cache_key(),
        ) && cached(plan, fresh)[dest.addr.cache_key()] == dest.socket,
{
    let key = dest.addr.cache_key();
    if assigned(plan, fresh).contains(dest) {
        lemma_assigned_was_planned(plan, fresh, dest);
        let j = choose|j: int|
            0 <= j < plan.len() && (#[trigger] plan[j]).addr() == dest.addr && plan[j].socket(
                fresh[j],
            ) == Some(dest.socket);
        lemma_socket_is_cached(plan, fresh, j);
        lemma_cached_was_planned(plan, fresh, key);
        let k = choose|k: int|
            0 <= k < plan.len() && (#[trigger] plan[k]).addr().reachable()
                && plan[k].addr().cache_key() == key && plan[k].socket(fresh[k]) == Some(
                cached(plan, fresh)[key],
            );
        cache_key_injective(plan[k].addr(), dest.addr);
        assert(dests[k] == dests[j]);
    }
    if cached(plan, fresh).contains_key(key) && cached(plan, fresh)[key] == dest.socket {
        lemma_cached_was_planned(plan, fresh, key);
        let k = choose|k: int|
            0 <= k < plan.len() && (#[trigger] plan[k]).addr().reachable()
                && plan[k].addr().cache_key() == key && plan[k].socket(fresh[k]) == Some(
                cached(plan, fresh)[key],
            );
        cache_key_injective(plan[k].addr(), dest.addr);
        lemma_assigned(plan, fresh, k);
    }
}

/// No two shards keep a socket to the same destination, whatever becomes of the new sockets.
pub proof fn no_two_shards_keep_the_same_destination<S>(
    desired: Seq<SocketAddr>,
    caches: Seq<Map<u64, Arc<S>>>,
    i: int,
    k: int,
    fresh_i: Seq<Option<Arc<S>>>,
    fresh_k: Seq<Option<Arc<S>>>,
    key: u64,
)
    requires
        desired.no_duplicates(),
        0 <= i < caches.len(),
        0 <= k < caches.len(),
        cached(reshard_plans(desired, caches)[i], fresh_i).contains_key(key),
        cached(reshard_plans(desired, caches)[k], fresh_k).contains_key(key),
    ensures
        i == k,
{
    let n = caches.len() as int;
    let plan_i = reshard_plans(desired, caches)[i];
    let plan_k = reshard_plans(desired, caches)[k];
    plans_serve_their_buckets(desired, caches, i);
    plans_serve_their_buckets(desired, caches, k);
    lemma_cached_was_planned(plan_i, fresh_i, key);
    lemma_cached_was_planned(plan_k, fresh_k, key);
    let a = choose|a: int|
        0 <= a < plan_i.len() && (#[trigger] plan_i[a]).addr().reachable()
            && plan_i[a].addr().cache_key() == key && plan_i[a].socket(fresh_i[a]) == Some(
            cached(plan_i, fresh_i)[key],
        );
    let b = choose|b: int|
        0 <= b < plan_k.len() && (#[trigger] plan_k[b]).addr().reachable()
            && plan_k[b].addr().cache_key() == key && plan_k[b].socket(fresh_k[b]) == Some(
            cached(plan_k, fresh_k)[key],
        );
    cache_key_injective(plan_i[a].addr(), plan_k[b].addr());
    bucket_is_every_nth(desired, n, i, a);
    let idx = i + a * n;
    lemma_only_turn(desired, n, idx, i, a);
    lemma_only_turn(desired, n, idx, k, b);
}

/// A plan without connections has nothing to claim.
proof fn lemma_nothing_to_claim<S>(plan: Seq<PlannedDest<S>>, left: Seq<Map<u64, Arc<S>>>)
    requires
        forall|j: int| 0 <= j < plan.len() ==> !((#[trigger] plan[j]) is Connect),
    ensures
        claimed_plan(plan, left) == (plan, left),
    decreases plan.len(),
{
    if plan.len() > 0 {
        let rest = plan.drop_last();
        assert forall|j: int| 0 <= j < rest.len() implies !((#[trigger] rest[j]) is Connect) by {
            assert(rest[j] == plan[j]);
        }
        lemma_nothing_to_claim(rest, left);
        assert(plan.last() == plan[plan.len() - 1]);
        assert(claimed_plan(plan, left).0 =~= plan);
    } else {
        assert(claimed_plan(plan, left).0 =~= plan);
    }
}

/// Plans without connections have nothing to claim.
proof fn lemma_no_plan_claims<S>(
    plans: Seq<Seq<PlannedDest<S>>>,
    left: Seq<Map<u64, Arc<S>>>,
)
    requires
        forall|i: int, j: int|
            0 <= i < plans.len() && 0 <= j < plans[i].len() ==> !((
            #[trigger] plans[i][j]) is Connect),
    ensures
        claimed_plans(plans, left) == (plans, left),
    decreases plans.len(),
{
    if plans.len() > 0 {
        let rest = plans.drop_last();
        assert forall|i: int, j: int|
            0 <= i < rest.len() && 0 <= j < rest[i].len() implies !((
        #[trigger] rest[i][j]) is Connect) by {
            assert(rest[i] == plans[i]);
        }
        lemma_no_plan_claims(rest, left);
        let last = plans.last();
        assert forall|j: int| 0 <= j < last.len() implies !((#[trigger] last[j]) is Connect) by {
            assert(plans[plans.len() - 1][j] == last[j]);
        }
        lemma_nothing_to_claim(last, left);
        assert(claimed_plans(plans, left).0 =~= plans);
    } else {
        assert(claimed_plans(plans, left).0 =~= plans);
    }
}

/// Distributing the same destinations again changes nothing and connects nothing, provided that
/// every reachable destination got its socket the first time.
pub proof fn repeated_reshard_changes_nothing<S>(
    desired: Seq<SocketAddr>,
    caches: Seq<Map<u64, Arc<S>>>,
    fresh: Seq<Seq<Option<Arc<S>>>>,
    next: Seq<Map<u64, Arc<S>>>,
    i: int,
    fresh_again: Seq<Option<Arc<S>>>,
)
    requires
        desired.no_duplicates(),
        0 <= i < caches.len(),
        next.len() == caches.len(),
        forall|k: int| #![trigger next[k]]
            0 <= k < next.len() ==> next[k] == cached(reshard_plans(desired, caches)[k], fresh[k]),
        forall|k: int, j: int| #![trigger reshard_plans(desired, caches)[k][j]]
            0 <= k < caches.len() && 0 <= j < reshard_plans(desired, caches)[k].len()
                && reshard_plans(desired, caches)[k][j].addr().reachable() ==> reshard_plans(
                desired,
                caches,
            )[k][j].socket(fresh[k][j]) is Some,
    ensures
        ({
            let plan = reshard_plans(desired, caches)[i];
            let again = reshard_plans(desired, next)[i];
            &&& forall|j: int| 0 <= j < again.len() ==> !((#[trigger] again[j]) is Connect)
            &&& assigned(again, fresh_again) == assigned(plan, fresh[i])
            &&& cached(again, fresh_again) == next[i]
        }),
{
    let n = caches.len() as int;
    let own = own_plans(desired, next);
    assert forall|k: int, j: int|
        0 <= k < own.len() && 0 <= j < own[k].len() implies !((#[trigger] own[k][j]) is Connect)
        by {
        plans_serve_their_buckets(desired, caches, k);
        let step = reshard_plans(desired, caches)[k][j];
        lemma_next_step(desired, caches, fresh[k], next, k, j);
    }
    lemma_no_plan_claims(own, leftovers(desired, next));
    let plan = reshard_plans(desired, caches)[i];
    let again = reshard_plans(desired, next)[i];
    assert(again == own[i]);
    plans_serve_their_buckets(desired, caches, i);
    assert forall|j: int| 0 <= j < again.len() implies (#[trigger] again[j]).addr()
        == plan[j].addr() && again[j].socket(fresh_again[j]) == plan[j].socket(fresh[i][j])
        && !(again[j] is Connect) by {
        lemma_next_step(desired, caches, fresh[i], next, i, j);
    }
    lemma_same_sockets(again, fresh_again, plan, fresh[i]);
}

/// The second time, a destination that got its socket reuses it.
proof fn lemma_next_step<S>(
    desired: Seq<SocketAddr>,
    caches: Seq<Map<u64, Arc<S>>>,
    fresh: Seq<Option<Arc<S>>>,
    next: Seq<Map<u64, Arc<S>>>,
    i: int,
    j: int,
)
    requires
        desired.no_duplicates(),
        0 <= i < caches.len(),
        next.len() == caches.len(),
        next[i] == cached(reshard_plans(desired, caches)[i], fresh),
        0 <= j < own_plans(desired, next)[i].len(),
        reshard_plans(desired, caches)[i][j].addr().reachable() ==> reshard_plans(
            desired,
            caches,
        )[i][j].socket(fresh[j]) is Some,
    ensures
        ({
            let step = own_plans(desired, next)[i][j];
            let plan = reshard_plans(desired, caches)[i];
            &&& !(step is Connect)
            &&& step.addr() == plan[j].addr()
            &&& step.socket(None) == plan[j].socket(fresh[j])
            &&& forall|other: Option<Arc<S>>| #[trigger] step.socket(other) == step.socket(None)
        }),
{
    let n = caches.len() as int;
    let dests = bucket(desired, n, i);
    let plan = reshard_plans(desired, caches)[i];
    plans_serve_their_buckets(desired, caches, i);
    buckets_repeat_nothing(desired, n, i);
    assert(own_plans(desired, next)[i][j] == planned(dests, next[i], j));
    assert(plan[j].addr() == dests[j]);
    assert(first_listed(dests, j));
    if dests[j].reachable() {
        let key = dests[j].cache_key();
        lemma_socket_is_cached(plan, fresh, j);
        lemma_cached_was_planned(plan, fresh, key);
        let k = choose|k: int|
            0 <= k < plan.len() && (#[trigger] plan[k]).addr().reachable()
                && plan[k].addr().cache_key() == key && plan[k].socket(fresh[k]) == Some(
                next[i][key],
            );
        assert(plan[k].addr() == dests[k]);
        cache_key_injective(dests[k], dests[j]);
    }
}

/// Two plans that give the same destinations the same sockets come to the same.
proof fn lemma_same_sockets<S>(
    plan1: Seq<PlannedDest<S>>,
    fresh1: Seq<Option<Arc<S>>>,
    plan2: Seq<PlannedDest<S>>,
    fresh2: Seq<Option<Arc<S>>>,
)
    requires
        plan1.len() == plan2.len(),
        forall|j: int|
            0 <= j < plan1.len() ==> (#[trigger] plan1[j]).addr() == plan2[j].addr()
                && plan1[j].socket(fresh1[j]) == plan2[j].socket(fresh2[j]),
    ensures
        assigned(plan1, fresh1) == assigned(plan2, fresh2),
        cached(plan1, fresh1) == cached(plan2, fresh2),
    decreases plan1.len(),
{
    if plan1.len() > 0 {
        let rest1 = plan1.drop_last();
        let rest2 = plan2.drop_last();
        assert forall|j: int| 0 <= j < rest1.len() implies (#[trigger] rest1[j]).addr()
            == rest2[j].addr() && rest1[j].socket(fresh1[j]) == rest2[j].socket(fresh2[j]) by {
            assert(rest1[j] == plan1[j]);
        }
        lemma_same_sockets(rest1, fresh1, rest2, fresh2);
        assert(plan1[plan1.len() - 1] == plan1.last());
    }
}

} // verus!
