//! Distribution of the destinations over the shards, and reuse of their sockets.
use std::collections::HashMap;
use std::sync::Arc;

use vstd::prelude::*;

use crate::addr::cache_key_injective;
use crate::addr::v4_cache_key;
use crate::addr::SocketAddr;
use crate::assignment_laws::planned_sockets_are_assigned;
use crate::metrics::ShredMetrics;
use crate::trace::share;

verus! {

/// A destination of a shard, with the socket that is connected to it.
pub struct ConnectedDest<S> {
    pub addr: SocketAddr,
    pub socket: Arc<S>,
}

/// The sockets of a shard, by the destination that they are connected to.
pub type SocketCache<S> = HashMap<u64, Arc<S>>;

/// What the shard manager keeps of one shard.
pub struct ShardHandle<S> {
    /// The destinations of the shard.
    pub assignment: Vec<ConnectedDest<S>>,
    /// The sockets to those destinations, for the next time they are distributed.
    pub socket_cache: SocketCache<S>,
}

impl<S> ShardHandle<S> {
    /// A shard without destinations.
    pub fn new() -> (shard: ShardHandle<S>)
        ensures
            shard.assignment@ == Seq::<ConnectedDest<S>>::empty(),
            shard.socket_cache@ == Map::<u64, Arc<S>>::empty(),
    {
        ShardHandle { assignment: Vec::new(), socket_cache: HashMap::new() }
    }
}

/// How a destination of a shard gets its socket.
pub enum PlannedDest<S> {
    /// Not at all: the shard cannot reach it.
    Skip(SocketAddr),
    /// The socket that is already connected to it.
    Reuse(SocketAddr, Arc<S>),
    /// A new socket, if one can be had.
    Connect(SocketAddr),
}

/// The destinations of shard `i` of `n`: every `n`-th one, starting with the `i`-th.
pub open spec fn bucket(desired: Seq<SocketAddr>, n: int, i: int) -> Seq<SocketAddr>
    decreases desired.len(),
{
    if desired.len() == 0 {
        Seq::empty()
    } else {
        let rest = bucket(desired.drop_last(), n, i);
        if (desired.len() - 1) % n == i {
            rest.push(desired.last())
        } else {
            rest
        }
    }
}

/// Whether destination `j` is listed for the first time.
pub open spec fn first_listed(dests: Seq<SocketAddr>, j: int) -> bool {
    forall|k: int| 0 <= k < j ==> #[trigger] dests[k] != dests[j]
}

/// How destination `j` gets its socket, given the sockets that the shard has.
pub open spec fn planned<S>(dests: Seq<SocketAddr>, cache: Map<u64, Arc<S>>, j: int) -> PlannedDest<
    S,
> {
    let addr = dests[j];
    if !addr.reachable() {
        PlannedDest::Skip(addr)
    } else if cache.contains_key(addr.cache_key()) && first_listed(dests, j) {
        PlannedDest::Reuse(addr, cache[addr.cache_key()])
    } else {
        PlannedDest::Connect(addr)
    }
}

/// How all destinations of a shard get their sockets.
pub open spec fn plan_of<S>(dests: Seq<SocketAddr>, cache: Map<u64, Arc<S>>) -> Seq<
    PlannedDest<S>,
> {
    Seq::new(dests.len(), |j: int| planned(dests, cache, j))
}

impl<S> PlannedDest<S> {
    /// The destination.
    pub open spec fn addr(self) -> SocketAddr {
        match self {
            PlannedDest::Skip(addr) => addr,
            PlannedDest::Reuse(addr, _) => addr,
            PlannedDest::Connect(addr) => addr,
        }
    }

    /// The socket that the destination gets, given the new socket, if one could be had.
    pub open spec fn socket(self, fresh: Option<Arc<S>>) -> Option<Arc<S>> {
        match self {
            PlannedDest::Skip(_) => None,
            PlannedDest::Reuse(_, socket) => Some(socket),
            PlannedDest::Connect(_) => fresh,
        }
    }

    /// The destination that a new socket is to be connected to.
    pub fn to_connect(&self) -> (addr: Option<SocketAddr>)
        ensures
            addr == (match *self {
                PlannedDest::Connect(addr) => Some(addr),
                _ => None,
            }),
    {
        match self {
            PlannedDest::Connect(addr) => Some(*addr),
            _ => None,
        }
    }
}

/// The destinations that get a socket, in order.
pub open spec fn assigned<S>(plan: Seq<PlannedDest<S>>, fresh: Seq<Option<Arc<S>>>) -> Seq<
    ConnectedDest<S>,
>
    decreases plan.len(),
{
    if plan.len() == 0 {
        Seq::empty()
    } else {
        let rest = assigned(plan.drop_last(), fresh);
        match plan.last().socket(fresh[plan.len() - 1]) {
            Some(socket) => rest.push(ConnectedDest { addr: plan.last().addr(), socket }),
            None => rest,
        }
    }
}

/// The sockets of the reachable destinations that get one.
pub open spec fn cached<S>(plan: Seq<PlannedDest<S>>, fresh: Seq<Option<Arc<S>>>) -> Map<
    u64,
    Arc<S>,
>
    decreases plan.len(),
{
    if plan.len() == 0 {
        Map::empty()
    } else {
        let rest = cached(plan.drop_last(), fresh);
        let addr = plan.last().addr();
        match plan.last().socket(fresh[plan.len() - 1]) {
            Some(socket) => if addr.reachable() {
                rest.insert(addr.cache_key(), socket)
            } else {
                rest
            },
            None => rest,
        }
    }
}

/// Distributes the destinations over `n` shards in turn.
pub fn round_robin(desired: &Vec<SocketAddr>, n: usize) -> (buckets: Vec<Vec<SocketAddr>>)
    requires
        n > 0 || desired.len() == 0,
    ensures
        buckets.len() == n,
        forall|i: int|
            0 <= i < n ==> (#[trigger] buckets[i])@ == bucket(desired@, n as int, i),
{
    let mut buckets: Vec<Vec<SocketAddr>> = Vec::new();
    let mut i: usize = 0;
    while i < n
        invariant
            i <= n,
            buckets.len() == i,
            forall|k: int| 0 <= k < i ==> (#[trigger] buckets[k])@ == Seq::<SocketAddr>::empty(),
        decreases n - i,
    {
        buckets.push(Vec::new());
        i = i + 1;
    }
    let mut idx: usize = 0;
    while idx < desired.len()
        invariant
            idx <= desired.len(),
            n > 0 || desired.len() == 0,
            buckets.len() == n,
            forall|k: int|
                0 <= k < n ==> (#[trigger] buckets[k])@ == bucket(
                    desired@.take(idx as int),
                    n as int,
                    k,
                ),
        decreases desired.len() - idx,
    {
        let ghost before = buckets@;
        let target: usize = idx % n;
        buckets[target].push(desired[idx]);
        idx = idx + 1;
        proof {
            let seen = desired@.take(idx as int);
            assert(seen.drop_last() =~= desired@.take(idx - 1));
            assert(seen.last() == desired@[idx - 1]);
            assert forall|k: int| 0 <= k < n implies (#[trigger] buckets[k])@ == bucket(
                seen,
                n as int,
                k,
            ) by {
                assert(before[k]@ == bucket(desired@.take(idx - 1), n as int, k));
            }
        }
    }
    assert(desired@.take(idx as int) =~= desired@);
    buckets
}

/// Whether none of the first `n` destinations has its socket cached under `key`.
pub open spec fn key_unused(dests: Seq<SocketAddr>, n: int, key: u64) -> bool {
    forall|k: int|
        0 <= k < n ==> !((#[trigger] dests[k]).reachable() && dests[k].cache_key() == key)
}

/// The sockets that are left over when the destinations of a shard have taken theirs.
pub open spec fn leftover<S>(dests: Seq<SocketAddr>, cache: Map<u64, Arc<S>>) -> Map<u64, Arc<S>> {
    Map::new(
        |key: u64| cache.contains_key(key) && key_unused(dests, dests.len() as int, key),
        |key: u64| cache[key],
    )
}

/// Plans how each destination of a shard gets its socket. Sockets to be reused are taken from
/// the cache; what is left there belongs to destinations that the shard no longer has.
pub fn plan_shard<S>(dests: &Vec<SocketAddr>, cache: &mut SocketCache<S>) -> (plan: Vec<
    PlannedDest<S>,
>)
    ensures
        plan@ == plan_of(dests@, old(cache)@),
        final(cache)@ == leftover(dests@, old(cache)@),
        plan.len() == dests.len(),
        forall|j: int| #![trigger plan[j]]
            0 <= j < dests.len() ==> match dests[j] {
                SocketAddr::V6 { .. } => plan[j] == PlannedDest::<S>::Skip(dests[j]),
                SocketAddr::V4 { ip, port } => {
                    let key = (ip * 0x1_0000 + port) as u64;
                    if old(cache)@.contains_key(key) && !dests@.take(j).contains(dests[j]) {
                        plan[j] == PlannedDest::Reuse(dests[j], old(cache)@[key])
                    } else {
                        plan[j] == PlannedDest::<S>::Connect(dests[j])
                    }
                },
            },
        forall|ip: u32, port: u16, key: u64|
            key == ip * 0x1_0000 + port ==> (#[trigger] final(cache)@.contains_key(key) <==> old(
                cache
            )@.contains_key(key) && !#[trigger] dests@.contains(SocketAddr::V4 { ip, port })),
        final(cache)@.submap_of(old(cache)@),
{
    broadcast use vstd::std_specs::hash::group_hash_axioms;

    let ghost start = cache@;
    let mut plan: Vec<PlannedDest<S>> = Vec::new();
    let mut j: usize = 0;
    while j < dests.len()
        invariant
            j <= dests.len(),
            plan.len() == j,
            start == old(cache)@,
            forall|k: int| 0 <= k < j ==> #[trigger] plan[k] == planned(dests@, start, k),
            forall|key: u64| #[trigger]
                cache@.contains_key(key) <==> start.contains_key(key) && key_unused(
                    dests@,
                    j as int,
                    key,
                ),
            forall|key: u64| #[trigger] cache@.contains_key(key) ==> cache@[key] == start[key],
        decreases dests.len() - j,
    {
        let ghost before = cache@;
        let addr = dests[j];
        let step = match addr {
            SocketAddr::V6 { .. } => PlannedDest::Skip(addr),
            SocketAddr::V4 { ip, port } => {
                let key: u64 = v4_cache_key(ip, port);
                proof {
                    assert(key == addr.cache_key());
                    lemma_first_listed(dests@, j as int);
                }
                match cache.remove(&key) {
                    Some(socket) => PlannedDest::Reuse(addr, socket),
                    None => PlannedDest::Connect(addr),
                }
            },
        };
        plan.push(step);
        j = j + 1;
        proof {
            assert forall|key: u64| #[trigger]
                cache@.contains_key(key) <==> start.contains_key(key) && key_unused(
                    dests@,
                    j as int,
                    key,
                ) by {
                assert(dests@[j - 1] == addr);
                assert(key_unused(dests@, j as int, key) <==> key_unused(dests@, j - 1, key) && !(
                addr.reachable() && addr.cache_key() == key)) by {
                    if key_unused(dests@, j - 1, key) && !(addr.reachable() && addr.cache_key()
                        == key) {
                        assert(key_unused(dests@, j as int, key));
                    }
                }
            }
        }
    }
    assert(plan@ =~= plan_of(dests@, start));
    assert(cache@ =~= leftover(dests@, start));
    proof {
        assert forall|j: int| 0 <= j < dests@.len() implies (first_listed(dests@, j)
            <==> !(#[trigger] dests@.take(j)).contains(dests@[j])) by {
            let before = dests@.take(j);
            if before.contains(dests@[j]) {
                let k = choose|k: int| 0 <= k < before.len() && before[k] == dests@[j];
                assert(dests@[k] == dests@[j]);
            } else {
                assert forall|k: int| 0 <= k < j implies #[trigger] dests@[k] != dests@[j] by {
                    assert(before[k] == dests@[k]);
                    if dests@[k] == dests@[j] {
                        assert(before.contains(dests@[j]));
                    }
                }
            }
        }
        assert forall|ip: u32, port: u16, key: u64|
            key == ip * 0x1_0000 + port implies (#[trigger] cache@.contains_key(key)
            <==> start.contains_key(key) && !#[trigger] dests@.contains(
            SocketAddr::V4 { ip, port },
        )) by {
            lemma_key_unused(dests@, ip, port, key);
        }
    }
    plan
}

/// A reachable destination is listed for the first time exactly if its cache key is new.
proof fn lemma_first_listed(dests: Seq<SocketAddr>, j: int)
    requires
        0 <= j < dests.len(),
        dests[j].reachable(),
    ensures
        first_listed(dests, j) <==> key_unused(dests, j, dests[j].cache_key()),
{
    if first_listed(dests, j) {
        assert forall|k: int| 0 <= k < j implies !((#[trigger] dests[k]).reachable()
            && dests[k].cache_key() == dests[j].cache_key()) by {
            if dests[k].reachable() && dests[k].cache_key() == dests[j].cache_key() {
                cache_key_injective(dests[k], dests[j]);
            }
        }
    }
}

/// A cache key is new exactly if the endpoint that it spells is not listed.
proof fn lemma_key_unused(dests: Seq<SocketAddr>, ip: u32, port: u16, key: u64)
    requires
        key == ip * 0x1_0000 + port,
    ensures
        key_unused(dests, dests.len() as int, key) <==> !dests.contains(
            SocketAddr::V4 { ip, port },
        ),
{
    let addr = SocketAddr::V4 { ip, port };
    if dests.contains(addr) {
        let k = choose|k: int| 0 <= k < dests.len() && dests[k] == addr;
        assert(dests[k].reachable() && dests[k].cache_key() == key);
    } else {
        assert forall|k: int| 0 <= k < dests.len() implies !((#[trigger] dests[k]).reachable()
            && dests[k].cache_key() == key) by {
            if dests[k].reachable() && dests[k].cache_key() == key {
                cache_key_injective(dests[k], addr);
            }
        }
    }
}

/// Carries a plan out, given the new sockets. A destination for which there is none is left out.
pub fn commit_shard<S>(plan: &Vec<PlannedDest<S>>, fresh: &Vec<Option<Arc<S>>>) -> (shard:
    ShardHandle<S>)
    requires
        fresh.len() == plan.len(),
    ensures
        shard.assignment@ == assigned(plan@, fresh@),
        shard.socket_cache@ == cached(plan@, fresh@),
        forall|j: int, addr: SocketAddr, socket: Arc<S>|
            0 <= j < plan.len() && #[trigger] plan[j] == PlannedDest::<S>::Connect(addr) && fresh[j] == Some(
                socket,
            ) ==> #[trigger] shard.assignment@.contains(ConnectedDest { addr, socket }),
        forall|j: int, addr: SocketAddr, socket: Arc<S>|
            0 <= j < plan.len() && #[trigger] plan[j] == PlannedDest::Reuse(addr, socket) ==> #[trigger] shard.assignment@.contains(ConnectedDest { addr, socket }),
{
    broadcast use vstd::std_specs::hash::group_hash_axioms;

    let mut assignment: Vec<ConnectedDest<S>> = Vec::new();
    let mut socket_cache: SocketCache<S> = HashMap::new();
    let mut j: usize = 0;
    assert(plan@.take(0) =~= Seq::empty());
    assert(socket_cache@ =~= cached(plan@.take(0), fresh@));
    while j < plan.len()
        invariant
            j <= plan.len(),
            fresh.len() == plan.len(),
            assignment@ == assigned(plan@.take(j as int), fresh@),
            socket_cache@ == cached(plan@.take(j as int), fresh@),
        decreases plan.len() - j,
    {
        let found: Option<(SocketAddr, Arc<S>)> = match &plan[j] {
            PlannedDest::Skip(_) => None,
            PlannedDest::Reuse(addr, socket) => Some((*addr, share(socket))),
            PlannedDest::Connect(addr) => match &fresh[j] {
                Some(socket) => Some((*addr, share(socket))),
                None => None,
            },
        };
        proof {
            assert(plan@.take(j + 1).drop_last() =~= plan@.take(j as int));
            assert(plan@.take(j + 1).last() == plan@[j as int]);
        }
        if let Some((addr, socket)) = found {
            if let SocketAddr::V4 { ip, port } = addr {
                socket_cache.insert(v4_cache_key(ip, port), share(&socket));
            }
            assignment.push(ConnectedDest { addr, socket });
        }
        j = j + 1;
    }
    assert(plan@.take(j as int) =~= plan@);
    proof {
        assert forall|j: int, addr: SocketAddr, socket: Arc<S>|
            0 <= j < plan@.len() implies (#[trigger] plan@[j] == PlannedDest::<S>::Connect(addr)
            && fresh@[j] == Some(socket) ==> #[trigger] assignment@.contains(
            ConnectedDest { addr, socket },
        )) && (plan@[j] == PlannedDest::Reuse(addr, socket) ==> assignment@.contains(
            ConnectedDest { addr, socket },
        )) by {
            planned_sockets_are_assigned(plan@, fresh@, j, addr, socket);
        }
    }
    ShardHandle { assignment, socket_cache }
}

/// The sockets of all shards, by shard.
pub open spec fn caches_of<S>(shards: Seq<ShardHandle<S>>) -> Seq<Map<u64, Arc<S>>> {
    shards.map_values(|shard: ShardHandle<S>| shard.socket_cache@)
}

/// The first shard, from the `i`-th on, that has a socket under `key`; the number of shards
/// where there is none.
pub open spec fn holder<S>(caches: Seq<Map<u64, Arc<S>>>, key: u64, i: int) -> int
    decreases caches.len() - i,
{
    if i >= caches.len() || caches[i].contains_key(key) {
        i
    } else {
        holder(caches, key, i + 1)
    }
}

/// The step for a destination, and the sockets that are left over, once the destination has
/// claimed a left over socket that is connected to it.
pub open spec fn claimed_step<S>(step: PlannedDest<S>, caches: Seq<Map<u64, Arc<S>>>) -> (
    PlannedDest<S>,
    Seq<Map<u64, Arc<S>>>,
) {
    let key = step.addr().cache_key();
    let i = holder(caches, key, 0);
    if step is Connect && step.addr().reachable() && i < caches.len() {
        (
            PlannedDest::Reuse(step.addr(), caches[i][key]),
            caches.update(i, caches[i].remove(key)),
        )
    } else {
        (step, caches)
    }
}

/// The plan of a shard, and the sockets that are left over, once all of its destinations have
/// claimed left over sockets.
pub open spec fn claimed_plan<S>(
    plan: Seq<PlannedDest<S>>,
    caches: Seq<Map<u64, Arc<S>>>,
) -> (Seq<PlannedDest<S>>, Seq<Map<u64, Arc<S>>>)
    decreases plan.len(),
{
    if plan.len() == 0 {
        (Seq::empty(), caches)
    } else {
        let (steps, left) = claimed_plan(plan.drop_last(), caches);
        let (step, left) = claimed_step(plan.last(), left);
        (steps.push(step), left)
    }
}

/// The plans of the shards, and the sockets that are left over, once the destinations of all
/// shards have claimed left over sockets.
pub open spec fn claimed_plans<S>(
    plans: Seq<Seq<PlannedDest<S>>>,
    caches: Seq<Map<u64, Arc<S>>>,
) -> (Seq<Seq<PlannedDest<S>>>, Seq<Map<u64, Arc<S>>>)
    decreases plans.len(),
{
    if plans.len() == 0 {
        (Seq::empty(), caches)
    } else {
        let (done, left) = claimed_plans(plans.drop_last(), caches);
        let (plan, left) = claimed_plan(plans.last(), left);
        (done.push(plan), left)
    }
}

/// The plans of all shards before any left over socket is claimed.
pub open spec fn own_plans<S>(desired: Seq<SocketAddr>, caches: Seq<Map<u64, Arc<S>>>) -> Seq<
    Seq<PlannedDest<S>>,
> {
    Seq::new(
        caches.len(),
        |i: int| plan_of(bucket(desired, caches.len() as int, i), caches[i]),
    )
}

/// The sockets that are left over when the destinations of all shards have taken theirs.
pub open spec fn leftovers<S>(desired: Seq<SocketAddr>, caches: Seq<Map<u64, Arc<S>>>) -> Seq<
    Map<u64, Arc<S>>,
> {
    Seq::new(
        caches.len(),
        |i: int| leftover(bucket(desired, caches.len() as int, i), caches[i]),
    )
}

/// How the destinations are distributed over the shards and get their sockets: each takes the
/// one that its shard has, or else one that another shard has and no longer needs.
pub open spec fn reshard_plans<S>(desired: Seq<SocketAddr>, caches: Seq<Map<u64, Arc<S>>>) -> Seq<
    Seq<PlannedDest<S>>,
> {
    claimed_plans(own_plans(desired, caches), leftovers(desired, caches)).0
}

/// Takes a left over socket from the first shard that has one under `key`.
fn take_leftover<S>(shards: &mut Vec<ShardHandle<S>>, key: u64) -> (socket: Option<Arc<S>>)
    ensures
        ({
            let caches = caches_of(old(shards)@);
            let i = holder(caches, key, 0);
            if i < caches.len() {
                &&& socket == Some(caches[i][key])
                &&& caches_of(final(shards)@) == caches.update(i, caches[i].remove(key))
            } else {
                &&& socket is None
                &&& caches_of(final(shards)@) == caches
            }
        }),
        final(shards).len() == old(shards).len(),
        forall|k: int|
            0 <= k < old(shards).len() ==> (#[trigger] final(shards)[k]).assignment == old(
                shards,
            )[k].assignment,
{
    broadcast use vstd::std_specs::hash::group_hash_axioms;

    let ghost start = shards@;
    let ghost caches = caches_of(start);
    let mut i: usize = 0;
    while i < shards.len()
        invariant
            i <= shards.len(),
            start == old(shards)@,
            caches == caches_of(start),
            shards.len() == start.len(),
            caches_of(shards@) == caches,
            forall|k: int|
                0 <= k < start.len() ==> (#[trigger] shards[k]).assignment == start[k].assignment,
            holder(caches, key, 0) == holder(caches, key, i as int),
        decreases shards.len() - i,
    {
        let ghost before = shards@;
        assert(caches[i as int] == caches_of(before)[i as int]);
        if let Some(socket) = shards[i].socket_cache.remove(&key) {
            proof {
                assert(holder(caches, key, 0) == i);
                assert(caches_of(shards@) =~= caches.update(i as int, caches[i as int].remove(key)));
            }
            return Some(socket);
        }
        proof {
            assert(shards@[i as int].socket_cache@ =~= before[i as int].socket_cache@);
            assert(caches_of(shards@) =~= caches);
        }
        i = i + 1;
    }
    None
}

/// Lets the destinations of a shard claim left over sockets.
fn claim_leftovers<S>(plan: &mut Vec<PlannedDest<S>>, shards: &mut Vec<ShardHandle<S>>)
    ensures
        (final(plan)@, caches_of(final(shards)@)) == claimed_plan(
            old(plan)@,
            caches_of(old(shards)@),
        ),
        final(shards).len() == old(shards).len(),
        forall|k: int|
            0 <= k < old(shards).len() ==> (#[trigger] final(shards)[k]).assignment == old(
                shards,
            )[k].assignment,
{
    let ghost own = plan@;
    let ghost start = caches_of(shards@);
    let n: usize = plan.len();
    let mut j: usize = 0;
    assert(own.take(0) =~= Seq::empty());
    assert(plan@ =~= claimed_plan(own.take(0), start).0 + own.skip(0));
    while j < n
        invariant
            j <= n,
            n == own.len(),
            own == old(plan)@,
            start == caches_of(old(shards)@),
            plan.len() == n,
            plan@ == claimed_plan(own.take(j as int), start).0 + own.skip(j as int),
            claimed_plan(own.take(j as int), start).0.len() == j,
            caches_of(shards@) == claimed_plan(own.take(j as int), start).1,
            shards.len() == old(shards).len(),
            forall|k: int|
                0 <= k < shards.len() ==> (#[trigger] shards[k]).assignment == old(
                    shards,
                )[k].assignment,
        decreases n - j,
    {
        proof {
            assert(own.take(j + 1).drop_last() =~= own.take(j as int));
            assert(own.take(j + 1).last() == own[j as int]);
            assert(plan@[j as int] == own[j as int]);
        }
        let ghost before = plan@;
        if let Some(addr) = plan[j].to_connect() {
            if let SocketAddr::V4 { ip, port } = addr {
                let key: u64 = v4_cache_key(ip, port);
                if let Some(socket) = take_leftover(shards, key) {
                    plan[j] = PlannedDest::Reuse(addr, socket);
                }
            }
        }
        proof {
            let done = claimed_plan(own.take(j as int), start).0;
            let step = claimed_step(own[j as int], claimed_plan(own.take(j as int), start).1).0;
            assert(plan@ =~= before.update(j as int, step));
            assert(plan@ =~= done.push(step) + own.skip(j + 1));
        }
        j = j + 1;
    }
    assert(own.take(n as int) =~= own);
    assert(plan@ =~= claimed_plan(own, start).0);
}

/// The plans of all shards.
pub open spec fn plans_of<S>(plans: Seq<Vec<PlannedDest<S>>>) -> Seq<Seq<PlannedDest<S>>> {
    plans.map_values(|plan: Vec<PlannedDest<S>>| plan@)
}

/// Plans how the destinations are distributed over the shards and how each gets its socket. The
/// shards keep their assignments until [`reshard_assignments`] is called.
pub fn plan_reshard<S>(desired: &Vec<SocketAddr>, shards: &mut Vec<ShardHandle<S>>) -> (plans: Vec<
    Vec<PlannedDest<S>>,
>)
    requires
        old(shards).len() > 0 || desired.len() == 0,
    ensures
        plans_of(plans@) == reshard_plans(desired@, caches_of(old(shards)@)),
        plans.len() == old(shards).len(),
        final(shards).len() == old(shards).len(),
        forall|k: int|
            0 <= k < old(shards).len() ==> (#[trigger] final(shards)[k]).assignment == old(
                shards,
            )[k].assignment,
{
    let ghost start = shards@;
    let ghost caches = caches_of(start);
    let n: usize = shards.len();
    let buckets = round_robin(desired, n);
    let mut plans: Vec<Vec<PlannedDest<S>>> = Vec::new();
    let mut i: usize = 0;
    while i < n
        invariant
            i <= n,
            n == start.len(),
            start == old(shards)@,
            caches == caches_of(start),
            shards.len() == n,
            buckets.len() == n,
            forall|k: int|
                0 <= k < n ==> (#[trigger] buckets[k])@ == bucket(desired@, n as int, k),
            plans.len() == i,
            forall|k: int|
                0 <= k < i ==> (#[trigger] plans[k])@ == own_plans(desired@, caches)[k],
            forall|k: int|
                0 <= k < i ==> (#[trigger] shards[k]).socket_cache@ == leftovers(
                    desired@,
                    caches,
                )[k],
            forall|k: int| 0 <= k < n ==> (#[trigger] shards[k]).assignment == start[k].assignment,
            forall|k: int| i <= k < n ==> #[trigger] shards[k] == start[k],
        decreases n - i,
    {
        let plan = plan_shard(&buckets[i], &mut shards[i].socket_cache);
        plans.push(plan);
        i = i + 1;
    }
    let ghost own = own_plans(desired@, caches);
    let ghost left = leftovers(desired@, caches);
    let mut i: usize = 0;
    proof {
        assert(plans_of(plans@) =~= own);
        assert(caches_of(shards@) =~= left);
        assert(own.take(0) =~= Seq::empty());
        assert(plans_of(plans@) =~= claimed_plans(own.take(0), left).0 + own.skip(0));
    }
    while i < n
        invariant
            i <= n,
            n == start.len(),
            start == old(shards)@,
            n == own.len(),
            shards.len() == n,
            plans.len() == n,
            plans_of(plans@) == claimed_plans(own.take(i as int), left).0 + own.skip(i as int),
            claimed_plans(own.take(i as int), left).0.len() == i,
            caches_of(shards@) == claimed_plans(own.take(i as int), left).1,
            forall|k: int| 0 <= k < n ==> (#[trigger] shards[k]).assignment == start[k].assignment,
        decreases n - i,
    {
        let ghost before = plans@;
        proof {
            assert(own.take(i + 1).drop_last() =~= own.take(i as int));
            assert(own.take(i + 1).last() == own[i as int]);
            assert(plans_of(plans@)[i as int] == own[i as int]);
        }
        claim_leftovers(&mut plans[i], shards);
        proof {
            let done = claimed_plans(own.take(i as int), left).0;
            assert(plans@ =~= before.update(i as int, plans@[i as int]));
            assert(plans_of(plans@) =~= done.push(plans@[i as int]@) + own.skip(i + 1)) by {
                assert forall|k: int| 0 <= k < n implies plans_of(plans@)[k] == (done.push(
                    plans@[i as int]@,
                ) + own.skip(i + 1))[k] by {
                    if k != i {
                        assert(plans_of(plans@)[k] == plans_of(before)[k]);
                    }
                }
            }
        }
        i = i + 1;
    }
    assert(own.take(n as int) =~= own);
    assert(plans_of(plans@) =~= claimed_plans(own, left).0);
    plans
}

/// Gives every shard the destinations and sockets that were planned for it, given the new
/// sockets. Sockets that are no longer used are dropped.
pub fn reshard_assignments<S>(
    num_dests: usize,
    shards: &mut Vec<ShardHandle<S>>,
    plans: &Vec<Vec<PlannedDest<S>>>,
    fresh: &Vec<Vec<Option<Arc<S>>>>,
    metrics: &mut ShredMetrics,
)
    requires
        plans.len() == old(shards).len(),
        fresh.len() == plans.len(),
        forall|i: int|
            0 <= i < plans.len() ==> (#[trigger] fresh[i]).len() == plans[i].len(),
    ensures
        final(shards).len() == old(shards).len(),
        forall|i: int|
            0 <= i < plans.len() ==> (#[trigger] final(shards)[i]).assignment@ == assigned(
                plans[i]@,
                fresh[i]@,
            ) && final(shards)[i].socket_cache@ == cached(plans[i]@, fresh[i]@),
        *final(metrics) == (ShredMetrics { worker_count: num_dests, ..*old(metrics) }),
{
    let n: usize = shards.len();
    let mut i: usize = 0;
    while i < n
        invariant
            i <= n,
            shards.len() == n,
            plans.len() == n,
            fresh.len() == n,
            forall|k: int| 0 <= k < n ==> (#[trigger] fresh[k]).len() == plans[k].len(),
            forall|k: int|
                0 <= k < i ==> (#[trigger] shards[k]).assignment@ == assigned(
                    plans[k]@,
                    fresh[k]@,
                ) && shards[k].socket_cache@ == cached(plans[k]@, fresh[k]@),
        decreases n - i,
    {
        shards[i] = commit_shard(&plans[i], &fresh[i]);
        i = i + 1;
    }
    metrics.worker_count = num_dests;
}

} // verus!
