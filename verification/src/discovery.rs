//! The set of destinations: those that the discovery service lists and those that are configured.
use itertools::Itertools;
use vstd::prelude::*;

use crate::addr::addr_key_round_trip;
use crate::addr::AddrKey;
use crate::addr::IpAddr;
use crate::addr::SocketAddr;
use crate::error::ShredstreamProxyError;

verus! {

/// The addresses that `serde_json::from_slice` reads from the answer of the discovery service, a
/// JSON array of strings; `None` where it is not such an array.
pub uninterp spec fn listed_ips(body: Seq<u8>) -> Option<Seq<IpAddr>>;

/// Calls `serde_json::from_slice` for a list of IP addresses. The result is named [`listed_ips`];
/// what error comes back is left open.
#[verifier::external_body]
fn ips_from_json(body: &[u8]) -> (ips: Result<Vec<IpAddr>, serde_json::Error>)
    ensures
        match ips {
            Ok(ips) => listed_ips(body@) == Some(ips@),
            Err(_) => listed_ips(body@) is None,
        },
{
    let ips = serde_json::from_slice::<Vec<core::net::IpAddr>>(body)?;
    let plain = ips.into_iter().map(
        |ip| match ip {
            core::net::IpAddr::V4(ip) => IpAddr::V4(u32::from(ip)),
            core::net::IpAddr::V6(ip) => IpAddr::V6(u128::from(ip)),
        },
    );
    Ok(plain.collect())
}

/// Calls `Itertools::unique`: each endpoint is kept where it occurs for the first time, in order.
#[verifier::external_body]
fn unique_keys(keys: Vec<AddrKey>) -> (unique: Vec<AddrKey>)
    ensures
        unique@ == first_occurrences(keys@),
{
    keys.into_iter().unique().collect()
}

/// The items of a list where they occur for the first time, in order.
pub open spec fn first_occurrences<A>(items: Seq<A>) -> Seq<A>
    decreases items.len(),
{
    if items.len() == 0 {
        Seq::empty()
    } else {
        let rest = items.drop_last();
        if rest.contains(items.last()) {
            first_occurrences(rest)
        } else {
            first_occurrences(rest).push(items.last())
        }
    }
}

/// The endpoints that could be resolved, in order.
pub open spec fn resolved(statics: Seq<Option<SocketAddr>>) -> Seq<SocketAddr>
    decreases statics.len(),
{
    if statics.len() == 0 {
        Seq::empty()
    } else {
        match statics.last() {
            Some(addr) => resolved(statics.drop_last()).push(addr),
            None => resolved(statics.drop_last()),
        }
    }
}

/// All candidates for a destination: the discovered addresses, at the port that is configured for
/// them, and then the configured endpoints that could be resolved.
pub open spec fn candidates(
    ips: Seq<IpAddr>,
    port: u16,
    statics: Seq<Option<SocketAddr>>,
) -> Seq<SocketAddr> {
    ips.map_values(|ip: IpAddr| SocketAddr::spec_new(ip, port)) + resolved(statics)
}

/// Reads the addresses that the discovery service lists.
pub fn parse_discovery(body: &[u8]) -> (result: Result<Vec<IpAddr>, ShredstreamProxyError>)
    ensures
        match listed_ips(body@) {
            Some(ips) => result matches Ok(parsed) && parsed@ == ips,
            None => result matches Err(ShredstreamProxyError::SerdeJsonError(_)),
        },
{
    match ips_from_json(body) {
        Ok(ips) => Ok(ips),
        Err(e) => Err(ShredstreamProxyError::SerdeJsonError(e)),
    }
}

/// Puts the discovered and the configured destinations together. An endpoint that is listed more
/// than once is one destination.
pub fn union_destinations(
    ips: &Vec<IpAddr>,
    port: u16,
    statics: &Vec<Option<SocketAddr>>,
) -> (dests: Vec<SocketAddr>)
    ensures
        dests@ == first_occurrences(candidates(ips@, port, statics@)),
        forall|v4: u32| #[trigger]
            ips@.contains(IpAddr::V4(v4)) ==> dests@.contains(SocketAddr::V4 { ip: v4, port }),
        forall|v6: u128| #[trigger]
            ips@.contains(IpAddr::V6(v6)) ==> dests@.contains(
                SocketAddr::V6 { ip: v6, port, flowinfo: 0, scope_id: 0 },
            ),
        forall|addr: SocketAddr| #[trigger] statics@.contains(Some(addr)) ==> dests@.contains(addr),
        forall|ip: u32, p: u16| #[trigger]
            dests@.contains(SocketAddr::V4 { ip, port: p }) ==> (ips@.contains(IpAddr::V4(ip)) && p
                == port) || statics@.contains(Some(SocketAddr::V4 { ip, port: p })),
        forall|ip: u128, p: u16, flowinfo: u32, scope_id: u32| #[trigger]
            dests@.contains(SocketAddr::V6 { ip, port: p, flowinfo, scope_id }) ==> (ips@.contains(
                IpAddr::V6(ip),
            ) && p == port && flowinfo == 0 && scope_id == 0) || statics@.contains(
                Some(SocketAddr::V6 { ip, port: p, flowinfo, scope_id }),
            ),
        dests@.no_duplicates(),
{
    let ghost all = candidates(ips@, port, statics@);
    let mut keys: Vec<AddrKey> = Vec::new();
    let mut i: usize = 0;
    let ghost discovered = ips@.map_values(|ip: IpAddr| SocketAddr::spec_new(ip, port));
    while i < ips.len()
        invariant
            i <= ips.len(),
            discovered == ips@.map_values(|ip: IpAddr| SocketAddr::spec_new(ip, port)),
            keys@ == keys_of(discovered.take(i as int)),
        decreases ips.len() - i,
    {
        keys.push(SocketAddr::new(ips[i], port).key());
        i = i + 1;
        assert(keys@ =~= keys_of(discovered.take(i as int)));
    }
    assert(discovered.take(i as int) =~= discovered);
    let mut i: usize = 0;
    assert(keys@ =~= keys_of(discovered + resolved(statics@.take(0))));
    while i < statics.len()
        invariant
            i <= statics.len(),
            keys@ == keys_of(discovered + resolved(statics@.take(i as int))),
        decreases statics.len() - i,
    {
        let ghost before = keys@;
        if let Some(addr) = &statics[i] {
            keys.push(addr.key());
        }
        proof {
            let seen = statics@.take(i + 1);
            assert(seen.drop_last() =~= statics@.take(i as int));
            assert(seen.last() == statics@[i as int]);
            assert(keys@ =~= keys_of(discovered + resolved(seen)));
        }
        i = i + 1;
    }
    assert(statics@.take(i as int) =~= statics@);
    assert(keys@ == keys_of(all));
    let unique = unique_keys(keys);
    let mut dests: Vec<SocketAddr> = Vec::new();
    let mut i: usize = 0;
    proof {
        lemma_unique_keys(all);
    }
    while i < unique.len()
        invariant
            i <= unique.len(),
            unique@ == keys_of(first_occurrences(all)),
            dests@ == first_occurrences(all).take(i as int),
        decreases unique.len() - i,
    {
        dests.push(SocketAddr::from_key(unique[i]));
        proof {
            addr_key_round_trip(first_occurrences(all)[i as int]);
            assert(dests@ =~= first_occurrences(all).take(i + 1));
        }
        i = i + 1;
    }
    assert(dests@ =~= first_occurrences(all));
    proof {
        destinations_are_discovered_or_configured(ips@, port, statics@);
        first_occurrences_keep_each_once(all);
    }
    dests
}

/// Reads the answer of the discovery service and puts what it lists together with the configured
/// destinations. Where it cannot be read there is no set of destinations, but the error.
pub fn unioned_destinations(
    body: &[u8],
    port: u16,
    statics: &Vec<Option<SocketAddr>>,
) -> (result: Result<Vec<SocketAddr>, ShredstreamProxyError>)
    ensures
        match listed_ips(body@) {
            Some(ips) => result matches Ok(dests) && dests@ == first_occurrences(
                candidates(ips, port, statics@),
            ),
            None => result matches Err(ShredstreamProxyError::SerdeJsonError(_)),
        },
        // what is configured or listed is a destination, and each once
        listed_ips(body@) is Some <==> result is Ok,
        result matches Ok(dests) ==> {
            &&& dests@.no_duplicates()
            &&& forall|addr: SocketAddr| #[trigger]
                statics@.contains(Some(addr)) ==> dests@.contains(addr)
            &&& forall|v4: u32| #[trigger]
                listed_ips(body@).unwrap().contains(IpAddr::V4(v4)) ==> dests@.contains(
                    SocketAddr::V4 { ip: v4, port },
                )
        },
{
    match parse_discovery(body) {
        Ok(ips) => Ok(union_destinations(&ips, port, statics)),
        Err(e) => Err(e),
    }
}

/// The endpoints as tuples of integers.
spec fn keys_of(addrs: Seq<SocketAddr>) -> Seq<AddrKey> {
    addrs.map_values(|addr: SocketAddr| addr.spec_key())
}

/// Endpoints repeat exactly where their tuples do.
proof fn lemma_unique_keys(addrs: Seq<SocketAddr>)
    ensures
        first_occurrences(keys_of(addrs)) == keys_of(first_occurrences(addrs)),
    decreases addrs.len(),
{
    if addrs.len() > 0 {
        let rest = addrs.drop_last();
        let last = addrs.last();
        lemma_unique_keys(rest);
        assert(keys_of(addrs).drop_last() =~= keys_of(rest));
        assert(keys_of(addrs).last() == last.spec_key());
        assert(keys_of(rest).contains(last.spec_key()) <==> rest.contains(last)) by {
            if keys_of(rest).contains(last.spec_key()) {
                let k = choose|k: int|
                    0 <= k < keys_of(rest).len() && keys_of(rest)[k] == last.spec_key();
                addr_key_round_trip(rest[k]);
                addr_key_round_trip(last);
                assert(rest[k] == last);
            }
            if rest.contains(last) {
                let k = choose|k: int| 0 <= k < rest.len() && rest[k] == last;
                assert(keys_of(rest)[k] == last.spec_key());
            }
        }
        assert(first_occurrences(keys_of(addrs)) =~= keys_of(first_occurrences(addrs)));
    } else {
        assert(first_occurrences(keys_of(addrs)) =~= keys_of(first_occurrences(addrs)));
    }
}

/// Whether an item occurs at this index for the first time.
pub open spec fn first_at<A>(items: Seq<A>, item: A, i: int) -> bool {
    &&& 0 <= i < items.len()
    &&& items[i] == item
    &&& forall|k: int| 0 <= k < i ==> #[trigger] items[k] != item
}

/// Keeping first occurrences drops repetitions and nothing else: what is listed is kept, once.
pub proof fn first_occurrences_keep_each_once<A>(items: Seq<A>)
    ensures
        first_occurrences(items).no_duplicates(),
        forall|item: A| #[trigger]
            first_occurrences(items).contains(item) <==> items.contains(item),
    decreases items.len(),
{
    if items.len() > 0 {
        let rest = items.drop_last();
        let last = items.last();
        first_occurrences_keep_each_once(rest);
        let kept = first_occurrences(rest);
        let unique = first_occurrences(items);
        assert(kept.contains(last) <==> rest.contains(last));
        assert forall|item: A| #[trigger]
            unique.contains(item) <==> items.contains(item) by {
            assert(kept.contains(item) <==> rest.contains(item));
            if unique.contains(item) {
                let k = choose|k: int| 0 <= k < unique.len() && unique[k] == item;
                if k < kept.len() {
                    assert(kept[k] == item);
                    let i = choose|i: int| 0 <= i < rest.len() && rest[i] == item;
                    assert(items[i] == item);
                } else {
                    assert(items[items.len() - 1] == item);
                }
            }
            if items.contains(item) {
                let i = choose|i: int| 0 <= i < items.len() && items[i] == item;
                if i < rest.len() {
                    assert(rest[i] == item);
                } else {
                    assert(item == last);
                    if !rest.contains(last) {
                        assert(unique[unique.len() - 1] == item);
                    }
                }
                if kept.contains(item) {
                    let k = choose|k: int| 0 <= k < kept.len() && kept[k] == item;
                    assert(unique[k] == item);
                }
            }
        }
    }
}

/// Keeping first occurrences keeps the order in which items are first listed.
pub proof fn first_occurrences_keep_order<A>(items: Seq<A>, a: int, b: int)
    requires
        0 <= a < b < first_occurrences(items).len(),
    ensures
        exists|i: int, j: int|
            i < j && #[trigger] first_at(items, first_occurrences(items)[a], i)
                && #[trigger] first_at(items, first_occurrences(items)[b], j),
    decreases items.len(),
{
    let rest = items.drop_last();
    let kept = first_occurrences(rest);
    let first = first_occurrences(items)[a];
    let second = first_occurrences(items)[b];
    if b < kept.len() {
        first_occurrences_keep_order(rest, a, b);
        let (i, j) = choose|i: int, j: int|
            i < j && #[trigger] first_at(rest, kept[a], i) && #[trigger] first_at(rest, kept[b], j);
        lemma_first_in_prefix(items, first, i);
        lemma_first_in_prefix(items, second, j);
    } else {
        first_occurrences_keep_each_once(rest);
        assert(kept.contains(first)) by {
            assert(kept[a] == first);
        }
        assert(rest.contains(first));
        let i = lemma_has_first(rest, first);
        lemma_first_in_prefix(items, first, i);
        assert(first_at(items, second, items.len() - 1)) by {
            assert forall|k: int| 0 <= k < items.len() - 1 implies #[trigger] items[k] != second by {
                assert(rest[k] == items[k]);
            }
        }
    }
}

/// What occurs for the first time in a list does so where one more item is listed at its end.
proof fn lemma_first_in_prefix<A>(items: Seq<A>, item: A, i: int)
    requires
        items.len() > 0,
        first_at(items.drop_last(), item, i),
    ensures
        first_at(items, item, i),
{
    let rest = items.drop_last();
    assert(rest[i] == items[i]);
    assert forall|k: int| 0 <= k < i implies #[trigger] items[k] != item by {
        assert(rest[k] == items[k]);
    }
}

/// What is listed is listed for the first time somewhere.
proof fn lemma_has_first<A>(items: Seq<A>, item: A) -> (i: int)
    requires
        items.contains(item),
    ensures
        first_at(items, item, i),
    decreases items.len(),
{
    let rest = items.drop_last();
    if rest.contains(item) {
        let i = lemma_has_first(rest, item);
        lemma_first_in_prefix(items, item, i);
        i
    } else {
        let i = items.len() - 1;
        assert(items[i] == item) by {
            let k = choose|k: int| 0 <= k < items.len() && items[k] == item;
            if k < i {
                assert(rest[k] == item);
            }
        }
        assert forall|k: int| 0 <= k < i implies #[trigger] items[k] != item by {
            assert(rest[k] == items[k]);
        }
        i
    }
}

/// An endpoint is a destination exactly if the discovery service lists its address and it is at
/// the configured port, or if it is what a configured endpoint resolves to; and no endpoint is
/// more than one destination.
pub proof fn union_is_exact(
    ips: Seq<IpAddr>,
    port: u16,
    statics: Seq<Option<SocketAddr>>,
    addr: SocketAddr,
)
    ensures
        first_occurrences(candidates(ips, port, statics)).no_duplicates(),
        first_occurrences(candidates(ips, port, statics)).contains(addr) <==> (exists|i: int|
            0 <= i < ips.len() && SocketAddr::spec_new(#[trigger] ips[i], port) == addr)
            || statics.contains(Some(addr)),
{
    let all = candidates(ips, port, statics);
    let discovered = ips.map_values(|ip: IpAddr| SocketAddr::spec_new(ip, port));
    first_occurrences_keep_each_once(all);
    lemma_resolved(statics, addr);
    assert(first_occurrences(all).contains(addr) <==> all.contains(addr));
    if all.contains(addr) {
        let k = choose|k: int| 0 <= k < all.len() && all[k] == addr;
        if k < discovered.len() {
            assert(SocketAddr::spec_new(ips[k], port) == addr);
        } else {
            assert(resolved(statics)[k - discovered.len()] == addr);
        }
    }
    if exists|i: int|
        0 <= i < ips.len() && SocketAddr::spec_new(#[trigger] ips[i], port) == addr {
        let i = choose|i: int|
            0 <= i < ips.len() && SocketAddr::spec_new(#[trigger] ips[i], port) == addr;
        assert(all[i] == addr);
    }
    if statics.contains(Some(addr)) {
        let k = choose|k: int| 0 <= k < resolved(statics).len() && resolved(statics)[k] == addr;
        assert(all[discovered.len() + k] == addr);
    }
}

/// An endpoint is among the resolved ones exactly if one resolved to it.
proof fn lemma_resolved(statics: Seq<Option<SocketAddr>>, addr: SocketAddr)
    ensures
        resolved(statics).contains(addr) <==> statics.contains(Some(addr)),
    decreases statics.len(),
{
    if statics.len() > 0 {
        let rest = statics.drop_last();
        lemma_resolved(rest, addr);
        if resolved(statics).contains(addr) {
            let k = choose|k: int| 0 <= k < resolved(statics).len() && resolved(statics)[k] == addr;
            if k < resolved(rest).len() {
                assert(resolved(rest)[k] == addr);
                let i = choose|i: int| 0 <= i < rest.len() && rest[i] == Some(addr);
                assert(statics[i] == Some(addr));
            } else {
                assert(statics[statics.len() - 1] == Some(addr));
            }
        }
        if statics.contains(Some(addr)) {
            let i = choose|i: int| 0 <= i < statics.len() && statics[i] == Some(addr);
            if i < rest.len() {
                assert(rest[i] == Some(addr));
                let k = choose|k: int| 0 <= k < resolved(rest).len() && resolved(rest)[k] == addr;
                assert(resolved(statics)[k] == addr);
            } else {
                assert(resolved(statics)[resolved(rest).len() as int] == addr);
            }
        }
    }
}

/// Whether an endpoint is what a discovered address gives: all bits of the address, at the port that
/// is configured.
pub open spec fn at_port(addr: SocketAddr, ip: IpAddr, port: u16) -> bool {
    match addr {
        SocketAddr::V4 { ip: bits, port: p } => ip == IpAddr::V4(bits) && p == port,
        SocketAddr::V6 { ip: bits, port: p, flowinfo, scope_id } => ip == IpAddr::V6(bits) && p
            == port && flowinfo == 0 && scope_id == 0,
    }
}

/// Every discovered address is a destination at the configured port, with all of its bits, and every
/// configured endpoint that could be resolved is one as it is; every destination is one of these,
/// and none is listed twice.
pub proof fn destinations_are_discovered_or_configured(
    ips: Seq<IpAddr>,
    port: u16,
    statics: Seq<Option<SocketAddr>>,
)
    ensures
        ({
            let dests = first_occurrences(candidates(ips, port, statics));
            &&& forall|v4: u32| #[trigger]
                ips.contains(IpAddr::V4(v4)) ==> dests.contains(SocketAddr::V4 { ip: v4, port })
            &&& forall|v6: u128| #[trigger]
                ips.contains(IpAddr::V6(v6)) ==> dests.contains(
                    SocketAddr::V6 { ip: v6, port, flowinfo: 0, scope_id: 0 },
                )
            &&& forall|addr: SocketAddr| #[trigger]
                statics.contains(Some(addr)) ==> dests.contains(addr)
            &&& forall|ip: u32, p: u16| #[trigger]
                dests.contains(SocketAddr::V4 { ip, port: p }) ==> (ips.contains(IpAddr::V4(ip)) && p
                    == port) || statics.contains(Some(SocketAddr::V4 { ip, port: p }))
            &&& forall|ip: u128, p: u16, flowinfo: u32, scope_id: u32| #[trigger]
                dests.contains(SocketAddr::V6 { ip, port: p, flowinfo, scope_id }) ==> (
                ips.contains(IpAddr::V6(ip)) && p == port && flowinfo == 0 && scope_id == 0)
                    || statics.contains(Some(SocketAddr::V6 { ip, port: p, flowinfo, scope_id }))
            &&& forall|i: int, j: int| #![trigger dests[i], dests[j]]
                0 <= i < j < dests.len() ==> dests[i] != dests[j]
        }),
{
    let dests = first_occurrences(candidates(ips, port, statics));
    assert forall|v4: u32| #[trigger] ips.contains(IpAddr::V4(v4)) implies dests.contains(
        SocketAddr::V4 { ip: v4, port },
    ) by {
        let addr = SocketAddr::V4 { ip: v4, port };
        union_is_exact(ips, port, statics, addr);
        let i = choose|i: int| 0 <= i < ips.len() && ips[i] == IpAddr::V4(v4);
        assert(SocketAddr::spec_new(ips[i], port) == addr);
    }
    assert forall|v6: u128| #[trigger] ips.contains(IpAddr::V6(v6)) implies dests.contains(
        SocketAddr::V6 { ip: v6, port, flowinfo: 0, scope_id: 0 },
    ) by {
        let addr = SocketAddr::V6 { ip: v6, port, flowinfo: 0, scope_id: 0 };
        union_is_exact(ips, port, statics, addr);
        let i = choose|i: int| 0 <= i < ips.len() && ips[i] == IpAddr::V6(v6);
        assert(SocketAddr::spec_new(ips[i], port) == addr);
    }
    assert forall|addr: SocketAddr| #[trigger] statics.contains(Some(addr)) implies dests.contains(
        addr,
    ) by {
        union_is_exact(ips, port, statics, addr);
    }
    assert forall|ip: u32, p: u16| #[trigger]
        dests.contains(SocketAddr::V4 { ip, port: p }) implies (ips.contains(IpAddr::V4(ip)) && p
        == port) || statics.contains(Some(SocketAddr::V4 { ip, port: p })) by {
        lemma_destination_from(ips, port, statics, SocketAddr::V4 { ip, port: p });
    }
    assert forall|ip: u128, p: u16, flowinfo: u32, scope_id: u32| #[trigger]
        dests.contains(SocketAddr::V6 { ip, port: p, flowinfo, scope_id }) implies (ips.contains(
        IpAddr::V6(ip),
    ) && p == port && flowinfo == 0 && scope_id == 0) || statics.contains(
        Some(SocketAddr::V6 { ip, port: p, flowinfo, scope_id }),
    ) by {
        lemma_destination_from(
            ips,
            port,
            statics,
            SocketAddr::V6 { ip, port: p, flowinfo, scope_id },
        );
    }
    first_occurrences_keep_each_once(candidates(ips, port, statics));
}

/// Where a destination comes from.
proof fn lemma_destination_from(
    ips: Seq<IpAddr>,
    port: u16,
    statics: Seq<Option<SocketAddr>>,
    addr: SocketAddr,
)
    requires
        first_occurrences(candidates(ips, port, statics)).contains(addr),
    ensures
        statics.contains(Some(addr)) || exists|ip: IpAddr| #[trigger]
            ips.contains(ip) && at_port(addr, ip, port),
{
    union_is_exact(ips, port, statics, addr);
    if !statics.contains(Some(addr)) {
        let i = choose|i: int|
            0 <= i < ips.len() && SocketAddr::spec_new(#[trigger] ips[i], port) == addr;
        assert(ips.contains(ips[i]));
        assert(at_port(addr, ips[i], port));
    }
}

/// Candidates come in order: the discovered addresses as they are listed, and then the configured
/// endpoints that could be resolved, as they are configured.
pub proof fn discovered_come_first(ips: Seq<IpAddr>, port: u16, statics: Seq<Option<SocketAddr>>)
    ensures
        ({
            let all = candidates(ips, port, statics);
            let configured = statics.filter(|addr: Option<SocketAddr>| addr is Some);
            &&& all.len() == ips.len() + configured.len()
            &&& forall|i: int| #![trigger all[i]]
                0 <= i < ips.len() ==> at_port(all[i], ips[i], port)
            &&& forall|i: int| #![trigger configured[i]]
                0 <= i < configured.len() ==> configured[i] == Some(all[ips.len() + i])
        }),
{
    lemma_resolved_in_order(statics);
    let all = candidates(ips, port, statics);
    let configured = statics.filter(|addr: Option<SocketAddr>| addr is Some);
    assert forall|i: int| #![trigger configured[i]] 0 <= i < configured.len() implies configured[i]
        == Some(all[ips.len() + i]) by {
        assert(all[ips.len() + i] == resolved(statics)[i]);
    }
}

/// The endpoints that could be resolved stay in order.
proof fn lemma_resolved_in_order(statics: Seq<Option<SocketAddr>>)
    ensures
        ({
            let configured = statics.filter(|addr: Option<SocketAddr>| addr is Some);
            &&& resolved(statics).len() == configured.len()
            &&& forall|i: int| #![trigger configured[i]]
                0 <= i < configured.len() ==> configured[i] == Some(resolved(statics)[i])
        }),
    decreases statics.len(),
{
    reveal(Seq::filter);
    if statics.len() > 0 {
        lemma_resolved_in_order(statics.drop_last());
        let configured = statics.filter(|addr: Option<SocketAddr>| addr is Some);
        let rest = statics.drop_last().filter(|addr: Option<SocketAddr>| addr is Some);
        assert forall|i: int| #![trigger configured[i]]
            0 <= i < configured.len() implies configured[i] == Some(resolved(statics)[i]) by {
            if i < rest.len() {
                assert(rest[i] == configured[i]);
            }
        }
    }
}

/// One candidate more is one destination more, at the end, unless it is one already.
pub proof fn new_candidates_come_last<A>(items: Seq<A>, item: A)
    ensures
        items.contains(item) ==> first_occurrences(items.push(item)) == first_occurrences(items),
        !items.contains(item) ==> first_occurrences(items.push(item)) == first_occurrences(
            items,
        ).push(item),
{
    assert(items.push(item).drop_last() =~= items);
    assert(items.push(item).last() == item);
}

} // verus!
