//! Per-source packet counters.
use dashmap::DashMap;
use solana_perf::packet::PacketBatch;
use vstd::prelude::*;

use crate::addr::IpAddr;
use crate::addr::SourceKey;
use crate::packet::batch_len;
use crate::packet::packet_origin;
use crate::packet::packets;
use crate::packet::PacketView;

verus! {

/// `dashmap::DashMap`, whose contents [`sources`] names.
#[verifier::external_type_specification]
#[verifier::external_body]
#[verifier::reject_recursive_types(K)]
#[verifier::reject_recursive_types(V)]
#[verifier::reject_recursive_types(S)]
pub struct ExDashMap<K, V, S>(dashmap::DashMap<K, V, S>);

/// How many packets of one source were discarded, and how many were not.
pub type SourceCounts = (u64, u64);

/// The counters of one source, with its key.
pub type SourceRow = (SourceKey, SourceCounts);

/// The counters of all sources.
pub type SourceTable = DashMap<SourceKey, SourceCounts>;

/// The counters that a table holds, by source.
pub uninterp spec fn sources(table: SourceTable) -> Map<SourceKey, SourceCounts>;

/// The sum of two counters of a source. Counters wrap around.
pub open spec fn added(counts: SourceCounts, more: SourceCounts) -> SourceCounts {
    (counts.0.wrapping_add(more.0), counts.1.wrapping_add(more.1))
}

/// What one packet adds to the counters of its source.
pub open spec fn one_packet(discard: bool) -> SourceCounts {
    if discard {
        (1, 0)
    } else {
        (0, 1)
    }
}

/// The counters of a source; one that is not in the table is at zero.
pub open spec fn counts_of(table: Map<SourceKey, SourceCounts>, key: SourceKey) -> SourceCounts {
    if table.contains_key(key) {
        table[key]
    } else {
        (0, 0)
    }
}

/// The table after something is added to the counters of the source with this key. A source that
/// was not in the table starts at zero.
pub open spec fn added_to(
    table: Map<SourceKey, SourceCounts>,
    key: SourceKey,
    more: SourceCounts,
) -> Map<SourceKey, SourceCounts> {
    table.insert(key, added(counts_of(table, key), more))
}

/// The counters after these packets.
pub open spec fn counted_packets(
    table: Map<SourceKey, SourceCounts>,
    packets: Seq<PacketView>,
) -> Map<SourceKey, SourceCounts>
    decreases packets.len(),
{
    if packets.len() == 0 {
        table
    } else {
        let last = packets.last();
        added_to(
            counted_packets(table, packets.drop_last()),
            last.source.spec_key(),
            one_packet(last.discard),
        )
    }
}

/// Whether `rows` lists every source of the table once, with its counters, in some order.
pub open spec fn is_listing(rows: Seq<SourceRow>, table: Map<SourceKey, SourceCounts>) -> bool {
    &&& forall|i: int|
        0 <= i < rows.len() ==> table.contains_key((#[trigger] rows[i]).0) && table[rows[i].0]
            == rows[i].1
    &&& forall|i: int, j: int| #![trigger rows[i], rows[j]]
        0 <= i < j < rows.len() ==> rows[i].0 != rows[j].0
    &&& forall|key: SourceKey| #[trigger]
        table.contains_key(key) ==> exists|i: int|
            0 <= i < rows.len() && (#[trigger] rows[i]).0 == key
}

/// Adds to the counters of a source.
fn add_counts(counts: &mut SourceCounts, more: SourceCounts)
    ensures
        *final(counts) == added(*old(counts), more),
{
    counts.0 = counts.0.wrapping_add(more.0);
    counts.1 = counts.1.wrapping_add(more.1);
}

/// The counters of a source that was not in the table.
fn first_counts(more: SourceCounts) -> (counts: SourceCounts)
    ensures
        counts == added((0, 0), more),
{
    let mut counts: SourceCounts = (0, 0);
    add_counts(&mut counts, more);
    counts
}

/// Puts one entry of the table into the list of rows and says not to keep it in the table.
fn move_row(rows: &mut Vec<SourceRow>, key: &SourceKey, counts: &SourceCounts) -> (keep: bool)
    ensures
        final(rows)@ == old(rows)@.push((*key, *counts)),
        !keep,
{
    rows.push((*key, *counts));
    false
}

/// Calls `DashMap::with_capacity`: an empty table.
#[verifier::external_body]
fn table_with_capacity(capacity: usize) -> (table: SourceTable)
    requires
        capacity <= 1024,
    ensures
        sources(table) == (Map::<SourceKey, SourceCounts>::empty()),
{
    DashMap::with_capacity(capacity)
}

/// Calls `DashMap::entry`, then `Entry::and_modify` and `Entry::or_insert_with`: the value under
/// the key is changed where there is one, and inserted where there is none; the other entries
/// stay as they are.
#[verifier::external_body]
fn table_upsert(table: &mut SourceTable, key: SourceKey, more: SourceCounts)
    ensures
        sources(*final(table)) == added_to(sources(*old(table)), key, more),
{
    table.entry(key).and_modify(|counts| add_counts(counts, more)).or_insert_with(
        || first_counts(more),
    );
}

/// Calls `DashMap::retain` with a function that keeps nothing: every entry is visited once, in
/// an order that is left open, and removed.
#[verifier::external_body]
fn table_drain(table: &mut SourceTable) -> (rows: Vec<SourceRow>)
    ensures
        is_listing(rows@, sources(*old(table))),
        sources(*final(table)) == (Map::<SourceKey, SourceCounts>::empty()),
{
    let mut rows: Vec<SourceRow> = Vec::new();
    table.retain(|key, counts| move_row(&mut rows, key, counts));
    rows
}

/// Makes a table without sources.
pub fn new_table() -> (table: SourceTable)
    ensures
        sources(table) == (Map::<SourceKey, SourceCounts>::empty()),
{
    table_with_capacity(10)
}

/// Counts every packet of a batch for its source.
pub fn count_batch(table: &mut SourceTable, batch: &PacketBatch)
    ensures
        sources(*final(table)) == counted_packets(sources(*old(table)), packets(*batch)),
{
    let ghost all = packets(*batch);
    let ghost start = sources(*table);
    let n: usize = batch_len(batch);
    let mut i: usize = 0;
    assert(counted_packets(start, all.take(0)) == start);
    while i < n
        invariant
            i <= n,
            all == packets(*batch),
            n == all.len(),
            start == sources(*old(table)),
            sources(*table) == counted_packets(start, all.take(i as int)),
        decreases n - i,
    {
        let (source, discard) = packet_origin(batch, i);
        let one: SourceCounts = if discard {
            (1, 0)
        } else {
            (0, 1)
        };
        table_upsert(table, source.key(), one);
        proof {
            let seen = all.take(i + 1);
            assert(seen.drop_last() =~= all.take(i as int));
            assert(seen.last() == all[i as int]);
        }
        i = i + 1;
    }
    assert(all.take(n as int) =~= all);
}

/// Takes all counters out of the table.
pub fn drain(table: &mut SourceTable) -> (rows: Vec<SourceRow>)
    ensures
        is_listing(rows@, sources(*old(table))),
        sources(*final(table)) == (Map::<SourceKey, SourceCounts>::empty()),
{
    table_drain(table)
}

/// How many of these packets came from the source with this key and were, or were not,
/// discarded.
pub open spec fn packets_from(packets: Seq<PacketView>, key: SourceKey, discard: bool) -> nat
    decreases packets.len(),
{
    if packets.len() == 0 {
        0
    } else {
        let last = packets.last();
        packets_from(packets.drop_last(), key, discard) + if last.source.spec_key() == key
            && last.discard == discard {
            1nat
        } else {
            0nat
        }
    }
}

/// From any table on, a source is listed afterwards exactly if it was before or a packet came from
/// it, and its counters grow by the numbers of its discarded and of its other packets.
pub proof fn counters_are_exact(
    table: Map<SourceKey, SourceCounts>,
    packets: Seq<PacketView>,
    key: SourceKey,
)
    requires
        packets.len() <= u64::MAX,
    ensures
        ({
            let after = counted_packets(table, packets);
            let discarded = packets_from(packets, key, true);
            let others = packets_from(packets, key, false);
            &&& after.contains_key(key) <==> table.contains_key(key) || discarded + others > 0
            &&& counts_of(after, key) == added(
                counts_of(table, key),
                (discarded as u64, others as u64),
            )
            &&& discarded + others <= packets.len()
        }),
    decreases packets.len(),
{
    if packets.len() > 0 {
        counters_are_exact(table, packets.drop_last(), key);
    }
}

/// The number of packets that are counted for these sources, all together.
pub open spec fn total_of(table: Map<SourceKey, SourceCounts>, keys: Seq<SourceKey>) -> nat
    decreases keys.len(),
{
    if keys.len() == 0 {
        0
    } else {
        let counts = counts_of(table, keys.last());
        total_of(table, keys.drop_last()) + counts.0 as nat + counts.1 as nat
    }
}

/// Adding a packet to one source leaves the total of others, and raises by one the total of those
/// that it is among.
proof fn lemma_total_step(
    table: Map<SourceKey, SourceCounts>,
    keys: Seq<SourceKey>,
    key: SourceKey,
    discard: bool,
)
    requires
        keys.no_duplicates(),
        counts_of(table, key).0 < u64::MAX,
        counts_of(table, key).1 < u64::MAX,
    ensures
        total_of(added_to(table, key, one_packet(discard)), keys) == total_of(table, keys) + (
        if keys.contains(key) {
            1nat
        } else {
            0nat
        }),
    decreases keys.len(),
{
    if keys.len() > 0 {
        let rest = keys.drop_last();
        assert(rest.no_duplicates());
        lemma_total_step(table, rest, key, discard);
        assert(keys.contains(key) <==> rest.contains(key) || keys.last() == key) by {
            if keys.contains(key) {
                let i = choose|i: int| 0 <= i < keys.len() && keys[i] == key;
                if i < rest.len() {
                    assert(rest[i] == key);
                }
            }
            if rest.contains(key) {
                let i = choose|i: int| 0 <= i < rest.len() && rest[i] == key;
                assert(keys[i] == key);
            }
            if keys.last() == key {
                assert(keys[keys.len() - 1] == key);
            }
        }
        if rest.contains(key) {
            let i = choose|i: int| 0 <= i < rest.len() && rest[i] == key;
            assert(keys[i] == key);
        }
    }
}

/// Every packet is counted for exactly one source: from any table on, the total over all sources
/// grows by the number of packets, as long as no counter overflows.
pub proof fn sources_account_for_all_packets(
    table: Map<SourceKey, SourceCounts>,
    packets: Seq<PacketView>,
    keys: Seq<SourceKey>,
)
    requires
        keys.no_duplicates(),
        forall|i: int|
            0 <= i < packets.len() ==> keys.contains((#[trigger] packets[i]).source.spec_key()),
        forall|key: SourceKey| #[trigger]
            counts_of(table, key).0 + packets.len() <= u64::MAX && counts_of(table, key).1
                + packets.len() <= u64::MAX,
    ensures
        total_of(counted_packets(table, packets), keys) == total_of(table, keys) + packets.len(),
    decreases packets.len(),
{
    if packets.len() > 0 {
        let rest = packets.drop_last();
        let last = packets.last();
        let key = last.source.spec_key();
        assert(last == packets[packets.len() - 1]);
        assert forall|i: int| 0 <= i < rest.len() implies keys.contains(
            (#[trigger] rest[i]).source.spec_key(),
        ) by {
            assert(rest[i] == packets[i]);
        }
        assert forall|key: SourceKey| #[trigger]
            counts_of(table, key).0 + rest.len() <= u64::MAX && counts_of(table, key).1
                + rest.len() <= u64::MAX by {
            assert(counts_of(table, key).0 + packets.len() <= u64::MAX);
        }
        sources_account_for_all_packets(table, rest, keys);
        assert(counts_of(table, key).0 + packets.len() <= u64::MAX);
        counters_are_exact(table, rest, key);
        lemma_total_step(counted_packets(table, rest), keys, key, last.discard);
    }
}

/// Two tables put together: every source has the sum of its counters.
pub open spec fn merged_sources(
    table: Map<SourceKey, SourceCounts>,
    other: Map<SourceKey, SourceCounts>,
) -> Map<SourceKey, SourceCounts> {
    Map::new(
        |key: SourceKey| table.contains_key(key) || other.contains_key(key),
        |key: SourceKey| added(counts_of(table, key), counts_of(other, key)),
    )
}

/// The table after these rows are added.
spec fn added_rows(table: Map<SourceKey, SourceCounts>, rows: Seq<SourceRow>) -> Map<
    SourceKey,
    SourceCounts,
>
    decreases rows.len(),
{
    if rows.len() == 0 {
        table
    } else {
        added_to(added_rows(table, rows.drop_last()), rows.last().0, rows.last().1)
    }
}

/// What adding rows of different sources does to one source.
proof fn lemma_added_rows(
    table: Map<SourceKey, SourceCounts>,
    rows: Seq<SourceRow>,
    key: SourceKey,
)
    requires
        forall|i: int, j: int| #![trigger rows[i], rows[j]]
            0 <= i < j < rows.len() ==> rows[i].0 != rows[j].0,
    ensures
        forall|i: int|
            0 <= i < rows.len() && (#[trigger] rows[i]).0 == key ==> added_rows(
                table,
                rows,
            ).contains_key(key) && added_rows(table, rows)[key] == added(
                counts_of(table, key),
                rows[i].1,
            ),
        (forall|i: int| 0 <= i < rows.len() ==> (#[trigger] rows[i]).0 != key) ==> (added_rows(
            table,
            rows,
        ).contains_key(key) <==> table.contains_key(key)) && counts_of(
            added_rows(table, rows),
            key,
        ) == counts_of(table, key),
    decreases rows.len(),
{
    if rows.len() > 0 {
        let rest = rows.drop_last();
        assert forall|i: int, j: int| #![trigger rest[i], rest[j]]
            0 <= i < j < rest.len() implies rest[i].0 != rest[j].0 by {
            assert(rest[i] == rows[i] && rest[j] == rows[j]);
        }
        lemma_added_rows(table, rest, key);
        let last = rows.len() - 1;
        assert(rows[last] == rows.last());
        assert forall|i: int| 0 <= i < rest.len() implies rest[i] == #[trigger] rows[i] by {}
        if rows[last].0 == key {
            assert forall|i: int| 0 <= i < rest.len() implies (#[trigger] rest[i]).0 != key by {
                assert(rest[i] == rows[i]);
            }
        } else {
            assert forall|i: int| 0 <= i < rows.len() && (#[trigger] rows[i]).0 == key implies {
                &&& added_rows(table, rows).contains_key(key)
                &&& added_rows(table, rows)[key] == added(counts_of(table, key), rows[i].1)
            } by {
                assert(rest[i] == rows[i]);
            }
            if forall|i: int| 0 <= i < rows.len() ==> (#[trigger] rows[i]).0 != key {
                assert forall|i: int| 0 <= i < rest.len() implies (#[trigger] rest[i]).0 != key by {
                    assert(rest[i] == rows[i]);
                }
            }
        }
    }
}

/// Moves all counters of another table into this one.
pub fn absorb_sources(table: &mut SourceTable, other: &mut SourceTable)
    ensures
        sources(*final(table)) == merged_sources(sources(*old(table)), sources(*old(other))),
        sources(*final(other)) == (Map::<SourceKey, SourceCounts>::empty()),
{
    let ghost start = sources(*table);
    let ghost moved = sources(*other);
    let rows = drain(other);
    let mut i: usize = 0;
    while i < rows.len()
        invariant
            i <= rows.len(),
            start == sources(*old(table)),
            sources(*table) == added_rows(start, rows@.take(i as int)),
        decreases rows.len() - i,
    {
        let (key, counts) = rows[i];
        table_upsert(table, key, counts);
        proof {
            assert(rows@.take(i + 1).drop_last() =~= rows@.take(i as int));
            assert(rows@.take(i + 1).last() == rows@[i as int]);
        }
        i = i + 1;
    }
    proof {
        assert(rows@.take(i as int) =~= rows@);
        let result = added_rows(start, rows@);
        let merged = merged_sources(start, moved);
        assert forall|key: SourceKey|
            (#[trigger] result.contains_key(key) <==> merged.contains_key(key)) && (
            result.contains_key(key) ==> result[key] == merged[key]) by {
            lemma_added_rows(start, rows@, key);
            if moved.contains_key(key) {
                let k = choose|k: int| 0 <= k < rows@.len() && (#[trigger] rows@[k]).0 == key;
                assert(rows@[k].1 == moved[key]);
            } else {
                assert forall|k: int| 0 <= k < rows@.len() implies (#[trigger] rows@[k]).0
                    != key by {
                    assert(moved.contains_key(rows@[k].0));
                }
            }
        }
        assert(result.dom() =~= merged.dom());
        assert(result =~= merged);
    }
}

/// Counting packets in a table of their own and moving the counters over afterwards comes to the
/// same as counting them in place.
pub proof fn counting_apart_is_counting(
    table: Map<SourceKey, SourceCounts>,
    packets: Seq<PacketView>,
)
    ensures
        merged_sources(
            table,
            counted_packets(Map::<SourceKey, SourceCounts>::empty(), packets),
        ) == counted_packets(table, packets),
    decreases packets.len(),
{
    let empty = Map::<SourceKey, SourceCounts>::empty();
    if packets.len() > 0 {
        let rest = packets.drop_last();
        counting_apart_is_counting(table, rest);
        let apart = counted_packets(empty, rest);
        let in_place = counted_packets(table, rest);
        let key = packets.last().source.spec_key();
        assert(counts_of(in_place, key) == added(counts_of(table, key), counts_of(apart, key))) by {
            assert(in_place == merged_sources(table, apart));
        }
        assert forall|k: SourceKey|
            table.contains_key(k) || apart.contains_key(k) <==> in_place.contains_key(k) by {
            assert(in_place == merged_sources(table, apart));
        }
        assert forall|k: SourceKey| in_place.contains_key(k) implies #[trigger] in_place[k]
            == added(counts_of(table, k), counts_of(apart, k)) by {
            assert(in_place == merged_sources(table, apart));
        }
        assert(merged_sources(table, counted_packets(empty, packets)) =~= counted_packets(
            table,
            packets,
        ));
    } else {
        assert(merged_sources(table, empty) =~= table);
    }
}

/// The number of these packets that came from this address and are, or are not, discarded.
pub open spec fn num_from(packets: Seq<PacketView>, ip: IpAddr, discard: bool) -> nat {
    packets.filter(|packet: PacketView| packet.source == ip && packet.discard == discard).len()
}

/// Every packet is counted for the address that it came from, and for no other: of its two counters
/// the first grows by the number of its packets that are discarded, and the second by the number
/// of those that are not. An IPv4 address is filed apart from an IPv6 address with the same bits.
pub proof fn packets_count_for_their_source(
    table: Map<SourceKey, SourceCounts>,
    packets: Seq<PacketView>,
    ip: IpAddr,
    key: SourceKey,
)
    requires
        packets.len() <= u64::MAX,
        ip matches IpAddr::V4(bits) ==> !key.0 && key.1 == bits,
        ip matches IpAddr::V6(bits) ==> key.0 && key.1 == bits,
    ensures
        ({
            let after = counted_packets(table, packets);
            let discarded = num_from(packets, ip, true);
            let others = num_from(packets, ip, false);
            &&& after.contains_key(key) <==> table.contains_key(key) || discarded + others > 0
            &&& table.contains_key(key) ==> after[key].0 == table[key].0.wrapping_add(
                discarded as u64,
            ) && after[key].1 == table[key].1.wrapping_add(others as u64)
            &&& !table.contains_key(key) && after.contains_key(key) ==> after[key].0 == discarded
                && after[key].1 == others
            &&& discarded + others <= packets.len()
        }),
    decreases packets.len(),
{
    reveal(Seq::filter);
    if packets.len() > 0 {
        packets_count_for_their_source(table, packets.drop_last(), ip, key);
        let last = packets.last();
        assert(last.source.spec_key() == key <==> last.source == ip) by {
            crate::addr::ip_key_round_trip(last.source);
            crate::addr::ip_key_round_trip(ip);
        }
    }
}

/// Counters of the same source in two tables add up when one table absorbs the other, discarded
/// packets to discarded ones; a source that is in one table only keeps its counters.
pub proof fn absorbed_sources_add_up(
    table: Map<SourceKey, SourceCounts>,
    other: Map<SourceKey, SourceCounts>,
    key: SourceKey,
)
    ensures
        ({
            let merged = merged_sources(table, other);
            &&& merged.contains_key(key) <==> table.contains_key(key) || other.contains_key(key)
            &&& table.contains_key(key) && other.contains_key(key) ==> merged[key].0
                == table[key].0.wrapping_add(other[key].0) && merged[key].1
                == table[key].1.wrapping_add(other[key].1)
            &&& table.contains_key(key) && !other.contains_key(key) ==> merged[key] == table[key]
            &&& !table.contains_key(key) && other.contains_key(key) ==> merged[key] == other[key]
        }),
{
    if merged_sources(table, other).contains_key(key) {
        let a = counts_of(table, key);
        let b = counts_of(other, key);
        assert(a.0.wrapping_add(0) == a.0 && a.1.wrapping_add(0) == a.1);
        assert(0u64.wrapping_add(b.0) == b.0 && 0u64.wrapping_add(b.1) == b.1);
    }
}

} // verus!
