//! Batches of received packets, and their deduplication.
use solana_perf::deduper::Deduper;
use solana_perf::packet::PacketBatch;
use vstd::prelude::*;

use crate::addr::IpAddr;
use crate::filter::deduper_bits;
use crate::filter::deduper_new;
use crate::filter::Asker;
use crate::filter::DedupCount;
use crate::filter::DEDUPER_NUM_BITS;

verus! {

/// `solana_perf::packet::PacketBatch`, whose packets [`packets`] names.
#[verifier::external_type_specification]
#[verifier::external_body]
pub struct ExPacketBatch(solana_perf::packet::PacketBatch);

/// What the forwarder reads of one packet.
pub struct PacketView {
    /// Address that the packet came from.
    pub source: IpAddr,
    /// The bytes that were received; `None` where the packet claims to be longer than its buffer.
    pub stored: Option<Seq<u8>>,
    /// Whether the packet is marked as not to be read.
    pub discard: bool,
}

impl PacketView {
    /// The bytes to forward: those that were received, unless the packet is marked as discarded.
    pub open spec fn payload(self) -> Option<Seq<u8>> {
        if self.discard {
            None
        } else {
            self.stored
        }
    }
}

/// The packets that a batch holds, in order.
pub uninterp spec fn packets(batch: PacketBatch) -> Seq<PacketView>;

/// Calls `PacketBatch::len`: the number of packets in the batch.
#[verifier::external_body]
pub(crate) fn batch_len(batch: &PacketBatch) -> (n: usize)
    ensures
        n == packets(*batch).len(),
{
    batch.len()
}

/// Calls `PacketBatch::clone`: a batch of its own with the same packets.
#[verifier::external_body]
pub(crate) fn batch_clone(batch: &PacketBatch) -> (copy: PacketBatch)
    ensures
        packets(copy) == packets(*batch),
{
    batch.clone()
}

/// Indexes the batch and reads `Meta::addr`: the address that packet `i` came from.
#[verifier::external_body]
fn packet_source(batch: &PacketBatch, i: usize) -> (source: IpAddr)
    requires
        i < packets(*batch).len(),
    ensures
        source == packets(*batch)[i as int].source,
{
    match batch[i].meta().addr {
        core::net::IpAddr::V4(ip) => IpAddr::V4(u32::from(ip)),
        core::net::IpAddr::V6(ip) => IpAddr::V6(u128::from(ip)),
    }
}

/// Indexes the batch and calls `Meta::discard`: whether packet `i` is marked as discarded.
#[verifier::external_body]
fn packet_discard(batch: &PacketBatch, i: usize) -> (discard: bool)
    requires
        i < packets(*batch).len(),
    ensures
        discard == packets(*batch)[i as int].discard,
{
    batch[i].meta().discard()
}

/// Indexes the batch and calls `Packet::data` for the whole packet: its received bytes, or
/// `None` where it is marked as discarded or longer than its buffer.
#[verifier::external_body]
pub(crate) fn packet_data(batch: &PacketBatch, i: usize) -> (data: Option<&[u8]>)
    requires
        i < packets(*batch).len(),
    ensures
        match data {
            Some(bytes) => packets(*batch)[i as int].payload() == Some(bytes@),
            None => packets(*batch)[i as int].payload() is None,
        },
{
    batch[i].data(..)
}

/// What deduplication may do to the packets of a batch.
pub open spec fn deduplicated(before: Seq<PacketView>, after: Seq<PacketView>) -> bool {
    &&& after.len() == before.len()
    &&& forall|i: int| #![trigger after[i]]
        0 <= i < before.len() ==> {
            &&& after[i].source == before[i].source
            &&& after[i].stored == before[i].stored
            &&& before[i].payload() is None ==> after[i].discard
        }
    &&& forall|i: int, j: int| #![trigger after[i], after[j]]
        0 <= i < j < before.len() && before[i].payload() is Some && before[i].payload()
            == before[j].payload() ==> after[j].discard
}

/// The number of discarded packets.
pub open spec fn count_discarded(packets: Seq<PacketView>) -> nat
    decreases packets.len(),
{
    if packets.len() == 0 {
        0
    } else {
        count_discarded(packets.drop_last()) + if packets.last().discard {
            1nat
        } else {
            0nat
        }
    }
}

/// The payloads to forward, in the order in which their packets were received.
pub open spec fn live_payloads(packets: Seq<PacketView>) -> Seq<Seq<u8>>
    decreases packets.len(),
{
    if packets.len() == 0 {
        Seq::empty()
    } else {
        match packets.last().payload() {
            Some(bytes) => live_payloads(packets.drop_last()).push(bytes),
            None => live_payloads(packets.drop_last()),
        }
    }
}

/// What the forwarder keeps about one packet for its statistics: where it came from and whether
/// it was discarded.
pub(crate) fn packet_origin(batch: &PacketBatch, i: usize) -> (origin: (IpAddr, bool))
    requires
        i < packets(*batch).len(),
    ensures
        origin == (packets(*batch)[i as int].source, packets(*batch)[i as int].discard),
{
    (packet_source(batch, i), packet_discard(batch, i))
}

/// Makes an empty deduper of the size that the forwarder runs with.
pub fn new_deduper() -> (deduper: Deduper<2, [u8]>)
    ensures
        deduper_bits(deduper) == DEDUPER_NUM_BITS,
        deduper_bits(deduper) == 637_534_199,
{
    deduper_new(DEDUPER_NUM_BITS)
}

/// Asks a filter once about a batch: marks what it takes for duplicates as discarded, and counts the
/// discarded packets.
pub fn dedup_batch(asker: &mut Asker<'_>, batch: &mut PacketBatch) -> (dedup: DedupCount)
    ensures
        final(asker).deduper() == old(asker).deduper(),
        final(asker).asked() == old(asker).asked().push(packets(*old(batch))),
        deduplicated(packets(*old(batch)), packets(*final(batch))),
        dedup.count() == count_discarded(packets(*final(batch))),
        dedup.count() == packets(*final(batch)).filter(|packet: PacketView| packet.discard).len(),
        dedup.deduper() == old(asker).deduper(),
        dedup.asked() == packets(*old(batch)),
        dedup.answered() == packets(*final(batch)),
{
    let dedup = asker.ask(batch);
    proof {
        every_discarded_packet_counts(packets(*batch));
    }
    dedup
}

/// The count of discarded packets is the number of packets that are marked as discarded.
pub proof fn every_discarded_packet_counts(packets: Seq<PacketView>)
    ensures
        count_discarded(packets) == packets.filter(|packet: PacketView| packet.discard).len(),
        count_discarded(packets) <= packets.len(),
    decreases packets.len(),
{
    reveal(Seq::filter);
    if packets.len() > 0 {
        every_discarded_packet_counts(packets.drop_last());
    }
}

/// What is forwarded is the bytes of every packet that is readable and not discarded, unchanged and
/// in the order in which the packets were received.
pub proof fn payloads_of_readable_packets(packets: Seq<PacketView>)
    ensures
        live_payloads(packets) == packets.filter(
            |packet: PacketView| !packet.discard && packet.stored is Some,
        ).map_values(|packet: PacketView| packet.stored.unwrap()),
    decreases packets.len(),
{
    reveal(Seq::filter);
    let live = packets.filter(|packet: PacketView| !packet.discard && packet.stored is Some);
    if packets.len() > 0 {
        payloads_of_readable_packets(packets.drop_last());
        let rest = packets.drop_last().filter(
            |packet: PacketView| !packet.discard && packet.stored is Some,
        );
        if live != rest {
            assert(live == rest.push(packets.last()));
        }
    }
    assert(live_payloads(packets) =~= live.map_values(
        |packet: PacketView| packet.stored.unwrap(),
    ));
}

/// Deduplication does nothing to a packet but mark it: it keeps its place, its source and its bytes,
/// and a mark that was there stays. Of packets with the same bytes the first alone can be left
/// unmarked.
pub proof fn deduplication_only_marks(
    before: Seq<PacketView>,
    after: Seq<PacketView>,
    i: int,
    j: int,
)
    requires
        deduplicated(before, after),
        0 <= i < j < before.len(),
    ensures
        after.len() == before.len(),
        after[i].source == before[i].source,
        after[i].stored == before[i].stored,
        after[j].source == before[j].source,
        after[j].stored == before[j].stored,
        before[i].discard ==> after[i].discard,
        before[j].discard ==> after[j].discard,
        before[j].stored is None ==> after[j].discard,
        !before[i].discard && before[i].stored is Some && before[i].stored == before[j].stored
            ==> after[j].discard,
{
    assert(after[i].stored == before[i].stored);
    assert(after[j].stored == before[j].stored);
}

/// Collects the payloads that every destination is to receive.
pub fn collect_payloads(batch: &PacketBatch) -> (payloads: Vec<&[u8]>)
    ensures
        payloads@.map_values(|bytes: &[u8]| bytes@) == live_payloads(packets(*batch)),
        payloads@.map_values(|bytes: &[u8]| bytes@) == packets(*batch).filter(
            |packet: PacketView| !packet.discard && packet.stored is Some,
        ).map_values(|packet: PacketView| packet.stored.unwrap()),
{
    proof {
        payloads_of_readable_packets(packets(*batch));
    }
    let ghost all = packets(*batch);
    let n: usize = batch_len(batch);
    let mut payloads: Vec<&[u8]> = Vec::new();
    let mut i: usize = 0;
    assert(payloads@.map_values(|bytes: &[u8]| bytes@) =~= live_payloads(all.take(0)));
    while i < n
        invariant
            i <= n,
            all == packets(*batch),
            n == all.len(),
            payloads@.map_values(|bytes: &[u8]| bytes@) == live_payloads(all.take(i as int)),
        decreases n - i,
    {
        let ghost before = payloads@;
        if let Some(bytes) = packet_data(batch, i) {
            payloads.push(bytes);
        }
        proof {
            let seen = all.take(i + 1);
            assert(seen.drop_last() =~= all.take(i as int));
            assert(seen.last() == all[i as int]);
            match all[i as int].payload() {
                Some(bytes) => {
                    assert(payloads@.map_values(|bytes: &[u8]| bytes@) =~= before.map_values(
                        |bytes: &[u8]| bytes@,
                    ).push(bytes));
                },
                None => {},
            }
        }
        i = i + 1;
    }
    assert(all.take(n as int) =~= all);
    payloads
}

/// Every forwarded payload is that of some packet in the batch.
proof fn lemma_live_payload_has_packet(packets: Seq<PacketView>, bytes: Seq<u8>)
    requires
        live_payloads(packets).contains(bytes),
    ensures
        exists|i: int|
            0 <= i < packets.len() && (#[trigger] packets[i]).payload() == Some(bytes),
    decreases packets.len(),
{
    let rest = packets.drop_last();
    if packets.last().payload() == Some(bytes) {
        assert(packets[packets.len() - 1].payload() == Some(bytes));
    } else {
        let k = choose|k: int|
            0 <= k < live_payloads(packets).len() && live_payloads(packets)[k] == bytes;
        assert(live_payloads(rest)[k] == bytes);
        lemma_live_payload_has_packet(rest, bytes);
        let i = choose|i: int|
            0 <= i < rest.len() && (#[trigger] rest[i]).payload() == Some(bytes);
        assert(packets[i].payload() == Some(bytes));
    }
}

/// The first `n` packets of a deduplicated batch forward no payload twice.
proof fn lemma_prefix_forwards_once(before: Seq<PacketView>, after: Seq<PacketView>, n: int)
    requires
        deduplicated(before, after),
        0 <= n <= after.len(),
    ensures
        live_payloads(after.take(n)).no_duplicates(),
    decreases n,
{
    if n > 0 {
        lemma_prefix_forwards_once(before, after, n - 1);
        let seen = after.take(n);
        let rest = after.take(n - 1);
        assert(seen.drop_last() =~= rest);
        assert(seen.last() == after[n - 1]);
        match after[n - 1].payload() {
            Some(bytes) => {
                if live_payloads(rest).contains(bytes) {
                    lemma_live_payload_has_packet(rest, bytes);
                    let i = choose|i: int|
                        0 <= i < rest.len() && (#[trigger] rest[i]).payload() == Some(bytes);
                    assert(after[i] == rest[i]);
                    assert(before[i].payload() == Some(bytes));
                    assert(before[n - 1].payload() == Some(bytes));
                }
            },
            None => {},
        }
    }
}

/// A deduplicated batch forwards no payload twice.
pub proof fn deduplicated_batch_forwards_once(before: Seq<PacketView>, after: Seq<PacketView>)
    requires
        deduplicated(before, after),
    ensures
        live_payloads(after).no_duplicates(),
{
    lemma_prefix_forwards_once(before, after, after.len() as int);
    assert(after.take(after.len() as int) =~= after);
}

/// After deduplication every packet is either forwarded or counted as discarded, never both.
pub proof fn deduplicated_batch_accounts_for_all(before: Seq<PacketView>, after: Seq<PacketView>)
    requires
        deduplicated(before, after),
    ensures
        live_payloads(after).len() + count_discarded(after) == before.len(),
{
    assert forall|i: int| 0 <= i < after.len() implies (after[i].discard
        || after[i].payload() is Some) by {
        assert(after[i].stored == before[i].stored);
    }
    lemma_live_or_discarded(after);
}

/// A batch in which each packet is readable or discarded splits into the two.
proof fn lemma_live_or_discarded(packets: Seq<PacketView>)
    requires
        forall|i: int|
            0 <= i < packets.len() ==> (#[trigger] packets[i]).discard || packets[i].payload() is Some,
    ensures
        live_payloads(packets).len() + count_discarded(packets) == packets.len(),
    decreases packets.len(),
{
    if packets.len() > 0 {
        lemma_live_or_discarded(packets.drop_last());
        assert(packets.last() == packets[packets.len() - 1]);
    }
}

} // verus!
