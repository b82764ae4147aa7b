//! The filter that recognises duplicates.
use solana_perf::deduper::Deduper;
use solana_perf::packet::PacketBatch;
use vstd::prelude::*;

use crate::packet::count_discarded;
use crate::packet::deduplicated;
use crate::packet::packets;
use crate::packet::PacketView;

verus! {

/// Number of bits in the filter that recognises duplicates (76 MB).
pub const DEDUPER_NUM_BITS: u64 = 637_534_199;

/// `solana_perf::deduper::Deduper`, a Bloom filter over packet payloads.
#[verifier::external_type_specification]
#[verifier::external_body]
#[verifier::reject_recursive_types(T)]
pub struct ExDeduper<const K: usize, T: ?Sized>(solana_perf::deduper::Deduper<K, T>);

/// The number of bits that a deduper was made with.
pub uninterp spec fn deduper_bits(deduper: Deduper<2, [u8]>) -> u64;

/// What asking a filter about a batch came to. Outside of this module one is had only by asking.
pub struct DedupCount {
    num_discarded: u64,
    deduper: Ghost<Deduper<2, [u8]>>,
    asked: Ghost<Seq<PacketView>>,
    answered: Ghost<Seq<PacketView>>,
}

impl DedupCount {
    /// Number of packets of the batch that are discarded.
    pub closed spec fn count(self) -> u64 {
        self.num_discarded
    }

    /// The filter that was asked.
    pub closed spec fn deduper(self) -> Deduper<2, [u8]> {
        self.deduper@
    }

    /// The packets that it was asked about.
    pub closed spec fn asked(self) -> Seq<PacketView> {
        self.asked@
    }

    /// The same packets, with those marked that it took for duplicates.
    pub closed spec fn answered(self) -> Seq<PacketView> {
        self.answered@
    }

    /// Number of packets of the batch that are discarded.
    pub fn num_discarded(&self) -> (n: u64)
        ensures
            n == self.count(),
    {
        self.num_discarded
    }
}

/// Calls `Deduper::new` with the thread's random generator: an empty filter of `num_bits` bits.
/// The seeds of its hash functions, which the generator picks, are left open.
#[verifier::external_body]
pub(crate) fn deduper_new(num_bits: u64) -> (deduper: Deduper<2, [u8]>)
    requires
        0 < num_bits <= DEDUPER_NUM_BITS,
    ensures
        deduper_bits(deduper) == num_bits,
{
    Deduper::new(&mut rand::thread_rng(), num_bits)
}

/// A hold on a filter, with an account of everything that it was asked through this hold. There is
/// no way to the filter but by asking, which goes into the account.
pub struct Asker<'a> {
    deduper: &'a Deduper<2, [u8]>,
    asked: Ghost<Seq<Seq<PacketView>>>,
}

impl<'a> Asker<'a> {
    /// The filter.
    pub closed spec fn deduper(self) -> Deduper<2, [u8]> {
        *self.deduper
    }

    /// The packets of each batch that it was asked about, in order.
    pub closed spec fn asked(self) -> Seq<Seq<PacketView>> {
        self.asked@
    }

    #[verifier::type_invariant]
    spec fn inv(self) -> bool {
        deduper_bits(*self.deduper) > 0
    }

    /// Takes hold of a filter.
    pub fn new(deduper: &'a Deduper<2, [u8]>) -> (asker: Self)
        requires
            deduper_bits(*deduper) > 0,
        ensures
            asker.deduper() == *deduper,
            asker.asked() == Seq::<Seq<PacketView>>::empty(),
    {
        Asker { deduper, asked: Ghost(Seq::empty()) }
    }

    /// Calls `solana_perf::deduper::dedup_packets_and_count_discards`, once, on one batch: it is
    /// this filter that is asked, about the packets as they are before, which go into the account.
    ///
    /// Packets stay in place and keep their source and bytes. A packet that was discarded, or that
    /// has no readable bytes, is discarded afterwards; so is one whose bytes an earlier packet of
    /// the batch already put into the filter. Which other packets are discarded depends on what
    /// the filter has seen before and on its random seeds. The count is the number of packets that
    /// are discarded afterwards, whatever the reason. The filter has at least one bit.
    #[verifier::external_body]
    pub(crate) fn ask(&mut self, batch: &mut PacketBatch) -> (dedup: DedupCount)
        ensures
            final(self).deduper() == old(self).deduper(),
            final(self).asked() == old(self).asked().push(packets(*old(batch))),
            deduplicated(packets(*old(batch)), packets(*final(batch))),
            dedup.count() == count_discarded(packets(*final(batch))),
            dedup.deduper() == old(self).deduper(),
            dedup.asked() == packets(*old(batch)),
            dedup.answered() == packets(*final(batch)),
    {
        let asked = Ghost(packets(*batch));
        self.asked = Ghost(self.asked@.push(asked@));
        let num_discarded: u64 = solana_perf::deduper::dedup_packets_and_count_discards(
            self.deduper,
            std::slice::from_mut(batch),
        );
        let (deduper, answered) = (Ghost(*self.deduper), Ghost(packets(*batch)));
        DedupCount { num_discarded, deduper, asked, answered }
    }
}

} // verus!
