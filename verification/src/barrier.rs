//! What holds of the end-to-end barrier of a batch, whose shards several threads count off.
//!
//! What is taken off one atomic counter is taken off at one turn after the other. Who has which
//! turn is up to the threads; the laws hold whatever it is.
use std::sync::Arc;
use std::time::Instant;

use crossbeam_channel::Sender;
use solana_perf::deduper::Deduper;
use solana_perf::packet::PacketBatch;
use vstd::prelude::*;
use vstd::set_lib::lemma_int_range;
use vstd::set_lib::lemma_subset_equality;
use vstd::set_lib::set_int_range;

use crate::coordinator::after_counts;
use crate::coordinator::count_counted_off;
use crate::coordinator::count_dropped;
use crate::coordinator::every_shard_counted_off_once;
use crate::coordinator::BatchOutcome;
use crate::coordinator::Dispatch;
use crate::coordinator::ShardMsg;
use crate::counter::started_at;
use crate::metrics::ShredMetrics;
use crate::shard::ShardOutcome;
use crate::trace::BatchTrace;
use crate::trace::CountOff;

verus! {

/// Whether these counts can be all that were taken off a counter that started at `start`: as they
/// were taken off one after the other, each found another number, from the start downwards.
pub open spec fn in_turn(counts: Seq<CountOff>, start: u32) -> bool {
    &&& forall|i: int| #![trigger counts[i]]
        0 <= i < counts.len() ==> start - counts.len() < counts[i].prev() <= start
    &&& forall|i: int, j: int| #![trigger counts[i], counts[j]]
        0 <= i < j < counts.len() ==> counts[i].prev() != counts[j].prev()
}

/// The number of counts that measured the end-to-end time.
pub open spec fn firings(counts: Seq<CountOff>) -> nat
    decreases counts.len(),
{
    if counts.len() == 0 {
        0
    } else {
        firings(counts.drop_last()) + if counts.last().e2e is Some {
            1nat
        } else {
            0nat
        }
    }
}

/// The counters after the end-to-end times that these counts measured are recorded.
pub open spec fn after_count_offs(metrics: ShredMetrics, counts: Seq<CountOff>) -> ShredMetrics
    decreases counts.len(),
{
    if counts.len() == 0 {
        metrics
    } else {
        after_count_offs(metrics, counts.drop_last()).after_e2e_option(counts.last().e2e_us())
    }
}

/// The counts that the coordinator made in place of shards that it could not reach.
pub open spec fn count_offs(dispatches: Seq<Dispatch>) -> Seq<CountOff>
    decreases dispatches.len(),
{
    if dispatches.len() == 0 {
        Seq::empty()
    } else {
        match dispatches.last().count_off {
            Some(count) => count_offs(dispatches.drop_last()).push(count),
            None => count_offs(dispatches.drop_last()),
        }
    }
}

/// Where no count measured a time, none fired.
proof fn lemma_no_firing(counts: Seq<CountOff>)
    requires
        forall|i: int| 0 <= i < counts.len() ==> (#[trigger] counts[i]).e2e is None,
    ensures
        firings(counts) == 0,
    decreases counts.len(),
{
    if counts.len() > 0 {
        let rest = counts.drop_last();
        assert forall|i: int| 0 <= i < rest.len() implies (#[trigger] rest[i]).e2e is None by {
            assert(rest[i] == counts[i]);
        }
        lemma_no_firing(rest);
        assert(counts.last() == counts[counts.len() - 1]);
    }
}

/// Where one count measured the time and no other did, one fired.
proof fn lemma_one_firing(counts: Seq<CountOff>, i: int)
    requires
        0 <= i < counts.len(),
        forall|k: int| 0 <= k < counts.len() ==> ((#[trigger] counts[k]).e2e is Some <==> k == i),
    ensures
        firings(counts) == 1,
    decreases counts.len(),
{
    let rest = counts.drop_last();
    assert(counts.last() == counts[counts.len() - 1]);
    if i == counts.len() - 1 {
        assert forall|k: int| 0 <= k < rest.len() implies (#[trigger] rest[k]).e2e is None by {
            assert(rest[k] == counts[k]);
        }
        lemma_no_firing(rest);
    } else {
        assert forall|k: int| 0 <= k < rest.len() implies ((#[trigger] rest[k]).e2e is Some <==> k
            == i) by {
            assert(rest[k] == counts[k]);
        }
        lemma_one_firing(rest, i);
    }
}

/// Each of the numbers is found by some count.
proof fn lemma_number_is_found(counts: Seq<CountOff>, start: u32, prev: int) -> (i: int)
    requires
        in_turn(counts, start),
        start - counts.len() < prev <= start,
    ensures
        0 <= i < counts.len(),
        counts[i].prev() == prev,
{
    let n = counts.len() as int;
    let turns = Seq::new(counts.len(), |i: int| start - counts[i].prev());
    let had = turns.to_set();
    let all = set_int_range(0, n);
    assert(turns.no_duplicates()) by {
        assert forall|i: int, j: int| 0 <= i < n && 0 <= j < n && i != j implies turns[i]
            != turns[j] by {
            if i < j {
                assert(counts[i].prev() != counts[j].prev());
            } else {
                assert(counts[j].prev() != counts[i].prev());
            }
        }
    }
    turns.unique_seq_to_set();
    lemma_int_range(0, n);
    assert forall|t: int| had.contains(t) implies all.contains(t) by {
        let k = choose|k: int| 0 <= k < turns.len() && turns[k] == t;
        assert(counts[k].prev() <= start);
    }
    assert(had.subset_of(all));
    vstd::set_lib::lemma_set_subset_finite(all, had);
    lemma_subset_equality(had, all);
    assert(had.contains(start - prev)) by {
        assert(all.contains(start - prev));
    }
    let i = choose|i: int| 0 <= i < turns.len() && turns[i] == start - prev;
    assert(counts[i].prev() == prev);
    i
}

/// Where a trace is counted off as often as it has shards, exactly one count measures the
/// end-to-end time: the one that leaves no shard.
pub proof fn barrier_fires_once(counts: Seq<CountOff>, trace: Arc<BatchTrace>)
    requires
        counts.len() > 0,
        started_at(trace.shard_remaining) == counts.len(),
        forall|i: int| 0 <= i < counts.len() ==> (#[trigger] counts[i]).of(*trace),
        in_turn(counts, started_at(trace.shard_remaining)),
    ensures
        firings(counts) == 1,
        forall|i: int| #![trigger counts[i]]
            0 <= i < counts.len() ==> (counts[i].e2e is Some <==> counts[i].left() == 0),
{
    let last = lemma_number_is_found(counts, counts.len() as u32, 1);
    assert forall|k: int| 0 <= k < counts.len() implies ((#[trigger] counts[k]).e2e is Some <==> k
        == last) by {
        assert(counts[k].of(*trace));
        if k < last {
            assert(counts[k].prev() != counts[last].prev());
        } else if last < k {
            assert(counts[last].prev() != counts[k].prev());
        }
    }
    lemma_one_firing(counts, last);
    assert forall|i: int| #![trigger counts[i]] 0 <= i < counts.len() implies (
    counts[i].e2e is Some <==> counts[i].left() == 0) by {
        assert(counts[i].of(*trace));
        assert(counts[i].prev() > 0);
    }
}

/// Recording one list of counts after another is recording both.
proof fn lemma_count_offs_in_two(metrics: ShredMetrics, a: Seq<CountOff>, b: Seq<CountOff>)
    ensures
        after_count_offs(metrics, a + b) == after_count_offs(after_count_offs(metrics, a), b),
    decreases b.len(),
{
    if b.len() == 0 {
        assert(a + b =~= a);
    } else {
        assert((a + b).drop_last() =~= a + b.drop_last());
        assert((a + b).last() == b.last());
        lemma_count_offs_in_two(metrics, a, b.drop_last());
    }
}

/// Each firing is recorded as one batch, and nothing but end-to-end times is recorded.
proof fn lemma_firings_recorded(metrics: ShredMetrics, counts: Seq<CountOff>)
    requires
        firings(counts) <= 1,
    ensures
        after_count_offs(metrics, counts).e2e_batches == metrics.e2e_batches.wrapping_add(
            firings(counts) as u64,
        ),
        after_count_offs(metrics, counts).forward_batches == metrics.forward_batches,
    decreases counts.len(),
{
    if counts.len() > 0 {
        lemma_firings_recorded(metrics, counts.drop_last());
    }
}

/// The coordinator records what its counts measured.
proof fn lemma_coordinator_counts(metrics: ShredMetrics, dispatches: Seq<Dispatch>)
    ensures
        after_counts(metrics, dispatches) == after_count_offs(metrics, count_offs(dispatches)),
        count_offs(dispatches).len() == count_counted_off(dispatches),
    decreases dispatches.len(),
{
    if dispatches.len() > 0 {
        let rest = dispatches.drop_last();
        lemma_coordinator_counts(metrics, rest);
        match dispatches.last().count_off {
            Some(count) => {
                assert(count_offs(dispatches).drop_last() =~= count_offs(rest));
                assert(count_offs(dispatches).last() == count);
            },
            None => {},
        }
    }
}

/// The counts of the coordinator are counts off the trace of the batch.
proof fn lemma_count_offs_of(dispatches: Seq<Dispatch>, msg: ShardMsg, trace: Arc<BatchTrace>)
    requires
        msg.1 matches Some(ticket) && ticket.trace() == trace,
        forall|i: int| 0 <= i < dispatches.len() ==> (#[trigger] dispatches[i]).of(msg),
    ensures
        forall|i: int|
            0 <= i < count_offs(dispatches).len() ==> (#[trigger] count_offs(dispatches)[i]).of(
                *trace,
            ),
    decreases dispatches.len(),
{
    if dispatches.len() > 0 {
        let rest = dispatches.drop_last();
        assert forall|i: int| 0 <= i < rest.len() implies (#[trigger] rest[i]).of(msg) by {
            assert(rest[i] == dispatches[i]);
        }
        lemma_count_offs_of(rest, msg, trace);
        assert(dispatches.last() == dispatches[dispatches.len() - 1]);
        assert forall|i: int| 0 <= i < count_offs(dispatches).len() implies (
        #[trigger] count_offs(dispatches)[i]).of(*trace) by {
            if i < count_offs(rest).len() {
                assert(count_offs(dispatches)[i] == count_offs(rest)[i]);
            }
        }
    }
}

/// The trace of a batch that is dispatched to `n` shards, of which `k` cannot be reached, is taken
/// down to `n - k` shards, and no further, by the coordinator as long as no other shard is done.
pub proof fn reached_shards_are_left(dispatches: Seq<Dispatch>, msg: ShardMsg, trace: Arc<BatchTrace>)
    requires
        msg.1 matches Some(ticket) && ticket.trace() == trace,
        forall|i: int| 0 <= i < dispatches.len() ==> (#[trigger] dispatches[i]).of(msg),
        started_at(trace.shard_remaining) == dispatches.len(),
        in_turn(count_offs(dispatches), started_at(trace.shard_remaining)),
    ensures
        ({
            let counts = count_offs(dispatches);
            let reached = dispatches.len() - count_dropped(dispatches);
            &&& counts.len() == count_dropped(dispatches)
            &&& forall|i: int| #![trigger counts[i]]
                0 <= i < counts.len() ==> counts[i].left() >= reached
            &&& counts.len() > 0 ==> exists|i: int|
                0 <= i < counts.len() && (#[trigger] counts[i]).left() == reached
        }),
{
    every_shard_counted_off_once(dispatches, msg);
    lemma_coordinator_counts(arbitrary(), dispatches);
    let counts = count_offs(dispatches);
    let start = dispatches.len() as u32;
    assert forall|i: int| #![trigger counts[i]] 0 <= i < counts.len() implies counts[i].left()
        >= start - counts.len() by {
        assert(counts[i].prev() > start - counts.len());
    }
    if counts.len() > 0 {
        let last = lemma_number_is_found(counts, start, start - counts.len() + 1);
        assert(counts[last].left() == start - counts.len());
    }
}

/// The counts of the shards that are done with a batch.
pub open spec fn counts_of_ends(ends: Seq<ShardOutcome>) -> Seq<CountOff> {
    ends.map_values(|end: ShardOutcome| end.count_off.unwrap())
}

/// A batch that was timed and that reached a shard has a ticket for each of its shards. The
/// coordinator gives up those of the shards that it could not reach, and each of the others its
/// own once it is done; so with all of them done it is counted off exactly once for each shard.
/// Exactly one end-to-end time is then recorded for it, whoever counts last and in whatever order:
/// like the number of batches that were handled, the number of batches that ended grows by one.
pub proof fn one_end_to_end_time_per_batch(
    metrics: ShredMetrics,
    outcome: BatchOutcome,
    received: PacketBatch,
    deduper: Deduper<2, [u8]>,
    shard_senders: Seq<Sender<ShardMsg>>,
    should_reconstruct_shreds: bool,
    reconstruct_tx: Sender<PacketBatch>,
    t_start: Instant,
    ends: Seq<ShardOutcome>,
)
    requires
        outcome.of(
            received,
            deduper,
            shard_senders,
            should_reconstruct_shreds,
            reconstruct_tx,
            Some(t_start),
        ),
        shard_senders.len() <= u32::MAX,
        count_dropped(outcome.dispatches@) < shard_senders.len(),
        ends.len() == shard_senders.len() - count_dropped(outcome.dispatches@),
        forall|i: int|
            0 <= i < ends.len() ==> (#[trigger] ends[i]).counted_off(outcome.message().1),
        in_turn(
            count_offs(outcome.dispatches@) + counts_of_ends(ends),
            started_at(outcome.tickets.unwrap().trace().shard_remaining),
        ),
    ensures
        ({
            let counts = count_offs(outcome.dispatches@) + counts_of_ends(ends);
            let end = after_count_offs(outcome.recorded(metrics), counts_of_ends(ends));
            &&& counts.len() == shard_senders.len()
            &&& firings(counts) == 1
            &&& end.e2e_batches == metrics.e2e_batches.wrapping_add(1)
            &&& end.forward_batches == metrics.forward_batches.wrapping_add(1)
        }),
{
    let trace = outcome.tickets.unwrap().trace();
    let msg = outcome.message();
    let dispatches = outcome.dispatches@;
    let own = count_offs(dispatches);
    let shard_counts = counts_of_ends(ends);
    let counts = own + shard_counts;
    assert forall|i: int| 0 <= i < dispatches.len() implies (#[trigger] dispatches[i]).of(msg) by {
        assert(outcome.dispatches[i].of(msg));
    }
    every_shard_counted_off_once(dispatches, msg);
    let received_by = metrics.after_receive(outcome.num_packets()).after_dedup(
        outcome.dedup.count(),
    );
    lemma_coordinator_counts(received_by, dispatches);
    lemma_count_offs_of(dispatches, msg, trace);
    assert forall|i: int| 0 <= i < counts.len() implies (#[trigger] counts[i]).of(*trace) by {
        if i < own.len() {
            assert(counts[i] == own[i]);
        } else {
            assert(ends[i - own.len()].counted_off(msg.1));
            assert(counts[i] == shard_counts[i - own.len()]);
        }
    }
    barrier_fires_once(counts, trace);
    lemma_firings_recorded(received_by, counts);
    lemma_count_offs_in_two(received_by, own, shard_counts);
    lemma_firings_add(own, shard_counts);
    lemma_firings_recorded(received_by, own);
    lemma_firings_recorded(outcome.recorded(metrics), shard_counts);
}

/// Firings of two lists are firings of either.
proof fn lemma_firings_add(a: Seq<CountOff>, b: Seq<CountOff>)
    ensures
        firings(a + b) == firings(a) + firings(b),
    decreases b.len(),
{
    if b.len() == 0 {
        assert(a + b =~= a);
    } else {
        assert((a + b).drop_last() =~= a + b.drop_last());
        assert((a + b).last() == b.last());
        lemma_firings_add(a, b.drop_last());
    }
}

} // verus!
