//! Latency of trace shreds, which carry the time at which they were created upstream.
use vstd::prelude::*;

verus! {

/// A time on the wall clock: seconds since the Unix epoch, and nanoseconds on top of them.
#[derive(Clone, Copy, Debug, PartialEq, Eq, Structural)]
pub struct Timestamp {
    pub seconds: i64,
    pub nanos: i32,
}

impl Timestamp {
    /// Nanoseconds since the Unix epoch.
    pub open spec fn spec_nanos(self) -> int {
        self.seconds * 1_000_000_000 + self.nanos
    }

    /// Computes the nanoseconds since the Unix epoch.
    fn as_nanos(&self) -> (ns: i128)
        ensures
            ns == self.spec_nanos(),
    {
        (self.seconds as i128) * 1_000_000_000 + self.nanos as i128
    }
}

/// What a trace shred carries.
#[derive(Debug)]
pub struct TraceShred {
    /// Where it was created.
    pub region: String,
    /// When it was created, if it says so.
    pub created_at: Option<Timestamp>,
    pub seq_num: u32,
}

/// Row `shredstream_proxy-trace_shred_latency`.
#[derive(Debug)]
pub struct TraceShredLatency {
    pub trace_region: String,
    pub trace_seq_num: i64,
    pub elapsed_micros: i64,
}

/// The time from creation to reception in whole microseconds; zero for a shred that was received
/// before it was created, as can be where clocks disagree.
pub open spec fn micros_between(created_at: Timestamp, received_at: Timestamp) -> int {
    let ns = received_at.spec_nanos() - created_at.spec_nanos();
    if ns < 0 {
        0
    } else {
        ns / 1000
    }
}

/// Makes the row for a trace shred. One that does not say when it was created has none.
pub fn trace_shred_latency(trace_shred: TraceShred, received_at: &Timestamp) -> (row: Option<
    TraceShredLatency,
>)
    ensures
        match trace_shred.created_at {
            Some(_) => row matches Some(row) && has_row(trace_shred, *received_at, row),
            None => row is None,
        },
        trace_shred.created_at is Some <==> row is Some,
        row matches Some(row) ==> row.trace_region == trace_shred.region && row.trace_seq_num
            == trace_shred.seq_num,
{
    match trace_shred.created_at {
        Some(created_at) => {
            let ns: i128 = received_at.as_nanos() - created_at.as_nanos();
            let micros: i128 = if ns < 0 {
                0
            } else {
                ns / 1000
            };
            Some(
                TraceShredLatency {
                    trace_region: trace_shred.region,
                    trace_seq_num: trace_shred.seq_num as i64,
                    elapsed_micros: #[verifier::truncate]
                    (micros as i64),
                },
            )
        },
        None => None,
    }
}

/// Whether a trace shred has this row.
pub open spec fn has_row(
    trace_shred: TraceShred,
    received_at: Timestamp,
    row: TraceShredLatency,
) -> bool {
    &&& trace_shred.created_at matches Some(created_at) && row.elapsed_micros == micros_between(
        created_at,
        received_at,
    ) as i64
    &&& row.trace_region == trace_shred.region
    &&& row.trace_seq_num == trace_shred.seq_num
}

/// The trace shreds among these that say when they were created, in order.
pub open spec fn dated(decoded: Seq<Option<TraceShred>>) -> Seq<TraceShred>
    decreases decoded.len(),
{
    if decoded.len() == 0 {
        Seq::empty()
    } else {
        let rest = dated(decoded.drop_last());
        match decoded.last() {
            Some(trace_shred) => if trace_shred.created_at is Some {
                rest.push(trace_shred)
            } else {
                rest
            },
            None => rest,
        }
    }
}

/// Makes the rows for the trace shreds of a batch, given what each of its payloads decodes to: one
/// for each payload that is a trace shred and says when it was created, in the order of the batch.
pub fn trace_shred_rows(decoded: Vec<Option<TraceShred>>, received_at: &Timestamp) -> (rows: Vec<
    TraceShredLatency,
>)
    ensures
        rows.len() == dated(decoded@).len(),
        rows.len() == decoded@.filter(
            |payload: Option<TraceShred>|
                payload is Some && payload.unwrap().created_at is Some,
        ).len(),
        forall|i: int|
            0 <= i < rows.len() ==> has_row(dated(decoded@)[i], *received_at, #[trigger] rows[i]),
{
    let ghost all = decoded@;
    let mut rows: Vec<TraceShredLatency> = Vec::new();
    assert(all.take(0) =~= Seq::empty());
    for payload in iter: decoded
        invariant
            iter.seq() == all,
            rows.len() == dated(all.take(iter.index() as int)).len(),
            forall|i: int|
                0 <= i < rows.len() ==> has_row(
                    dated(all.take(iter.index() as int))[i],
                    *received_at,
                    #[trigger] rows[i],
                ),
    {
        proof {
            let k = iter.index() as int;
            assert(all.take(k + 1).drop_last() =~= all.take(k));
            assert(all.take(k + 1).last() == all[k]);
        }
        if let Some(trace_shred) = payload {
            if let Some(row) = trace_shred_latency(trace_shred, received_at) {
                rows.push(row);
            }
        }
    }
    assert(all.take(all.len() as int) =~= all);
    proof {
        every_dated_trace_shred_counts(all);
    }
    rows
}

/// A latency is never negative, and a shred that is received later has no smaller one, as long
/// as latencies fit into the integers that the metrics service takes (292 thousand years).
pub proof fn latency_grows_with_reception(
    created_at: Timestamp,
    received_at: Timestamp,
    received_later: Timestamp,
)
    requires
        received_at.spec_nanos() <= received_later.spec_nanos(),
        micros_between(created_at, received_later) <= i64::MAX,
    ensures
        0 <= micros_between(created_at, received_at) as i64,
        micros_between(created_at, received_at) as i64 <= micros_between(
            created_at,
            received_later,
        ) as i64,
{
}

/// Every payload that is a trace shred and says when it was created has its row, in the order of
/// the batch, and no other payload has one.
pub proof fn every_dated_trace_shred_counts(decoded: Seq<Option<TraceShred>>)
    ensures
        dated(decoded) == decoded.filter(
            |payload: Option<TraceShred>|
                payload is Some && payload.unwrap().created_at is Some,
        ).map_values(|payload: Option<TraceShred>| payload.unwrap()),
    decreases decoded.len(),
{
    reveal(Seq::filter);
    let kept = decoded.filter(
        |payload: Option<TraceShred>| payload is Some && payload.unwrap().created_at is Some,
    );
    if decoded.len() > 0 {
        every_dated_trace_shred_counts(decoded.drop_last());
        let rest = decoded.drop_last().filter(
            |payload: Option<TraceShred>|
                payload is Some && payload.unwrap().created_at is Some,
        );
        if kept != rest {
            assert(kept == rest.push(decoded.last()));
        }
    }
    assert(dated(decoded) =~= kept.map_values(|payload: Option<TraceShred>| payload.unwrap()));
}

/// The row of a trace shred shows the time from its creation to its reception in microseconds,
/// rounded down, or zero where it was received before it was created; and its region and number.
pub proof fn rows_show_the_elapsed_time(
    trace_shred: TraceShred,
    received_at: Timestamp,
    row: TraceShredLatency,
)
    requires
        has_row(trace_shred, received_at, row),
    ensures
        trace_shred.created_at is Some,
        row.trace_region == trace_shred.region,
        row.trace_seq_num == trace_shred.seq_num,
        ({
            let created_at = trace_shred.created_at.unwrap();
            let ns = (received_at.seconds - created_at.seconds) * 1_000_000_000
                + received_at.nanos - created_at.nanos;
            &&& ns < 0 ==> row.elapsed_micros == 0
            &&& 0 <= ns < (i64::MAX + 1) * 1000 ==> row.elapsed_micros * 1000 <= ns
                < row.elapsed_micros * 1000 + 1000
        }),
{
    assert(0int as i64 == 0i64);
}

} // verus!
