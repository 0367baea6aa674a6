//! Ingestion: what is counted and how a batch is acknowledged.

use std::collections::HashMap;

use vstd::prelude::*;

use crate::metrics;
use crate::metrics::{Metric, Metrics, MetricsView};
use crate::number;
use crate::proto::IngestResponse;

verus! {

/// Why a batch was refused.
#[derive(Debug, Clone, Copy, PartialEq, Eq, Structural)]
pub enum RefusalCode {
    /// There is no room for it at the moment.
    ResourceExhausted,
}

/// The refusal of a batch: its gRPC status code and its message.
#[derive(Debug)]
pub struct Refusal {
    pub code: RefusalCode,
    pub message: String,
}

/// The metrics after a batch has been received.
pub open spec fn with_received(m: MetricsView, records: usize) -> MetricsView {
    let batch = metrics::with_count(m, Metric::BatchesReceived, 1);
    metrics::with_count(batch, Metric::RecordsReceived, records as u64)
}

/// Whether `r` is the acknowledgement of a number of records, without errors.
/// The number is cut to 64 bits with a sign.
pub open spec fn acknowledges(r: IngestResponse, records: usize) -> bool {
    &&& r.accepted_count == number::low_i64(records as nat)
    &&& r.errors@ == Map::<i32, String>::empty()
}

fn accepted(records: usize) -> (r: IngestResponse)
    ensures
        acknowledges(r, records),
{
    IngestResponse { accepted_count: number::cut_i64(records as u128), errors: HashMap::new() }
}

/// Counts a batch that has been received.
pub fn count_received(m: &mut Metrics, records: usize)
    ensures
        final(m)@ == with_received(old(m)@, records),
{
    m.batches_received.inc();
    m.records_received.inc_by(records as u64);
}

/// What happens with a batch that has been received in a unary call.
pub enum IngestAction {
    /// It is acknowledged at once: there is nothing in it.
    Respond(IngestResponse),
    /// It is submitted to the pipeline.
    Submit,
}

/// Receives a batch in a unary call. An empty batch is acknowledged without being
/// submitted.
pub fn begin_ingest(m: &mut Metrics, records: usize) -> (r: IngestAction)
    ensures
        final(m)@ == with_received(old(m)@, records),
        if records == 0 {
            r matches IngestAction::Respond(x) && acknowledges(x, 0)
        } else {
            r is Submit
        },
{
    count_received(m, records);
    if records == 0 {
        IngestAction::Respond(accepted(0))
    } else {
        IngestAction::Submit
    }
}

/// The answer to a batch that has been submitted: all of its records are
/// acknowledged if the pipeline has taken it, and it is refused if not.
pub fn finish_ingest(records: usize, taken: bool) -> (r: Result<IngestResponse, Refusal>)
    ensures
        match r {
            Ok(x) => taken && acknowledges(x, records),
            Err(e) => !taken && e.code == RefusalCode::ResourceExhausted && e.message@
                == "pipeline buffer full"@,
        },
{
    if taken {
        Ok(accepted(records))
    } else {
        Err(
            Refusal {
                code: RefusalCode::ResourceExhausted,
                message: "pipeline buffer full".to_owned(),
            },
        )
    }
}

// ---------------------------------------------------------------------------
// Streams
// ---------------------------------------------------------------------------

/// What happens on a stream of batches.
#[derive(Debug, Clone, Copy, PartialEq, Eq, Structural)]
pub enum StreamEvent {
    /// A batch of so many records has been received.
    Batch { records: usize },
    /// Receiving has failed.
    ReceiveError,
    /// The caller has sent its last batch.
    End,
    /// The caller takes no more answers.
    AnswerRefused,
}

/// What is done on a stream of batches.
#[derive(Debug, Clone, Copy, PartialEq, Eq, Structural)]
pub enum StreamAction {
    /// The batch is submitted, and the answer sent, whatever the batch holds.
    Submit,
    /// The stream is closed.
    Close,
}

/// One more stream is open.
pub fn open_stream(m: &mut Metrics)
    ensures
        final(m)@ == metrics::with_level(
            old(m)@,
            Metric::ActiveStreams,
            metrics::up(old(m)@.active_streams),
        ),
{
    m.active_streams.inc();
}

/// The metrics after a stream has been closed.
pub open spec fn with_closed(m: MetricsView) -> MetricsView {
    metrics::with_level(m, Metric::ActiveStreams, metrics::down(m.active_streams))
}

/// The next action on a stream. A failure while receiving is counted; it, the end
/// of the stream and a caller that takes no more answers close the stream.
pub fn stream_step(m: &mut Metrics, event: StreamEvent) -> (r: StreamAction)
    ensures
        match event {
            StreamEvent::Batch { records } => {
                &&& r == StreamAction::Submit
                &&& final(m)@ == with_received(old(m)@, records)
            },
            StreamEvent::ReceiveError => {
                &&& r == StreamAction::Close
                &&& final(m)@ == with_closed(
                    metrics::with_count(old(m)@, Metric::GrpcErrors, 1),
                )
            },
            _ => {
                &&& r == StreamAction::Close
                &&& final(m)@ == with_closed(old(m)@)
            },
        },
{
    match event {
        StreamEvent::Batch { records } => {
            count_received(m, records);
            StreamAction::Submit
        },
        StreamEvent::ReceiveError => {
            m.grpc_errors.inc();
            m.active_streams.dec();
            StreamAction::Close
        },
        StreamEvent::End | StreamEvent::AnswerRefused => {
            m.active_streams.dec();
            StreamAction::Close
        },
    }
}

/// The acknowledgement of a batch names every one of its records, up to the
/// largest number that it can name.
pub proof fn law_every_record_is_acknowledged(r: IngestResponse, records: usize)
    requires
        acknowledges(r, records),
        records <= i64::MAX,
    ensures
        r.accepted_count == records,
{
}

/// Closing a stream undoes what opening it did to the number of open streams.
pub proof fn law_closing_undoes_opening(open: i64)
    ensures
        metrics::down(metrics::up(open)) == open,
{
}

} // verus!
