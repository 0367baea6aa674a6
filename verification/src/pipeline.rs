//! The pipeline between ingestion and sinks: admission, batching and fan-out.

use std::collections::HashMap;

use vstd::prelude::*;

use crate::batching;
use crate::metrics;
use crate::metrics::{Metric, Metrics, MetricsView};
use crate::proto;
use crate::proto::{LogBatch, LogRecord, RecordView};

verus! {

// ---------------------------------------------------------------------------
// Admission
// ---------------------------------------------------------------------------

/// What came of an attempt to queue a batch.
#[derive(Debug, Clone, Copy, PartialEq, Eq, Structural)]
pub enum Queued {
    /// The batch is in the queue.
    Sent,
    /// The queue is full.
    Full,
    /// Nobody takes from the queue any more.
    Closed,
}

/// What is to be done with a batch after the attempt to queue it.
#[derive(Debug, Clone, Copy, PartialEq, Eq, Structural)]
pub enum Admission {
    /// It has been taken.
    Taken,
    /// It is to be written to the spillover file.
    Spill,
    /// It is refused.
    Refused,
}

/// The metrics after records have been dropped.
pub open spec fn with_dropped(m: MetricsView, records: usize) -> MetricsView {
    metrics::with_count(m, Metric::RecordsDropped, records as u64)
}

/// Decides what becomes of a batch after the attempt to queue it. A batch for
/// which there is no room is spilled where there is a spillover file, and
/// otherwise dropped.
pub fn settle_queue(m: &mut Metrics, queued: Queued, records: usize, spillover: bool) -> (r:
    Admission)
    ensures
        r == match queued {
            Queued::Sent => Admission::Taken,
            Queued::Full => if spillover {
                Admission::Spill
            } else {
                Admission::Refused
            },
            Queued::Closed => Admission::Refused,
        },
        final(m)@ == if queued == Queued::Full && !spillover {
            with_dropped(old(m)@, records)
        } else {
            old(m)@
        },
{
    match queued {
        Queued::Sent => Admission::Taken,
        Queued::Full => {
            if spillover {
                Admission::Spill
            } else {
                m.records_dropped.inc_by(records as u64);
                Admission::Refused
            }
        },
        Queued::Closed => Admission::Refused,
    }
}

/// Decides what becomes of a batch after the attempt to spill it: it is taken if
/// it has been written, and dropped if not.
pub fn settle_spill(m: &mut Metrics, written: bool, records: usize) -> (taken: bool)
    ensures
        taken == written,
        final(m)@ == if written {
            old(m)@
        } else {
            with_dropped(old(m)@, records)
        },
{
    if !written {
        m.records_dropped.inc_by(records as u64);
    }
    written
}

// ---------------------------------------------------------------------------
// Batching
// ---------------------------------------------------------------------------

/// What each batch of a row holds.
pub open spec fn batches_view(s: Seq<LogBatch>) -> Seq<Seq<RecordView>> {
    s.map_values(|b: LogBatch| proto::records_view(b.records@))
}

/// Whether no batch of a row carries metadata.
pub open spec fn without_metadata(s: Seq<LogBatch>) -> bool {
    forall|i: int|
        0 <= i < s.len() ==> (#[trigger] s[i]).metadata@ == Map::<String, String>::empty()
}

/// A worker of the pipeline: it gathers records and passes them on in batches.
pub struct Worker {
    batch_size: usize,
    pending: Vec<LogRecord>,
    received: Ghost<Seq<RecordView>>,
    delivered: Ghost<Seq<RecordView>>,
}

/// What happens to a worker.
pub enum WorkerEvent {
    /// A batch has come out of the queue.
    Batch(LogBatch),
    /// The flush interval is over.
    Tick,
    /// The queue is closed and empty.
    Closed,
}

impl Worker {
    /// The largest number of records of a batch; zero stands for no limit.
    pub closed spec fn limit(&self) -> usize {
        self.batch_size
    }

    /// The records that wait to be passed on.
    pub closed spec fn waiting(&self) -> Seq<RecordView> {
        proto::records_view(self.pending@)
    }

    /// All records that have come in.
    pub closed spec fn received(&self) -> Seq<RecordView> {
        self.received@
    }

    /// All records that have been passed on.
    pub closed spec fn delivered(&self) -> Seq<RecordView> {
        self.delivered@
    }

    /// Every record that has come in has been passed on or waits, once and in its
    /// order; and a full batch does not wait.
    pub open spec fn wf(&self) -> bool {
        &&& self.received() == self.delivered() + self.waiting()
        &&& self.waiting().len() > 0 ==> self.waiting().len() < self.limit()
    }

    /// A worker without records.
    pub fn new(batch_size: usize) -> (r: Self)
        ensures
            r.wf(),
            r.limit() == batch_size,
            r.received() == Seq::<RecordView>::empty(),
            r.delivered() == Seq::<RecordView>::empty(),
    {
        let r: Worker = Worker {
            batch_size,
            pending: Vec::new(),
            received: Ghost(Seq::empty()),
            delivered: Ghost(Seq::empty()),
        };
        assert(r.waiting() =~= Seq::empty());
        assert(r.delivered() + r.waiting() =~= r.received());
        r
    }

    /// Takes out all records that wait, in batches of limited size.
    fn take_pending(&mut self) -> (r: Vec<LogBatch>)
        requires
            old(self).received() == old(self).delivered() + old(self).waiting(),
        ensures
            final(self).wf(),
            final(self).limit() == old(self).limit(),
            final(self).received() == old(self).received(),
            final(self).delivered() == old(self).received(),
            batches_view(r@) == batching::chunks(old(self).waiting(), old(self).limit() as nat),
            without_metadata(r@),
    {
        let mut rest: Vec<LogRecord> = Vec::new();
        rest.append(&mut self.pending);
        let size: usize = self.batch_size;
        let ghost all = proto::records_view(rest@);
        let mut r: Vec<LogBatch> = Vec::new();
        assert(rest@ =~= old(self).pending@);
        assert(batches_view(r@) + batching::chunks(all, size as nat) =~= batching::chunks(
            all,
            size as nat,
        ));
        while size > 0 && rest.len() > size
            invariant
                without_metadata(r@),
                batches_view(r@) + batching::chunks(proto::records_view(rest@), size as nat)
                    == batching::chunks(all, size as nat),
            decreases rest@.len(),
        {
            let ghost before = batches_view(r@);
            let ghost whole = proto::records_view(rest@);
            let tail: Vec<LogRecord> = rest.split_off(size);
            proof {
                assert(proto::records_view(rest@) =~= whole.take(size as int));
                assert(proto::records_view(tail@) =~= whole.skip(size as int));
            }
            let part: LogBatch = LogBatch { records: rest, metadata: HashMap::new() };
            r.push(part);
            rest = tail;
            proof {
                assert(batches_view(r@) =~= before.push(whole.take(size as int)));
                assert(batches_view(r@) + batching::chunks(whole.skip(size as int), size as nat)
                    =~= before + batching::chunks(whole, size as nat));
            }
        }
        let ghost before = batches_view(r@);
        let ghost last = proto::records_view(rest@);
        if rest.len() > 0 {
            r.push(LogBatch { records: rest, metadata: HashMap::new() });
            assert(batches_view(r@) =~= before.push(last));
            assert(batches_view(r@) =~= before + batching::chunks(last, size as nat));
        } else {
            assert(before + batching::chunks(last, size as nat) =~= before);
        }
        proof {
            self.delivered@ = self.received@;
        }
        assert(self.waiting() =~= Seq::empty());
        assert(self.delivered() + self.waiting() =~= self.received());
        r
    }

    /// The batches to be passed on after an event. Records gather until there are
    /// as many as the limit, or until the flush interval is over or the queue is
    /// closed; then all of them are passed on, without the metadata that came with
    /// them.
    pub fn step(&mut self, event: WorkerEvent) -> (r: Vec<LogBatch>)
        requires
            old(self).wf(),
        ensures
            final(self).wf(),
            without_metadata(r@),
            final(self).limit() == old(self).limit(),
            final(self).received() == old(self).received() + match event {
                WorkerEvent::Batch(b) => proto::records_view(b.records@),
                _ => Seq::<RecordView>::empty(),
            },
            ({
                let waiting = old(self).waiting() + match event {
                    WorkerEvent::Batch(b) => proto::records_view(b.records@),
                    _ => Seq::<RecordView>::empty(),
                };
                if event is Batch && waiting.len() < old(self).limit() {
                    &&& r@.len() == 0
                    &&& final(self).delivered() == old(self).delivered()
                } else {
                    &&& batches_view(r@) == batching::chunks(waiting, old(self).limit() as nat)
                    &&& final(self).delivered() == final(self).received()
                }
            }),
    {
        let ghost none = Seq::<RecordView>::empty();
        match event {
            WorkerEvent::Batch(batch) => {
                let mut records: Vec<LogRecord> = batch.records;
                proof {
                    self.received@ = self.received@ + proto::records_view(records@);
                }
                let ghost added = proto::records_view(records@);
                self.pending.append(&mut records);
                assert(self.waiting() =~= old(self).waiting() + added);
                assert(self.delivered() + self.waiting() =~= self.received());
                if self.pending.len() >= self.batch_size {
                    return self.take_pending();
                }
                Vec::new()
            },
            WorkerEvent::Tick => {
                assert(old(self).waiting() + none =~= old(self).waiting());
                assert(old(self).received() + none =~= old(self).received());
                self.take_pending()
            },
            WorkerEvent::Closed => {
                assert(old(self).waiting() + none =~= old(self).waiting());
                assert(old(self).received() + none =~= old(self).received());
                self.take_pending()
            },
        }
    }
}

/// No batch that a worker passes on is empty, and none is larger than its limit.
pub proof fn law_batches_are_limited(waiting: Seq<RecordView>, limit: nat)
    ensures
        forall|i: int|
            0 <= i < batching::chunks(waiting, limit).len() ==> 0 < (#[trigger] batching::chunks(
                waiting,
                limit,
            )[i]).len() && (limit > 0 ==> batching::chunks(waiting, limit)[i].len() <= limit),
        batching::chunks(waiting, limit).flatten() == waiting,
{
    batching::law_chunks_are_limited(waiting, limit);
    batching::law_chunks_hold_the_row(waiting, limit);
}

// ---------------------------------------------------------------------------
// Fan-out
// ---------------------------------------------------------------------------

/// A copy of a batch for each sink.
pub fn fan_out(batch: &LogBatch, sinks: usize) -> (r: Vec<LogBatch>)
    ensures
        r@.len() == sinks,
        forall|i: int|
            0 <= i < sinks ==> proto::records_view((#[trigger] r@[i]).records@)
                == proto::records_view(batch.records@),
        without_metadata(r@),
{
    let mut r: Vec<LogBatch> = Vec::new();
    while r.len() < sinks
        invariant
            r@.len() <= sinks,
            forall|i: int|
                0 <= i < r@.len() ==> proto::records_view((#[trigger] r@[i]).records@)
                    == proto::records_view(batch.records@),
            without_metadata(r@),
        decreases sinks - r@.len(),
    {
        r.push(
            LogBatch { records: proto::copy_records(&batch.records), metadata: HashMap::new() },
        );
    }
    r
}

/// Counts a delivery to the sinks.
pub fn count_flush(m: &mut Metrics)
    ensures
        final(m)@ == metrics::with_count(old(m)@, Metric::PipelineFlushes, 1),
{
    m.pipeline_flushes.inc();
}

/// The metrics after the delivery of a batch to a sink.
pub open spec fn with_delivery(
    m: MetricsView,
    sink: Seq<char>,
    records: usize,
    delivered: bool,
) -> MetricsView {
    if delivered {
        metrics::with_count_for(m, Metric::SinkRecordsSent, sink, records as u64)
    } else {
        metrics::with_count_for(m, Metric::SinkErrors, sink, 1)
    }
}

/// Counts the delivery of a batch to a sink: its records if it went well, and an
/// error if not.
pub fn count_delivery(m: &mut Metrics, sink: &str, records: usize, delivered: bool)
    ensures
        final(m)@ == with_delivery(old(m)@, sink@, records, delivered),
{
    if delivered {
        m.sink_records_sent.inc_by(sink, records as u64);
    } else {
        m.sink_errors.inc_by(sink, 1);
    }
}

/// Counts a repeated attempt of a sink.
pub fn count_retry(m: &mut Metrics, sink: &str)
    ensures
        final(m)@ == metrics::with_count_for(old(m)@, Metric::SinkRetries, sink@, 1),
{
    m.sink_retries.inc_by(sink, 1);
}

} // verus!
