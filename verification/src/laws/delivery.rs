//! Laws of delivery: targets, attempts, batches, messages and metrics.

use vstd::prelude::*;

use crate::batching;
use crate::client;
use crate::client::AttrValue;
use crate::config::{ElasticView, ForwardView, SinkView};
use crate::json;
use crate::laws::words;
use crate::metrics;
use crate::metrics::{Metrics, MetricsView, SinkCounters};
use crate::number;
use crate::pipeline;
use crate::proto;
use crate::proto::any_value;
use crate::proto::{
    AnyValue, AnyView, IngestResponse, KeyValue, LogBatch, LogRecord, Resource, ResourceView,
    Severity,
};
use crate::server;
use crate::sink;
use crate::sink::forward;
use crate::sink::retry;
use crate::sink::{SinkError, SinkFault};
use crate::text;

verus! {

// ---------------------------------------------------------------------------
// Targets
// ---------------------------------------------------------------------------

/// Whether a colon and two slashes stand somewhere in a text.
pub open spec fn has_scheme(s: Seq<char>) -> bool {
    exists|i: int|
        0 <= i && i + 2 < s.len() && #[trigger] s[i] == ':' && s[i + 1] == '/' && s[i + 2] == '/'
}

/// A target with `://` in it is its own URI, whatever its scheme is; any other
/// target is reached over plain HTTP. Making a URI of a URI changes nothing.
pub proof fn law_uri_of_a_target(target: Seq<char>, scheme: Seq<char>, host: Seq<char>)
    ensures
        has_scheme(target) ==> forward::uri_of(target) == target,
        !has_scheme(target) ==> forward::uri_of(target) == "http://"@ + target,
        forward::uri_of(scheme + "://"@ + host) == scheme + "://"@ + host,
        forward::uri_of("http://"@ + host) == "http://"@ + host,
        forward::uri_of(forward::uri_of(target)) == forward::uri_of(target),
        has_scheme(forward::uri_of(target)),
{
    lemma_scheme(target);
    reveal_strlit("://");
    reveal_strlit("http://");
    let a = scheme + "://"@ + host;
    lemma_scheme(a);
    let n = scheme.len() as int;
    assert(a[n] == ':' && a[n + 1] == '/' && a[n + 2] == '/');
    let b = "http://"@ + host;
    lemma_scheme(b);
    assert(b[4] == ':' && b[5] == '/' && b[6] == '/');
    let c = "http://"@ + target;
    lemma_scheme(c);
    assert(c[4] == ':' && c[5] == '/' && c[6] == '/');
}

proof fn lemma_scheme(s: Seq<char>)
    ensures
        text::occurs_in(s, "://"@) == has_scheme(s),
{
    reveal_strlit("://");
    let p = "://"@;
    if text::occurs_in(s, p) {
        let i = choose|i: int| text::stands_at(s, p, i);
        let t = s.subrange(i, i + 3);
        assert(t[0] == s[i] && t[1] == s[i + 1] && t[2] == s[i + 2]);
    }
    if has_scheme(s) {
        let i = choose|i: int|
            0 <= i && i + 2 < s.len() && #[trigger] s[i] == ':' && s[i + 1] == '/' && s[i + 2]
                == '/';
        assert(s.subrange(i, i + 3) =~= p);
        assert(text::stands_at(s, p, i));
    }
}

/// A sink is named by its engine and its position, so that two sinks of one kind at
/// different positions have different names; a forwarding sink has one name.
pub proof fn law_names_of_sinks(c: ElasticView, f: ForwardView, i: nat, j: nat)
    ensures
        sink::name_at(SinkView::Elasticsearch(c), i) == "elasticsearch-"@ + number::decimal(i),
        sink::name_at(SinkView::OpenSearch(c), i) == "opensearch-"@ + number::decimal(i),
        sink::name_at(SinkView::Watchtower(f), i) == "watchtower-forward"@,
        sink::name_at(SinkView::Elasticsearch(c), i) == sink::name_at(
            SinkView::Elasticsearch(c),
            j,
        ) ==> i == j,
{
    let p = "elasticsearch-"@;
    words::law_decimal_text(i);
    words::law_decimal_text(j);
    assert((p + number::decimal(i)).skip(p.len() as int) =~= number::decimal(i));
    assert((p + number::decimal(j)).skip(p.len() as int) =~= number::decimal(j));
}

/// The words for each error of a sink.
pub proof fn law_words_for_sink_errors(m: Seq<char>, e: SinkError)
    ensures
        sink::sink_fault_text(SinkFault::Network(m)) == "network error: "@ + m,
        sink::sink_fault_text(SinkFault::Serialization(m)) == "serialization error: "@ + m,
        sink::sink_fault_text(SinkFault::Rejected(m)) == "upstream rejected: "@ + m,
        match e {
            SinkError::Network(x) => e@ == SinkFault::Network(x@),
            SinkError::Serialization(x) => e@ == SinkFault::Serialization(x@),
            SinkError::Rejected(x) => e@ == SinkFault::Rejected(x@),
        },
{
}

// ---------------------------------------------------------------------------
// Attempts and batches
// ---------------------------------------------------------------------------

/// From the thirty-third retry on, the pause is the base pause times the largest
/// number of 32 bits.
pub proof fn law_pauses_are_limited(backoff: nat, attempt: nat)
    requires
        attempt > 32,
    ensures
        retry::pause(backoff, attempt) == backoff * 4_294_967_295,
{
}

/// Every piece of a row but the last is full.
pub proof fn law_pieces_are_full<T>(s: Seq<T>, size: nat, i: int)
    requires
        size > 0,
        0 <= i < batching::chunks(s, size).len() - 1,
    ensures
        batching::chunks(s, size)[i].len() == size,
    decreases s.len(),
{
    let tail = s.skip(size as int);
    if i > 0 {
        law_pieces_are_full(tail, size, i - 1);
        assert(batching::chunks(s, size)[i] == batching::chunks(tail, size)[i - 1]);
    }
}

// ---------------------------------------------------------------------------
// Messages
// ---------------------------------------------------------------------------

/// The view of an attribute value shows its kind and what it holds.
pub proof fn law_view_shows_the_value(v: AnyValue)
    ensures
        match v.value {
            None => v@ == AnyView::Absent,
            Some(any_value::Kind::StringValue(s)) => v@ == AnyView::Text(s@),
            Some(any_value::Kind::IntValue(n)) => v@ == AnyView::Int(n),
            Some(any_value::Kind::DoubleValue(d)) => v@ == AnyView::Double(
                d.bits,
                match d.number {
                    Some(n) => Some(json::number_text(n)),
                    None => None,
                },
            ),
            Some(any_value::Kind::BoolValue(b)) => v@ == AnyView::Bool(b),
            Some(any_value::Kind::BytesValue(b)) => v@ == AnyView::Bytes(b@),
            Some(any_value::Kind::ArrayValue(a)) => v@ matches AnyView::Array(x) && x.len()
                == a.values@.len() && forall|i: int|
                0 <= i < x.len() ==> #[trigger] x[i] == a.values@[i]@,
            Some(any_value::Kind::MapValue(m)) => v@ matches AnyView::Entries(x) && x.len()
                == m.entries@.len() && forall|i: int|
                0 <= i < x.len() ==> #[trigger] x[i] == m.entries@[i]@,
        },
{
    match v.value {
        Some(any_value::Kind::ArrayValue(a)) => {
            proto::lemma_values_view(a.values@);
        },
        Some(any_value::Kind::MapValue(m)) => {
            proto::lemma_entries_view(m.entries@);
        },
        _ => {},
    }
}

/// The views of a named value, a resource, a record and a row of records show every
/// part of them.
pub proof fn law_views_show_the_record(
    kv: KeyValue,
    x: Resource,
    r: LogRecord,
    records: Seq<LogRecord>,
)
    ensures
        kv@.0 == kv.key@,
        match kv.value {
            Some(v) => kv@.1 == Some(v@),
            None => kv@.1 is None,
        },
        x@.service_name == x.service_name@,
        x@.host_name == x.host_name@,
        x@.instance_id == x.instance_id@,
        x@.attributes.len() == x.attributes@.len(),
        forall|i: int|
            0 <= i < x.attributes@.len() ==> #[trigger] x@.attributes[i] == x.attributes@[i]@,
        r@.timestamp == r.timestamp,
        r@.severity == r.severity,
        r@.body == r.body@,
        r@.attributes.len() == r.attributes@.len(),
        forall|i: int|
            0 <= i < r.attributes@.len() ==> #[trigger] r@.attributes[i] == r.attributes@[i]@,
        match r.resource {
            Some(y) => r@.resource == Some(y@),
            None => r@.resource is None,
        },
        r@.trace_id == r.trace_id@,
        r@.span_id == r.span_id@,
        r@.schema_url == r.schema_url@,
        proto::records_view(records).len() == records.len(),
        forall|i: int|
            0 <= i < records.len() ==> #[trigger] proto::records_view(records)[i] == records[i]@,
{
    proto::lemma_entries_view(x.attributes@);
    proto::lemma_entries_view(r.attributes@);
}

/// The view of a row of batches shows the records of each.
pub proof fn law_view_shows_the_batches(s: Seq<LogBatch>)
    ensures
        pipeline::batches_view(s).len() == s.len(),
        forall|i: int|
            0 <= i < s.len() ==> #[trigger] pipeline::batches_view(s)[i] == proto::records_view(
                s[i].records@,
            ),
        pipeline::without_metadata(s) ==> forall|i: int|
            0 <= i < s.len() ==> (#[trigger] s[i]).metadata@ == Map::<String, String>::empty(),
{
}

/// The severities have the numbers of OpenTelemetry.
pub proof fn law_severity_numbers(s: Severity)
    ensures
        proto::severity_number(s) == match s {
            Severity::Unspecified => 0,
            Severity::Trace => 1,
            Severity::Debug => 5,
            Severity::Info => 9,
            Severity::Warn => 13,
            Severity::Error => 17,
            Severity::Fatal => 21i32,
        },
{
}

/// The record of a log call holds what the call was given, and the time of the
/// call; it has no trace, span or schema.
pub proof fn law_record_of_a_call(
    severity: Severity,
    body: Seq<char>,
    attributes: Seq<(Seq<char>, Option<AnyView>)>,
    resource: Option<ResourceView>,
    since_epoch: nat,
)
    requires
        since_epoch / 1_000_000_000 <= i64::MAX,
    ensures
        ({
            let r = client::record_of(severity, body, attributes, resource, since_epoch);
            &&& r.timestamp matches Some(ts) && ts.seconds * 1_000_000_000 + ts.nanos
                == since_epoch && 0 <= ts.nanos < 1_000_000_000
            &&& r.severity == proto::severity_number(severity)
            &&& r.body == body
            &&& r.attributes == attributes
            &&& r.resource == resource
            &&& r.trace_id.len() == 0 && r.span_id.len() == 0 && r.schema_url.len() == 0
        }),
{
    words::law_low_bits(since_epoch / 1_000_000_000);
}

// ---------------------------------------------------------------------------
// Metrics
// ---------------------------------------------------------------------------

/// Counters add up as long as they do not start over, and gauges go up and down by
/// one.
pub proof fn law_counters_add_up(a: u64, b: u64, n: i64)
    ensures
        a + b <= u64::MAX ==> metrics::wrapped(a, b) == a + b,
        a + b > u64::MAX ==> metrics::wrapped(a, b) == a + b - 0x1_0000_0000_0000_0000,
        n < i64::MAX ==> metrics::up(n) == n + 1,
        n > i64::MIN ==> metrics::down(n) == n - 1,
{
}

/// A received batch is counted once and with all its records; dropped records are
/// counted one by one; a delivery counts the records of the batch, or one error,
/// for its sink; a closed stream is one less. Nothing else changes.
pub proof fn law_what_is_counted(m: MetricsView, records: usize, name: Seq<char>)
    requires
        m.batches_received < u64::MAX,
        m.records_received + records <= u64::MAX,
        m.records_dropped + records <= u64::MAX,
        m.active_streams > i64::MIN,
    ensures
        server::with_received(m, records) == (MetricsView {
            batches_received: (m.batches_received + 1) as u64,
            records_received: (m.records_received + records) as u64,
            ..m
        }),
        pipeline::with_dropped(m, records) == (MetricsView {
            records_dropped: (m.records_dropped + records) as u64,
            ..m
        }),
        pipeline::with_delivery(m, name, records, true) == (MetricsView {
            sink_records_sent: metrics::counted(m.sink_records_sent, name, records as u64),
            ..m
        }),
        pipeline::with_delivery(m, name, records, false) == (MetricsView {
            sink_errors: metrics::counted(m.sink_errors, name, 1),
            ..m
        }),
        server::with_closed(m) == (MetricsView {
            active_streams: (m.active_streams - 1) as i64,
            ..m
        }),
{
    law_counters_add_up(m.batches_received, 1, m.active_streams);
    law_counters_add_up(m.records_received, records as u64, 0);
    law_counters_add_up(m.records_dropped, records as u64, 0);
}

/// Each metric is updated by itself: a counter by what is added to it, a gauge by
/// its new level, and a counter for each sink by what is added for that sink.
pub proof fn law_what_an_update_changes(m: MetricsView, n: u64, level: i64, name: Seq<char>)
    ensures
        metrics::with_count(m, metrics::Metric::RecordsReceived, n) == (MetricsView {
            records_received: metrics::wrapped(m.records_received, n),
            ..m
        }),
        metrics::with_count(m, metrics::Metric::BatchesReceived, n) == (MetricsView {
            batches_received: metrics::wrapped(m.batches_received, n),
            ..m
        }),
        metrics::with_count(m, metrics::Metric::RecordsDropped, n) == (MetricsView {
            records_dropped: metrics::wrapped(m.records_dropped, n),
            ..m
        }),
        metrics::with_count(m, metrics::Metric::PipelineFlushes, n) == (MetricsView {
            pipeline_flushes: metrics::wrapped(m.pipeline_flushes, n),
            ..m
        }),
        metrics::with_count(m, metrics::Metric::GrpcErrors, n) == (MetricsView {
            grpc_errors: metrics::wrapped(m.grpc_errors, n),
            ..m
        }),
        metrics::with_level(m, metrics::Metric::ActiveStreams, level) == (MetricsView {
            active_streams: level,
            ..m
        }),
        metrics::with_level(m, metrics::Metric::PipelineBufferUsed, level) == (MetricsView {
            pipeline_buffer_used: level,
            ..m
        }),
        metrics::with_count_for(m, metrics::Metric::SinkRecordsSent, name, n) == (MetricsView {
            sink_records_sent: metrics::counted(m.sink_records_sent, name, n),
            ..m
        }),
        metrics::with_count_for(m, metrics::Metric::SinkErrors, name, n) == (MetricsView {
            sink_errors: metrics::counted(m.sink_errors, name, n),
            ..m
        }),
        metrics::with_count_for(m, metrics::Metric::SinkRetries, name, n) == (MetricsView {
            sink_retries: metrics::counted(m.sink_retries, name, n),
            ..m
        }),
{
}

/// A view shows every metric, and every sink with its count.
pub proof fn law_view_shows_the_metrics(m: Metrics, s: SinkCounters)
    ensures
        m@.records_received == m.records_received.count,
        m@.batches_received == m.batches_received.count,
        m@.records_dropped == m.records_dropped.count,
        m@.pipeline_buffer_used == m.pipeline_buffer_used.level,
        m@.pipeline_flushes == m.pipeline_flushes.count,
        m@.sink_records_sent == m.sink_records_sent@,
        m@.sink_errors == m.sink_errors@,
        m@.sink_retries == m.sink_retries@,
        m@.active_streams == m.active_streams.level,
        m@.grpc_errors == m.grpc_errors.count,
        s@.len() == s.entries@.len(),
        forall|i: int|
            0 <= i < s.entries@.len() ==> #[trigger] s@[i] == (s.entries@[i].0@, s.entries@[i].1),
{
}

/// The text of a metric is made of its name, its description and its value, and a
/// value up to two to the power of 53 is written out as it is.
pub proof fn law_text_of_a_metric(
    name: Seq<char>,
    help: Seq<char>,
    kind: Seq<char>,
    value: Seq<char>,
    n: int,
)
    ensures
        metrics::family(name, help, kind, value) == "# HELP "@ + name + " "@ + help + "\n# TYPE "@
            + name + " "@ + kind + "\n"@ + name + " "@ + value + "\n"@,
        -9_007_199_254_740_992 <= n <= 9_007_199_254_740_992 ==> metrics::value_text(n)
            == number::signed_decimal(n),
        metrics::no_metrics().sink_errors.len() == 0,
        metrics::no_metrics().sink_records_sent.len() == 0,
        metrics::no_metrics().sink_retries.len() == 0,
{
}

/// Escaping a value of a label puts a backslash before each backslash and each
/// quotation mark, writes `\n` for a line end, and leaves all other characters.
pub proof fn law_escaping(s: Seq<char>, c: char)
    ensures
        metrics::escaped(Seq::empty()).len() == 0,
        metrics::escaped(s.push(c)) == metrics::escaped(s) + if c == '\\' {
            seq!['\\', '\\']
        } else if c == '"' {
            seq!['\\', '"']
        } else if c == '\n' {
            seq!['\\', 'n']
        } else {
            seq![c]
        },
{
    assert(s.push(c).drop_last() =~= s);
}

/// An acknowledgement names no errors, and what a row of JSON values holds is what
/// each of them holds.
pub proof fn law_acknowledgements_and_rows(
    r: IngestResponse,
    records: usize,
    s: Seq<serde_json::Value>,
    a: AttrValue,
)
    ensures
        server::acknowledges(r, records) ==> r.errors@ == Map::<i32, String>::empty(),
        json::items_of(s).len() == s.len(),
        forall|i: int| 0 <= i < s.len() ==> #[trigger] json::items_of(s)[i] == json::json_of(s[i]),
        a@ == a.0@,
{
}

/// What is counted for a sink is what stands with its name, and nothing before it
/// has been counted.
pub proof fn law_count_of_a_sink(name: Seq<char>, n: u64, rest: Seq<(Seq<char>, u64)>)
    ensures
        metrics::count_for(Seq::empty(), name) == 0,
        metrics::count_for(seq![(name, n)] + rest, name) == n,
        metrics::counted(Seq::empty(), name, n) == seq![(name, n)],
{
}

/// The text of every metric stands in the text of all metrics.
pub proof fn law_every_metric_is_published(m: MetricsView, k: metrics::Metric)
    ensures
        text::occurs_in(metrics::exposition(m), metrics::text_of(m, k)),
{
    let t0 = metrics::text_of(m, metrics::Metric::ActiveStreams);
    let t1 = metrics::text_of(m, metrics::Metric::BatchesReceived);
    let t2 = metrics::text_of(m, metrics::Metric::GrpcErrors);
    let t3 = metrics::text_of(m, metrics::Metric::PipelineBufferUsed);
    let t4 = metrics::text_of(m, metrics::Metric::PipelineFlushes);
    let t5 = metrics::text_of(m, metrics::Metric::RecordsDropped);
    let t6 = metrics::text_of(m, metrics::Metric::RecordsReceived);
    let t7 = metrics::text_of(m, metrics::Metric::SinkErrors);
    let t8 = metrics::text_of(m, metrics::Metric::SinkRecordsSent);
    let t9 = metrics::text_of(m, metrics::Metric::SinkRetries);
    let t = seq![t0, t1, t2, t3, t4, t5, t6, t7, t8, t9];
    reveal_with_fuel(joined, 11);
    assert(joined(t, 1) =~= t0);
    assert(joined(t, 10) == metrics::exposition(m));
    let i: int = match k {
        metrics::Metric::ActiveStreams => 0,
        metrics::Metric::BatchesReceived => 1,
        metrics::Metric::GrpcErrors => 2,
        metrics::Metric::PipelineBufferUsed => 3,
        metrics::Metric::PipelineFlushes => 4,
        metrics::Metric::RecordsDropped => 5,
        metrics::Metric::RecordsReceived => 6,
        metrics::Metric::SinkErrors => 7,
        metrics::Metric::SinkRecordsSent => 8,
        metrics::Metric::SinkRetries => 9,
    };
    assert(t[i] == metrics::text_of(m, k));
    lemma_part_occurs(t, 10, i);
}

/// The first `n` texts of a row, one behind the other.
pub open spec fn joined(t: Seq<Seq<char>>, n: nat) -> Seq<char>
    decreases n,
{
    if n == 0 {
        seq![]
    } else {
        joined(t, (n - 1) as nat) + t[n - 1]
    }
}

proof fn lemma_part_occurs(t: Seq<Seq<char>>, n: nat, i: int)
    requires
        0 <= i < n <= t.len(),
    ensures
        text::occurs_in(joined(t, n), t[i]),
    decreases n,
{
    let before = joined(t, (n - 1) as nat);
    let s = joined(t, n);
    if i == n - 1 {
        assert(s.subrange(before.len() as int, before.len() + t[i].len() as int) =~= t[i]);
        assert(text::stands_at(s, t[i], before.len() as int));
    } else {
        lemma_part_occurs(t, (n - 1) as nat, i);
        let at = choose|at: int| text::stands_at(before, t[i], at);
        assert(s.subrange(at, at + t[i].len()) =~= before.subrange(at, at + t[i].len()));
        assert(text::stands_at(s, t[i], at));
    }
}

} // verus!
