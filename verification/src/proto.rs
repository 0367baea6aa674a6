//! The messages of the log protocol.

pub mod any_value;

use std::collections::HashMap;

use vstd::prelude::*;

use crate::json;

verus! {

/// A point in time: whole seconds since 1970-01-01 UTC, and nanoseconds.
#[derive(Debug, Clone, Copy, PartialEq, Eq, Structural)]
pub struct Timestamp {
    pub seconds: i64,
    pub nanos: i32,
}

/// A 64-bit floating-point number: its bit pattern, and the JSON number that
/// stands for it. An infinity and a NaN have no JSON number.
#[derive(Debug)]
pub struct Double {
    pub bits: u64,
    pub number: Option<serde_json::Number>,
}

/// An attribute value; without an alternative it is the absent value.
#[derive(Debug)]
pub struct AnyValue {
    pub value: Option<any_value::Kind>,
}

/// A list of values.
#[derive(Debug)]
pub struct ArrayValue {
    pub values: Vec<AnyValue>,
}

/// A list of named values.
#[derive(Debug)]
pub struct MapValue {
    pub entries: Vec<KeyValue>,
}

/// A named value.
#[derive(Debug)]
pub struct KeyValue {
    pub key: String,
    pub value: Option<AnyValue>,
}

/// Who produced a log record.
#[derive(Debug)]
pub struct Resource {
    pub service_name: String,
    pub host_name: String,
    pub instance_id: String,
    pub attributes: Vec<KeyValue>,
}

/// One log record.
#[derive(Debug)]
pub struct LogRecord {
    pub timestamp: Option<Timestamp>,
    pub severity: i32,
    pub body: String,
    pub attributes: Vec<KeyValue>,
    pub resource: Option<Resource>,
    pub trace_id: Vec<u8>,
    pub span_id: Vec<u8>,
    pub schema_url: String,
}

/// A batch of log records.
#[derive(Debug)]
pub struct LogBatch {
    pub records: Vec<LogRecord>,
    pub metadata: HashMap<String, String>,
}

/// The answer to a batch: how many records were taken, and what was wrong with
/// the records at the given positions.
#[derive(Debug)]
pub struct IngestResponse {
    pub accepted_count: i64,
    pub errors: HashMap<i32, String>,
}

/// How severe a record is. The numbers are those of OpenTelemetry.
#[derive(Debug, Clone, Copy, PartialEq, Eq, Structural)]
pub enum Severity {
    Unspecified,
    Trace,
    Debug,
    Info,
    Warn,
    Error,
    Fatal,
}

/// The number of a severity.
pub open spec fn severity_number(s: Severity) -> i32 {
    match s {
        Severity::Unspecified => 0,
        Severity::Trace => 1,
        Severity::Debug => 5,
        Severity::Info => 9,
        Severity::Warn => 13,
        Severity::Error => 17,
        Severity::Fatal => 21,
    }
}

impl Severity {
    /// The number of the severity.
    pub fn number(self) -> (n: i32)
        ensures
            n == severity_number(self),
    {
        match self {
            Severity::Unspecified => 0,
            Severity::Trace => 1,
            Severity::Debug => 5,
            Severity::Info => 9,
            Severity::Warn => 13,
            Severity::Error => 17,
            Severity::Fatal => 21,
        }
    }
}

// ---------------------------------------------------------------------------
// What the messages hold
// ---------------------------------------------------------------------------

/// What an attribute value holds.
pub ghost enum AnyView {
    Absent,
    Text(Seq<char>),
    Int(i64),
    Double(u64, Option<Seq<char>>),
    Bool(bool),
    Bytes(Seq<u8>),
    Array(Seq<AnyView>),
    Entries(Seq<(Seq<char>, Option<AnyView>)>),
}

/// The bits of a double and the text of its JSON number.
pub open spec fn double_view(d: Double) -> AnyView {
    AnyView::Double(
        d.bits,
        match d.number {
            Some(n) => Some(json::number_text(n)),
            None => None,
        },
    )
}

/// What a value holds.
pub open spec fn any_view(v: AnyValue) -> AnyView
    decreases v,
{
    match v.value {
        None => AnyView::Absent,
        Some(any_value::Kind::StringValue(s)) => AnyView::Text(s@),
        Some(any_value::Kind::IntValue(n)) => AnyView::Int(n),
        Some(any_value::Kind::DoubleValue(d)) => double_view(d),
        Some(any_value::Kind::BoolValue(b)) => AnyView::Bool(b),
        Some(any_value::Kind::BytesValue(b)) => AnyView::Bytes(b@),
        Some(any_value::Kind::ArrayValue(a)) => AnyView::Array(values_view(a.values@)),
        Some(any_value::Kind::MapValue(m)) => AnyView::Entries(entries_view(m.entries@)),
    }
}

/// What a list of values holds.
pub open spec fn values_view(s: Seq<AnyValue>) -> Seq<AnyView>
    decreases s,
{
    if s.len() == 0 {
        seq![]
    } else {
        values_view(s.drop_last()).push(any_view(s.last()))
    }
}

/// What a list of named values holds.
pub open spec fn entries_view(s: Seq<KeyValue>) -> Seq<(Seq<char>, Option<AnyView>)>
    decreases s,
{
    if s.len() == 0 {
        seq![]
    } else {
        entries_view(s.drop_last()).push(entry_view(s.last()))
    }
}

/// What a named value holds.
pub open spec fn entry_view(kv: KeyValue) -> (Seq<char>, Option<AnyView>)
    decreases kv,
{
    (
        kv.key@,
        match kv.value {
            Some(v) => Some(any_view(v)),
            None => None,
        },
    )
}

/// What a resource holds.
pub ghost struct ResourceView {
    pub service_name: Seq<char>,
    pub host_name: Seq<char>,
    pub instance_id: Seq<char>,
    pub attributes: Seq<(Seq<char>, Option<AnyView>)>,
}

/// What a log record holds.
pub ghost struct RecordView {
    pub timestamp: Option<Timestamp>,
    pub severity: i32,
    pub body: Seq<char>,
    pub attributes: Seq<(Seq<char>, Option<AnyView>)>,
    pub resource: Option<ResourceView>,
    pub trace_id: Seq<u8>,
    pub span_id: Seq<u8>,
    pub schema_url: Seq<char>,
}

impl View for AnyValue {
    type V = AnyView;

    open spec fn view(&self) -> AnyView {
        any_view(*self)
    }
}

impl View for KeyValue {
    type V = (Seq<char>, Option<AnyView>);

    open spec fn view(&self) -> (Seq<char>, Option<AnyView>) {
        entry_view(*self)
    }
}

impl View for Resource {
    type V = ResourceView;

    open spec fn view(&self) -> ResourceView {
        ResourceView {
            service_name: self.service_name@,
            host_name: self.host_name@,
            instance_id: self.instance_id@,
            attributes: entries_view(self.attributes@),
        }
    }
}

/// What an optional resource holds.
pub open spec fn resource_view(r: Option<Resource>) -> Option<ResourceView> {
    match r {
        Some(x) => Some(x@),
        None => None,
    }
}

impl View for LogRecord {
    type V = RecordView;

    open spec fn view(&self) -> RecordView {
        RecordView {
            timestamp: self.timestamp,
            severity: self.severity,
            body: self.body@,
            attributes: entries_view(self.attributes@),
            resource: resource_view(self.resource),
            trace_id: self.trace_id@,
            span_id: self.span_id@,
            schema_url: self.schema_url@,
        }
    }
}

/// What a row of log records holds.
pub open spec fn records_view(s: Seq<LogRecord>) -> Seq<RecordView> {
    s.map_values(|r: LogRecord| r@)
}

pub proof fn lemma_values_view(s: Seq<AnyValue>)
    ensures
        values_view(s).len() == s.len(),
        forall|i: int| 0 <= i < s.len() ==> #[trigger] values_view(s)[i] == any_view(s[i]),
    decreases s.len(),
{
    if s.len() > 0 {
        lemma_values_view(s.drop_last());
    }
}

pub proof fn lemma_entries_view(s: Seq<KeyValue>)
    ensures
        entries_view(s).len() == s.len(),
        forall|i: int| 0 <= i < s.len() ==> #[trigger] entries_view(s)[i] == entry_view(s[i]),
    decreases s.len(),
{
    if s.len() > 0 {
        lemma_entries_view(s.drop_last());
    }
}

// ---------------------------------------------------------------------------
// Copies
// ---------------------------------------------------------------------------

/// A copy of the bytes.
pub(crate) fn copy_bytes(b: &Vec<u8>) -> (r: Vec<u8>)
    ensures
        r@ == b@,
{
    let mut r: Vec<u8> = Vec::new();
    r.extend_from_slice(b.as_slice());
    assert(r@ =~= b@);
    r
}

impl Clone for Double {
    fn clone(&self) -> (r: Self)
        ensures
            double_view(r) == double_view(*self),
    {
        let number: Option<serde_json::Number> = match &self.number {
            Some(n) => Some(n.clone()),
            None => None,
        };
        Double { bits: self.bits, number }
    }
}

impl Clone for AnyValue {
    fn clone(&self) -> (r: Self)
        ensures
            any_view(r) == any_view(*self),
        decreases self,
    {
        let value: Option<any_value::Kind> = match &self.value {
            None => None,
            Some(any_value::Kind::StringValue(s)) => Some(
                any_value::Kind::StringValue(s.clone()),
            ),
            Some(any_value::Kind::IntValue(n)) => Some(any_value::Kind::IntValue(*n)),
            Some(any_value::Kind::DoubleValue(d)) => Some(
                any_value::Kind::DoubleValue(d.clone()),
            ),
            Some(any_value::Kind::BoolValue(b)) => Some(any_value::Kind::BoolValue(*b)),
            Some(any_value::Kind::BytesValue(b)) => Some(
                any_value::Kind::BytesValue(copy_bytes(b)),
            ),
            Some(any_value::Kind::ArrayValue(a)) => Some(
                any_value::Kind::ArrayValue(ArrayValue { values: copy_values(&a.values) }),
            ),
            Some(any_value::Kind::MapValue(m)) => Some(
                any_value::Kind::MapValue(MapValue { entries: copy_entries(&m.entries) }),
            ),
        };
        AnyValue { value }
    }
}

impl Clone for KeyValue {
    fn clone(&self) -> (r: Self)
        ensures
            entry_view(r) == entry_view(*self),
        decreases self,
    {
        let value: Option<AnyValue> = match &self.value {
            Some(v) => Some(v.clone()),
            None => None,
        };
        KeyValue { key: self.key.clone(), value }
    }
}

fn copy_values(s: &Vec<AnyValue>) -> (r: Vec<AnyValue>)
    ensures
        values_view(r@) == values_view(s@),
    decreases s,
{
    let mut r: Vec<AnyValue> = Vec::new();
    let mut i: usize = 0;
    while i < s.len()
        invariant
            i <= s@.len(),
            r@.len() == i,
            forall|k: int| 0 <= k < i ==> any_view(#[trigger] r@[k]) == any_view(s@[k]),
        decreases s@.len() - i,
    {
        r.push(s[i].clone());
        i += 1;
    }
    proof {
        lemma_values_view(r@);
        lemma_values_view(s@);
        assert(values_view(r@) =~= values_view(s@));
    }
    r
}

/// A copy of a list of named values.
pub fn copy_entries(s: &Vec<KeyValue>) -> (r: Vec<KeyValue>)
    ensures
        entries_view(r@) == entries_view(s@),
    decreases s,
{
    let mut r: Vec<KeyValue> = Vec::new();
    let mut i: usize = 0;
    while i < s.len()
        invariant
            i <= s@.len(),
            r@.len() == i,
            forall|k: int| 0 <= k < i ==> entry_view(#[trigger] r@[k]) == entry_view(s@[k]),
        decreases s@.len() - i,
    {
        r.push(s[i].clone());
        i += 1;
    }
    proof {
        lemma_entries_view(r@);
        lemma_entries_view(s@);
        assert(entries_view(r@) =~= entries_view(s@));
    }
    r
}

impl Clone for Resource {
    fn clone(&self) -> (r: Self)
        ensures
            r@ == self@,
    {
        Resource {
            service_name: self.service_name.clone(),
            host_name: self.host_name.clone(),
            instance_id: self.instance_id.clone(),
            attributes: copy_entries(&self.attributes),
        }
    }
}

impl Clone for LogRecord {
    fn clone(&self) -> (r: Self)
        ensures
            r@ == self@,
    {
        let resource: Option<Resource> = match &self.resource {
            Some(x) => Some(x.clone()),
            None => None,
        };
        LogRecord {
            timestamp: self.timestamp,
            severity: self.severity,
            body: self.body.clone(),
            attributes: copy_entries(&self.attributes),
            resource,
            trace_id: copy_bytes(&self.trace_id),
            span_id: copy_bytes(&self.span_id),
            schema_url: self.schema_url.clone(),
        }
    }
}

/// A copy of a row of log records.
pub fn copy_records(s: &Vec<LogRecord>) -> (r: Vec<LogRecord>)
    ensures
        records_view(r@) == records_view(s@),
{
    let mut r: Vec<LogRecord> = Vec::new();
    let mut i: usize = 0;
    while i < s.len()
        invariant
            i <= s@.len(),
            r@.len() == i,
            forall|k: int| 0 <= k < i ==> (#[trigger] r@[k])@ == s@[k]@,
        decreases s@.len() - i,
    {
        r.push(s[i].clone());
        i += 1;
    }
    assert(records_view(r@) =~= records_view(s@));
    r
}

// ---------------------------------------------------------------------------
// Empty messages
// ---------------------------------------------------------------------------

impl Default for LogRecord {
    fn default() -> (r: Self)
        ensures
            r@ == (RecordView {
                timestamp: None,
                severity: 0,
                body: seq![],
                attributes: seq![],
                resource: None,
                trace_id: seq![],
                span_id: seq![],
                schema_url: seq![],
            }),
    {
        LogRecord {
            timestamp: None,
            severity: 0,
            body: String::new(),
            attributes: Vec::new(),
            resource: None,
            trace_id: Vec::new(),
            span_id: Vec::new(),
            schema_url: String::new(),
        }
    }
}

} // verus!
