//! What an application sends: records, their attributes, and the settings of its
//! connection.

use std::collections::HashMap;
use std::time::Duration;

use vstd::prelude::*;
use vstd::std_specs::convert::FromSpecImpl;

use crate::config;
use crate::duration;
use crate::number;
use crate::proto;
use crate::proto::any_value;
use crate::proto::{AnyValue, Double, KeyValue, LogBatch, LogRecord, RecordView, Resource, Severity};
use crate::sink::forward;
use crate::text;

verus! {

// ---------------------------------------------------------------------------
// Attributes
// ---------------------------------------------------------------------------

/// A value that an attribute can be made of.
#[derive(Debug)]
pub struct AttrValue(pub AnyValue);

impl View for AttrValue {
    type V = proto::AnyView;

    open spec fn view(&self) -> proto::AnyView {
        self.0@
    }
}

impl FromSpecImpl<&str> for AttrValue {
    open spec fn obeys_from_spec() -> bool {
        false
    }

    open spec fn from_spec(s: &str) -> Self {
        arbitrary()
    }
}

impl From<&str> for AttrValue {
    fn from(s: &str) -> (r: Self)
        ensures
            r@ == proto::AnyView::Text(s@),
    {
        AttrValue(AnyValue { value: Some(any_value::Kind::StringValue(s.to_owned())) })
    }
}

impl FromSpecImpl<String> for AttrValue {
    open spec fn obeys_from_spec() -> bool {
        true
    }

    open spec fn from_spec(s: String) -> Self {
        AttrValue(AnyValue { value: Some(any_value::Kind::StringValue(s)) })
    }
}

impl From<String> for AttrValue {
    fn from(s: String) -> (r: Self)
        ensures
            r@ == proto::AnyView::Text(s@),
    {
        AttrValue(AnyValue { value: Some(any_value::Kind::StringValue(s)) })
    }
}

impl FromSpecImpl<i64> for AttrValue {
    open spec fn obeys_from_spec() -> bool {
        true
    }

    open spec fn from_spec(n: i64) -> Self {
        AttrValue(AnyValue { value: Some(any_value::Kind::IntValue(n)) })
    }
}

impl From<i64> for AttrValue {
    fn from(n: i64) -> (r: Self)
        ensures
            r@ == proto::AnyView::Int(n),
    {
        AttrValue(AnyValue { value: Some(any_value::Kind::IntValue(n)) })
    }
}

impl FromSpecImpl<bool> for AttrValue {
    open spec fn obeys_from_spec() -> bool {
        true
    }

    open spec fn from_spec(b: bool) -> Self {
        AttrValue(AnyValue { value: Some(any_value::Kind::BoolValue(b)) })
    }
}

impl From<bool> for AttrValue {
    fn from(b: bool) -> (r: Self)
        ensures
            r@ == proto::AnyView::Bool(b),
    {
        AttrValue(AnyValue { value: Some(any_value::Kind::BoolValue(b)) })
    }
}

impl FromSpecImpl<Double> for AttrValue {
    open spec fn obeys_from_spec() -> bool {
        true
    }

    open spec fn from_spec(d: Double) -> Self {
        AttrValue(AnyValue { value: Some(any_value::Kind::DoubleValue(d)) })
    }
}

impl From<Double> for AttrValue {
    fn from(d: Double) -> (r: Self)
        ensures
            r@ == proto::double_view(d),
    {
        AttrValue(AnyValue { value: Some(any_value::Kind::DoubleValue(d)) })
    }
}

/// An attribute with a name and a value.
pub fn attr<V: Into<AttrValue>>(key: &str, value: V) -> (r: KeyValue)
    ensures
        exists|a: AttrValue|
            call_ensures(<V as Into<AttrValue>>::into, (value,), a) && r@ == (key@, Some(a@)),
{
    let a: AttrValue = value.into();
    let ghost made = a;
    let r: KeyValue = KeyValue { key: key.to_owned(), value: Some(a.0) };
    assert(call_ensures(<V as Into<AttrValue>>::into, (value,), made) && r@ == (
        key@,
        Some(made@),
    ));
    r
}

// ---------------------------------------------------------------------------
// Connections
// ---------------------------------------------------------------------------

/// The settings of a connection.
#[derive(Debug)]
pub struct ClientBuilder {
    pub target: String,
    pub timeout: Duration,
    pub enable_compression: bool,
    pub resource: Option<Resource>,
}

impl ClientBuilder {
    /// The usual settings for a target: calls may take five seconds and are
    /// compressed, and records carry no resource.
    pub fn new<T: Into<String>>(target: T) -> (r: Self)
        ensures
            exists|t: String|
                call_ensures(<T as Into<String>>::into, (target,), t) && r.target@ == t@,
            duration::duration_nanos(r.timeout) == config::seconds(5),
            r.enable_compression,
            r.resource is None,
    {
        let t: String = target.into();
        let ghost made = t;
        let r: ClientBuilder = ClientBuilder {
            target: t,
            timeout: Duration::from_secs(5),
            enable_compression: true,
            resource: None,
        };
        assert(call_ensures(<T as Into<String>>::into, (target,), made) && r.target@ == made@);
        r
    }

    /// Sets how long a call may take.
    pub fn timeout(self, timeout: Duration) -> (r: Self)
        ensures
            r == (ClientBuilder { timeout, ..self }),
    {
        ClientBuilder { timeout, ..self }
    }

    /// Switches compression on or off.
    pub fn compression(self, enabled: bool) -> (r: Self)
        ensures
            r == (ClientBuilder { enable_compression: enabled, ..self }),
    {
        ClientBuilder { enable_compression: enabled, ..self }
    }

    /// Sets the resource that every record carries.
    pub fn resource(self, service_name: &str, host_name: &str, instance_id: &str) -> (r: Self)
        ensures
            r.target == self.target,
            r.timeout == self.timeout,
            r.enable_compression == self.enable_compression,
            proto::resource_view(r.resource) == Some(
                proto::ResourceView {
                    service_name: service_name@,
                    host_name: host_name@,
                    instance_id: instance_id@,
                    attributes: seq![],
                },
            ),
    {
        ClientBuilder {
            resource: Some(
                Resource {
                    service_name: service_name.into(),
                    host_name: host_name.into(),
                    instance_id: instance_id.into(),
                    attributes: Vec::new(),
                },
            ),
            ..self
        }
    }

    /// The URI to connect to.
    pub fn uri(&self) -> (r: String)
        ensures
            r@ == forward::uri_of(self.target@),
    {
        forward::endpoint_uri(self.target.as_str())
    }
}

// ---------------------------------------------------------------------------
// Records
// ---------------------------------------------------------------------------

/// What the record of a log call holds. The call is made `since_epoch` nanoseconds
/// after 1970-01-01 UTC.
pub open spec fn record_of(
    severity: Severity,
    body: Seq<char>,
    attributes: Seq<(Seq<char>, Option<proto::AnyView>)>,
    resource: Option<proto::ResourceView>,
    since_epoch: nat,
) -> RecordView {
    RecordView {
        timestamp: Some(
            proto::Timestamp {
                seconds: number::low_i64(since_epoch / 1_000_000_000) as i64,
                nanos: (since_epoch % 1_000_000_000) as i32,
            },
        ),
        severity: proto::severity_number(severity),
        body,
        attributes,
        resource,
        trace_id: seq![],
        span_id: seq![],
        schema_url: seq![],
    }
}

/// The record of a log call. `since_epoch` is the time since 1970-01-01 UTC.
pub fn new_record<B: Into<String>>(
    severity: Severity,
    body: B,
    attributes: Vec<KeyValue>,
    resource: &Option<Resource>,
    since_epoch: Duration,
) -> (r: LogRecord)
    ensures
        exists|t: String|
            call_ensures(<B as Into<String>>::into, (body,), t) && r@ == record_of(
                severity,
                t@,
                proto::entries_view(attributes@),
                proto::resource_view(*resource),
                duration::duration_nanos(since_epoch),
            ),
{
    let t: String = body.into();
    let ghost made = t;
    let identity: Option<Resource> = match resource {
        Some(x) => Some(x.clone()),
        None => None,
    };
    let r: LogRecord = LogRecord {
        timestamp: Some(
            proto::Timestamp {
                seconds: number::cut_i64(since_epoch.as_secs() as u128),
                nanos: since_epoch.subsec_nanos() as i32,
            },
        ),
        severity: severity.number(),
        body: t,
        attributes,
        resource: identity,
        ..LogRecord::default()
    };
    assert(call_ensures(<B as Into<String>>::into, (body,), made) && r@ == record_of(
        severity,
        made@,
        proto::entries_view(attributes@),
        proto::resource_view(*resource),
        duration::duration_nanos(since_epoch),
    ));
    r
}

/// The batch in which records are sent.
pub fn new_batch(records: Vec<LogRecord>) -> (r: LogBatch)
    ensures
        r.records == records,
        r.metadata@ == Map::<String, String>::empty(),
{
    LogBatch { records, metadata: HashMap::new() }
}

// ---------------------------------------------------------------------------
// Errors
// ---------------------------------------------------------------------------

/// Why a call failed.
#[derive(Debug)]
pub enum ClientError {
    /// There is no connection.
    Connection(String),
    /// The server answered with an error.
    Rpc(String),
}

impl ClientError {
    /// The words with which the error is reported.
    pub fn message(&self) -> (r: String)
        ensures
            r@ == match self {
                ClientError::Connection(m) => "connection error: "@ + m@,
                ClientError::Rpc(m) => "RPC error: "@ + m@,
            },
    {
        match self {
            ClientError::Connection(m) => text::join2("connection error: ", m.as_str()),
            ClientError::Rpc(m) => text::join2("RPC error: ", m.as_str()),
        }
    }
}

} // verus!
