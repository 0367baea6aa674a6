//! The embedded log store: what its rows hold and what is asked of it.

use vstd::prelude::*;

use crate::json;
use crate::json::Json;
use crate::proto;
use crate::sink::encode;
use crate::text;

verus! {

/// The statements that make the table and its indices.
pub const SCHEMA: &'static str = "
CREATE TABLE IF NOT EXISTS logs (
  id            INTEGER PRIMARY KEY AUTOINCREMENT,
  ts_nanos      INTEGER NOT NULL,
  severity      INTEGER NOT NULL,
  service_name  TEXT,
  host_name     TEXT,
  instance_id   TEXT,
  body          TEXT,
  trace_id      TEXT,
  span_id       TEXT,
  attributes    TEXT,
  schema_url    TEXT
);
CREATE INDEX IF NOT EXISTS idx_logs_ts       ON logs(ts_nanos);
CREATE INDEX IF NOT EXISTS idx_logs_severity ON logs(severity);
CREATE INDEX IF NOT EXISTS idx_logs_service  ON logs(service_name);
";

/// A row of the table, without its number.
#[derive(Debug)]
pub struct LogRow {
    pub ts_nanos: i64,
    pub severity: i32,
    pub service_name: String,
    pub host_name: String,
    pub instance_id: String,
    pub body: String,
    pub trace_id: String,
    pub span_id: String,
    pub attributes: String,
    pub schema_url: String,
}

/// What a row holds.
pub ghost struct RowView {
    pub ts_nanos: i64,
    pub severity: i32,
    pub service_name: Seq<char>,
    pub host_name: Seq<char>,
    pub instance_id: Seq<char>,
    pub body: Seq<char>,
    pub trace_id: Seq<char>,
    pub span_id: Seq<char>,
    pub attributes: Seq<char>,
    pub schema_url: Seq<char>,
}

impl View for LogRow {
    type V = RowView;

    open spec fn view(&self) -> RowView {
        RowView {
            ts_nanos: self.ts_nanos,
            severity: self.severity,
            service_name: self.service_name@,
            host_name: self.host_name@,
            instance_id: self.instance_id@,
            body: self.body@,
            trace_id: self.trace_id@,
            span_id: self.span_id@,
            attributes: self.attributes@,
            schema_url: self.schema_url@,
        }
    }
}

/// What each row holds.
pub open spec fn rows_view(s: Seq<LogRow>) -> Seq<RowView> {
    s.map_values(|r: LogRow| r@)
}

/// The row of a record. A record without a time is stored at time zero, one
/// without a resource under empty names, and attributes as their JSON text.
pub open spec fn row_of(r: proto::RecordView) -> RowView {
    RowView {
        ts_nanos: match r.timestamp {
            Some(ts) => encode::unix_nanos(ts) as i64,
            None => 0,
        },
        severity: r.severity,
        service_name: match r.resource {
            Some(x) => x.service_name,
            None => seq![],
        },
        host_name: match r.resource {
            Some(x) => x.host_name,
            None => seq![],
        },
        instance_id: match r.resource {
            Some(x) => x.instance_id,
            None => seq![],
        },
        body: r.body,
        trace_id: encode::hex_text(r.trace_id),
        span_id: encode::hex_text(r.span_id),
        attributes: if r.attributes.len() == 0 {
            seq![]
        } else {
            json::json_text(Json::Object(encode::entries_json(r.attributes)))
        },
        schema_url: r.schema_url,
    }
}

/// The row of a record.
pub fn record_row(r: &proto::LogRecord) -> (row: LogRow)
    requires
        encode::record_fits(r@),
    ensures
        row@ == row_of(r@),
        row@.attributes.len() == 0 <==> r@.attributes.len() == 0,
{
    let ts_nanos: i64 = match &r.timestamp {
        Some(ts) => encode::timestamp_to_nanos(ts),
        None => 0,
    };
    let (service_name, host_name, instance_id) = match &r.resource {
        Some(x) => (x.service_name.clone(), x.host_name.clone(), x.instance_id.clone()),
        None => (String::new(), String::new(), String::new()),
    };
    let trace_id: String = if r.trace_id.len() == 0 {
        String::new()
    } else {
        encode::hex_encode(r.trace_id.as_slice())
    };
    let span_id: String = if r.span_id.len() == 0 {
        String::new()
    } else {
        encode::hex_encode(r.span_id.as_slice())
    };
    let attributes: String = if r.attributes.len() == 0 {
        String::new()
    } else {
        json::render(&encode::attributes_to_json(r.attributes.as_slice()))
    };
    proof {
        proto::lemma_entries_view(r.attributes@);
        assert(r.trace_id@.len() == 0 ==> encode::hex_text(r.trace_id@) =~= seq![]);
        assert(r.span_id@.len() == 0 ==> encode::hex_text(r.span_id@) =~= seq![]);
    }
    LogRow {
        ts_nanos,
        severity: r.severity,
        service_name,
        host_name,
        instance_id,
        body: r.body.clone(),
        trace_id,
        span_id,
        attributes,
        schema_url: r.schema_url.clone(),
    }
}

/// The rows of a batch, in the order of its records.
pub fn batch_rows(batch: &proto::LogBatch) -> (rows: Vec<LogRow>)
    requires
        encode::records_fit(proto::records_view(batch.records@)),
    ensures
        rows_view(rows@) == proto::records_view(batch.records@).map_values(
            |r: proto::RecordView| row_of(r),
        ),
{
    let ghost all = proto::records_view(batch.records@);
    let mut rows: Vec<LogRow> = Vec::new();
    let mut i: usize = 0;
    while i < batch.records.len()
        invariant
            i <= batch.records@.len(),
            all == proto::records_view(batch.records@),
            encode::records_fit(all),
            rows@.len() == i,
            forall|k: int| 0 <= k < i ==> (#[trigger] rows@[k])@ == row_of(all[k]),
        decreases batch.records@.len() - i,
    {
        assert(all[i as int] == batch.records@[i as int]@);
        rows.push(record_row(&batch.records[i]));
        i += 1;
    }
    assert(rows_view(rows@) =~= all.map_values(|r: proto::RecordView| row_of(r)));
    rows
}

/// The storing of a batch in one transaction: row after row, and then the commit.
pub struct Insert {
    rows: Vec<LogRow>,
    next: usize,
}

/// What the storing of a batch does next.
#[derive(Debug, Clone, Copy, PartialEq, Eq, Structural)]
pub enum InsertAction {
    /// Insert the next row into the open transaction.
    Row,
    /// Commit the transaction.
    Commit,
    /// So many records are stored.
    Done { stored: usize },
    /// Roll the transaction back: nothing is stored.
    RollBack,
}

impl Insert {
    /// The rows of the batch.
    pub closed spec fn rows(&self) -> Seq<RowView> {
        rows_view(self.rows@)
    }

    /// How many rows stand in the open transaction.
    pub closed spec fn inserted(&self) -> nat {
        self.next as nat
    }

    /// Begins to store a batch: each record is a row, in the order of the batch. An
    /// empty batch is stored without a transaction.
    pub fn begin(batch: &proto::LogBatch) -> (r: (Self, InsertAction))
        requires
            encode::records_fit(proto::records_view(batch.records@)),
        ensures
            r.0.rows() == proto::records_view(batch.records@).map_values(
                |x: proto::RecordView| row_of(x),
            ),
            r.0.inserted() == 0,
            r.1 == if batch.records@.len() == 0 {
                InsertAction::Done { stored: 0 }
            } else {
                InsertAction::Row
            },
    {
        let rows: Vec<LogRow> = batch_rows(batch);
        assert(rows_view(rows@).len() == batch.records@.len());
        let action: InsertAction = if rows.len() == 0 {
            InsertAction::Done { stored: 0 }
        } else {
            InsertAction::Row
        };
        (Insert { rows, next: 0 }, action)
    }

    /// The row to be inserted next.
    pub fn row(&self) -> (r: &LogRow)
        requires
            self.inserted() < self.rows().len(),
        ensures
            r@ == self.rows()[self.inserted() as int],
    {
        &self.rows[self.next]
    }

    /// Takes the outcome of the insertion of a row. The transaction is committed
    /// only once every row stands in it, and rolled back if a row cannot be
    /// inserted.
    pub fn row_done(&mut self, good: bool) -> (r: InsertAction)
        requires
            old(self).inserted() < old(self).rows().len(),
        ensures
            final(self).rows() == old(self).rows(),
            final(self).inserted() == old(self).inserted() + if good {
                1nat
            } else {
                0
            },
            r == if !good {
                InsertAction::RollBack
            } else if final(self).inserted() < final(self).rows().len() {
                InsertAction::Row
            } else {
                InsertAction::Commit
            },
    {
        if !good {
            return InsertAction::RollBack;
        }
        let n: usize = self.rows.len();
        self.next += 1;
        if self.next < n {
            InsertAction::Row
        } else {
            InsertAction::Commit
        }
    }

    /// Takes the outcome of the commit: all records are stored, or none.
    pub fn commit_done(&self, good: bool) -> (r: InsertAction)
        requires
            self.inserted() == self.rows().len(),
        ensures
            match r {
                InsertAction::Done { stored } => good && stored == self.rows().len(),
                InsertAction::RollBack => !good,
                _ => false,
            },
    {
        if good {
            InsertAction::Done { stored: self.rows.len() }
        } else {
            InsertAction::RollBack
        }
    }
}

// ---------------------------------------------------------------------------
// Reading rows
// ---------------------------------------------------------------------------

/// A row of the table with its number.
#[derive(Debug)]
pub struct StoredRow {
    pub id: i64,
    pub row: LogRow,
}

/// What stored attributes stand for; text that is no JSON stands for null.
pub open spec fn stored_attributes(s: Seq<char>) -> Option<Json> {
    if s.len() == 0 {
        None
    } else {
        match json::json_parse(s) {
            Some(j) => Some(j),
            None => Some(Json::Null),
        }
    }
}

/// The entries of the JSON document of a row.
pub open spec fn row_entries(id: i64, row: RowView) -> Map<Seq<char>, Json> {
    let m0 = map![
        "id"@ => json::int_json(id as int),
        "@timestamp"@ => Json::Text(encode::rfc3339(row.ts_nanos as int)),
        "severity"@ => json::int_json(row.severity as int),
        "body"@ => Json::Text(row.body),
        "resource"@ => encode::resource_json(row.service_name, row.host_name, row.instance_id),
    ];
    let m1 = encode::with(m0, "trace_id"@, encode::text_unless_empty(row.trace_id));
    let m2 = encode::with(m1, "span_id"@, encode::text_unless_empty(row.span_id));
    let m3 = encode::with(m2, "attributes"@, stored_attributes(row.attributes));
    encode::with(m3, "schema_url"@, encode::text_unless_empty(row.schema_url))
}

/// Whether the JSON text of a value is read back as that value. It is if all
/// numbers in it are integers and it nests less than 128 deep.
pub open spec fn reads_back(j: Json) -> bool {
    json::integral_within(j, 127) || json::json_parse(json::json_text(j)) == Some(j)
}

/// Whether a row is that of a record which the row can give back as a whole: it
/// has a time and a resource, and its attributes are read back.
pub open spec fn faithful(r: proto::RecordView, row: RowView) -> bool {
    &&& row == row_of(r)
    &&& encode::record_fits(r)
    &&& r.timestamp is Some
    &&& r.resource is Some
    &&& row.attributes.len() == 0 <==> r.attributes.len() == 0
    &&& reads_back(Json::Object(encode::entries_json(r.attributes)))
}

/// The JSON document of a row. For the row of a record with a time, a resource
/// and attributes that are read back it is the document of that record, and the
/// number of the row.
pub fn row_to_json(id: i64, row: &LogRow) -> (doc: serde_json::Value)
    ensures
        json::json_of(doc) == Json::Object(row_entries(id, row@)),
        forall|r: proto::RecordView| #[trigger]
            faithful(r, row@) ==> json::json_of(doc) == Json::Object(
                encode::record_entries(r).insert("id"@, json::int_json(id as int)),
            ),
{
    let mut doc: serde_json::Value = json::object_value();
    json::put(&mut doc, "id", json::int_value(id));
    let time: String = encode::rfc3339_from_nanos(row.ts_nanos);
    json::put(&mut doc, "@timestamp", json::text_value(time));
    json::put(&mut doc, "severity", json::int_value(row.severity as i64));
    json::put(&mut doc, "body", json::text_value(row.body.clone()));
    let identity: serde_json::Value = encode::resource_value(
        row.service_name.as_str(),
        row.host_name.as_str(),
        row.instance_id.as_str(),
    );
    json::put(&mut doc, "resource", identity);
    if !text::is_empty(row.trace_id.as_str()) {
        json::put(&mut doc, "trace_id", json::text_value(row.trace_id.clone()));
    }
    if !text::is_empty(row.span_id.as_str()) {
        json::put(&mut doc, "span_id", json::text_value(row.span_id.clone()));
    }
    if !text::is_empty(row.attributes.as_str()) {
        let attributes: serde_json::Value = match json::parse(row.attributes.as_str()) {
            Ok(v) => v,
            Err(_) => json::null_value(),
        };
        json::put(&mut doc, "attributes", attributes);
    }
    if !text::is_empty(row.schema_url.as_str()) {
        json::put(&mut doc, "schema_url", json::text_value(row.schema_url.clone()));
    }
    proof {
        assert forall|r: proto::RecordView| #[trigger] faithful(r, row@) implies row_entries(
            id,
            row@,
        ) == encode::record_entries(r).insert("id"@, json::int_json(id as int)) by {
            lemma_faithful_row(id, r, row@);
        }
    }
    doc
}

proof fn lemma_faithful_row(id: i64, r: proto::RecordView, row: RowView)
    requires
        faithful(r, row),
        r.attributes.len() > 0 ==> json::json_parse(row.attributes) == Some(
            Json::Object(encode::entries_json(r.attributes)),
        ),
    ensures
        row_entries(id, row) == encode::record_entries(r).insert("id"@, json::int_json(id as int)),
{
    reveal_strlit("id");
    reveal_strlit("@timestamp");
    reveal_strlit("severity");
    reveal_strlit("body");
    reveal_strlit("resource");
    reveal_strlit("trace_id");
    reveal_strlit("span_id");
    reveal_strlit("attributes");
    reveal_strlit("schema_url");
    assert("id"@.len() == 2 && "@timestamp"@.len() == 10 && "severity"@.len() == 8);
    assert("body"@.len() == 4 && "resource"@.len() == 8 && "trace_id"@.len() == 8);
    assert("span_id"@.len() == 7 && "attributes"@.len() == 10 && "schema_url"@.len() == 10);
    assert(encode::text_unless_empty(row.trace_id) == encode::hex_unless_empty(r.trace_id));
    assert(encode::text_unless_empty(row.span_id) == encode::hex_unless_empty(r.span_id));
    assert(stored_attributes(row.attributes) == encode::entries_unless_empty(r.attributes));
    assert(row.ts_nanos == encode::unix_nanos(r.timestamp->Some_0));
    let number = json::int_json(id as int);
    let time = Json::Text(encode::rfc3339(row.ts_nanos as int));
    let severity = json::int_json(row.severity as int);
    let body = Json::Text(row.body);
    let identity = encode::resource_json(row.service_name, row.host_name, row.instance_id);
    let plain = map!["severity"@ => severity, "body"@ => body];
    let rest = |m: Map<Seq<char>, Json>| {
        let m1 = encode::with(m, "trace_id"@, encode::hex_unless_empty(r.trace_id));
        let m2 = encode::with(m1, "span_id"@, encode::hex_unless_empty(r.span_id));
        let m3 = encode::with(m2, "attributes"@, encode::entries_unless_empty(r.attributes));
        encode::with(m3, "schema_url"@, encode::text_unless_empty(r.schema_url))
    };
    let first = map![
        "id"@ => number,
        "@timestamp"@ => time,
        "severity"@ => severity,
        "body"@ => body,
        "resource"@ => identity,
    ];
    let other = plain.insert("@timestamp"@, time).insert("resource"@, identity);
    assert(first =~= other.insert("id"@, number));
    assert(rest(other.insert("id"@, number)) =~= rest(other).insert("id"@, number));
    assert(row_entries(id, row) == rest(first));
    assert(encode::record_entries(r) == rest(other));
}

// ---------------------------------------------------------------------------
// Queries
// ---------------------------------------------------------------------------

/// What is asked of the store. `None` leaves a property open.
#[derive(Debug)]
pub struct LogQuery {
    /// A text that the body contains.
    pub q: Option<String>,
    /// The lowest severity.
    pub min_severity: Option<i32>,
    /// The name of the service.
    pub service: Option<String>,
    /// The earliest time, in nanoseconds since 1970-01-01 UTC.
    pub since_nanos: Option<i64>,
    /// A number below that of every wanted row; the oldest such rows come first.
    pub after_id: Option<i64>,
    /// A number above that of every wanted row.
    pub before_id: Option<i64>,
    /// The largest number of rows.
    pub limit: usize,
}

/// What `LogQuery` holds.
pub ghost struct QueryView {
    pub q: Option<Seq<char>>,
    pub min_severity: Option<i32>,
    pub service: Option<Seq<char>>,
    pub since_nanos: Option<i64>,
    pub after_id: Option<i64>,
    pub before_id: Option<i64>,
    pub limit: usize,
}

impl View for LogQuery {
    type V = QueryView;

    open spec fn view(&self) -> QueryView {
        QueryView {
            q: text::optional(self.q),
            min_severity: self.min_severity,
            service: text::optional(self.service),
            since_nanos: self.since_nanos,
            after_id: self.after_id,
            before_id: self.before_id,
            limit: self.limit,
        }
    }
}

/// The query that leaves everything open.
pub open spec fn open_query(limit: usize) -> QueryView {
    QueryView {
        q: None,
        min_severity: None,
        service: None,
        since_nanos: None,
        after_id: None,
        before_id: None,
        limit,
    }
}

impl Default for LogQuery {
    fn default() -> (r: Self)
        ensures
            r@ == open_query(0),
    {
        LogQuery {
            q: None,
            min_severity: None,
            service: None,
            since_nanos: None,
            after_id: None,
            before_id: None,
            limit: 0,
        }
    }
}

/// A value for a placeholder of a statement.
#[derive(Debug)]
pub enum Param {
    Text(String),
    Int(i64),
}

/// What `Param` holds.
pub ghost enum ParamView {
    Text(Seq<char>),
    Int(int),
}

impl View for Param {
    type V = ParamView;

    open spec fn view(&self) -> ParamView {
        match self {
            Param::Text(s) => ParamView::Text(s@),
            Param::Int(n) => ParamView::Int(*n as int),
        }
    }
}

/// A statement and the values of its placeholders, in their order.
#[derive(Debug)]
pub struct Statement {
    pub sql: String,
    pub params: Vec<Param>,
}

/// What each value holds.
pub open spec fn params_view(s: Seq<Param>) -> Seq<ParamView> {
    s.map_values(|p: Param| p@)
}

/// The number of rows that a query may bring: from one to a thousand.
pub open spec fn clamped(limit: usize) -> usize {
    if limit < 1 {
        1
    } else if limit > 1000 {
        1000
    } else {
        limit
    }
}

/// The number of rows that a query may bring: from one to a thousand.
pub fn clamp_limit(limit: usize) -> (r: usize)
    ensures
        r == clamped(limit),
{
    if limit < 1 {
        1
    } else if limit > 1000 {
        1000
    } else {
        limit
    }
}

/// `words` where they are wanted.
pub open spec fn when(wanted: bool, words: Seq<char>) -> Seq<char> {
    if wanted {
        words
    } else {
        seq![]
    }
}

/// The beginning of every query.
pub open spec fn select_words() -> Seq<char> {
    "SELECT id, ts_nanos, severity, service_name, host_name, instance_id, body, trace_id, span_id, attributes, schema_url FROM logs WHERE 1=1"@
}

/// The statement of a query. With `after_id` the oldest rows come first,
/// otherwise the newest.
pub open spec fn sql_of(q: QueryView) -> Seq<char> {
    select_words() + when(q.q is Some, " AND body LIKE ?"@) + when(
        q.min_severity is Some,
        " AND severity >= ?"@,
    ) + when(q.service is Some, " AND service_name = ?"@) + when(
        q.since_nanos is Some,
        " AND ts_nanos >= ?"@,
    ) + when(q.after_id is Some, " AND id > ?"@) + when(q.before_id is Some, " AND id < ?"@) + (
    if q.after_id is Some {
        " ORDER BY id ASC"@
    } else {
        " ORDER BY id DESC"@
    }) + " LIMIT ?"@
}

/// The value, if there is one.
pub open spec fn text_param(v: Option<Seq<char>>) -> Seq<ParamView> {
    match v {
        Some(t) => seq![ParamView::Text(t)],
        None => seq![],
    }
}

/// The value, if there is one.
pub open spec fn int_param(v: Option<i64>) -> Seq<ParamView> {
    match v {
        Some(n) => seq![ParamView::Int(n as int)],
        None => seq![],
    }
}

/// The values of the placeholders of a query.
pub open spec fn params_of(q: QueryView) -> Seq<ParamView> {
    text_param(
        match q.q {
            Some(t) => Some("%"@ + t + "%"@),
            None => None,
        },
    ) + int_param(
        match q.min_severity {
            Some(n) => Some(n as i64),
            None => None,
        },
    ) + text_param(q.service) + int_param(q.since_nanos) + int_param(q.after_id) + int_param(
        q.before_id,
    ) + seq![ParamView::Int(clamped(q.limit) as int)]
}

impl Statement {
    /// Appends a condition with a text for its placeholder, if there is one.
    fn with_text(&mut self, words: &str, value: Option<String>)
        ensures
            final(self).sql@ == old(self).sql@ + when(value is Some, words@),
            params_view(final(self).params@) == params_view(old(self).params@) + text_param(
                text::optional(value),
            ),
    {
        if let Some(t) = value {
            self.sql.append(words);
            self.params.push(Param::Text(t));
        }
        assert(self.sql@ =~= old(self).sql@ + when(value is Some, words@));
        assert(params_view(self.params@) =~= params_view(old(self).params@) + text_param(
            text::optional(value),
        ));
    }

    /// Appends a condition with an integer for its placeholder, if there is one.
    fn with_int(&mut self, words: &str, value: Option<i64>)
        ensures
            final(self).sql@ == old(self).sql@ + when(value is Some, words@),
            params_view(final(self).params@) == params_view(old(self).params@) + int_param(value),
    {
        if let Some(n) = value {
            self.sql.append(words);
            self.params.push(Param::Int(n));
        }
        assert(self.sql@ =~= old(self).sql@ + when(value is Some, words@));
        assert(params_view(self.params@) =~= params_view(old(self).params@) + int_param(value));
    }
}

/// The statement of a query, with the values of its placeholders.
pub fn query_statement(q: &LogQuery) -> (r: Statement)
    ensures
        r.sql@ == sql_of(q@),
        params_view(r.params@) == params_of(q@),
{
    let mut r: Statement = Statement {
        sql: "SELECT id, ts_nanos, severity, service_name, host_name, instance_id, body, trace_id, span_id, attributes, schema_url FROM logs WHERE 1=1".to_owned(),
        params: Vec::new(),
    };
    assert(params_view(r.params@) =~= seq![]);
    let pattern: Option<String> = match &q.q {
        Some(t) => Some(text::join3("%", t.as_str(), "%")),
        None => None,
    };
    let min_severity: Option<i64> = match q.min_severity {
        Some(n) => Some(n as i64),
        None => None,
    };
    r.with_text(" AND body LIKE ?", pattern);
    r.with_int(" AND severity >= ?", min_severity);
    r.with_text(" AND service_name = ?", text::copy_optional(&q.service));
    r.with_int(" AND ts_nanos >= ?", q.since_nanos);
    r.with_int(" AND id > ?", q.after_id);
    r.with_int(" AND id < ?", q.before_id);
    if q.after_id.is_some() {
        r.sql.append(" ORDER BY id ASC");
    } else {
        r.sql.append(" ORDER BY id DESC");
    }
    r.with_int(" LIMIT ?", Some(clamp_limit(q.limit) as i64));
    assert(params_view(r.params@) =~= params_of(q@));
    r
}

/// The number of placeholders in a statement.
pub open spec fn placeholders(s: Seq<char>) -> nat
    decreases s.len(),
{
    if s.len() == 0 {
        0
    } else if s.last() == '?' {
        placeholders(s.drop_last()) + 1
    } else {
        placeholders(s.drop_last())
    }
}

proof fn lemma_placeholders_join(a: Seq<char>, b: Seq<char>)
    ensures
        placeholders(a + b) == placeholders(a) + placeholders(b),
    decreases b.len(),
{
    if b.len() == 0 {
        assert(a + b =~= a);
    } else {
        lemma_placeholders_join(a, b.drop_last());
        assert((a + b).drop_last() =~= a + b.drop_last());
    }
}

proof fn lemma_no_placeholder(s: Seq<char>)
    requires
        forall|i: int| 0 <= i < s.len() ==> s[i] != '?',
    ensures
        placeholders(s) == 0,
    decreases s.len(),
{
    if s.len() > 0 {
        lemma_no_placeholder(s.drop_last());
    }
}

/// A condition with its placeholder at its end has one placeholder where it is
/// wanted and none where it is not.
proof fn lemma_condition(wanted: bool, words: Seq<char>)
    requires
        words.len() > 0,
        words.last() == '?',
        forall|i: int| 0 <= i < words.len() - 1 ==> words[i] != '?',
    ensures
        placeholders(when(wanted, words)) == if wanted {
            1nat
        } else {
            0
        },
{
    lemma_no_placeholder(words.drop_last());
}

/// A query has as many placeholders as it has values for them.
pub proof fn law_every_placeholder_has_its_value(q: QueryView)
    ensures
        placeholders(sql_of(q)) == params_of(q).len(),
{
    reveal_strlit("SELECT id, ts_nanos, severity, service_name, host_name, instance_id, body, trace_id, span_id, attributes, schema_url FROM logs WHERE 1=1");
    reveal_strlit(" AND body LIKE ?");
    reveal_strlit(" AND severity >= ?");
    reveal_strlit(" AND service_name = ?");
    reveal_strlit(" AND ts_nanos >= ?");
    reveal_strlit(" AND id > ?");
    reveal_strlit(" AND id < ?");
    reveal_strlit(" ORDER BY id ASC");
    reveal_strlit(" ORDER BY id DESC");
    reveal_strlit(" LIMIT ?");
    let a0 = select_words();
    let w1 = when(q.q is Some, " AND body LIKE ?"@);
    let w2 = when(q.min_severity is Some, " AND severity >= ?"@);
    let w3 = when(q.service is Some, " AND service_name = ?"@);
    let w4 = when(q.since_nanos is Some, " AND ts_nanos >= ?"@);
    let w5 = when(q.after_id is Some, " AND id > ?"@);
    let w6 = when(q.before_id is Some, " AND id < ?"@);
    let order = if q.after_id is Some {
        " ORDER BY id ASC"@
    } else {
        " ORDER BY id DESC"@
    };
    let w7 = when(true, " LIMIT ?"@);
    lemma_no_placeholder(a0);
    lemma_condition(q.q is Some, " AND body LIKE ?"@);
    lemma_condition(q.min_severity is Some, " AND severity >= ?"@);
    lemma_condition(q.service is Some, " AND service_name = ?"@);
    lemma_condition(q.since_nanos is Some, " AND ts_nanos >= ?"@);
    lemma_condition(q.after_id is Some, " AND id > ?"@);
    lemma_condition(q.before_id is Some, " AND id < ?"@);
    lemma_no_placeholder(order);
    lemma_condition(true, " LIMIT ?"@);
    lemma_placeholders_join(a0, w1);
    lemma_placeholders_join(a0 + w1, w2);
    lemma_placeholders_join(a0 + w1 + w2, w3);
    lemma_placeholders_join(a0 + w1 + w2 + w3, w4);
    lemma_placeholders_join(a0 + w1 + w2 + w3 + w4, w5);
    lemma_placeholders_join(a0 + w1 + w2 + w3 + w4 + w5, w6);
    lemma_placeholders_join(a0 + w1 + w2 + w3 + w4 + w5 + w6, order);
    lemma_placeholders_join(a0 + w1 + w2 + w3 + w4 + w5 + w6 + order, w7);
}

// ---------------------------------------------------------------------------
// Results
// ---------------------------------------------------------------------------

/// What a query brings: the JSON documents of its rows, and the lowest and the
/// highest of their numbers.
#[derive(Debug)]
pub struct QueryResult {
    pub records: Vec<serde_json::Value>,
    pub oldest_id: Option<i64>,
    pub newest_id: Option<i64>,
}

/// Whether `low` is the lowest number of the rows, if there are any.
pub open spec fn is_oldest(rows: Seq<StoredRow>, low: Option<i64>) -> bool {
    match low {
        Some(n) => {
            &&& exists|i: int| 0 <= i < rows.len() && (#[trigger] rows[i]).id == n
            &&& forall|i: int| 0 <= i < rows.len() ==> n <= (#[trigger] rows[i]).id
        },
        None => rows.len() == 0,
    }
}

/// Whether `high` is the highest number of the rows, if there are any.
pub open spec fn is_newest(rows: Seq<StoredRow>, high: Option<i64>) -> bool {
    match high {
        Some(n) => {
            &&& exists|i: int| 0 <= i < rows.len() && (#[trigger] rows[i]).id == n
            &&& forall|i: int| 0 <= i < rows.len() ==> (#[trigger] rows[i]).id <= n
        },
        None => rows.len() == 0,
    }
}

/// The JSON documents of rows.
pub open spec fn documents(rows: Seq<StoredRow>) -> Seq<Json> {
    rows.map_values(|r: StoredRow| Json::Object(row_entries(r.id, r.row@)))
}

/// What a query brings, made of its rows.
pub fn query_result(rows: &[StoredRow]) -> (r: QueryResult)
    ensures
        json::items_of(r.records@) == documents(rows@),
        is_oldest(rows@, r.oldest_id),
        is_newest(rows@, r.newest_id),
{
    let mut records: Vec<serde_json::Value> = Vec::new();
    let mut oldest_id: Option<i64> = None;
    let mut newest_id: Option<i64> = None;
    let mut i: usize = 0;
    while i < rows.len()
        invariant
            i <= rows@.len(),
            records@.len() == i,
            forall|k: int|
                0 <= k < i ==> json::json_of(#[trigger] records@[k]) == Json::Object(
                    row_entries(rows@[k].id, rows@[k].row@),
                ),
            is_oldest(rows@.take(i as int), oldest_id),
            is_newest(rows@.take(i as int), newest_id),
        decreases rows@.len() - i,
    {
        let id: i64 = rows[i].id;
        let ghost seen = rows@.take(i as int);
        let ghost now = rows@.take(i + 1);
        assert(now =~= seen.push(rows@[i as int]));
        assert(now[i as int].id == id);
        records.push(row_to_json(id, &rows[i].row));
        let ghost before = (oldest_id, newest_id);
        oldest_id = match oldest_id {
            Some(n) => if n <= id {
                Some(n)
            } else {
                Some(id)
            },
            None => Some(id),
        };
        newest_id = match newest_id {
            Some(n) => if n >= id {
                Some(n)
            } else {
                Some(id)
            },
            None => Some(id),
        };
        proof {
            if let Some(n) = before.0 {
                let k = choose|k: int| 0 <= k < seen.len() && (#[trigger] seen[k]).id == n;
                assert(now[k].id == n);
            }
            if let Some(n) = before.1 {
                let k = choose|k: int| 0 <= k < seen.len() && (#[trigger] seen[k]).id == n;
                assert(now[k].id == n);
            }
            assert forall|k: int| 0 <= k < now.len() implies oldest_id->Some_0 <= (
            #[trigger] now[k]).id <= newest_id->Some_0 by {
                if k < i {
                    assert(now[k] == seen[k]);
                }
            }
        }
        i += 1;
    }
    assert(rows@.take(i as int) =~= rows@);
    assert(json::items_of(records@) =~= documents(rows@));
    QueryResult { records, oldest_id, newest_id }
}

// ---------------------------------------------------------------------------
// Retention
// ---------------------------------------------------------------------------

/// The time before which rows are deleted, kept within the range of an `i64`.
pub open spec fn cutoff(now_nanos: int, max_age_nanos: int) -> int {
    let t = now_nanos - max_age_nanos;
    if t < i64::MIN {
        i64::MIN as int
    } else if t > i64::MAX {
        i64::MAX as int
    } else {
        t
    }
}

/// The time before which rows are deleted.
pub fn prune_cutoff(max_age_nanos: i64, now_nanos: i64) -> (r: i64)
    ensures
        r == cutoff(now_nanos as int, max_age_nanos as int),
{
    match now_nanos.checked_sub(max_age_nanos) {
        Some(t) => t,
        None => if max_age_nanos > 0 {
            i64::MIN
        } else {
            i64::MAX
        },
    }
}

/// How many of the newest rows are kept, if there are more than that.
pub fn rows_to_keep(count: i64, max_records: u64) -> (r: Option<i64>)
    requires
        count >= 0,
    ensures
        r == if count > max_records {
            Some(max_records as i64)
        } else {
            None
        },
{
    if count as u64 > max_records {
        Some(max_records as i64)
    } else {
        None
    }
}

/// Whether a database lies in a file, and so outlives the process.
pub fn is_durable(db_path: &str) -> (r: bool)
    ensures
        r == (db_path@ != ":memory:"@),
{
    !text::same(db_path, ":memory:")
}

} // verus!
