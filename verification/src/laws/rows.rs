//! Laws of the log store: its rows, its statements and its retention.

use vstd::prelude::*;

use crate::json;
use crate::json::Json;
use crate::laws::documents;
use crate::number;
use crate::proto;
use crate::proto::RecordView;
use crate::sink::encode;
use crate::sink::store;
use crate::sink::store::{LogRow, Param, ParamView, QueryView, RowView, StoredRow};

verus! {

/// The row of a record holds each part of it: its time in nanoseconds, or zero; its
/// severity and body; the names of its resource, or nothing; the texts that spell
/// its trace and its span; its attributes as the text of their JSON object, or
/// nothing; and its schema.
pub proof fn law_row_holds_the_record(r: RecordView)
    requires
        encode::record_fits(r),
    ensures
        ({
            let row = store::row_of(r);
            &&& match r.timestamp {
                Some(ts) => row.ts_nanos == ts.seconds * 1_000_000_000 + ts.nanos,
                None => row.ts_nanos == 0,
            }
            &&& row.severity == r.severity
            &&& row.body == r.body
            &&& match r.resource {
                Some(x) => row.service_name == x.service_name && row.host_name == x.host_name
                    && row.instance_id == x.instance_id,
                None => row.service_name.len() == 0 && row.host_name.len() == 0
                    && row.instance_id.len() == 0,
            }
            &&& documents::spells(row.trace_id, r.trace_id)
            &&& documents::spells(row.span_id, r.span_id)
            &&& r.attributes.len() == 0 ==> row.attributes.len() == 0
            &&& r.attributes.len() > 0 ==> exists|m: Map<Seq<char>, Json>|
                row.attributes == #[trigger] json::json_text(Json::Object(m))
                    && documents::is_object_of(m, r.attributes)
            &&& row.schema_url == r.schema_url
        }),
{
    documents::law_hex_spells_the_bytes(r.trace_id);
    documents::law_hex_spells_the_bytes(r.span_id);
    documents::law_attributes_are_entries(r.attributes);
    if r.attributes.len() > 0 {
        let m = encode::entries_json(r.attributes);
        assert(store::row_of(r).attributes == json::json_text(Json::Object(m))
            && documents::is_object_of(m, r.attributes));
    }
}

/// The document of a row has its number, its time as a text that reads as that
/// time, its severity and body, the names of its resource, and of its trace, span,
/// attributes and schema those that are not empty. It has no other part.
pub proof fn law_document_of_a_row(id: i64, row: RowView)
    ensures
        ({
            let m = store::row_entries(id, row);
            &&& m.dom().contains("id"@) && m["id"@] == Json::Num(
                number::signed_decimal(id as int),
            )
            &&& m.dom().contains("@timestamp"@) && (m["@timestamp"@] matches Json::Text(t)
                && encode::is_rfc3339(t) && encode::rfc3339_instant(t) == row.ts_nanos)
            &&& m.dom().contains("severity"@) && m["severity"@] == Json::Num(
                number::signed_decimal(row.severity as int),
            )
            &&& m.dom().contains("body"@) && m["body"@] == Json::Text(row.body)
            &&& m.dom().contains("resource"@) && documents::is_identity(
                m["resource"@],
                proto::ResourceView {
                    service_name: row.service_name,
                    host_name: row.host_name,
                    instance_id: row.instance_id,
                    attributes: seq![],
                },
            )
            &&& m.dom().contains("trace_id"@) == (row.trace_id.len() > 0)
            &&& row.trace_id.len() > 0 ==> m["trace_id"@] == Json::Text(row.trace_id)
            &&& m.dom().contains("span_id"@) == (row.span_id.len() > 0)
            &&& row.span_id.len() > 0 ==> m["span_id"@] == Json::Text(row.span_id)
            &&& m.dom().contains("schema_url"@) == (row.schema_url.len() > 0)
            &&& row.schema_url.len() > 0 ==> m["schema_url"@] == Json::Text(row.schema_url)
            &&& m.dom().contains("attributes"@) == (row.attributes.len() > 0)
            &&& row.attributes.len() > 0 ==> m["attributes"@] == match json::json_parse(
                row.attributes,
            ) {
                Some(j) => j,
                None => Json::Null,
            }
            &&& forall|key: Seq<char>| #[trigger]
                m.dom().contains(key) ==> key == "id"@ || key == "severity"@ || key == "body"@
                    || key == "@timestamp"@ || key == "resource"@ || key == "trace_id"@ || key
                    == "span_id"@ || key == "attributes"@ || key == "schema_url"@
        }),
{
    documents::lemma_document_names();
    encode::law_rfc3339_reads_back(row.ts_nanos as int);
}

/// One for a value that is there, and none for one that is not.
pub open spec fn count_of<T>(v: Option<T>) -> int {
    if v is Some {
        1
    } else {
        0
    }
}

/// The values of a statement stand in the order of the conditions that they belong
/// to: the text to search for between `%`, the lowest severity, the service, the
/// earliest time, the rows before and behind, and last the number of rows.
pub proof fn law_values_stand_with_their_conditions(q: QueryView)
    ensures
        ({
            let p = store::params_of(q);
            let n1 = count_of(q.q);
            let n2 = n1 + count_of(q.min_severity);
            let n3 = n2 + count_of(q.service);
            let n4 = n3 + count_of(q.since_nanos);
            let n5 = n4 + count_of(q.after_id);
            let n6 = n5 + count_of(q.before_id);
            &&& p.len() == n6 + 1
            &&& q.q matches Some(t) ==> p[0] == ParamView::Text("%"@ + t + "%"@)
            &&& q.min_severity matches Some(n) ==> p[n1] == ParamView::Int(n as int)
            &&& q.service matches Some(t) ==> p[n2] == ParamView::Text(t)
            &&& q.since_nanos matches Some(n) ==> p[n3] == ParamView::Int(n as int)
            &&& q.after_id matches Some(n) ==> p[n4] == ParamView::Int(n as int)
            &&& q.before_id matches Some(n) ==> p[n5] == ParamView::Int(n as int)
            &&& p[n6] == ParamView::Int(
                if q.limit == 0 {
                    1
                } else if q.limit > 1000 {
                    1000
                } else {
                    q.limit as int
                },
            )
        }),
{
}

/// A condition stands in a statement exactly if something is asked of its column:
/// taking it out of the query takes its words, and nothing else, out of the
/// statement. Rows come oldest first exactly if `after_id` is given.
pub proof fn law_conditions_of_a_statement(q: QueryView) -> (parts: Seq<Seq<char>>)
    ensures
        parts.len() == 9,
        store::sql_of(q) == parts[0] + parts[1] + parts[2] + parts[3] + parts[4] + parts[5]
            + parts[6] + parts[7] + parts[8],
        parts[0]
            == "SELECT id, ts_nanos, severity, service_name, host_name, instance_id, body, trace_id, span_id, attributes, schema_url FROM logs WHERE 1=1"@,
        if q.q is Some {
            parts[1] == " AND body LIKE ?"@
        } else {
            parts[1].len() == 0
        },
        if q.min_severity is Some {
            parts[2] == " AND severity >= ?"@
        } else {
            parts[2].len() == 0
        },
        if q.service is Some {
            parts[3] == " AND service_name = ?"@
        } else {
            parts[3].len() == 0
        },
        if q.since_nanos is Some {
            parts[4] == " AND ts_nanos >= ?"@
        } else {
            parts[4].len() == 0
        },
        if q.after_id is Some {
            parts[5] == " AND id > ?"@
        } else {
            parts[5].len() == 0
        },
        if q.before_id is Some {
            parts[6] == " AND id < ?"@
        } else {
            parts[6].len() == 0
        },
        parts[7] == if q.after_id is Some {
            " ORDER BY id ASC"@
        } else {
            " ORDER BY id DESC"@
        },
        parts[8] == " LIMIT ?"@,
{
    seq![
        store::select_words(),
        store::when(q.q is Some, " AND body LIKE ?"@),
        store::when(q.min_severity is Some, " AND severity >= ?"@),
        store::when(q.service is Some, " AND service_name = ?"@),
        store::when(q.since_nanos is Some, " AND ts_nanos >= ?"@),
        store::when(q.after_id is Some, " AND id > ?"@),
        store::when(q.before_id is Some, " AND id < ?"@),
        if q.after_id is Some {
            " ORDER BY id ASC"@
        } else {
            " ORDER BY id DESC"@
        },
        " LIMIT ?"@,
    ]
}

/// The cutoff lies the longest age before now, as far as that can be counted.
pub proof fn law_cutoff_lies_the_age_before_now(now: i64, age: i64)
    ensures
        i64::MIN <= now - age <= i64::MAX ==> store::cutoff(now as int, age as int) == now - age,
        now - age < i64::MIN ==> store::cutoff(now as int, age as int) == i64::MIN,
        now - age > i64::MAX ==> store::cutoff(now as int, age as int) == i64::MAX,
{
}

/// A limit between one and a thousand stays as it is, and any other becomes the
/// nearer of the two.
pub proof fn law_limits_are_clamped(n: usize)
    ensures
        1 <= n <= 1000 ==> store::clamped(n) == n,
        n == 0 ==> store::clamped(n) == 1,
        n > 1000 ==> store::clamped(n) == 1000,
{
}

/// Views show every column of a row, every value of a statement, and the document
/// of every row of a result.
pub proof fn law_views_show_rows(
    r: LogRow,
    p: Param,
    rows: Seq<LogRow>,
    params: Seq<Param>,
    stored: Seq<StoredRow>,
)
    ensures
        r@.ts_nanos == r.ts_nanos,
        r@.severity == r.severity,
        r@.service_name == r.service_name@,
        r@.host_name == r.host_name@,
        r@.instance_id == r.instance_id@,
        r@.body == r.body@,
        r@.trace_id == r.trace_id@,
        r@.span_id == r.span_id@,
        r@.attributes == r.attributes@,
        r@.schema_url == r.schema_url@,
        match p {
            Param::Text(s) => p@ == ParamView::Text(s@),
            Param::Int(n) => p@ == ParamView::Int(n as int),
        },
        store::rows_view(rows).len() == rows.len(),
        forall|i: int| 0 <= i < rows.len() ==> #[trigger] store::rows_view(rows)[i] == rows[i]@,
        store::params_view(params).len() == params.len(),
        forall|i: int|
            0 <= i < params.len() ==> #[trigger] store::params_view(params)[i] == params[i]@,
        store::documents(stored).len() == stored.len(),
        forall|i: int|
            0 <= i < stored.len() ==> #[trigger] store::documents(stored)[i] == Json::Object(
                store::row_entries(stored[i].id, stored[i].row@),
            ),
{
}

/// The oldest and the newest number of a result are numbers of its rows, and no row
/// has a lower or a higher one; only a result without rows has none.
pub proof fn law_lowest_and_highest_number(rows: Seq<StoredRow>, n: i64, i: int)
    ensures
        store::is_oldest(rows, Some(n)) && 0 <= i < rows.len() ==> n <= rows[i].id,
        store::is_newest(rows, Some(n)) && 0 <= i < rows.len() ==> n >= rows[i].id,
        store::is_oldest(rows, Some(n)) || store::is_newest(rows, Some(n)) ==> exists|k: int|
            0 <= k < rows.len() && (#[trigger] rows[k]).id == n,
        store::is_oldest(rows, None) == (rows.len() == 0),
        store::is_newest(rows, None) == (rows.len() == 0),
{
}

} // verus!
