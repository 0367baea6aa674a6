//! Laws of JSON documents and of bulk requests.

use vstd::prelude::*;

use crate::json;
use crate::json::Json;
use crate::number;
use crate::number::IntFault;
use crate::proto;
use crate::proto::{AnyView, RecordView};
use crate::sink::elastic;
use crate::sink::encode;
use crate::spillover;

verus! {

// ---------------------------------------------------------------------------
// Bytes
// ---------------------------------------------------------------------------

/// What a hexadecimal digit in small letters stands for.
pub open spec fn nibble(c: char) -> int {
    if '0' <= c <= '9' {
        c as u32 - 48
    } else if 'a' <= c <= 'f' {
        c as u32 - 87
    } else {
        -1
    }
}

/// Whether a text is the hexadecimal text of a row of bytes: two digits for each,
/// the higher one first.
pub open spec fn spells(t: Seq<char>, bytes: Seq<u8>) -> bool {
    &&& t.len() == 2 * bytes.len()
    &&& forall|i: int|
        0 <= i < bytes.len() ==> 0 <= nibble(#[trigger] t[2 * i]) && 0 <= nibble(t[2 * i + 1])
            && nibble(t[2 * i]) * 16 + nibble(t[2 * i + 1]) == bytes[i]
}

/// The hexadecimal text of bytes spells them.
pub proof fn law_hex_spells_the_bytes(bytes: Seq<u8>)
    ensures
        spells(encode::hex_text(bytes), bytes),
{
    let t = encode::hex_text(bytes);
    assert forall|i: int| 0 <= i < bytes.len() implies 0 <= nibble(#[trigger] t[2 * i])
        && 0 <= nibble(t[2 * i + 1]) && nibble(t[2 * i]) * 16 + nibble(t[2 * i + 1])
        == bytes[i] by {
        assert(2 * i % 2 == 0 && 2 * i / 2 == i);
        assert((2 * i + 1) % 2 == 1 && (2 * i + 1) / 2 == i);
        let b = bytes[i];
        lemma_nibble(b as int / 16);
        lemma_nibble(b as int % 16);
    }
}

proof fn lemma_nibble(n: int)
    requires
        0 <= n < 16,
    ensures
        nibble(encode::hex_digit(n)) == n,
{
}

/// One text spells one row of bytes only.
pub proof fn law_one_text_spells_one_row(t: Seq<char>, a: Seq<u8>, b: Seq<u8>)
    requires
        spells(t, a),
        spells(t, b),
    ensures
        a == b,
{
    assert forall|i: int| 0 <= i < a.len() implies a[i] == b[i] by {
        assert(nibble(t[2 * i]) * 16 + nibble(t[2 * i + 1]) == a[i]);
    }
    assert(a =~= b);
}

// ---------------------------------------------------------------------------
// Attributes
// ---------------------------------------------------------------------------

/// The value that counts for a name: the last one that is given for it.
pub open spec fn last_value(s: Seq<(Seq<char>, Option<AnyView>)>, key: Seq<char>) -> Option<AnyView>
    decreases s.len(),
{
    if s.len() == 0 {
        None
    } else if s.last().0 == key && s.last().1 is Some {
        s.last().1
    } else {
        last_value(s.drop_last(), key)
    }
}

/// Whether a value is a text, an integer or a truth value.
pub open spec fn is_plain(v: AnyView) -> bool {
    v is Text || v is Int || v is Bool
}

/// Whether an object has an entry for each name with a value, and no other.
pub open spec fn is_object_of(
    m: Map<Seq<char>, Json>,
    s: Seq<(Seq<char>, Option<AnyView>)>,
) -> bool {
    forall|key: Seq<char>|
        #![trigger m.dom().contains(key)]
        #![trigger last_value(s, key)]
        match last_value(s, key) {
            Some(v) => m.dom().contains(key) && m[key] == encode::any_json(v),
            None => !m.dom().contains(key),
        }
}

/// The JSON object of attributes has an entry for each name with a value, which is
/// that of the last value given for the name.
pub proof fn law_attributes_are_entries(s: Seq<(Seq<char>, Option<AnyView>)>)
    ensures
        is_object_of(encode::entries_json(s), s),
    decreases s.len(),
{
    if s.len() > 0 {
        law_attributes_are_entries(s.drop_last());
        let m = encode::entries_json(s);
        let old = encode::entries_json(s.drop_last());
        assert forall|key: Seq<char>|
            #![trigger m.dom().contains(key)]
            #![trigger last_value(s, key)]
            match last_value(s, key) {
                Some(v) => m.dom().contains(key) && m[key] == encode::any_json(v),
                None => !m.dom().contains(key),
            } by {
            assert(match last_value(s.drop_last(), key) {
                Some(v) => old.dom().contains(key) && old[key] == encode::any_json(v),
                None => !old.dom().contains(key),
            });
        }
    }
}

/// Each kind of attribute value has the JSON of its kind: a truth value is that
/// truth value, an integer is a number that reads as it, a text is itself, bytes
/// are the text that spells them, a list is the list of its values' JSON, and named
/// values are an object. A float is the number that stands for it, or null.
pub proof fn law_json_of_every_kind(
    v: AnyView,
    b: bool,
    n: i64,
    t: Seq<char>,
    bytes: Seq<u8>,
    bits: u64,
    list: Seq<AnyView>,
    entries: Seq<(Seq<char>, Option<AnyView>)>,
)
    ensures
        encode::any_json(AnyView::Bool(b)) == Json::Bool(b),
        encode::any_json(AnyView::Int(n)) matches Json::Num(x) && number::read_signed(
            x,
            i64::MAX as nat,
        ) == Ok::<int, IntFault>(n as int),
        encode::any_json(AnyView::Text(t)) == Json::Text(t),
        encode::any_json(AnyView::Bytes(bytes)) matches Json::Text(x) && spells(x, bytes),
        encode::any_json(AnyView::Double(bits, Some(t))) == Json::Num(t),
        encode::any_json(AnyView::Double(bits, None)) == Json::Null,
        encode::any_json(AnyView::Absent) == Json::Null,
        encode::any_json(AnyView::Array(list)) matches Json::Array(x) && x.len() == list.len()
            && forall|i: int|
            0 <= i < list.len() ==> #[trigger] x[i] == encode::any_json(list[i]),
        encode::any_json(AnyView::Entries(entries)) matches Json::Object(x) && is_object_of(
            x,
            entries,
        ),
{
    number::law_signed_decimal_reads_back(n as int, i64::MAX as nat);
    law_hex_spells_the_bytes(bytes);
    lemma_values_json(list);
    law_attributes_are_entries(entries);
}

proof fn lemma_values_json(s: Seq<AnyView>)
    ensures
        encode::values_json(s).len() == s.len(),
        forall|i: int|
            0 <= i < s.len() ==> #[trigger] encode::values_json(s)[i] == encode::any_json(s[i]),
    decreases s.len(),
{
    if s.len() > 0 {
        lemma_values_json(s.drop_last());
    }
}

/// Two texts, integers or truth values have the same JSON only if they are the
/// same value.
pub proof fn law_plain_values_have_their_own_json(v: AnyView, w: AnyView)
    requires
        is_plain(v),
        is_plain(w),
        encode::any_json(v) == encode::any_json(w),
    ensures
        v == w,
{
    match v {
        AnyView::Int(n) => {
            number::law_signed_decimal_reads_back(n as int, i64::MAX as nat);
            if let AnyView::Int(m) = w {
                number::law_signed_decimal_reads_back(m as int, i64::MAX as nat);
            }
        },
        _ => {},
    }
}

// ---------------------------------------------------------------------------
// Records
// ---------------------------------------------------------------------------

/// Whether a value is a text that reads as a point in time.
pub open spec fn is_time(j: Json, ts: proto::Timestamp) -> bool {
    j matches Json::Text(t) && encode::is_rfc3339(t) && encode::rfc3339_instant(t) == ts.seconds
        * 1_000_000_000 + ts.nanos
}

/// Whether a value is an object that holds just the three names of a resource.
pub open spec fn is_identity(j: Json, x: proto::ResourceView) -> bool {
    j matches Json::Object(o) && {
        &&& o.dom().contains("service_name"@) && o["service_name"@] == Json::Text(x.service_name)
        &&& o.dom().contains("host_name"@) && o["host_name"@] == Json::Text(x.host_name)
        &&& o.dom().contains("instance_id"@) && o["instance_id"@] == Json::Text(x.instance_id)
        &&& forall|key: Seq<char>| #[trigger]
            o.dom().contains(key) ==> key == "service_name"@ || key == "host_name"@ || key
                == "instance_id"@
    }
}

/// Whether an object is the document of a record: it has each part that the record
/// has, under its name, and no other.
pub open spec fn is_document_of(m: Map<Seq<char>, Json>, r: RecordView) -> bool {
    &&& m.dom().contains("severity"@) && m["severity"@] == Json::Num(
        number::signed_decimal(r.severity as int),
    )
    &&& m.dom().contains("body"@) && m["body"@] == Json::Text(r.body)
    &&& m.dom().contains("@timestamp"@) == r.timestamp is Some
    &&& r.timestamp matches Some(ts) ==> is_time(m["@timestamp"@], ts)
    &&& m.dom().contains("resource"@) == r.resource is Some
    &&& r.resource matches Some(x) ==> is_identity(m["resource"@], x)
    &&& m.dom().contains("trace_id"@) == (r.trace_id.len() > 0)
    &&& r.trace_id.len() > 0 ==> (m["trace_id"@] matches Json::Text(t) && spells(t, r.trace_id))
    &&& m.dom().contains("span_id"@) == (r.span_id.len() > 0)
    &&& r.span_id.len() > 0 ==> (m["span_id"@] matches Json::Text(t) && spells(t, r.span_id))
    &&& m.dom().contains("attributes"@) == (r.attributes.len() > 0)
    &&& r.attributes.len() > 0 ==> (m["attributes"@] matches Json::Object(o) && is_object_of(
        o,
        r.attributes,
    ))
    &&& m.dom().contains("schema_url"@) == (r.schema_url.len() > 0)
    &&& r.schema_url.len() > 0 ==> m["schema_url"@] == Json::Text(r.schema_url)
    &&& forall|key: Seq<char>| #[trigger]
        m.dom().contains(key) ==> key == "severity"@ || key == "body"@ || key == "@timestamp"@
            || key == "resource"@ || key == "trace_id"@ || key == "span_id"@ || key
            == "attributes"@ || key == "schema_url"@
}

/// The names of the parts of a document are all different.
pub proof fn lemma_document_names()
    ensures
        "severity"@ != "body"@ && "severity"@ != "@timestamp"@ && "severity"@ != "resource"@,
        "severity"@ != "trace_id"@ && "severity"@ != "span_id"@ && "severity"@ != "attributes"@,
        "severity"@ != "schema_url"@,
        "body"@ != "@timestamp"@ && "body"@ != "resource"@ && "body"@ != "trace_id"@,
        "body"@ != "span_id"@ && "body"@ != "attributes"@ && "body"@ != "schema_url"@,
        "@timestamp"@ != "resource"@ && "@timestamp"@ != "trace_id"@ && "@timestamp"@
            != "span_id"@,
        "@timestamp"@ != "attributes"@ && "@timestamp"@ != "schema_url"@,
        "resource"@ != "trace_id"@ && "resource"@ != "span_id"@ && "resource"@ != "attributes"@,
        "resource"@ != "schema_url"@,
        "trace_id"@ != "span_id"@ && "trace_id"@ != "attributes"@ && "trace_id"@ != "schema_url"@,
        "span_id"@ != "attributes"@ && "span_id"@ != "schema_url"@,
        "attributes"@ != "schema_url"@,
        "service_name"@ != "host_name"@ && "service_name"@ != "instance_id"@ && "host_name"@
            != "instance_id"@,
        "id"@ != "severity"@ && "id"@ != "body"@ && "id"@ != "@timestamp"@ && "id"@
            != "resource"@,
        "id"@ != "trace_id"@ && "id"@ != "span_id"@ && "id"@ != "attributes"@ && "id"@
            != "schema_url"@,
{
    reveal_strlit("id");
    reveal_strlit("severity");
    reveal_strlit("body");
    reveal_strlit("@timestamp");
    reveal_strlit("resource");
    reveal_strlit("trace_id");
    reveal_strlit("span_id");
    reveal_strlit("attributes");
    reveal_strlit("schema_url");
    reveal_strlit("service_name");
    reveal_strlit("host_name");
    reveal_strlit("instance_id");
    assert("id"@.len() == 2);
    assert("severity"@.len() == 8 && "severity"@[0] == 's');
    assert("body"@.len() == 4);
    assert("@timestamp"@.len() == 10 && "@timestamp"@[0] == '@');
    assert("resource"@.len() == 8 && "resource"@[0] == 'r');
    assert("trace_id"@.len() == 8 && "trace_id"@[0] == 't');
    assert("span_id"@.len() == 7);
    assert("attributes"@.len() == 10 && "attributes"@[0] == 'a');
    assert("schema_url"@.len() == 10 && "schema_url"@[0] == 's');
    assert("service_name"@.len() == 12);
    assert("host_name"@.len() == 9);
    assert("instance_id"@.len() == 11);
}

/// The document of a record has each part that the record has, under its name: its
/// severity and its body, its time as a text that reads as that time, the names of
/// its resource, an entry for each attribute with a value, and the hexadecimal
/// texts that spell its trace and its span. It has no other part.
pub proof fn law_document_has_every_part(r: RecordView)
    requires
        encode::record_fits(r),
    ensures
        is_document_of(encode::record_entries(r), r),
{
    lemma_document_names();
    law_hex_spells_the_bytes(r.trace_id);
    law_hex_spells_the_bytes(r.span_id);
    law_attributes_are_entries(r.attributes);
    if let Some(ts) = r.timestamp {
        encode::law_rfc3339_reads_back(encode::unix_nanos(ts));
    }
}

/// One document is that of records that agree in severity, body, time, the names
/// of the resource, trace, span and schema, and whose attributes have the same JSON
/// under the same names. Attributes that are texts, integers or truth values are
/// the same.
pub proof fn law_documents_tell_records_apart(
    m: Map<Seq<char>, Json>,
    a: RecordView,
    b: RecordView,
    key: Seq<char>,
)
    requires
        is_document_of(m, a),
        is_document_of(m, b),
    ensures
        a.severity == b.severity,
        a.body == b.body,
        a.timestamp is Some == b.timestamp is Some,
        a.timestamp is Some ==> a.timestamp->Some_0.seconds * 1_000_000_000
            + a.timestamp->Some_0.nanos == b.timestamp->Some_0.seconds * 1_000_000_000
            + b.timestamp->Some_0.nanos,
        a.resource is Some == b.resource is Some,
        a.resource is Some ==> {
            &&& a.resource->Some_0.service_name == b.resource->Some_0.service_name
            &&& a.resource->Some_0.host_name == b.resource->Some_0.host_name
            &&& a.resource->Some_0.instance_id == b.resource->Some_0.instance_id
        },
        a.trace_id == b.trace_id,
        a.span_id == b.span_id,
        a.schema_url == b.schema_url,
        match (last_value(a.attributes, key), last_value(b.attributes, key)) {
            (Some(v), Some(w)) => encode::any_json(v) == encode::any_json(w) && (is_plain(v)
                && is_plain(w) ==> v == w),
            (None, None) => true,
            _ => false,
        },
{
    number::law_signed_decimal_reads_back(a.severity as int, i32::MAX as nat);
    number::law_signed_decimal_reads_back(b.severity as int, i32::MAX as nat);
    if a.trace_id.len() > 0 {
        law_one_text_spells_one_row(m["trace_id"@]->Text_0, a.trace_id, b.trace_id);
    } else {
        assert(a.trace_id =~= b.trace_id);
    }
    if a.span_id.len() > 0 {
        law_one_text_spells_one_row(m["span_id"@]->Text_0, a.span_id, b.span_id);
    } else {
        assert(a.span_id =~= b.span_id);
    }
    if a.schema_url.len() == 0 {
        assert(a.schema_url =~= b.schema_url);
    }
    if a.attributes.len() > 0 {
        let o = m["attributes"@]->Object_0;
        assert(is_object_of(o, a.attributes) && is_object_of(o, b.attributes));
        match (last_value(a.attributes, key), last_value(b.attributes, key)) {
            (Some(v), Some(w)) => {
                if is_plain(v) && is_plain(w) {
                    law_plain_values_have_their_own_json(v, w);
                }
            },
            _ => {},
        }
    } else {
        assert(last_value(a.attributes, key) is None && last_value(b.attributes, key) is None);
    }
}

// ---------------------------------------------------------------------------
// Bulk requests
// ---------------------------------------------------------------------------

/// The line behind an action line is the JSON text of the document of the record,
/// with all its parts.
pub proof fn law_document_line_holds_the_record(r: RecordView)
    requires
        encode::record_fits(r),
    ensures
        exists|m: Map<Seq<char>, Json>|
            elastic::document_line(r) == #[trigger] json::json_text(Json::Object(m))
                && is_document_of(m, r),
{
    law_document_has_every_part(r);
    let m = encode::record_entries(r);
    assert(elastic::document_line(r) == json::json_text(Json::Object(m)) && is_document_of(m, r));
}

/// Where the lines of two records are read back by a JSON parser, and are the
/// same line, the records agree in severity, body, time, the names of the resource,
/// trace, span and schema, and in the attributes that are texts, integers or truth
/// values.
pub proof fn law_lines_tell_records_apart(a: RecordView, b: RecordView, key: Seq<char>)
    requires
        encode::record_fits(a),
        encode::record_fits(b),
        forall|m: Map<Seq<char>, Json>|
            is_document_of(m, a) || is_document_of(m, b) ==> json::json_parse(
                #[trigger] json::json_text(Json::Object(m)),
            ) == Some(Json::Object(m)),
        elastic::document_line(a) == elastic::document_line(b),
    ensures
        a.severity == b.severity,
        a.body == b.body,
        a.timestamp is Some == b.timestamp is Some,
        a.timestamp is Some ==> encode::unix_nanos(a.timestamp->Some_0) == encode::unix_nanos(
            b.timestamp->Some_0,
        ),
        a.resource is Some == b.resource is Some,
        a.resource is Some ==> {
            &&& a.resource->Some_0.service_name == b.resource->Some_0.service_name
            &&& a.resource->Some_0.host_name == b.resource->Some_0.host_name
            &&& a.resource->Some_0.instance_id == b.resource->Some_0.instance_id
        },
        a.trace_id == b.trace_id,
        a.span_id == b.span_id,
        a.schema_url == b.schema_url,
        match (last_value(a.attributes, key), last_value(b.attributes, key)) {
            (Some(v), Some(w)) => is_plain(v) && is_plain(w) ==> v == w,
            (None, None) => true,
            _ => false,
        },
{
    law_document_line_holds_the_record(a);
    law_document_line_holds_the_record(b);
    let m = choose|m: Map<Seq<char>, Json>|
        elastic::document_line(a) == #[trigger] json::json_text(Json::Object(m))
            && is_document_of(m, a);
    let n = choose|n: Map<Seq<char>, Json>|
        elastic::document_line(b) == #[trigger] json::json_text(Json::Object(n))
            && is_document_of(n, b);
    assert(Json::Object(m) == Json::Object(n));
    law_documents_tell_records_apart(m, a, b, key);
}

/// A bulk body has two lines for each record, in the order of the records: the
/// action, which names the index, and the document of that record. Behind the last
/// line end stands nothing.
pub proof fn law_bulk_lines(index: Seq<char>, records: Seq<RecordView>, i: int)
    requires
        0 <= i < records.len(),
    ensures
        elastic::bulk_lines(index, records).len() == 2 * records.len() + 1,
        elastic::bulk_lines(index, records)[2 * i] == "{\"index\":{\"_index\":\""@ + index
            + "\"}}"@,
        elastic::bulk_lines(index, records)[2 * i + 1] == elastic::document_line(records[i]),
        elastic::bulk_lines(index, records)[2 * records.len() as int].len() == 0,
    decreases records.len(),
{
    let rest = records.skip(1);
    lemma_bulk_lines_len(index, rest);
    if i > 0 {
        law_bulk_lines(index, rest, i - 1);
        assert(rest[i - 1] == records[i]);
    } else if rest.len() > 0 {
        law_bulk_lines(index, rest, 0);
    }
}

proof fn lemma_bulk_lines_len(index: Seq<char>, records: Seq<RecordView>)
    ensures
        elastic::bulk_lines(index, records).len() == 2 * records.len() + 1,
    decreases records.len(),
{
    if records.len() > 0 {
        lemma_bulk_lines_len(index, records.skip(1));
    }
}

/// A bulk body is made of the two lines of each record, each with a line end.
pub proof fn law_bulk_body_grows_by_two_lines(
    index: Seq<char>,
    records: Seq<RecordView>,
    r: RecordView,
)
    ensures
        elastic::bulk_text(index, Seq::empty()).len() == 0,
        elastic::bulk_text(index, records.push(r)) == elastic::bulk_text(index, records)
            + "{\"index\":{\"_index\":\""@ + index + "\"}}"@ + "\n"@ + elastic::document_line(r)
            + "\n"@,
    decreases records.len(),
{
    let all = records.push(r);
    if records.len() == 0 {
        assert(all.skip(1) =~= Seq::empty());
        assert(elastic::bulk_text(index, all.skip(1)) =~= Seq::empty());
        assert(elastic::bulk_text(index, records) =~= Seq::empty());
        assert(elastic::bulk_text(index, all) =~= elastic::bulk_text(index, records)
            + "{\"index\":{\"_index\":\""@ + index + "\"}}"@ + "\n"@ + elastic::document_line(r)
            + "\n"@);
    } else {
        law_bulk_body_grows_by_two_lines(index, records.skip(1), r);
        assert(all.skip(1) =~= records.skip(1).push(r));
        assert(elastic::bulk_text(index, all) =~= elastic::bulk_text(index, records)
            + "{\"index\":{\"_index\":\""@ + index + "\"}}"@ + "\n"@ + elastic::document_line(r)
            + "\n"@);
    }
}

/// The bodies of the requests for a batch, one behind the other, are the body for
/// all of its records: none is left out, doubled or moved.
pub proof fn law_requests_hold_all_records(
    index: Seq<char>,
    records: Seq<RecordView>,
    size: nat,
)
    ensures
        elastic::bulk_texts(index, records, size).flatten() == elastic::bulk_text(index, records),
    decreases records.len(),
{
    let bodies = elastic::bulk_texts(index, records, size);
    if records.len() == 0 {
        assert(bodies =~= Seq::empty());
        assert(bodies.flatten() =~= elastic::bulk_text(index, records));
    } else if size == 0 || records.len() <= size {
        assert(bodies =~= seq![elastic::bulk_text(index, records)]);
        bodies.lemma_flatten_one_element();
    } else {
        let head = records.take(size as int);
        let tail = records.skip(size as int);
        law_requests_hold_all_records(index, tail, size);
        let rest = elastic::bulk_texts(index, tail, size);
        assert(bodies =~= seq![elastic::bulk_text(index, head)] + rest);
        assert(bodies.drop_first() =~= rest);
        lemma_bulk_text_joins(index, head, tail);
        assert(head + tail =~= records);
    }
}

proof fn lemma_bulk_text_joins(index: Seq<char>, a: Seq<RecordView>, b: Seq<RecordView>)
    ensures
        elastic::bulk_text(index, a + b) == elastic::bulk_text(index, a) + elastic::bulk_text(
            index,
            b,
        ),
    decreases a.len(),
{
    if a.len() == 0 {
        assert(a + b =~= b);
        assert(elastic::bulk_text(index, a) =~= Seq::empty());
        assert(elastic::bulk_text(index, a) + elastic::bulk_text(index, b) =~= elastic::bulk_text(
            index,
            b,
        ));
    } else {
        lemma_bulk_text_joins(index, a.skip(1), b);
        assert((a + b).skip(1) =~= a.skip(1) + b);
        assert((a + b)[0] == a[0]);
        assert(elastic::bulk_text(index, a + b) =~= elastic::bulk_text(index, a)
            + elastic::bulk_text(index, b));
    }
}

/// The bulk requests for a node go to its address with `/_bulk` behind it, however
/// many slashes the address ends with.
pub proof fn law_slashes_do_not_matter(address: Seq<char>, slashes: Seq<char>)
    requires
        address.len() == 0 || address.last() != '/',
        forall|i: int| 0 <= i < slashes.len() ==> slashes[i] == '/',
    ensures
        elastic::bulk_address(address + slashes) == address + "/_bulk"@,
    decreases slashes.len(),
{
    if slashes.len() == 0 {
        assert(address + slashes =~= address);
    } else {
        law_slashes_do_not_matter(address, slashes.drop_last());
        assert((address + slashes).drop_last() =~= address + slashes.drop_last());
    }
}

/// A time is counted in nanoseconds, and can be if neither the seconds nor the sum
/// leave the range of 64 bits.
pub proof fn law_times_that_can_be_counted(
    ts: proto::Timestamp,
    r: RecordView,
    s: Seq<RecordView>,
    i: int,
)
    ensures
        encode::record_fits(r) == (r.timestamp is None || encode::time_fits(r.timestamp->Some_0)),
        encode::unix_nanos(ts) == ts.seconds * 1_000_000_000 + ts.nanos,
        encode::time_fits(ts) <==> {
            &&& -9_223_372_036_854_775_808 <= ts.seconds * 1_000_000_000
                <= 9_223_372_036_854_775_807
            &&& -9_223_372_036_854_775_808 <= ts.seconds * 1_000_000_000 + ts.nanos
                <= 9_223_372_036_854_775_807
        },
        encode::records_fit(s) && 0 <= i < s.len() ==> match s[i].timestamp {
            Some(t) => encode::time_fits(t),
            None => true,
        },
        (forall|k: int|
            0 <= k < s.len() ==> (#[trigger] s[k]).timestamp is None || encode::time_fits(
                s[k].timestamp->Some_0,
            )) ==> encode::records_fit(s),
{
}

/// A frame begins with the length of its bytes and their checksum, each as four
/// bytes with the lowest first, and ends with the bytes.
pub proof fn law_layout_of_a_frame(data: Seq<u8>)
    requires
        data.len() <= u32::MAX,
    ensures
        ({
            let f = spillover::frame(data);
            let n = data.len() as int;
            let c = spillover::crc32(data) as int;
            &&& f.len() == 8 + data.len()
            &&& f[0] == n % 256 && f[1] == n / 256 % 256 && f[2] == n / 65_536 % 256 && f[3] == n
                / 16_777_216
            &&& f[4] == c % 256 && f[5] == c / 256 % 256 && f[6] == c / 65_536 % 256 && f[7] == c
                / 16_777_216
            &&& f.skip(8) == data
        }),
{
    assert(spillover::frame(data).skip(8) =~= data);
}

} // verus!
