//! Laws of the log viewer: its queries, its access control and its answers.

use vstd::prelude::*;
use vstd::utf8;

use crate::duration;
use crate::http;
use crate::http::HttpResponse;
use crate::json;
use crate::json::Json;
use crate::laws::settings;
use crate::laws::words;
use crate::number;
use crate::number::IntFault;
use crate::sink::store;
use crate::sink::store::{LogQuery, QueryView};
use crate::text;
use crate::viewer;
use crate::viewer::base64;

verus! {

// ---------------------------------------------------------------------------
// Single parameters
// ---------------------------------------------------------------------------

/// The query that asks for nothing in particular, with at most a hundred rows.
pub open spec fn open_query() -> QueryView {
    QueryView {
        q: None,
        min_severity: None,
        service: None,
        since_nanos: None,
        after_id: None,
        before_id: None,
        limit: 100,
    }
}

/// Whether a text can stand in a query string as it is.
pub open spec fn is_unreserved(s: Seq<char>) -> bool {
    &&& utf8::is_ascii_chars(s)
    &&& forall|i: int|
        0 <= i < s.len() ==> #[trigger] s[i] != '&' && s[i] != '+' && s[i] != '%'
}

proof fn lemma_unreserved(s: Seq<char>)
    requires
        is_unreserved(s),
    ensures
        viewer::form_text(s) == s,
{
    let b = utf8::encode_utf8(s);
    utf8::is_ascii_chars_encode_utf8(s);
    assert forall|i: int| 0 <= i < b.len() implies b[i] != 43 && b[i] != 37 by {
        assert(s[i] as u8 == b[i]);
        assert(s[i] != '+' && s[i] != '%');
        assert('\0' <= s[i] <= '\u{7f}');
    }
    viewer::law_plain_bytes_stay(b);
    words::law_bytes_of_a_text_are_read(s);
}

/// A query string with one parameter describes the query in which that parameter
/// has been taken into account. Its value is all that stands behind the first `=`.
pub proof fn law_one_parameter(key: Seq<char>, raw: Seq<char>, now_nanos: i64)
    requires
        !key.contains('&'),
        !key.contains('='),
        !raw.contains('&'),
    ensures
        viewer::query_of(key + "="@ + raw, now_nanos) == viewer::with_param(
            open_query(),
            key,
            viewer::form_text(raw),
            now_nanos,
        ),
{
    reveal_strlit("=");
    let pair = key + "="@ + raw;
    if pair.contains('&') {
        let i = choose|i: int| 0 <= i < pair.len() && pair[i] == '&';
        if i < key.len() {
            assert(key[i] == '&');
        } else if i > key.len() {
            assert(raw[i - key.len() - 1] == '&');
        }
    }
    words::law_pieces_stand_between_separators(pair, Seq::empty(), '&');
    text::lemma_first_at(pair, '=');
    let at = text::first_at(pair, '=');
    if at < key.len() {
        assert(pair[at] == key[at]);
        assert(key.contains(key[at]));
    }
    assert(pair[key.len() as int] == '=');
    assert(at == key.len());
    assert(viewer::key_of(pair) =~= key);
    assert(pair.skip(at + 1) =~= raw);
    assert(viewer::value_of(pair) == viewer::form_text(raw));
    assert(seq![pair].skip(1) =~= seq![]);
    assert(forall|v: QueryView| viewer::with_params(v, seq![], now_nanos) == Some(v));
    assert(store::open_query(100) == open_query());
    match viewer::with_param(open_query(), key, viewer::form_text(raw), now_nanos) {
        Some(v) => {
            assert(viewer::with_params(v, seq![pair].skip(1), now_nanos) == Some(v));
        },
        None => {},
    }
}

proof fn lemma_number_is_unreserved(n: int)
    ensures
        is_unreserved(number::signed_decimal(n)),
        !number::signed_decimal(n).contains('&'),
{
    let m: nat = if n < 0 {
        (-n) as nat
    } else {
        n as nat
    };
    let d = number::decimal(m);
    let s = number::signed_decimal(n);
    words::law_decimal_text(m);
    assert forall|i: int| 0 <= i < s.len() implies s[i] == '-' || '0' <= #[trigger] s[i]
        <= '9' by {
        if n < 0 && i > 0 {
            assert(s[i] == d[i - 1]);
        }
    }
}

proof fn lemma_keys()
    ensures
        !"q"@.contains('&') && !"q"@.contains('='),
        !"min_severity"@.contains('&') && !"min_severity"@.contains('='),
        !"service"@.contains('&') && !"service"@.contains('='),
        !"since"@.contains('&') && !"since"@.contains('='),
        !"after_id"@.contains('&') && !"after_id"@.contains('='),
        !"before_id"@.contains('&') && !"before_id"@.contains('='),
        !"limit"@.contains('&') && !"limit"@.contains('='),
        "q"@.len() == 1 && "min_severity"@.len() == 12 && "service"@.len() == 7 && "since"@.len()
            == 5 && "after_id"@.len() == 8 && "before_id"@.len() == 9 && "limit"@.len() == 5,
        "since"@ != "limit"@,
{
    reveal_strlit("q");
    reveal_strlit("min_severity");
    reveal_strlit("service");
    reveal_strlit("since");
    reveal_strlit("after_id");
    reveal_strlit("before_id");
    reveal_strlit("limit");
    assert("since"@[0] == 's' && "limit"@[0] == 'l');
}

/// The number of a row behind `after_id` or `before_id` sets that field to the
/// number, and leaves all others as they are.
pub proof fn law_row_numbers_are_asked_for(n: i64, now_nanos: i64)
    ensures
        viewer::query_of("before_id"@ + "="@ + number::signed_decimal(n as int), now_nanos)
            == Some(QueryView { before_id: Some(n), ..open_query() }),
        viewer::query_of("after_id"@ + "="@ + number::signed_decimal(n as int), now_nanos) == Some(
            QueryView { after_id: Some(n), ..open_query() },
        ),
{
    let t = number::signed_decimal(n as int);
    lemma_keys();
    lemma_number_is_unreserved(n as int);
    lemma_unreserved(t);
    number::law_signed_decimal_reads_back(n as int, i64::MAX as nat);
    law_one_parameter("before_id"@, t, now_nanos);
    law_one_parameter("after_id"@, t, now_nanos);
}

/// The number behind `limit` sets the number of rows, between one and a thousand.
pub proof fn law_limit_is_asked_for(n: nat, now_nanos: i64)
    requires
        n <= usize::MAX,
    ensures
        viewer::query_of("limit"@ + "="@ + number::decimal(n), now_nanos) == Some(
            QueryView {
                limit: if n == 0 {
                    1
                } else if n > 1000 {
                    1000
                } else {
                    n as usize
                },
                ..open_query()
            },
        ),
{
    lemma_keys();
    words::law_decimal_text(n);
    lemma_number_is_unreserved(n as int);
    lemma_unreserved(number::decimal(n));
    number::law_decimal_reads_back(n, usize::MAX as nat);
    law_one_parameter("limit"@, number::decimal(n), now_nanos);
}

/// The number behind `min_severity` sets the lowest severity.
pub proof fn law_severity_number_is_asked_for(n: i32, now_nanos: i64)
    ensures
        viewer::query_of("min_severity"@ + "="@ + number::signed_decimal(n as int), now_nanos)
            == Some(QueryView { min_severity: Some(n), ..open_query() }),
{
    let t = number::signed_decimal(n as int);
    lemma_keys();
    lemma_number_is_unreserved(n as int);
    lemma_unreserved(t);
    law_severity_numbers(n);
    law_one_parameter("min_severity"@, t, now_nanos);
}

/// The name of a severity behind `min_severity`, in any case, sets the lowest
/// severity.
pub proof fn law_severity_name_is_asked_for(t: Seq<char>, now_nanos: i64)
    requires
        is_unreserved(t),
    ensures
        viewer::query_of("min_severity"@ + "="@ + t, now_nanos) == Some(
            QueryView { min_severity: viewer::severity_of(t), ..open_query() },
        ),
        settings::spells(t, "error"@) ==> viewer::query_of(
            "min_severity"@ + "="@ + t,
            now_nanos,
        ) == Some(QueryView { min_severity: Some(17), ..open_query() }),
{
    lemma_keys();
    lemma_unreserved(t);
    assert(!t.contains('&')) by {
        if t.contains('&') {
            let i = choose|i: int| 0 <= i < t.len() && t[i] == '&';
            assert(t[i] != '&');
        }
    }
    law_one_parameter("min_severity"@, t, now_nanos);
    if settings::spells(t, "error"@) {
        assert(Seq::<char>::empty() + t + Seq::<char>::empty() =~= t);
        law_severity_names(Seq::empty(), t, Seq::empty());
    }
}

/// Any name behind `service`, written with `%`, sets the service to that name.
pub proof fn law_any_service_is_asked_for(s: Seq<char>, now_nanos: i64)
    requires
        s.len() > 0,
    ensures
        viewer::query_of("service"@ + "="@ + viewer::percent_text(s), now_nanos) == Some(
            QueryView { service: Some(s), ..open_query() },
        ),
{
    lemma_keys();
    viewer::law_any_text_can_be_sent(s);
    viewer::lemma_percent_is_ascii(utf8::encode_utf8(s));
    let raw = viewer::percent_text(s);
    if raw.contains('&') {
        let i = choose|i: int| 0 <= i < raw.len() && raw[i] == '&';
        assert(raw[i] == viewer::percent_encoded(utf8::encode_utf8(s))[i] as char);
    }
    law_one_parameter("service"@, raw, now_nanos);
}

/// A span behind `since` sets the earliest time to the time that lies that span
/// before now.
pub proof fn law_span_is_asked_for(n: nat, now_nanos: i64)
    requires
        n <= 9_223_372_036,
        now_nanos >= 0,
    ensures
        viewer::query_of("since"@ + "="@ + (number::decimal(n) + "s"@), now_nanos) == Some(
            QueryView {
                since_nanos: Some((now_nanos - n * 1_000_000_000) as i64),
                ..open_query()
            },
        ),
        n <= 153_722_867 ==> viewer::query_of(
            "since"@ + "="@ + (number::decimal(n) + "m"@),
            now_nanos,
        ) == Some(
            QueryView {
                since_nanos: Some((now_nanos - n * 60_000_000_000) as i64),
                ..open_query()
            },
        ),
        n <= 2_562_047 ==> viewer::query_of(
            "since"@ + "="@ + (number::decimal(n) + "h"@),
            now_nanos,
        ) == Some(
            QueryView {
                since_nanos: Some((now_nanos - n * 3_600_000_000_000) as i64),
                ..open_query()
            },
        ),
        n <= 106_751 ==> viewer::query_of(
            "since"@ + "="@ + (number::decimal(n) + "d"@),
            now_nanos,
        ) == Some(
            QueryView {
                since_nanos: Some((now_nanos - n * 86_400_000_000_000) as i64),
                ..open_query()
            },
        ),
{
    lemma_keys();
    duration::law_units(n);
    lemma_since(n, "s"@, 1_000_000_000, now_nanos);
    if n <= 153_722_867 {
        lemma_since(n, "m"@, 60_000_000_000, now_nanos);
    }
    if n <= 2_562_047 {
        lemma_since(n, "h"@, 3_600_000_000_000, now_nanos);
    }
    if n <= 106_751 {
        lemma_since(n, "d"@, 86_400_000_000_000, now_nanos);
    }
}

proof fn lemma_since(n: nat, unit: Seq<char>, nanos: nat, now_nanos: i64)
    requires
        unit == "s"@ || unit == "m"@ || unit == "h"@ || unit == "d"@,
        duration::read_duration(number::decimal(n) + unit) == Ok::<nat, Seq<char>>(n * nanos),
        n * nanos <= i64::MAX,
        now_nanos >= 0,
    ensures
        viewer::query_of("since"@ + "="@ + (number::decimal(n) + unit), now_nanos) == Some(
            QueryView { since_nanos: Some((now_nanos - n * nanos) as i64), ..open_query() },
        ),
{
    reveal_strlit("s");
    reveal_strlit("m");
    reveal_strlit("h");
    reveal_strlit("d");
    lemma_keys();
    words::law_decimal_text(n);
    lemma_number_is_unreserved(n as int);
    let d = number::decimal(n);
    let t = d + unit;
    assert forall|i: int| 0 <= i < t.len() implies #[trigger] t[i] != '&' && t[i] != '+' && t[i]
        != '%' && '\0' <= t[i] <= '\u{7f}' by {
        if i < d.len() {
            assert(t[i] == d[i]);
        } else {
            assert(t[i] == unit[i - d.len()]);
        }
    }
    lemma_unreserved(t);
    if t.contains('&') {
        let i = choose|i: int| 0 <= i < t.len() && t[i] == '&';
        assert(t[i] != '&');
    }
    law_one_parameter("since"@, t, now_nanos);
    words::law_low_bits((n * nanos) as nat);
}

/// A parameter changes at most the field of its name.
pub proof fn law_parameter_changes_one_field(
    q: QueryView,
    key: Seq<char>,
    value: Seq<char>,
    now_nanos: i64,
)
    ensures
        viewer::with_param(q, key, value, now_nanos) matches Some(r) ==> {
            &&& key != "q"@ ==> r.q == q.q
            &&& key != "min_severity"@ ==> r.min_severity == q.min_severity
            &&& key != "service"@ ==> r.service == q.service
            &&& key != "since"@ ==> r.since_nanos == q.since_nanos
            &&& key != "after_id"@ ==> r.after_id == q.after_id
            &&& key != "before_id"@ ==> r.before_id == q.before_id
            &&& key != "limit"@ ==> r.limit == q.limit
        },
        key != "since"@ ==> viewer::with_param(q, key, value, now_nanos) is Some,
{
    lemma_keys();
}

/// A parameter sets its field to the value that it names, whatever the query was
/// before: texts that are not empty as they are, numbers as they read, and nothing
/// where the number of a row or the severity cannot be read.
pub proof fn law_parameter_sets_its_field(
    q: QueryView,
    value: Seq<char>,
    now_nanos: i64,
    id: i64,
)
    ensures
        value.len() > 0 ==> viewer::with_param(q, "q"@, value, now_nanos) == Some(
            QueryView { q: Some(value), ..q },
        ),
        value.len() > 0 ==> viewer::with_param(q, "service"@, value, now_nanos) == Some(
            QueryView { service: Some(value), ..q },
        ),
        viewer::with_param(q, "min_severity"@, value, now_nanos) == Some(
            QueryView { min_severity: viewer::severity_of(value), ..q },
        ),
        number::read_signed(value, i64::MAX as nat) == Ok::<int, IntFault>(id as int) ==> {
            &&& viewer::with_param(q, "after_id"@, value, now_nanos) == Some(
                QueryView { after_id: Some(id), ..q },
            )
            &&& viewer::with_param(q, "before_id"@, value, now_nanos) == Some(
                QueryView { before_id: Some(id), ..q },
            )
        },
        number::read_signed(value, i64::MAX as nat) is Err ==> {
            &&& viewer::with_param(q, "after_id"@, value, now_nanos) == Some(
                QueryView { after_id: None, ..q },
            )
            &&& viewer::with_param(q, "before_id"@, value, now_nanos) == Some(
                QueryView { before_id: None, ..q },
            )
        },
{
    lemma_keys();
}

/// A query string in two parts describes what the second part makes of the query
/// that the first part describes.
pub proof fn law_parameters_add_up(a: Seq<char>, b: Seq<char>, now_nanos: i64)
    ensures
        viewer::query_of(a + seq!['&'] + b, now_nanos) == match viewer::query_of(a, now_nanos) {
            Some(v) => viewer::with_params(v, text::pieces(b, '&'), now_nanos),
            None => None,
        },
{
    words::law_pieces_of_two_parts(a, b, '&');
    viewer::lemma_with_params_split(
        store::open_query(100),
        text::pieces(a, '&'),
        text::pieces(b, '&'),
        now_nanos,
    );
}

// ---------------------------------------------------------------------------
// Severities
// ---------------------------------------------------------------------------

proof fn lemma_upper(t: Seq<char>, low: Seq<char>, up: Seq<char>)
    requires
        settings::spells(t, low),
        up.len() == low.len(),
        forall|i: int|
            0 <= i < low.len() ==> 'a' <= #[trigger] low[i] <= 'z' && up[i] == text::ascii_upper(
                low[i],
            ),
    ensures
        text::uppercase_ascii(t) == up,
{
    let u = text::uppercase_ascii(t);
    assert forall|i: int| 0 <= i < t.len() implies u[i] == up[i] by {
        assert(u[i] == text::ascii_upper(t[i]));
        assert(t[i] == low[i] || t[i] as u32 + 32 == low[i] as u32);
        assert('a' <= low[i] <= 'z');
    }
    assert(u =~= up);
}

/// The names of severities, in any case and with white space around them, have the
/// numbers of OpenTelemetry; `warning` is another name for `warn`.
pub proof fn law_severity_names(a: Seq<char>, t: Seq<char>, b: Seq<char>)
    requires
        words::is_blank(a),
        words::is_blank(b),
    ensures
        settings::spells(t, "trace"@) ==> viewer::severity_of(a + t + b) == Some(1i32),
        settings::spells(t, "debug"@) ==> viewer::severity_of(a + t + b) == Some(5i32),
        settings::spells(t, "info"@) ==> viewer::severity_of(a + t + b) == Some(9i32),
        settings::spells(t, "warn"@) ==> viewer::severity_of(a + t + b) == Some(13i32),
        settings::spells(t, "warning"@) ==> viewer::severity_of(a + t + b) == Some(13i32),
        settings::spells(t, "error"@) ==> viewer::severity_of(a + t + b) == Some(17i32),
        settings::spells(t, "fatal"@) ==> viewer::severity_of(a + t + b) == Some(21i32),
{
    reveal_strlit("trace");
    reveal_strlit("debug");
    reveal_strlit("info");
    reveal_strlit("warn");
    reveal_strlit("warning");
    reveal_strlit("error");
    reveal_strlit("fatal");
    reveal_strlit("TRACE");
    reveal_strlit("DEBUG");
    reveal_strlit("INFO");
    reveal_strlit("WARN");
    reveal_strlit("WARNING");
    reveal_strlit("ERROR");
    reveal_strlit("FATAL");
    assert("TRACE"@.len() == 5 && "TRACE"@[0] == 'T');
    assert("DEBUG"@.len() == 5 && "DEBUG"@[0] == 'D');
    assert("INFO"@.len() == 4 && "INFO"@[0] == 'I');
    assert("WARN"@.len() == 4 && "WARN"@[0] == 'W');
    assert("WARNING"@.len() == 7);
    assert("ERROR"@.len() == 5 && "ERROR"@[0] == 'E');
    assert("FATAL"@.len() == 5 && "FATAL"@[0] == 'F');
    if settings::spells(t, "trace"@) {
        lemma_named(a, t, b, "trace"@, "TRACE"@);
    }
    if settings::spells(t, "debug"@) {
        lemma_named(a, t, b, "debug"@, "DEBUG"@);
    }
    if settings::spells(t, "info"@) {
        lemma_named(a, t, b, "info"@, "INFO"@);
    }
    if settings::spells(t, "warn"@) {
        lemma_named(a, t, b, "warn"@, "WARN"@);
    }
    if settings::spells(t, "warning"@) {
        lemma_named(a, t, b, "warning"@, "WARNING"@);
    }
    if settings::spells(t, "error"@) {
        lemma_named(a, t, b, "error"@, "ERROR"@);
    }
    if settings::spells(t, "fatal"@) {
        lemma_named(a, t, b, "fatal"@, "FATAL"@);
    }
}

proof fn lemma_named(a: Seq<char>, t: Seq<char>, b: Seq<char>, low: Seq<char>, up: Seq<char>)
    requires
        words::is_blank(a),
        words::is_blank(b),
        settings::spells(t, low),
        low.len() > 0,
        up.len() == low.len(),
        forall|i: int|
            0 <= i < low.len() ==> 'a' <= #[trigger] low[i] <= 'z' && up[i] == text::ascii_upper(
                low[i],
            ),
    ensures
        text::uppercase_ascii(text::trimmed(a + t + b)) == up,
{
    assert(t[0] == low[0] || t[0] as u32 + 32 == low[0] as u32);
    let k = t.len() - 1;
    assert(t[k] == low[k] || t[k] as u32 + 32 == low[k] as u32);
    assert('a' <= low[0] <= 'z' && 'a' <= low[k] <= 'z');
    words::law_trimming_takes_the_space_around(a, t, b);
    lemma_upper(t, low, up);
}

/// The text of a number is that severity, and a text that is neither a name nor a
/// number is none.
pub proof fn law_severity_numbers(n: i32)
    ensures
        viewer::severity_of(number::signed_decimal(n as int)) == Some(n),
        forall|s: Seq<char>| #[trigger]
            viewer::severity_of(s) is Some ==> {
                let t = text::uppercase_ascii(text::trimmed(s));
                ||| t == "TRACE"@ || t == "DEBUG"@ || t == "INFO"@ || t == "WARN"@ || t
                    == "WARNING"@ || t == "ERROR"@ || t == "FATAL"@
                ||| number::read_signed(t, i32::MAX as nat) is Ok
            },
{
    reveal_strlit("TRACE");
    reveal_strlit("DEBUG");
    reveal_strlit("INFO");
    reveal_strlit("WARN");
    reveal_strlit("WARNING");
    reveal_strlit("ERROR");
    reveal_strlit("FATAL");
    assert("TRACE"@[0] == 'T' && "DEBUG"@[0] == 'D' && "INFO"@[0] == 'I' && "WARN"@[0] == 'W');
    assert("WARNING"@[0] == 'W' && "ERROR"@[0] == 'E' && "FATAL"@[0] == 'F');
    let s = number::signed_decimal(n as int);
    let m: nat = if n < 0 {
        (-(n as int)) as nat
    } else {
        n as nat
    };
    let d = number::decimal(m);
    words::law_decimal_text(m);
    assert forall|i: int| 0 <= i < s.len() implies s[i] == '-' || '0' <= #[trigger] s[i]
        <= '9' by {
        if n < 0 && i > 0 {
            assert(s[i] == d[i - 1]);
        }
    }
    text::lemma_nothing_to_trim(s);
    let u = text::uppercase_ascii(s);
    assert forall|i: int| 0 <= i < s.len() implies u[i] == s[i] by {
        assert(u[i] == text::ascii_upper(s[i]));
    }
    assert(u =~= s);
    number::law_signed_decimal_reads_back(n as int, i32::MAX as nat);
}

// ---------------------------------------------------------------------------
// Access
// ---------------------------------------------------------------------------

/// Where no credential is asked for every request passes. Where one is, a request
/// passes exactly if its header is `Basic` and a Base64 text, and that text stands
/// for the user name, a colon and the password; a request without a header does
/// not.
pub proof fn law_who_may_pass(
    header: Option<Seq<char>>,
    sent: Seq<char>,
    u: Seq<char>,
    p: Seq<char>,
)
    ensures
        viewer::may_pass(header, None),
        !viewer::may_pass(None, Some((u, p))),
        viewer::may_pass(Some(sent), Some((u, p))) ==> {
            &&& sent.len() >= 6 && sent.take(6) == "Basic "@
            &&& base64::decoded(sent.skip(6)) == utf8::encode_utf8(u + ":"@ + p)
        },
        viewer::may_pass(
            Some("Basic "@ + base64::base64(utf8::encode_utf8(u + ":"@ + p))),
            Some((u, p)),
        ),
{
    reveal_strlit("Basic ");
    let bytes = utf8::encode_utf8(u + ":"@ + p);
    base64::law_base64_decodes_back(bytes);
    let h = "Basic "@ + base64::base64(bytes);
    assert(h.take(6) =~= "Basic "@);
    assert(h.skip(6) =~= base64::base64(bytes));
}

/// The alphabet of Base64 is the capital letters, the small letters, the digits,
/// `+` and `/`; a text has four characters for every three bytes, and `=` fills up
/// the last four.
pub proof fn law_base64_alphabet(n: int, b: Seq<u8>)
    ensures
        0 <= n < 26 ==> base64::letter(n) as u32 == 65 + n,
        26 <= n < 52 ==> base64::letter(n) as u32 == 71 + n,
        52 <= n < 62 ==> base64::letter(n) as u32 == n - 4,
        base64::letter(62) == '+',
        base64::letter(63) == '/',
        base64::base64(b).len() == (b.len() + 2) / 3 * 4,
        b.len() % 3 == 1 ==> base64::base64(b).last() == '=' && base64::base64(
            b,
        )[base64::base64(b).len() - 2] == '=',
        b.len() % 3 == 2 ==> base64::base64(b).last() == '=',
    decreases b.len(),
{
    if b.len() > 3 {
        law_base64_alphabet(n, b.skip(3));
        let s = base64::base64(b);
        let t = base64::base64(b.skip(3));
        assert(s.len() == 4 + t.len());
        assert(t.len() >= 4);
        assert(s.last() == t.last());
        assert(s[s.len() - 2] == t[t.len() - 2]);
    }
}

// ---------------------------------------------------------------------------
// Answers
// ---------------------------------------------------------------------------

/// Answers carry the status, the headers and the body that they are made of.
pub proof fn law_answers_carry_what_they_are_made_of(
    status: u16,
    name: Seq<char>,
    value: Seq<char>,
    body: Seq<char>,
    r: HttpResponse,
)
    ensures
        http::bare(status, body).status == status,
        http::bare(status, body).headers.len() == 0,
        http::bare(status, body).body == body,
        http::headed(status, name, value, body).status == status,
        http::headed(status, name, value, body).headers.len() == 1,
        http::headed(status, name, value, body).headers[0] == (name, value),
        http::headed(status, name, value, body).body == body,
        viewer::json_view(body).status == 200,
        viewer::json_view(body).headers.len() == 1 && viewer::json_view(body).headers[0] == (
            "Content-Type"@,
            "application/json"@,
        ),
        viewer::json_view(body).body == body,
        r@.status == r.status,
        r@.body == r.body@,
        r@.headers.len() == r.headers@.len(),
        forall|i: int|
            0 <= i < r.headers@.len() ==> #[trigger] r@.headers[i] == (
                r.headers@[i].0@,
                r.headers@[i].1@,
            ),
{
}

/// The answers that do not depend on a request.
pub proof fn law_fixed_answers()
    ensures
        http::not_found_view().status == 404 && http::not_found_view().body == "not found\n"@,
        viewer::unauthorized_view().status == 401 && viewer::unauthorized_view().body
            == "unauthorized\n"@,
        viewer::unauthorized_view().headers == seq![
            ("WWW-Authenticate"@, "Basic realm=\"watchtower\""@),
        ],
        viewer::json_error_view().status == 500 && viewer::json_error_view().body
            == "{\"error\":\"query failed\"}"@,
        viewer::json_error_view().headers == seq![("Content-Type"@, "application/json"@)],
        viewer::page_view().status == 200 && viewer::page_view().body
            == viewer::page::INDEX_HTML@,
        viewer::page_view().headers == seq![("Content-Type"@, "text/html; charset=utf-8"@)],
{
}

/// Numbers and names in answers are the JSON of those numbers and names.
pub proof fn law_numbers_and_names_in_answers(n: i64, names: Seq<Seq<char>>)
    ensures
        viewer::optional_int(Some(n)) == Json::Num(number::signed_decimal(n as int)),
        viewer::optional_int(None) == Json::Null,
        json::int_json(n as int) == Json::Num(number::signed_decimal(n as int)),
        viewer::names_json(names).len() == names.len(),
        forall|i: int|
            0 <= i < names.len() ==> #[trigger] viewer::names_json(names)[i] == Json::Text(
                names[i],
            ),
{
}

/// A view shows every part of a query.
pub proof fn law_view_shows_the_query(q: LogQuery)
    ensures
        settings::shows(q@.q, q.q),
        q@.min_severity == q.min_severity,
        settings::shows(q@.service, q.service),
        q@.since_nanos == q.since_nanos,
        q@.after_id == q.after_id,
        q@.before_id == q.before_id,
        q@.limit == q.limit,
        store::open_query(100) == open_query(),
        store::open_query(q.limit).limit == q.limit,
{
}

/// Form encoding writes a space as `+`; a text without `+` and `%` is read back.
pub proof fn law_plus_is_a_space(b: Seq<u8>)
    requires
        forall|i: int| 0 <= i < b.len() ==> b[i] != 43 && b[i] != 37,
    ensures
        viewer::form_decoded(
            b.map_values(
                |x: u8|
                    if x == 32 {
                        43u8
                    } else {
                        x
                    },
            ),
        ) == b,
    decreases b.len(),
{
    let f = |x: u8|
        if x == 32 {
            43u8
        } else {
            x
        };
    let e = b.map_values(f);
    if b.len() == 0 {
        assert(viewer::form_decoded(e) =~= b);
    } else {
        law_plus_is_a_space(b.skip(1));
        assert(e.skip(1) =~= b.skip(1).map_values(f));
        assert(seq![b[0]] + b.skip(1) =~= b);
    }
}

/// A `%` with two hexadecimal digits behind it, in either case, is the byte that
/// they name; any other `%` is itself.
pub proof fn law_percent_needs_two_digits(hi: u8, lo: u8, rest: Seq<u8>)
    ensures
        48 <= hi <= 57 ==> viewer::hex_value(hi) == Some((hi - 48) as u8),
        97 <= hi <= 102 ==> viewer::hex_value(hi) == Some((hi - 87) as u8),
        65 <= hi <= 70 ==> viewer::hex_value(hi) == Some((hi - 55) as u8),
        !(48 <= hi <= 57) && !(97 <= hi <= 102) && !(65 <= hi <= 70) ==> viewer::hex_value(hi)
            is None,
        match (viewer::hex_value(hi), viewer::hex_value(lo)) {
            (Some(h), Some(l)) => viewer::form_decoded(seq![37u8, hi, lo] + rest) == seq![
                (h * 16 + l) as u8,
            ] + viewer::form_decoded(rest),
            _ => viewer::form_decoded(seq![37u8, hi, lo] + rest) == seq![37u8]
                + viewer::form_decoded(seq![hi, lo] + rest),
        },
        viewer::form_decoded(seq![37u8, hi]) == seq![37u8] + viewer::form_decoded(seq![hi]),
{
    let s = seq![37u8, hi, lo] + rest;
    assert(s.skip(3) =~= rest);
    assert(s.skip(1) =~= seq![hi, lo] + rest);
    assert(seq![37u8, hi].skip(1) =~= seq![hi]);
}

/// The time that `since` names lies its span before now, of which only the low 64
/// bits count; there is none if that cannot be counted, or if the span is too long.
pub proof fn law_time_before_now(now_nanos: i64, nanos: nat)
    ensures
        nanos <= 18_446_744_073_709_551_615_999_999_999 && i64::MIN <= now_nanos - number::low_i64(
            nanos,
        ) <= i64::MAX ==> viewer::time_before(now_nanos, nanos) == Some(
            (now_nanos - number::low_i64(nanos)) as i64,
        ),
        nanos > 18_446_744_073_709_551_615_999_999_999 ==> viewer::time_before(now_nanos, nanos)
            is None,
        !(i64::MIN <= now_nanos - number::low_i64(nanos) <= i64::MAX) ==> viewer::time_before(
            now_nanos,
            nanos,
        ) is None,
{
}

} // verus!
