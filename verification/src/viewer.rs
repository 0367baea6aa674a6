//! The built-in log viewer: its queries, its access control and its answers.

pub mod base64;
pub mod page;

use std::time::Duration;

use vstd::prelude::*;
use vstd::utf8;

use crate::config::BasicAuthConfig;
use crate::duration;
use crate::duration::DurationFault;
use crate::http;
use crate::http::HttpResponse;
use crate::json;
use crate::json::Json;
use crate::number;
use crate::sink::store;
use crate::sink::store::{LogQuery, QueryResult, QueryView};
use crate::text;

verus! {

// ---------------------------------------------------------------------------
// Access
// ---------------------------------------------------------------------------

fn letter(n: u8) -> (c: char)
    requires
        n < 64,
    ensures
        c == base64::letter(n as int),
{
    let code: u8 = if n < 26 {
        65 + n
    } else if n < 52 {
        97 + (n - 26)
    } else if n < 62 {
        48 + (n - 52)
    } else if n == 62 {
        43
    } else {
        47
    };
    code as char
}

/// The Base64 text of a row of bytes.
pub fn base64_encode(input: &[u8]) -> (out: String)
    ensures
        out@ == base64::base64(input@),
{
    let n: usize = input.len();
    let mut out: String = String::new();
    let mut i: usize = 0;
    assert(input@.skip(0) =~= input@);
    assert(out@ + base64::base64(input@) =~= base64::base64(input@));
    while i < n
        invariant
            n == input@.len(),
            i <= n,
            out@ + base64::base64(input@.skip(i as int)) == base64::base64(input@),
        decreases n - i,
    {
        let ghost before = out@;
        let ghost rest = input@.skip(i as int);
        let left: usize = n - i;
        let b0: u8 = input[i];
        let b1: u8 = if left > 1 {
            input[i + 1]
        } else {
            0
        };
        let b2: u8 = if left > 2 {
            input[i + 2]
        } else {
            0
        };
        out.push(letter(b0 / 4));
        out.push(letter(b0 % 4 * 16 + b1 / 16));
        out.push(
            if left > 1 {
                letter(b1 % 16 * 4 + b2 / 64)
            } else {
                '='
            },
        );
        out.push(
            if left > 2 {
                letter(b2 % 64)
            } else {
                '='
            },
        );
        let ghost part = if left <= 3 {
            rest
        } else {
            rest.take(3)
        };
        i = if left <= 3 {
            n
        } else {
            i + 3
        };
        proof {
            assert(out@ =~= before + base64::group(part));
            assert(input@.skip(i as int) =~= rest.skip(part.len() as int));
            if left <= 3 {
                assert(rest.skip(part.len() as int) =~= seq![]);
            }
            assert(base64::base64(rest) =~= base64::group(part) + base64::base64(
                input@.skip(i as int),
            ));
            assert(out@ + base64::base64(input@.skip(i as int)) =~= before + base64::base64(rest));
        }
    }
    assert(input@.skip(i as int) =~= seq![]);
    assert(out@ + seq![] =~= out@);
    out
}

/// The header with which a credential is presented.
pub open spec fn credential_header(username: Seq<char>, password: Seq<char>) -> Seq<char> {
    "Basic "@ + base64::base64(utf8::encode_utf8(username + ":"@ + password))
}

/// Whether a request with a given header may pass: where no credential is asked
/// for every request may, and otherwise those that present it.
pub open spec fn may_pass(
    header: Option<Seq<char>>,
    auth: Option<(Seq<char>, Seq<char>)>,
) -> bool {
    match auth {
        None => true,
        Some((username, password)) => header == Some(credential_header(username, password)),
    }
}

/// Whether a request with a given `Authorization` header may pass.
pub fn auth_matches(header: Option<&str>, auth: &Option<BasicAuthConfig>) -> (r: bool)
    ensures
        r == may_pass(
            match header {
                Some(h) => Some(h@),
                None => None,
            },
            match auth {
                Some(a) => Some(a@),
                None => None,
            },
        ),
{
    match auth {
        None => true,
        Some(cfg) => {
            let plain: String = text::join3(cfg.username.as_str(), ":", cfg.password.as_str());
            let expected: String = text::join2(
                "Basic ",
                base64_encode(plain.as_str().as_bytes()).as_str(),
            );
            match header {
                Some(h) => text::same(h, expected.as_str()),
                None => false,
            }
        },
    }
}

/// Two credentials are presented by the same header only if user name, colon and
/// password make up the same text.
pub proof fn law_header_tells_credentials_apart(
    u1: Seq<char>,
    p1: Seq<char>,
    u2: Seq<char>,
    p2: Seq<char>,
)
    requires
        credential_header(u1, p1) == credential_header(u2, p2),
    ensures
        u1 + ":"@ + p1 == u2 + ":"@ + p2,
{
    let a = u1 + ":"@ + p1;
    let b = u2 + ":"@ + p2;
    let prefix = "Basic "@;
    let x = base64::base64(utf8::encode_utf8(a));
    let y = base64::base64(utf8::encode_utf8(b));
    assert((prefix + x).skip(prefix.len() as int) =~= x);
    assert((prefix + y).skip(prefix.len() as int) =~= y);
    base64::law_base64_decodes_back(utf8::encode_utf8(a));
    base64::law_base64_decodes_back(utf8::encode_utf8(b));
    utf8::encode_utf8_decode_utf8(a);
    utf8::encode_utf8_decode_utf8(b);
}

// ---------------------------------------------------------------------------
// Severities
// ---------------------------------------------------------------------------

/// The number of a severity, given by its name in any case or as an integer.
pub open spec fn severity_of(s: Seq<char>) -> Option<i32> {
    let t = text::uppercase_ascii(text::trimmed(s));
    if t == "TRACE"@ {
        Some(1)
    } else if t == "DEBUG"@ {
        Some(5)
    } else if t == "INFO"@ {
        Some(9)
    } else if t == "WARN"@ || t == "WARNING"@ {
        Some(13)
    } else if t == "ERROR"@ {
        Some(17)
    } else if t == "FATAL"@ {
        Some(21)
    } else {
        match number::read_signed(t, i32::MAX as nat) {
            Ok(n) => Some(n as i32),
            Err(_) => None,
        }
    }
}

/// The number of a severity, given by its name in any case or as an integer.
pub fn parse_min_severity(s: &str) -> (r: Option<i32>)
    ensures
        r == severity_of(s@),
{
    let chars: Vec<char> = text::chars_of(s);
    let t: Vec<char> = text::to_ascii_uppercase(text::trim(chars.as_slice()).as_slice());
    let name: String = text::string_of(t.as_slice());
    if text::same(name.as_str(), "TRACE") {
        Some(1)
    } else if text::same(name.as_str(), "DEBUG") {
        Some(5)
    } else if text::same(name.as_str(), "INFO") {
        Some(9)
    } else if text::same(name.as_str(), "WARN") || text::same(name.as_str(), "WARNING") {
        Some(13)
    } else if text::same(name.as_str(), "ERROR") {
        Some(17)
    } else if text::same(name.as_str(), "FATAL") {
        Some(21)
    } else {
        number::parse_i32(t.as_slice())
    }
}

// ---------------------------------------------------------------------------
// Form encoding
// ---------------------------------------------------------------------------

/// What a hexadecimal digit stands for.
pub open spec fn hex_value(b: u8) -> Option<u8> {
    if 48 <= b <= 57 {
        Some((b - 48) as u8)
    } else if 97 <= b <= 102 {
        Some((b - 87) as u8)
    } else if 65 <= b <= 70 {
        Some((b - 55) as u8)
    } else {
        None
    }
}

/// What a hexadecimal digit stands for.
pub fn hex_val(b: u8) -> (r: Option<u8>)
    ensures
        r == hex_value(b),
{
    if 48 <= b && b <= 57 {
        Some(b - 48)
    } else if 97 <= b && b <= 102 {
        Some(b - 87)
    } else if 65 <= b && b <= 70 {
        Some(b - 55)
    } else {
        None
    }
}

/// The bytes that form-encoded bytes stand for: `+` stands for a space, and `%`
/// with two hexadecimal digits for the byte that they name. Every other byte, and
/// a `%` without two such digits, stands for itself.
pub open spec fn form_decoded(b: Seq<u8>) -> Seq<u8>
    decreases b.len(),
{
    if b.len() == 0 {
        seq![]
    } else if b[0] == 43 {
        seq![32u8] + form_decoded(b.skip(1))
    } else if b[0] == 37 && b.len() > 2 && hex_value(b[1]) is Some && hex_value(b[2]) is Some {
        seq![(hex_value(b[1])->Some_0 * 16 + hex_value(b[2])->Some_0) as u8] + form_decoded(
            b.skip(3),
        )
    } else {
        seq![b[0]] + form_decoded(b.skip(1))
    }
}

/// The text that a form-encoded text stands for.
pub open spec fn form_text(s: Seq<char>) -> Seq<char> {
    text::text_of(form_decoded(utf8::encode_utf8(s)))
}

/// Decodes form-encoded bytes.
pub fn form_decode(bytes: &[u8]) -> (out: Vec<u8>)
    ensures
        out@ == form_decoded(bytes@),
{
    let n: usize = bytes.len();
    let mut out: Vec<u8> = Vec::new();
    let mut i: usize = 0;
    assert(bytes@.skip(0) =~= bytes@);
    assert(out@ + form_decoded(bytes@) =~= form_decoded(bytes@));
    while i < n
        invariant
            n == bytes@.len(),
            i <= n,
            out@ + form_decoded(bytes@.skip(i as int)) == form_decoded(bytes@),
        decreases n - i,
    {
        let ghost before = out@;
        let ghost rest = bytes@.skip(i as int);
        let b: u8 = bytes[i];
        let mut step: usize = 1;
        let mut byte: u8 = b;
        if b == 43 {
            byte = 32;
        } else if b == 37 && n - i > 2 {
            if let (Some(hi), Some(lo)) = (hex_val(bytes[i + 1]), hex_val(bytes[i + 2])) {
                byte = hi * 16 + lo;
                step = 3;
            }
        }
        out.push(byte);
        i += step;
        proof {
            assert(bytes@.skip(i as int) =~= rest.skip(step as int));
            assert(form_decoded(rest) == seq![byte] + form_decoded(rest.skip(step as int)));
            assert(out@ + form_decoded(bytes@.skip(i as int)) =~= before + form_decoded(rest));
        }
    }
    assert(bytes@.skip(i as int) =~= seq![]);
    assert(out@ + seq![] =~= out@);
    out
}

/// The text that a form-encoded text stands for.
pub fn url_decode(s: &str) -> (r: String)
    ensures
        r@ == form_text(s@),
{
    text::read_text(form_decode(s.as_bytes()).as_slice())
}

/// A byte as `%` and two hexadecimal digits in capital letters.
pub open spec fn percent(b: u8) -> Seq<u8> {
    seq![
        37,
        if b / 16 < 10 {
            (48 + b / 16) as u8
        } else {
            (55 + b / 16) as u8
        },
        if b % 16 < 10 {
            (48 + b % 16) as u8
        } else {
            (55 + b % 16) as u8
        },
    ]
}

/// Every byte of a row as `%` and two hexadecimal digits.
pub open spec fn percent_encoded(b: Seq<u8>) -> Seq<u8>
    decreases b.len(),
{
    if b.len() == 0 {
        seq![]
    } else {
        percent(b[0]) + percent_encoded(b.skip(1))
    }
}

/// Decoding bytes that are all written as `%` and two digits gives them back.
pub proof fn law_percent_encoding_decodes_back(b: Seq<u8>)
    ensures
        form_decoded(percent_encoded(b)) == b,
    decreases b.len(),
{
    if b.len() == 0 {
        assert(form_decoded(percent_encoded(b)) =~= b);
    } else {
        law_percent_encoding_decodes_back(b.skip(1));
        let e = percent_encoded(b);
        assert(e.skip(3) =~= percent_encoded(b.skip(1)));
        assert(form_decoded(e) =~= seq![b[0]] + form_decoded(e.skip(3)));
        assert(seq![b[0]] + b.skip(1) =~= b);
    }
}

/// A text with every byte of its UTF-8 written as `%` and two hexadecimal digits.
pub open spec fn percent_text(s: Seq<char>) -> Seq<char> {
    percent_encoded(utf8::encode_utf8(s)).map_values(|b: u8| b as char)
}

/// Decoding a text that is written with `%` gives it back, whatever stands in it.
pub proof fn law_any_text_can_be_sent(s: Seq<char>)
    ensures
        form_text(percent_text(s)) == s,
{
    let bytes = utf8::encode_utf8(s);
    let encoded = percent_encoded(bytes);
    lemma_percent_is_ascii(bytes);
    assert(utf8::is_ascii_chars(percent_text(s)));
    utf8::is_ascii_chars_encode_utf8(percent_text(s));
    assert(utf8::encode_utf8(percent_text(s)) =~= encoded);
    law_percent_encoding_decodes_back(bytes);
    utf8::encode_utf8_valid_utf8(s);
    utf8::encode_utf8_decode_utf8(s);
}

pub proof fn lemma_percent_is_ascii(b: Seq<u8>)
    ensures
        forall|i: int|
            0 <= i < percent_encoded(b).len() ==> #[trigger] percent_encoded(b)[i] < 128
                && percent_encoded(b)[i] != 38,
    decreases b.len(),
{
    if b.len() > 0 {
        lemma_percent_is_ascii(b.skip(1));
        let rest = percent_encoded(b.skip(1));
        assert forall|i: int| 0 <= i < percent_encoded(b).len() implies #[trigger] percent_encoded(
            b,
        )[i] < 128 && percent_encoded(b)[i] != 38 by {
            if i >= 3 {
                assert(percent_encoded(b)[i] == rest[i - 3]);
            }
        }
    }
}

/// Bytes among which there is neither `+` nor `%` stand for themselves.
pub proof fn law_plain_bytes_stay(b: Seq<u8>)
    requires
        forall|i: int| 0 <= i < b.len() ==> b[i] != 43 && b[i] != 37,
    ensures
        form_decoded(b) == b,
    decreases b.len(),
{
    if b.len() == 0 {
        assert(form_decoded(b) =~= b);
    } else {
        law_plain_bytes_stay(b.skip(1));
        assert(seq![b[0]] + b.skip(1) =~= b);
    }
}

// ---------------------------------------------------------------------------
// Queries
// ---------------------------------------------------------------------------

/// The time that lies the given number of nanoseconds before `now`, if it can be
/// counted in an `i64`. Of the nanoseconds only the low 64 bits count.
pub open spec fn time_before(now_nanos: i64, nanos: nat) -> Option<i64> {
    let t = now_nanos - number::low_i64(nanos);
    if nanos <= duration::max_nanos() && i64::MIN <= t <= i64::MAX {
        Some(t as i64)
    } else {
        None
    }
}

/// A query after a parameter has been taken into account. A parameter with an
/// unknown name changes nothing, and neither does an empty text, a duration or a
/// limit that cannot be read. There is no query if the time that `since` names is
/// out of range.
pub open spec fn with_param(
    q: QueryView,
    key: Seq<char>,
    value: Seq<char>,
    now_nanos: i64,
) -> Option<QueryView> {
    if key == "q"@ {
        Some(
            if value.len() > 0 {
                QueryView { q: Some(value), ..q }
            } else {
                q
            },
        )
    } else if key == "min_severity"@ {
        Some(QueryView { min_severity: severity_of(value), ..q })
    } else if key == "service"@ {
        Some(
            if value.len() > 0 {
                QueryView { service: Some(value), ..q }
            } else {
                q
            },
        )
    } else if key == "since"@ {
        match duration::read_duration(value) {
            Ok(nanos) => match time_before(now_nanos, nanos) {
                Some(t) => Some(QueryView { since_nanos: Some(t), ..q }),
                None => None,
            },
            Err(_) => Some(q),
        }
    } else if key == "after_id"@ {
        Some(QueryView { after_id: read_id(value), ..q })
    } else if key == "before_id"@ {
        Some(QueryView { before_id: read_id(value), ..q })
    } else if key == "limit"@ {
        match number::read_unsigned(value, usize::MAX as nat) {
            Ok(n) => Some(QueryView { limit: store::clamped(n as usize), ..q }),
            Err(_) => Some(q),
        }
    } else {
        Some(q)
    }
}

/// The number of a row, if the text is one.
pub open spec fn read_id(s: Seq<char>) -> Option<i64> {
    match number::read_signed(s, i64::MAX as nat) {
        Ok(n) => Some(n as i64),
        Err(_) => None,
    }
}

/// The name of a parameter: what stands before the first `=`.
pub open spec fn key_of(pair: Seq<char>) -> Seq<char> {
    pair.take(text::first_at(pair, '='))
}

/// The decoded value of a parameter: what stands behind the first `=`.
pub open spec fn value_of(pair: Seq<char>) -> Seq<char> {
    if text::first_at(pair, '=') < pair.len() {
        form_text(pair.skip(text::first_at(pair, '=') + 1))
    } else {
        seq![]
    }
}

/// A query after a row of parameters has been taken into account in turn; empty
/// ones are passed over.
pub open spec fn with_params(q: QueryView, pairs: Seq<Seq<char>>, now_nanos: i64) -> Option<
    QueryView,
>
    decreases pairs.len(),
{
    if pairs.len() == 0 {
        Some(q)
    } else if pairs[0].len() == 0 {
        with_params(q, pairs.skip(1), now_nanos)
    } else {
        match with_param(q, key_of(pairs[0]), value_of(pairs[0]), now_nanos) {
            Some(next) => with_params(next, pairs.skip(1), now_nanos),
            None => None,
        }
    }
}

/// The query that a query string describes; without a limit in it there are a
/// hundred rows.
pub open spec fn query_of(s: Seq<char>, now_nanos: i64) -> Option<QueryView> {
    with_params(store::open_query(100), text::pieces(s, '&'), now_nanos)
}

/// Takes a parameter into account. `value` is decoded already. Where the time
/// that `since` names is out of range, `false` is returned and the query stays as
/// it was.
pub fn apply_param(q: &mut LogQuery, key: &str, value: String, now_nanos: i64) -> (ok: bool)
    ensures
        match with_param(old(q)@, key@, value@, now_nanos) {
            Some(next) => ok && final(q)@ == next,
            None => !ok && final(q)@ == old(q)@,
        },
{
    if text::same(key, "q") {
        if !text::is_empty(value.as_str()) {
            q.q = Some(value);
        }
    } else if text::same(key, "min_severity") {
        q.min_severity = parse_min_severity(value.as_str());
    } else if text::same(key, "service") {
        if !text::is_empty(value.as_str()) {
            q.service = Some(value);
        }
    } else if text::same(key, "since") {
        match duration::checked_duration(value.as_str()) {
            Ok(d) => match now_nanos.checked_sub(duration::nanos_i64(&d)) {
                Some(t) => {
                    q.since_nanos = Some(t);
                },
                None => {
                    return false;
                },
            },
            Err(DurationFault::Invalid(_)) => {},
            Err(DurationFault::Overflow) => {
                return false;
            },
        }
    } else if text::same(key, "after_id") {
        q.after_id = number::parse_i64(text::chars_of(value.as_str()).as_slice());
    } else if text::same(key, "before_id") {
        q.before_id = number::parse_i64(text::chars_of(value.as_str()).as_slice());
    } else if text::same(key, "limit") {
        if let Some(n) = number::parse_usize(text::chars_of(value.as_str()).as_slice()) {
            q.limit = store::clamp_limit(n);
        }
    }
    true
}

fn read_query(query_string: &str, now_nanos: i64) -> (r: Option<LogQuery>)
    ensures
        match query_of(query_string@, now_nanos) {
            Some(q) => r matches Some(x) && x@ == q,
            None => r is None,
        },
{
    let pairs: Vec<Vec<char>> = text::split(text::chars_of(query_string).as_slice(), '&');
    let ghost all = text::pieces(query_string@, '&');
    let mut q: LogQuery = LogQuery { limit: 100, ..LogQuery::default() };
    let mut i: usize = 0;
    assert(all.skip(0) =~= all);
    while i < pairs.len()
        invariant
            i <= pairs@.len(),
            all == text::pieces(query_string@, '&'),
            pairs@.map_values(|p: Vec<char>| p@) == all,
            query_of(query_string@, now_nanos) == with_params(q@, all.skip(i as int), now_nanos),
        decreases pairs@.len() - i,
    {
        let pair: &[char] = pairs[i].as_slice();
        proof {
            assert(all[i as int] == pairs@[i as int]@);
            assert(all.skip(i as int)[0] == pair@);
            assert(all.skip(i as int).skip(1) =~= all.skip(i + 1));
            text::lemma_first_at(pair@, '=');
        }
        if pair.len() > 0 {
            let at: usize = text::find(pair, '=');
            let key: Vec<char> = text::range_of(pair, 0, at);
            assert(key@ =~= key_of(pair@));
            let value: String = if at < pair.len() {
                let raw: Vec<char> = text::range_of(pair, at + 1, pair.len());
                assert(raw@ =~= pair@.skip(at + 1));
                url_decode(text::string_of(raw.as_slice()).as_str())
            } else {
                String::new()
            };
            proof {
                reveal_strlit("");
                assert(value@ =~= value_of(pair@));
            }
            if !apply_param(&mut q, text::string_of(key.as_slice()).as_str(), value, now_nanos) {
                return None;
            }
        }
        i += 1;
    }
    assert(all.skip(i as int) =~= seq![]);
    Some(q)
}

/// The query that the query string of a request for logs describes; `now_nanos`
/// is the time that `since` counts back from. A query string whose `since` names a
/// time that is out of range is not admitted; `checked_query` takes every one.
pub fn parse_query(query_string: &str, now_nanos: i64) -> (r: LogQuery)
    requires
        query_of(query_string@, now_nanos) is Some,
    ensures
        query_of(query_string@, now_nanos) == Some(r@),
{
    match read_query(query_string, now_nanos) {
        Some(q) => q,
        None => LogQuery::default(),
    }
}

/// The query that a query string describes, if the time that `since` names can be
/// counted in an `i64`.
pub fn checked_query(query_string: &str, now_nanos: i64) -> (r: Option<LogQuery>)
    ensures
        match query_of(query_string@, now_nanos) {
            Some(q) => r matches Some(x) && x@ == q,
            None => r is None,
        },
{
    if read_query(query_string, now_nanos).is_some() {
        Some(parse_query(query_string, now_nanos))
    } else {
        None
    }
}

/// Whatever a query string says, a query brings from one to a thousand rows, and
/// a hundred where it says nothing.
pub proof fn law_limit_stays_in_range(s: Seq<char>, now_nanos: i64)
    ensures
        query_of(s, now_nanos) matches Some(q) ==> 1 <= q.limit <= 1000,
        query_of(seq![], now_nanos) == Some(store::open_query(100)),
{
    lemma_limit(store::open_query(100), text::pieces(s, '&'), now_nanos);
    let none = Seq::<char>::empty();
    let pairs = text::pieces(none, '&');
    assert(pairs =~= seq![none]);
    assert(pairs.skip(1) =~= seq![]);
    assert(with_params(store::open_query(100), pairs.skip(1), now_nanos) == Some(
        store::open_query(100),
    ));
}

proof fn lemma_limit(q: QueryView, pairs: Seq<Seq<char>>, now_nanos: i64)
    requires
        1 <= q.limit <= 1000,
    ensures
        with_params(q, pairs, now_nanos) matches Some(r) ==> 1 <= r.limit <= 1000,
    decreases pairs.len(),
{
    if pairs.len() > 0 {
        if pairs[0].len() == 0 {
            lemma_limit(q, pairs.skip(1), now_nanos);
        } else if let Some(next) = with_param(
            q,
            key_of(pairs[0]),
            value_of(pairs[0]),
            now_nanos,
        ) {
            lemma_limit(next, pairs.skip(1), now_nanos);
        }
    }
}

/// Whether a parameter changes no query: it is empty, its name is unknown, it is
/// an empty text, or a limit or a duration that cannot be read.
pub open spec fn is_idle(pair: Seq<char>) -> bool {
    let key = key_of(pair);
    let value = value_of(pair);
    ||| pair.len() == 0
    ||| !is_known(key)
    ||| (key == "q"@ || key == "service"@) && value.len() == 0
    ||| key == "limit"@ && number::read_unsigned(value, usize::MAX as nat) is Err
    ||| key == "since"@ && duration::read_duration(value) is Err
}

/// Whether a name is that of a parameter.
pub open spec fn is_known(key: Seq<char>) -> bool {
    key == "q"@ || key == "min_severity"@ || key == "service"@ || key == "since"@ || key
        == "after_id"@ || key == "before_id"@ || key == "limit"@
}

/// The parameters with a given name, in their order.
pub open spec fn named(pairs: Seq<Seq<char>>, key: Seq<char>) -> Seq<Seq<char>> {
    pairs.filter(|p: Seq<char>| key_of(p) == key)
}

/// The parameters of a query string that can change a query, in their order.
pub open spec fn effective(s: Seq<char>) -> Seq<Seq<char>> {
    text::pieces(s, '&').filter(|p: Seq<char>| !is_idle(p))
}

/// A query after a single parameter.
pub open spec fn step(q: Option<QueryView>, pair: Seq<char>, now_nanos: i64) -> Option<QueryView> {
    match q {
        None => None,
        Some(v) => with_params(v, seq![pair], now_nanos),
    }
}

proof fn lemma_step(v: QueryView, pair: Seq<char>, now_nanos: i64)
    ensures
        step(Some(v), pair, now_nanos) == if pair.len() == 0 {
            Some(v)
        } else {
            with_param(v, key_of(pair), value_of(pair), now_nanos)
        },
{
    let one = seq![pair];
    assert(one.skip(1) =~= seq![]);
    assert(forall|x: QueryView| with_params(x, seq![], now_nanos) == Some(x));
    if pair.len() > 0 {
        if let Some(next) = with_param(v, key_of(pair), value_of(pair), now_nanos) {
            assert(with_params(next, one.skip(1), now_nanos) == Some(next));
        }
    } else {
        assert(with_params(v, one.skip(1), now_nanos) == Some(v));
    }
}

/// Taking parameters into account in two parts.
pub proof fn lemma_with_params_split(
    q: QueryView,
    a: Seq<Seq<char>>,
    b: Seq<Seq<char>>,
    now_nanos: i64,
)
    ensures
        with_params(q, a + b, now_nanos) == match with_params(q, a, now_nanos) {
            Some(v) => with_params(v, b, now_nanos),
            None => None,
        },
    decreases a.len(),
{
    if a.len() == 0 {
        assert(a + b =~= b);
    } else {
        assert((a + b).skip(1) =~= a.skip(1) + b);
        assert((a + b)[0] == a[0]);
        if a[0].len() == 0 {
            lemma_with_params_split(q, a.skip(1), b, now_nanos);
        } else if let Some(next) = with_param(q, key_of(a[0]), value_of(a[0]), now_nanos) {
            lemma_with_params_split(next, a.skip(1), b, now_nanos);
        }
    }
}

proof fn lemma_exchange(v: QueryView, x: Seq<char>, y: Seq<char>, now_nanos: i64)
    requires
        key_of(x) != key_of(y),
    ensures
        with_params(v, seq![x, y], now_nanos) == with_params(v, seq![y, x], now_nanos),
{
    lemma_with_params_split(v, seq![x], seq![y], now_nanos);
    lemma_with_params_split(v, seq![y], seq![x], now_nanos);
    assert(seq![x] + seq![y] =~= seq![x, y]);
    assert(seq![y] + seq![x] =~= seq![y, x]);
    lemma_step(v, x, now_nanos);
    lemma_step(v, y, now_nanos);
    if let Some(w) = step(Some(v), x, now_nanos) {
        lemma_step(w, y, now_nanos);
    }
    if let Some(w) = step(Some(v), y, now_nanos) {
        lemma_step(w, x, now_nanos);
    }
    reveal_strlit("q");
    reveal_strlit("min_severity");
    reveal_strlit("service");
    reveal_strlit("since");
    reveal_strlit("after_id");
    reveal_strlit("before_id");
    reveal_strlit("limit");
    assert("q"@.len() == 1 && "min_severity"@.len() == 12 && "service"@.len() == 7);
    assert("since"@.len() == 5 && "after_id"@.len() == 8 && "before_id"@.len() == 9);
    assert("limit"@.len() == 5 && "since"@[0] == 's' && "limit"@[0] == 'l');
}

/// Exchanging two neighbouring parameters of different names leaves the query the
/// same.
pub proof fn law_neighbours_can_be_exchanged(
    q: QueryView,
    a: Seq<Seq<char>>,
    x: Seq<char>,
    y: Seq<char>,
    b: Seq<Seq<char>>,
    now_nanos: i64,
)
    requires
        key_of(x) != key_of(y),
    ensures
        with_params(q, a + seq![x, y] + b, now_nanos) == with_params(
            q,
            a + seq![y, x] + b,
            now_nanos,
        ),
{
    lemma_with_params_split(q, a + seq![x, y], b, now_nanos);
    lemma_with_params_split(q, a + seq![y, x], b, now_nanos);
    lemma_with_params_split(q, a, seq![x, y], now_nanos);
    lemma_with_params_split(q, a, seq![y, x], now_nanos);
    if let Some(v) = with_params(q, a, now_nanos) {
        lemma_exchange(v, x, y, now_nanos);
    }
}

/// A parameter that changes no query can stand anywhere.
pub proof fn law_idle_parameters_change_nothing(
    q: QueryView,
    a: Seq<Seq<char>>,
    x: Seq<char>,
    b: Seq<Seq<char>>,
    now_nanos: i64,
)
    requires
        is_idle(x),
    ensures
        with_params(q, a + seq![x] + b, now_nanos) == with_params(q, a + b, now_nanos),
{
    lemma_with_params_split(q, a + seq![x], b, now_nanos);
    lemma_with_params_split(q, a, seq![x], now_nanos);
    lemma_with_params_split(q, a, b, now_nanos);
    if let Some(v) = with_params(q, a, now_nanos) {
        lemma_step(v, x, now_nanos);
        if x.len() > 0 {
            lemma_idle(v, x, now_nanos);
        }
    }
}

proof fn lemma_idle(v: QueryView, x: Seq<char>, now_nanos: i64)
    requires
        is_idle(x),
        x.len() > 0,
    ensures
        with_param(v, key_of(x), value_of(x), now_nanos) == Some(v),
{
    reveal_strlit("q");
    reveal_strlit("min_severity");
    reveal_strlit("service");
    reveal_strlit("since");
    reveal_strlit("after_id");
    reveal_strlit("before_id");
    reveal_strlit("limit");
    assert("q"@.len() == 1 && "min_severity"@.len() == 12 && "service"@.len() == 7);
    assert("since"@.len() == 5 && "after_id"@.len() == 8 && "before_id"@.len() == 9);
    assert("limit"@.len() == 5 && "since"@[0] == 's' && "limit"@[0] == 'l');
}

proof fn lemma_only_effective_count(q: QueryView, pairs: Seq<Seq<char>>, now_nanos: i64)
    ensures
        with_params(q, pairs, now_nanos) == with_params(
            q,
            pairs.filter(|p: Seq<char>| !is_idle(p)),
            now_nanos,
        ),
    decreases pairs.len(),
{
    let keep = |p: Seq<char>| !is_idle(p);
    reveal(Seq::filter);
    if pairs.len() > 0 {
        let rest = pairs.drop_last();
        let x = pairs.last();
        lemma_only_effective_count(q, rest, now_nanos);
        assert(pairs =~= rest + seq![x]);
        lemma_with_params_split(q, rest, seq![x], now_nanos);
        if is_idle(x) {
            assert(rest + seq![x] + Seq::<Seq<char>>::empty() =~= pairs);
            assert(rest + Seq::<Seq<char>>::empty() =~= rest);
            law_idle_parameters_change_nothing(q, rest, x, Seq::empty(), now_nanos);
        } else {
            assert(pairs.filter(keep) =~= rest.filter(keep) + seq![x]);
            lemma_with_params_split(q, rest.filter(keep), seq![x], now_nanos);
        }
    } else {
        assert(pairs.filter(keep) =~= pairs);
    }
}

/// The last parameter of a name, and what is left without it.
proof fn lemma_last_named(b: Seq<Seq<char>>, key: Seq<char>) -> (j: int)
    requires
        named(b, key).len() > 0,
    ensures
        0 <= j < b.len(),
        key_of(b[j]) == key,
        b[j] == named(b, key).last(),
        forall|i: int| j < i < b.len() ==> key_of(#[trigger] b[i]) != key,
        named(b.remove(j), key) == named(b, key).drop_last(),
        forall|k: Seq<char>| k != key ==> #[trigger] named(b.remove(j), k) == named(b, k),
    decreases b.len(),
{
    reveal(Seq::filter);
    let rest = b.drop_last();
    let x = b.last();
    if key_of(x) == key {
        let j = b.len() - 1;
        assert(b.remove(j) =~= rest);
        assert(named(b, key) == named(rest, key).push(x));
        assert(named(b, key).drop_last() =~= named(rest, key));
        j
    } else {
        let j = lemma_last_named(rest, key);
        assert(b.remove(j) =~= rest.remove(j).push(x));
        assert(b.remove(j).drop_last() =~= rest.remove(j));
        assert(b.remove(j).last() == x);
        assert forall|i: int| j < i < b.len() implies key_of(#[trigger] b[i]) != key by {
            if i < rest.len() {
                assert(rest[i] == b[i]);
            }
        }
        assert forall|k: Seq<char>| k != key implies #[trigger] named(b.remove(j), k) == named(
            b,
            k,
        ) by {
            assert(named(rest.remove(j), k) == named(rest, k));
        }
        j
    }
}

/// A parameter can be moved behind all others if none of those has its name.
proof fn lemma_move_to_end(q: QueryView, b: Seq<Seq<char>>, j: int, now_nanos: i64)
    requires
        0 <= j < b.len(),
        forall|i: int| j < i < b.len() ==> key_of(#[trigger] b[i]) != key_of(b[j]),
    ensures
        with_params(q, b, now_nanos) == with_params(q, b.remove(j).push(b[j]), now_nanos),
    decreases b.len() - j,
{
    if j == b.len() - 1 {
        assert(b.remove(j).push(b[j]) =~= b);
    } else {
        let head = b.take(j);
        let tail = b.skip(j + 2);
        let x = b[j];
        let y = b[j + 1];
        let c = head + seq![y, x] + tail;
        assert(b =~= head + seq![x, y] + tail);
        law_neighbours_can_be_exchanged(q, head, x, y, tail, now_nanos);
        assert(c[j + 1] == x);
        assert forall|i: int| j + 1 < i < c.len() implies key_of(#[trigger] c[i]) != key_of(
            c[j + 1],
        ) by {
            assert(c[i] == b[i]);
        }
        lemma_move_to_end(q, c, j + 1, now_nanos);
        assert(c.remove(j + 1).push(x) =~= b.remove(j).push(x));
    }
}

proof fn lemma_order_of_names(
    q: QueryView,
    a: Seq<Seq<char>>,
    b: Seq<Seq<char>>,
    now_nanos: i64,
)
    requires
        forall|k: Seq<char>| #[trigger] named(a, k) == named(b, k),
    ensures
        with_params(q, a, now_nanos) == with_params(q, b, now_nanos),
    decreases a.len(),
{
    reveal(Seq::filter);
    if a.len() == 0 {
        if b.len() > 0 {
            let key = key_of(b.last());
            assert(named(b, key) == named(b.drop_last(), key).push(b.last()));
            assert(named(a, key).len() == 0);
        }
        assert(a =~= b);
    } else {
        let rest = a.drop_last();
        let x = a.last();
        let key = key_of(x);
        assert(named(a, key) == named(rest, key).push(x));
        assert(named(a, key) == named(b, key));
        let j = lemma_last_named(b, key);
        let left = b.remove(j);
        assert forall|k: Seq<char>| #[trigger] named(rest, k) == named(left, k) by {
            assert(named(a, k) == named(b, k));
            if k == key {
                assert(named(a, key).drop_last() =~= named(rest, key));
            }
        }
        lemma_order_of_names(q, rest, left, now_nanos);
        lemma_move_to_end(q, b, j, now_nanos);
        assert(a =~= rest + seq![x]);
        assert(left.push(x) =~= left + seq![x]);
        lemma_with_params_split(q, rest, seq![x], now_nanos);
        lemma_with_params_split(q, left, seq![x], now_nanos);
    }
}

/// The order of parameters of different names does not matter, nor do parameters
/// that change no query: two query strings describe the same query if for each
/// name they have the same other parameters in the same order.
pub proof fn law_order_of_names_does_not_matter(s: Seq<char>, t: Seq<char>, now_nanos: i64)
    requires
        forall|k: Seq<char>| #[trigger] named(effective(s), k) == named(effective(t), k),
    ensures
        query_of(s, now_nanos) == query_of(t, now_nanos),
{
    let q = store::open_query(100);
    lemma_only_effective_count(q, text::pieces(s, '&'), now_nanos);
    lemma_only_effective_count(q, text::pieces(t, '&'), now_nanos);
    lemma_order_of_names(q, effective(s), effective(t), now_nanos);
}

/// Any text can be searched for: a query string that holds it, written with `%`,
/// asks for just that text.
pub proof fn law_any_text_can_be_searched_for(s: Seq<char>, now_nanos: i64)
    requires
        s.len() > 0,
    ensures
        query_of("q="@ + percent_text(s), now_nanos) == Some(
            QueryView { q: Some(s), ..store::open_query(100) },
        ),
{
    reveal_strlit("q=");
    reveal_strlit("q");
    let pair = "q="@ + percent_text(s);
    law_any_text_can_be_sent(s);
    lemma_percent_is_ascii(utf8::encode_utf8(s));
    text::lemma_first_at(pair, '&');
    let at = text::first_at(pair, '&');
    if at < pair.len() {
        assert(at >= 2);
        assert(pair[at] == percent_text(s)[at - 2]);
    }
    assert(text::pieces(pair, '&') =~= seq![pair]);
    text::lemma_first_at(pair, '=');
    assert(pair[0] == 'q' && pair[1] == '=');
    assert(text::first_at(pair, '=') == 1);
    assert(key_of(pair) =~= "q"@);
    assert(pair.skip(2) =~= percent_text(s));
    assert(value_of(pair) == s);
    assert(seq![pair].skip(1) =~= seq![]);
    let found = QueryView { q: Some(s), ..store::open_query(100) };
    assert(with_params(found, seq![pair].skip(1), now_nanos) == Some(found));
}

// ---------------------------------------------------------------------------
// Answers
// ---------------------------------------------------------------------------

/// The answer to a request that may not pass.
pub open spec fn unauthorized_view() -> http::ResponseView {
    http::headed(
        401,
        "WWW-Authenticate"@,
        "Basic realm=\"watchtower\""@,
        "unauthorized\n"@,
    )
}

/// The answer to a request that may not pass.
pub fn unauthorized() -> (r: HttpResponse)
    ensures
        r@ == unauthorized_view(),
{
    http::respond_with(
        401,
        "WWW-Authenticate",
        "Basic realm=\"watchtower\"",
        "unauthorized\n".to_owned(),
    )
}

/// The answer with a JSON text.
pub open spec fn json_view(body: Seq<char>) -> http::ResponseView {
    http::headed(200, "Content-Type"@, "application/json"@, body)
}

/// The answer with a JSON text.
pub fn json_ok(body: String) -> (r: HttpResponse)
    ensures
        r@ == json_view(body@),
{
    http::respond_with(200, "Content-Type", "application/json", body)
}

/// The answer where a query has failed.
pub open spec fn json_error_view() -> http::ResponseView {
    http::headed(
        500,
        "Content-Type"@,
        "application/json"@,
        "{\"error\":\"query failed\"}"@,
    )
}

/// The answer where a query has failed.
pub fn json_error() -> (r: HttpResponse)
    ensures
        r@ == json_error_view(),
{
    http::respond_with(
        500,
        "Content-Type",
        "application/json",
        "{\"error\":\"query failed\"}".to_owned(),
    )
}

/// The answer with the page.
pub open spec fn page_view() -> http::ResponseView {
    http::headed(200, "Content-Type"@, "text/html; charset=utf-8"@, page::INDEX_HTML@)
}

/// How a request is answered.
pub enum Route {
    /// At once.
    Answer(HttpResponse),
    /// With the log records that a query brings.
    Logs,
    /// With the names of the services.
    Services,
}

/// Decides how a request is answered. No path is served to a request that may
/// not pass.
pub fn route(header: Option<&str>, auth: &Option<BasicAuthConfig>, path: &str) -> (r: Route)
    ensures
        ({
            let passes = may_pass(
                match header {
                    Some(h) => Some(h@),
                    None => None,
                },
                match auth {
                    Some(a) => Some(a@),
                    None => None,
                },
            );
            if !passes {
                r matches Route::Answer(x) && x@ == unauthorized_view()
            } else if path@ == "/"@ {
                r matches Route::Answer(x) && x@ == page_view()
            } else if path@ == "/api/logs"@ {
                r is Logs
            } else if path@ == "/api/services"@ {
                r is Services
            } else {
                r matches Route::Answer(x) && x@ == http::not_found_view()
            }
        }),
{
    if !auth_matches(header, auth) {
        return Route::Answer(unauthorized());
    }
    if text::same(path, "/") {
        Route::Answer(
            http::respond_with(
                200,
                "Content-Type",
                "text/html; charset=utf-8",
                page::INDEX_HTML.to_owned(),
            ),
        )
    } else if text::same(path, "/api/logs") {
        Route::Logs
    } else if text::same(path, "/api/services") {
        Route::Services
    } else {
        Route::Answer(http::not_found())
    }
}

/// A number as a JSON value; none is null.
pub open spec fn optional_int(n: Option<i64>) -> Json {
    match n {
        Some(x) => json::int_json(x as int),
        None => Json::Null,
    }
}

fn optional_int_value(n: Option<i64>) -> (v: serde_json::Value)
    ensures
        json::json_of(v) == optional_int(n),
{
    match n {
        Some(x) => json::int_value(x),
        None => json::null_value(),
    }
}

/// The answer with the log records that a query has brought, or that it has
/// failed.
pub fn logs_answer(result: Option<QueryResult>) -> (r: HttpResponse)
    ensures
        match result {
            Some(x) => r@ == json_view(
                json::json_text(
                    Json::Object(
                        map![
                            "records"@ => Json::Array(json::items_of(x.records@)),
                            "oldest_id"@ => optional_int(x.oldest_id),
                            "newest_id"@ => optional_int(x.newest_id),
                        ],
                    ),
                ),
            ),
            None => r@ == json_error_view(),
        },
{
    match result {
        Some(x) => {
            let oldest: serde_json::Value = optional_int_value(x.oldest_id);
            let newest: serde_json::Value = optional_int_value(x.newest_id);
            let mut body: serde_json::Value = json::object_value();
            json::put(&mut body, "records", json::array_value(x.records));
            json::put(&mut body, "oldest_id", oldest);
            json::put(&mut body, "newest_id", newest);
            json_ok(json::render(&body))
        },
        None => json_error(),
    }
}

/// The JSON texts of a row of names.
pub open spec fn names_json(names: Seq<Seq<char>>) -> Seq<Json> {
    names.map_values(|n: Seq<char>| Json::Text(n))
}

/// The answer with the names of the services, or that they could not be found.
pub fn services_answer(services: Option<Vec<String>>) -> (r: HttpResponse)
    ensures
        match services {
            Some(s) => r@ == json_view(
                json::json_text(
                    Json::Object(
                        map!["services"@ => Json::Array(names_json(text::all(s@)))],
                    ),
                ),
            ),
            None => r@ == json_error_view(),
        },
{
    match services {
        Some(s) => {
            let mut names: Vec<serde_json::Value> = Vec::new();
            let mut i: usize = 0;
            while i < s.len()
                invariant
                    i <= s@.len(),
                    names@.len() == i,
                    forall|k: int|
                        0 <= k < i ==> json::json_of(#[trigger] names@[k]) == Json::Text(s@[k]@),
                decreases s@.len() - i,
            {
                names.push(json::text_value(s[i].clone()));
                i += 1;
            }
            assert(json::items_of(names@) =~= names_json(text::all(s@)));
            let mut body: serde_json::Value = json::object_value();
            json::put(&mut body, "services", json::array_value(names));
            json_ok(json::render(&body))
        },
        None => json_error(),
    }
}

/// The time in nanoseconds since 1970-01-01 UTC, cut to the low 64 bits, from the
/// span since then. A clock that stands before that date counts as zero.
pub fn now_unix_nanos(since_epoch: Option<Duration>) -> (n: i64)
    ensures
        n == match since_epoch {
            Some(d) => number::low_i64(duration::duration_nanos(d)),
            None => 0,
        },
{
    match since_epoch {
        Some(d) => duration::nanos_i64(&d),
        None => 0,
    }
}

} // verus!
