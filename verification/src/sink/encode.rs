//! Log records as JSON documents.

use vstd::prelude::*;

use crate::calendar;
use crate::json;
use crate::json::Json;
use crate::number;
use crate::proto;
use crate::proto::any_value;
use crate::text;

verus! {

// ---------------------------------------------------------------------------
// Time
// ---------------------------------------------------------------------------

/// The nanoseconds of a time since 1970-01-01 UTC.
pub open spec fn unix_nanos(ts: proto::Timestamp) -> int {
    ts.seconds * 1_000_000_000 + ts.nanos
}

/// Whether the nanoseconds of a time can be counted in an `i64`: the whole
/// seconds, and the sum.
pub open spec fn time_fits(ts: proto::Timestamp) -> bool {
    &&& i64::MIN <= ts.seconds * 1_000_000_000 <= i64::MAX
    &&& i64::MIN <= unix_nanos(ts) <= i64::MAX
}

/// Whether the time of a record, if it has one, can be counted in nanoseconds.
pub open spec fn record_fits(r: proto::RecordView) -> bool {
    r.timestamp matches Some(ts) ==> time_fits(ts)
}

/// Whether that holds of every record.
pub open spec fn records_fit(s: Seq<proto::RecordView>) -> bool {
    forall|i: int| 0 <= i < s.len() ==> record_fits(#[trigger] s[i])
}

/// Whether the times of all records can be counted in nanoseconds.
pub fn batch_fits(batch: &proto::LogBatch) -> (r: bool)
    ensures
        r == records_fit(proto::records_view(batch.records@)),
{
    let ghost all = proto::records_view(batch.records@);
    let mut i: usize = 0;
    while i < batch.records.len()
        invariant
            i <= batch.records@.len(),
            all == proto::records_view(batch.records@),
            forall|k: int| 0 <= k < i ==> record_fits(#[trigger] all[k]),
        decreases batch.records@.len() - i,
    {
        assert(all[i as int] == batch.records@[i as int]@);
        if let Some(ts) = &batch.records[i].timestamp {
            if !timestamp_fits(ts) {
                return false;
            }
        }
        i += 1;
    }
    true
}

/// Whether the nanoseconds of a time can be counted in an `i64`.
pub fn timestamp_fits(ts: &proto::Timestamp) -> (r: bool)
    ensures
        r == time_fits(*ts),
{
    match ts.seconds.checked_mul(1_000_000_000) {
        Some(whole) => whole.checked_add(ts.nanos as i64).is_some(),
        None => false,
    }
}

/// The nanoseconds of a time since 1970-01-01 UTC.
pub fn timestamp_to_nanos(ts: &proto::Timestamp) -> (n: i64)
    requires
        time_fits(*ts),
    ensures
        n == unix_nanos(*ts),
{
    ts.seconds * 1_000_000_000 + ts.nanos as i64
}

/// The RFC 3339 text of a point in time on a given date: `nanos_of_day`
/// nanoseconds after its midnight, in UTC.
pub open spec fn rfc3339_text(year: int, month: int, day: int, nanos_of_day: int) -> Seq<char> {
    let second = nanos_of_day / 1_000_000_000;
    number::padded(year as nat, 4) + "-"@ + number::padded(month as nat, 2) + "-"@ + number::padded(
        day as nat,
        2,
    ) + "T"@ + number::padded((second / 3600) as nat, 2) + ":"@ + number::padded(
        (second / 60 % 60) as nat,
        2,
    ) + ":"@ + number::padded((second % 60) as nat, 2) + "."@ + number::padded(
        (nanos_of_day % 1_000_000_000) as nat,
        9,
    ) + "Z"@
}

/// The RFC 3339 text, in UTC, of the time that lies `ts_nanos` nanoseconds after
/// 1970-01-01.
pub open spec fn rfc3339(ts_nanos: int) -> Seq<char> {
    let (year, month, day) = calendar::date_of(ts_nanos / 86_400_000_000_000);
    rfc3339_text(year, month, day, ts_nanos % 86_400_000_000_000)
}

/// The RFC 3339 text, in UTC, of the time that lies `ts_nanos` nanoseconds after
/// 1970-01-01.
pub fn rfc3339_from_nanos(ts_nanos: i64) -> (s: String)
    ensures
        s@ == rfc3339(ts_nanos as int),
        calendar::is_date(
            calendar::date_of(ts_nanos as int / 86_400_000_000_000).0,
            calendar::date_of(ts_nanos as int / 86_400_000_000_000).1,
            calendar::date_of(ts_nanos as int / 86_400_000_000_000).2,
        ),
        0 <= calendar::date_of(ts_nanos as int / 86_400_000_000_000).0 <= 9999,
{
    let second_nanos: i64 = 1_000_000_000;
    let day_seconds: i64 = 86_400;
    let seconds: i64 = ts_nanos.checked_div_euclid(second_nanos).unwrap();
    let nanos: u64 = ts_nanos.checked_rem_euclid(second_nanos).unwrap() as u64;
    let days: i64 = seconds.checked_div_euclid(day_seconds).unwrap();
    let day_secs: u64 = seconds.checked_rem_euclid(day_seconds).unwrap() as u64;
    let hours: u64 = day_secs / 3600;
    let minutes: u64 = (day_secs % 3600) / 60;
    let secs: u64 = day_secs % 60;
    proof {
        assert(days == ts_nanos as int / 86_400_000_000_000);
        assert(day_secs == ts_nanos as int % 86_400_000_000_000 / 1_000_000_000);
        assert(nanos == ts_nanos as int % 86_400_000_000_000 % 1_000_000_000);
        assert(day_secs / 60 % 60 == (day_secs % 3600) / 60);
        assert(calendar::year_start(0) < -106_752 && 106_752 < calendar::year_start(10_000));
    }
    proof {
        calendar::lemma_million_days();
    }
    let (year, month, day) = calendar::days_to_date(days);
    proof {
        calendar::lemma_year_between(year as int, month as int, day as int, 0, 10_000);
    }
    let mut s: String = number::padded_text(year as u64, 4);
    s.append("-");
    s.append(number::padded_text(month as u64, 2).as_str());
    s.append("-");
    s.append(number::padded_text(day as u64, 2).as_str());
    s.append("T");
    s.append(number::padded_text(hours, 2).as_str());
    s.append(":");
    s.append(number::padded_text(minutes, 2).as_str());
    s.append(":");
    s.append(number::padded_text(secs, 2).as_str());
    s.append(".");
    s.append(number::padded_text(nanos, 9).as_str());
    s.append("Z");
    s
}

/// The nanoseconds after 1970-01-01 UTC of the time that an RFC 3339 text of the
/// form `YYYY-MM-DDThh:mm:ss.nnnnnnnnnZ` names.
pub open spec fn rfc3339_instant(s: Seq<char>) -> int {
    let day = calendar::epoch_day(
        number::value_of(s.subrange(0, 4)) as int,
        number::value_of(s.subrange(5, 7)) as int,
        number::value_of(s.subrange(8, 10)) as int,
    );
    let second = number::value_of(s.subrange(11, 13)) * 3600 + number::value_of(
        s.subrange(14, 16),
    ) * 60 + number::value_of(s.subrange(17, 19));
    (day * 86_400 + second) * 1_000_000_000 + number::value_of(s.subrange(20, 29))
}

/// Whether a text has the form `YYYY-MM-DDThh:mm:ss.nnnnnnnnnZ`, names an existing
/// date, and a time of day.
pub open spec fn is_rfc3339(s: Seq<char>) -> bool {
    &&& s.len() == 30
    &&& s[4] == '-' && s[7] == '-' && s[10] == 'T' && s[13] == ':' && s[16] == ':' && s[19] == '.'
        && s[29] == 'Z'
    &&& forall|i: int|
        0 <= i < 29 && i != 4 && i != 7 && i != 10 && i != 13 && i != 16 && i != 19
            ==> number::is_digit(#[trigger] s[i])
    &&& calendar::is_date(
        number::value_of(s.subrange(0, 4)) as int,
        number::value_of(s.subrange(5, 7)) as int,
        number::value_of(s.subrange(8, 10)) as int,
    )
    &&& number::value_of(s.subrange(11, 13)) < 24
    &&& number::value_of(s.subrange(14, 16)) < 60
    &&& number::value_of(s.subrange(17, 19)) < 60
}

proof fn lemma_rfc3339_fields(ts_nanos: int)
    requires
        i64::MIN <= ts_nanos <= i64::MAX,
    ensures
        ({
            let s = rfc3339(ts_nanos);
            let (y, m, d) = calendar::date_of(ts_nanos / 86_400_000_000_000);
            let rest = ts_nanos % 86_400_000_000_000;
            let second = rest / 1_000_000_000;
            &&& calendar::is_date(y, m, d)
            &&& 0 <= y < 10_000
            &&& calendar::epoch_day(y, m, d) == ts_nanos / 86_400_000_000_000
            &&& s.len() == 30
            &&& s.subrange(0, 4) == number::padded(y as nat, 4)
            &&& s.subrange(5, 7) == number::padded(m as nat, 2)
            &&& s.subrange(8, 10) == number::padded(d as nat, 2)
            &&& s.subrange(11, 13) == number::padded((second / 3600) as nat, 2)
            &&& s.subrange(14, 16) == number::padded((second / 60 % 60) as nat, 2)
            &&& s.subrange(17, 19) == number::padded((second % 60) as nat, 2)
            &&& s.subrange(20, 29) == number::padded((rest % 1_000_000_000) as nat, 9)
            &&& s[4] == '-' && s[7] == '-' && s[10] == 'T' && s[13] == ':' && s[16] == ':'
                && s[19] == '.' && s[29] == 'Z'
            &&& number::value_of(s.subrange(0, 4)) == y
            &&& number::value_of(s.subrange(5, 7)) == m
            &&& number::value_of(s.subrange(8, 10)) == d
            &&& number::value_of(s.subrange(11, 13)) == second / 3600
            &&& number::value_of(s.subrange(14, 16)) == second / 60 % 60
            &&& number::value_of(s.subrange(17, 19)) == second % 60
            &&& number::value_of(s.subrange(20, 29)) == rest % 1_000_000_000
        }),
{
    let day = ts_nanos / 86_400_000_000_000;
    let rest = ts_nanos % 86_400_000_000_000;
    let second = rest / 1_000_000_000;
    let (y, m, d) = calendar::date_of(day);
    calendar::law_every_day_has_one_date(day);
    assert(calendar::year_start(0) < -106_752 && 106_752 < calendar::year_start(10_000));
    calendar::lemma_year_between(y, m, d, 0, 10_000);
    reveal_with_fuel(number::power_of_ten, 10);
    let f1 = number::padded(y as nat, 4);
    let f2 = number::padded(m as nat, 2);
    let f3 = number::padded(d as nat, 2);
    let f4 = number::padded((second / 3600) as nat, 2);
    let f5 = number::padded((second / 60 % 60) as nat, 2);
    let f6 = number::padded((second % 60) as nat, 2);
    let f7 = number::padded((rest % 1_000_000_000) as nat, 9);
    number::lemma_padded_value(y as nat, 4);
    number::lemma_padded_value(m as nat, 2);
    number::lemma_padded_value(d as nat, 2);
    number::lemma_padded_value((second / 3600) as nat, 2);
    number::lemma_padded_value((second / 60 % 60) as nat, 2);
    number::lemma_padded_value((second % 60) as nat, 2);
    number::lemma_padded_value((rest % 1_000_000_000) as nat, 9);
    reveal_strlit("-");
    reveal_strlit("T");
    reveal_strlit(":");
    reveal_strlit(".");
    reveal_strlit("Z");
    let s = rfc3339(ts_nanos);
    assert(s.subrange(0, 4) =~= f1);
    assert(s.subrange(5, 7) =~= f2);
    assert(s.subrange(8, 10) =~= f3);
    assert(s.subrange(11, 13) =~= f4);
    assert(s.subrange(14, 16) =~= f5);
    assert(s.subrange(17, 19) =~= f6);
    assert(s.subrange(20, 29) =~= f7);
}

proof fn lemma_field_digits(s: Seq<char>, from: int, n: nat, width: nat)
    requires
        0 <= from <= from + width <= s.len(),
        s.subrange(from, from + width) == number::padded(n, width),
    ensures
        forall|i: int| from <= i < from + width ==> number::is_digit(#[trigger] s[i]),
{
    number::lemma_padded_digits(n, width);
    assert forall|i: int| from <= i < from + width implies number::is_digit(#[trigger] s[i]) by {
        assert(s.subrange(from, from + width)[i - from] == s[i]);
    }
}

/// The text of a time has the form `YYYY-MM-DDThh:mm:ss.nnnnnnnnnZ`, and read as a
/// time it is that time again.
pub proof fn law_rfc3339_reads_back(ts_nanos: int)
    requires
        i64::MIN <= ts_nanos <= i64::MAX,
    ensures
        is_rfc3339(rfc3339(ts_nanos)),
        rfc3339_instant(rfc3339(ts_nanos)) == ts_nanos,
{
    lemma_rfc3339_fields(ts_nanos);
    let s = rfc3339(ts_nanos);
    let day = ts_nanos / 86_400_000_000_000;
    let (y, m, d) = calendar::date_of(day);
    let rest = ts_nanos % 86_400_000_000_000;
    let second = rest / 1_000_000_000;
    lemma_time_of_day(second);
    lemma_field_digits(s, 0, y as nat, 4);
    lemma_field_digits(s, 5, m as nat, 2);
    lemma_field_digits(s, 8, d as nat, 2);
    lemma_field_digits(s, 11, (second / 3600) as nat, 2);
    lemma_field_digits(s, 14, (second / 60 % 60) as nat, 2);
    lemma_field_digits(s, 17, (second % 60) as nat, 2);
    lemma_field_digits(s, 20, (rest % 1_000_000_000) as nat, 9);
    assert(ts_nanos == day * 86_400_000_000_000 + rest);
    assert(rest == second * 1_000_000_000 + rest % 1_000_000_000);
}

/// Two times with the same text are the same time: nothing is lost in it.
pub proof fn law_rfc3339_tells_times_apart(a: int, b: int)
    requires
        i64::MIN <= a <= i64::MAX,
        i64::MIN <= b <= i64::MAX,
        rfc3339(a) == rfc3339(b),
    ensures
        a == b,
{
    law_rfc3339_reads_back(a);
    law_rfc3339_reads_back(b);
}

/// Two texts that agree up to a field, where the first has the smaller number, are
/// ordered by it.
proof fn lemma_field_decides(
    s: Seq<char>,
    t: Seq<char>,
    from: int,
    n: nat,
    m: nat,
    width: nat,
)
    requires
        0 <= from <= from + width <= s.len(),
        s.len() == t.len(),
        s.take(from) == t.take(from),
        n < m < number::power_of_ten(width),
        s.subrange(from, from + width) == number::padded(n, width),
        t.subrange(from, from + width) == number::padded(m, width),
    ensures
        text::before(s, t),
{
    let i = number::lemma_padded_order(n, m, width);
    let p = s.subrange(from, from + width);
    let q = t.subrange(from, from + width);
    assert(s[from + i] == p[i] && t[from + i] == q[i]);
    assert(s.take(from + i) =~= s.take(from) + p.take(i));
    assert(t.take(from + i) =~= t.take(from) + q.take(i));
    text::lemma_before_at(s, t, from + i);
}

/// Agreement up to a field, in the field and in the separator behind it is
/// agreement up to the next field.
proof fn lemma_field_agrees(s: Seq<char>, t: Seq<char>, from: int, width: int)
    requires
        0 <= from <= from + width < s.len(),
        s.len() == t.len(),
        s.take(from) == t.take(from),
        s.subrange(from, from + width) == t.subrange(from, from + width),
        s[from + width] == t[from + width],
    ensures
        s.take(from + width + 1) == t.take(from + width + 1),
{
    assert(s.take(from + width + 1) =~= (s.take(from) + s.subrange(from, from + width)).push(
        s[from + width],
    ));
    assert(t.take(from + width + 1) =~= (t.take(from) + t.subrange(from, from + width)).push(
        t[from + width],
    ));
}

proof fn lemma_earlier_stands_before(a: int, b: int)
    requires
        i64::MIN <= a < b <= i64::MAX,
    ensures
        text::before(rfc3339(a), rfc3339(b)),
{
    lemma_rfc3339_fields(a);
    lemma_rfc3339_fields(b);
    let s = rfc3339(a);
    let t = rfc3339(b);
    let day1 = a / 86_400_000_000_000;
    let day2 = b / 86_400_000_000_000;
    let r1 = a % 86_400_000_000_000;
    let r2 = b % 86_400_000_000_000;
    assert(day1 < day2 || (day1 == day2 && r1 < r2));
    let (y1, m1, d1) = calendar::date_of(day1);
    let (y2, m2, d2) = calendar::date_of(day2);
    if day1 < day2 {
        calendar::lemma_dates_are_ordered(y1, m1, d1, y2, m2, d2);
        lemma_earlier_date(s, t, (y1, m1, d1), (y2, m2, d2));
    } else {
        assert(s.take(0) =~= t.take(0));
        lemma_field_agrees(s, t, 0, 4);
        lemma_field_agrees(s, t, 5, 2);
        lemma_field_agrees(s, t, 8, 2);
        lemma_earlier_in_the_day(s, t, r1, r2);
    }
}

/// Of two dates the earlier one has the smaller text.
proof fn lemma_earlier_date(s: Seq<char>, t: Seq<char>, p: (int, int, int), q: (int, int, int))
    requires
        p.0 < q.0 || (p.0 == q.0 && (p.1 < q.1 || (p.1 == q.1 && p.2 < q.2))),
        0 <= p.0 && q.0 < 10_000,
        0 <= p.1 < 100 && 0 <= q.1 < 100,
        0 <= p.2 < 100 && 0 <= q.2 < 100,
        s.len() == 30,
        t.len() == 30,
        s[4] == t[4],
        s[7] == t[7],
        s.subrange(0, 4) == number::padded(p.0 as nat, 4),
        t.subrange(0, 4) == number::padded(q.0 as nat, 4),
        s.subrange(5, 7) == number::padded(p.1 as nat, 2),
        t.subrange(5, 7) == number::padded(q.1 as nat, 2),
        s.subrange(8, 10) == number::padded(p.2 as nat, 2),
        t.subrange(8, 10) == number::padded(q.2 as nat, 2),
    ensures
        text::before(s, t),
{
    reveal_with_fuel(number::power_of_ten, 5);
    assert(s.take(0) =~= t.take(0));
    if p.0 < q.0 {
        lemma_field_decides(s, t, 0, p.0 as nat, q.0 as nat, 4);
    } else {
        lemma_field_agrees(s, t, 0, 4);
        if p.1 < q.1 {
            lemma_field_decides(s, t, 5, p.1 as nat, q.1 as nat, 2);
        } else {
            lemma_field_agrees(s, t, 5, 2);
            lemma_field_decides(s, t, 8, p.2 as nat, q.2 as nat, 2);
        }
    }
}

/// Of two times of one day the earlier one has the smaller text.
proof fn lemma_earlier_in_the_day(s: Seq<char>, t: Seq<char>, r1: int, r2: int)
    requires
        0 <= r1 < r2 < 86_400_000_000_000,
        s.len() == 30,
        t.len() == 30,
        s.take(11) == t.take(11),
        s[13] == t[13],
        s[16] == t[16],
        s[19] == t[19],
        s.subrange(11, 13) == number::padded((r1 / 1_000_000_000 / 3600) as nat, 2),
        t.subrange(11, 13) == number::padded((r2 / 1_000_000_000 / 3600) as nat, 2),
        s.subrange(14, 16) == number::padded((r1 / 1_000_000_000 / 60 % 60) as nat, 2),
        t.subrange(14, 16) == number::padded((r2 / 1_000_000_000 / 60 % 60) as nat, 2),
        s.subrange(17, 19) == number::padded((r1 / 1_000_000_000 % 60) as nat, 2),
        t.subrange(17, 19) == number::padded((r2 / 1_000_000_000 % 60) as nat, 2),
        s.subrange(20, 29) == number::padded((r1 % 1_000_000_000) as nat, 9),
        t.subrange(20, 29) == number::padded((r2 % 1_000_000_000) as nat, 9),
    ensures
        text::before(s, t),
{
    reveal_with_fuel(number::power_of_ten, 10);
    let c1 = r1 / 1_000_000_000;
    let c2 = r2 / 1_000_000_000;
    let n1 = r1 % 1_000_000_000;
    let n2 = r2 % 1_000_000_000;
    lemma_time_of_day(c1);
    lemma_time_of_day(c2);
    assert(c1 < c2 || (c1 == c2 && n1 < n2));
    let (h1, h2) = (c1 / 3600, c2 / 3600);
    let (i1, i2) = (c1 / 60 % 60, c2 / 60 % 60);
    let (e1, e2) = (c1 % 60, c2 % 60);
    assert(h1 <= h2);
    if h1 < h2 {
        lemma_field_decides(s, t, 11, h1 as nat, h2 as nat, 2);
    } else {
        lemma_field_agrees(s, t, 11, 2);
        if i1 < i2 {
            lemma_field_decides(s, t, 14, i1 as nat, i2 as nat, 2);
        } else {
            assert(i1 == i2);
            lemma_field_agrees(s, t, 14, 2);
            if e1 < e2 {
                lemma_field_decides(s, t, 17, e1 as nat, e2 as nat, 2);
            } else {
                assert(e1 == e2);
                lemma_field_agrees(s, t, 17, 2);
                lemma_field_decides(s, t, 20, n1 as nat, n2 as nat, 9);
            }
        }
    }
}

/// The texts of times are ordered as the times are.
pub proof fn law_rfc3339_orders_as_time_does(a: int, b: int)
    requires
        i64::MIN <= a <= i64::MAX,
        i64::MIN <= b <= i64::MAX,
    ensures
        a < b <==> text::before(rfc3339(a), rfc3339(b)),
{
    text::lemma_before_one_way(rfc3339(a), rfc3339(b));
    if a < b {
        lemma_earlier_stands_before(a, b);
    } else if b < a {
        lemma_earlier_stands_before(b, a);
    }
}

proof fn lemma_time_of_day(second: int)
    requires
        0 <= second < 86_400,
    ensures
        second == second / 3600 * 3600 + second / 60 % 60 * 60 + second % 60,
{
}

// ---------------------------------------------------------------------------
// Bytes
// ---------------------------------------------------------------------------

/// The hexadecimal digit, in small letters, that stands for `n`.
pub open spec fn hex_digit(n: int) -> char {
    if n < 10 {
        ('0' as u32 + n) as char
    } else {
        ('a' as u32 + (n - 10)) as char
    }
}

/// The hexadecimal text of a row of bytes: two digits for each, the higher one
/// first.
pub open spec fn hex_text(bytes: Seq<u8>) -> Seq<char> {
    Seq::new(
        2 * bytes.len(),
        |i: int|
            hex_digit(
                if i % 2 == 0 {
                    bytes[i / 2] / 16
                } else {
                    bytes[i / 2] % 16
                } as int,
            ),
    )
}

/// `hex::encode` writes two digits in small letters for each byte.
#[verifier::external_body]
pub(crate) fn hex_encode(bytes: &[u8]) -> (s: String)
    ensures
        s@ == hex_text(bytes@),
{
    hex::encode(bytes)
}

// ---------------------------------------------------------------------------
// Attributes
// ---------------------------------------------------------------------------

/// The JSON of an attribute value. A number without JSON text becomes null, as
/// does the absent value.
pub open spec fn any_json(v: proto::AnyView) -> Json
    decreases v,
{
    match v {
        proto::AnyView::Absent => Json::Null,
        proto::AnyView::Text(s) => Json::Text(s),
        proto::AnyView::Int(n) => json::int_json(n as int),
        proto::AnyView::Double(_, Some(t)) => Json::Num(t),
        proto::AnyView::Double(_, None) => Json::Null,
        proto::AnyView::Bool(b) => Json::Bool(b),
        proto::AnyView::Bytes(b) => Json::Text(hex_text(b)),
        proto::AnyView::Array(s) => Json::Array(values_json(s)),
        proto::AnyView::Entries(s) => Json::Object(entries_json(s)),
    }
}

/// The JSON of each value of a row.
pub open spec fn values_json(s: Seq<proto::AnyView>) -> Seq<Json>
    decreases s,
{
    if s.len() == 0 {
        seq![]
    } else {
        values_json(s.drop_last()).push(any_json(s.last()))
    }
}

/// The JSON entries of a list of named values: a name without a value has no
/// entry, and of two values of one name the later one counts.
pub open spec fn entries_json(s: Seq<(Seq<char>, Option<proto::AnyView>)>) -> Map<Seq<char>, Json>
    decreases s,
{
    if s.len() == 0 {
        Map::empty()
    } else {
        match s.last().1 {
            Some(v) => entries_json(s.drop_last()).insert(s.last().0, any_json(v)),
            None => entries_json(s.drop_last()),
        }
    }
}

/// The JSON of an attribute value.
pub fn any_value_to_json(v: &proto::AnyValue) -> (r: serde_json::Value)
    ensures
        json::json_of(r) == any_json(v@),
    decreases v,
{
    match &v.value {
        Some(any_value::Kind::StringValue(s)) => json::text_value(s.clone()),
        Some(any_value::Kind::IntValue(n)) => json::int_value(*n),
        Some(any_value::Kind::DoubleValue(d)) => match &d.number {
            Some(n) => json::number_value(n.clone()),
            None => json::null_value(),
        },
        Some(any_value::Kind::BoolValue(b)) => json::bool_value(*b),
        Some(any_value::Kind::BytesValue(b)) => json::text_value(hex_encode(b.as_slice())),
        Some(any_value::Kind::ArrayValue(a)) => json::array_value(
            values_to_json(a.values.as_slice()),
        ),
        Some(any_value::Kind::MapValue(m)) => attributes_to_json(m.entries.as_slice()),
        None => json::null_value(),
    }
}

fn values_to_json(values: &[proto::AnyValue]) -> (r: Vec<serde_json::Value>)
    ensures
        json::items_of(r@) == values_json(proto::values_view(values@)),
    decreases values@,
{
    let mut r: Vec<serde_json::Value> = Vec::new();
    let mut i: usize = 0;
    assert(values@.take(0) =~= seq![]);
    while i < values.len()
        invariant
            i <= values@.len(),
            json::items_of(r@) =~= values_json(proto::values_view(values@.take(i as int))),
        decreases values@.len() - i,
    {
        r.push(any_value_to_json(&values[i]));
        i += 1;
        assert(values@.take(i as int).drop_last() =~= values@.take(i - 1));
        assert(proto::values_view(values@.take(i as int)).drop_last() =~= proto::values_view(
            values@.take(i - 1),
        ));
    }
    assert(values@.take(i as int) =~= values@);
    r
}

/// The JSON object of a list of named values.
pub fn attributes_to_json(attrs: &[proto::KeyValue]) -> (r: serde_json::Value)
    ensures
        json::json_of(r) == Json::Object(entries_json(proto::entries_view(attrs@))),
    decreases attrs@,
{
    let mut r: serde_json::Value = json::object_value();
    let mut i: usize = 0;
    assert(attrs@.take(0) =~= seq![]);
    while i < attrs.len()
        invariant
            i <= attrs@.len(),
            json::json_of(r) == Json::Object(
                entries_json(proto::entries_view(attrs@.take(i as int))),
            ),
        decreases attrs@.len() - i,
    {
        if let Some(v) = &attrs[i].value {
            json::put(&mut r, attrs[i].key.as_str(), any_value_to_json(v));
        }
        i += 1;
        assert(attrs@.take(i as int).drop_last() =~= attrs@.take(i - 1));
        assert(proto::entries_view(attrs@.take(i as int)).drop_last() =~= proto::entries_view(
            attrs@.take(i - 1),
        ));
        assert(proto::entries_view(attrs@.take(i as int)).last() == attrs@[i - 1]@);
    }
    assert(attrs@.take(i as int) =~= attrs@);
    r
}

// ---------------------------------------------------------------------------
// Records
// ---------------------------------------------------------------------------

/// The JSON object with the identity of a resource.
pub open spec fn resource_json(service: Seq<char>, host: Seq<char>, instance: Seq<char>) -> Json {
    Json::Object(
        map![
            "service_name"@ => Json::Text(service),
            "host_name"@ => Json::Text(host),
            "instance_id"@ => Json::Text(instance),
        ],
    )
}

/// `m` with the entry `key`, if there is a value for it.
pub open spec fn with(
    m: Map<Seq<char>, Json>,
    key: Seq<char>,
    value: Option<Json>,
) -> Map<Seq<char>, Json> {
    match value {
        Some(v) => m.insert(key, v),
        None => m,
    }
}

/// A text as a JSON value, if it is not empty.
pub open spec fn text_unless_empty(s: Seq<char>) -> Option<Json> {
    if s.len() > 0 {
        Some(Json::Text(s))
    } else {
        None
    }
}

/// The hexadecimal text of a row of bytes as a JSON value, if it is not empty.
pub open spec fn hex_unless_empty(bytes: Seq<u8>) -> Option<Json> {
    if bytes.len() > 0 {
        Some(Json::Text(hex_text(bytes)))
    } else {
        None
    }
}

/// The JSON object of named values, if there are any.
pub open spec fn entries_unless_empty(s: Seq<(Seq<char>, Option<proto::AnyView>)>) -> Option<
    Json,
> {
    if s.len() > 0 {
        Some(Json::Object(entries_json(s)))
    } else {
        None
    }
}

/// The entries of the JSON document of a log record.
pub open spec fn record_entries(r: proto::RecordView) -> Map<Seq<char>, Json> {
    let m0 = map![
        "severity"@ => json::int_json(r.severity as int),
        "body"@ => Json::Text(r.body),
    ];
    let m1 = with(
        m0,
        "@timestamp"@,
        match r.timestamp {
            Some(ts) => Some(Json::Text(rfc3339(unix_nanos(ts)))),
            None => None,
        },
    );
    let m2 = with(
        m1,
        "resource"@,
        match r.resource {
            Some(x) => Some(resource_json(x.service_name, x.host_name, x.instance_id)),
            None => None,
        },
    );
    let m3 = with(m2, "trace_id"@, hex_unless_empty(r.trace_id));
    let m4 = with(m3, "span_id"@, hex_unless_empty(r.span_id));
    let m5 = with(m4, "attributes"@, entries_unless_empty(r.attributes));
    with(m5, "schema_url"@, text_unless_empty(r.schema_url))
}

/// The JSON object with the identity of a resource.
pub(crate) fn resource_value(service: &str, host: &str, instance: &str) -> (v: serde_json::Value)
    ensures
        json::json_of(v) == resource_json(service@, host@, instance@),
{
    let mut v: serde_json::Value = json::object_value();
    json::put(&mut v, "service_name", json::text_value(service.to_owned()));
    json::put(&mut v, "host_name", json::text_value(host.to_owned()));
    json::put(&mut v, "instance_id", json::text_value(instance.to_owned()));
    v
}

/// The JSON document of a log record.
pub fn record_to_json(record: &proto::LogRecord) -> (doc: serde_json::Value)
    requires
        record_fits(record@),
    ensures
        json::json_of(doc) == Json::Object(record_entries(record@)),
{
    let mut doc: serde_json::Value = json::object_value();
    json::put(&mut doc, "severity", json::int_value(record.severity as i64));
    json::put(&mut doc, "body", json::text_value(record.body.clone()));
    if let Some(ts) = &record.timestamp {
        let time: String = rfc3339_from_nanos(timestamp_to_nanos(ts));
        json::put(&mut doc, "@timestamp", json::text_value(time));
    }
    if let Some(r) = &record.resource {
        let identity: serde_json::Value = resource_value(
            r.service_name.as_str(),
            r.host_name.as_str(),
            r.instance_id.as_str(),
        );
        json::put(&mut doc, "resource", identity);
    }
    if record.trace_id.len() > 0 {
        json::put(&mut doc, "trace_id", json::text_value(hex_encode(record.trace_id.as_slice())));
    }
    if record.span_id.len() > 0 {
        json::put(&mut doc, "span_id", json::text_value(hex_encode(record.span_id.as_slice())));
    }
    proof {
        proto::lemma_entries_view(record.attributes@);
    }
    if record.attributes.len() > 0 {
        json::put(&mut doc, "attributes", attributes_to_json(record.attributes.as_slice()));
    }
    if !text::is_empty(record.schema_url.as_str()) {
        json::put(&mut doc, "schema_url", json::text_value(record.schema_url.clone()));
    }
    doc
}

} // verus!
