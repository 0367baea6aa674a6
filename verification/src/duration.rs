//! Spans of time, and the texts that name them.

use std::time::Duration;

use vstd::prelude::*;

use crate::number;
use crate::number::IntFault;
use crate::text;

verus! {

// ---------------------------------------------------------------------------
// `Duration` of the standard library
// ---------------------------------------------------------------------------

/// The length of a span in nanoseconds, as `Duration::as_nanos` counts them.
pub uninterp spec fn duration_nanos(d: Duration) -> nat;

/// The longest span, in nanoseconds.
pub open spec fn max_nanos() -> nat {
    (u64::MAX * 1_000_000_000 + 999_999_999) as nat
}

/// `Duration::from_secs` makes a span of whole seconds.
pub assume_specification [ Duration::from_secs ](secs: u64) -> (d: Duration)
    ensures
        duration_nanos(d) == secs * 1_000_000_000,
;

/// `Duration::from_millis` makes a span of whole milliseconds.
pub assume_specification [ Duration::from_millis ](millis: u64) -> (d: Duration)
    ensures
        duration_nanos(d) == millis * 1_000_000,
;

/// `Duration::as_nanos` counts the nanoseconds of a span.
pub assume_specification [ Duration::as_nanos ](d: &Duration) -> (n: u128)
    ensures
        n == duration_nanos(*d),
;

/// `Duration::as_secs` counts the whole seconds of a span.
pub assume_specification [ Duration::as_secs ](d: &Duration) -> (n: u64)
    ensures
        n == duration_nanos(*d) / 1_000_000_000,
;

/// `Duration::subsec_nanos` counts the nanoseconds of a span behind its whole
/// seconds.
pub assume_specification [ Duration::subsec_nanos ](d: &Duration) -> (n: u32)
    ensures
        n == duration_nanos(*d) % 1_000_000_000,
;

/// `Duration::checked_mul` multiplies a span, unless the product is longer than
/// the longest span.
pub assume_specification [ Duration::checked_mul ](d: Duration, k: u32) -> (r: Option<Duration>)
    ensures
        match r {
            Some(p) => duration_nanos(p) == duration_nanos(d) * k && duration_nanos(p)
                <= max_nanos(),
            None => duration_nanos(d) * k > max_nanos(),
        },
;

// ---------------------------------------------------------------------------
// Texts
// ---------------------------------------------------------------------------

/// Why a text names no span.
#[derive(Debug)]
pub enum DurationFault {
    /// The text is not a number with a unit; the words say what is wrong.
    Invalid(String),
    /// The seconds of the span do not fit into a `u64`.
    Overflow,
}

/// The number `digits`, counted in units of `unit` nanoseconds.
pub open spec fn read_scaled(digits: Seq<char>, unit: nat) -> Result<nat, Seq<char>> {
    match number::read_unsigned(digits, u64::MAX as nat) {
        Ok(n) => Ok(n * unit),
        Err(f) => Err(number::fault_text(f)),
    }
}

/// The text without its last `n` characters, and without white space around it.
pub open spec fn stem(s: Seq<char>, n: int) -> Seq<char> {
    text::trimmed(s.take(s.len() - n))
}

/// The nanoseconds that a text such as `5s`, `100ms`, `2m`, `3h` or `7d` names,
/// or the words that say what is wrong with it. A bare number counts seconds.
pub open spec fn read_duration(s: Seq<char>) -> Result<nat, Seq<char>> {
    let t = text::trimmed(s);
    if text::ends_with(t, "ms"@) {
        read_scaled(stem(t, 2), 1_000_000)
    } else if text::ends_with(t, "s"@) {
        read_scaled(stem(t, 1), 1_000_000_000)
    } else if text::ends_with(t, "m"@) {
        read_scaled(stem(t, 1), 60_000_000_000)
    } else if text::ends_with(t, "h"@) {
        read_scaled(stem(t, 1), 3_600_000_000_000)
    } else if text::ends_with(t, "d"@) {
        read_scaled(stem(t, 1), 86_400_000_000_000)
    } else {
        match read_scaled(t, 1_000_000_000) {
            Ok(n) => Ok(n),
            Err(_) => Err("invalid duration: "@ + t),
        }
    }
}

/// The nanoseconds that a text such as `5s`, `100ms` or `2m` names, or the words
/// that say what is wrong with it. A bare number counts seconds; there are no
/// units for hours and days.
pub open spec fn read_short_duration(s: Seq<char>) -> Result<nat, Seq<char>> {
    let t = text::trimmed(s);
    if text::ends_with(t, "ms"@) {
        read_scaled(stem(t, 2), 1_000_000)
    } else if text::ends_with(t, "s"@) {
        read_scaled(stem(t, 1), 1_000_000_000)
    } else if text::ends_with(t, "m"@) {
        read_scaled(stem(t, 1), 60_000_000_000)
    } else {
        read_scaled(t, 1_000_000_000)
    }
}

/// Whether a reading is not a span that is too long.
pub open spec fn reading_fits(r: Result<nat, Seq<char>>) -> bool {
    r matches Ok(n) ==> n <= max_nanos()
}

/// Whether `r` reports the reading `read`.
pub open spec fn reports(r: Result<Duration, DurationFault>, read: Result<nat, Seq<char>>) -> bool {
    match read {
        Ok(n) => if n <= max_nanos() {
            r matches Ok(d) && duration_nanos(d) == n
        } else {
            r matches Err(DurationFault::Overflow)
        },
        Err(words) => r matches Err(DurationFault::Invalid(m)) && m@ == words,
    }
}

/// `chars` without its last `n` characters, and without white space around it.
fn stem_of(chars: &[char], n: usize) -> (r: Vec<char>)
    requires
        n <= chars@.len(),
    ensures
        r@ == stem(chars@, n as int),
{
    let v: Vec<char> = text::range_of(chars, 0, chars.len() - n);
    assert(v@ =~= chars@.take(chars@.len() - n));
    text::trim(v.as_slice())
}

/// The number `digits`, counted in units of `unit` seconds.
fn seconds_of(digits: &[char], unit: u64) -> (r: Result<Duration, DurationFault>)
    requires
        unit > 0,
    ensures
        reports(r, read_scaled(digits@, (unit * 1_000_000_000) as nat)),
{
    match number::parse_u64(digits) {
        Ok(n) => match n.checked_mul(unit) {
            Some(secs) => {
                assert(n * (unit * 1_000_000_000) == secs * 1_000_000_000) by (nonlinear_arith)
                    requires
                        n * unit == secs,
                ;
                Ok(Duration::from_secs(secs))
            },
            None => {
                assert(n * (unit * 1_000_000_000) > max_nanos()) by (nonlinear_arith)
                    requires
                        n * unit > u64::MAX,
                        max_nanos() == u64::MAX * 1_000_000_000 + 999_999_999,
                ;
                Err(DurationFault::Overflow)
            },
        },
        Err(f) => Err(DurationFault::Invalid(f.message())),
    }
}

/// The number `digits`, counted in milliseconds.
fn millis_of(digits: &[char]) -> (r: Result<Duration, DurationFault>)
    ensures
        reports(r, read_scaled(digits@, 1_000_000)),
{
    match number::parse_u64(digits) {
        Ok(n) => Ok(Duration::from_millis(n)),
        Err(f) => Err(DurationFault::Invalid(f.message())),
    }
}

/// Whether the characters end with a text.
fn ends(chars: &[char], suffix: &str) -> (r: bool)
    ensures
        r == text::ends_with(chars@, suffix@),
{
    text::ends(chars, text::chars_of(suffix).as_slice())
}

/// The span that a text such as `5s`, `100ms`, `2m`, `3h` or `7d` names. A bare
/// number counts seconds.
pub fn checked_duration(s: &str) -> (r: Result<Duration, DurationFault>)
    ensures
        reports(r, read_duration(s@)),
{
    proof {
        reveal_strlit("ms");
        reveal_strlit("s");
        reveal_strlit("m");
        reveal_strlit("h");
        reveal_strlit("d");
    }
    let t: Vec<char> = text::trim(text::chars_of(s).as_slice());
    let chars: &[char] = t.as_slice();
    if ends(chars, "ms") {
        millis_of(stem_of(chars, 2).as_slice())
    } else if ends(chars, "s") {
        seconds_of(stem_of(chars, 1).as_slice(), 1)
    } else if ends(chars, "m") {
        seconds_of(stem_of(chars, 1).as_slice(), 60)
    } else if ends(chars, "h") {
        seconds_of(stem_of(chars, 1).as_slice(), 3600)
    } else if ends(chars, "d") {
        seconds_of(stem_of(chars, 1).as_slice(), 86_400)
    } else {
        match seconds_of(chars, 1) {
            Err(DurationFault::Invalid(_)) => Err(
                DurationFault::Invalid(
                    text::join2("invalid duration: ", text::string_of(chars).as_str()),
                ),
            ),
            other => other,
        }
    }
}

/// The span that a text such as `5s`, `100ms` or `2m` names. A bare number counts
/// seconds.
pub fn parse_duration_str(s: &str) -> (r: Result<Duration, DurationFault>)
    ensures
        reports(r, read_short_duration(s@)),
{
    proof {
        reveal_strlit("ms");
        reveal_strlit("s");
        reveal_strlit("m");
    }
    let t: Vec<char> = text::trim(text::chars_of(s).as_slice());
    let chars: &[char] = t.as_slice();
    if ends(chars, "ms") {
        millis_of(stem_of(chars, 2).as_slice())
    } else if ends(chars, "s") {
        seconds_of(stem_of(chars, 1).as_slice(), 1)
    } else if ends(chars, "m") {
        seconds_of(stem_of(chars, 1).as_slice(), 60)
    } else {
        seconds_of(chars, 1)
    }
}

proof fn lemma_number_with_unit(n: nat, unit: Seq<char>)
    requires
        n <= u64::MAX,
        unit.len() > 0,
        !text::is_space(unit.last()),
    ensures
        text::trimmed(number::decimal(n) + unit) == number::decimal(n) + unit,
        stem(number::decimal(n) + unit, unit.len() as int) == number::decimal(n),
        number::read_unsigned(number::decimal(n), u64::MAX as nat) == Ok::<nat, IntFault>(n),
{
    let s = number::decimal(n);
    number::lemma_decimal_digits(n);
    number::law_decimal_reads_back(n, u64::MAX as nat);
    assert(number::is_digit(s[0]) && number::is_digit(s.last()));
    assert((s + unit)[0] == s[0]);
    assert((s + unit).last() == unit.last());
    text::lemma_nothing_to_trim(s + unit);
    text::lemma_nothing_to_trim(s);
    assert((s + unit).take(s.len() as int) =~= s);
}

/// Whether both readings of a text give `nanos`.
pub open spec fn both_read(s: Seq<char>, nanos: nat) -> bool {
    &&& read_duration(s) == Ok::<nat, Seq<char>>(nanos)
    &&& read_short_duration(s) == Ok::<nat, Seq<char>>(nanos)
}

/// A number with a unit behind it names that many units, and a bare number names
/// seconds.
pub proof fn law_units(n: nat)
    requires
        n <= u64::MAX,
    ensures
        both_read(number::decimal(n) + "ms"@, n * 1_000_000),
        both_read(number::decimal(n) + "s"@, n * 1_000_000_000),
        both_read(number::decimal(n) + "m"@, n * 60_000_000_000),
        read_duration(number::decimal(n) + "h"@) == Ok::<nat, Seq<char>>(n * 3_600_000_000_000),
        read_duration(number::decimal(n) + "d"@) == Ok::<nat, Seq<char>>(n * 86_400_000_000_000),
        both_read(number::decimal(n), n * 1_000_000_000),
{
    reveal_strlit("ms");
    reveal_strlit("s");
    reveal_strlit("m");
    reveal_strlit("h");
    reveal_strlit("d");
    let s = number::decimal(n);
    lemma_number_with_unit(n, "ms"@);
    lemma_number_with_unit(n, "s"@);
    lemma_number_with_unit(n, "m"@);
    lemma_number_with_unit(n, "h"@);
    lemma_number_with_unit(n, "d"@);
    number::lemma_decimal_digits(n);
    assert(number::is_digit(s.last()));
    lemma_ends(s, "ms"@);
    lemma_ends(s, "s"@);
    lemma_ends(s, "m"@);
    lemma_ends(s, "h"@);
    lemma_ends(s, "d"@);
    assert(number::is_digit(s[0]));
    text::lemma_nothing_to_trim(s);
}

/// What a row of digits with a unit behind it ends with.
proof fn lemma_ends(digits: Seq<char>, unit: Seq<char>)
    requires
        digits.len() > 0,
        number::is_digit(digits.last()),
        unit.len() > 0,
    ensures
        forall|w: Seq<char>|
            w.len() > 0 && #[trigger] text::ends_with(digits + unit, w) ==> w.last() == unit.last(),
        forall|w: Seq<char>|
            w.len() > 0 && #[trigger] text::ends_with(digits, w) ==> number::is_digit(w.last()),
        text::ends_with(digits + unit, unit),
        unit.len() == 1 ==> forall|w: Seq<char>|
            w.len() == 2 && #[trigger] text::ends_with(digits + unit, w) ==> number::is_digit(w[0]),
{
    let t = digits + unit;
    assert(t.subrange(t.len() - unit.len(), t.len() as int) =~= unit);
    assert forall|w: Seq<char>|
        w.len() > 0 && #[trigger] text::ends_with(t, w) implies w.last() == unit.last() by {
        assert(t.subrange(t.len() - w.len(), t.len() as int).last() == t.last());
    }
    assert forall|w: Seq<char>|
        w.len() > 0 && #[trigger] text::ends_with(digits, w) implies number::is_digit(
        w.last(),
    ) by {
        assert(digits.subrange(digits.len() - w.len(), digits.len() as int).last()
            == digits.last());
    }
    if unit.len() == 1 {
        assert forall|w: Seq<char>|
            w.len() == 2 && #[trigger] text::ends_with(t, w) implies number::is_digit(w[0]) by {
            assert(t.subrange(t.len() - 2, t.len() as int)[0] == digits.last());
        }
    }
}

// ---------------------------------------------------------------------------
// Nanoseconds in 64 bits
// ---------------------------------------------------------------------------

/// The nanoseconds of a span, cut to the low 64 bits.
pub fn nanos_i64(d: &Duration) -> (n: i64)
    ensures
        n == number::low_i64(duration_nanos(*d)),
{
    number::cut_i64(d.as_nanos())
}

} // verus!
