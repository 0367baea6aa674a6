//! Laws of texts, numbers, spans and dates.

use vstd::prelude::*;
use vstd::utf8;

use crate::calendar;
use crate::duration;
use crate::duration::DurationFault;
use crate::number;
use crate::number::IntFault;
use crate::text;
use std::time::Duration;

verus! {

// ---------------------------------------------------------------------------
// Texts
// ---------------------------------------------------------------------------

/// White space is what Unicode counts as such.
pub proof fn law_white_space(c: char)
    ensures
        text::is_space(c) <==> {
            let n = c as u32;
            ||| 9 <= n <= 13
            ||| n == 32
            ||| n == 133
            ||| n == 160
            ||| n == 5760
            ||| 8192 <= n <= 8202
            ||| n == 8232
            ||| n == 8233
            ||| n == 8239
            ||| n == 8287
            ||| n == 12288
        },
{
}

/// Whether a text is white space.
pub open spec fn is_blank(s: Seq<char>) -> bool {
    forall|i: int| 0 <= i < s.len() ==> text::is_space(#[trigger] s[i])
}

/// Trimming takes away the white space around a text, and nothing of the text.
pub proof fn law_trimming_takes_the_space_around(a: Seq<char>, s: Seq<char>, b: Seq<char>)
    requires
        is_blank(a),
        is_blank(b),
        s.len() > 0 ==> !text::is_space(s[0]) && !text::is_space(s.last()),
    ensures
        text::trimmed(a + s + b) == s,
{
    lemma_trim_start(a, s + b);
    assert(a + s + b =~= a + (s + b));
    if s.len() > 0 {
        assert((s + b)[0] == s[0]);
        assert(text::trim_start(s + b) == s + b);
        lemma_trim_end(s, b);
    } else {
        assert(s + b =~= b);
        lemma_trim_start(b, Seq::empty());
        assert(b + Seq::<char>::empty() =~= b);
        assert(text::trim_start(b) =~= Seq::empty());
        assert(text::trim_end(Seq::empty()) =~= s);
    }
}

proof fn lemma_trim_start(a: Seq<char>, s: Seq<char>)
    requires
        is_blank(a),
    ensures
        text::trim_start(a + s) == text::trim_start(s),
    decreases a.len(),
{
    if a.len() == 0 {
        assert(a + s =~= s);
    } else {
        assert((a + s)[0] == a[0]);
        assert((a + s).skip(1) =~= a.skip(1) + s);
        assert forall|i: int| 0 <= i < a.skip(1).len() implies text::is_space(
            #[trigger] a.skip(1)[i],
        ) by {
            assert(a.skip(1)[i] == a[i + 1]);
        }
        lemma_trim_start(a.skip(1), s);
    }
}

proof fn lemma_trim_end(s: Seq<char>, b: Seq<char>)
    requires
        is_blank(b),
        s.len() > 0,
        !text::is_space(s.last()),
    ensures
        text::trim_end(s + b) == s,
    decreases b.len(),
{
    if b.len() == 0 {
        assert(s + b =~= s);
    } else {
        assert((s + b).last() == b.last());
        assert((s + b).drop_last() =~= s + b.drop_last());
        lemma_trim_end(s, b.drop_last());
    }
}

/// A text without the separator is one piece, and a separator parts a piece from
/// the others.
pub proof fn law_pieces_stand_between_separators(first: Seq<char>, rest: Seq<char>, sep: char)
    requires
        !first.contains(sep),
    ensures
        text::pieces(first, sep) == seq![first],
        text::pieces(first + seq![sep] + rest, sep) == seq![first] + text::pieces(rest, sep),
{
    text::lemma_first_at(first, sep);
    if text::first_at(first, sep) < first.len() {
        assert(first.contains(first[text::first_at(first, sep)]));
    }
    let s = first + seq![sep] + rest;
    text::lemma_first_at(s, sep);
    let at = text::first_at(s, sep);
    if at < first.len() {
        assert(s[at] == first[at]);
        assert(first.contains(first[at]));
    }
    assert(s[first.len() as int] == sep);
    assert(s.take(at) =~= first);
    assert(s.skip(at + 1) =~= rest);
}

/// A text in two parts with a separator between them has the pieces of both.
pub proof fn law_pieces_of_two_parts(a: Seq<char>, b: Seq<char>, sep: char)
    ensures
        text::pieces(a + seq![sep] + b, sep) == text::pieces(a, sep) + text::pieces(b, sep),
    decreases a.len(),
{
    text::lemma_first_at(a, sep);
    let at = text::first_at(a, sep);
    if at == a.len() {
        if a.contains(sep) {
            let i = choose|i: int| 0 <= i < a.len() && a[i] == sep;
            assert(a[i] != sep);
        }
        law_pieces_stand_between_separators(a, b, sep);
    } else {
        let first = a.take(at);
        let rest = a.skip(at + 1);
        assert(!first.contains(sep)) by {
            if first.contains(sep) {
                let i = choose|i: int| 0 <= i < first.len() && first[i] == sep;
                assert(a[i] == sep);
            }
        }
        law_pieces_of_two_parts(rest, b, sep);
        assert(a + seq![sep] + b =~= first + seq![sep] + (rest + seq![sep] + b));
        law_pieces_stand_between_separators(first, rest + seq![sep] + b, sep);
        assert(seq![first] + (text::pieces(rest, sep) + text::pieces(b, sep)) =~= text::pieces(
            a,
            sep,
        ) + text::pieces(b, sep));
    }
}

/// A text occurs in another exactly if that is made of the text and what stands
/// before and behind it; and it stands at the end if nothing stands behind it.
pub proof fn law_where_a_text_occurs(a: Seq<char>, p: Seq<char>, b: Seq<char>, s: Seq<char>)
    ensures
        text::occurs_in(a + p + b, p),
        text::ends_with(a + p, p),
        text::occurs_in(s, p) ==> exists|i: int|
            0 <= i <= s.len() - p.len() && s == #[trigger] s.take(i) + p + s.skip(i + p.len()),
        text::ends_with(s, p) ==> p.len() <= s.len() && s == s.take(s.len() - p.len()) + p,
{
    assert((a + p + b).subrange(a.len() as int, a.len() as int + p.len()) =~= p);
    assert(text::stands_at(a + p + b, p, a.len() as int));
    assert((a + p).subrange(a.len() as int, a.len() as int + p.len()) =~= p);
    if text::occurs_in(s, p) {
        let i = choose|i: int| text::stands_at(s, p, i);
        assert(s.take(i) + p + s.skip(i + p.len()) =~= s);
    }
    if text::ends_with(s, p) {
        assert(s.take(s.len() - p.len()) + p =~= s);
    }
}

/// Capital and small letters of ASCII are 32 apart; every other character has no
/// other case.
pub proof fn law_case_of_a_letter(c: char)
    ensures
        65 <= c as u32 <= 90 ==> text::ascii_lower(c) as u32 == c as u32 + 32,
        !(65 <= c as u32 <= 90) ==> text::ascii_lower(c) == c,
        97 <= c as u32 <= 122 ==> text::ascii_upper(c) as u32 + 32 == c as u32,
        !(97 <= c as u32 <= 122) ==> text::ascii_upper(c) == c,
{
}

/// The case of a text is that of each of its characters.
pub proof fn law_case_of_a_text(s: Seq<char>)
    ensures
        text::uppercase_ascii(s).len() == s.len(),
        forall|i: int|
            0 <= i < s.len() ==> #[trigger] text::uppercase_ascii(s)[i] == text::ascii_upper(s[i]),
        utf8::is_ascii_chars(s) ==> text::lowered(s).len() == s.len(),
        utf8::is_ascii_chars(s) ==> forall|i: int|
            0 <= i < s.len() ==> #[trigger] text::lowered(s)[i] == text::ascii_lower(s[i]),
{
}

/// The bytes of a text are read as that text.
pub proof fn law_bytes_of_a_text_are_read(s: Seq<char>)
    ensures
        text::text_of(utf8::encode_utf8(s)) == s,
{
    utf8::encode_utf8_valid_utf8(s);
    utf8::encode_utf8_decode_utf8(s);
}

/// Texts are shown as they are.
pub proof fn law_texts_are_shown(s: Option<String>, row: Seq<String>)
    ensures
        match s {
            Some(t) => text::optional(s) == Some(t@),
            None => text::optional(s) is None,
        },
        text::all(row).len() == row.len(),
        forall|i: int| 0 <= i < row.len() ==> #[trigger] text::all(row)[i] == row[i]@,
{
}

// ---------------------------------------------------------------------------
// Numbers
// ---------------------------------------------------------------------------

/// Whether a text is made of decimal digits.
pub open spec fn is_digits(s: Seq<char>) -> bool {
    s.len() > 0 && forall|i: int| 0 <= i < s.len() ==> '0' <= #[trigger] s[i] <= '9'
}

/// A row of digits counts in tens.
pub proof fn law_digits_count_in_tens(s: Seq<char>, c: char)
    requires
        48 <= c as u32 <= 57,
    ensures
        number::value_of(Seq::empty()) == 0,
        number::value_of(s.push(c)) == 10 * number::value_of(s) + (c as u32 - 48),
{
    assert(s.push(c).drop_last() =~= s);
}

/// A row of digits, with a plus sign before it or not, is read as its number unless
/// that is too large. With a minus sign it is read as the number below zero.
pub proof fn law_digits_are_read(s: Seq<char>, max: nat)
    requires
        is_digits(s),
    ensures
        number::read_unsigned(s, max) == if number::value_of(s) <= max {
            Ok::<nat, IntFault>(number::value_of(s))
        } else {
            Err(IntFault::TooLarge)
        },
        number::read_unsigned("+"@ + s, max) == number::read_unsigned(s, max),
        number::read_signed("-"@ + s, max) == if number::value_of(s) <= max + 1 {
            Ok::<int, IntFault>(-(number::value_of(s) as int))
        } else {
            Err(IntFault::TooSmall)
        },
        number::read_signed(s, max) == if number::value_of(s) <= max {
            Ok::<int, IntFault>(number::value_of(s) as int)
        } else {
            Err(IntFault::TooLarge)
        },
        number::read_signed("+"@ + s, max) == number::read_signed(s, max),
{
    reveal_strlit("+");
    reveal_strlit("-");
    number::lemma_digit_run(s, s.len());
    assert(s.take(s.len() as int) =~= s);
    assert(("+"@ + s).skip(1) =~= s);
    assert(("-"@ + s).skip(1) =~= s);
    assert('0' <= s[0] <= '9');
}

/// Nothing is no number, and neither is a text with a character that is no digit,
/// but for a sign at its beginning.
pub proof fn law_other_texts_are_no_numbers(s: Seq<char>, i: int, max: nat)
    requires
        0 <= i < s.len(),
        !('0' <= s[i] <= '9'),
        i == 0 ==> s.len() == 1 || (s[0] != '+' && s[0] != '-'),
    ensures
        number::read_unsigned(s, max) is Err,
        number::read_signed(s, max) is Err,
        number::read_unsigned(Seq::empty(), max) == Err::<nat, IntFault>(IntFault::Empty),
        number::read_signed(Seq::empty(), max) == Err::<int, IntFault>(IntFault::Empty),
{
    number::lemma_digit_run_bound(s);
    number::lemma_digit_run_bound(s.skip(1));
    if number::digit_run(s) == s.len() {
        assert(number::is_digit(s[i]));
    }
    if s.len() > 1 && number::digit_run(s.skip(1)) == s.skip(1).len() && i > 0 {
        assert(number::is_digit(s.skip(1)[i - 1]));
    }
}

/// A character that is no digit is what is wrong with a number, unless the digits
/// before it are too large already.
pub proof fn law_which_fault_is_found(d: Seq<char>, c: char, rest: Seq<char>, max: nat)
    requires
        is_digits(d),
        !('0' <= c <= '9'),
    ensures
        number::read_unsigned(d.push(c) + rest, max) == Err::<nat, IntFault>(
            if number::value_of(d) <= max {
                IntFault::InvalidDigit
            } else {
                IntFault::TooLarge
            },
        ),
{
    let s = d.push(c) + rest;
    assert(s[0] == d[0]);
    assert forall|i: int| 0 <= i < d.len() implies number::is_digit(s[i]) by {
        assert(s[i] == d[i]);
    }
    assert(s[d.len() as int] == c);
    number::lemma_digit_run(s, d.len());
    assert(s.take(d.len() as int) =~= d);
}

/// The decimal text of a number is made of digits, has no zero before it, and
/// stands for the number.
pub proof fn law_decimal_text(n: nat)
    ensures
        is_digits(number::decimal(n)),
        n > 0 ==> number::decimal(n)[0] != '0',
        number::value_of(number::decimal(n)) == n,
        n < 10 ==> number::decimal(n).len() == 1,
        number::signed_decimal(n as int) == number::decimal(n),
        n > 0 ==> number::signed_decimal(-(n as int)) == "-"@ + number::decimal(n),
    decreases n,
{
    reveal_strlit("-");
    number::lemma_decimal_digits(n);
    let s = number::decimal(n);
    assert forall|i: int| 0 <= i < s.len() implies '0' <= #[trigger] s[i] <= '9' by {
        assert(number::is_digit(s[i]));
    }
    if n >= 10 {
        law_decimal_text(n / 10);
    }
    if n > 0 {
        assert(number::signed_decimal(-(n as int)) =~= "-"@ + number::decimal(n));
    }
}

/// The low 64 bits of a number differ from it by a multiple of two to the power of
/// 64, and stand for a number of 64 bits with a sign.
pub proof fn law_low_bits(n: nat)
    ensures
        -0x8000_0000_0000_0000 <= number::low_i64(n) < 0x8000_0000_0000_0000,
        (n - number::low_i64(n)) % 0x1_0000_0000_0000_0000 == 0,
        n < 0x8000_0000_0000_0000 ==> number::low_i64(n) == n,
{
}

/// The words for each fault.
pub proof fn law_words_for_faults()
    ensures
        number::fault_text(IntFault::Empty) == "cannot parse integer from empty string"@,
        number::fault_text(IntFault::InvalidDigit) == "invalid digit found in string"@,
        number::fault_text(IntFault::TooLarge) == "number too large to fit in target type"@,
        number::fault_text(IntFault::TooSmall) == "number too small to fit in target type"@,
{
}

// ---------------------------------------------------------------------------
// Spans
// ---------------------------------------------------------------------------

/// White space around a text does not matter for the span that it names.
pub proof fn law_space_around_a_span(a: Seq<char>, s: Seq<char>, b: Seq<char>)
    requires
        is_blank(a),
        is_blank(b),
        s.len() > 0,
        !text::is_space(s[0]),
        !text::is_space(s.last()),
    ensures
        duration::read_duration(a + s + b) == duration::read_duration(s),
        duration::read_short_duration(a + s + b) == duration::read_short_duration(s),
{
    law_trimming_takes_the_space_around(a, s, b);
    text::lemma_nothing_to_trim(s);
}

/// White space between a number and its unit does not matter.
pub proof fn law_space_before_a_unit(n: nat, space: Seq<char>)
    requires
        n <= u64::MAX,
        is_blank(space),
    ensures
        duration::read_duration(number::decimal(n) + space + "s"@) == Ok::<nat, Seq<char>>(
            n * 1_000_000_000,
        ),
        duration::read_duration(number::decimal(n) + space + "d"@) == Ok::<nat, Seq<char>>(
            n * 86_400_000_000_000,
        ),
        duration::read_duration(number::decimal(n) + space + "h"@) == Ok::<nat, Seq<char>>(
            n * 3_600_000_000_000,
        ),
{
    lemma_spaced(n, space, 's');
    lemma_spaced(n, space, 'h');
    lemma_spaced(n, space, 'd');
    reveal_strlit("s");
    reveal_strlit("h");
    reveal_strlit("d");
    assert("s"@ =~= seq!['s']);
    assert("h"@ =~= seq!['h']);
    assert("d"@ =~= seq!['d']);
}

proof fn lemma_spaced(n: nat, space: Seq<char>, unit: char)
    requires
        n <= u64::MAX,
        is_blank(space),
        unit == 's' || unit == 'h' || unit == 'd',
    ensures
        duration::read_duration(number::decimal(n) + space + seq![unit]) == Ok::<nat, Seq<char>>(
            n * if unit == 's' {
                1_000_000_000nat
            } else if unit == 'h' {
                3_600_000_000_000
            } else {
                86_400_000_000_000
            },
        ),
{
    let d = number::decimal(n);
    let t = d + space + seq![unit];
    law_decimal_text(n);
    number::law_decimal_reads_back(n, u64::MAX as nat);
    assert('0' <= d[0] <= '9' && '0' <= d.last() <= '9');
    assert(t[0] == d[0] && t.last() == unit);
    text::lemma_nothing_to_trim(t);
    assert(t.take(t.len() - 1) =~= Seq::<char>::empty() + d + space);
    law_trimming_takes_the_space_around(Seq::empty(), d, space);
    reveal_strlit("ms");
    reveal_strlit("s");
    reveal_strlit("m");
    reveal_strlit("h");
    reveal_strlit("d");
    let before = t[t.len() - 2];
    assert(before == (d + space).last());
    assert(before != 'm') by {
        if space.len() > 0 {
            assert(text::is_space(space[space.len() - 1]));
        }
    }
    assert(t.subrange(t.len() - 2, t.len() as int)[0] == before);
    assert(t.subrange(t.len() - 1, t.len() as int) =~= seq![unit]);
    assert(t.subrange(t.len() - 1, t.len() as int)[0] == unit);
    assert("ms"@[0] == 'm');
    assert(!text::ends_with(t, "ms"@));
    assert("s"@ =~= seq!['s'] && "m"@ =~= seq!['m'] && "h"@ =~= seq!['h'] && "d"@ =~= seq!['d']);
    assert("s"@[0] == 's' && "m"@[0] == 'm' && "h"@[0] == 'h' && "d"@[0] == 'd');
}

/// A text without a unit that is no number is reported as a whole.
pub proof fn law_invalid_spans_are_quoted(s: Seq<char>)
    requires
        s.len() > 0,
        !text::is_space(s[0]),
        !text::is_space(s.last()),
        s.last() != 's' && s.last() != 'm' && s.last() != 'h' && s.last() != 'd',
        number::read_unsigned(s, u64::MAX as nat) is Err,
    ensures
        duration::read_duration(s) == Err::<nat, Seq<char>>("invalid duration: "@ + s),
        duration::read_short_duration(s) == Err::<nat, Seq<char>>(
            number::fault_text(number::read_unsigned(s, u64::MAX as nat)->Err_0),
        ),
{
    text::lemma_nothing_to_trim(s);
    reveal_strlit("ms");
    reveal_strlit("s");
    reveal_strlit("m");
    reveal_strlit("h");
    reveal_strlit("d");
    assert(forall|w: Seq<char>|
        w.len() > 0 && #[trigger] text::ends_with(s, w) ==> s.subrange(
            s.len() - w.len(),
            s.len() as int,
        ).last() == s.last());
    assert("ms"@.last() == 's' && "s"@.last() == 's' && "m"@.last() == 'm' && "h"@.last() == 'h'
        && "d"@.last() == 'd');
}

/// A number that cannot be read is reported in the words for its fault, whatever
/// unit stands behind it.
pub proof fn law_unreadable_number_of_a_span(d: Seq<char>, fault: IntFault)
    requires
        d.len() > 0,
        !text::is_space(d[0]),
        !text::is_space(d.last()),
        d.last() != 'm',
        number::read_unsigned(d, u64::MAX as nat) == Err::<nat, IntFault>(fault),
    ensures
        duration::read_duration(d + "ms"@) == Err::<nat, Seq<char>>(number::fault_text(fault)),
        duration::read_duration(d + "s"@) == Err::<nat, Seq<char>>(number::fault_text(fault)),
        duration::read_duration(d + "m"@) == Err::<nat, Seq<char>>(number::fault_text(fault)),
        duration::read_duration(d + "h"@) == Err::<nat, Seq<char>>(number::fault_text(fault)),
        duration::read_duration(d + "d"@) == Err::<nat, Seq<char>>(number::fault_text(fault)),
        duration::read_short_duration(d + "ms"@) == Err::<nat, Seq<char>>(
            number::fault_text(fault),
        ),
        duration::read_short_duration(d + "s"@) == Err::<nat, Seq<char>>(
            number::fault_text(fault),
        ),
        duration::read_short_duration(d + "m"@) == Err::<nat, Seq<char>>(
            number::fault_text(fault),
        ),
{
    reveal_strlit("ms");
    reveal_strlit("s");
    reveal_strlit("m");
    reveal_strlit("h");
    reveal_strlit("d");
    lemma_with_unit(d, "ms"@);
    lemma_with_unit(d, "s"@);
    lemma_with_unit(d, "m"@);
    lemma_with_unit(d, "h"@);
    lemma_with_unit(d, "d"@);
    assert("ms"@[0] == 'm' && "ms"@.last() == 's' && "s"@.last() == 's' && "m"@.last() == 'm'
        && "h"@.last() == 'h' && "d"@.last() == 'd');
}

proof fn lemma_with_unit(d: Seq<char>, unit: Seq<char>)
    requires
        d.len() > 0,
        !text::is_space(d[0]),
        !text::is_space(d.last()),
        unit.len() > 0,
        !text::is_space(unit.last()),
    ensures
        text::trimmed(d + unit) == d + unit,
        duration::stem(d + unit, unit.len() as int) == d,
        text::ends_with(d + unit, unit),
        forall|w: Seq<char>|
            w.len() > 0 && #[trigger] text::ends_with(d + unit, w) ==> w.last() == unit.last(),
        unit.len() == 1 ==> forall|w: Seq<char>|
            w.len() == 2 && #[trigger] text::ends_with(d + unit, w) ==> w[0] == d.last(),
{
    let t = d + unit;
    assert(t[0] == d[0] && t.last() == unit.last());
    text::lemma_nothing_to_trim(t);
    text::lemma_nothing_to_trim(d);
    assert(t.take(d.len() as int) =~= d);
    assert(t.subrange(t.len() - unit.len(), t.len() as int) =~= unit);
    assert forall|w: Seq<char>|
        w.len() > 0 && #[trigger] text::ends_with(t, w) implies w.last() == unit.last() by {
        assert(t.subrange(t.len() - w.len(), t.len() as int).last() == t.last());
    }
    if unit.len() == 1 {
        assert forall|w: Seq<char>|
            w.len() == 2 && #[trigger] text::ends_with(t, w) implies w[0] == d.last() by {
            assert(t.subrange(t.len() - 2, t.len() as int)[0] == d.last());
        }
    }
}

/// The short reading has no hours and no days.
pub proof fn law_short_spans_have_no_hours(n: nat)
    ensures
        duration::read_short_duration(number::decimal(n) + "h"@) is Err,
        duration::read_short_duration(number::decimal(n) + "d"@) is Err,
{
    reveal_strlit("ms");
    reveal_strlit("s");
    reveal_strlit("m");
    reveal_strlit("h");
    reveal_strlit("d");
    let d = number::decimal(n);
    law_decimal_text(n);
    assert('0' <= d[0] <= '9' && '0' <= d.last() <= '9');
    lemma_with_unit(d, "h"@);
    lemma_with_unit(d, "d"@);
    assert("ms"@.last() == 's' && "s"@.last() == 's' && "m"@.last() == 'm' && "h"@.last() == 'h'
        && "d"@.last() == 'd');
    let a = d + "h"@;
    let b = d + "d"@;
    assert(a[d.len() as int] == 'h' && b[d.len() as int] == 'd');
    law_other_texts_are_no_numbers(a, d.len() as int, u64::MAX as nat);
    law_other_texts_are_no_numbers(b, d.len() as int, u64::MAX as nat);
}

/// Whether a reading is reported: a span that is not too long is that span, a span
/// that is too long is an overflow, and what names no span is told in words.
pub proof fn law_readings_are_reported(
    r: Result<Duration, DurationFault>,
    n: nat,
    words: Seq<char>,
)
    ensures
        duration::reports(r, Ok(n)) && n <= 18_446_744_073_709_551_615_999_999_999 ==> r is Ok
            && duration::duration_nanos(r->Ok_0) == n,
        duration::reports(r, Ok(n)) && n > 18_446_744_073_709_551_615_999_999_999 ==> (r matches
        Err(DurationFault::Overflow)),
        duration::reports(r, Err(words)) ==> (r matches Err(DurationFault::Invalid(m)) && m@
            == words),
        duration::reading_fits(Ok(n)) == (n <= 18_446_744_073_709_551_615_999_999_999),
        duration::reading_fits(Err(words)),
{
}

// ---------------------------------------------------------------------------
// Dates
// ---------------------------------------------------------------------------

/// The months have their days, and February has a day more in every fourth year,
/// but for the centuries that are no multiple of four hundred.
pub proof fn law_days_of_the_months(y: int)
    ensures
        calendar::days_in_month(y, 1) == 31 && calendar::days_in_month(y, 3) == 31
            && calendar::days_in_month(y, 5) == 31 && calendar::days_in_month(y, 7) == 31
            && calendar::days_in_month(y, 8) == 31 && calendar::days_in_month(y, 10) == 31
            && calendar::days_in_month(y, 12) == 31,
        calendar::days_in_month(y, 4) == 30 && calendar::days_in_month(y, 6) == 30
            && calendar::days_in_month(y, 9) == 30 && calendar::days_in_month(y, 11) == 30,
        calendar::days_in_month(y, 2) == if y % 400 == 0 {
            29int
        } else if y % 100 == 0 {
            28
        } else if y % 4 == 0 {
            29
        } else {
            28
        },
{
    if y % 400 == 0 {
        assert(y % 4 == 0);
    }
}

/// The next date is a day later: the next day of the month, or the first of the
/// next month, or the first of January.
pub proof fn law_next_date_is_the_next_day(y: int, m: int, d: int)
    requires
        calendar::is_date(y, m, d),
    ensures
        d < calendar::days_in_month(y, m) ==> calendar::epoch_day(y, m, d + 1)
            == calendar::epoch_day(y, m, d) + 1,
        d == calendar::days_in_month(y, m) && m < 12 ==> calendar::epoch_day(y, m + 1, 1)
            == calendar::epoch_day(y, m, d) + 1,
        d == 31 && m == 12 ==> calendar::epoch_day(y + 1, 1, 1) == calendar::epoch_day(y, m, d)
            + 1,
        calendar::epoch_day(1970, 1, 1) == 0,
{
    calendar::law_years_follow_each_other(y);
}

} // verus!
