//! Integers read from and written as decimal text.

use vstd::prelude::*;

verus! {

// ---------------------------------------------------------------------------
// Reading
// ---------------------------------------------------------------------------

/// Why a text is not an integer of the wanted range.
#[derive(Debug, Clone, Copy, PartialEq, Eq, Structural)]
pub enum IntFault {
    /// There is no character at all.
    Empty,
    /// Something other than a digit stands where a digit has to.
    InvalidDigit,
    /// The number lies above the range.
    TooLarge,
    /// The number lies below the range.
    TooSmall,
}

/// The words with which a fault is reported.
pub open spec fn fault_text(f: IntFault) -> Seq<char> {
    match f {
        IntFault::Empty => "cannot parse integer from empty string"@,
        IntFault::InvalidDigit => "invalid digit found in string"@,
        IntFault::TooLarge => "number too large to fit in target type"@,
        IntFault::TooSmall => "number too small to fit in target type"@,
    }
}

impl IntFault {
    /// The words with which the fault is reported.
    pub fn message(&self) -> (r: String)
        ensures
            r@ == fault_text(*self),
    {
        let words: &str = match self {
            IntFault::Empty => "cannot parse integer from empty string",
            IntFault::InvalidDigit => "invalid digit found in string",
            IntFault::TooLarge => "number too large to fit in target type",
            IntFault::TooSmall => "number too small to fit in target type",
        };
        words.to_owned()
    }
}

/// Whether a character is one of `0`..`9`.
pub open spec fn is_digit(c: char) -> bool {
    '0' <= c <= '9'
}

/// What a decimal digit stands for.
pub open spec fn digit_value(c: char) -> nat {
    (c as u32 - '0' as u32) as nat
}

/// The number of digits with which the text begins.
pub open spec fn digit_run(s: Seq<char>) -> nat
    decreases s.len(),
{
    if s.len() > 0 && is_digit(s[0]) {
        1 + digit_run(s.skip(1))
    } else {
        0
    }
}

/// The number that a row of digits stands for; an empty row stands for zero.
pub open spec fn value_of(s: Seq<char>) -> nat
    decreases s.len(),
{
    if s.len() == 0 {
        0
    } else {
        value_of(s.drop_last()) * 10 + digit_value(s.last())
    }
}

/// Reads a row of digits whose number may be at most `max`. The digits are read
/// from the left, so a number that has grown too large is reported before a
/// wrong character behind it.
pub open spec fn read_digits(s: Seq<char>, max: nat) -> Result<nat, IntFault> {
    let run = s.take(digit_run(s) as int);
    if value_of(run) > max {
        Err(IntFault::TooLarge)
    } else if run.len() < s.len() {
        Err(IntFault::InvalidDigit)
    } else {
        Ok(value_of(s))
    }
}

/// Reads a number without a minus sign; a plus sign may stand before the digits.
pub open spec fn read_unsigned(s: Seq<char>, max: nat) -> Result<nat, IntFault> {
    if s.len() == 0 {
        Err(IntFault::Empty)
    } else if s.len() > 1 && s[0] == '+' {
        read_digits(s.skip(1), max)
    } else {
        read_digits(s, max)
    }
}

/// Reads a number from `-(max + 1)` to `max`; a sign may stand before the digits.
pub open spec fn read_signed(s: Seq<char>, max: nat) -> Result<int, IntFault> {
    if s.len() > 1 && s[0] == '-' {
        match read_digits(s.skip(1), max + 1) {
            Ok(n) => Ok(-(n as int)),
            Err(IntFault::TooLarge) => Err(IntFault::TooSmall),
            Err(f) => Err(f),
        }
    } else {
        match read_unsigned(s, max) {
            Ok(n) => Ok(n as int),
            Err(f) => Err(f),
        }
    }
}

pub proof fn lemma_digit_run(s: Seq<char>, n: nat)
    requires
        n <= s.len(),
        forall|k: int| 0 <= k < n ==> is_digit(s[k]),
        n < s.len() ==> !is_digit(s[n as int]),
    ensures
        digit_run(s) == n,
    decreases n,
{
    if n > 0 {
        assert forall|k: int| 0 <= k < n - 1 implies is_digit(s.skip(1)[k]) by {
            assert(s.skip(1)[k] == s[k + 1]);
        }
        lemma_digit_run(s.skip(1), (n - 1) as nat);
    }
}

/// Digits only ever make a number larger.
proof fn lemma_value_grows(s: Seq<char>, n: int, m: int)
    requires
        0 <= n <= m <= s.len(),
        forall|k: int| 0 <= k < m ==> is_digit(s[k]),
    ensures
        value_of(s.take(n)) <= value_of(s.take(m)),
    decreases m - n,
{
    if n < m {
        lemma_value_grows(s, n, m - 1);
        assert(s.take(m).drop_last() =~= s.take(m - 1));
    }
}

pub proof fn lemma_digit_run_bound(s: Seq<char>)
    ensures
        digit_run(s) <= s.len(),
        forall|k: int| 0 <= k < digit_run(s) ==> is_digit(s[k]),
        digit_run(s) < s.len() ==> !is_digit(s[digit_run(s) as int]),
    decreases s.len(),
{
    if s.len() > 0 && is_digit(s[0]) {
        lemma_digit_run_bound(s.skip(1));
        assert forall|k: int| 0 <= k < digit_run(s) implies is_digit(s[k]) by {
            if k > 0 {
                assert(s.skip(1)[k - 1] == s[k]);
            }
        }
    }
}

/// What is read is at most the largest number that may be read.
pub proof fn lemma_read_bound(s: Seq<char>, max: nat)
    ensures
        read_unsigned(s, max) matches Ok(n) ==> n <= max,
{
    let t = if s.len() > 1 && s[0] == '+' {
        s.skip(1)
    } else {
        s
    };
    lemma_digit_run_bound(t);
    assert(t.take(t.len() as int) =~= t);
}

/// Reads the digits of `s` from position `from` on.
fn digits_from(s: &[char], from: usize, max: u64) -> (r: Result<u64, IntFault>)
    requires
        from <= s@.len(),
    ensures
        match read_digits(s@.skip(from as int), max as nat) {
            Ok(n) => r == Ok::<u64, IntFault>(n as u64) && n <= max,
            Err(f) => r == Err::<u64, IntFault>(f),
        },
{
    let n: usize = s.len();
    let mut total: u64 = 0;
    let mut i: usize = from;
    let ghost t = s@.skip(from as int);
    proof {
        lemma_digit_run_bound(t);
    }
    while i < n
        invariant
            n == s@.len(),
            from <= i <= n,
            t == s@.skip(from as int),
            forall|k: int| 0 <= k < i - from ==> is_digit(#[trigger] t[k]),
            total == value_of(t.take(i - from)),
            total <= max,
            digit_run(t) <= t.len(),
            forall|k: int| 0 <= k < digit_run(t) ==> is_digit(#[trigger] t[k]),
            digit_run(t) < t.len() ==> !is_digit(t[digit_run(t) as int]),
        decreases n - i,
    {
        let c: char = s[i];
        assert(t[i - from] == c);
        if !('0' <= c && c <= '9') {
            proof {
                lemma_digit_run(t, (i - from) as nat);
            }
            return Err(IntFault::InvalidDigit);
        }
        let d: u64 = (c as u32 - '0' as u32) as u64;
        assert(t.take(i + 1 - from).drop_last() =~= t.take(i - from));
        assert(value_of(t.take(i + 1 - from)) == total * 10 + d);
        if d > max || total > (max - d) / 10 {
            assert(value_of(t.take(i + 1 - from)) > max);
            proof {
                if digit_run(t) <= i - from {
                    assert(is_digit(t[digit_run(t) as int]));
                }
                lemma_value_grows(t, i + 1 - from, digit_run(t) as int);
            }
            return Err(IntFault::TooLarge);
        }
        total = total * 10 + d;
        i += 1;
    }
    proof {
        lemma_digit_run(t, t.len());
        assert(t.take(t.len() as int) =~= t);
    }
    Ok(total)
}

/// Reads a number from `0` to `max`.
pub fn parse_unsigned(s: &[char], max: u64) -> (r: Result<u64, IntFault>)
    ensures
        match read_unsigned(s@, max as nat) {
            Ok(n) => r == Ok::<u64, IntFault>(n as u64) && n <= max,
            Err(f) => r == Err::<u64, IntFault>(f),
        },
{
    if s.len() == 0 {
        return Err(IntFault::Empty);
    }
    if s.len() > 1 && s[0] == '+' {
        digits_from(s, 1, max)
    } else {
        assert(s@.skip(0) =~= s@);
        digits_from(s, 0, max)
    }
}

/// Reads a `u64`.
pub fn parse_u64(s: &[char]) -> (r: Result<u64, IntFault>)
    ensures
        match read_unsigned(s@, u64::MAX as nat) {
            Ok(n) => r == Ok::<u64, IntFault>(n as u64) && n <= u64::MAX,
            Err(f) => r == Err::<u64, IntFault>(f),
        },
{
    parse_unsigned(s, u64::MAX)
}

/// Reads a `u32`, if the text is one.
pub fn parse_u32(s: &[char]) -> (r: Option<u32>)
    ensures
        match read_unsigned(s@, u32::MAX as nat) {
            Ok(n) => r == Some(n as u32) && n <= u32::MAX,
            Err(_) => r is None,
        },
{
    match parse_unsigned(s, u32::MAX as u64) {
        Ok(n) => Some(n as u32),
        Err(_) => None,
    }
}

/// Reads a `usize`, if the text is one.
pub fn parse_usize(s: &[char]) -> (r: Option<usize>)
    ensures
        match read_unsigned(s@, usize::MAX as nat) {
            Ok(n) => r == Some(n as usize) && n <= usize::MAX,
            Err(_) => r is None,
        },
{
    match parse_unsigned(s, usize::MAX as u64) {
        Ok(n) => Some(n as usize),
        Err(_) => None,
    }
}

/// Reads an `i64`, if the text is one.
pub fn parse_i64(s: &[char]) -> (r: Option<i64>)
    ensures
        match read_signed(s@, i64::MAX as nat) {
            Ok(n) => r == Some(n as i64) && i64::MIN <= n <= i64::MAX,
            Err(_) => r is None,
        },
{
    if s.len() > 1 && s[0] == '-' {
        match digits_from(s, 1, 0x8000_0000_0000_0000) {
            Ok(n) => if n == 0x8000_0000_0000_0000 {
                Some(i64::MIN)
            } else {
                Some(-(n as i64))
            },
            Err(_) => None,
        }
    } else {
        match parse_unsigned(s, i64::MAX as u64) {
            Ok(n) => Some(n as i64),
            Err(_) => None,
        }
    }
}

/// Reads an `i32`, if the text is one.
pub fn parse_i32(s: &[char]) -> (r: Option<i32>)
    ensures
        match read_signed(s@, i32::MAX as nat) {
            Ok(n) => r == Some(n as i32) && i32::MIN <= n <= i32::MAX,
            Err(_) => r is None,
        },
{
    if s.len() > 1 && s[0] == '-' {
        match digits_from(s, 1, 0x8000_0000) {
            Ok(n) => Some((-(n as i64)) as i32),
            Err(_) => None,
        }
    } else {
        match parse_unsigned(s, i32::MAX as u64) {
            Ok(n) => Some(n as i32),
            Err(_) => None,
        }
    }
}

// ---------------------------------------------------------------------------
// Cutting
// ---------------------------------------------------------------------------

/// The number that the low 64 bits of `n` stand for in two's complement.
pub open spec fn low_i64(n: nat) -> int {
    let low = n as int % 0x1_0000_0000_0000_0000;
    if low < 0x8000_0000_0000_0000 {
        low
    } else {
        low - 0x1_0000_0000_0000_0000
    }
}

/// A number cut to its low 64 bits.
pub fn cut_i64(n: u128) -> (r: i64)
    ensures
        r == low_i64(n as nat),
{
    let low: u64 = (n % 0x1_0000_0000_0000_0000) as u64;
    if low < 0x8000_0000_0000_0000 {
        low as i64
    } else {
        let above: i64 = (low - 0x8000_0000_0000_0000) as i64;
        i64::MIN + above
    }
}

// ---------------------------------------------------------------------------
// Writing
// ---------------------------------------------------------------------------

/// The digit that stands for `n`, which is below ten.
pub open spec fn digit(n: nat) -> char {
    ('0' as u32 + n) as char
}

/// The shortest decimal text of `n`.
pub open spec fn decimal(n: nat) -> Seq<char>
    decreases n,
{
    if n < 10 {
        seq![digit(n)]
    } else {
        decimal(n / 10).push(digit(n % 10))
    }
}

/// The last `width` decimal digits of `n`, with leading zeros.
pub open spec fn padded(n: nat, width: nat) -> Seq<char>
    decreases width,
{
    if width == 0 {
        seq![]
    } else {
        padded(n / 10, (width - 1) as nat).push(digit(n % 10))
    }
}

/// The shortest decimal text of `n`, with a minus sign before it where `n` is
/// below zero.
pub open spec fn signed_decimal(n: int) -> Seq<char> {
    if n < 0 {
        seq!['-'] + decimal((-n) as nat)
    } else {
        decimal(n as nat)
    }
}

fn digit_char(n: u64) -> (c: char)
    requires
        n < 10,
    ensures
        c == digit(n as nat),
{
    let code: u8 = 48 + n as u8;
    code as char
}

/// The decimal text of `n`.
pub fn decimal_text(n: u64) -> (s: String)
    ensures
        s@ == decimal(n as nat),
    decreases n,
{
    if n < 10 {
        let mut s: String = String::new();
        s.push(digit_char(n));
        assert(s@ =~= seq![digit(n as nat)]);
        s
    } else {
        let mut s: String = decimal_text(n / 10);
        s.push(digit_char(n % 10));
        s
    }
}

/// The last `width` decimal digits of `n`, with leading zeros.
pub fn padded_text(n: u64, width: usize) -> (s: String)
    ensures
        s@ == padded(n as nat, width as nat),
    decreases width,
{
    if width == 0 {
        let s: String = String::new();
        assert(s@ =~= seq![]);
        s
    } else {
        let mut s: String = padded_text(n / 10, width - 1);
        s.push(digit_char(n % 10));
        s
    }
}

// ---------------------------------------------------------------------------
// Reading back what was written
// ---------------------------------------------------------------------------

pub proof fn lemma_decimal_digits(n: nat)
    ensures
        decimal(n).len() > 0,
        forall|k: int| 0 <= k < decimal(n).len() ==> is_digit(decimal(n)[k]),
        value_of(decimal(n)) == n,
    decreases n,
{
    reveal_with_fuel(value_of, 2);
    if n < 10 {
        assert(seq![digit(n)].drop_last() =~= seq![]);
    } else {
        lemma_decimal_digits(n / 10);
        assert(decimal(n).drop_last() =~= decimal(n / 10));
    }
}

/// Ten to the power of `width`.
pub open spec fn power_of_ten(width: nat) -> nat
    decreases width,
{
    if width == 0 {
        1
    } else {
        10 * power_of_ten((width - 1) as nat)
    }
}

/// The digits of a number with leading zeros stand for the number, if there are
/// enough of them.
pub proof fn lemma_padded_value(n: nat, width: nat)
    requires
        n < power_of_ten(width),
    ensures
        padded(n, width).len() == width,
        value_of(padded(n, width)) == n,
    decreases width,
{
    if width > 0 {
        lemma_padded_value(n / 10, (width - 1) as nat);
        assert(padded(n, width).drop_last() =~= padded(n / 10, (width - 1) as nat));
    }
}

/// Of two numbers with leading zeros the smaller one has the smaller digit where
/// they first differ.
pub proof fn lemma_padded_order(n: nat, m: nat, width: nat) -> (i: int)
    requires
        n < m < power_of_ten(width),
    ensures
        0 <= i < width,
        padded(n, width).len() == width,
        padded(m, width).len() == width,
        padded(n, width).take(i) == padded(m, width).take(i),
        padded(n, width)[i] < padded(m, width)[i],
    decreases width,
{
    lemma_padded_value(n, width);
    lemma_padded_value(m, width);
    let w = (width - 1) as nat;
    let a = padded(n, width);
    let b = padded(m, width);
    assert(a.drop_last() =~= padded(n / 10, w));
    assert(b.drop_last() =~= padded(m / 10, w));
    if n / 10 < m / 10 {
        let i = lemma_padded_order(n / 10, m / 10, w);
        assert(a.take(i) =~= a.drop_last().take(i));
        assert(b.take(i) =~= b.drop_last().take(i));
        i
    } else {
        assert(n / 10 == m / 10);
        assert(a.take(w as int) =~= a.drop_last());
        assert(b.take(w as int) =~= b.drop_last());
        w as int
    }
}

/// Every character of a number with leading zeros is a digit.
pub proof fn lemma_padded_digits(n: nat, width: nat)
    ensures
        padded(n, width).len() == width,
        forall|i: int| 0 <= i < width ==> is_digit(#[trigger] padded(n, width)[i]),
    decreases width,
{
    if width > 0 {
        lemma_padded_digits(n / 10, (width - 1) as nat);
    }
}

/// Reading the decimal text of a number gives the number back.
pub proof fn law_decimal_reads_back(n: nat, max: nat)
    requires
        n <= max,
    ensures
        read_unsigned(decimal(n), max) == Ok::<nat, IntFault>(n),
        read_signed(decimal(n), max) == Ok::<int, IntFault>(n as int),
{
    lemma_decimal_digits(n);
    let s = decimal(n);
    assert(is_digit(s[0]));
    lemma_digit_run(s, s.len());
    assert(s.take(s.len() as int) =~= s);
}

/// Reading the text of an integer, which may be below zero, gives it back.
pub proof fn law_signed_decimal_reads_back(n: int, max: nat)
    requires
        -(max + 1) <= n <= max,
    ensures
        read_signed(signed_decimal(n), max) == Ok::<int, IntFault>(n),
{
    if n < 0 {
        let m = (-n) as nat;
        lemma_decimal_digits(m);
        let s = decimal(m);
        assert(signed_decimal(n).skip(1) =~= s);
        assert(is_digit(s[0]));
        lemma_digit_run(s, s.len());
        assert(s.take(s.len() as int) =~= s);
    } else {
        law_decimal_reads_back(n as nat, max);
    }
}

} // verus!
