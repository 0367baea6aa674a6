//! Base64 with padding, in the standard alphabet.

use vstd::prelude::*;

verus! {

/// The character for a number below 64.
pub open spec fn letter(n: int) -> char {
    if n < 26 {
        ('A' as u32 + n) as char
    } else if n < 52 {
        ('a' as u32 + (n - 26)) as char
    } else if n < 62 {
        ('0' as u32 + (n - 52)) as char
    } else if n == 62 {
        '+'
    } else {
        '/'
    }
}

/// The four characters for up to three bytes; `=` stands for a missing byte.
pub open spec fn group(b: Seq<u8>) -> Seq<char> {
    let b0 = b[0] as int;
    let b1 = if b.len() > 1 {
        b[1] as int
    } else {
        0
    };
    let b2 = if b.len() > 2 {
        b[2] as int
    } else {
        0
    };
    seq![
        letter(b0 / 4),
        letter(b0 % 4 * 16 + b1 / 16),
        if b.len() > 1 {
            letter(b1 % 16 * 4 + b2 / 64)
        } else {
            '='
        },
        if b.len() > 2 {
            letter(b2 % 64)
        } else {
            '='
        },
    ]
}

/// The Base64 text of a row of bytes.
pub open spec fn base64(b: Seq<u8>) -> Seq<char>
    decreases b.len(),
{
    if b.len() == 0 {
        seq![]
    } else if b.len() <= 3 {
        group(b)
    } else {
        group(b.take(3)) + base64(b.skip(3))
    }
}

/// What a character stands for.
pub open spec fn letter_value(c: char) -> int {
    if 'A' <= c <= 'Z' {
        c as u32 - 'A' as u32
    } else if 'a' <= c <= 'z' {
        c as u32 - 'a' as u32 + 26
    } else if '0' <= c <= '9' {
        c as u32 - '0' as u32 + 52
    } else if c == '+' {
        62
    } else {
        63
    }
}

/// The bytes of a group of four characters.
pub open spec fn group_bytes(s: Seq<char>) -> Seq<u8> {
    let v0 = letter_value(s[0]);
    let v1 = letter_value(s[1]);
    let v2 = letter_value(s[2]);
    let v3 = letter_value(s[3]);
    let first = (v0 * 4 + v1 / 16) as u8;
    let second = (v1 % 16 * 16 + v2 / 4) as u8;
    let third = (v2 % 4 * 64 + v3) as u8;
    if s[2] == '=' {
        seq![first]
    } else if s[3] == '=' {
        seq![first, second]
    } else {
        seq![first, second, third]
    }
}

/// The bytes that a Base64 text stands for.
pub open spec fn decoded(s: Seq<char>) -> Seq<u8>
    decreases s.len(),
{
    if s.len() < 4 {
        seq![]
    } else {
        group_bytes(s.take(4)) + decoded(s.skip(4))
    }
}

proof fn lemma_letter(n: int)
    requires
        0 <= n < 64,
    ensures
        letter_value(letter(n)) == n,
        letter(n) != '=',
{
}

proof fn lemma_group(b: Seq<u8>)
    requires
        1 <= b.len() <= 3,
    ensures
        group_bytes(group(b)) == b,
{
    let b0 = b[0] as int;
    let b1 = if b.len() > 1 {
        b[1] as int
    } else {
        0
    };
    let b2 = if b.len() > 2 {
        b[2] as int
    } else {
        0
    };
    lemma_letter(b0 / 4);
    lemma_letter(b0 % 4 * 16 + b1 / 16);
    lemma_letter(b1 % 16 * 4 + b2 / 64);
    lemma_letter(b2 % 64);
    assert(group_bytes(group(b)) =~= b);
}

/// Decoding a Base64 text gives back the bytes that it was made from.
pub proof fn law_base64_decodes_back(b: Seq<u8>)
    ensures
        decoded(base64(b)) == b,
    decreases b.len(),
{
    if b.len() == 0 {
        assert(decoded(base64(b)) =~= b);
    } else if b.len() <= 3 {
        lemma_group(b);
        let s = base64(b);
        assert(s.take(4) =~= s);
        assert(decoded(s.skip(4)) =~= seq![]);
        assert(b + seq![] =~= b);
    } else {
        lemma_group(b.take(3));
        law_base64_decodes_back(b.skip(3));
        let s = base64(b);
        assert(s.take(4) =~= group(b.take(3)));
        assert(s.skip(4) =~= base64(b.skip(3)));
        assert(b.take(3) + b.skip(3) =~= b);
    }
}

} // verus!
