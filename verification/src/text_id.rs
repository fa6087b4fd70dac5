//! Printable forms of values: Crockford base32 text ids (the form of 32-byte
//! identifiers in storage keys), decimal numbers, and quoted text as
//! diagnostics show it.

use vstd::prelude::*;

verus! {

/// The Crockford base32 alphabet: digit `d` is written as `b32_char(d)`.
pub open spec fn b32_alphabet() -> Seq<char> {
    seq![
        '0', '1', '2', '3', '4', '5', '6', '7', '8', '9', 'A', 'B', 'C', 'D', 'E', 'F', 'G', 'H',
        'J', 'K', 'M', 'N', 'P', 'Q', 'R', 'S', 'T', 'V', 'W', 'X', 'Y', 'Z',
    ]
}

/// The byte at `k`, or zero past the end (the right padding of the last group).
pub open spec fn byte_or_zero(s: Seq<u8>, k: int) -> u8 {
    if 0 <= k < s.len() {
        s[k]
    } else {
        0u8
    }
}

/// The `i`-th five-bit group of `s`, most significant bit first: bits
/// `5i .. 5i + 5` of the big-endian bit string of `s`, zero past its end.
pub open spec fn b32_digit(s: Seq<u8>, i: int) -> u32 {
    let q = (5 * i) / 8;
    let r = (5 * i) % 8;
    let w: u32 = ((byte_or_zero(s, q) as u32) << 8u32) | (byte_or_zero(s, q + 1) as u32);
    (w >> ((11 - r) as u32)) & 31u32
}

/// Number of base32 digits for `n` bytes: `ceil(8n / 5)`.
pub open spec fn b32_len(n: nat) -> nat {
    ((8 * n + 4) / 5) as nat
}

/// The unpadded Crockford base32 text of `s`.
pub open spec fn spec_base32_crockford(s: Seq<u8>) -> Seq<char> {
    Seq::new(b32_len(s.len()), |i: int| b32_alphabet()[b32_digit(s, i) as int])
}

/// `s` with `c` appended (std `String::push`).
#[verifier::external_body]
fn push_char(s: &mut String, c: char)
    ensures
        final(s)@ == old(s)@.push(c),
{
    s.push(c);
}

fn b32_symbol(d: u32) -> (c: char)
    requires
        d < 32,
    ensures
        c == b32_alphabet()[d as int],
{
    match d {
        0 => '0',
        1 => '1',
        2 => '2',
        3 => '3',
        4 => '4',
        5 => '5',
        6 => '6',
        7 => '7',
        8 => '8',
        9 => '9',
        10 => 'A',
        11 => 'B',
        12 => 'C',
        13 => 'D',
        14 => 'E',
        15 => 'F',
        16 => 'G',
        17 => 'H',
        18 => 'J',
        19 => 'K',
        20 => 'M',
        21 => 'N',
        22 => 'P',
        23 => 'Q',
        24 => 'R',
        25 => 'S',
        26 => 'T',
        27 => 'V',
        28 => 'W',
        29 => 'X',
        30 => 'Y',
        _ => 'Z',
    }
}

/// Append the Crockford base32 text of `bytes` to `out`.
pub fn push_base32_crockford(out: &mut String, bytes: &[u8])
    requires
        bytes@.len() <= usize::MAX / 8,
    ensures
        final(out)@ == old(out)@ + spec_base32_crockford(bytes@),
{
    let n = bytes.len();
    let total = (8 * n + 4) / 5;
    let ghost start = out@;
    let mut i: usize = 0;
    while i < total
        invariant
            n == bytes@.len(),
            n <= usize::MAX / 8,
            total == b32_len(n as nat),
            i <= total,
            out@ == start + spec_base32_crockford(bytes@).subrange(0, i as int),
        decreases total - i,
    {
        let q = (5 * i) / 8;
        let r = (5 * i) % 8;
        let b0: u8 = if q < n { bytes[q] } else { 0 };
        let b1: u8 = if q + 1 < n { bytes[q + 1] } else { 0 };
        let w: u32 = ((b0 as u32) << 8u32) | (b1 as u32);
        let shift: u32 = (11 - r) as u32;
        let d: u32 = (w >> shift) & 31u32;
        assert(((w >> shift) & 31u32) < 32) by (bit_vector);
        assert(d == b32_digit(bytes@, i as int));
        push_char(out, b32_symbol(d));
        assert(spec_base32_crockford(bytes@).subrange(0, i + 1) =~= spec_base32_crockford(
            bytes@,
        ).subrange(0, i as int).push(b32_alphabet()[d as int]));
        i = i + 1;
    }
    assert(spec_base32_crockford(bytes@).subrange(0, total as int) =~= spec_base32_crockford(
        bytes@,
    ));
}

/// The decimal digits.
pub open spec fn dec_alphabet() -> Seq<char> {
    seq!['0', '1', '2', '3', '4', '5', '6', '7', '8', '9']
}

/// The decimal text of `n`, left-padded with zeros to at least `width`
/// digits (`format!("{:0width$}", n)`); with `width` 1 it is the plain
/// decimal text, `"0"` for zero.
pub open spec fn spec_padded_decimal(n: nat, width: nat) -> Seq<char>
    decreases n, width,
{
    if n == 0 && width == 0 {
        Seq::empty()
    } else {
        spec_padded_decimal(n / 10, if width > 0 { (width - 1) as nat } else { 0 }).push(
            dec_alphabet()[(n % 10) as int],
        )
    }
}

fn dec_symbol(d: u64) -> (c: char)
    requires
        d < 10,
    ensures
        c == dec_alphabet()[d as int],
{
    match d {
        0 => '0',
        1 => '1',
        2 => '2',
        3 => '3',
        4 => '4',
        5 => '5',
        6 => '6',
        7 => '7',
        8 => '8',
        _ => '9',
    }
}

/// Append the decimal text of `n`, zero-padded to at least `width` digits.
pub fn push_padded_decimal(out: &mut String, n: u64, width: u64)
    ensures
        final(out)@ == old(out)@ + spec_padded_decimal(n as nat, width as nat),
    decreases n, width,
{
    if n == 0 && width == 0 {
        assert(old(out)@ + Seq::<char>::empty() =~= old(out)@);
        return;
    }
    let w2: u64 = if width > 0 { width - 1 } else { 0 };
    let ghost before = out@;
    push_padded_decimal(out, n / 10, w2);
    push_char(out, dec_symbol(n % 10));
    assert(out@ =~= before + spec_padded_decimal(n as nat, width as nat));
}

/// The digit a base32 character stands for.
pub open spec fn b32_value(c: char) -> int {
    if c == '0' { 0 } else if c == '1' { 1 } else if c == '2' { 2 } else if c == '3' { 3 }
    else if c == '4' { 4 } else if c == '5' { 5 } else if c == '6' { 6 } else if c == '7' { 7 }
    else if c == '8' { 8 } else if c == '9' { 9 } else if c == 'A' { 10 } else if c == 'B' { 11 }
    else if c == 'C' { 12 } else if c == 'D' { 13 } else if c == 'E' { 14 } else if c == 'F' { 15 }
    else if c == 'G' { 16 } else if c == 'H' { 17 } else if c == 'J' { 18 } else if c == 'K' { 19 }
    else if c == 'M' { 20 } else if c == 'N' { 21 } else if c == 'P' { 22 } else if c == 'Q' { 23 }
    else if c == 'R' { 24 } else if c == 'S' { 25 } else if c == 'T' { 26 } else if c == 'V' { 27 }
    else if c == 'W' { 28 } else if c == 'X' { 29 } else if c == 'Y' { 30 } else if c == 'Z' { 31 }
    else { -1 }
}

proof fn lemma_b32_value_inverts(d: int)
    requires
        0 <= d < 32,
    ensures
        b32_value(b32_alphabet()[d]) == d,
{
    reveal_with_fuel(b32_value, 1);
}

proof fn lemma_digit_below_32(s: Seq<u8>, i: int)
    ensures
        b32_digit(s, i) < 32,
{
    let q = (5 * i) / 8;
    let r = (5 * i) % 8;
    let w: u32 = ((byte_or_zero(s, q) as u32) << 8u32) | (byte_or_zero(s, q + 1) as u32);
    let sh: u32 = (11 - r) as u32;
    assert((w >> sh) & 31u32 < 32) by (bit_vector);
}

/// Two texts that agree give the same digits where both are defined.
proof fn lemma_same_text_same_digit(a: Seq<u8>, b: Seq<u8>, i: int)
    requires
        a.len() == b.len(),
        spec_base32_crockford(a) == spec_base32_crockford(b),
        0 <= i < b32_len(a.len()),
    ensures
        b32_digit(a, i) == b32_digit(b, i),
{
    lemma_digit_below_32(a, i);
    lemma_digit_below_32(b, i);
    let da = b32_digit(a, i) as int;
    let db = b32_digit(b, i) as int;
    assert(spec_base32_crockford(a)[i] == b32_alphabet()[da]);
    assert(spec_base32_crockford(b)[i] == b32_alphabet()[db]);
    assert(spec_base32_crockford(a)[i] == spec_base32_crockford(b)[i]);
    lemma_b32_value_inverts(da);
    lemma_b32_value_inverts(db);
    assert(b32_alphabet()[da] == b32_alphabet()[db]);
}

/// The digit at `8m + t` of `s`, read from the five bytes of group `m`.
pub open spec fn group_digit(b0: u8, b1: u8, b2: u8, b3: u8, b4: u8, b5: u8, t: int) -> u32 {
    if t == 0 {
        ((((b0 as u32) << 8u32) | (b1 as u32)) >> 11u32) & 31u32
    } else if t == 1 {
        ((((b0 as u32) << 8u32) | (b1 as u32)) >> 6u32) & 31u32
    } else if t == 2 {
        ((((b1 as u32) << 8u32) | (b2 as u32)) >> 9u32) & 31u32
    } else if t == 3 {
        ((((b1 as u32) << 8u32) | (b2 as u32)) >> 4u32) & 31u32
    } else if t == 4 {
        ((((b2 as u32) << 8u32) | (b3 as u32)) >> 7u32) & 31u32
    } else if t == 5 {
        ((((b3 as u32) << 8u32) | (b4 as u32)) >> 10u32) & 31u32
    } else if t == 6 {
        ((((b3 as u32) << 8u32) | (b4 as u32)) >> 5u32) & 31u32
    } else {
        ((((b4 as u32) << 8u32) | (b5 as u32)) >> 8u32) & 31u32
    }
}

proof fn lemma_group_digit(s: Seq<u8>, m: int, t: int)
    requires
        m >= 0,
        0 <= t < 8,
    ensures
        b32_digit(s, 8 * m + t) == group_digit(
            byte_or_zero(s, 5 * m),
            byte_or_zero(s, 5 * m + 1),
            byte_or_zero(s, 5 * m + 2),
            byte_or_zero(s, 5 * m + 3),
            byte_or_zero(s, 5 * m + 4),
            byte_or_zero(s, 5 * m + 5),
            t,
        ),
{
    let i = 8 * m + t;
    assert(5 * i == 40 * m + 5 * t);
    if t == 0 {
        assert((5 * i) / 8 == 5 * m && (5 * i) % 8 == 0);
    } else if t == 1 {
        assert((5 * i) / 8 == 5 * m && (5 * i) % 8 == 5);
    } else if t == 2 {
        assert((5 * i) / 8 == 5 * m + 1 && (5 * i) % 8 == 2);
    } else if t == 3 {
        assert((5 * i) / 8 == 5 * m + 1 && (5 * i) % 8 == 7);
    } else if t == 4 {
        assert((5 * i) / 8 == 5 * m + 2 && (5 * i) % 8 == 4);
    } else if t == 5 {
        assert((5 * i) / 8 == 5 * m + 3 && (5 * i) % 8 == 1);
    } else if t == 6 {
        assert((5 * i) / 8 == 5 * m + 3 && (5 * i) % 8 == 6);
    } else {
        assert((5 * i) / 8 == 5 * m + 4 && (5 * i) % 8 == 3);
    }
}

proof fn lemma_full_group_determined(
    a0: u8, a1: u8, a2: u8, a3: u8, a4: u8, a5: u8,
    b0: u8, b1: u8, b2: u8, b3: u8, b4: u8, b5: u8,
)
    requires
        group_digit(a0, a1, a2, a3, a4, a5, 0) == group_digit(b0, b1, b2, b3, b4, b5, 0),
        group_digit(a0, a1, a2, a3, a4, a5, 1) == group_digit(b0, b1, b2, b3, b4, b5, 1),
        group_digit(a0, a1, a2, a3, a4, a5, 2) == group_digit(b0, b1, b2, b3, b4, b5, 2),
        group_digit(a0, a1, a2, a3, a4, a5, 3) == group_digit(b0, b1, b2, b3, b4, b5, 3),
        group_digit(a0, a1, a2, a3, a4, a5, 4) == group_digit(b0, b1, b2, b3, b4, b5, 4),
        group_digit(a0, a1, a2, a3, a4, a5, 5) == group_digit(b0, b1, b2, b3, b4, b5, 5),
        group_digit(a0, a1, a2, a3, a4, a5, 6) == group_digit(b0, b1, b2, b3, b4, b5, 6),
        group_digit(a0, a1, a2, a3, a4, a5, 7) == group_digit(b0, b1, b2, b3, b4, b5, 7),
    ensures
        a0 == b0 && a1 == b1 && a2 == b2 && a3 == b3 && a4 == b4,
{
    assert(a0 == b0 && a1 == b1 && a2 == b2 && a3 == b3 && a4 == b4) by (bit_vector)
        requires
            ((((a0 as u32) << 8u32) | (a1 as u32)) >> 11u32) & 31u32 == ((((b0 as u32) << 8u32) | (b1 as u32)) >> 11u32) & 31u32,
            ((((a0 as u32) << 8u32) | (a1 as u32)) >> 6u32) & 31u32 == ((((b0 as u32) << 8u32) | (b1 as u32)) >> 6u32) & 31u32,
            ((((a1 as u32) << 8u32) | (a2 as u32)) >> 9u32) & 31u32 == ((((b1 as u32) << 8u32) | (b2 as u32)) >> 9u32) & 31u32,
            ((((a1 as u32) << 8u32) | (a2 as u32)) >> 4u32) & 31u32 == ((((b1 as u32) << 8u32) | (b2 as u32)) >> 4u32) & 31u32,
            ((((a2 as u32) << 8u32) | (a3 as u32)) >> 7u32) & 31u32 == ((((b2 as u32) << 8u32) | (b3 as u32)) >> 7u32) & 31u32,
            ((((a3 as u32) << 8u32) | (a4 as u32)) >> 10u32) & 31u32 == ((((b3 as u32) << 8u32) | (b4 as u32)) >> 10u32) & 31u32,
            ((((a3 as u32) << 8u32) | (a4 as u32)) >> 5u32) & 31u32 == ((((b3 as u32) << 8u32) | (b4 as u32)) >> 5u32) & 31u32,
            ((((a4 as u32) << 8u32) | (a5 as u32)) >> 8u32) & 31u32 == ((((b4 as u32) << 8u32) | (b5 as u32)) >> 8u32) & 31u32,
    ;
}

proof fn lemma_head_group_determined(a0: u8, a1: u8, a2: u8, b0: u8, b1: u8, b2: u8)
    requires
        group_digit(a0, a1, a2, 0, 0, 0, 0) == group_digit(b0, b1, b2, 0, 0, 0, 0),
        group_digit(a0, a1, a2, 0, 0, 0, 1) == group_digit(b0, b1, b2, 0, 0, 0, 1),
        group_digit(a0, a1, a2, 0, 0, 0, 2) == group_digit(b0, b1, b2, 0, 0, 0, 2),
        group_digit(a0, a1, a2, 0, 0, 0, 3) == group_digit(b0, b1, b2, 0, 0, 0, 3),
    ensures
        a0 == b0 && a1 == b1,
{
    assert(a0 == b0 && a1 == b1) by (bit_vector)
        requires
            ((((a0 as u32) << 8u32) | (a1 as u32)) >> 11u32) & 31u32 == ((((b0 as u32) << 8u32) | (b1 as u32)) >> 11u32) & 31u32,
            ((((a0 as u32) << 8u32) | (a1 as u32)) >> 6u32) & 31u32 == ((((b0 as u32) << 8u32) | (b1 as u32)) >> 6u32) & 31u32,
            ((((a1 as u32) << 8u32) | (a2 as u32)) >> 9u32) & 31u32 == ((((b1 as u32) << 8u32) | (b2 as u32)) >> 9u32) & 31u32,
            ((((a1 as u32) << 8u32) | (a2 as u32)) >> 4u32) & 31u32 == ((((b1 as u32) << 8u32) | (b2 as u32)) >> 4u32) & 31u32,
    ;
}

/// The text of a 32-byte id names it: two ids with one base32 text are the
/// same id. Storage keys built from ids are therefore scoped to the ids.
pub proof fn lemma_base32_names_32_byte_ids(a: Seq<u8>, b: Seq<u8>)
    requires
        a.len() == 32,
        b.len() == 32,
        spec_base32_crockford(a) == spec_base32_crockford(b),
    ensures
        a == b,
{
    assert(b32_len(32) == 52);
    assert forall|k: int| 0 <= k < 32 implies a[k] == b[k] by {
        let m = k / 5;
        if m < 6 {
            lemma_same_text_same_digit(a, b, 8 * m);
            lemma_same_text_same_digit(a, b, 8 * m + 1);
            lemma_same_text_same_digit(a, b, 8 * m + 2);
            lemma_same_text_same_digit(a, b, 8 * m + 3);
            lemma_same_text_same_digit(a, b, 8 * m + 4);
            lemma_same_text_same_digit(a, b, 8 * m + 5);
            lemma_same_text_same_digit(a, b, 8 * m + 6);
            lemma_same_text_same_digit(a, b, 8 * m + 7);
            lemma_group_digit(a, m, 0);
            lemma_group_digit(a, m, 1);
            lemma_group_digit(a, m, 2);
            lemma_group_digit(a, m, 3);
            lemma_group_digit(a, m, 4);
            lemma_group_digit(a, m, 5);
            lemma_group_digit(a, m, 6);
            lemma_group_digit(a, m, 7);
            lemma_group_digit(b, m, 0);
            lemma_group_digit(b, m, 1);
            lemma_group_digit(b, m, 2);
            lemma_group_digit(b, m, 3);
            lemma_group_digit(b, m, 4);
            lemma_group_digit(b, m, 5);
            lemma_group_digit(b, m, 6);
            lemma_group_digit(b, m, 7);
            lemma_full_group_determined(
                byte_or_zero(a, 5 * m), byte_or_zero(a, 5 * m + 1), byte_or_zero(a, 5 * m + 2),
                byte_or_zero(a, 5 * m + 3), byte_or_zero(a, 5 * m + 4), byte_or_zero(a, 5 * m + 5),
                byte_or_zero(b, 5 * m), byte_or_zero(b, 5 * m + 1), byte_or_zero(b, 5 * m + 2),
                byte_or_zero(b, 5 * m + 3), byte_or_zero(b, 5 * m + 4), byte_or_zero(b, 5 * m + 5),
            );
        } else {
            assert(m == 6);
            lemma_same_text_same_digit(a, b, 48);
            lemma_same_text_same_digit(a, b, 49);
            lemma_same_text_same_digit(a, b, 50);
            lemma_same_text_same_digit(a, b, 51);
            lemma_group_digit(a, 6, 0);
            lemma_group_digit(a, 6, 1);
            lemma_group_digit(a, 6, 2);
            lemma_group_digit(a, 6, 3);
            lemma_group_digit(b, 6, 0);
            lemma_group_digit(b, 6, 1);
            lemma_group_digit(b, 6, 2);
            lemma_group_digit(b, 6, 3);
            assert(byte_or_zero(a, 32) == 0 && byte_or_zero(b, 32) == 0);
            assert(byte_or_zero(a, 33) == 0 && byte_or_zero(b, 33) == 0);
            assert(byte_or_zero(a, 34) == 0 && byte_or_zero(b, 34) == 0);
            assert(byte_or_zero(a, 35) == 0 && byte_or_zero(b, 35) == 0);
            lemma_head_group_determined(
                byte_or_zero(a, 30), byte_or_zero(a, 31), byte_or_zero(a, 32),
                byte_or_zero(b, 30), byte_or_zero(b, 31), byte_or_zero(b, 32),
            );
        }
    }
    assert(a =~= b);
}

/// The Crockford base32 text of `bytes` (unpadded, most significant bit first).
pub fn encode_base32_crockford(bytes: &[u8]) -> (r: String)
    requires
        bytes@.len() <= usize::MAX / 8,
    ensures
        r@ == spec_base32_crockford(bytes@),
{
    let mut out = String::new();
    push_base32_crockford(&mut out, bytes);
    assert(out@ =~= spec_base32_crockford(bytes@));
    out
}

/// The characters of `s`, in order.
pub fn chars_of(s: &str) -> (r: Vec<char>)
    ensures
        r@ == s@,
{
    broadcast use vstd::string::group_string_axioms;
    let mut out: Vec<char> = Vec::new();
    for c in it: s.chars()
        invariant
            out@ == it.seq().subrange(0, it.index() as int),
    {
        out.push(c);
    }
    assert(out@ =~= s@);
    out
}

/// The lowercase hexadecimal digits.
pub open spec fn hex_alphabet() -> Seq<char> {
    seq!['0', '1', '2', '3', '4', '5', '6', '7', '8', '9', 'a', 'b', 'c', 'd', 'e', 'f']
}

/// The lowercase hexadecimal text of `v`, without leading zeros, for `v`
/// below 256.
pub open spec fn small_hex(v: int) -> Seq<char> {
    if v < 16 {
        seq![hex_alphabet()[v]]
    } else {
        seq![hex_alphabet()[v / 16], hex_alphabet()[v % 16]]
    }
}

/// How a character of a string is shown quoted: the quote and the backslash
/// escaped, the named control characters by their escapes, the other ASCII
/// control characters as `\u{..}`, and every other character as it is.
pub open spec fn escape_char(c: char) -> Seq<char> {
    if c == '"' {
        seq!['\\', '"']
    } else if c == '\\' {
        seq!['\\', '\\']
    } else if c == '\n' {
        seq!['\\', 'n']
    } else if c == '\r' {
        seq!['\\', 'r']
    } else if c == '\t' {
        seq!['\\', 't']
    } else if c == '\0' {
        seq!['\\', '0']
    } else if (c as u32) < 0x20 || (c as u32) == 0x7f {
        seq!['\\', 'u', '{'] + small_hex(c as u32 as int) + seq!['}']
    } else {
        seq![c]
    }
}

/// The characters of `s`, each shown as `escape_char` shows it.
pub open spec fn escaped(s: Seq<char>) -> Seq<char>
    decreases s.len(),
{
    if s.len() == 0 {
        Seq::empty()
    } else {
        escaped(s.drop_last()) + escape_char(s.last())
    }
}

/// `s` in double quotes, escaped: the form diagnostics show a text value in.
pub open spec fn quoted(s: Seq<char>) -> Seq<char> {
    seq!['"'] + escaped(s) + seq!['"']
}

fn hex_symbol(d: u32) -> (c: char)
    requires
        d < 16,
    ensures
        c == hex_alphabet()[d as int],
{
    match d {
        0 => '0',
        1 => '1',
        2 => '2',
        3 => '3',
        4 => '4',
        5 => '5',
        6 => '6',
        7 => '7',
        8 => '8',
        9 => '9',
        10 => 'a',
        11 => 'b',
        12 => 'c',
        13 => 'd',
        14 => 'e',
        _ => 'f',
    }
}

fn push_escaped_char(out: &mut String, c: char)
    ensures
        final(out)@ == old(out)@ + escape_char(c),
{
    let ghost before = out@;
    if c == '"' {
        push_char(out, '\\');
        push_char(out, '"');
    } else if c == '\\' {
        push_char(out, '\\');
        push_char(out, '\\');
    } else if c == '\n' {
        push_char(out, '\\');
        push_char(out, 'n');
    } else if c == '\r' {
        push_char(out, '\\');
        push_char(out, 'r');
    } else if c == '\t' {
        push_char(out, '\\');
        push_char(out, 't');
    } else if c == '\0' {
        push_char(out, '\\');
        push_char(out, '0');
    } else {
        let v = c as u32;
        if v < 0x20 || v == 0x7f {
            push_char(out, '\\');
            push_char(out, 'u');
            push_char(out, '{');
            if v < 16 {
                push_char(out, hex_symbol(v));
            } else {
                push_char(out, hex_symbol(v / 16));
                push_char(out, hex_symbol(v % 16));
            }
            push_char(out, '}');
        } else {
            push_char(out, c);
        }
    }
    assert(out@ =~= before + escape_char(c));
}

/// Append `s` in double quotes, escaped as `quoted` says.
pub fn push_quoted(out: &mut String, s: &str)
    ensures
        final(out)@ == old(out)@ + quoted(s@),
{
    let cs = chars_of(s);
    let ghost before = out@;
    push_char(out, '"');
    let mut i: usize = 0;
    while i < cs.len()
        invariant
            i <= cs@.len(),
            out@ == before + seq!['"'] + escaped(cs@.subrange(0, i as int)),
        decreases cs@.len() - i,
    {
        proof {
            assert(cs@.subrange(0, i + 1).drop_last() =~= cs@.subrange(0, i as int));
        }
        push_escaped_char(out, cs[i]);
        i = i + 1;
    }
    push_char(out, '"');
    assert(cs@.subrange(0, cs@.len() as int) =~= cs@);
    assert(out@ =~= before + quoted(s@));
}

/// How an optional text value is shown: `None`, or `Some(..)` around it quoted.
pub open spec fn shown_option(o: Option<Seq<char>>) -> Seq<char> {
    match o {
        None => seq!['N', 'o', 'n', 'e'],
        Some(s) => seq!['S', 'o', 'm', 'e', '('] + quoted(s) + seq![')'],
    }
}

/// Append an optional text value as `shown_option` shows it.
pub fn push_shown_option(out: &mut String, o: &Option<String>)
    ensures
        final(out)@ == old(out)@ + shown_option(match o { Some(s) => Some(s@), None => None }),
{
    let ghost before = out@;
    match o {
        None => {
            push_char(out, 'N');
            push_char(out, 'o');
            push_char(out, 'n');
            push_char(out, 'e');
        },
        Some(s) => {
            push_char(out, 'S');
            push_char(out, 'o');
            push_char(out, 'm');
            push_char(out, 'e');
            push_char(out, '(');
            push_quoted(out, s.as_str());
            push_char(out, ')');
        },
    }
    assert(out@ =~= before + shown_option(match o { Some(s) => Some(s@), None => None }));
}

/// Ten to the power `w`.
pub open spec fn pow10(w: nat) -> nat
    decreases w,
{
    if w == 0 {
        1
    } else {
        10 * pow10((w - 1) as nat)
    }
}

/// Whether `a` and `b` first differ at `k`, where `a` has the smaller character.
pub open spec fn first_difference_below(a: Seq<char>, b: Seq<char>, k: int) -> bool {
    &&& 0 <= k < a.len()
    &&& k < b.len()
    &&& a.take(k) == b.take(k)
    &&& (a[k] as u32) < (b[k] as u32)
}

/// Whether `a` sorts strictly before `b` in lexical (code point) order.
pub open spec fn sorts_before(a: Seq<char>, b: Seq<char>) -> bool {
    ||| exists|k: int| first_difference_below(a, b, k)
    ||| (a.len() < b.len() && b.take(a.len() as int) == a)
}

proof fn lemma_digit_code(d: int)
    requires
        0 <= d < 10,
    ensures
        dec_alphabet()[d] as u32 == 48 + d,
{
    if d == 0 { assert(dec_alphabet()[0] == '0'); }
    else if d == 1 { assert(dec_alphabet()[1] == '1'); }
    else if d == 2 { assert(dec_alphabet()[2] == '2'); }
    else if d == 3 { assert(dec_alphabet()[3] == '3'); }
    else if d == 4 { assert(dec_alphabet()[4] == '4'); }
    else if d == 5 { assert(dec_alphabet()[5] == '5'); }
    else if d == 6 { assert(dec_alphabet()[6] == '6'); }
    else if d == 7 { assert(dec_alphabet()[7] == '7'); }
    else if d == 8 { assert(dec_alphabet()[8] == '8'); }
    else { assert(dec_alphabet()[9] == '9'); }
}

/// A number below `10^w` is written in exactly `w` digits when padded to `w`.
pub proof fn lemma_padded_length(n: nat, w: nat)
    requires
        n < pow10(w),
    ensures
        spec_padded_decimal(n, w).len() == w,
    decreases w,
{
    if w > 0 {
        let p = pow10((w - 1) as nat);
        assert(n / 10 < p) by (nonlinear_arith)
            requires
                n < 10 * p,
        ;
        lemma_padded_length(n / 10, (w - 1) as nat);
    }
}

/// Padded to the same width, a smaller number is written with a smaller
/// digit at the first place the two texts differ.
pub proof fn lemma_padded_order(n1: nat, n2: nat, w: nat)
    requires
        n1 < n2,
        n2 < pow10(w),
    ensures
        exists|k: int| k < w && first_difference_below(spec_padded_decimal(n1, w), spec_padded_decimal(n2, w), k),
    decreases w,
{
    let p = pow10((w - 1) as nat);
    if w == 0 {
        assert(false);
    }
    assert(n1 / 10 <= n2 / 10 && n2 / 10 < p && (n1 / 10 == n2 / 10 ==> n1 % 10 < n2 % 10)) by (nonlinear_arith)
        requires
            n1 < n2,
            n2 < 10 * p,
    ;
    let q1 = n1 / 10;
    let q2 = n2 / 10;
    let a0 = spec_padded_decimal(q1, (w - 1) as nat);
    let b0 = spec_padded_decimal(q2, (w - 1) as nat);
    lemma_padded_length(q1, (w - 1) as nat);
    lemma_padded_length(q2, (w - 1) as nat);
    let a = spec_padded_decimal(n1, w);
    let b = spec_padded_decimal(n2, w);
    assert(a == a0.push(dec_alphabet()[(n1 % 10) as int]));
    assert(b == b0.push(dec_alphabet()[(n2 % 10) as int]));
    if q1 == q2 {
        let k = (w - 1) as int;
        lemma_digit_code((n1 % 10) as int);
        lemma_digit_code((n2 % 10) as int);
        assert(a.take(k) =~= a0);
        assert(b.take(k) =~= b0);
        assert(first_difference_below(a, b, k));
    } else {
        lemma_padded_order(q1, q2, (w - 1) as nat);
        let k = choose|k: int| k < w - 1 && first_difference_below(a0, b0, k);
        assert(a.take(k) =~= a0.take(k));
        assert(b.take(k) =~= b0.take(k));
        assert(a[k] == a0[k]);
        assert(b[k] == b0[k]);
        assert(first_difference_below(a, b, k));
    }
}

/// A common prefix and any tails keep a first difference below the prefix's
/// length further on.
pub proof fn lemma_difference_in_context(p: Seq<char>, a: Seq<char>, b: Seq<char>, ta: Seq<char>, tb: Seq<char>, k: int)
    requires
        first_difference_below(a, b, k),
    ensures
        first_difference_below(p + a + ta, p + b + tb, p.len() + k),
{
    let x = p + a + ta;
    let y = p + b + tb;
    assert(x.take(p.len() + k) =~= p + a.take(k));
    assert(y.take(p.len() + k) =~= p + b.take(k));
    assert(x[p.len() + k] == a[k]);
    assert(y[p.len() + k] == b[k]);
}

} // verus!
