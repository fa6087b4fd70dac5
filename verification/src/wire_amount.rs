//! Amounts on the wire: 16-byte big-endian `u128`, base units `u64`.

use vstd::prelude::*;
use vstd::bytes::{spec_u128_to_le_bytes, spec_u128_from_le_bytes, u128_to_le_bytes, u128_from_le_bytes, lemma_auto_spec_u128_to_from_le_bytes};

verus! {

/// The 16 big-endian bytes of `x`.
pub open spec fn spec_u128_be(x: u128) -> Seq<u8> {
    Seq::new(16, |i: int| spec_u128_to_le_bytes(x)[15 - i])
}

/// The value of 16 big-endian bytes.
pub open spec fn spec_u128_from_be(s: Seq<u8>) -> u128 {
    spec_u128_from_le_bytes(Seq::new(16, |i: int| s[15 - i]))
}

/// Big-endian encoding round-trips.
pub proof fn lemma_u128_be_round_trip(x: u128)
    ensures
        spec_u128_be(x).len() == 16,
        spec_u128_from_be(spec_u128_be(x)) == x,
{
    lemma_auto_spec_u128_to_from_le_bytes();
    assert(Seq::new(16, |i: int| spec_u128_be(x)[15 - i]) =~= spec_u128_to_le_bytes(x));
}

/// The 16 big-endian bytes of `n`.
pub fn u128_to_be_bytes(n: u128) -> (r: Vec<u8>)
    ensures
        r@ == spec_u128_be(n),
{
    let le = u128_to_le_bytes(n);
    let mut out: Vec<u8> = Vec::new();
    let mut i: usize = 0;
    while i < 16
        invariant
            le@ == spec_u128_to_le_bytes(n),
            le@.len() == 16,
            i <= 16,
            out@ == spec_u128_be(n).subrange(0, i as int),
        decreases 16 - i,
    {
        out.push(le[15 - i]);
        assert(spec_u128_be(n).subrange(0, i + 1) =~= spec_u128_be(n).subrange(0, i as int).push(le@[15 - i]));
        i = i + 1;
    }
    assert(spec_u128_be(n).subrange(0, 16) =~= spec_u128_be(n));
    out
}

/// The value of 16 big-endian bytes.
pub fn u128_from_be_bytes(s: &[u8]) -> (r: u128)
    requires
        s@.len() == 16,
    ensures
        r == spec_u128_from_be(s@),
{
    let mut le: Vec<u8> = Vec::new();
    let mut i: usize = 0;
    while i < 16
        invariant
            s@.len() == 16,
            i <= 16,
            le@ == Seq::new(16, |k: int| s@[15 - k]).subrange(0, i as int),
        decreases 16 - i,
    {
        le.push(s[15 - i]);
        assert(Seq::new(16, |k: int| s@[15 - k]).subrange(0, i + 1) =~= Seq::new(16, |k: int| s@[15 - k]).subrange(0, i as int).push(s@[15 - i]));
        i = i + 1;
    }
    assert(Seq::new(16, |k: int| s@[15 - k]).subrange(0, 16) =~= Seq::new(16, |k: int| s@[15 - k]));
    u128_from_le_bytes(le.as_slice())
}

/// Why a wire amount is not a base-unit amount.
#[derive(Debug, Clone, Copy, PartialEq, Eq, Structural)]
pub enum WireAmountError {
    /// The field is not 16 bytes long.
    NotSixteenBytes,
    /// The value does not fit a `u64` base-unit balance.
    ExceedsU64,
}

/// The base-unit amount a 16-byte big-endian field holds. Narrowed once,
/// checked: an amount that does not fit is refused, never truncated.
pub open spec fn spec_wire_amount(s: Seq<u8>) -> Result<u64, WireAmountError> {
    if s.len() != 16 {
        Err(WireAmountError::NotSixteenBytes)
    } else if spec_u128_from_be(s) > u64::MAX as u128 {
        Err(WireAmountError::ExceedsU64)
    } else {
        Ok(spec_u128_from_be(s) as u64)
    }
}

pub fn wire_amount_to_u64(s: &[u8]) -> (r: Result<u64, WireAmountError>)
    ensures
        r == spec_wire_amount(s@),
{
    if s.len() != 16 {
        return Err(WireAmountError::NotSixteenBytes);
    }
    let v = u128_from_be_bytes(s);
    if v > u64::MAX as u128 {
        return Err(WireAmountError::ExceedsU64);
    }
    Ok(v as u64)
}

/// A base-unit amount written on the wire reads back as itself.
pub proof fn lemma_wire_amount_round_trip(x: u64)
    ensures
        spec_wire_amount(spec_u128_be(x as u128)) == Ok::<u64, WireAmountError>(x),
{
    lemma_u128_be_round_trip(x as u128);
}

} // verus!
