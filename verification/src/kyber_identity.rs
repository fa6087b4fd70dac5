//! The Kyber identity binding's inputs: the device id and genesis it binds
//! the key to, and the length an ML-KEM-768 public key must have.

use vstd::prelude::*;
use crate::bytes::fixed32;
use crate::error::{SdkError, text};
use crate::text_id::{push_padded_decimal, spec_padded_decimal};

verus! {

/// Bytes of an ML-KEM-768 public key.
pub const KYBER_PUBLIC_KEY_BYTES: usize = 1184;

/// The refusal of a field `what` that is not 32 bytes long but `len`.
pub open spec fn spec_length_refusal(what: Seq<char>, len: nat) -> Seq<char> {
    what + " must be 32 bytes, got "@ + spec_padded_decimal(len, 1)
}

/// `bytes` as a 32-byte array, or a parameter error naming `what` and the
/// length it has.
pub fn as_array_32(bytes: &[u8], what: &str) -> (r: Result<[u8; 32], SdkError>)
    ensures
        r is Ok <==> bytes@.len() == 32,
        r matches Ok(a) ==> a@ == bytes@,
        r matches Err(e) ==> e is InvalidParameter && e.spec_detail() == spec_length_refusal(what@, bytes@.len()),
{
    match fixed32(bytes) {
        Some(a) => Ok(a),
        None => {
            let mut m = text(what);
            m.append(" must be 32 bytes, got ");
            push_padded_decimal(&mut m, bytes.len() as u64, 1);
            Err(SdkError::InvalidParameter(m))
        },
    }
}

/// The cached Kyber public key, when the cache holds one; an empty cache
/// entry is no key.
pub fn cached_kyber_key(cache: Option<Vec<u8>>) -> (r: Option<Vec<u8>>)
    ensures
        r is Some <==> (cache matches Some(k) && k@.len() > 0),
        r matches Some(k) ==> (cache matches Some(c) && k@ == c@),
{
    match cache {
        Some(k) => if k.len() > 0 { Some(k) } else { None },
        None => None,
    }
}

/// A Kyber public key must be an ML-KEM-768 key.
pub fn check_kyber_public_key(pk: &[u8]) -> (r: Result<(), SdkError>)
    ensures
        r is Ok <==> pk@.len() == KYBER_PUBLIC_KEY_BYTES,
        r matches Err(e) ==> e is InvalidParameter && e.spec_detail()
            == "local Kyber public key must be 1184 bytes (ML-KEM-768), got "@ + spec_padded_decimal(pk@.len(), 1),
{
    if pk.len() != KYBER_PUBLIC_KEY_BYTES {
        let mut m = text("local Kyber public key must be 1184 bytes (ML-KEM-768), got ");
        push_padded_decimal(&mut m, pk.len() as u64, 1);
        return Err(SdkError::InvalidParameter(m));
    }
    Ok(())
}

/// The device id and genesis a binding binds the Kyber key to: each must be
/// initialised and 32 bytes long.
pub fn binding_identity(device_id: Option<Vec<u8>>, genesis_hash: Option<Vec<u8>>) -> (r: Result<([u8; 32], [u8; 32]), SdkError>)
    ensures
        r is Ok <==> ((device_id matches Some(d) && d@.len() == 32) && (genesis_hash matches Some(g) && g@.len() == 32)),
        r matches Ok((d, g)) ==> d@ == device_id->0@ && g@ == genesis_hash->0@,
        r matches Err(e) ==> match device_id {
            None => e is InvalidState && e.spec_detail() == "device_id not initialised"@,
            Some(d) => if d@.len() != 32 {
                e is InvalidParameter && e.spec_detail() == spec_length_refusal("device_id"@, d@.len())
            } else {
                match genesis_hash {
                    None => e is InvalidState && e.spec_detail() == "genesis_hash not initialised"@,
                    Some(g) => e is InvalidParameter && e.spec_detail() == spec_length_refusal("genesis_hash"@, g@.len()),
                }
            },
        },
{
    let d = match device_id {
        Some(d) => d,
        None => return Err(SdkError::InvalidState(text("device_id not initialised"))),
    };
    let d32 = as_array_32(d.as_slice(), "device_id")?;
    let g = match genesis_hash {
        Some(g) => g,
        None => return Err(SdkError::InvalidState(text("genesis_hash not initialised"))),
    };
    let g32 = as_array_32(g.as_slice(), "genesis_hash")?;
    Ok((d32, g32))
}

} // verus!
