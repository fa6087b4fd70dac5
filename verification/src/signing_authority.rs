//! The device signing authority's inputs: the genesis hash and the wallet
//! seed it is derived from, each refused when absent or malformed. The key
//! itself is derived from them outside this layer.

use vstd::prelude::*;
use crate::bytes::fixed32;
use crate::error::{ErrorKind, SdkError, text};
use crate::text_id::{push_padded_decimal, spec_padded_decimal};

verus! {

/// The genesis hash the signing key is derived under: it must be recorded
/// and 32 bytes long.
pub fn genesis_from_app_state(genesis_hash: Option<Vec<u8>>) -> (r: Result<[u8; 32], SdkError>)
    ensures
        genesis_hash is None ==> (r matches Err(SdkError::InvalidState(m))
            && m@ == "genesis_hash not initialized for canonical signing authority"@),
        genesis_hash matches Some(g) ==> (g@.len() != 32 ==> (r matches Err(SdkError::InvalidParameter(m))
            && m@ == "genesis_hash must be 32 bytes, got "@ + spec_padded_decimal(g@.len(), 1))),
        genesis_hash matches Some(g) ==> (g@.len() == 32 ==> (r matches Ok(a) && a@ == g@)),
{
    let g = match genesis_hash {
        Some(g) => g,
        None => return Err(SdkError::InvalidState(text("genesis_hash not initialized for canonical signing authority"))),
    };
    match fixed32(g.as_slice()) {
        Some(a) => Ok(a),
        None => {
            let mut m = text("genesis_hash must be 32 bytes, got ");
            push_padded_decimal(&mut m, g.len() as u64, 1);
            Err(SdkError::InvalidParameter(m))
        },
    }
}

/// The inputs the current signing keypair is derived from: the genesis, then
/// the wallet seed, which is only cached while the wallet is unlocked. Every
/// consumer fails closed when the wallet is locked.
pub fn signing_inputs(genesis_hash: Option<Vec<u8>>, wallet_seed: Option<Vec<u8>>) -> (r: Result<([u8; 32], Vec<u8>), SdkError>)
    ensures
        genesis_hash is None ==> (r matches Err(SdkError::InvalidState(m))
            && m@ == "genesis_hash not initialized for canonical signing authority"@),
        genesis_hash matches Some(g) ==> (g@.len() != 32 ==> (r matches Err(SdkError::InvalidParameter(m))
            && m@ == "genesis_hash must be 32 bytes, got "@ + spec_padded_decimal(g@.len(), 1))),
        genesis_hash matches Some(g) ==> (g@.len() == 32 ==> match wallet_seed {
            None => (r matches Err(SdkError::InvalidState(m))
                && m@ == "wallet seed unavailable for canonical signing authority (wallet locked)"@),
            Some(s) => r matches Ok((a, s2)) && a@ == g@ && s2@ == s@,
        }),
{
    let genesis = genesis_from_app_state(genesis_hash)?;
    match wallet_seed {
        Some(s) => Ok((genesis, s)),
        None => Err(
            SdkError::InvalidState(text("wallet seed unavailable for canonical signing authority (wallet locked)")),
        ),
    }
}

/// Both halves of the device signing keypair, for callers that sign and embed
/// the public key in one object: the public half's failure first, then the
/// secret half's.
pub fn current_keypair(public_key: Result<Vec<u8>, SdkError>, secret_key: Result<Vec<u8>, SdkError>) -> (r: Result<
    (Vec<u8>, Vec<u8>),
    SdkError,
>)
    ensures
        public_key matches Err(e) ==> r == Err::<(Vec<u8>, Vec<u8>), SdkError>(e),
        public_key is Ok ==> (secret_key matches Err(e) ==> r == Err::<(Vec<u8>, Vec<u8>), SdkError>(e)),
        public_key matches Ok(pk) ==> (secret_key matches Ok(sk) ==> (r matches Ok((p, s)) && p@ == pk@ && s@ == sk@)),
{
    let pk = public_key?;
    let sk = secret_key?;
    Ok((pk, sk))
}

/// A keypair result by content: both halves' bytes, or the error's kind and
/// detail.
pub open spec fn keypair_view(r: Result<(Vec<u8>, Vec<u8>), SdkError>) -> Result<(Seq<u8>, Seq<u8>), (ErrorKind, Seq<char>)> {
    match r {
        Ok((p, s)) => Ok((p@, s@)),
        Err(e) => Err((e.spec_kind(), e.spec_detail())),
    }
}

/// Whether `r` is what the current keypair is for this genesis record and
/// this cached seed under `derive`: refused as `signing_inputs` refuses (no
/// genesis, a genesis of another length, a locked wallet), otherwise a
/// result of the derivation for exactly those two inputs.
pub open spec fn derived_by<F: Fn([u8; 32], Vec<u8>) -> Result<(Vec<u8>, Vec<u8>), SdkError>>(
    genesis_hash: Option<Vec<u8>>,
    wallet_seed: Option<Vec<u8>>,
    derive: F,
    r: Result<(Vec<u8>, Vec<u8>), SdkError>,
) -> bool {
    match genesis_hash {
        None => r matches Err(SdkError::InvalidState(m)) && m@
            == "genesis_hash not initialized for canonical signing authority"@,
        Some(g) => if g@.len() != 32 {
            r matches Err(SdkError::InvalidParameter(m)) && m@ == "genesis_hash must be 32 bytes, got "@
                + spec_padded_decimal(g@.len(), 1)
        } else {
            match wallet_seed {
                None => r matches Err(SdkError::InvalidState(m)) && m@
                    == "wallet seed unavailable for canonical signing authority (wallet locked)"@,
                Some(s) => exists|a: [u8; 32], v: Vec<u8>| a@ == g@ && v@ == s@ && #[trigger] derive.ensures((a, v), r),
            }
        },
    }
}

/// Whether `derive` gives one result by content for one genesis and one
/// seed by content.
pub open spec fn deterministic<F: Fn([u8; 32], Vec<u8>) -> Result<(Vec<u8>, Vec<u8>), SdkError>>(derive: F) -> bool {
    forall|a: [u8; 32], v1: Vec<u8>, v2: Vec<u8>, r1: Result<(Vec<u8>, Vec<u8>), SdkError>, r2: Result<
        (Vec<u8>, Vec<u8>),
        SdkError,
    >|
        v1@ == v2@ && #[trigger] derive.ensures((a, v1), r1) && #[trigger] derive.ensures((a, v2), r2) ==> keypair_view(r1)
            == keypair_view(r2)
}

/// The current device signing keypair: the derivation `derive` applied to
/// the recorded genesis and the cached wallet seed, and to nothing else. It
/// is refused as `signing_inputs` refuses (no genesis, a genesis of another
/// length, a locked wallet) before anything is derived; otherwise it is
/// what the derivation gives for exactly those two inputs.
pub fn derive_current_keypair<F>(genesis_hash: Option<Vec<u8>>, wallet_seed: Option<Vec<u8>>, derive: F) -> (r: Result<
    (Vec<u8>, Vec<u8>),
    SdkError,
>) where F: Fn([u8; 32], Vec<u8>) -> Result<(Vec<u8>, Vec<u8>), SdkError>
    requires
        forall|g: [u8; 32], s: Vec<u8>| derive.requires((g, s)),
    ensures
        derived_by(genesis_hash, wallet_seed, derive, r),
{
    let (genesis, seed) = signing_inputs(genesis_hash, wallet_seed)?;
    let r = derive(genesis, seed);
    r
}

/// The current keypair is stable: under a derivation that gives one result
/// for one input, two reads of the keypair in one state (the same genesis
/// record and the same cached seed) give the same pair, or the same refusal.
pub proof fn lemma_current_keypair_is_stable<F: Fn([u8; 32], Vec<u8>) -> Result<(Vec<u8>, Vec<u8>), SdkError>>(
    genesis_hash: Option<Vec<u8>>,
    wallet_seed: Option<Vec<u8>>,
    derive: F,
    r1: Result<(Vec<u8>, Vec<u8>), SdkError>,
    r2: Result<(Vec<u8>, Vec<u8>), SdkError>,
)
    requires
        deterministic(derive),
        derived_by(genesis_hash, wallet_seed, derive, r1),
        derived_by(genesis_hash, wallet_seed, derive, r2),
    ensures
        keypair_view(r1) == keypair_view(r2),
{
    if let Some(g) = genesis_hash {
        if g@.len() == 32 {
            if let Some(s) = wallet_seed {
                let (a1, v1) = choose|a: [u8; 32], v: Vec<u8>| a@ == g@ && v@ == s@ && #[trigger] derive.ensures((a, v), r1);
                let (a2, v2) = choose|a: [u8; 32], v: Vec<u8>| a@ == g@ && v@ == s@ && #[trigger] derive.ensures((a, v), r2);
                assert(a1 =~= a2);
                assert(derive.ensures((a1, v1), r1) && derive.ensures((a1, v2), r2));
            }
        }
    }
}

} // verus!
