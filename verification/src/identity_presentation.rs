//! The owner's identity presentation: the inputs the owner's authority chain
//! is re-derived from, the context it yields, and the checks a presentation's
//! fields and a re-derived identity must pass.

use vstd::prelude::*;
use crate::bytes::{bytes_eq, fixed32};
use crate::error::{SdkError, text};

verus! {

/// The non-secret inputs the owner re-derives their authority chain from,
/// with the wallet seed: the network the genesis was created under, the
/// wallet index, the device slot and the genesis version.
#[derive(Debug, Clone, Copy)]
pub struct OwnerIdentityInputs<'a> {
    pub network_id: &'a [u8],
    pub wallet_index: u32,
    pub device_slot: u32,
    pub genesis_version: u32,
}

/// The owner's derived authority facts: the identity, the device, its
/// attestation key, and the authority position every state it authors
/// commits.
#[derive(Debug)]
pub struct OwnAuthorityContext {
    pub g: [u8; 32],
    pub devid: [u8; 32],
    pub ak_public: Vec<u8>,
    pub position: [u8; 32],
}

/// Which builder refuses: the anchor presentation or the authority evidence.
#[derive(Debug, Clone, Copy, PartialEq, Eq, Structural)]
pub enum PresentationKind {
    AnchorPresentation,
    AuthorityEvidence,
}

/// The re-derived identity must be the one this device holds: a different
/// one means the inputs describe another identity, and publishing would be
/// an equivocation.
pub fn check_rederived_identity(kind: PresentationKind, rederived_g: &[u8; 32], expected_g: &[u8; 32]) -> (r: Result<(), SdkError>)
    ensures
        r is Ok <==> rederived_g == expected_g,
        r matches Err(e) ==> e is Verification && e.spec_detail() == match kind {
            PresentationKind::AnchorPresentation => "anchor presentation: re-derived G does not match this device's stored genesis id \u{2014} the inputs describe a different identity (fail closed)"@,
            PresentationKind::AuthorityEvidence => "authority evidence: re-derived G does not match this device's stored genesis id \u{2014} the inputs describe a different identity (fail closed)"@,
        },
{
    if !bytes_eq(rederived_g.as_slice(), expected_g.as_slice()) {
        let m = match kind {
            PresentationKind::AnchorPresentation => text(
                "anchor presentation: re-derived G does not match this device's stored genesis id \u{2014} the inputs describe a different identity (fail closed)",
            ),
            PresentationKind::AuthorityEvidence => text(
                "authority evidence: re-derived G does not match this device's stored genesis id \u{2014} the inputs describe a different identity (fail closed)",
            ),
        };
        return Err(SdkError::Verification(m));
    }
    proof {
        assert(*rederived_g =~= *expected_g);
    }
    Ok(())
}

/// A presentation field that must be 32 bytes, or a verification error
/// naming it.
pub fn take32(bytes: &[u8], what: &str) -> (r: Result<[u8; 32], SdkError>)
    ensures
        r is Ok <==> bytes@.len() == 32,
        r matches Ok(a) ==> a@ == bytes@,
        r matches Err(e) ==> e is Verification && e.spec_detail() == "anchor presentation: "@ + what@ + " is not 32 bytes"@,
{
    match fixed32(bytes) {
        Some(a) => Ok(a),
        None => {
            let mut m = text("anchor presentation: ");
            m.append(what);
            m.append(" is not 32 bytes");
            Err(SdkError::Verification(m))
        },
    }
}

} // verus!
