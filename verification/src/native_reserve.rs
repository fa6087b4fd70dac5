//! The client side of the native reserve: which release requests are
//! refused outright, and whether the release final at a cell is this
//! device's own.

use vstd::prelude::*;
use crate::bytes::bytes_eq;
use crate::error::{SdkError, text};

verus! {

/// Successor cells one walk may read before it stops: a bound on the walk,
/// never a verdict about the lineage.
pub const RESERVE_WALK_BUDGET: usize = 4096;

/// A release request names this network's native reserve and a generation
/// after its genesis state, which is never a release.
pub fn check_release_request(reserve_id: &[u8; 32], native_reserve_id: &[u8; 32], generation: u64) -> (r: Result<(), SdkError>)
    ensures
        r is Ok <==> (reserve_id == native_reserve_id && generation != 0),
        r matches Err(e) ==> e is InvalidOperation && e.spec_detail() == if reserve_id != native_reserve_id {
            "the named reserve is not this network's native reserve"@
        } else {
            "generation 0 is the reserve's genesis state, never a release"@
        },
{
    if !bytes_eq(reserve_id.as_slice(), native_reserve_id.as_slice()) {
        return Err(SdkError::InvalidOperation(text("the named reserve is not this network's native reserve")));
    }
    proof {
        assert(*reserve_id =~= *native_reserve_id);
    }
    if generation == 0 {
        return Err(SdkError::InvalidOperation(text("generation 0 is the reserve's genesis state, never a release")));
    }
    Ok(())
}

/// Whether the release final at the successor cell is this device's own:
/// exactly the envelope it wrote. Another release holding the cell is not.
pub fn release_is_ours(final_release_envelope: &[u8], envelope: &[u8]) -> (r: bool)
    ensures
        r == (final_release_envelope@ == envelope@),
{
    bytes_eq(final_release_envelope, envelope)
}

} // verus!
