//! The evidence a trader and an owner produce for the economic verifier:
//! the checks that mirror the verifier's own, so a defect upstream is
//! refused before anything is signed or advanced.

use vstd::prelude::*;
use crate::bytes::bytes_eq;
use crate::error::{SdkError, text};
use crate::settlement_receipt_codec::SettledTrade;

verus! {

/// The label the reserve-consumption bundle is published under.
pub const RESERVE_CONSUMPTION_LABEL: &'static str = "dlv-reserve-consumption-evidence";

/// A reserve-consumption bundle needs the owner's authority evidence, and the
/// re-encoded vault state must hash to the commitment the composition
/// reached: the bytes the verifier hashes to the settle's parent binding.
pub fn check_consumption_inputs(owner_authority_evidence: &[u8], recomputed_c_n: &[u8; 32], composed_c_n: &[u8; 32]) -> (r: Result<(), SdkError>)
    ensures
        r is Ok <==> (owner_authority_evidence@.len() > 0 && recomputed_c_n == composed_c_n),
        r matches Err(e) ==> e is InvalidOperation && e.spec_detail() == if owner_authority_evidence@.len() == 0 {
            "0x0026 bundle: the composed vault carries no owner authority evidence"@
        } else {
            "0x0026 bundle: the re-encoded vault state does not hash to the composed c_n"@
        },
{
    if owner_authority_evidence.len() == 0 {
        return Err(SdkError::InvalidOperation(text("0x0026 bundle: the composed vault carries no owner authority evidence")));
    }
    if !bytes_eq(recomputed_c_n.as_slice(), composed_c_n.as_slice()) {
        return Err(SdkError::InvalidOperation(text("0x0026 bundle: the re-encoded vault state does not hash to the composed c_n")));
    }
    proof {
        assert(*recomputed_c_n =~= *composed_c_n);
    }
    Ok(())
}

/// A settlement-receipt leaf: the settlement it states.
#[derive(Debug, Clone, Copy)]
pub struct ReceiptLeaf {
    pub vault_id: [u8; 32],
    pub receipt_id: [u8; 32],
    pub x: [u8; 32],
    pub parent_sequence: u64,
    pub new_sequence: u64,
    pub input_policy_commit: [u8; 32],
    pub input_amount: u64,
    pub output_policy_commit: [u8; 32],
    pub output_amount: u64,
}

/// Whether a leaf states exactly this settlement, field by field.
pub open spec fn spec_leaf_states(leaf: ReceiptLeaf, vault_id: [u8; 32], receipt_id: [u8; 32], trade: SettledTrade) -> bool {
    &&& leaf.vault_id == vault_id
    &&& leaf.receipt_id == receipt_id
    &&& leaf.x == trade.x
    &&& leaf.parent_sequence == trade.parent_sequence
    &&& leaf.new_sequence == trade.new_sequence
    &&& leaf.input_policy_commit == trade.input_policy_commit
    &&& leaf.input_amount == trade.input_amount
    &&& leaf.output_policy_commit == trade.output_policy_commit
    &&& leaf.output_amount == trade.output_amount
}

fn same32(a: &[u8; 32], b: &[u8; 32]) -> (r: bool)
    ensures
        r == (*a == *b),
{
    let r = bytes_eq(a.as_slice(), b.as_slice());
    proof {
        if r {
            assert(*a =~= *b);
        }
    }
    r
}

/// The payment evidence's leaf must state exactly the realized settlement.
pub fn check_leaf_states_settlement(leaf: &ReceiptLeaf, vault_id: &[u8; 32], receipt_id: &[u8; 32], trade: &SettledTrade) -> (r: Result<(), SdkError>)
    ensures
        r is Ok <==> spec_leaf_states(*leaf, *vault_id, *receipt_id, *trade),
        r matches Err(e) ==> e is InvalidOperation && e.spec_detail()
            == "0x0027 evidence: the certified receipt leaf does not state this settlement"@,
{
    let ok = same32(&leaf.vault_id, vault_id) && same32(&leaf.receipt_id, receipt_id) && same32(&leaf.x, &trade.x)
        && leaf.parent_sequence == trade.parent_sequence && leaf.new_sequence == trade.new_sequence && same32(
        &leaf.input_policy_commit,
        &trade.input_policy_commit,
    ) && leaf.input_amount == trade.input_amount && same32(&leaf.output_policy_commit, &trade.output_policy_commit)
        && leaf.output_amount == trade.output_amount;
    if !ok {
        return Err(SdkError::InvalidOperation(text("0x0027 evidence: the certified receipt leaf does not state this settlement")));
    }
    Ok(())
}

/// The leaf must prove into the root certification validated.
pub fn check_leaf_proves_into_root(folded_root: &[u8; 32], validated_root: &[u8; 32]) -> (r: Result<(), SdkError>)
    ensures
        r is Ok <==> folded_root == validated_root,
        r matches Err(e) ==> e is InvalidOperation && e.spec_detail()
            == "0x0027 evidence: the receipt leaf does not prove into the root certification validated"@,
{
    if !same32(folded_root, validated_root) {
        return Err(SdkError::InvalidOperation(text("0x0027 evidence: the receipt leaf does not prove into the root certification validated")));
    }
    Ok(())
}

} // verus!
