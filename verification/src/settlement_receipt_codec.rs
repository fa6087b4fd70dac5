//! Settlement receipts on the wire: the storage key of a receipt, the
//! conversion between the wire record and the typed receipt, and what
//! reading a receipt established. Transport only: nothing here judges
//! whether a receipt is true.

use vstd::prelude::*;
use crate::bytes::{bytes_eq, copy_bytes, fixed32, to_vec32};
use crate::error::text;
use crate::text_id::{lemma_base32_names_32_byte_ids, push_base32_crockford, spec_base32_crockford};

verus! {

/// Storage prefix of settlement receipts, keyed by vault then by the
/// external commitment of the settlement they witness.
pub const VAULT_RECEIPT_ROOT: &'static str = "sofi/vault-receipt/";

pub open spec fn spec_vault_receipt_key(vault_id: Seq<u8>, x: Seq<u8>) -> Seq<char> {
    "sofi/vault-receipt/"@ + spec_base32_crockford(vault_id) + "/"@ + spec_base32_crockford(x)
}

/// The key of the receipt of settlement `x` against `vault_id`:
/// `sofi/vault-receipt/{vault in base32}/{x in base32}`.
pub fn vault_receipt_key(vault_id: &[u8; 32], x: &[u8; 32]) -> (k: String)
    ensures
        k@ == spec_vault_receipt_key(vault_id@, x@),
{
    let mut k = text("sofi/vault-receipt/");
    push_base32_crockford(&mut k, vault_id.as_slice());
    k.append("/");
    push_base32_crockford(&mut k, x.as_slice());
    k
}

/// A receipt key is scoped to its vault and settlement: two receipt keys are
/// one key only for the same vault and the same external commitment.
pub proof fn lemma_receipt_key_is_scoped(v1: Seq<u8>, x1: Seq<u8>, v2: Seq<u8>, x2: Seq<u8>)
    requires
        v1.len() == 32,
        x1.len() == 32,
        v2.len() == 32,
        x2.len() == 32,
        spec_vault_receipt_key(v1, x1) == spec_vault_receipt_key(v2, x2),
    ensures
        v1 == v2,
        x1 == x2,
{
    reveal_strlit("/");
    let p = "sofi/vault-receipt/"@;
    let n: int = p.len() as int;
    let k1 = spec_vault_receipt_key(v1, x1);
    let k2 = spec_vault_receipt_key(v2, x2);
    assert(spec_base32_crockford(v1).len() == 52);
    assert(spec_base32_crockford(v2).len() == 52);
    assert(spec_base32_crockford(x1).len() == 52);
    assert(spec_base32_crockford(x2).len() == 52);
    assert(k1.subrange(n, n + 52) =~= spec_base32_crockford(v1));
    assert(k2.subrange(n, n + 52) =~= spec_base32_crockford(v2));
    assert(k1.subrange(n + 53, n + 105) =~= spec_base32_crockford(x1));
    assert(k2.subrange(n + 53, n + 105) =~= spec_base32_crockford(x2));
    lemma_base32_names_32_byte_ids(v1, v2);
    lemma_base32_names_32_byte_ids(x1, x2);
}

/// A settlement receipt as it stands on the wire.
#[derive(Debug)]
pub struct TraderSettlementReceiptV1 {
    pub vault_id: Vec<u8>,
    pub receipt_id: Vec<u8>,
    pub x: Vec<u8>,
    pub parent_sequence: u64,
    pub new_sequence: u64,
    pub input_policy_commit: Vec<u8>,
    pub input_amount: u64,
    pub output_policy_commit: Vec<u8>,
    pub output_amount: u64,
    pub trader_genesis: Vec<u8>,
    pub trader_devid: Vec<u8>,
    pub post_root: Vec<u8>,
    pub smt_siblings: Vec<Vec<u8>>,
    pub trader_public_key: Vec<u8>,
    pub trader_signature: Vec<u8>,
}

/// The trade a receipt settles.
#[derive(Debug, Clone, Copy)]
pub struct SettledTrade {
    pub x: [u8; 32],
    pub parent_sequence: u64,
    pub new_sequence: u64,
    pub input_policy_commit: [u8; 32],
    pub input_amount: u64,
    pub output_policy_commit: [u8; 32],
    pub output_amount: u64,
}

/// A typed, signed settlement receipt.
#[derive(Debug)]
pub struct SignedTraderSettlementReceipt {
    pub vault_id: [u8; 32],
    pub receipt_id: [u8; 32],
    pub trade: SettledTrade,
    pub trader_genesis: [u8; 32],
    pub trader_devid: [u8; 32],
    pub post_root: [u8; 32],
    pub smt_siblings: Vec<[u8; 32]>,
    pub trader_public_key: Vec<u8>,
    pub trader_signature: Vec<u8>,
}

/// The values a typed receipt states.
pub struct ReceiptFields {
    pub vault_id: [u8; 32],
    pub receipt_id: [u8; 32],
    pub trade: SettledTrade,
    pub trader_genesis: [u8; 32],
    pub trader_devid: [u8; 32],
    pub post_root: [u8; 32],
    pub smt_siblings: Seq<[u8; 32]>,
    pub trader_public_key: Seq<u8>,
    pub trader_signature: Seq<u8>,
}

impl View for SignedTraderSettlementReceipt {
    type V = ReceiptFields;

    open spec fn view(&self) -> ReceiptFields {
        ReceiptFields {
            vault_id: self.vault_id,
            receipt_id: self.receipt_id,
            trade: self.trade,
            trader_genesis: self.trader_genesis,
            trader_devid: self.trader_devid,
            post_root: self.post_root,
            smt_siblings: self.smt_siblings@,
            trader_public_key: self.trader_public_key@,
            trader_signature: self.trader_signature@,
        }
    }
}

/// Whether every 32-byte field of a wire receipt is 32 bytes long, siblings
/// included.
pub open spec fn well_sized(p: TraderSettlementReceiptV1) -> bool {
    &&& p.vault_id@.len() == 32
    &&& p.receipt_id@.len() == 32
    &&& p.x@.len() == 32
    &&& p.input_policy_commit@.len() == 32
    &&& p.output_policy_commit@.len() == 32
    &&& p.trader_genesis@.len() == 32
    &&& p.trader_devid@.len() == 32
    &&& p.post_root@.len() == 32
    &&& forall|i: int| 0 <= i < p.smt_siblings@.len() ==> (#[trigger] p.smt_siblings@[i])@.len() == 32
}

/// Whether a typed receipt states exactly what a wire receipt carries.
pub open spec fn states(r: ReceiptFields, p: TraderSettlementReceiptV1) -> bool {
    &&& r.vault_id@ == p.vault_id@
    &&& r.receipt_id@ == p.receipt_id@
    &&& r.trade.x@ == p.x@
    &&& r.trade.parent_sequence == p.parent_sequence
    &&& r.trade.new_sequence == p.new_sequence
    &&& r.trade.input_policy_commit@ == p.input_policy_commit@
    &&& r.trade.input_amount == p.input_amount
    &&& r.trade.output_policy_commit@ == p.output_policy_commit@
    &&& r.trade.output_amount == p.output_amount
    &&& r.trader_genesis@ == p.trader_genesis@
    &&& r.trader_devid@ == p.trader_devid@
    &&& r.post_root@ == p.post_root@
    &&& r.smt_siblings.len() == p.smt_siblings@.len()
    &&& forall|i: int| 0 <= i < r.smt_siblings.len() ==> (#[trigger] r.smt_siblings[i])@ == p.smt_siblings@[i]@
    &&& r.trader_public_key == p.trader_public_key@
    &&& r.trader_signature == p.trader_signature@
}

fn take32(v: &Vec<u8>) -> (r: Option<[u8; 32]>)
    ensures
        r is Some <==> v@.len() == 32,
        r matches Some(a) ==> a@ == v@,
{
    fixed32(v.as_slice())
}

/// Wire to typed: `None` when any 32-byte field, or any sibling, has another
/// length, rather than a receipt wearing default values.
pub fn receipt_from_proto(p: &TraderSettlementReceiptV1) -> (r: Option<SignedTraderSettlementReceipt>)
    ensures
        r is Some <==> well_sized(*p),
        r matches Some(t) ==> states(t@, *p),
{
    let mut sibs: Vec<[u8; 32]> = Vec::new();
    let mut i: usize = 0;
    while i < p.smt_siblings.len()
        invariant
            i <= p.smt_siblings@.len(),
            sibs@.len() == i,
            forall|k: int| 0 <= k < i ==> (#[trigger] p.smt_siblings@[k])@.len() == 32,
            forall|k: int| 0 <= k < i ==> (#[trigger] sibs@[k])@ == p.smt_siblings@[k]@,
        decreases p.smt_siblings@.len() - i,
    {
        match take32(&p.smt_siblings[i]) {
            Some(s) => sibs.push(s),
            None => return None,
        }
        i = i + 1;
    }
    let vault_id = take32(&p.vault_id)?;
    let receipt_id = take32(&p.receipt_id)?;
    let x = take32(&p.x)?;
    let input_policy_commit = take32(&p.input_policy_commit)?;
    let output_policy_commit = take32(&p.output_policy_commit)?;
    let trader_genesis = take32(&p.trader_genesis)?;
    let trader_devid = take32(&p.trader_devid)?;
    let post_root = take32(&p.post_root)?;
    Some(
        SignedTraderSettlementReceipt {
            vault_id,
            receipt_id,
            trade: SettledTrade {
                x,
                parent_sequence: p.parent_sequence,
                new_sequence: p.new_sequence,
                input_policy_commit,
                input_amount: p.input_amount,
                output_policy_commit,
                output_amount: p.output_amount,
            },
            trader_genesis,
            trader_devid,
            post_root,
            smt_siblings: sibs,
            trader_public_key: copy_bytes(p.trader_public_key.as_slice()),
            trader_signature: copy_bytes(p.trader_signature.as_slice()),
        },
    )
}

/// Typed to wire.
pub fn receipt_to_proto(r: &SignedTraderSettlementReceipt) -> (p: TraderSettlementReceiptV1)
    ensures
        well_sized(p),
        states(r@, p),
{
    let mut sibs: Vec<Vec<u8>> = Vec::new();
    let mut i: usize = 0;
    while i < r.smt_siblings.len()
        invariant
            i <= r.smt_siblings@.len(),
            sibs@.len() == i,
            forall|k: int| 0 <= k < i ==> (#[trigger] sibs@[k])@ == r.smt_siblings@[k]@,
        decreases r.smt_siblings@.len() - i,
    {
        sibs.push(to_vec32(&r.smt_siblings[i]));
        i = i + 1;
    }
    TraderSettlementReceiptV1 {
        vault_id: to_vec32(&r.vault_id),
        receipt_id: to_vec32(&r.receipt_id),
        x: to_vec32(&r.trade.x),
        parent_sequence: r.trade.parent_sequence,
        new_sequence: r.trade.new_sequence,
        input_policy_commit: to_vec32(&r.trade.input_policy_commit),
        input_amount: r.trade.input_amount,
        output_policy_commit: to_vec32(&r.trade.output_policy_commit),
        output_amount: r.trade.output_amount,
        trader_genesis: to_vec32(&r.trader_genesis),
        trader_devid: to_vec32(&r.trader_devid),
        post_root: to_vec32(&r.post_root),
        smt_siblings: sibs,
        trader_public_key: copy_bytes(r.trader_public_key.as_slice()),
        trader_signature: copy_bytes(r.trader_signature.as_slice()),
    }
}

/// A receipt survives the wire: the record written for a typed receipt reads
/// back as that same receipt, every settled quantity included.
pub proof fn lemma_receipt_round_trip(r: ReceiptFields, p: TraderSettlementReceiptV1, back: ReceiptFields)
    requires
        states(r, p),
        states(back, p),
    ensures
        back == r,
{
    assert(back.vault_id =~= r.vault_id);
    assert(back.receipt_id =~= r.receipt_id);
    assert(back.trade.x =~= r.trade.x);
    assert(back.trade.input_policy_commit =~= r.trade.input_policy_commit);
    assert(back.trade.output_policy_commit =~= r.trade.output_policy_commit);
    assert(back.trader_genesis =~= r.trader_genesis);
    assert(back.trader_devid =~= r.trader_devid);
    assert(back.post_root =~= r.post_root);
    assert forall|i: int| 0 <= i < r.smt_siblings.len() implies back.smt_siblings[i] == r.smt_siblings[i] by {
        assert(back.smt_siblings[i]@ == p.smt_siblings@[i]@);
        assert(back.smt_siblings[i] =~= r.smt_siblings[i]);
    }
    assert(back.smt_siblings =~= r.smt_siblings);
}

/// Why the bytes at a receipt key are not a receipt for the settlement asked
/// about.
#[derive(Debug, Clone, Copy, PartialEq, Eq, Structural)]
pub enum MalformedReceipt {
    /// The bytes do not decode as a receipt.
    NotAReceipt,
    /// A receipt field is not 32 bytes.
    FieldNotThirtyTwoBytes,
    /// The served receipt is for another vault or settlement.
    OtherSettlement,
}

/// What reading the receipt at `(vault, x)` established: transport and
/// decoding only.
#[derive(Debug)]
pub enum ReceiptFetch {
    /// No object at the key: not published yet.
    Absent,
    /// Could not read; retryable, and it establishes nothing.
    Unavailable(String),
    /// Bytes are present and are not a receipt for this settlement.
    Malformed(MalformedReceipt),
    /// A decoded receipt, with no verification of any kind applied.
    Decoded(Box<SignedTraderSettlementReceipt>),
}

/// What a read of the receipt key established: the read failed, found
/// nothing, found bytes that do not decode (`Some(None)`), or a wire record.
/// A receipt served under the right key for another vault or settlement
/// changes nothing: it is malformed here.
pub fn receipt_fetch(vault_id: &[u8; 32], x: &[u8; 32], read: Result<Option<Option<TraderSettlementReceiptV1>>, String>) -> (r: ReceiptFetch)
    ensures
        read matches Err(m) ==> (r matches ReceiptFetch::Unavailable(m2) && m2@ == m@),
        read == Ok::<Option<Option<TraderSettlementReceiptV1>>, String>(None) ==> r is Absent,
        read == Ok::<Option<Option<TraderSettlementReceiptV1>>, String>(Some(None)) ==> r == ReceiptFetch::Malformed(
            MalformedReceipt::NotAReceipt,
        ),
        read matches Ok(Some(Some(p))) ==> (!well_sized(p) ==> r == ReceiptFetch::Malformed(
            MalformedReceipt::FieldNotThirtyTwoBytes,
        )),
        read matches Ok(Some(Some(p))) ==> (well_sized(p) && (p.vault_id@ != vault_id@ || p.x@ != x@) ==> r
            == ReceiptFetch::Malformed(MalformedReceipt::OtherSettlement)),
        read matches Ok(Some(Some(p))) ==> (well_sized(p) && p.vault_id@ == vault_id@ && p.x@ == x@ ==> (
        r matches ReceiptFetch::Decoded(t) && states((*t)@, p))),
{
    let p = match read {
        Err(m) => return ReceiptFetch::Unavailable(m),
        Ok(None) => return ReceiptFetch::Absent,
        Ok(Some(None)) => return ReceiptFetch::Malformed(MalformedReceipt::NotAReceipt),
        Ok(Some(Some(p))) => p,
    };
    let receipt = match receipt_from_proto(&p) {
        Some(t) => t,
        None => return ReceiptFetch::Malformed(MalformedReceipt::FieldNotThirtyTwoBytes),
    };
    if !bytes_eq(receipt.vault_id.as_slice(), vault_id.as_slice()) || !bytes_eq(
        receipt.trade.x.as_slice(),
        x.as_slice(),
    ) {
        return ReceiptFetch::Malformed(MalformedReceipt::OtherSettlement);
    }
    ReceiptFetch::Decoded(Box::new(receipt))
}

} // verus!
