//! First-writer protection over a vault's settlement slot: the SDK side of a
//! one-shot quorum register. A contestant wins the slot for
//! `(vault_id, parent_sequence)` only when a quorum of the vault's canonical
//! storage set accepted its exact claim envelope; quorums of one set
//! intersect and a member holds one value per slot, so two conflicting
//! claimants never both win.

use vstd::prelude::*;
use crate::bytes::bytes_eq;
use crate::error::text;
use crate::text_id::{push_padded_decimal, push_shown_option, shown_option, spec_padded_decimal};

verus! {

/// Evidence that this contestant holds a settlement slot: a quorum of the
/// vault's canonical set accepted exactly its claim bytes.
#[derive(Debug, Clone, Copy)]
pub struct SettlementSlotClaim {
    vault_id: [u8; 32],
    parent_sequence: u64,
    x: [u8; 32],
    accepted: u32,
    total: u32,
}

impl SettlementSlotClaim {
    pub closed spec fn spec_vault_id(&self) -> [u8; 32] {
        self.vault_id
    }

    pub closed spec fn spec_parent_sequence(&self) -> u64 {
        self.parent_sequence
    }

    pub closed spec fn spec_x(&self) -> [u8; 32] {
        self.x
    }

    pub closed spec fn spec_accepted(&self) -> u32 {
        self.accepted
    }

    pub closed spec fn spec_total(&self) -> u32 {
        self.total
    }

    /// Members that accepted these exact bytes.
    pub fn accepted(&self) -> (r: u32)
        ensures
            r == self.spec_accepted(),
    {
        self.accepted
    }

    /// Members of the set.
    pub fn total(&self) -> (r: u32)
        ensures
            r == self.spec_total(),
    {
        self.total
    }

    /// `true` when this claim is for exactly the settlement described.
    pub fn matches(&self, vault_id: &[u8; 32], parent_sequence: u64, x: &[u8; 32]) -> (r: bool)
        ensures
            r == (self.spec_vault_id()@ == vault_id@ && self.spec_parent_sequence()
                == parent_sequence && self.spec_x()@ == x@),
    {
        bytes_eq(&self.vault_id, vault_id) && self.parent_sequence == parent_sequence && bytes_eq(
            &self.x,
            x,
        )
    }
}

/// Why a slot claim did not win.
#[derive(Debug, Clone)]
pub enum SlotClaimError {
    /// Quorum was not reached and no member reported a different holder: the
    /// contestant does not know whether it holds the parent.
    StorageUnavailable { accepted: u32, total: u32, detail: String },
    /// At least one member holds different bytes for this slot and quorum was
    /// not reached: another contestant is (or may be) ahead.
    Contested { refused_by: u32, accepted: u32, total: u32 },
    /// The frozen envelope does not describe the requested slot.
    EnvelopeMismatch,
}

/// One member's answer to a claim submission.
#[derive(Debug, Clone)]
pub enum MemberClaimResult {
    Accepted,
    HeldIdentical,
    /// The member holds other bytes; `held_digest` is the digest it reports.
    Refused { held_digest: Option<Vec<u8>> },
    Unavailable(String),
}

/// One member's answer, with the node id it echoed.
#[derive(Debug, Clone)]
pub struct MemberClaimOutcome {
    pub member_id: String,
    pub echoed_node_id: Option<String>,
    pub result: MemberClaimResult,
}

/// The fields of a decoded, signature-verified claim envelope that name its slot.
#[derive(Debug, Clone, Copy)]
pub struct ClaimBodyIdentity {
    pub vault_id: [u8; 32],
    pub parent_sequence: u64,
    pub x: [u8; 32],
    pub storage_set_id: [u8; 32],
}

/// Whether the envelope body names exactly this slot under this set.
pub open spec fn body_names_slot(
    body: ClaimBodyIdentity,
    vault_id: [u8; 32],
    parent_sequence: u64,
    x: [u8; 32],
    set_id: [u8; 32],
) -> bool {
    body.vault_id@ == vault_id@ && body.parent_sequence == parent_sequence && body.x@ == x@
        && body.storage_set_id@ == set_id@
}

/// Whether an answer counts as an acceptance of the bytes whose digest is `ours`:
/// an acceptance echoed by the very member contacted, or a refusal that reports
/// our own digest as the one held.
pub open spec fn counts_as_accepted(o: MemberClaimOutcome, ours: Seq<u8>) -> bool {
    match o.result {
        MemberClaimResult::Accepted | MemberClaimResult::HeldIdentical => echo_names_member(o),
        MemberClaimResult::Refused { held_digest } => held_digest matches Some(h) && h@ == ours,
        MemberClaimResult::Unavailable(_) => false,
    }
}

/// Whether the node id a member echoed is the member contacted.
pub open spec fn echo_names_member(o: MemberClaimOutcome) -> bool {
    o.echoed_node_id matches Some(e) && e@ == o.member_id@
}

/// Whether an answer reports a member holding other bytes.
pub open spec fn counts_as_refused(o: MemberClaimOutcome, ours: Seq<u8>) -> bool {
    match o.result {
        MemberClaimResult::Refused { held_digest } => !(held_digest matches Some(h) && h@ == ours),
        _ => false,
    }
}

pub open spec fn accepted_count(os: Seq<MemberClaimOutcome>, ours: Seq<u8>) -> nat
    decreases os.len(),
{
    if os.len() == 0 {
        0
    } else {
        accepted_count(os.drop_last(), ours) + if counts_as_accepted(os.last(), ours) {
            1nat
        } else {
            0nat
        }
    }
}

pub open spec fn refused_count(os: Seq<MemberClaimOutcome>, ours: Seq<u8>) -> nat
    decreases os.len(),
{
    if os.len() == 0 {
        0
    } else {
        refused_count(os.drop_last(), ours) + if counts_as_refused(os.last(), ours) {
            1nat
        } else {
            0nat
        }
    }
}

/// What an answer adds to the explanation of an unreached quorum: an
/// acceptance echoed by another id (the echo shown as diagnostics show an
/// optional text), or a member that could not answer.
pub open spec fn detail_piece(o: MemberClaimOutcome) -> Option<Seq<char>> {
    match o.result {
        MemberClaimResult::Accepted | MemberClaimResult::HeldIdentical => if echo_names_member(o) {
            None
        } else {
            Some(o.member_id@ + ": accepted but echoed "@ + shown_option(match o.echoed_node_id {
                Some(e) => Some(e@),
                None => None,
            }) + " \u{2014} not counted"@)
        },
        MemberClaimResult::Refused { .. } => None,
        MemberClaimResult::Unavailable(e) => Some(o.member_id@ + ": "@ + e@),
    }
}

/// The pieces of the explanation of an unreached quorum, answer by answer.
pub open spec fn detail_pieces(os: Seq<MemberClaimOutcome>) -> Seq<Seq<char>>
    decreases os.len(),
{
    if os.len() == 0 {
        Seq::empty()
    } else {
        match detail_piece(os.last()) {
            Some(p) => detail_pieces(os.drop_last()).push(p),
            None => detail_pieces(os.drop_last()),
        }
    }
}

/// `pieces` joined by `sep`.
pub open spec fn joined(pieces: Seq<Seq<char>>, sep: Seq<char>) -> Seq<char>
    decreases pieces.len(),
{
    if pieces.len() == 0 {
        Seq::empty()
    } else if pieces.len() == 1 {
        pieces[0]
    } else {
        joined(pieces.drop_last(), sep) + sep + pieces.last()
    }
}

/// The explanation of an unreached quorum: its pieces joined by `"; "`.
pub open spec fn unavailable_detail(os: Seq<MemberClaimOutcome>) -> Seq<char> {
    joined(detail_pieces(os), "; "@)
}

proof fn lemma_counts_bounded(os: Seq<MemberClaimOutcome>, ours: Seq<u8>)
    ensures
        accepted_count(os, ours) + refused_count(os, ours) <= os.len(),
    decreases os.len(),
{
    if os.len() > 0 {
        lemma_counts_bounded(os.drop_last(), ours);
    }
}

/// Refuse an envelope that does not describe the requested slot and set,
/// before any member is contacted.
pub fn check_claim_envelope(
    body: &ClaimBodyIdentity,
    vault_id: &[u8; 32],
    parent_sequence: u64,
    x: &[u8; 32],
    set_id: &[u8; 32],
) -> (r: Result<(), SlotClaimError>)
    ensures
        r is Ok <==> body_names_slot(*body, *vault_id, parent_sequence, *x, *set_id),
        r matches Err(e) ==> e is EnvelopeMismatch,
{
    if !bytes_eq(&body.vault_id, vault_id) || body.parent_sequence != parent_sequence
        || !bytes_eq(&body.x, x) || !bytes_eq(&body.storage_set_id, set_id) {
        return Err(SlotClaimError::EnvelopeMismatch);
    }
    Ok(())
}

fn echo_is_member(o: &MemberClaimOutcome) -> (r: bool)
    ensures
        r == echo_names_member(*o),
{
    match &o.echoed_node_id {
        Some(e) => *e == o.member_id,
        None => false,
    }
}

/// Decide a claim from every member's answer: `Ok` iff at least `quorum`
/// answers count as accepting exactly our bytes (digest `our_digest`);
/// otherwise `Contested` when some member reported holding other bytes, and
/// `StorageUnavailable` when none did.
pub fn tally_slot_claim(
    outcomes: &Vec<MemberClaimOutcome>,
    our_digest: &[u8],
    vault_id: &[u8; 32],
    parent_sequence: u64,
    x: &[u8; 32],
    total: u32,
    quorum: u32,
) -> (r: Result<SettlementSlotClaim, SlotClaimError>)
    requires
        outcomes@.len() <= u32::MAX,
    ensures
        ({
            let a = accepted_count(outcomes@, our_digest@);
            let f = refused_count(outcomes@, our_digest@);
            &&& r is Ok <==> claim_wins(outcomes@, our_digest@, quorum as nat)
            &&& r matches Ok(c) ==> c.spec_accepted() == a && c.spec_total() == total
                && c.spec_vault_id() == *vault_id && c.spec_parent_sequence() == parent_sequence
                && c.spec_x() == *x
            &&& r matches Err(e) ==> (match e {
                SlotClaimError::Contested { refused_by, accepted, total: t } => a < quorum && f > 0
                    && refused_by == f && accepted == a && t == total,
                SlotClaimError::StorageUnavailable { accepted, total: t, detail } => a < quorum && f
                    == 0 && accepted == a && t == total && detail@ == unavailable_detail(outcomes@),
                SlotClaimError::EnvelopeMismatch => false,
            })
        }),
{
    let mut accepted: u32 = 0;
    let mut refused_by: u32 = 0;
    let mut detail = String::new();
    let mut any = false;
    let mut i: usize = 0;
    while i < outcomes.len()
        invariant
            i <= outcomes@.len(),
            outcomes@.len() <= u32::MAX,
            accepted == accepted_count(outcomes@.subrange(0, i as int), our_digest@),
            refused_by == refused_count(outcomes@.subrange(0, i as int), our_digest@),
            detail@ == unavailable_detail(outcomes@.subrange(0, i as int)),
            any == (detail_pieces(outcomes@.subrange(0, i as int)).len() > 0),
        decreases outcomes@.len() - i,
    {
        proof {
            lemma_counts_bounded(outcomes@.subrange(0, i as int), our_digest@);
            assert(outcomes@.subrange(0, i + 1).drop_last() =~= outcomes@.subrange(0, i as int));
        }
        let o = &outcomes[i];
        let ghost before = detail@;
        let ghost pre = detail_pieces(outcomes@.subrange(0, i as int));
        let mut piece: Option<String> = None;
        match &o.result {
            MemberClaimResult::Accepted | MemberClaimResult::HeldIdentical => {
                if echo_is_member(o) {
                    accepted = accepted + 1;
                } else {
                    let mut m = text(o.member_id.as_str());
                    m.append(": accepted but echoed ");
                    push_shown_option(&mut m, &o.echoed_node_id);
                    m.append(" \u{2014} not counted");
                    piece = Some(m);
                }
            },
            MemberClaimResult::Refused { held_digest } => {
                let ours = match held_digest {
                    Some(h) => bytes_eq(h.as_slice(), our_digest),
                    None => false,
                };
                if ours {
                    accepted = accepted + 1;
                } else {
                    refused_by = refused_by + 1;
                }
            },
            MemberClaimResult::Unavailable(e) => {
                let mut m = text(o.member_id.as_str());
                m.append(": ");
                m.append(e.as_str());
                piece = Some(m);
            },
        }
        assert(piece matches Some(m) ==> detail_piece(outcomes@[i as int]) == Some(m@));
        assert(piece is None ==> detail_piece(outcomes@[i as int]) is None);
        if let Some(m) = piece {
            if any {
                detail.append("; ");
            }
            detail.append(m.as_str());
            any = true;
            proof {
                let post = pre.push(m@);
                assert(detail_pieces(outcomes@.subrange(0, i + 1)) == post);
                assert(post.drop_last() =~= pre);
                if pre.len() == 0 {
                    assert(detail@ =~= post[0]);
                } else {
                    assert(detail@ =~= joined(pre, "; "@) + "; "@ + m@);
                }
            }
        } else {
            assert(detail_pieces(outcomes@.subrange(0, i + 1)) == pre);
        }
        i = i + 1;
    }
    assert(outcomes@.subrange(0, outcomes@.len() as int) =~= outcomes@);
    if accepted >= quorum {
        return Ok(
            SettlementSlotClaim {
                vault_id: *vault_id,
                parent_sequence,
                x: *x,
                accepted,
                total,
            },
        );
    }
    if refused_by > 0 {
        return Err(SlotClaimError::Contested { refused_by, accepted, total });
    }
    Err(SlotClaimError::StorageUnavailable { accepted, total, detail })
}

/// The quorum of a set of `n` members: its strict majority.
pub fn strict_majority(n: u32) -> (q: u32)
    ensures
        q == n / 2 + 1,
        2 * q > n,
{
    n / 2 + 1
}

/// Members whose slot holds exactly `v`.
pub open spec fn holders(held: Seq<Option<Seq<u8>>>, v: Seq<u8>) -> nat
    decreases held.len(),
{
    if held.len() == 0 {
        0
    } else {
        holders(held.drop_last(), v) + if held.last() == Some(v) {
            1nat
        } else {
            0nat
        }
    }
}

proof fn lemma_disjoint_holders(held: Seq<Option<Seq<u8>>>, a: Seq<u8>, b: Seq<u8>)
    requires
        a != b,
    ensures
        holders(held, a) + holders(held, b) <= held.len(),
    decreases held.len(),
{
    if held.len() > 0 {
        lemma_disjoint_holders(held.drop_last(), a, b);
    }
}

/// At most one claim wins a slot. Each member of the set holds at most one
/// value for the slot (`held[i]`); a claim wins when at least `quorum`
/// members hold it. With `quorum` a strict majority of the set, two winning
/// claims hold the same bytes.
pub proof fn lemma_at_most_one_claim_wins(
    held: Seq<Option<Seq<u8>>>,
    quorum: nat,
    a: Seq<u8>,
    b: Seq<u8>,
)
    requires
        2 * quorum > held.len(),
        holders(held, a) >= quorum,
        holders(held, b) >= quorum,
    ensures
        a == b,
{
    if a != b {
        lemma_disjoint_holders(held, a, b);
    }
}

/// Whether the answers `outcomes` win the slot for the claim whose digest
/// is `ours`: at least `quorum` of them count as accepting it.
pub open spec fn claim_wins(outcomes: Seq<MemberClaimOutcome>, ours: Seq<u8>, quorum: nat) -> bool {
    accepted_count(outcomes, ours) >= quorum
}

proof fn lemma_acceptances_are_holdings(outcomes: Seq<MemberClaimOutcome>, held: Seq<Option<Seq<u8>>>, d: Seq<u8>)
    requires
        outcomes.len() == held.len(),
        forall|i: int| 0 <= i < outcomes.len() && counts_as_accepted(#[trigger] outcomes[i], d) ==> held[i] == Some(d),
    ensures
        accepted_count(outcomes, d) <= holders(held, d),
    decreases outcomes.len(),
{
    if outcomes.len() > 0 {
        let o2 = outcomes.drop_last();
        let h2 = held.drop_last();
        assert forall|i: int| 0 <= i < o2.len() && counts_as_accepted(#[trigger] o2[i], d) implies h2[i] == Some(d) by {
            assert(o2[i] == outcomes[i]);
        }
        lemma_acceptances_are_holdings(o2, h2, d);
        assert(outcomes.last() == outcomes[outcomes.len() - 1]);
    }
}

/// Two tallies never both win one slot for different claims. The answers
/// come member by member from one set (`held[i]` is what member `i` holds
/// for the slot, one value at most); a member's answer counts as accepting a
/// claim only when it holds that claim's bytes. With `quorum` a strict
/// majority of the set, two claims that `tally_slot_claim` both accepts
/// (`claim_wins`) have the same digest.
pub proof fn lemma_two_tallies_never_both_win(
    held: Seq<Option<Seq<u8>>>,
    outcomes_a: Seq<MemberClaimOutcome>,
    digest_a: Seq<u8>,
    outcomes_b: Seq<MemberClaimOutcome>,
    digest_b: Seq<u8>,
    quorum: nat,
)
    requires
        2 * quorum > held.len(),
        outcomes_a.len() == held.len(),
        outcomes_b.len() == held.len(),
        forall|i: int| 0 <= i < held.len() && counts_as_accepted(#[trigger] outcomes_a[i], digest_a) ==> held[i] == Some(digest_a),
        forall|i: int| 0 <= i < held.len() && counts_as_accepted(#[trigger] outcomes_b[i], digest_b) ==> held[i] == Some(digest_b),
        claim_wins(outcomes_a, digest_a, quorum),
        claim_wins(outcomes_b, digest_b, quorum),
    ensures
        digest_a == digest_b,
{
    lemma_acceptances_are_holdings(outcomes_a, held, digest_a);
    lemma_acceptances_are_holdings(outcomes_b, held, digest_b);
    lemma_at_most_one_claim_wins(held, quorum, digest_a, digest_b);
}

/// Acceptances and refusals of one claim never outnumber the members that
/// answered: no member is counted twice.
pub proof fn lemma_claim_counts_bounded(outcomes: Seq<MemberClaimOutcome>, ours: Seq<u8>)
    ensures
        accepted_count(outcomes, ours) + refused_count(outcomes, ours) <= outcomes.len(),
{
    lemma_counts_bounded(outcomes, ours);
}

/// The text of a slot claim error.
pub open spec fn slot_claim_error_text(e: SlotClaimError) -> Seq<char> {
    match e {
        SlotClaimError::StorageUnavailable { accepted, total, detail } => "settlement-slot register did not reach quorum ("@
            + spec_padded_decimal(accepted as nat, 1) + "/"@ + spec_padded_decimal(total as nat, 1)
            + " accepted) and no other holder was reported \u{2014} contention is unknown, settlement must not proceed: "@
            + detail@,
        SlotClaimError::Contested { refused_by, accepted, total } => "settlement slot is held by another claim on "@
            + spec_padded_decimal(refused_by as nat, 1) + " member(s) ("@ + spec_padded_decimal(accepted as nat, 1) + "/"@
            + spec_padded_decimal(total as nat, 1) + " accepted ours); re-quote at the next sequence"@,
        SlotClaimError::EnvelopeMismatch => "frozen claim envelope does not describe the requested slot"@,
    }
}

/// A text explaining a slot claim error.
pub fn describe_slot_claim_error(e: &SlotClaimError) -> (s: String)
    ensures
        s@ == slot_claim_error_text(*e),
{
    match e {
        SlotClaimError::StorageUnavailable { accepted, total, detail } => {
            let mut m = text("settlement-slot register did not reach quorum (");
            push_padded_decimal(&mut m, *accepted as u64, 1);
            m.append("/");
            push_padded_decimal(&mut m, *total as u64, 1);
            m.append(" accepted) and no other holder was reported \u{2014} contention is unknown, settlement must not proceed: ");
            m.append(detail.as_str());
            m
        },
        SlotClaimError::Contested { refused_by, accepted, total } => {
            let mut m = text("settlement slot is held by another claim on ");
            push_padded_decimal(&mut m, *refused_by as u64, 1);
            m.append(" member(s) (");
            push_padded_decimal(&mut m, *accepted as u64, 1);
            m.append("/");
            push_padded_decimal(&mut m, *total as u64, 1);
            m.append(" accepted ours); re-quote at the next sequence");
            m
        },
        SlotClaimError::EnvelopeMismatch => text("frozen claim envelope does not describe the requested slot"),
    }
}

} // verus!
