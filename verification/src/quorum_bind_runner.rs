//! The decisions around the quorum-bind engine: which member answers count,
//! what a member's conditional-exchange answer is, how long to back off
//! between recovery ballots, when the ballot budget is spent, and what a
//! run's outcome records against the trader-parent fence.

use vstd::prelude::*;
use crate::bytes::bytes_eq;

verus! {

/// A member of the committed set: its id and the register incarnation it was
/// committed with.
#[derive(Debug)]
pub struct CommittedMember {
    pub member_id: Vec<u8>,
    pub register_incarnation: [u8; 32],
}

/// A member's read answer as the transport observed it, before attribution:
/// the echoed member id and register incarnation, and the per-key records in
/// key order (`None` when the transport failed or the node has no
/// established incarnation).
#[derive(Debug)]
pub struct TransportRead<R> {
    pub echoed_member_id: Option<Vec<u8>>,
    pub echoed_incarnation: Option<[u8; 32]>,
    pub records: Option<Vec<Option<R>>>,
}

/// A member's conditional-exchange answer as the transport observed it.
#[derive(Debug)]
pub struct TransportCas {
    pub echoed_member_id: Option<Vec<u8>>,
    pub echoed_incarnation: Option<[u8; 32]>,
    /// The storage outcome, or `None` when the transport failed.
    pub outcome: Option<CasOutcome>,
}

/// The storage outcomes of a conditional exchange.
#[derive(Debug, Clone, Copy, PartialEq, Eq, Structural)]
pub enum CasOutcome {
    Applied,
    ExpectationMismatch,
    InvalidStorageEncoding,
}

/// A read answer as the engine counts it.
#[derive(Debug)]
pub enum MemberRead<R> {
    Records(Vec<Option<R>>),
    Unavailable,
}

/// A conditional-exchange answer as the engine counts it.
#[derive(Debug, Clone, Copy, PartialEq, Eq, Structural)]
pub enum MemberCas {
    Applied,
    ExpectationMismatch,
    InvalidStorageEncoding,
    Unavailable,
}

/// Whether an echo authenticates the committed member: both the id and the
/// register incarnation must be echoed and match.
pub open spec fn spec_counts_for(member: CommittedMember, echoed_id: Option<Seq<u8>>, echoed_incarnation: Option<[u8; 32]>) -> bool {
    echoed_id == Some(member.member_id@) && echoed_incarnation == Some(member.register_incarnation)
}

pub open spec fn opt_view(o: Option<Vec<u8>>) -> Option<Seq<u8>> {
    match o {
        Some(v) => Some(v@),
        None => None,
    }
}

/// Whether an answer's echo authenticates the exact committed member.
pub fn counts_for(member: &CommittedMember, echoed_id: &Option<Vec<u8>>, echoed_incarnation: Option<[u8; 32]>) -> (r: bool)
    ensures
        r == spec_counts_for(*member, opt_view(*echoed_id), echoed_incarnation),
{
    let id_ok = match echoed_id {
        Some(id) => bytes_eq(id.as_slice(), member.member_id.as_slice()),
        None => false,
    };
    let inc_ok = match echoed_incarnation {
        Some(inc) => {
            let same = bytes_eq(inc.as_slice(), member.register_incarnation.as_slice());
            proof {
                if same {
                    assert(inc =~= member.register_incarnation);
                }
            }
            same
        },
        None => false,
    };
    id_ok && inc_ok
}

/// One read answer as the engine counts it: the records, when the transport
/// read them and the echo names both the committed member id and its
/// incarnation; otherwise unavailable, never an empty read, which would be
/// evidence.
pub fn attribute_read<R>(member: &CommittedMember, r: TransportRead<R>) -> (a: MemberRead<R>)
    ensures
        (r.records is Some && spec_counts_for(*member, opt_view(r.echoed_member_id), r.echoed_incarnation)) ==> a
            == MemberRead::Records(r.records->0),
        !(r.records is Some && spec_counts_for(*member, opt_view(r.echoed_member_id), r.echoed_incarnation)) ==> a
            is Unavailable,
{
    let authed = counts_for(member, &r.echoed_member_id, r.echoed_incarnation);
    match r.records {
        Some(recs) => {
            if authed {
                MemberRead::Records(recs)
            } else {
                MemberRead::Unavailable
            }
        },
        None => MemberRead::Unavailable,
    }
}

/// One conditional-exchange answer as the engine counts it: the storage
/// outcome when the echo authenticates the member; an unauthenticated or
/// failed acknowledgement is never counted, as an application or a refusal.
pub fn cas_answer(member: &CommittedMember, r: &TransportCas) -> (a: MemberCas)
    ensures
        spec_counts_for(*member, opt_view(r.echoed_member_id), r.echoed_incarnation) ==> a == match r.outcome {
            Some(CasOutcome::Applied) => MemberCas::Applied,
            Some(CasOutcome::ExpectationMismatch) => MemberCas::ExpectationMismatch,
            Some(CasOutcome::InvalidStorageEncoding) => MemberCas::InvalidStorageEncoding,
            None => MemberCas::Unavailable,
        },
        !spec_counts_for(*member, opt_view(r.echoed_member_id), r.echoed_incarnation) ==> a == MemberCas::Unavailable,
{
    let authed = counts_for(member, &r.echoed_member_id, r.echoed_incarnation);
    if !authed {
        return MemberCas::Unavailable;
    }
    match r.outcome {
        Some(CasOutcome::Applied) => MemberCas::Applied,
        Some(CasOutcome::ExpectationMismatch) => MemberCas::ExpectationMismatch,
        Some(CasOutcome::InvalidStorageEncoding) => MemberCas::InvalidStorageEncoding,
        None => MemberCas::Unavailable,
    }
}

/// Operational backoff between recovery ballots, in milliseconds. It changes
/// only when the runner retries, never which value is valid.
#[derive(Debug, Clone, Copy)]
pub struct Backoff {
    pub base_ms: u64,
    pub max_ms: u64,
}

impl Default for Backoff {
    fn default() -> (r: Self)
        ensures
            r.base_ms == 20 && r.max_ms == 2000,
    {
        Backoff { base_ms: 20, max_ms: 2000 }
    }
}

/// `2^e`.
pub open spec fn pow2(e: nat) -> nat
    decreases e,
{
    if e == 0 {
        1
    } else {
        2 * pow2((e - 1) as nat)
    }
}

/// The doubling exponent of an attempt: the attempt, at most 16.
pub open spec fn backoff_shift(attempt: u32) -> nat {
    if attempt > 16 {
        16
    } else {
        attempt as nat
    }
}

/// The cap of the delay before recovery ballot `attempt`: the base doubled
/// once per attempt (at most sixteen doublings), never above the maximum.
pub open spec fn spec_delay_cap(b: Backoff, attempt: u32) -> int {
    let scaled = b.base_ms * pow2(backoff_shift(attempt));
    if scaled < b.max_ms {
        scaled
    } else {
        b.max_ms as int
    }
}

impl Backoff {
    /// The cap of the delay before recovery ballot `attempt`, in
    /// milliseconds; the delay itself is drawn uniformly below it.
    pub fn delay_cap_ms(&self, attempt: u32) -> (r: u64)
        ensures
            r == spec_delay_cap(*self, attempt),
    {
        let shift: u32 = if attempt > 16 { 16 } else { attempt };
        let mut factor: u64 = 1;
        let mut k: u32 = 0;
        while k < shift
            invariant
                k <= shift,
                shift == backoff_shift(attempt),
                shift <= 16,
                factor == pow2(k as nat),
                factor <= 65536,
            decreases shift - k,
        {
            proof {
                lemma_pow2_bound((k + 1) as nat);
            }
            factor = factor * 2;
            k = k + 1;
        }
        let wide_base: u128 = self.base_ms as u128;
        let wide_factor: u128 = factor as u128;
        assert(wide_base * wide_factor <= 0xffff_ffff_ffff_ffffu128 * 65536) by (nonlinear_arith)
            requires
                wide_factor <= 65536,
                wide_base <= 0xffff_ffff_ffff_ffffu128,
        ;
        let scaled: u128 = wide_base * wide_factor;
        if scaled < self.max_ms as u128 {
            scaled as u64
        } else {
            self.max_ms
        }
    }
}

proof fn lemma_pow2_up_to(e: nat)
    requires
        e <= 16,
    ensures
        1 <= pow2(e) <= pow2(16),
    decreases 16 - e,
{
    lemma_pow2_pos(e);
    if e < 16 {
        lemma_pow2_up_to(e + 1);
        assert(pow2(e + 1) == 2 * pow2(e));
    }
}

proof fn lemma_pow2_pos(e: nat)
    ensures
        pow2(e) >= 1,
    decreases e,
{
    if e > 0 {
        lemma_pow2_pos((e - 1) as nat);
    }
}

proof fn lemma_pow2_bound(e: nat)
    requires
        e <= 16,
    ensures
        pow2(e) <= 65536,
        pow2(e) >= 1,
{
    lemma_pow2_up_to(e);
    reveal_with_fuel(pow2, 17);
    assert(pow2(16) == 65536);
}

/// Why a run stopped without a terminal outcome.
#[derive(Debug, Clone, Copy, PartialEq, Eq, Structural)]
pub enum RunError {
    /// The recovery-ballot budget was spent first. Indeterminate if the
    /// transaction mutated; the fence stays and recovery may resume later.
    Unresolved { mutated: bool },
    /// The fence could not be persisted, so the transaction never began.
    FenceNotPersisted,
}

/// The next recovery attempt, or `None` when the budget of `max_ballots` is
/// spent and the run stops unresolved.
pub fn next_recovery_attempt(attempt: u32, max_ballots: u32) -> (r: Option<u32>)
    requires
        attempt <= max_ballots,
    ensures
        r is None <==> attempt == max_ballots,
        r matches Some(n) ==> n == attempt + 1,
{
    if attempt >= max_ballots {
        return None;
    }
    Some(attempt + 1)
}

/// The identity of an initiating-trader parent fence: the trader's chain, its
/// parent state, and the transaction that fenced it.
#[derive(Debug, Clone, Copy)]
pub struct FenceKey {
    pub trader_chain_id: [u8; 32],
    pub trader_parent_state_commitment: [u8; 32],
    pub tx_id: [u8; 32],
}

/// What resuming one fence on restart did.
#[derive(Debug, Clone, Copy)]
pub struct FenceRecovery {
    pub trader_chain_id: [u8; 32],
    pub trader_parent_state_commitment: [u8; 32],
    pub tx_id: [u8; 32],
    /// Whether the pass drove the fence to a terminal outcome.
    pub resolved: bool,
}

impl FenceRecovery {
    /// The record of a resumed fence.
    pub fn of(key: FenceKey, resolved: bool) -> (r: FenceRecovery)
        ensures
            r.trader_chain_id == key.trader_chain_id,
            r.trader_parent_state_commitment == key.trader_parent_state_commitment,
            r.tx_id == key.tx_id,
            r.resolved == resolved,
    {
        FenceRecovery {
            trader_chain_id: key.trader_chain_id,
            trader_parent_state_commitment: key.trader_parent_state_commitment,
            tx_id: key.tx_id,
            resolved,
        }
    }
}

/// A transaction's terminal outcome.
#[derive(Debug, Clone, Copy, PartialEq, Eq, Structural)]
pub enum Outcome {
    Committed,
    Aborted,
    Invalid,
    ConflictFinal,
}

/// What a run records against its fence.
#[derive(Debug, Clone, Copy)]
pub enum FenceEvent {
    /// The value committed: the fence permits only this successor.
    Committed { successor: [u8; 32] },
    /// No value was chosen: the parent is released without advancing.
    Aborted,
    /// The conflict is final: released without advancing.
    ConflictFinal,
    /// The run stopped unresolved: the parent stays fenced.
    Indeterminate,
}

/// The event a run's result records: committed fixes the exact successor;
/// aborted and invalid release without advancing; a final conflict releases;
/// an unresolved run keeps the parent fenced.
pub fn fence_event(result: Result<Outcome, RunError>, trader_successor: [u8; 32]) -> (e: FenceEvent)
    ensures
        result == Ok::<Outcome, RunError>(Outcome::Committed) ==> (e matches FenceEvent::Committed { successor }
            && successor == trader_successor),
        (result == Ok::<Outcome, RunError>(Outcome::Aborted) || result == Ok::<Outcome, RunError>(Outcome::Invalid))
            ==> e is Aborted,
        result == Ok::<Outcome, RunError>(Outcome::ConflictFinal) ==> e is ConflictFinal,
        result is Err ==> e is Indeterminate,
{
    match result {
        Ok(Outcome::Committed) => FenceEvent::Committed { successor: trader_successor },
        Ok(Outcome::Aborted) | Ok(Outcome::Invalid) => FenceEvent::Aborted,
        Ok(Outcome::ConflictFinal) => FenceEvent::ConflictFinal,
        Err(_) => FenceEvent::Indeterminate,
    }
}

} // verus!
