//! Restart reconstruction of a fenced settlement: the transaction is rebuilt
//! from the fetched bundle and the fence alone, and every identity the bundle
//! carries is checked against the fence before it is driven.

use vstd::prelude::*;
use crate::bytes::{bytes_eq, fixed32};
use crate::quorum_bind_runner::{CommittedMember, FenceRecovery, Outcome, RunError};

verus! {

/// Why a fenced settlement could not be reconstructed. Every refusal leaves
/// the fence in place for a later pass.
#[derive(Debug, Clone, Copy, PartialEq, Eq, Structural)]
pub enum ResumeError {
    /// The fetched bytes are not a canonical settlement bundle.
    BundleDecode,
    /// The bytes do not hash to the fence's committed digest.
    DigestMismatch,
    /// The bytes' content address is not the fence's value address.
    AddrMismatch,
    /// The bundle's parent disagrees with the fenced parent.
    ParentMismatch,
    /// The bundle's key set could not be derived.
    KeySet,
}

/// The state of a trader-parent fence.
#[derive(Debug, Clone, Copy, PartialEq, Eq, Structural)]
pub enum FenceState {
    Fenced,
    Committed,
    Released,
}

/// A persisted trader-parent fence.
#[derive(Debug, Clone, Copy)]
pub struct TraderFence {
    pub trader_chain_id: [u8; 32],
    pub trader_parent_state_commitment: [u8; 32],
    pub tx_id: [u8; 32],
    pub ballot: u64,
    pub storage_set_id: [u8; 32],
    pub value_addr: [u8; 32],
    pub state: FenceState,
    pub insertion_ordinal: u64,
}

/// What decoding the fetched bytes established about the bundle: its digest
/// and content address over exactly those bytes, the parent it names (the
/// trader's parent for a market bundle, the consumed vault parent for an
/// owner close; `None` when it names neither), its key set, and the
/// continuation a commit permits.
#[derive(Debug)]
pub struct BundleFacts {
    pub digest: [u8; 32],
    pub addr: [u8; 32],
    pub parent: Option<[u8; 32]>,
    pub key_set: Option<Vec<[u8; 32]>>,
    pub permitted_continuation: Option<[u8; 32]>,
}

/// A binding transaction: the proposer, the committed members and quorum,
/// the keys, the transaction's identities, and the ballot it starts above.
#[derive(Debug)]
pub struct BindingTransaction {
    pub proposer_id: [u8; 32],
    pub members: Vec<CommittedMember>,
    pub quorum: u32,
    pub keys: Vec<[u8; 32]>,
    pub tx_id: [u8; 32],
    pub value_addr: [u8; 32],
    pub value_digest: [u8; 32],
    pub base_ballot: u64,
}

/// The rebuilt inputs of a resumed transaction.
#[derive(Debug)]
pub struct Reconstructed {
    pub transaction: BindingTransaction,
    pub trader_successor: [u8; 32],
    pub keys: Vec<[u8; 32]>,
}

/// Which refusal reconstruction gives, if any, in the order the checks run:
/// the decode, the digest, the address, the parent, the key set, the
/// continuation.
pub open spec fn spec_resume_refusal(fence: TraderFence, facts: Option<BundleFacts>) -> Option<ResumeError> {
    match facts {
        None => Some(ResumeError::BundleDecode),
        Some(f) => if f.digest != fence.tx_id {
            Some(ResumeError::DigestMismatch)
        } else if f.addr != fence.value_addr {
            Some(ResumeError::AddrMismatch)
        } else if f.parent is None {
            Some(ResumeError::BundleDecode)
        } else if f.parent->0 != fence.trader_parent_state_commitment {
            Some(ResumeError::ParentMismatch)
        } else if f.key_set is None {
            Some(ResumeError::KeySet)
        } else if f.permitted_continuation is None {
            Some(ResumeError::BundleDecode)
        } else {
            None
        },
    }
}

fn same32(a: &[u8; 32], b: &[u8; 32]) -> (r: bool)
    ensures
        r == (*a == *b),
{
    let r = bytes_eq(a.as_slice(), b.as_slice());
    proof {
        if r {
            assert(*a =~= *b);
        }
    }
    r
}

/// Rebuild the transaction from what the fetched bundle established and the
/// fence: a wrong, stale or tampered bundle is refused rather than driven.
/// The resumed transaction starts above the fence's persisted ballot, and
/// its digest is the fence's transaction id (one bundle is one transaction).
pub fn reconstruct(
    fence: &TraderFence,
    facts: Option<BundleFacts>,
    members: Vec<CommittedMember>,
    quorum: u32,
    proposer_id: [u8; 32],
) -> (r: Result<Reconstructed, ResumeError>)
    ensures
        match spec_resume_refusal(*fence, facts) {
            Some(e) => r == Err::<Reconstructed, ResumeError>(e),
            None => r matches Ok(rc) && ({
                let f = facts->0;
                &&& rc.trader_successor == f.permitted_continuation->0
                &&& rc.keys@ == f.key_set->0@
                &&& rc.transaction.keys@ == f.key_set->0@
                &&& rc.transaction.proposer_id == proposer_id
                &&& rc.transaction.members == members
                &&& rc.transaction.quorum == quorum
                &&& rc.transaction.tx_id == fence.tx_id
                &&& rc.transaction.value_addr == fence.value_addr
                &&& rc.transaction.value_digest == fence.tx_id
                &&& rc.transaction.base_ballot == fence.ballot
            }),
        },
{
    let f = match facts {
        Some(f) => f,
        None => return Err(ResumeError::BundleDecode),
    };
    if !same32(&f.digest, &fence.tx_id) {
        return Err(ResumeError::DigestMismatch);
    }
    if !same32(&f.addr, &fence.value_addr) {
        return Err(ResumeError::AddrMismatch);
    }
    let parent = match f.parent {
        Some(p) => p,
        None => return Err(ResumeError::BundleDecode),
    };
    if !same32(&parent, &fence.trader_parent_state_commitment) {
        return Err(ResumeError::ParentMismatch);
    }
    let keys = match f.key_set {
        Some(k) => k,
        None => return Err(ResumeError::KeySet),
    };
    let trader_successor = match f.permitted_continuation {
        Some(s) => s,
        None => return Err(ResumeError::BundleDecode),
    };
    let mut tx_keys: Vec<[u8; 32]> = Vec::new();
    let mut i: usize = 0;
    while i < keys.len()
        invariant
            i <= keys@.len(),
            tx_keys@ == keys@.subrange(0, i as int),
        decreases keys@.len() - i,
    {
        tx_keys.push(keys[i]);
        proof {
            assert(keys@.subrange(0, i + 1) =~= keys@.subrange(0, i as int).push(keys@[i as int]));
        }
        i = i + 1;
    }
    proof {
        assert(keys@.subrange(0, keys@.len() as int) =~= keys@);
    }
    let transaction = BindingTransaction {
        proposer_id,
        members,
        quorum,
        keys: tx_keys,
        tx_id: fence.tx_id,
        value_addr: fence.value_addr,
        value_digest: f.digest,
        base_ballot: fence.ballot,
    };
    Ok(Reconstructed { transaction, trader_successor, keys })
}

/// This device's proposer id for a resumed transaction: its 32-byte device
/// id; `None` when there is none or it is not 32 bytes.
pub fn proposer_id(device_id: Option<Vec<u8>>) -> (r: Option<[u8; 32]>)
    ensures
        r is Some <==> (device_id matches Some(d) && d@.len() == 32),
        r matches Some(id) ==> id@ == device_id->0@,
{
    match device_id {
        Some(d) => fixed32(d.as_slice()),
        None => None,
    }
}

/// How many fences a restart pass left unresolved.
pub fn count_unresolved(recoveries: &[FenceRecovery]) -> (r: usize)
    ensures
        r == recoveries@.filter(|f: FenceRecovery| !f.resolved).len(),
{
    let mut n: usize = 0;
    let mut i: usize = 0;
    while i < recoveries.len()
        invariant
            i <= recoveries@.len(),
            n == recoveries@.subrange(0, i as int).filter(|f: FenceRecovery| !f.resolved).len(),
            n <= i,
        decreases recoveries@.len() - i,
    {
        proof {
            let sub = recoveries@.subrange(0, i + 1);
            assert(sub.drop_last() =~= recoveries@.subrange(0, i as int));
            assert(sub.last() == recoveries@[i as int]);
            recoveries@.subrange(0, i as int).lemma_filter_push(recoveries@[i as int], |f: FenceRecovery| !f.resolved);
            assert(sub =~= recoveries@.subrange(0, i as int).push(recoveries@[i as int]));
        }
        if !recoveries[i].resolved {
            n = n + 1;
        }
        i = i + 1;
    }
    proof {
        assert(recoveries@.subrange(0, recoveries@.len() as int) =~= recoveries@);
    }
    n
}

/// Where the resumption of one fenced settlement stands: resolve its storage
/// set, know this device's proposer id, fetch the bundle, reconstruct the
/// transaction, run it, record this device's own commit; or done, `true`
/// exactly when a terminal outcome was reached.
#[derive(Debug, Clone, Copy, PartialEq, Eq, Structural)]
pub enum ResumeStage {
    ResolveSet,
    ReadProposer,
    FetchBundle,
    Reconstruct,
    Run,
    RecordCommit,
    Done(bool),
}

/// What the host reports of the stage it performed.
#[derive(Debug, Clone, Copy)]
pub enum ResumeEvent {
    /// The stage's lookup, fetch or reconstruction succeeded.
    Succeeded,
    /// It failed: the fence stays for a later pass.
    Failed,
    /// The fenced run ended.
    Ran(Result<Outcome, RunError>),
    /// This device's own commit was recorded (or its recording was tried).
    Recorded,
}

/// The stage after `stage` on `event`. Any failure before or in the run ends
/// the resumption unresolved; a run that ends at all is terminal; a commit is
/// this device's own finality too and is recorded before the end. An event
/// that does not belong to the stage is a failure.
pub open spec fn spec_resume_next(stage: ResumeStage, event: ResumeEvent) -> ResumeStage {
    match stage {
        ResumeStage::ResolveSet => match event {
            ResumeEvent::Succeeded => ResumeStage::ReadProposer,
            ResumeEvent::Failed => ResumeStage::Done(false),
            _ => ResumeStage::Done(false),
        },
        ResumeStage::ReadProposer => match event {
            ResumeEvent::Succeeded => ResumeStage::FetchBundle,
            ResumeEvent::Failed => ResumeStage::Done(false),
            _ => ResumeStage::Done(false),
        },
        ResumeStage::FetchBundle => match event {
            ResumeEvent::Succeeded => ResumeStage::Reconstruct,
            ResumeEvent::Failed => ResumeStage::Done(false),
            _ => ResumeStage::Done(false),
        },
        ResumeStage::Reconstruct => match event {
            ResumeEvent::Succeeded => ResumeStage::Run,
            ResumeEvent::Failed => ResumeStage::Done(false),
            _ => ResumeStage::Done(false),
        },
        ResumeStage::Run => match event {
            ResumeEvent::Ran(Ok(Outcome::Committed)) => ResumeStage::RecordCommit,
            ResumeEvent::Ran(Ok(_)) => ResumeStage::Done(true),
            ResumeEvent::Ran(Err(_)) => ResumeStage::Done(false),
            _ => ResumeStage::Done(false),
        },
        ResumeStage::RecordCommit => match event {
            ResumeEvent::Recorded => ResumeStage::Done(true),
            _ => ResumeStage::Done(false),
        },
        ResumeStage::Done(b) => ResumeStage::Done(b),
    }
}

/// The next stage of a resumption.
pub fn resume_next(stage: ResumeStage, event: ResumeEvent) -> (r: ResumeStage)
    ensures
        r == spec_resume_next(stage, event),
{
    match stage {
        ResumeStage::ResolveSet => match event {
            ResumeEvent::Succeeded => ResumeStage::ReadProposer,
            ResumeEvent::Failed => ResumeStage::Done(false),
            _ => ResumeStage::Done(false),
        },
        ResumeStage::ReadProposer => match event {
            ResumeEvent::Succeeded => ResumeStage::FetchBundle,
            ResumeEvent::Failed => ResumeStage::Done(false),
            _ => ResumeStage::Done(false),
        },
        ResumeStage::FetchBundle => match event {
            ResumeEvent::Succeeded => ResumeStage::Reconstruct,
            ResumeEvent::Failed => ResumeStage::Done(false),
            _ => ResumeStage::Done(false),
        },
        ResumeStage::Reconstruct => match event {
            ResumeEvent::Succeeded => ResumeStage::Run,
            ResumeEvent::Failed => ResumeStage::Done(false),
            _ => ResumeStage::Done(false),
        },
        ResumeStage::Run => match event {
            ResumeEvent::Ran(Ok(Outcome::Committed)) => ResumeStage::RecordCommit,
            ResumeEvent::Ran(Ok(_)) => ResumeStage::Done(true),
            ResumeEvent::Ran(Err(_)) => ResumeStage::Done(false),
            _ => ResumeStage::Done(false),
        },
        ResumeStage::RecordCommit => match event {
            ResumeEvent::Recorded => ResumeStage::Done(true),
            _ => ResumeStage::Done(false),
        },
        ResumeStage::Done(b) => ResumeStage::Done(b),
    }
}

/// The stage a resumption reaches from the start on `events`, in order.
pub open spec fn resume_after(events: Seq<ResumeEvent>) -> ResumeStage
    decreases events.len(),
{
    if events.len() == 0 {
        ResumeStage::ResolveSet
    } else {
        spec_resume_next(resume_after(events.drop_last()), events.last())
    }
}

/// Whether an event is a run that ended with an outcome.
pub open spec fn is_finished_run(e: ResumeEvent) -> bool {
    e matches ResumeEvent::Ran(Ok(_))
}

/// The stages a resumption passes in order, by rank.
pub open spec fn stage_rank(s: ResumeStage) -> int {
    match s {
        ResumeStage::ResolveSet => 0,
        ResumeStage::ReadProposer => 1,
        ResumeStage::FetchBundle => 2,
        ResumeStage::Reconstruct => 3,
        ResumeStage::Run => 4,
        ResumeStage::RecordCommit => 5,
        ResumeStage::Done(_) => 6,
    }
}

/// A resumption reaches a terminal outcome only through a run that ended:
/// whenever it is done with `true` (or recording its commit), some event was
/// a run's `Ok`, preceded by the set, the proposer id, the bundle and the
/// reconstruction, each in that order. Once done, it stays done.
pub proof fn lemma_resumption_resolves_only_through_a_run(events: Seq<ResumeEvent>)
    ensures
        (resume_after(events) == ResumeStage::Done(true) || resume_after(events) == ResumeStage::RecordCommit)
            ==> exists|i: int| 0 <= i < events.len() && is_finished_run(#[trigger] events[i])
                && resume_after(events.take(i)) == ResumeStage::Run,
        stage_rank(resume_after(events)) >= 4 && resume_after(events) != ResumeStage::Done(false)
            ==> exists|i: int| 0 <= i <= events.len() && resume_after(#[trigger] events.take(i)) == ResumeStage::Run,
    decreases events.len(),
{
    if events.len() > 0 {
        let pre = events.drop_last();
        lemma_resumption_resolves_only_through_a_run(pre);
        assert(events.take(events.len() - 1) =~= pre);
        let st = resume_after(pre);
        let cur = resume_after(events);
        if cur == ResumeStage::Done(true) || cur == ResumeStage::RecordCommit {
            if st == ResumeStage::Run {
                let i = events.len() - 1;
                assert(events[i] == events.last());
            } else {
                assert(st == ResumeStage::Done(true) || st == ResumeStage::RecordCommit);
                let i = choose|i: int| 0 <= i < pre.len() && is_finished_run(#[trigger] pre[i])
                    && resume_after(pre.take(i)) == ResumeStage::Run;
                assert(events[i] == pre[i]);
                assert(events.take(i) =~= pre.take(i));
            }
        }
        if stage_rank(cur) >= 4 && cur != ResumeStage::Done(false) {
            if st == ResumeStage::Run || (stage_rank(st) >= 4 && st != ResumeStage::Done(false)) {
                if st == ResumeStage::Run {
                    assert(resume_after(events.take(events.len() - 1)) == ResumeStage::Run);
                } else {
                    let i = choose|i: int| 0 <= i <= pre.len() && resume_after(#[trigger] pre.take(i)) == ResumeStage::Run;
                    assert(events.take(i) =~= pre.take(i));
                }
            } else {
                assert(st == ResumeStage::Reconstruct);
                assert(cur == ResumeStage::Run);
                assert(events.take(events.len() as int) =~= events);
            }
        }
    }
}

/// A committed run records this device's own commit before the resumption
/// ends; any other run that ended is terminal at once; a run that could not
/// finish leaves the fence.
pub proof fn lemma_commit_is_recorded_before_the_end(e: Result<Outcome, RunError>)
    ensures
        e == Ok::<Outcome, RunError>(Outcome::Committed) ==> spec_resume_next(ResumeStage::Run, ResumeEvent::Ran(e)) == ResumeStage::RecordCommit,
        e matches Ok(o) && o != Outcome::Committed ==> spec_resume_next(ResumeStage::Run, ResumeEvent::Ran(e)) == ResumeStage::Done(true),
        e is Err ==> spec_resume_next(ResumeStage::Run, ResumeEvent::Ran(e)) == ResumeStage::Done(false),
{
}

} // verus!
