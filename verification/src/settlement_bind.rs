//! The settle-side bind: this device's proposer id, the committed members of
//! a storage set, the durability gate on the bundle's publication, where a
//! resumed transaction's ballots start, and what a run's result means for
//! the settle path.

use vstd::prelude::*;
use crate::bytes::{copy_bytes, fixed32};
use crate::quorum_bind_runner::{CommittedMember, Outcome, RunError};

verus! {

/// Recovery ballots for one settle attempt. Spending them is not an abort:
/// the parent stays fenced and restart recovery resumes.
pub const MAX_BALLOTS: u32 = 8;

/// Why a settle could not even be driven.
#[derive(Debug, Clone, Copy, PartialEq, Eq, Structural)]
pub enum BindError {
    /// The bundle is not canonical or well-formed.
    Bundle,
    /// The bundle could not be stored at all.
    PutImmutable,
    /// The bundle reached fewer than the quorum of attributable members, so
    /// it is not durably published and the transaction must not begin.
    PublicationNotDurable { accepted: u32, required: u32, total: u32 },
    /// The transaction profile is invalid.
    Profile,
    /// The fence could not be persisted, so the transaction did not begin.
    FenceNotPersisted,
}

/// This device's proposer id: its 32-byte genesis hash, the low tiebreak of
/// every round; `None` when there is no genesis or it is not 32 bytes.
pub fn local_proposer_id(genesis_hash: Option<Vec<u8>>) -> (r: Option<[u8; 32]>)
    ensures
        r is Some <==> (genesis_hash matches Some(g) && g@.len() == 32),
        r matches Some(id) ==> (genesis_hash matches Some(g) && id@ == g@),
{
    match genesis_hash {
        Some(g) => fixed32(g.as_slice()),
        None => None,
    }
}

/// A member of a committed storage set.
#[derive(Debug)]
pub struct StorageMember {
    pub member_id: String,
    pub register_incarnation_id: [u8; 32],
    pub endpoint: String,
}

/// The committed members of a set, in the set's order: each member's id as
/// its UTF-8 bytes, and its register incarnation.
pub fn committed_members(members: &[StorageMember]) -> (r: Vec<CommittedMember>)
    ensures
        r@.len() == members@.len(),
        forall|i: int| 0 <= i < r@.len() ==> (#[trigger] r@[i]).member_id@ == vstd::utf8::encode_utf8(members@[i].member_id@)
            && r@[i].register_incarnation == members@[i].register_incarnation_id,
{
    let mut out: Vec<CommittedMember> = Vec::new();
    let mut i: usize = 0;
    while i < members.len()
        invariant
            i <= members@.len(),
            out@.len() == i,
            forall|k: int| 0 <= k < i ==> (#[trigger] out@[k]).member_id@ == vstd::utf8::encode_utf8(members@[k].member_id@)
                && out@[k].register_incarnation == members@[k].register_incarnation_id,
        decreases members@.len() - i,
    {
        let m = &members[i];
        let id = copy_bytes(m.member_id.as_str().as_bytes());
        out.push(CommittedMember { member_id: id, register_incarnation: m.register_incarnation_id });
        i = i + 1;
    }
    out
}

/// The durability gate: the bundle must have reached at least the committed
/// quorum of attributable members before anything is fenced or bound.
pub fn check_publication_durable(accepted: u32, total: u32, required: u32) -> (r: Result<(), BindError>)
    ensures
        r is Ok <==> accepted >= required,
        r is Err ==> r == Err::<(), BindError>(BindError::PublicationNotDurable { accepted, required, total }),
{
    if accepted < required {
        return Err(BindError::PublicationNotDurable { accepted, required, total });
    }
    Ok(())
}

/// Where a transaction's ballots start: above the ballot its fence persisted,
/// never from zero again; zero only for a transaction never fenced.
pub fn base_ballot(persisted: Option<u64>) -> (r: u64)
    ensures
        r == match persisted {
            Some(b) => b,
            None => 0,
        },
{
    match persisted {
        Some(b) => b,
        None => 0,
    }
}

/// What a run's result is for the settle path: a fence that could not be
/// persisted means the transaction never began; anything else is the run's
/// result, terminal or unresolved.
pub fn bind_result(out: Result<Outcome, RunError>) -> (r: Result<Result<Outcome, RunError>, BindError>)
    ensures
        out == Err::<Outcome, RunError>(RunError::FenceNotPersisted) ==> r == Err::<
            Result<Outcome, RunError>,
            BindError,
        >(BindError::FenceNotPersisted),
        out != Err::<Outcome, RunError>(RunError::FenceNotPersisted) ==> r == Ok::<
            Result<Outcome, RunError>,
            BindError,
        >(out),
{
    match out {
        Err(RunError::FenceNotPersisted) => Err(BindError::FenceNotPersisted),
        _ => Ok(out),
    }
}

/// Whether this device records the run as its own finality: only a commit.
pub fn records_own_commit(out: Result<Outcome, RunError>) -> (r: bool)
    ensures
        r <==> out == Ok::<Outcome, RunError>(Outcome::Committed),
{
    match out {
        Ok(Outcome::Committed) => true,
        _ => false,
    }
}

/// The generation a transition consumed: its successor's, less one (zero
/// stays zero).
pub fn consumed_generation(successor_generation: u64) -> (r: u64)
    ensures
        r == if successor_generation == 0 { 0 } else { (successor_generation - 1) as u64 },
{
    successor_generation.saturating_sub(1)
}

/// What recording a finality found.
#[derive(Debug)]
pub enum RecordOutcome {
    Recorded,
    AlreadyRecordedSameValue,
    /// Another value was recorded chosen at that parent: its evidence.
    Contradiction { recorded_evidence: Vec<u8> },
}

/// Whether the lineage must be quarantined: only a contradiction does that.
pub fn quarantine_needed(outcome: &RecordOutcome) -> (r: bool)
    ensures
        r <==> outcome is Contradiction,
{
    match outcome {
        RecordOutcome::Contradiction { .. } => true,
        _ => false,
    }
}


/// Where a settle's bind stands: the bundle canonicalised and its keys and
/// permitted continuation derived; the bundle put to every member and held to
/// the durability gate; the transaction begun above the persisted ballot; the
/// trader-parent fence placed; the rounds driven (each compare-exchange) and
/// their outcome recorded against the fence; this device's own commit
/// recorded; or done.
#[derive(Debug, Clone, Copy)]
pub enum BindStage {
    Derive,
    Publish,
    Begin,
    Fence,
    Drive,
    Record,
    Done(Result<Result<Outcome, RunError>, BindError>),
}

/// What the host reports of the stage it performed.
#[derive(Debug, Clone, Copy)]
pub enum BindEvent {
    /// The bundle's canonical form, key set and continuation were derived.
    Derived(bool),
    /// The bundle could not be put at all.
    PutFailed,
    /// The put reached `accepted` of `total` members attributably; the
    /// committed quorum is `required`.
    Published { accepted: u32, total: u32, required: u32 },
    /// The transaction profile was accepted.
    Begun(bool),
    /// The fence was persisted.
    FencePlaced(bool),
    /// The rounds ended with this result.
    Ran(Result<Outcome, RunError>),
    /// The own commit was recorded.
    Recorded,
}

/// The rank of a bind stage in the order they run.
pub open spec fn bind_rank(s: BindStage) -> int {
    match s {
        BindStage::Derive => 0,
        BindStage::Publish => 1,
        BindStage::Begin => 2,
        BindStage::Fence => 3,
        BindStage::Drive => 4,
        BindStage::Record => 5,
        BindStage::Done(_) => 6,
    }
}

/// Whether `event` is a report of `stage`.
pub open spec fn bind_event_fits(stage: BindStage, event: BindEvent) -> bool {
    match stage {
        BindStage::Derive => event is Derived,
        BindStage::Publish => event is PutFailed || event is Published,
        BindStage::Begin => event is Begun,
        BindStage::Fence => event is FencePlaced,
        BindStage::Drive => event is Ran,
        BindStage::Record => event is Recorded,
        BindStage::Done(_) => false,
    }
}

/// What a run's result is for the settle path, as `bind_result` computes it.
pub open spec fn spec_bind_result(out: Result<Outcome, RunError>) -> Result<Result<Outcome, RunError>, BindError> {
    if out == Err::<Outcome, RunError>(RunError::FenceNotPersisted) {
        Err(BindError::FenceNotPersisted)
    } else {
        Ok(out)
    }
}

/// The stage after `stage` on `event`. A report that is not of its stage
/// changes nothing; a finished bind stays finished.
pub open spec fn spec_bind_next(stage: BindStage, event: BindEvent) -> BindStage {
    if !bind_event_fits(stage, event) {
        stage
    } else {
        match event {
            BindEvent::Derived(ok) => if ok {
                BindStage::Publish
            } else {
                BindStage::Done(Err(BindError::Bundle))
            },
            BindEvent::PutFailed => BindStage::Done(Err(BindError::PutImmutable)),
            BindEvent::Published { accepted, total, required } => if accepted >= required {
                BindStage::Begin
            } else {
                BindStage::Done(Err(BindError::PublicationNotDurable { accepted, required, total }))
            },
            BindEvent::Begun(ok) => if ok {
                BindStage::Fence
            } else {
                BindStage::Done(Err(BindError::Profile))
            },
            BindEvent::FencePlaced(ok) => if ok {
                BindStage::Drive
            } else {
                BindStage::Done(Err(BindError::FenceNotPersisted))
            },
            BindEvent::Ran(out) => if out == Ok::<Outcome, RunError>(Outcome::Committed) {
                BindStage::Record
            } else {
                BindStage::Done(spec_bind_result(out))
            },
            BindEvent::Recorded => BindStage::Done(Ok(Ok(Outcome::Committed))),
        }
    }
}

/// Whether `event` is a report of `stage`.
pub fn event_fits(stage: BindStage, event: BindEvent) -> (r: bool)
    ensures
        r == bind_event_fits(stage, event),
{
    match stage {
        BindStage::Derive => matches!(event, BindEvent::Derived(_)),
        BindStage::Publish => matches!(event, BindEvent::PutFailed | BindEvent::Published { .. }),
        BindStage::Begin => matches!(event, BindEvent::Begun(_)),
        BindStage::Fence => matches!(event, BindEvent::FencePlaced(_)),
        BindStage::Drive => matches!(event, BindEvent::Ran(_)),
        BindStage::Record => matches!(event, BindEvent::Recorded),
        BindStage::Done(_) => false,
    }
}

/// The next stage of a settle's bind: a bundle that cannot be derived is
/// refused; a put that reached fewer than the quorum is refused before any
/// fence or round; a profile that cannot begin, or a fence that cannot be
/// persisted, ends it before any round; the rounds' result is the bind's,
/// after this device's own commit is recorded when it committed.
pub fn bind_next(stage: BindStage, event: BindEvent) -> (r: BindStage)
    ensures
        r == spec_bind_next(stage, event),
{
    if !event_fits(stage, event) {
        return stage;
    }
    match event {
        BindEvent::Derived(ok) => if ok {
            BindStage::Publish
        } else {
            BindStage::Done(Err(BindError::Bundle))
        },
        BindEvent::PutFailed => BindStage::Done(Err(BindError::PutImmutable)),
        BindEvent::Published { accepted, total, required } => match check_publication_durable(accepted, total, required) {
            Ok(()) => BindStage::Begin,
            Err(e) => BindStage::Done(Err(e)),
        },
        BindEvent::Begun(ok) => if ok {
            BindStage::Fence
        } else {
            BindStage::Done(Err(BindError::Profile))
        },
        BindEvent::FencePlaced(ok) => if ok {
            BindStage::Drive
        } else {
            BindStage::Done(Err(BindError::FenceNotPersisted))
        },
        BindEvent::Ran(out) => if records_own_commit(out) {
            BindStage::Record
        } else {
            BindStage::Done(bind_result(out))
        },
        BindEvent::Recorded => BindStage::Done(Ok(Ok(Outcome::Committed))),
    }
}

/// The stage reached from the start on `events`, in order.
pub open spec fn bind_after(events: Seq<BindEvent>) -> BindStage
    decreases events.len(),
{
    if events.len() == 0 {
        BindStage::Derive
    } else {
        spec_bind_next(bind_after(events.drop_last()), events.last())
    }
}

/// Whether the stage is past the durability gate: the transaction began, or
/// a finish that only a begun transaction reaches.
pub open spec fn past_gate(s: BindStage) -> bool {
    match s {
        BindStage::Derive | BindStage::Publish => false,
        BindStage::Done(Err(BindError::Bundle)) => false,
        BindStage::Done(Err(BindError::PutImmutable)) => false,
        BindStage::Done(Err(BindError::PublicationNotDurable { .. })) => false,
        _ => true,
    }
}

/// Whether the stage is past the fence: the rounds ran, or a finish that
/// only a fenced run reaches.
pub open spec fn past_fence(s: BindStage) -> bool {
    match s {
        BindStage::Drive | BindStage::Record => true,
        BindStage::Done(Ok(_)) => true,
        _ => false,
    }
}

/// Whether the bundle cleared the durability gate on `events`: a report of
/// the publish stage had at least the quorum accept it.
pub open spec fn durably_published(events: Seq<BindEvent>) -> bool {
    exists|i: int|
        0 <= i < events.len() && #[trigger] bind_after(events.take(i)) == BindStage::Publish && (events[i] matches BindEvent::Published {
            accepted,
            required,
            ..
        } && accepted >= required)
}

/// Whether the run on `events` persisted the fence: some report of the
/// fence stage said so.
pub open spec fn fence_persisted(events: Seq<BindEvent>) -> bool {
    exists|i: int|
        0 <= i < events.len() && #[trigger] bind_after(events.take(i)) == BindStage::Fence && events[i]
            == BindEvent::FencePlaced(true)
}

/// The stages only move forward.
pub proof fn lemma_bind_rank_grows(stage: BindStage, event: BindEvent)
    ensures
        bind_rank(spec_bind_next(stage, event)) >= bind_rank(stage),
        stage is Done ==> spec_bind_next(stage, event) == stage,
{
}

/// Along a run the stages only move forward.
pub proof fn lemma_bind_after_grows(events: Seq<BindEvent>, i: int, j: int)
    requires
        0 <= i <= j <= events.len(),
    ensures
        bind_rank(bind_after(events.take(i))) <= bind_rank(bind_after(events.take(j))),
        bind_after(events.take(i)) is Done ==> bind_after(events.take(j)) == bind_after(events.take(i)),
    decreases j - i,
{
    if i < j {
        lemma_bind_after_grows(events, i, j - 1);
        let pre = events.take(j);
        assert(pre.drop_last() =~= events.take(j - 1));
        assert(pre.last() == events[j - 1]);
        lemma_bind_rank_grows(bind_after(events.take(j - 1)), events[j - 1]);
    }
}

/// The durability gate comes before the fence and the fence before any
/// round: a bind that began its transaction had the bundle accepted by at
/// least the quorum first, and one whose rounds ran (every compare-exchange,
/// and every result but a refusal) persisted the fence first.
pub proof fn lemma_gate_then_fence_then_rounds(events: Seq<BindEvent>)
    ensures
        past_gate(bind_after(events)) ==> durably_published(events),
        past_fence(bind_after(events)) ==> fence_persisted(events),
    decreases events.len(),
{
    if events.len() > 0 {
        let pre = events.drop_last();
        lemma_gate_then_fence_then_rounds(pre);
        assert forall|i: int| 0 <= i <= pre.len() implies #[trigger] events.take(i) == pre.take(i) by {
            assert(events.take(i) =~= pre.take(i));
        }
        assert(events.take(pre.len() as int) =~= pre);
        if past_gate(bind_after(events)) {
            if durably_published(pre) {
                let i = choose|i: int|
                    0 <= i < pre.len() && #[trigger] bind_after(pre.take(i)) == BindStage::Publish && (pre[i] matches BindEvent::Published {
                        accepted,
                        required,
                        ..
                    } && accepted >= required);
                assert(events.take(i) == pre.take(i));
                assert(bind_after(events.take(i)) == BindStage::Publish);
            } else {
                let i = pre.len() as int;
                assert(bind_after(events.take(i)) == BindStage::Publish);
            }
        }
        if past_fence(bind_after(events)) {
            if fence_persisted(pre) {
                let i = choose|i: int|
                    0 <= i < pre.len() && #[trigger] bind_after(pre.take(i)) == BindStage::Fence && pre[i]
                        == BindEvent::FencePlaced(true);
                assert(events.take(i) == pre.take(i));
                assert(bind_after(events.take(i)) == BindStage::Fence);
            } else {
                let i = pre.len() as int;
                assert(bind_after(events.take(i)) == BindStage::Fence);
            }
        }
    }
}

/// A bundle that reached fewer than the quorum is refused as not durable,
/// with the counts the put reported, and the bind never reaches the fence or
/// a round: whatever is reported after, it stays refused.
pub proof fn lemma_below_quorum_refuses_before_any_fence(events: Seq<BindEvent>, i: int)
    requires
        0 <= i < events.len(),
        bind_after(events.take(i)) == BindStage::Publish,
        events[i] matches BindEvent::Published { accepted, required, .. } && accepted < required,
    ensures
        events[i] matches BindEvent::Published { accepted, total, required } && bind_after(events) == BindStage::Done(
            Err(BindError::PublicationNotDurable { accepted, required, total }),
        ),
        forall|j: int| 0 <= j <= events.len() ==> bind_rank(#[trigger] bind_after(events.take(j))) != 3 && bind_rank(
            bind_after(events.take(j)),
        ) != 4,
{
    let t = events.take(i + 1);
    assert(t.drop_last() =~= events.take(i));
    assert(t.last() == events[i]);
    assert(bind_after(t) is Done);
    assert(events.take(events.len() as int) =~= events);
    lemma_bind_after_grows(events, i + 1, events.len() as int);
    assert forall|j: int| 0 <= j <= events.len() implies bind_rank(#[trigger] bind_after(events.take(j))) != 3
        && bind_rank(bind_after(events.take(j))) != 4 by {
        if j <= i {
            lemma_bind_after_grows(events, j, i);
        } else {
            lemma_bind_after_grows(events, i + 1, j);
        }
    }
}

} // verus!
