use dsm_sdk::settlement_resume::{resume_next, ResumeEvent, ResumeStage};
use dsm_sdk::quorum_bind_runner::{CommittedMember, FenceKey, FenceRecovery, Outcome, RunError};
use dsm_sdk::settlement_resume::{count_unresolved, proposer_id, reconstruct, BundleFacts, FenceState, ResumeError, TraderFence};

fn members(n: u8) -> Vec<CommittedMember> {
    (0..n)
        .map(|i| CommittedMember { member_id: format!("dsm-node-{i}").into_bytes(), register_incarnation: [i; 32] })
        .collect()
}

/// What decoding a canonical market bundle established: digest, address,
/// trader parent `[0x52; 32]`, key set and continuation.
fn a_bundle() -> BundleFacts {
    BundleFacts {
        digest: [0xD1; 32],
        addr: [0xAD; 32],
        parent: Some([0x52; 32]),
        key_set: Some(vec![[0x01; 32], [0x02; 32]]),
        permitted_continuation: Some([0x5C; 32]),
    }
}

fn matching_fence() -> TraderFence {
    TraderFence {
        trader_chain_id: [0x11; 32],
        trader_parent_state_commitment: [0x52; 32],
        tx_id: [0xD1; 32],
        ballot: 5,
        storage_set_id: [0x6B; 32],
        value_addr: [0xAD; 32],
        state: FenceState::Fenced,
        insertion_ordinal: 0,
    }
}

fn refusal(fence: &TraderFence, facts: Option<BundleFacts>) -> Option<ResumeError> {
    reconstruct(fence, facts, members(3), 2, [7; 32]).err()
}

#[test]
fn reconstruct_rebuilds_the_transaction_and_keys_from_the_bundle_and_fence() {
    let fence = matching_fence();
    let r = reconstruct(&fence, Some(a_bundle()), members(3), 2, [7; 32]).unwrap();
    assert_eq!(r.keys, vec![[0x01; 32], [0x02; 32]]);
    assert_eq!(r.transaction.keys, r.keys);
    assert_eq!(r.trader_successor, [0x5C; 32]);
    assert_eq!(r.transaction.base_ballot, 5, "resumes above the persisted ballot");
    assert_eq!(r.transaction.tx_id, fence.tx_id);
    assert_eq!(r.transaction.value_addr, fence.value_addr);
    assert_eq!(r.transaction.value_digest, fence.tx_id, "value_digest = b = tx_id");
    assert_eq!(r.transaction.quorum, 2);
    assert_eq!(r.transaction.proposer_id, [7; 32]);
    assert_eq!(r.transaction.members.len(), 3);
}

#[test]
fn a_bundle_that_does_not_hash_to_the_fence_identity_is_refused() {
    let good = matching_fence();
    let mut wrong_digest = good;
    wrong_digest.tx_id = [0xFF; 32];
    assert_eq!(refusal(&wrong_digest, Some(a_bundle())), Some(ResumeError::DigestMismatch));
    let mut wrong_addr = good;
    wrong_addr.value_addr = [0xEE; 32];
    assert_eq!(refusal(&wrong_addr, Some(a_bundle())), Some(ResumeError::AddrMismatch));
    let mut wrong_parent = good;
    wrong_parent.trader_parent_state_commitment = [0xC3; 32];
    assert_eq!(refusal(&wrong_parent, Some(a_bundle())), Some(ResumeError::ParentMismatch));
    assert_eq!(refusal(&good, None), Some(ResumeError::BundleDecode));
}

#[test]
fn a_bundle_without_keys_parent_or_continuation_is_refused() {
    let good = matching_fence();
    let mut no_keys = a_bundle();
    no_keys.key_set = None;
    assert_eq!(refusal(&good, Some(no_keys)), Some(ResumeError::KeySet));
    let mut no_parent = a_bundle();
    no_parent.parent = None;
    assert_eq!(refusal(&good, Some(no_parent)), Some(ResumeError::BundleDecode));
    let mut no_next = a_bundle();
    no_next.permitted_continuation = None;
    assert_eq!(refusal(&good, Some(no_next)), Some(ResumeError::BundleDecode));
}

#[test]
fn unresolved_fences_are_counted() {
    let key = FenceKey { trader_chain_id: [1; 32], trader_parent_state_commitment: [2; 32], tx_id: [3; 32] };
    let done = FenceRecovery::of(key, true);
    let open = FenceRecovery::of(key, false);
    assert_eq!(open.tx_id, [3; 32]);
    assert_eq!(count_unresolved(&[done, open, open]), 2);
    assert_eq!(count_unresolved(&[]), 0);
}

#[test]
fn the_resumed_proposer_is_this_devices_32_byte_id() {
    assert_eq!(proposer_id(Some(vec![7; 32])), Some([7; 32]));
    assert_eq!(proposer_id(Some(vec![7; 33])), None);
    assert_eq!(proposer_id(None), None);
}

#[test]
fn a_resumption_steps_through_its_stages() {
    let mut s = ResumeStage::ResolveSet;
    for expected in [ResumeStage::ReadProposer, ResumeStage::FetchBundle, ResumeStage::Reconstruct, ResumeStage::Run] {
        s = resume_next(s, ResumeEvent::Succeeded);
        assert_eq!(s, expected);
    }
    assert_eq!(resume_next(s, ResumeEvent::Ran(Ok(Outcome::Committed))), ResumeStage::RecordCommit);
    assert_eq!(resume_next(ResumeStage::RecordCommit, ResumeEvent::Recorded), ResumeStage::Done(true));
    assert_eq!(resume_next(s, ResumeEvent::Ran(Ok(Outcome::Aborted))), ResumeStage::Done(true));
    assert_eq!(
        resume_next(s, ResumeEvent::Ran(Err(RunError::Unresolved { mutated: true }))),
        ResumeStage::Done(false)
    );
    assert_eq!(resume_next(ResumeStage::FetchBundle, ResumeEvent::Failed), ResumeStage::Done(false));
    assert_eq!(resume_next(ResumeStage::Done(false), ResumeEvent::Succeeded), ResumeStage::Done(false));
}
