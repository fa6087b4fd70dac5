use dsm_sdk::error::{text, ErrorKind, SdkError};
use dsm_sdk::identity_presentation::{check_rederived_identity, take32, PresentationKind};
use dsm_sdk::identity_publication::{
    check_rederived_device, holders_of_read_back, is_identity_ready, own_entry_step, publication_record,
    DirectoryPublication, EntryIdentity, OwnEntryStep, PublicationLedger, PublicationState,
};
use dsm_sdk::kyber_identity::{as_array_32, binding_identity, cached_kyber_key, check_kyber_public_key, KYBER_PUBLIC_KEY_BYTES};
use dsm_sdk::leaf_cache::{compare_keys, insert_key_sorted, post_leaf_cache};
use dsm_sdk::native_reserve::{check_release_request, release_is_ours, RESERVE_WALK_BUDGET};
use dsm_sdk::producers::{
    check_consumption_inputs, check_leaf_proves_into_root, check_leaf_states_settlement, ReceiptLeaf,
    RESERVE_CONSUMPTION_LABEL,
};
use dsm_sdk::quorum_bind_runner::{
    attribute_read, cas_answer, counts_for, fence_event, next_recovery_attempt, Backoff, CasOutcome,
    CommittedMember, FenceEvent, MemberCas, MemberRead, Outcome, RunError, TransportCas, TransportRead,
};
use dsm_sdk::recovery_store::{check_put_taken, merge_cell_reads};
use dsm_sdk::route_commit::{external_commitment_key, external_commitment_rc_key, vault_pending_pointer_key, vault_pending_prefix};
use dsm_sdk::runtime_config::{parse_bitcoin_network, BitcoinNetwork, RuntimeConfig};
use dsm_sdk::settlement_bind::{
    bind_next, event_fits, BindEvent, BindStage,
    base_ballot, bind_result, check_publication_durable, committed_members, consumed_generation,
    local_proposer_id, quarantine_needed, records_own_commit, BindError, RecordOutcome, StorageMember, MAX_BALLOTS,
};
use dsm_sdk::settlement_receipt_codec::SettledTrade;
use dsm_sdk::settlement_slot::{
    check_claim_envelope, describe_slot_claim_error, strict_majority, tally_slot_claim, ClaimBodyIdentity,
    MemberClaimOutcome, MemberClaimResult, SlotClaimError,
};
use dsm_sdk::signing_authority::{current_keypair, derive_current_keypair, genesis_from_app_state, signing_inputs};
use dsm_sdk::text_id::{encode_base32_crockford, push_padded_decimal};
use dsm_sdk::wire_amount::{u128_from_be_bytes, u128_to_be_bytes, wire_amount_to_u64, WireAmountError};

// ── text ids and storage keys ──

#[test]
fn crockford_base32_known_values() {
    assert_eq!(encode_base32_crockford(b"f"), "CR");
    assert_eq!(encode_base32_crockford(&[0xFF]), "ZW");
    assert_eq!(encode_base32_crockford(&[]), "");
    assert_eq!(encode_base32_crockford(&[0u8; 32]), "0".repeat(52));
    assert_eq!(encode_base32_crockford(&[0x00, 0x44, 0x32, 0x14, 0xC7]), "01234567");
}

#[test]
fn padded_decimals() {
    let mut s = String::from("n=");
    push_padded_decimal(&mut s, 42, 5);
    assert_eq!(s, "n=00042");
    let mut z = String::new();
    push_padded_decimal(&mut z, 0, 1);
    assert_eq!(z, "0");
    let mut wide = String::new();
    push_padded_decimal(&mut wide, 123456, 3);
    assert_eq!(wide, "123456");
}

#[test]
fn route_storage_keys() {
    let x = [0u8; 32];
    let zeros = "0".repeat(52);
    assert_eq!(external_commitment_key(&x), format!("sofi/extcommit/{zeros}"));
    assert_eq!(external_commitment_rc_key(&x), format!("sofi/extcommit-rc/{zeros}"));
    assert_eq!(vault_pending_prefix(&x), format!("sofi/vault-pending/{zeros}/"));
    assert_eq!(
        vault_pending_pointer_key(&x, 42, &x),
        format!("sofi/vault-pending/{zeros}/0000000000000042/{zeros}")
    );
    // The padding makes the lexical order the sequence order.
    assert!(vault_pending_pointer_key(&x, 9, &x) < vault_pending_pointer_key(&x, 10, &x));
}

// ── wire amounts ──

#[test]
fn wire_amounts_are_16_byte_big_endian() {
    assert_eq!(u128_to_be_bytes(258), [0u8; 14].iter().copied().chain([1u8, 2u8]).collect::<Vec<u8>>());
    assert_eq!(u128_from_be_bytes(&u128_to_be_bytes(0xDEAD_BEEF)), 0xDEAD_BEEF);
    assert_eq!(wire_amount_to_u64(&u128_to_be_bytes(970)), Ok(970));
    assert_eq!(wire_amount_to_u64(&[0u8; 8]), Err(WireAmountError::NotSixteenBytes));
    assert_eq!(
        wire_amount_to_u64(&(u128::from(u64::MAX) + 1).to_be_bytes()),
        Err(WireAmountError::ExceedsU64)
    );
    assert_eq!(wire_amount_to_u64(&u128::from(u64::MAX).to_be_bytes()), Ok(u64::MAX));
}

// ── the leaf cache ──

#[test]
fn the_leaf_cache_is_one_sorted_entry_per_key() {
    assert_eq!(compare_keys(&[1; 32], &[2; 32]), -1);
    assert_eq!(compare_keys(&[2; 32], &[1; 32]), 1);
    assert_eq!(compare_keys(&[2; 32], &[2; 32]), 0);
    let current = vec![
        ([3u8; 32], [30u8; 32], vec![3]),
        ([1u8; 32], [10u8; 32], vec![1]),
        ([3u8; 32], [31u8; 32], vec![33]),
    ];
    let post = [([2u8; 32], Some(([20u8; 32], vec![2]))), ([1u8; 32], None)];
    let out = post_leaf_cache(&current, &post);
    assert_eq!(out, vec![([2u8; 32], [20u8; 32], vec![2]), ([3u8; 32], [31u8; 32], vec![33])]);
    let mut keys = vec![[1u8; 32], [5u8; 32]];
    insert_key_sorted(&mut keys, [3u8; 32]);
    insert_key_sorted(&mut keys, [5u8; 32]);
    assert_eq!(keys, vec![[1u8; 32], [3u8; 32], [5u8; 32]]);
}

// ── the quorum-bind runner ──

fn member() -> CommittedMember {
    CommittedMember { member_id: b"dsm-node-1".to_vec(), register_incarnation: [4; 32] }
}

#[test]
fn only_an_exact_echo_counts_for_a_member() {
    let m = member();
    assert!(counts_for(&m, &Some(b"dsm-node-1".to_vec()), Some([4; 32])));
    assert!(!counts_for(&m, &Some(b"dsm-node-2".to_vec()), Some([4; 32])));
    assert!(!counts_for(&m, &Some(b"dsm-node-1".to_vec()), Some([5; 32])));
    assert!(!counts_for(&m, &None, Some([4; 32])));
    let read = attribute_read(&m, TransportRead { echoed_member_id: Some(b"dsm-node-1".to_vec()), echoed_incarnation: Some([4; 32]), records: Some(vec![Some(7u8), None]) });
    assert!(matches!(read, MemberRead::Records(r) if r == vec![Some(7u8), None]));
    let forged = attribute_read(&m, TransportRead { echoed_member_id: Some(b"dsm-node-9".to_vec()), echoed_incarnation: Some([4; 32]), records: Some(vec![Some(7u8)]) });
    assert!(matches!(forged, MemberRead::Unavailable));
    let cas = TransportCas { echoed_member_id: Some(b"dsm-node-1".to_vec()), echoed_incarnation: Some([4; 32]), outcome: Some(CasOutcome::ExpectationMismatch) };
    assert_eq!(cas_answer(&m, &cas), MemberCas::ExpectationMismatch);
    let unauth = TransportCas { echoed_member_id: None, echoed_incarnation: Some([4; 32]), outcome: Some(CasOutcome::Applied) };
    assert_eq!(cas_answer(&m, &unauth), MemberCas::Unavailable);
}

#[test]
fn the_backoff_doubles_up_to_its_cap() {
    let b = Backoff::default();
    assert_eq!((b.base_ms, b.max_ms), (20, 2000));
    assert_eq!(b.delay_cap_ms(0), 20);
    assert_eq!(b.delay_cap_ms(3), 160);
    assert_eq!(b.delay_cap_ms(6), 1280);
    assert_eq!(b.delay_cap_ms(7), 2000);
    assert_eq!(b.delay_cap_ms(40), 2000);
    let big = Backoff { base_ms: 1, max_ms: u64::MAX };
    assert_eq!(big.delay_cap_ms(30), 65536, "at most sixteen doublings");
}

#[test]
fn the_ballot_budget_and_the_fence_events() {
    assert_eq!(next_recovery_attempt(0, MAX_BALLOTS), Some(1));
    assert_eq!(next_recovery_attempt(MAX_BALLOTS, MAX_BALLOTS), None);
    assert!(matches!(fence_event(Ok(Outcome::Committed), [9; 32]), FenceEvent::Committed { successor } if successor == [9; 32]));
    assert!(matches!(fence_event(Ok(Outcome::Invalid), [9; 32]), FenceEvent::Aborted));
    assert!(matches!(fence_event(Ok(Outcome::ConflictFinal), [9; 32]), FenceEvent::ConflictFinal));
    assert!(matches!(fence_event(Err(RunError::Unresolved { mutated: true }), [9; 32]), FenceEvent::Indeterminate));
}

// ── binding a settlement ──

#[test]
fn settlement_binding_decisions() {
    assert_eq!(local_proposer_id(Some(vec![7; 32])), Some([7; 32]));
    assert_eq!(local_proposer_id(Some(vec![7; 31])), None);
    assert_eq!(local_proposer_id(None), None);
    let members = committed_members(&[StorageMember { member_id: "dsm-node-1".to_string(), register_incarnation_id: [2; 32], endpoint: "https://n1".to_string() }]);
    assert_eq!(members[0].member_id, b"dsm-node-1".to_vec());
    assert_eq!(members[0].register_incarnation, [2; 32]);
    assert_eq!(check_publication_durable(2, 3, 2), Ok(()));
    assert_eq!(
        check_publication_durable(1, 3, 2),
        Err(BindError::PublicationNotDurable { accepted: 1, required: 2, total: 3 })
    );
    assert_eq!(base_ballot(Some(5)), 5);
    assert_eq!(base_ballot(None), 0);
    assert_eq!(bind_result(Err(RunError::FenceNotPersisted)), Err(BindError::FenceNotPersisted));
    assert_eq!(bind_result(Ok(Outcome::Aborted)), Ok(Ok(Outcome::Aborted)));
    assert!(records_own_commit(Ok(Outcome::Committed)));
    assert!(!records_own_commit(Ok(Outcome::ConflictFinal)));
    assert_eq!(consumed_generation(5), 4);
    assert_eq!(consumed_generation(0), 0);
    assert!(quarantine_needed(&RecordOutcome::Contradiction { recorded_evidence: vec![1] }));
    assert!(!quarantine_needed(&RecordOutcome::AlreadyRecordedSameValue));
}

// ── the settlement slot ──

fn outcome(id: &str, echo: Option<&str>, result: MemberClaimResult) -> MemberClaimOutcome {
    MemberClaimOutcome { member_id: id.to_string(), echoed_node_id: echo.map(|e| e.to_string()), result }
}

#[test]
fn a_slot_is_won_only_by_a_quorum_of_exact_acceptances() {
    let ours = [0xAA; 32];
    let outcomes = vec![
        outcome("n1", Some("n1"), MemberClaimResult::Accepted),
        outcome("n2", Some("n2"), MemberClaimResult::HeldIdentical),
        outcome("n3", Some("n3"), MemberClaimResult::Refused { held_digest: Some(ours.to_vec()) }),
    ];
    let won = tally_slot_claim(&outcomes, &ours, &[1; 32], 4, &[2; 32], 3, strict_majority(3)).expect("won");
    assert_eq!(won.accepted(), 3);
    assert_eq!(won.total(), 3);
    assert!(won.matches(&[1; 32], 4, &[2; 32]));
    assert!(!won.matches(&[1; 32], 5, &[2; 32]));
}

#[test]
fn a_slot_another_claim_holds_is_contested() {
    let ours = [0xAA; 32];
    let outcomes = vec![
        outcome("n1", Some("n1"), MemberClaimResult::Accepted),
        outcome("n2", Some("n2"), MemberClaimResult::Refused { held_digest: Some(vec![0xBB; 32]) }),
        outcome("n3", Some("n9"), MemberClaimResult::Accepted),
    ];
    match tally_slot_claim(&outcomes, &ours, &[1; 32], 4, &[2; 32], 3, 2) {
        Err(SlotClaimError::Contested { refused_by, accepted, total }) => assert_eq!((refused_by, accepted, total), (1, 1, 3)),
        other => panic!("expected contested, got {other:?}"),
    }
    let silent = vec![outcome("n1", Some("n1"), MemberClaimResult::Unavailable("timeout".to_string()))];
    let e = tally_slot_claim(&silent, &ours, &[1; 32], 4, &[2; 32], 3, 2).unwrap_err();
    assert!(matches!(e, SlotClaimError::StorageUnavailable { accepted: 0, total: 3, .. }));
    assert!(describe_slot_claim_error(&e).contains("did not reach quorum"));
    assert_eq!(strict_majority(4), 3);
    assert_eq!(strict_majority(5), 3);
}

#[test]
fn a_claim_envelope_must_name_the_slot() {
    let body = ClaimBodyIdentity { vault_id: [1; 32], parent_sequence: 4, x: [2; 32], storage_set_id: [3; 32] };
    assert!(check_claim_envelope(&body, &[1; 32], 4, &[2; 32], &[3; 32]).is_ok());
    assert!(matches!(check_claim_envelope(&body, &[1; 32], 4, &[2; 32], &[9; 32]), Err(SlotClaimError::EnvelopeMismatch)));
    assert!(check_claim_envelope(&body, &[1; 32], 5, &[2; 32], &[3; 32]).is_err());
}

// ── identity publication and presentation ──

#[test]
fn a_publication_short_of_its_quorum_stays_pending() {
    let done = DirectoryPublication { holders: 3, members: 4, required: 3 };
    assert!(done.is_published());
    assert_eq!(publication_record(&Ok(done)), (PublicationState::Published, String::new()));
    let short = DirectoryPublication { holders: 1, members: 4, required: 3 };
    assert_eq!(
        publication_record(&Ok(short)),
        (PublicationState::PublicationPending, "1/4 members hold the entry; 3 needed".to_string())
    );
    assert_eq!(
        publication_record(&Err("network down".to_string())),
        (PublicationState::PublicationPending, "network down".to_string())
    );
}

#[test]
fn readiness_follows_the_recorded_publication() {
    let mut ledger = PublicationLedger::new();
    assert!(!is_identity_ready(Ok(&ledger), "DEV1").unwrap());
    ledger.record_pending("DEV1", "1/4 members hold the entry; 3 needed");
    assert!(!is_identity_ready(Ok(&ledger), "DEV1").unwrap());
    ledger.record("DEV1", PublicationState::Published, "");
    assert!(is_identity_ready(Ok(&ledger), "DEV1").unwrap());
    assert!(!is_identity_ready(Ok(&ledger), "DEV2").unwrap());
}

#[test]
fn this_devices_own_directory_entry() {
    let g = [1u8; 32];
    let d = [2u8; 32];
    assert_eq!(own_entry_step(&None, &g, &d, &[5]).ok(), Some(OwnEntryStep::BuildAt { counter: 1 }));
    let prev = Some(EntryIdentity { genesis: g, device_id: d, kyber_public_key: vec![5], counter: 4 });
    assert_eq!(own_entry_step(&prev, &g, &d, &[5]).ok(), Some(OwnEntryStep::KeepPrevious));
    assert_eq!(own_entry_step(&prev, &g, &d, &[6]).ok(), Some(OwnEntryStep::BuildAt { counter: 5 }));
    let exhausted = Some(EntryIdentity { genesis: g, device_id: d, kyber_public_key: vec![5], counter: u64::MAX });
    assert!(own_entry_step(&exhausted, &g, &d, &[6]).is_err());
    assert!(check_rederived_device(&d, &d).is_ok());
    assert!(check_rederived_device(&g, &d).is_err());
    assert_eq!(holders_of_read_back(Some((true, 3))), 3);
    assert_eq!(holders_of_read_back(Some((false, 3))), 0);
    assert_eq!(holders_of_read_back(None), 0);
}

#[test]
fn a_presentation_must_name_this_identity() {
    assert!(check_rederived_identity(PresentationKind::AnchorPresentation, &[1; 32], &[1; 32]).is_ok());
    let e = check_rederived_identity(PresentationKind::AuthorityEvidence, &[1; 32], &[2; 32]).unwrap_err();
    assert_eq!(e.kind(), ErrorKind::Verification);
    assert!(e.detail().starts_with("authority evidence"));
    assert_eq!(take32(&[3; 32], "devid").ok(), Some([3; 32]));
    assert_eq!(take32(&[3; 3], "devid").unwrap_err().detail(), "anchor presentation: devid is not 32 bytes");
}

// ── kyber identity and the signing authority ──

#[test]
fn the_kyber_key_material_is_checked_before_binding() {
    assert_eq!(KYBER_PUBLIC_KEY_BYTES, 1184);
    assert!(check_kyber_public_key(&vec![0u8; 1184]).is_ok());
    assert!(check_kyber_public_key(&vec![0u8; 1183]).is_err());
    assert_eq!(
        check_kyber_public_key(&vec![0u8; 1185]).unwrap_err().detail(),
        "local Kyber public key must be 1184 bytes (ML-KEM-768), got 1185"
    );
    assert!(check_kyber_public_key(&[]).is_err());
    assert_eq!(cached_kyber_key(Some(vec![1, 2])), Some(vec![1, 2]));
    assert_eq!(cached_kyber_key(Some(vec![])), None);
    assert_eq!(cached_kyber_key(None), None);
    assert_eq!(as_array_32(&[1; 31], "genesis").unwrap_err().detail(), "genesis must be 32 bytes, got 31");
    assert_eq!(binding_identity(Some(vec![1; 32]), Some(vec![2; 32])).ok(), Some(([1; 32], [2; 32])));
    assert_eq!(binding_identity(None, Some(vec![2; 32])).unwrap_err().kind(), ErrorKind::InvalidState);
    assert!(binding_identity(Some(vec![1; 32]), None).is_err());
}

#[test]
fn the_signing_authority_fails_closed_while_locked() {
    assert_eq!(genesis_from_app_state(Some(vec![4; 32])).ok(), Some([4; 32]));
    assert_eq!(genesis_from_app_state(None).unwrap_err().kind(), ErrorKind::InvalidState);
    assert_eq!(genesis_from_app_state(Some(vec![4; 2])).unwrap_err().kind(), ErrorKind::InvalidParameter);
    assert_eq!(signing_inputs(Some(vec![4; 32]), Some(vec![9; 64])).ok(), Some(([4; 32], vec![9; 64])));
    assert_eq!(signing_inputs(Some(vec![4; 32]), None).unwrap_err().kind(), ErrorKind::InvalidState);
    assert_eq!(current_keypair(Ok(vec![1]), Ok(vec![2])).ok(), Some((vec![1], vec![2])));
    let locked = current_keypair(Ok(vec![1]), Err(SdkError::InvalidState(text("wallet locked")))).unwrap_err();
    assert_eq!(locked.detail(), "wallet locked");
    let first = current_keypair(Err(SdkError::Crypto(text("pk"))), Err(SdkError::InvalidState(text("sk")))).unwrap_err();
    assert_eq!(first.kind(), ErrorKind::Crypto);
}

// ── configuration, reserve, producers, recovery store ──

#[test]
fn the_bitcoin_network_falls_back_to_signet() {
    assert_eq!(parse_bitcoin_network("mainnet"), Some(BitcoinNetwork::Mainnet));
    assert_eq!(parse_bitcoin_network("Mainnet"), None);
    assert_eq!(RuntimeConfig::bitcoin_network_from(Some("testnet"), Some("mainnet")), BitcoinNetwork::Testnet);
    assert_eq!(RuntimeConfig::bitcoin_network_from(Some("bogus"), Some("mainnet")), BitcoinNetwork::Mainnet);
    assert_eq!(RuntimeConfig::bitcoin_network_from(None, Some("bogus")), BitcoinNetwork::Signet);
    assert_eq!(RuntimeConfig::bitcoin_network_from(None, None), BitcoinNetwork::Signet);
}

#[test]
fn native_reserve_release_requests() {
    assert_eq!(RESERVE_WALK_BUDGET, 4096);
    assert!(check_release_request(&[1; 32], &[1; 32], 3).is_ok());
    assert!(check_release_request(&[1; 32], &[2; 32], 3).is_err());
    assert!(check_release_request(&[1; 32], &[1; 32], 0).is_err());
    assert!(release_is_ours(b"env", b"env"));
    assert!(!release_is_ours(b"env", b"other"));
}

#[test]
fn producer_evidence_checks() {
    assert_eq!(RESERVE_CONSUMPTION_LABEL, "dlv-reserve-consumption-evidence");
    assert!(check_consumption_inputs(b"ev", &[1; 32], &[1; 32]).is_ok());
    assert!(check_consumption_inputs(b"", &[1; 32], &[1; 32]).is_err());
    assert!(check_consumption_inputs(b"ev", &[1; 32], &[2; 32]).is_err());
    let trade = SettledTrade { x: [5; 32], parent_sequence: 7, new_sequence: 8, input_policy_commit: [6; 32], input_amount: 100, output_policy_commit: [7; 32], output_amount: 97 };
    let leaf = ReceiptLeaf { vault_id: [1; 32], receipt_id: [2; 32], x: [5; 32], parent_sequence: 7, new_sequence: 8, input_policy_commit: [6; 32], input_amount: 100, output_policy_commit: [7; 32], output_amount: 97 };
    assert!(check_leaf_states_settlement(&leaf, &[1; 32], &[2; 32], &trade).is_ok());
    let other = ReceiptLeaf { output_amount: 98, ..leaf };
    assert!(check_leaf_states_settlement(&other, &[1; 32], &[2; 32], &trade).is_err());
    assert!(check_leaf_proves_into_root(&[3; 32], &[3; 32]).is_ok());
    assert!(check_leaf_proves_into_root(&[3; 32], &[4; 32]).is_err());
}

#[test]
fn a_cell_read_gathers_every_distinct_entry_any_member_holds() {
    let reads = vec![Some(vec![vec![1], vec![2]]), None, Some(vec![vec![2], vec![3]])];
    assert_eq!(merge_cell_reads(&reads).ok(), Some(vec![vec![1], vec![2], vec![3]]));
    assert_eq!(merge_cell_reads(&vec![Some(vec![]), None]).ok(), Some(vec![]));
    assert_eq!(merge_cell_reads(&vec![None, None]).unwrap_err().kind(), ErrorKind::Network);
    assert_eq!(merge_cell_reads(&vec![]).unwrap_err().kind(), ErrorKind::Network);
    assert_eq!(check_put_taken(2).ok(), Some(2));
    assert_eq!(check_put_taken(0).unwrap_err().kind(), ErrorKind::Network);
}

#[test]
fn an_unreached_quorum_explains_each_silent_or_misechoed_member() {
    let ours = [0xAA; 32];
    let outcomes = vec![
        outcome("n1", Some("n9"), MemberClaimResult::Accepted),
        outcome("n2", Some("n2"), MemberClaimResult::Accepted),
        outcome("n3", None, MemberClaimResult::HeldIdentical),
        outcome("n4", Some("n4"), MemberClaimResult::Unavailable("timeout".to_string())),
    ];
    let e = tally_slot_claim(&outcomes, &ours, &[1; 32], 4, &[2; 32], 4, 3).unwrap_err();
    match &e {
        SlotClaimError::StorageUnavailable { accepted, total, detail } => {
            assert_eq!((*accepted, *total), (1, 4));
            assert_eq!(
                detail,
                "n1: accepted but echoed Some(\"n9\") \u{2014} not counted; n3: accepted but echoed None \u{2014} not counted; n4: timeout"
            );
        }
        other => panic!("expected unavailable, got {other:?}"),
    }
    assert_eq!(
        describe_slot_claim_error(&e),
        "settlement-slot register did not reach quorum (1/4 accepted) and no other holder was reported \u{2014} contention is unknown, settlement must not proceed: n1: accepted but echoed Some(\"n9\") \u{2014} not counted; n3: accepted but echoed None \u{2014} not counted; n4: timeout"
    );
    let contested = SlotClaimError::Contested { refused_by: 2, accepted: 1, total: 5 };
    assert_eq!(
        describe_slot_claim_error(&contested),
        "settlement slot is held by another claim on 2 member(s) (1/5 accepted ours); re-quote at the next sequence"
    );
    assert_eq!(
        describe_slot_claim_error(&SlotClaimError::EnvelopeMismatch),
        "frozen claim envelope does not describe the requested slot"
    );
}

#[test]
fn an_echoed_id_is_shown_escaped() {
    let ours = [0xAA; 32];
    let outcomes = vec![outcome("n1", Some("a\"b\\c\n\u{1}"), MemberClaimResult::Accepted)];
    match tally_slot_claim(&outcomes, &ours, &[1; 32], 4, &[2; 32], 3, 2).unwrap_err() {
        SlotClaimError::StorageUnavailable { detail, .. } => {
            assert_eq!(detail, format!("n1: accepted but echoed {:?} \u{2014} not counted", Some("a\"b\\c\n\u{1}")));
        }
        other => panic!("expected unavailable, got {other:?}"),
    }
}

#[test]
fn an_unreadable_publication_row_is_an_error() {
    let e = is_identity_ready(Err("database is locked".to_string()), "DEV1").unwrap_err();
    assert_eq!(e.kind(), ErrorKind::Storage);
    assert_eq!(e.detail(), "publication state: database is locked");
}

#[test]
fn the_current_keypair_is_derived_from_the_two_signing_inputs() {
    let derive = |g: [u8; 32], s: Vec<u8>| -> Result<(Vec<u8>, Vec<u8>), SdkError> {
        let mut pk = g.to_vec();
        pk.extend_from_slice(&s);
        Ok((pk, s))
    };
    let (pk, sk) = derive_current_keypair(Some(vec![4; 32]), Some(vec![9; 2]), derive).unwrap();
    let mut expected = vec![4u8; 32];
    expected.extend_from_slice(&[9, 9]);
    assert_eq!((pk, sk), (expected, vec![9, 9]));
    let locked = derive_current_keypair(Some(vec![4; 32]), None, derive).unwrap_err();
    assert_eq!(locked.detail(), "wallet seed unavailable for canonical signing authority (wallet locked)");
    let absent = derive_current_keypair(None, Some(vec![9; 2]), derive).unwrap_err();
    assert_eq!(absent.kind(), ErrorKind::InvalidState);
    let short = derive_current_keypair(Some(vec![4; 31]), Some(vec![9; 2]), derive).unwrap_err();
    assert_eq!(short.detail(), "genesis_hash must be 32 bytes, got 31");
}

/// Runs the bind's stage machine over `events` from the start.
fn bind_run(events: &[BindEvent]) -> Vec<BindStage> {
    let mut stage = BindStage::Derive;
    let mut seen = vec![stage];
    for e in events {
        assert!(event_fits(stage, *e));
        stage = bind_next(stage, *e);
        seen.push(stage);
    }
    seen
}

#[test]
fn a_bundle_short_of_its_quorum_is_refused_before_any_fence_or_round() {
    for accepted in [0u32, 1] {
        let seen = bind_run(&[
            BindEvent::Derived(true),
            BindEvent::Published { accepted, total: 3, required: 2 },
        ]);
        assert!(seen.iter().all(|s| !matches!(s, BindStage::Fence | BindStage::Drive)));
        match seen.last().unwrap() {
            BindStage::Done(r) => {
                assert_eq!(*r, Err(BindError::PublicationNotDurable { accepted, required: 2, total: 3 }))
            }
            other => panic!("unexpected {other:?}"),
        }
    }
    assert!(!event_fits(BindStage::Publish, BindEvent::Begun(true)));
}

#[test]
fn a_settle_bind_gates_then_fences_then_runs_then_records() {
    let seen = bind_run(&[
        BindEvent::Derived(true),
        BindEvent::Published { accepted: 2, total: 3, required: 2 },
        BindEvent::Begun(true),
        BindEvent::FencePlaced(true),
        BindEvent::Ran(Ok(Outcome::Committed)),
        BindEvent::Recorded,
    ]);
    assert!(matches!(seen[2], BindStage::Begin));
    assert!(matches!(seen[3], BindStage::Fence));
    assert!(matches!(seen[4], BindStage::Drive));
    assert!(matches!(seen[5], BindStage::Record));
    assert!(matches!(seen[6], BindStage::Done(Ok(Ok(Outcome::Committed)))));
    let fenceless = bind_run(&[
        BindEvent::Derived(true),
        BindEvent::Published { accepted: 3, total: 3, required: 2 },
        BindEvent::Begun(true),
        BindEvent::FencePlaced(false),
    ]);
    assert!(matches!(fenceless[4], BindStage::Done(Err(BindError::FenceNotPersisted))));
    let unresolved = bind_run(&[
        BindEvent::Derived(true),
        BindEvent::Published { accepted: 2, total: 2, required: 2 },
        BindEvent::Begun(true),
        BindEvent::FencePlaced(true),
        BindEvent::Ran(Err(RunError::Unresolved { mutated: true })),
    ]);
    assert!(matches!(unresolved[5], BindStage::Done(Ok(Err(RunError::Unresolved { mutated: true })))));
    assert!(matches!(bind_run(&[BindEvent::Derived(false)])[1], BindStage::Done(Err(BindError::Bundle))));
    assert!(matches!(
        bind_run(&[BindEvent::Derived(true), BindEvent::PutFailed])[2],
        BindStage::Done(Err(BindError::PutImmutable))
    ));
    assert!(matches!(
        bind_run(&[BindEvent::Derived(true), BindEvent::Published { accepted: 2, total: 2, required: 2 }, BindEvent::Begun(false)])[3],
        BindStage::Done(Err(BindError::Profile))
    ));
}

#[test]
fn two_reads_of_the_current_keypair_in_one_state_agree() {
    let derive = |g: [u8; 32], s: Vec<u8>| -> Result<(Vec<u8>, Vec<u8>), SdkError> {
        let mut pk = g.to_vec();
        pk.extend_from_slice(&s);
        Ok((pk, s))
    };
    let first = derive_current_keypair(Some(vec![6; 32]), Some(vec![1, 2, 3]), derive).unwrap();
    let second = derive_current_keypair(Some(vec![6; 32]), Some(vec![1, 2, 3]), derive).unwrap();
    assert_eq!(first, second);
    let a = derive_current_keypair(Some(vec![6; 30]), Some(vec![1]), derive).unwrap_err();
    let b = derive_current_keypair(Some(vec![6; 30]), Some(vec![1]), derive).unwrap_err();
    assert_eq!((a.kind(), a.detail().clone()), (b.kind(), b.detail().clone()));
}
