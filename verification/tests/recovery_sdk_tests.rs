use dsm_sdk::error::ErrorKind;
use dsm_sdk::recovery_sdk::{
    activation_context, activation_recording_disabled, candidate_vault_ids,
    capsule_counterparty_tips, capsule_floor_from_store, capsule_floor_of, floor_of, generate_mnemonic, mnemonic_for_entropy, ContactTip,
    next_capsule_index, old_relationship_tip, old_segment_index, open_recovery_key_blob, pref32,
    recovery_candidates, require_self_id32, rollup_steps, seal_recovery_key, tombstone_hash32, HistoryRow, PostedLeaf,
    RecoverySDK,
};

fn row(id: &str, from: &str, to: &str, receipt: Option<Vec<u8>>) -> HistoryRow {
    HistoryRow {
        tx_id: id.to_string(),
        from_device: from.to_string(),
        to_device: to.to_string(),
        proof_data: receipt,
    }
}

#[test]
fn the_rollup_derives_each_peers_height_from_the_history() {
    let me = "LOCAL";
    let rows = vec![
        row("a1", me, "PEER-A", Some(vec![0x01])),
        row("n1", me, "PEER-A", None),
        row("b1", "PEER-B", me, Some(vec![0x02])),
        row("a2", "PEER-A", me, Some(vec![0x03])),
    ];
    let steps = rollup_steps(me, &rows);
    let heights: Vec<(Vec<u8>, u64)> = steps.iter().map(|s| (s.tx_id.as_bytes().to_vec(), s.height)).collect();
    assert_eq!(heights, vec![(b"a1".to_vec(), 1), (b"b1".to_vec(), 1), (b"a2".to_vec(), 2)]);
    assert_eq!(steps[2].counterparty, "PEER-A");
    assert_eq!(steps[1].receipt, vec![0x02]);
}

#[test]
fn rows_that_are_not_this_devices_relationships_count_for_nobody() {
    let me = "LOCAL";
    let rows = vec![
        row("self", me, me, Some(vec![1])),
        row("other", "X", "Y", Some(vec![2])),
        row("empty", me, "PEER", Some(vec![])),
    ];
    assert!(rollup_steps(me, &rows).is_empty());
}

#[test]
fn a_generated_mnemonic_is_24_valid_english_words() {
    let m = generate_mnemonic().expect("mnemonic");
    assert_eq!(m.split(' ').count(), 24);
    assert!(bip39::Mnemonic::parse(m.as_str()).is_ok());
    let again = generate_mnemonic().expect("mnemonic");
    assert_ne!(m, again, "each mnemonic draws fresh entropy");
}

#[test]
fn a_sealed_recovery_key_opens_under_the_same_wrapping_key() {
    let wrap = [0x42u8; 32];
    let nonce = [0x07u8; 24];
    let key = [0x99u8; 32];
    let blob = seal_recovery_key(&wrap, &nonce, &key).expect("seal");
    assert_eq!(blob.len(), 24 + 32 + 16);
    assert_eq!(&blob[..24], &nonce[..]);
    assert_ne!(&blob[24..56], &key[..], "the key is not stored in the clear");
    assert_eq!(open_recovery_key_blob(&wrap, &blob).expect("open"), key);
}

#[test]
fn a_kept_blob_that_does_not_open_is_refused() {
    let wrap = [0x42u8; 32];
    let blob = seal_recovery_key(&wrap, &[0x07u8; 24], &[0x99u8; 32]).expect("seal");
    let wrong = open_recovery_key_blob(&[0x43u8; 32], &blob);
    assert_eq!(wrong.err().map(|e| e.kind()), Some(ErrorKind::InvalidState));
    let mut tampered = blob.clone();
    tampered[30] ^= 0x01;
    assert!(open_recovery_key_blob(&wrap, &tampered).is_err());
    let short = open_recovery_key_blob(&wrap, &blob[..10]).unwrap_err();
    assert_eq!(short.detail(), "persisted key blob too short: 10 bytes");
    // A sealed plaintext that is not 32 bytes is not a recovery key.
    assert!(open_recovery_key_blob(&wrap, &blob[..24 + 16]).is_err());
}

#[test]
fn the_key_cache_follows_unlock_lock_and_clear() {
    let mut sdk = RecoverySDK::new();
    assert!(!sdk.has_cached_key());
    let phrase = "abandon abandon abandon abandon abandon abandon abandon abandon abandon abandon abandon about";
    sdk.derive_and_cache_key(phrase, [5u8; 32], (vec![1], vec![2])).expect("unlock");
    assert!(sdk.has_cached_key());
    assert_eq!(sdk.cached_key(), Some([5u8; 32]));
    let expected_seed = bip39::Mnemonic::parse(phrase).expect("valid").to_seed("").to_vec();
    assert_eq!(sdk.get_cached_wallet_seed(), Some(expected_seed));
    assert_eq!(sdk.get_cached_authority_keypair(), Some((vec![1], vec![2])));

    sdk.clear_wallet_seed_cache();
    assert_eq!(sdk.get_cached_wallet_seed(), None);
    assert!(sdk.has_cached_key());

    sdk.clear_cached_key();
    assert!(!sdk.has_cached_key());
    assert_eq!(sdk.get_cached_authority_keypair(), None);
}

#[test]
fn an_invalid_mnemonic_keeps_the_key_but_caches_no_seed() {
    let mut sdk = RecoverySDK::new();
    let refused = sdk.derive_and_cache_key("not a mnemonic", [5u8; 32], (vec![1], vec![2]));
    assert_eq!(refused.err().map(|e| e.kind()), Some(ErrorKind::InvalidState));
    assert_eq!(sdk.cached_key(), Some([5u8; 32]));
    assert_eq!(sdk.get_cached_wallet_seed(), None);
    assert_eq!(sdk.get_cached_authority_keypair(), None);
}

#[test]
fn the_kept_key_and_seed_load_on_a_cold_start() {
    let wrap = [0x11u8; 32];
    let blob = seal_recovery_key(&wrap, &[3u8; 24], &[8u8; 32]).expect("seal");
    let mut sdk = RecoverySDK::default();
    assert_eq!(sdk.load_persisted_recovery_key(&wrap, Ok(None)).ok(), Some(false));
    assert!(sdk.load_persisted_recovery_key(&wrap, Err("disk".to_string())).is_err());
    assert_eq!(sdk.load_persisted_recovery_key(&wrap, Ok(Some(blob))).ok(), Some(true));
    assert_eq!(sdk.cached_key(), Some([8u8; 32]));

    assert_eq!(sdk.load_and_cache_wallet_seed(Ok(None)).ok(), Some(false));
    assert_eq!(sdk.load_and_cache_wallet_seed(Ok(Some(vec![4, 4]))).ok(), Some(true));
    assert_eq!(sdk.get_cached_wallet_seed(), Some(vec![4, 4]));
    // Already cached: the reading is not used.
    assert_eq!(sdk.load_and_cache_wallet_seed(Ok(Some(vec![9]))).ok(), Some(true));
    assert_eq!(sdk.get_cached_wallet_seed(), Some(vec![4, 4]));
}

#[test]
fn nfc_backup_flags_and_the_pending_capsule() {
    let mut sdk = RecoverySDK::new();
    assert!(!sdk.is_nfc_backup_enabled());
    assert!(!sdk.is_nfc_backup_configured());
    sdk.enable_nfc_backup();
    assert!(sdk.is_nfc_backup_enabled() && sdk.is_nfc_backup_configured());
    sdk.mark_pending_capsule(3, vec![0xCA]);
    assert_eq!(sdk.get_pending_capsule(), Some((3, vec![0xCA])));
    let status = sdk.get_recovery_status(4, 3, true, 10, 9);
    assert!(status.enabled && status.configured && status.pending_capsule);
    assert_eq!((status.capsule_count, status.last_capsule_index), (4, 3));
    assert_eq!((status.accepted_state_index, status.capsule_state_index), (10, 9));
    sdk.disable_nfc_backup();
    assert!(!sdk.is_nfc_backup_enabled());
    assert!(sdk.is_nfc_backup_configured(), "a disabled backup stays configured");
    assert_eq!(sdk.get_pending_capsule(), None);
    sdk.mark_pending_capsule(4, vec![1]);
    sdk.clear_pending_capsule();
    assert_eq!(sdk.get_pending_capsule(), None);
}

#[test]
fn the_next_capsule_index() {
    assert_eq!(next_capsule_index(Some(7), 9), 7);
    assert_eq!(next_capsule_index(None, 0), 1);
    assert_eq!(next_capsule_index(None, 9), 10);
    assert_eq!(next_capsule_index(None, u64::MAX), u64::MAX);
}

#[test]
fn persisted_activation_values_are_read_strictly() {
    assert_eq!(pref32("k", Ok(Some(vec![6u8; 32]))).ok(), Some([6u8; 32]));
    assert_eq!(pref32("k", Err("io".to_string())).err().map(|e| e.kind()), Some(ErrorKind::Storage));
    assert_eq!(pref32("k", Ok(None)).err().map(|e| e.kind()), Some(ErrorKind::InvalidState));
    assert_eq!(pref32("k", Ok(Some(vec![6u8; 31]))).err().map(|e| e.kind()), Some(ErrorKind::Verification));
    assert_eq!(require_self_id32(Some(vec![1u8; 32]), "device id").ok(), Some([1u8; 32]));
    assert!(require_self_id32(Some(vec![1u8; 3]), "device id").is_err());
    assert_eq!(
        require_self_id32(None, "genesis").unwrap_err().detail(),
        "recovery anchor: genesis not set (no identity)"
    );
    assert_eq!(activation_recording_disabled().kind(), ErrorKind::InvalidState);
}

#[test]
fn the_activation_context_takes_the_resumed_root_when_there_is_one() {
    let ctx = activation_context([1; 32], [2; 32], [3; 32], vec![([4; 32], [5; 32])], [6; 32], [7; 32], [8; 32], [9; 32], None);
    assert_eq!(ctx.old_counter, 0);
    assert_eq!(ctx.final_per_device_smt_root, [6; 32]);
    assert_eq!(ctx.final_receipt_roll, [7; 32]);
    assert_eq!(ctx.tombstone_proposal_digest, [8; 32]);
    let resumed = activation_context([1; 32], [2; 32], [3; 32], vec![], [6; 32], [7; 32], [8; 32], [9; 32], Some([0xAB; 32]));
    assert_eq!(resumed.final_per_device_smt_root, [0xAB; 32]);
}

#[test]
fn recovery_candidates_are_the_sorted_union() {
    let got = recovery_candidates(&[[3; 32], [1; 32], [3; 32]], &[([2; 32], [0; 32]), ([1; 32], [0; 32])]);
    assert_eq!(got, vec![[1; 32], [2; 32], [3; 32]]);
    assert_eq!(floor_of(&[([2; 32], [7; 32]), ([2; 32], [8; 32])], &[2; 32]), Some([7; 32]));
    assert_eq!(floor_of(&[([2; 32], [7; 32])], &[5; 32]), None);
}

#[test]
fn the_old_relationship_tip_and_its_segment() {
    let leaves = [
        PostedLeaf { rel_key: [1; 32], counterparty_device_id: [9; 32], current_tip: [0x10; 32] },
        PostedLeaf { rel_key: [1; 32], counterparty_device_id: [2; 32], current_tip: [0x20; 32] },
    ];
    assert_eq!(old_relationship_tip(&leaves, &[1; 32], &[2; 32]), Some([0x20; 32]));
    assert_eq!(old_relationship_tip(&leaves, &[7; 32], &[2; 32]), None);
    let segments = [([0xA; 32], [0xB; 32]), ([0xC; 32], [0x20; 32])];
    assert_eq!(old_segment_index(&segments, &[0xC; 32], &[0x20; 32]), Some(1));
    assert_eq!(old_segment_index(&segments, &[0xA; 32], &[0x20; 32]), None);
}

#[test]
fn the_nfc_capsule_refresh_loads_the_kept_key_when_the_cache_was_lost() {
    let wrap = [0x21u8; 32];
    let blob = seal_recovery_key(&wrap, &[4u8; 24], &[0x5Au8; 32]).expect("seal");
    let mut sdk = RecoverySDK::new();
    // Backup off: nothing, and the kept key is not read.
    assert_eq!(sdk.maybe_refresh_nfc_capsule(&wrap, Ok(Some(blob.clone()))), None);
    assert!(!sdk.has_cached_key());
    sdk.enable_nfc_backup();
    // Nothing kept, or a kept key that cannot be read: skipped, not an error.
    assert_eq!(sdk.maybe_refresh_nfc_capsule(&wrap, Ok(None)), None);
    assert_eq!(sdk.maybe_refresh_nfc_capsule(&wrap, Err("io".to_string())), None);
    assert_eq!(sdk.maybe_refresh_nfc_capsule(&[0u8; 32], Ok(Some(blob.clone()))), None);
    assert!(!sdk.has_cached_key());
    // The kept key is loaded and cached, then sealed with.
    assert_eq!(sdk.maybe_refresh_nfc_capsule(&wrap, Ok(Some(blob))), Some([0x5Au8; 32]));
    assert_eq!(sdk.cached_key(), Some([0x5Au8; 32]));
    // With a cached key nothing is read.
    assert_eq!(sdk.maybe_refresh_nfc_capsule(&wrap, Err("not read".to_string())), Some([0x5Au8; 32]));
}

#[test]
fn vault_candidates_merge_the_indexes_in_first_named_order() {
    let indexes = vec![
        vec!["a".to_string(), "b".to_string()],
        vec!["b".to_string(), "c".to_string(), "a".to_string()],
    ];
    let ids = candidate_vault_ids(&indexes).unwrap();
    assert_eq!(ids, vec!["a".to_string(), "b".to_string(), "c".to_string()]);
}

#[test]
fn vault_candidates_are_refused_without_a_verified_index() {
    let err = candidate_vault_ids(&[]).unwrap_err();
    assert_eq!(err.kind(), ErrorKind::Verification);
    assert!(err.detail().contains("no posted dBTC vault index verifies"));
}

#[test]
fn an_empty_verified_index_gives_no_candidates() {
    let ids = candidate_vault_ids(&[Vec::new()]).unwrap();
    assert!(ids.is_empty());
}

#[test]
fn capsule_tips_keep_the_last_tip_of_each_counterparty() {
    let contacts = vec![
        ContactTip { device_id: vec![1u8; 32], current_chain_tip: Some(vec![0xAA; 32]) },
        ContactTip { device_id: vec![2u8; 32], current_chain_tip: Some(vec![0xBB; 32]) },
        ContactTip { device_id: vec![1u8; 32], current_chain_tip: Some(vec![0xCC; 32]) },
    ];
    let tips = capsule_counterparty_tips(&contacts);
    assert_eq!(tips.len(), 2);
    let key1 = dsm_sdk::text_id::encode_base32_crockford(&[1u8; 32]);
    let key2 = dsm_sdk::text_id::encode_base32_crockford(&[2u8; 32]);
    assert_eq!(tips[0], (key1, vec![0xCC; 32]));
    assert_eq!(tips[1], (key2, vec![0xBB; 32]));
}

#[test]
fn capsule_tips_skip_short_ids_and_missing_tips() {
    let contacts = vec![
        ContactTip { device_id: vec![1u8; 31], current_chain_tip: Some(vec![0xAA; 32]) },
        ContactTip { device_id: vec![2u8; 32], current_chain_tip: None },
        ContactTip { device_id: vec![3u8; 32], current_chain_tip: Some(vec![0xAA; 16]) },
    ];
    assert!(capsule_counterparty_tips(&contacts).is_empty());
}

#[test]
fn the_first_matching_leaf_and_segment_are_taken() {
    let leaves = vec![
        PostedLeaf { rel_key: [1; 32], counterparty_device_id: [2; 32], current_tip: [0x20; 32] },
        PostedLeaf { rel_key: [1; 32], counterparty_device_id: [2; 32], current_tip: [0x30; 32] },
    ];
    assert_eq!(old_relationship_tip(&leaves, &[1; 32], &[2; 32]), Some([0x20; 32]));
    let segments = vec![([0xA; 32], [0xB; 32]), ([0xC; 32], [0x20; 32]), ([0xC; 32], [0x20; 32])];
    assert_eq!(old_segment_index(&segments, &[0xC; 32], &[0x20; 32]), Some(1));
}

#[test]
fn the_tombstone_hash_must_be_propagated_and_32_bytes() {
    assert_eq!(tombstone_hash32(Ok(Some(vec![3; 32]))).unwrap(), [3; 32]);
    assert_eq!(tombstone_hash32(Err("locked".to_string())).unwrap_err().detail(), "read tombstone_hash: locked");
    let none = tombstone_hash32(Ok(None)).unwrap_err();
    assert_eq!(none.kind(), ErrorKind::InvalidState);
    assert_eq!(none.detail(), "build_activation_context: no propagated tombstone (run the recovery pipeline first)");
    let short = tombstone_hash32(Ok(Some(vec![3; 31]))).unwrap_err();
    assert_eq!(short.kind(), ErrorKind::Verification);
    assert_eq!(short.detail(), "build_activation_context: tombstone_hash is not 32 bytes");
}

#[test]
fn the_mnemonic_of_zero_entropy_is_the_bip39_vector() {
    let m = mnemonic_for_entropy(&[0u8; 32]);
    let words: Vec<&str> = m.split(' ').collect();
    assert_eq!(words.len(), 24);
    assert!(words[..23].iter().all(|w| *w == "abandon"));
    assert_eq!(words[23], "art");
    assert_eq!(mnemonic_for_entropy(&[0u8; 32]), m);
    assert_ne!(mnemonic_for_entropy(&[0xFFu8; 32]), m);
}

#[test]
fn the_capsule_floor_is_one_tip_per_device_in_device_order() {
    let floor = capsule_floor_of(&[([3; 32], [0xA; 32]), ([1; 32], [0xB; 32]), ([3; 32], [0xC; 32]), ([2; 32], [0xD; 32])]);
    assert_eq!(floor, vec![([1; 32], [0xB; 32]), ([2; 32], [0xD; 32]), ([3; 32], [0xC; 32])]);
    assert!(capsule_floor_of(&[]).is_empty());
    assert_eq!(floor_of(&floor, &[3; 32]), Some([0xC; 32]));
}

#[test]
fn the_capsule_floor_read_names_the_failed_read() {
    let e = capsule_floor_from_store(Err("db locked".to_string())).unwrap_err();
    assert_eq!(e.kind(), ErrorKind::Storage);
    assert_eq!(e.detail(), "read recovered chain tips: db locked");
    let floor = capsule_floor_from_store(Ok(vec![([9; 32], [1; 32]), ([4; 32], [2; 32])])).unwrap();
    assert_eq!(floor, vec![([4; 32], [2; 32]), ([9; 32], [1; 32])]);
}
