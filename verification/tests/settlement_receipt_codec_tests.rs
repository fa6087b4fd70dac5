use dsm_sdk::settlement_receipt_codec::{
    receipt_fetch, receipt_from_proto, receipt_to_proto, vault_receipt_key, MalformedReceipt,
    ReceiptFetch, SettledTrade, SignedTraderSettlementReceipt, VAULT_RECEIPT_ROOT,
};

fn sample() -> SignedTraderSettlementReceipt {
    let trade = SettledTrade {
        x: [0x55; 32],
        parent_sequence: 7,
        new_sequence: 8,
        input_policy_commit: [0xE0; 32],
        input_amount: 1_000,
        output_policy_commit: [0xF0; 32],
        output_amount: 970,
    };
    SignedTraderSettlementReceipt {
        vault_id: [3u8; 32],
        receipt_id: [4u8; 32],
        trade,
        trader_genesis: [1u8; 32],
        trader_devid: [2u8; 32],
        post_root: [0x9A; 32],
        smt_siblings: vec![[0x10; 32], [0x20; 32], [0x30; 32]],
        trader_public_key: vec![0xAB; 64],
        trader_signature: vec![0xCD; 128],
    }
}

#[test]
fn round_trip_preserves_the_whole_settlement() {
    let r = sample();
    let wire = receipt_to_proto(&r);
    let back = receipt_from_proto(&wire).expect("typed");

    assert_eq!(back.vault_id, r.vault_id);
    assert_eq!(back.receipt_id, r.receipt_id);
    assert_eq!(back.trade.x, r.trade.x);
    assert_eq!(back.trade.parent_sequence, r.trade.parent_sequence);
    assert_eq!(back.trade.new_sequence, r.trade.new_sequence);
    assert_eq!(back.trade.input_policy_commit, r.trade.input_policy_commit);
    assert_eq!(back.trade.input_amount, r.trade.input_amount);
    assert_eq!(back.trade.output_policy_commit, r.trade.output_policy_commit);
    assert_eq!(back.trade.output_amount, r.trade.output_amount);
    assert_eq!(back.trader_genesis, r.trader_genesis);
    assert_eq!(back.trader_devid, r.trader_devid);
    assert_eq!(back.post_root, r.post_root);
    assert_eq!(back.smt_siblings, r.smt_siblings);
    assert_eq!(back.trader_public_key, r.trader_public_key);
    assert_eq!(back.trader_signature, r.trader_signature);
}

#[test]
fn a_malformed_record_decodes_to_nothing_rather_than_to_defaults() {
    let r = sample();
    for (i, what) in ["short vault_id", "short post_root", "short sibling", "absent x"].iter().enumerate() {
        let mut p = receipt_to_proto(&r);
        match i {
            0 => p.vault_id.truncate(31),
            1 => p.post_root.truncate(31),
            2 => p.smt_siblings[0].truncate(31),
            _ => p.x.clear(),
        };
        assert!(
            receipt_from_proto(&p).is_none(),
            "{what} must decode to None, not to a default-filled struct"
        );
    }
}

#[test]
fn the_storage_key_is_scoped_to_vault_and_settlement() {
    let (v1, v2) = ([3u8; 32], [9u8; 32]);
    let (x1, x2) = ([0x55u8; 32], [0x66u8; 32]);
    assert_ne!(vault_receipt_key(&v1, &x1), vault_receipt_key(&v2, &x1));
    assert_ne!(vault_receipt_key(&v1, &x1), vault_receipt_key(&v1, &x2));
    assert!(vault_receipt_key(&v1, &x1).starts_with(VAULT_RECEIPT_ROOT));
}

#[test]
fn a_fetch_of_the_right_key_decodes_the_receipt() {
    let r = sample();
    match receipt_fetch(&[3u8; 32], &[0x55; 32], Ok(Some(Some(receipt_to_proto(&r))))) {
        ReceiptFetch::Decoded(t) => assert_eq!(t.trade.output_amount, 970),
        other => panic!("expected a decoded receipt, got {other:?}"),
    }
}

#[test]
fn a_fetch_classifies_what_it_could_not_decode() {
    let r = sample();
    let vault = [3u8; 32];
    let x = [0x55u8; 32];
    assert!(matches!(receipt_fetch(&vault, &x, Ok(None)), ReceiptFetch::Absent));
    match receipt_fetch(&vault, &x, Err("timeout".to_string())) {
        ReceiptFetch::Unavailable(m) => assert_eq!(m, "timeout"),
        other => panic!("expected unavailable, got {other:?}"),
    }
    assert!(matches!(
        receipt_fetch(&vault, &x, Ok(Some(None))),
        ReceiptFetch::Malformed(MalformedReceipt::NotAReceipt)
    ));
    let mut short = receipt_to_proto(&r);
    short.receipt_id.push(0);
    assert!(matches!(
        receipt_fetch(&vault, &x, Ok(Some(Some(short)))),
        ReceiptFetch::Malformed(MalformedReceipt::FieldNotThirtyTwoBytes)
    ));
    assert!(matches!(
        receipt_fetch(&[9u8; 32], &x, Ok(Some(Some(receipt_to_proto(&r))))),
        ReceiptFetch::Malformed(MalformedReceipt::OtherSettlement)
    ));
    assert!(matches!(
        receipt_fetch(&vault, &[0x66; 32], Ok(Some(Some(receipt_to_proto(&r))))),
        ReceiptFetch::Malformed(MalformedReceipt::OtherSettlement)
    ));
}
