use dsm_sdk::error::ErrorKind;
use dsm_sdk::receipts::{
    encode_protocol_transition_payload, per_step_ek_context, require_recipient_kyber_key,
    require_sender_ciphertext, resolve_prior_signer, PerStepSigningInputs,
};

#[test]
fn encode_protocol_transition_basic() {
    let encoded = encode_protocol_transition_payload(b"FAUCET", &[&b"part1"[..], &b"part2"[..]]);
    // label len (4) + label (6) + part1 len (4) + part1 (5) + part2 len (4) + part2 (5) = 28
    assert_eq!(encoded.len(), 4 + 6 + 4 + 5 + 4 + 5);
}

#[test]
fn encode_protocol_transition_deterministic() {
    let a = encode_protocol_transition_payload(b"LABEL", &[&b"data"[..]]);
    let b = encode_protocol_transition_payload(b"LABEL", &[&b"data"[..]]);
    assert_eq!(a, b);
}

#[test]
fn encode_protocol_transition_empty_parts() {
    let encoded = encode_protocol_transition_payload(b"LABEL", &[]);
    // just label length-prefix + label = 4 + 5
    assert_eq!(encoded.len(), 4 + 5);
}

#[test]
fn encode_protocol_transition_empty_label() {
    let encoded = encode_protocol_transition_payload(b"", &[&b"data"[..]]);
    // label_len(4) + label(0) + data_len(4) + data(4) = 12
    assert_eq!(encoded.len(), 4 + 4 + 4);
}

#[test]
fn encode_protocol_transition_label_at_offset_zero() {
    let encoded = encode_protocol_transition_payload(b"LBL", &[&b"X"[..]]);
    // First 4 bytes = label length (3)
    let label_len = u32::from_le_bytes(encoded[0..4].try_into().unwrap());
    assert_eq!(label_len, 3);
    assert_eq!(&encoded[4..7], b"LBL");
}

#[test]
fn encode_protocol_transition_parts_are_length_prefixed() {
    let encoded = encode_protocol_transition_payload(b"L", &[&b"AB"[..], &b"CDE"[..]]);
    // After label: offset = 4+1=5
    // Part0: len(4)=2, data(2)="AB" → offset 5..11
    let p0_len = u32::from_le_bytes(encoded[5..9].try_into().unwrap());
    assert_eq!(p0_len, 2);
    assert_eq!(&encoded[9..11], b"AB");
    // Part1: len(4)=3, data(3)="CDE" → offset 11..18
    let p1_len = u32::from_le_bytes(encoded[11..15].try_into().unwrap());
    assert_eq!(p1_len, 3);
    assert_eq!(&encoded[15..18], b"CDE");
}

#[test]
fn encode_protocol_transition_order_matters() {
    let a = encode_protocol_transition_payload(b"L", &[&b"X"[..], &b"Y"[..]]);
    let b = encode_protocol_transition_payload(b"L", &[&b"Y"[..], &b"X"[..]]);
    assert_ne!(a, b);
}

#[test]
fn encode_protocol_transition_different_labels_differ() {
    let a = encode_protocol_transition_payload(b"FAUCET", &[&b"data"[..]]);
    let b = encode_protocol_transition_payload(b"DLV", &[&b"data"[..]]);
    assert_ne!(a, b);
}

#[test]
fn encode_protocol_transition_exact_bytes() {
    let encoded = encode_protocol_transition_payload(b"AB", &[&b"C"[..]]);
    assert_eq!(encoded, vec![2, 0, 0, 0, b'A', b'B', 1, 0, 0, 0, b'C']);
}

#[test]
fn moving_a_byte_across_a_part_boundary_changes_the_encoding() {
    let a = encode_protocol_transition_payload(b"L", &[&b"AB"[..], &b"C"[..]]);
    let b = encode_protocol_transition_payload(b"L", &[&b"A"[..], &b"BC"[..]]);
    assert_ne!(a, b);
}

#[test]
fn kyber_k_step_rejects_empty_recipient_pubkey() {
    let result = require_recipient_kyber_key(&[]);
    assert!(result.is_err());
    let err = result.unwrap_err();
    assert_eq!(err.kind(), ErrorKind::InvalidOperation);
    assert!(err.detail().contains("recipient Kyber public key is empty"));
    assert!(require_recipient_kyber_key(&[0x01; 1184]).is_ok());
}

#[test]
fn a_receipt_without_a_kyber_ciphertext_cannot_derive_the_step_key() {
    assert!(require_sender_ciphertext(&[]).is_err());
    assert!(require_sender_ciphertext(&[7u8; 1088]).is_ok());
}

#[test]
fn per_step_signing_errors_without_chain_head_or_root() {
    let result = resolve_prior_signer(None, None);
    assert!(result.is_err());
    let err = result.unwrap_err();
    assert!(err.detail().contains("requires chain-head SK or root AK"));
}

#[test]
fn the_chain_head_key_signs_before_the_root_ak() {
    let root_pk = [0x01u8; 4];
    let root_sk = [0x02u8; 4];
    let (key, used_root) = resolve_prior_signer(Some(vec![9, 9]), Some((&root_pk[..], &root_sk[..]))).expect("head");
    assert_eq!(key, vec![9, 9]);
    assert!(!used_root);
    let (key, used_root) = resolve_prior_signer(None, Some((&root_pk[..], &root_sk[..]))).expect("root");
    assert_eq!(key, root_sk.to_vec());
    assert!(used_root);
}

#[test]
fn the_per_step_context_binds_the_relationship_as_chain_id() {
    let commit = [0xCC; 32];
    let binding = [0x5A; 32];
    let inputs = PerStepSigningInputs {
        commitment: &commit,
        h_n: [0xAA; 32],
        c_pre: [0xBB; 32],
        devid_sender: [0x11; 32],
        relationship_key: [0xCD; 32],
        root_ak_keypair: None,
        recipient_kyber_pk: &[],
        session_binding: &binding,
    };
    let ctx = per_step_ek_context(&inputs, [0x77; 32]);
    assert_eq!(ctx.chain_id, [0xCD; 32]);
    assert_eq!(ctx.h_n, [0xAA; 32]);
    assert_eq!(ctx.c_pre, [0xBB; 32]);
    assert_eq!(ctx.k_step, [0x77; 32]);
}
