use dsm_sdk::error::SdkError;
use dsm_sdk::route_commit::{
    anchor_visibility, check_anchor_names_key, check_route_commit_envelope,
    classify_anchor_visibility, classify_signature_verdict, eligible_hop, hop_vault_id,
    plan_hop_pointer, CanonicalPair, PointerPublication, PublishReport, PublishStage, PublishStep, ComposedVault, PublishPointerError, RouteCommitHopV1,
    RouteCommitV1, RouteCommitVerifyError, RouteCommitVerifyErrorKind, ROUTE_COMMIT_VERSION,
};

fn be16(n: u128) -> Vec<u8> {
    n.to_be_bytes().to_vec()
}

fn hop(vault: [u8; 32], token_in: [u8; 32], token_out: [u8; 32], parent: [u8; 32]) -> RouteCommitHopV1 {
    RouteCommitHopV1 {
        vault_id: vault.to_vec(),
        token_in: token_in.to_vec(),
        token_out: token_out.to_vec(),
        input_amount_u128: be16(10_000),
        expected_output_amount_u128: be16(9_870),
        fee_bps: 30,
        advertisement_digest: vec![1; 32],
        unlock_spec_digest: vec![2; 32],
        owner_public_key: vec![3; 64],
        parent_binding: parent.to_vec(),
    }
}

fn commit(hops: Vec<RouteCommitHopV1>) -> RouteCommitV1 {
    RouteCommitV1 {
        version: ROUTE_COMMIT_VERSION,
        nonce: vec![9; 32],
        input_token: b"A".to_vec(),
        output_token: b"B".to_vec(),
        input_amount_u128: be16(10_000),
        expected_final_output_amount_u128: be16(9_870),
        total_fee_bps: 30,
        hops,
        initiator_public_key: vec![4; 64],
        initiator_signature: vec![5; 64],
    }
}

const PC_A: [u8; 32] = [0xA1; 32];
const PC_B: [u8; 32] = [0xB2; 32];
const C_N: [u8; 32] = [0x5C; 32];

fn pair() -> Option<CanonicalPair> {
    Some(CanonicalPair { first: PC_A, second: PC_B })
}

fn composed(sequence: u64) -> Result<ComposedVault, String> {
    Ok(ComposedVault { c_n: C_N, sequence })
}

#[test]
fn a_hop_pointer_names_the_next_generation_and_the_settled_trade() {
    let h = hop([7; 32], PC_B, PC_A, C_N);
    let plan = plan_hop_pointer(0, &h, [7; 32], composed(41), pair()).unwrap();
    assert_eq!(plan.vault_id, [7; 32]);
    assert_eq!(plan.parent_sequence, 41);
    assert_eq!(plan.new_sequence, 42);
    assert_eq!(plan.input_policy_commit, PC_B);
    assert_eq!(plan.output_policy_commit, PC_A);
    assert_eq!(plan.input_amount, 10_000);
    assert_eq!(plan.output_amount, 9_870);
}

#[test]
fn an_unresolved_vault_gets_no_pointer() {
    let h = hop([7; 32], PC_A, PC_B, C_N);
    let e = plan_hop_pointer(3, &h, [7; 32], Err("no route".to_string()), pair()).unwrap_err();
    assert!(matches!(e, PublishPointerError::HopParentNotResolvable { hop_index: 3, .. }));
    assert_eq!(
        e.describe(),
        "hop 3: the parent generation is derived only from the authenticated state, and the vault did not resolve: no route"
    );
}

#[test]
fn a_hop_bound_to_another_state_gets_no_pointer() {
    let h = hop([7; 32], PC_A, PC_B, [0x11; 32]);
    let e = plan_hop_pointer(1, &h, [7; 32], composed(5), pair()).unwrap_err();
    assert!(matches!(e, PublishPointerError::HopParentNotCurrent { hop_index: 1 }));
    assert_eq!(
        e.describe(),
        "hop 1: parent_binding is not the c_n this composer reached \u{2014} no pointer published for an unsettleable hop"
    );
}

#[test]
fn an_exhausted_generation_has_no_successor() {
    let h = hop([7; 32], PC_A, PC_B, C_N);
    let e = plan_hop_pointer(2, &h, [7; 32], composed(u64::MAX), pair()).unwrap_err();
    assert!(matches!(e, PublishPointerError::HopMissingParentLinkage { hop_index: 2 }));
    assert_eq!(e.describe(), "hop 2: missing parent linkage (vault_id/generation)");
}

#[test]
fn a_pair_that_is_not_policy_commits_names_no_receipt() {
    let h = hop([7; 32], PC_A, PC_B, C_N);
    let e = plan_hop_pointer(0, &h, [7; 32], composed(5), None).unwrap_err();
    assert!(matches!(e, PublishPointerError::HopPairIsNotPolicyCommits { hop_index: 0 }));
    let stranger = hop([7; 32], [0xEE; 32], PC_B, C_N);
    let e = plan_hop_pointer(0, &stranger, [7; 32], composed(5), pair()).unwrap_err();
    assert_eq!(
        e.describe(),
        "hop 0: pair identity is not 32-byte policy commits; a settlement receipt cannot be named"
    );
}

#[test]
fn amounts_past_u64_fail_the_re_simulation() {
    let mut h = hop([7; 32], PC_A, PC_B, C_N);
    h.input_amount_u128 = be16(u64::MAX as u128 + 1);
    let e = plan_hop_pointer(4, &h, [7; 32], composed(5), pair()).unwrap_err();
    assert!(matches!(e, PublishPointerError::HopReSimulationFailed { hop_index: 4 }));
    assert_eq!(e.describe(), "hop 4: AMM re-simulation failed during pointer build");
    let mut short = hop([7; 32], PC_A, PC_B, C_N);
    short.expected_output_amount_u128 = vec![0; 8];
    let e = plan_hop_pointer(4, &short, [7; 32], composed(5), pair()).unwrap_err();
    assert!(matches!(e, PublishPointerError::HopReSimulationFailed { hop_index: 4 }));
}

#[test]
fn the_other_pointer_failures_read_as_text() {
    let e = PublishPointerError::SignFailed { hop_index: 6, msg: "no key".to_string() };
    assert_eq!(e.describe(), "hop 6: sphincs sign failed: no key");
    let e = PublishPointerError::StorageFailed { hop_index: 12, msg: "quorum".to_string() };
    assert_eq!(e.describe(), "hop 12: storage put failed: quorum");
}

#[test]
fn a_hop_vault_id_must_be_32_bytes() {
    let h = hop([7; 32], PC_A, PC_B, C_N);
    assert_eq!(hop_vault_id(0, &h).unwrap(), [7; 32]);
    let mut bad = hop([7; 32], PC_A, PC_B, C_N);
    bad.vault_id = vec![7; 31];
    assert!(matches!(hop_vault_id(5, &bad).unwrap_err(), PublishPointerError::HopMissingParentLinkage { hop_index: 5 }));
}

#[test]
fn the_envelope_checks_version_then_key_then_signature() {
    let ok = commit(vec![]);
    assert!(check_route_commit_envelope(&ok).is_ok());
    let mut old = commit(vec![]);
    old.version = 1;
    old.initiator_public_key.clear();
    assert!(matches!(check_route_commit_envelope(&old).unwrap_err(), RouteCommitVerifyError::UnsupportedVersion { got: 1 }));
    let mut keyless = commit(vec![]);
    keyless.initiator_public_key.clear();
    keyless.initiator_signature.clear();
    assert_eq!(
        check_route_commit_envelope(&keyless).unwrap_err().kind(),
        RouteCommitVerifyErrorKind::MissingInitiatorPublicKey
    );
    let mut unsigned = commit(vec![]);
    unsigned.initiator_signature.clear();
    assert_eq!(
        check_route_commit_envelope(&unsigned).unwrap_err().kind(),
        RouteCommitVerifyErrorKind::InvalidInitiatorSignature
    );
}

#[test]
fn the_signature_verdict_is_classified() {
    assert!(classify_signature_verdict(Ok(true)).is_ok());
    assert_eq!(
        classify_signature_verdict(Ok(false)).unwrap_err().kind(),
        RouteCommitVerifyErrorKind::InvalidInitiatorSignature
    );
    match classify_signature_verdict(Err("bad key".to_string())).unwrap_err() {
        RouteCommitVerifyError::SignatureVerifierError(m) => assert_eq!(m, "bad key"),
        other => panic!("unexpected {other:?}"),
    }
}

#[test]
fn anchor_visibility_separates_absence_from_failure() {
    assert_eq!(anchor_visibility(Ok(())), Ok(true));
    assert_eq!(anchor_visibility(Err("object not found".to_string())), Ok(false));
    assert_eq!(anchor_visibility(Err("timeout".to_string())), Err("timeout".to_string()));
    assert!(classify_anchor_visibility(Ok(true)).is_ok());
    assert_eq!(
        classify_anchor_visibility(Ok(false)).unwrap_err().kind(),
        RouteCommitVerifyErrorKind::ExternalCommitmentNotVisible
    );
    match classify_anchor_visibility(Err("timeout".to_string())).unwrap_err() {
        RouteCommitVerifyError::AnchorFetchFailed(m) => assert_eq!(m, "timeout"),
        other => panic!("unexpected {other:?}"),
    }
}

#[test]
fn an_unlock_needs_a_hop_for_the_vault() {
    let rc = commit(vec![hop([1; 32], PC_A, PC_B, C_N), hop([2; 32], PC_B, PC_A, C_N)]);
    let h = eligible_hop(&rc, &[2; 32]).unwrap();
    assert_eq!(h.vault_id, vec![2; 32]);
    assert_eq!(eligible_hop(&rc, &[3; 32]).unwrap_err().kind(), RouteCommitVerifyErrorKind::VaultNotInRoute);
    assert!(RouteCommitVerifyError::InvalidRouteCommitEncoding.kind() == RouteCommitVerifyErrorKind::InvalidRouteCommitEncoding);
}

#[test]
fn the_anchor_must_name_its_key() {
    assert!(check_anchor_names_key(&[8; 32], &[8; 32]));
    assert!(!check_anchor_names_key(&[8; 31], &[8; 32]));
}

#[test]
fn pending_pointer_keys_sort_by_sequence() {
    let a = dsm_sdk::route_commit::vault_pending_pointer_key(&[7; 32], 9, &[0xFF; 32]);
    let b = dsm_sdk::route_commit::vault_pending_pointer_key(&[7; 32], 10, &[0x00; 32]);
    assert!(a < b);
    assert!(a.contains("/0000000000000009/"));
}

#[test]
fn a_publication_stores_the_anchor_and_the_commit_first_and_reports_hops_in_order() {
    let mut p = PointerPublication::start(3);
    assert_eq!(p.stage, PublishStage::Anchor);
    let reports = vec![
        PublishReport::Stored,
        PublishReport::Stored,
        PublishReport::PointerWritten,
        PublishReport::PointerRefused(PublishPointerError::HopParentNotCurrent { hop_index: 1 }),
        PublishReport::PointerRefused(PublishPointerError::StorageFailed { hop_index: 2, msg: "down".to_string() }),
    ];
    let expected = [PublishStage::RouteCommit, PublishStage::Hop(0), PublishStage::Hop(1), PublishStage::Hop(2)];
    let mut k = 0;
    let mut result = None;
    for r in reports {
        assert!(p.report_fits(&r));
        match p.step(r) {
            PublishStep::Next(n) => {
                assert_eq!(n.stage, expected[k]);
                k += 1;
                p = n;
                continue;
            }
            PublishStep::Finished(done) => {
                result = Some(done);
                break;
            }
        }
    }
    let errors = result.unwrap().unwrap();
    assert_eq!(errors.len(), 2);
    assert_eq!(errors[0].hop_index(), 1);
    assert_eq!(errors[1].describe(), "hop 2: storage put failed: down");
}

#[test]
fn a_failed_anchor_or_commit_ends_the_publication() {
    let p = PointerPublication::start(2);
    match p.step(PublishReport::StoreFailed(SdkError::Storage("anchor".to_string()))) {
        PublishStep::Finished(Err(SdkError::Storage(m))) => assert_eq!(m, "anchor"),
        other => panic!("unexpected {other:?}"),
    }
    let p = PointerPublication::start(2);
    let p = match p.step(PublishReport::Stored) {
        PublishStep::Next(n) => n,
        other => panic!("unexpected {other:?}"),
    };
    assert!(!p.report_fits(&PublishReport::PointerWritten));
    match p.step(PublishReport::StoreFailed(SdkError::Network("rc".to_string()))) {
        PublishStep::Finished(Err(SdkError::Network(m))) => assert_eq!(m, "rc"),
        other => panic!("unexpected {other:?}"),
    }
    let p = PointerPublication::start(0);
    let p = match p.step(PublishReport::Stored) {
        PublishStep::Next(n) => n,
        other => panic!("unexpected {other:?}"),
    };
    match p.step(PublishReport::Stored) {
        PublishStep::Finished(Ok(v)) => assert!(v.is_empty()),
        other => panic!("unexpected {other:?}"),
    }
    let h = PointerPublication { hop_count: 2, stage: PublishStage::Hop(0), errors: Vec::new() };
    assert!(!h.report_fits(&PublishReport::PointerRefused(PublishPointerError::HopParentNotCurrent { hop_index: 1 })));
}
