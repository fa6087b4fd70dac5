use dsm_sdk::amm::constant_product_output;
use dsm_sdk::route_commit::{
    bind_path_to_route_commit, canonicalise_for_commitment, enforce_parent_binding, find_hop,
    stamp_parent_bindings, verify_amm_swap_against_reserves, AmmVerifyError, BindRouteCommitInput,
    FulfillmentMechanism, HopParentBinding, ParentBindingReject, Path, PathHop, RouteCommitError,
    RouteCommitHopV1, RouteCommitV1, ROUTE_COMMIT_VERSION,
};

fn vid(tag: u8) -> [u8; 32] {
    let mut v = [0u8; 32];
    v[0] = tag;
    v[31] = tag.wrapping_mul(7).wrapping_add(11);
    v
}

fn nonce(tag: u8) -> [u8; 32] {
    let mut v = [0u8; 32];
    v[0] = 0xC0;
    v[1] = tag;
    v[31] = 0x42;
    v
}

fn token(s: &str) -> Vec<u8> {
    s.as_bytes().to_vec()
}

fn make_hop(tag: u8, token_in: &[u8], token_out: &[u8]) -> PathHop {
    PathHop {
        vault_id: vid(tag),
        token_in: token_in.to_vec(),
        token_out: token_out.to_vec(),
        input_amount: 10_000,
        expected_output_amount: 9_870,
        fee_bps: 30,
        advertisement_digest: [tag; 32],
        unlock_spec_digest: [tag.wrapping_add(1); 32],
        owner_public_key: vec![0xABu8; 64],
    }
}

fn sample_path() -> Path {
    let a = token("AAA");
    let b = token("BBB");
    let c = token("CCC");
    Path {
        input_token: a.clone(),
        output_token: c.clone(),
        input_amount: 10_000,
        final_output_amount: 9_700,
        total_fee_bps: 60,
        hops: vec![make_hop(1, &a, &b), make_hop(2, &b, &c)],
    }
}

fn bind(path: &Path, n: [u8; 32]) -> RouteCommitV1 {
    bind_path_to_route_commit(BindRouteCommitInput {
        path,
        nonce: n,
        initiator_public_key: &[0x11u8; 64],
        initiator_signature: vec![],
    })
    .expect("bind")
}

fn copy_hop(h: &RouteCommitHopV1) -> RouteCommitHopV1 {
    RouteCommitHopV1 {
        vault_id: h.vault_id.clone(),
        token_in: h.token_in.clone(),
        token_out: h.token_out.clone(),
        input_amount_u128: h.input_amount_u128.clone(),
        expected_output_amount_u128: h.expected_output_amount_u128.clone(),
        fee_bps: h.fee_bps,
        advertisement_digest: h.advertisement_digest.clone(),
        unlock_spec_digest: h.unlock_spec_digest.clone(),
        owner_public_key: h.owner_public_key.clone(),
        parent_binding: h.parent_binding.clone(),
    }
}

fn copy_rc(rc: &RouteCommitV1) -> RouteCommitV1 {
    RouteCommitV1 {
        version: rc.version,
        nonce: rc.nonce.clone(),
        input_token: rc.input_token.clone(),
        output_token: rc.output_token.clone(),
        input_amount_u128: rc.input_amount_u128.clone(),
        expected_final_output_amount_u128: rc.expected_final_output_amount_u128.clone(),
        total_fee_bps: rc.total_fee_bps,
        hops: rc.hops.iter().map(copy_hop).collect(),
        initiator_public_key: rc.initiator_public_key.clone(),
        initiator_signature: rc.initiator_signature.clone(),
    }
}

/// Every byte a route commit states, in field order, for comparing two commits.
fn fields(rc: &RouteCommitV1) -> Vec<Vec<u8>> {
    let mut out = vec![
        rc.version.to_be_bytes().to_vec(),
        rc.nonce.clone(),
        rc.input_token.clone(),
        rc.output_token.clone(),
        rc.input_amount_u128.clone(),
        rc.expected_final_output_amount_u128.clone(),
        rc.total_fee_bps.to_be_bytes().to_vec(),
    ];
    for h in &rc.hops {
        out.push(h.vault_id.clone());
        out.push(h.token_in.clone());
        out.push(h.token_out.clone());
        out.push(h.input_amount_u128.clone());
        out.push(h.expected_output_amount_u128.clone());
        out.push(h.fee_bps.to_be_bytes().to_vec());
        out.push(h.advertisement_digest.clone());
        out.push(h.unlock_spec_digest.clone());
        out.push(h.owner_public_key.clone());
        out.push(h.parent_binding.clone());
    }
    out.push(rc.initiator_public_key.clone());
    out.push(rc.initiator_signature.clone());
    out
}

/// What the external commitment is derived from: the canonical form.
fn commitment_preimage(rc: &RouteCommitV1) -> Vec<Vec<u8>> {
    fields(&canonicalise_for_commitment(rc))
}

#[test]
fn bind_path_carries_every_hop_field() {
    let path = sample_path();
    let rc = bind(&path, nonce(1));
    assert_eq!(rc.version, ROUTE_COMMIT_VERSION);
    assert_eq!(rc.nonce, nonce(1).to_vec());
    assert_eq!(rc.input_token, path.input_token);
    assert_eq!(rc.output_token, path.output_token);
    assert_eq!(rc.hops.len(), path.hops.len());
    for (proto_hop, path_hop) in rc.hops.iter().zip(path.hops.iter()) {
        assert_eq!(proto_hop.vault_id, path_hop.vault_id.to_vec());
        assert_eq!(proto_hop.token_in, path_hop.token_in);
        assert_eq!(proto_hop.token_out, path_hop.token_out);
        assert_eq!(proto_hop.fee_bps, path_hop.fee_bps);
        assert_eq!(proto_hop.advertisement_digest, path_hop.advertisement_digest.to_vec());
        assert_eq!(proto_hop.input_amount_u128, 10_000u128.to_be_bytes().to_vec());
        assert_eq!(proto_hop.expected_output_amount_u128, 9_870u128.to_be_bytes().to_vec());
        assert!(proto_hop.parent_binding.is_empty());
    }
    assert_eq!(rc.input_amount_u128, 10_000u128.to_be_bytes().to_vec());
    assert_eq!(rc.expected_final_output_amount_u128, 9_700u128.to_be_bytes().to_vec());
}

#[test]
fn bind_rejects_empty_path() {
    let path = Path {
        input_token: token("A"),
        output_token: token("B"),
        input_amount: 100,
        final_output_amount: 99,
        total_fee_bps: 0,
        hops: vec![],
    };
    match bind_path_to_route_commit(BindRouteCommitInput {
        path: &path,
        nonce: nonce(1),
        initiator_public_key: &[0x11u8; 64],
        initiator_signature: vec![],
    }) {
        Err(RouteCommitError::EmptyPath) => {}
        other => panic!("expected EmptyPath, got {other:?}"),
    }
}

#[test]
fn bind_rejects_zero_nonce() {
    let path = sample_path();
    match bind_path_to_route_commit(BindRouteCommitInput {
        path: &path,
        nonce: [0u8; 32],
        initiator_public_key: &[0x11u8; 64],
        initiator_signature: vec![],
    }) {
        Err(RouteCommitError::InvalidNonce) => {}
        other => panic!("expected InvalidNonce, got {other:?}"),
    }
}

#[test]
fn x_is_deterministic_across_repeated_runs() {
    let path = sample_path();
    let rc_1 = bind(&path, nonce(2));
    let rc_2 = bind(&path, nonce(2));
    assert_eq!(
        commitment_preimage(&rc_1),
        commitment_preimage(&rc_2),
        "X must be deterministic for identical inputs"
    );
}

#[test]
fn x_changes_with_nonce() {
    let path = sample_path();
    let rc_a = bind(&path, nonce(3));
    let rc_b = bind(&path, nonce(4));
    assert_ne!(
        commitment_preimage(&rc_a),
        commitment_preimage(&rc_b),
        "X MUST change when nonce changes (replay protection)"
    );
}

#[test]
fn x_excludes_initiator_signature() {
    let path = sample_path();
    let mut rc_unsigned = bind(&path, nonce(5));
    let x_unsigned = commitment_preimage(&rc_unsigned);
    rc_unsigned.initiator_signature = vec![0xDD; 64];
    let x_signed = commitment_preimage(&rc_unsigned);
    assert_eq!(x_unsigned, x_signed, "X must be invariant under initiator_signature changes");
}

#[test]
fn x_changes_with_any_hop_field() {
    let path = sample_path();
    let baseline = bind(&path, nonce(6));
    let baseline_x = commitment_preimage(&baseline);

    let mut tampered = copy_rc(&baseline);
    tampered.hops[0].fee_bps += 1;
    assert_ne!(commitment_preimage(&tampered), baseline_x);

    let mut tampered3 = copy_rc(&baseline);
    tampered3.hops[1].advertisement_digest[0] ^= 0xFF;
    assert_ne!(commitment_preimage(&tampered3), baseline_x);
}

#[test]
fn the_external_commitment_is_unchanged_by_signing() {
    let unsigned = bind(&sample_path(), nonce(7));
    let x_before = commitment_preimage(&unsigned);
    let mut signed = copy_rc(&unsigned);
    signed.initiator_signature = vec![0xEE; 128];
    assert_eq!(
        commitment_preimage(&signed),
        x_before,
        "signing must not move X, or the commitment could never be signed"
    );
    let mut resigned = copy_rc(&unsigned);
    resigned.initiator_signature = vec![0x11; 96];
    assert_eq!(commitment_preimage(&resigned), x_before);
    assert!(canonicalise_for_commitment(&signed).initiator_signature.is_empty());
}

#[test]
fn find_hop_returns_correct_hop_or_none() {
    let path = sample_path();
    let rc = bind(&path, nonce(0x20));
    let hop = find_hop(&rc, &vid(1)).expect("hop 1 present");
    assert_eq!(hop.vault_id, vid(1).to_vec());
    let hop2 = find_hop(&rc, &vid(2)).expect("hop 2 present");
    assert_eq!(hop2.vault_id, vid(2).to_vec());
    assert!(find_hop(&rc, &vid(99)).is_none(), "absent vault must be None");
}

// ── AMM re-simulation ──

fn token_a_pair() -> (Vec<u8>, Vec<u8>) {
    (b"AAA".to_vec(), b"BBB".to_vec())
}

fn amm_predicate(fee_bps: u32) -> FulfillmentMechanism {
    let (a, b) = token_a_pair();
    FulfillmentMechanism::AmmConstantProduct { token_a: a, token_b: b, fee_bps }
}

fn hop_for(
    vault_id: [u8; 32],
    token_in: &[u8],
    token_out: &[u8],
    input: u64,
    expected_output: u64,
    fee_bps: u32,
) -> RouteCommitHopV1 {
    RouteCommitHopV1 {
        vault_id: vault_id.to_vec(),
        token_in: token_in.to_vec(),
        token_out: token_out.to_vec(),
        input_amount_u128: u128::from(input).to_be_bytes().to_vec(),
        expected_output_amount_u128: u128::from(expected_output).to_be_bytes().to_vec(),
        fee_bps,
        advertisement_digest: [0u8; 32].to_vec(),
        unlock_spec_digest: [0u8; 32].to_vec(),
        owner_public_key: vec![0xABu8; 64],
        parent_binding: Vec::new(),
    }
}

#[test]
fn the_quote_simulator_and_the_swap_verifier_agree() {
    let (pc_a, pc_b) = ([0x11u8; 32], [0x22u8; 32]);
    let fee_bps = 30u32;
    let fulfillment = FulfillmentMechanism::AmmConstantProduct {
        token_a: pc_a.to_vec(),
        token_b: pc_b.to_vec(),
        fee_bps,
    };
    for (reserve_a, reserve_b, input) in [
        (1_000_000u64, 500_000u64, 1_000u64),
        (1_000_000, 500_000, 250_000),
        (10, 1_000_000, 1),
        (1_000_000, 10, 1),
        (u32::MAX as u64, u32::MAX as u64, 7),
    ] {
        let expected = constant_product_output(input, reserve_a, reserve_b, fee_bps);
        let Some(expected) = expected else { continue };
        let hop = hop_for([0x77; 32], &pc_a, &pc_b, input, expected, 0);
        let outcome = verify_amm_swap_against_reserves(&hop, &fulfillment, reserve_a, reserve_b)
            .unwrap_or_else(|e| panic!("verifier rejected its own simulator's output: {e:?}"))
            .unwrap_or_else(|| panic!("verifier produced no outcome for a valid AMM hop"));
        assert_eq!(
            (outcome.new_reserve_a, outcome.new_reserve_b),
            (reserve_a + input, reserve_b - expected),
            "verifier and simulator disagree at reserves=({reserve_a},{reserve_b}) input={input}"
        );
        let greedy = hop_for([0x77; 32], &pc_a, &pc_b, input, expected + 1, 0);
        match verify_amm_swap_against_reserves(&greedy, &fulfillment, reserve_a, reserve_b) {
            Err(_) => {}
            Ok(Some(o)) => assert_ne!(
                (o.new_reserve_a, o.new_reserve_b),
                (reserve_a + input, reserve_b - (expected + 1)),
                "a hop taking more than the curve allows must not verify"
            ),
            Ok(None) => {}
        }
    }
}

#[test]
fn amm_verify_non_amm_vault_returns_none() {
    let (a, b) = token_a_pair();
    let hop = hop_for(vid(1), &a, &b, 100, 99, 30);
    match verify_amm_swap_against_reserves(&hop, &FulfillmentMechanism::NotAmm, 0, 0) {
        Ok(None) => {}
        other => panic!("non-AMM vault must return Ok(None), got {other:?}"),
    }
}

#[test]
fn the_verifier_is_driven_by_the_reserves_it_is_given() {
    let (a, b) = token_a_pair();
    let vault = amm_predicate(30);
    let simulated = constant_product_output(10_000, 1_000_000, 1_000_000, 30).expect("simulate");
    let hop = hop_for(vid(1), &a, &b, 10_000, simulated, 30);
    verify_amm_swap_against_reserves(&hop, &vault, 1_000_000, 1_000_000).expect("ok").expect("AMM");
    for (ra, rb) in [(500_000u64, 500_000u64), (2_000_000, 1_000_000), (1_000_000, 900_000)] {
        let would_be = constant_product_output(10_000, ra, rb, 30).expect("simulate at the moved reserves");
        assert_ne!(would_be, simulated, "fixture error: reserves ({ra},{rb}) do not move the output");
        match verify_amm_swap_against_reserves(&hop, &vault, ra, rb) {
            Err(AmmVerifyError::OutputMismatch { simulated: got, expected }) => {
                assert_eq!(got, would_be, "the reject reports what it simulated");
                assert_eq!(expected, simulated, "and what the hop claimed");
            }
            other => panic!("reserves ({ra},{rb}) must reject, got {other:?}"),
        }
    }
    let unmoved = constant_product_output(10_000, 999_999, 1_000_000, 30).expect("simulate");
    if unmoved == simulated {
        verify_amm_swap_against_reserves(&hop, &vault, 999_999, 1_000_000).expect("ok").expect("AMM");
    }
}

#[test]
fn an_oversized_16_byte_hop_amount_is_refused_not_truncated() {
    let (a, b) = token_a_pair();
    let vault = amm_predicate(30);
    let too_big: u128 = u128::from(u64::MAX) + 1;
    let mut hop = hop_for(vid(1), &a, &b, 1, 1, 30);
    hop.input_amount_u128 = too_big.to_be_bytes().to_vec();
    assert!(
        matches!(
            verify_amm_swap_against_reserves(&hop, &vault, 1_000_000, 1_000_000),
            Err(AmmVerifyError::AmountExceedsU64BaseUnits)
        ),
        "an oversized input must be refused"
    );
    assert_eq!(
        (too_big as u64),
        0,
        "the value chosen truncates to zero, so a silent narrowing would pass"
    );
    let mut hop = hop_for(vid(1), &a, &b, 1, 1, 30);
    hop.expected_output_amount_u128 = too_big.to_be_bytes().to_vec();
    assert!(
        matches!(
            verify_amm_swap_against_reserves(&hop, &vault, 1_000_000, 1_000_000),
            Err(AmmVerifyError::AmountExceedsU64BaseUnits)
        ),
        "an oversized expected output must be refused"
    );
}

#[test]
fn amm_verify_matched_output_accepts_and_advances_reserves() {
    let (a, b) = token_a_pair();
    let vault = amm_predicate(30);
    let (res_a, res_b) = (1_000_000u64, 1_000_000u64);
    let simulated = constant_product_output(10_000, 1_000_000, 1_000_000, 30).expect("simulate");
    let hop = hop_for(vid(1), &a, &b, 10_000, simulated, 30);
    let outcome = verify_amm_swap_against_reserves(&hop, &vault, res_a, res_b).expect("ok").expect("AMM");
    assert_eq!(outcome.new_reserve_a, 1_000_000 + 10_000);
    assert_eq!(outcome.new_reserve_b, 1_000_000 - simulated);
    let pre_k = u128::from(res_a) * u128::from(res_b);
    let post_k = u128::from(outcome.new_reserve_a) * u128::from(outcome.new_reserve_b);
    assert!(post_k >= pre_k, "post-trade k must be >= pre-trade k; pre={pre_k}, post={post_k}");
}

#[test]
fn amm_verify_stale_reserves_rejects_with_typed_mismatch() {
    let (a, b) = token_a_pair();
    let route_simulated = constant_product_output(10_000, 1_000_000, 1_000_000, 30).expect("route simulate");
    let hop = hop_for(vid(1), &a, &b, 10_000, route_simulated, 30);
    let stale_vault = amm_predicate(30);
    let (res_a, res_b) = (500_000u64, 500_000u64);
    match verify_amm_swap_against_reserves(&hop, &stale_vault, res_a, res_b) {
        Err(AmmVerifyError::OutputMismatch { simulated, expected }) => {
            assert_eq!(expected, route_simulated);
            let live_simulated = constant_product_output(10_000, 500_000, 500_000, 30).expect("live simulate");
            assert_eq!(simulated, live_simulated);
        }
        other => panic!("expected OutputMismatch, got {other:?}"),
    }
}

#[test]
fn amm_verify_wrong_pair_rejects() {
    let (a, _b) = token_a_pair();
    let vault = amm_predicate(30);
    let bogus = b"XYZ".to_vec();
    let hop = hop_for(vid(1), &a, &bogus, 10_000, 9_500, 30);
    match verify_amm_swap_against_reserves(&hop, &vault, 1_000_000, 1_000_000) {
        Err(AmmVerifyError::HopTokensDoNotMatchVaultPair) => {}
        other => panic!("expected HopTokensDoNotMatchVaultPair, got {other:?}"),
    }
}

#[test]
fn amm_verify_b_to_a_direction_works_symmetrically() {
    let (a, b) = token_a_pair();
    let vault = amm_predicate(30);
    let (res_a, res_b) = (2_000_000u64, 1_000_000u64);
    let simulated = constant_product_output(5_000, 1_000_000, 2_000_000, 30).expect("simulate");
    let hop = hop_for(vid(1), &b, &a, 5_000, simulated, 30);
    let outcome = verify_amm_swap_against_reserves(&hop, &vault, res_a, res_b).expect("ok").expect("AMM");
    assert_eq!(outcome.new_reserve_a, 2_000_000 - simulated);
    assert_eq!(outcome.new_reserve_b, 1_000_000 + 5_000);
}

#[test]
fn amm_verify_zero_reserves_rejects_as_insufficient() {
    let (a, b) = token_a_pair();
    let vault = amm_predicate(30);
    let hop = hop_for(vid(1), &a, &b, 100, 50, 30);
    match verify_amm_swap_against_reserves(&hop, &vault, 0, 0) {
        Err(AmmVerifyError::InsufficientReservesOrOverflow) => {}
        other => panic!("expected InsufficientReservesOrOverflow, got {other:?}"),
    }
}

#[test]
fn amm_verify_malformed_amount_field_rejects() {
    let (a, b) = token_a_pair();
    let vault = amm_predicate(30);
    let mut hop = hop_for(vid(1), &a, &b, 10_000, 9_900, 30);
    hop.input_amount_u128 = vec![0u8; 8];
    match verify_amm_swap_against_reserves(&hop, &vault, 1_000_000, 1_000_000) {
        Err(AmmVerifyError::AmountFieldsMustBe16BytesBigEndian) => {}
        other => panic!("expected AmountFieldsMustBe16BytesBigEndian, got {other:?}"),
    }
}

#[test]
fn amm_verify_reserve_in_overflow_protection() {
    let (a, b) = token_a_pair();
    let vault = amm_predicate(30);
    let (res_a, res_b) = (u64::MAX, 1_000u64);
    let simulated = constant_product_output(1, u64::MAX, 1_000, 30);
    let hop = hop_for(vid(1), &a, &b, 1, simulated.unwrap_or(0), 30);
    match verify_amm_swap_against_reserves(&hop, &vault, res_a, res_b) {
        Err(AmmVerifyError::InsufficientReservesOrOverflow) | Err(AmmVerifyError::ReserveInOverflow) => {}
        other => panic!("extreme-reserve hop must reject with overflow-class error, got {other:?}"),
    }
}

#[test]
fn the_constant_product_output_is_exact() {
    // floor(10000·9970·1000000 / (1000000·10000 + 10000·9970)) = 9871
    assert_eq!(constant_product_output(10_000, 1_000_000, 1_000_000, 30), Some(9_871));
    assert_eq!(constant_product_output(0, 1_000_000, 1_000_000, 30), None);
    assert_eq!(constant_product_output(1, 1_000_000, 10, 30), None);
    assert_eq!(constant_product_output(1, 10, 10, 10_000), None);
}

// ── parent bindings ──

fn stamped_hop(vault_id: [u8; 32], token_a: &[u8], token_b: &[u8], fee_bps: u32, c_n: [u8; 32]) -> RouteCommitHopV1 {
    let path = Path {
        input_token: token_a.to_vec(),
        output_token: token_b.to_vec(),
        input_amount: 10_000,
        final_output_amount: 9_870,
        total_fee_bps: fee_bps,
        hops: vec![PathHop {
            vault_id,
            token_in: token_a.to_vec(),
            token_out: token_b.to_vec(),
            input_amount: 10_000,
            expected_output_amount: 9_870,
            fee_bps,
            advertisement_digest: [7u8; 32],
            unlock_spec_digest: [9u8; 32],
            owner_public_key: vec![0xABu8; 64],
        }],
    };
    let mut rc = bind_path_to_route_commit(BindRouteCommitInput {
        path: &path,
        nonce: nonce(9),
        initiator_public_key: &[],
        initiator_signature: vec![],
    })
    .expect("bind");
    assert!(rc.hops[0].parent_binding.is_empty());
    let bindings = vec![(vault_id, HopParentBinding { parent_binding: c_n })];
    stamp_parent_bindings(&mut rc, &bindings);
    let hop = rc.hops.remove(0);
    assert_eq!(hop.parent_binding, c_n.to_vec());
    hop
}

#[test]
fn stamp_fills_bound_hops_and_skips_unknown() {
    let a = token("AAA");
    let b = token("BBB");
    let c = token("CCC");
    let path = Path {
        input_token: a.clone(),
        output_token: c.clone(),
        input_amount: 10_000,
        final_output_amount: 9_700,
        total_fee_bps: 60,
        hops: vec![make_hop(1, &a, &b), make_hop(2, &b, &c)],
    };
    let mut rc = bind_path_to_route_commit(BindRouteCommitInput {
        path: &path,
        nonce: nonce(2),
        initiator_public_key: &[],
        initiator_signature: vec![],
    })
    .expect("path bind");
    let bindings = vec![(vid(1), HopParentBinding { parent_binding: [0x11u8; 32] })];
    stamp_parent_bindings(&mut rc, &bindings);
    assert_eq!(rc.hops[0].parent_binding, vec![0x11u8; 32]);
    assert!(rc.hops[1].parent_binding.is_empty());
}

#[test]
fn parent_gate_accepts_fresh_and_rejects_stale() {
    let vault_id = vid(5);
    let c_n = [0x77u8; 32];
    let hop = stamped_hop(vault_id, b"AAA", b"BBB", 30, c_n);
    assert_eq!(enforce_parent_binding(&hop, &c_n), Ok(()));
    let mut moved = c_n;
    moved[0] ^= 0xFF;
    assert_eq!(enforce_parent_binding(&hop, &moved), Err(ParentBindingReject::StaleParent));
}

#[test]
fn parent_gate_rejects_unbound_hops_with_no_bypass() {
    let path = Path {
        input_token: token("AAA"),
        output_token: token("BBB"),
        input_amount: 10_000,
        final_output_amount: 9_870,
        total_fee_bps: 30,
        hops: vec![make_hop(6, b"AAA", b"BBB")],
    };
    let rc = bind_path_to_route_commit(BindRouteCommitInput {
        path: &path,
        nonce: nonce(6),
        initiator_public_key: &[],
        initiator_signature: vec![],
    })
    .expect("bind");
    let bare = &rc.hops[0];
    assert!(bare.parent_binding.is_empty());
    assert_eq!(enforce_parent_binding(bare, &[0u8; 32]), Err(ParentBindingReject::MissingBinding));
    let mut short = copy_hop(bare);
    short.parent_binding = vec![0x11u8; 31];
    assert_eq!(enforce_parent_binding(&short, &[0u8; 32]), Err(ParentBindingReject::MissingBinding));
}

#[test]
fn parent_gate_rejects_tampered_binding() {
    let vault_id = vid(7);
    let c_n = [0x42u8; 32];
    let mut hop = stamped_hop(vault_id, b"AAA", b"BBB", 30, c_n);
    hop.parent_binding[0] ^= 0xFF;
    assert_eq!(enforce_parent_binding(&hop, &c_n), Err(ParentBindingReject::StaleParent));
}

fn rc_fixture() -> RouteCommitV1 {
    RouteCommitV1 {
        version: ROUTE_COMMIT_VERSION,
        nonce: vec![0x11; 32],
        input_token: Vec::new(),
        output_token: Vec::new(),
        input_amount_u128: Vec::new(),
        expected_final_output_amount_u128: Vec::new(),
        total_fee_bps: 30,
        hops: vec![RouteCommitHopV1 {
            vault_id: vec![0x77; 32],
            token_in: vec![0x11; 32],
            token_out: vec![0x22; 32],
            input_amount_u128: 1_000u128.to_be_bytes().to_vec(),
            expected_output_amount_u128: 970u128.to_be_bytes().to_vec(),
            fee_bps: 0,
            advertisement_digest: Vec::new(),
            unlock_spec_digest: Vec::new(),
            owner_public_key: Vec::new(),
            parent_binding: Vec::new(),
        }],
        initiator_public_key: vec![0xAA; 64],
        initiator_signature: Vec::new(),
    }
}

#[test]
fn every_other_field_moves_the_external_commitment() {
    let base = rc_fixture();
    let x = commitment_preimage(&base);
    let mutations: Vec<(&str, Box<dyn Fn(&mut RouteCommitV1)>)> = vec![
        ("nonce", Box::new(|r: &mut RouteCommitV1| r.nonce[0] ^= 0xff)),
        ("fee", Box::new(|r: &mut RouteCommitV1| r.total_fee_bps += 1)),
        ("initiator pk", Box::new(|r: &mut RouteCommitV1| r.initiator_public_key[0] ^= 0xff)),
        ("hop vault", Box::new(|r: &mut RouteCommitV1| r.hops[0].vault_id[0] ^= 0xff)),
        ("hop token_in", Box::new(|r: &mut RouteCommitV1| r.hops[0].token_in[0] ^= 0xff)),
        ("hop token_out", Box::new(|r: &mut RouteCommitV1| r.hops[0].token_out[0] ^= 0xff)),
        ("input amount", Box::new(|r: &mut RouteCommitV1| r.hops[0].input_amount_u128 = 1_001u128.to_be_bytes().to_vec())),
        ("expected output", Box::new(|r: &mut RouteCommitV1| r.hops[0].expected_output_amount_u128 = 971u128.to_be_bytes().to_vec())),
        ("parent binding", Box::new(|r: &mut RouteCommitV1| r.hops[0].parent_binding = vec![0x5Eu8; 32])),
    ];
    for (what, mutate) in mutations {
        let mut m = copy_rc(&base);
        mutate(&mut m);
        assert_ne!(commitment_preimage(&m), x, "changing the {what} must move X");
    }
}
