use dsm_sdk::error::{ErrorKind, SdkError};
use dsm_sdk::sofi_advance::{
    fulfill_next, resolve_next, resolve_step, FulfillStage, ResolveEnd, ResolveEvent, ResolveReport, ResolveStage, ResolveStep,
    exercise_step, facts_step, precommit_step,
    check_fulfill_builds_on, check_fulfill_trader, check_pending_extends_admitted,
    check_recomputed_root, classify_advance_error, classify_registration, distinct_vaults,
    exercise_outcome, final_claim_id, first_leg_attempt, install_failure, leaves_behind_root,
    own_parent_claim, pending_fulfillment, pending_object, position_before, refuse, resolved_leaves,
    root_selected_by, storage_err, AdmittedPosition, AdvanceError, Advanced, CellReading, ChainState,
    InstallError, LeafSource, LegWrite, NotResolved, NotTaken, ParentClaimRef, PendingAdmission,
    PendingAdmissionKind, PendingObject, RegistrationRead, Resolution, Resolved,
};

#[test]
fn only_an_install_the_network_did_not_take_is_the_network_status() {
    assert!(matches!(install_failure(InstallError::LeaderUnreached), Ok(NotTaken::PairLeaderUnreached)));
    assert!(matches!(
        install_failure(InstallError::Unavailable(vec!["Preimage".to_string()])),
        Ok(NotTaken::Evidence(missing)) if missing == vec!["Preimage".to_string()]
    ));
    assert!(matches!(
        install_failure(InstallError::NotConforming("PrecommitMismatch".to_string())),
        Err(SdkError::InvalidOperation(..))
    ));
    assert!(matches!(
        install_failure(InstallError::Wire("unknown signature alg 7".to_string())),
        Err(SdkError::InvalidOperation(..))
    ));
    assert!(matches!(
        install_failure(InstallError::Storage("the route record".to_string())),
        Err(SdkError::Storage { .. })
    ));
}

#[test]
fn refusals_name_this_layer() {
    assert_eq!(refuse("no leg").detail(), "sofi advance: no leg");
    assert_eq!(storage_err("install", "disk").detail(), "sofi advance: install: disk");
    assert_eq!(storage_err("install", "disk").kind(), ErrorKind::Storage);
}

#[test]
fn a_fulfillment_is_refused_over_a_pending_admission_or_another_trader() {
    let g = [1u8; 32];
    let d = [2u8; 32];
    assert!(check_fulfill_trader(None, &g, &d, &g, &d).is_ok());
    let pending = check_fulfill_trader(Some(7), &g, &d, &g, &d).unwrap_err();
    assert!(pending.detail().contains("position 7"));
    assert!(check_fulfill_trader(None, &g, &[3u8; 32], &g, &d).is_err());
    assert!(check_fulfill_trader(None, &[9u8; 32], &d, &g, &d).is_err());
}

#[test]
fn a_fulfillment_holds_the_position_after_its_validated_predecessor() {
    let root = [5u8; 32];
    let pid = [6u8; 32];
    assert_eq!(check_fulfill_builds_on(4, &root, 4, &root, 5, &pid, &pid).ok(), Some(5));
    assert!(check_fulfill_builds_on(3, &root, 4, &root, 4, &pid, &pid).is_err());
    assert!(check_fulfill_builds_on(4, &[0u8; 32], 4, &root, 5, &pid, &pid).is_err());
    assert!(check_fulfill_builds_on(4, &root, 4, &root, 6, &pid, &pid).is_err());
    assert!(check_fulfill_builds_on(4, &root, 4, &root, 5, &[7u8; 32], &pid).is_err());
    assert!(check_fulfill_builds_on(u64::MAX, &root, u64::MAX, &root, 0, &pid, &pid).is_err());
}

#[test]
fn the_exercise_is_written_only_when_every_leg_leader_answered() {
    let all = vec![LegWrite { vault_id: [1; 32], reached_leader: true }, LegWrite { vault_id: [2; 32], reached_leader: true }];
    assert_eq!(exercise_outcome(all).map(|w| w.len()).ok(), Some(2));
    let some = vec![
        LegWrite { vault_id: [1; 32], reached_leader: false },
        LegWrite { vault_id: [2; 32], reached_leader: true },
        LegWrite { vault_id: [3; 32], reached_leader: false },
    ];
    match exercise_outcome(some) {
        Err(NotTaken::LegLeaderUnreached(v)) => assert_eq!(v, vec![[1; 32], [3; 32]]),
        other => panic!("expected the unreached legs, got {other:?}"),
    }
}

#[test]
fn the_pending_fulfillment_and_the_positions_around_it() {
    let p = PendingAdmission {
        economic_position: 9,
        pre_economic_root: [0; 32],
        kind: PendingAdmissionKind::SofiFulfillment { fulfillment_id: [4; 32] },
    };
    assert_eq!(pending_fulfillment(Some(p)).ok(), Some((9, [4; 32])));
    assert!(pending_fulfillment(None).is_err());
    let other = PendingAdmission { kind: PendingAdmissionKind::DsmBacked, ..p };
    assert!(pending_fulfillment(Some(other)).unwrap_err().detail().contains("position 9"));
    assert_eq!(position_before(0), None);
    assert_eq!(position_before(9), Some(8));
    assert_eq!(
        root_selected_by(Some(AdmittedPosition::SingleRoot { economic_position: 1, economic_root: [8; 32] })),
        Some([8; 32])
    );
    assert_eq!(
        root_selected_by(Some(AdmittedPosition::ResolvedSofi { economic_position: 1, selected_root: [7; 32], fulfillment_id: [1; 32] })),
        Some([7; 32])
    );
    assert_eq!(root_selected_by(Some(AdmittedPosition::UnresolvedSofi { economic_position: 1 })), None);
    assert_eq!(root_selected_by(None), None);
}

#[test]
fn only_a_final_chain_names_the_claim_at_a_cell() {
    assert_eq!(final_claim_id(Ok(CellReading::Held { id: [3; 32], state: ChainState::Final })), Some([3; 32]));
    assert_eq!(final_claim_id(Ok(CellReading::Held { id: [3; 32], state: ChainState::Open })), None);
    assert_eq!(final_claim_id(Ok(CellReading::Open)), None);
    assert_eq!(final_claim_id(Err("no quorum".to_string())), None);
}

#[test]
fn a_pending_object_established_absent_is_refused() {
    assert!(matches!(pending_object(Resolved::Kept(5u8), PendingObject::Precommit), Ok(Ok(5))));
    assert!(matches!(
        pending_object::<u8>(Resolved::Unavailable, PendingObject::Preimage),
        Ok(Err(PendingObject::Preimage))
    ));
    assert!(matches!(
        pending_object::<u8>(Resolved::Absent, PendingObject::Fulfillment),
        Err(SdkError::InvalidOperation(_))
    ));
}

#[test]
fn the_parent_claim_comes_from_this_devices_own_state() {
    let single = AdmittedPosition::SingleRoot { economic_position: 3, economic_root: [0; 32] };
    assert!(matches!(own_parent_claim(single, Some([9; 32])), Ok(ParentClaimRef::SingleRoot { claim_ref }) if claim_ref == [9; 32]));
    assert!(own_parent_claim(single, None).is_err());
    let resolved = AdmittedPosition::ResolvedSofi { economic_position: 3, selected_root: [0; 32], fulfillment_id: [6; 32] };
    assert!(matches!(own_parent_claim(resolved, None), Ok(ParentClaimRef::Conditional { fulfillment_id }) if fulfillment_id == [6; 32]));
    assert!(own_parent_claim(AdmittedPosition::UnresolvedSofi { economic_position: 3 }, Some([9; 32])).is_err());
}

#[test]
fn the_pending_position_extends_the_admitted_one_exactly() {
    assert!(check_pending_extends_admitted(4, &[1; 32], 5, &[1; 32]).is_ok());
    assert!(check_pending_extends_admitted(4, &[1; 32], 6, &[1; 32]).is_err());
    assert!(check_pending_extends_admitted(4, &[1; 32], 5, &[2; 32]).is_err());
}

#[test]
fn registration_must_be_the_pending_fulfillment() {
    let id = [4u8; 32];
    assert!(matches!(classify_registration(RegistrationRead::Registered { fulfillment_id: id }, 5, &id), Ok(Ok(()))));
    assert!(classify_registration(RegistrationRead::Registered { fulfillment_id: [5; 32] }, 5, &id).is_err());
    assert!(classify_registration(RegistrationRead::NeverRegistered, 5, &id).is_err());
    assert!(matches!(
        classify_registration(RegistrationRead::Unresolved, 5, &id),
        Ok(Err(NotResolved::NotRegistered))
    ));
    assert!(matches!(
        classify_registration(RegistrationRead::Undecided("split".to_string()), 5, &id),
        Ok(Err(NotResolved::Registration(m))) if m == "split"
    ));
}

#[test]
fn the_first_legs_attempt_and_the_distinct_vaults() {
    let legs = [[2u8; 32], [1u8; 32], [2u8; 32]];
    let attempts = [([1u8; 32], 10u64), ([2u8; 32], 20u64), ([2u8; 32], 30u64)];
    assert_eq!(first_leg_attempt(&legs, &attempts).ok(), Some(([2u8; 32], 20)));
    assert!(first_leg_attempt(&[], &attempts).is_err());
    assert!(first_leg_attempt(&[[9u8; 32]], &attempts).is_err());
    assert_eq!(distinct_vaults(&legs), vec![[2u8; 32], [1u8; 32]]);
}

#[test]
fn refused_advances_are_classified() {
    match classify_advance_error(AdvanceError::FactsIncomplete("ladder".to_string()), 8) {
        Ok(Advanced::NotYet { position, why: NotResolved::Ladder(m) }) => {
            assert_eq!(position, 8);
            assert_eq!(m, "ladder");
        }
        other => panic!("expected not yet, got {other:?}"),
    }
    assert!(matches!(classify_advance_error(AdvanceError::LineageIsTerminal, 8), Ok(Advanced::Invalid { position: 8 })));
    assert!(classify_advance_error(AdvanceError::Other("bad".to_string()), 8).is_err());
}

#[test]
fn the_leaves_behind_an_installed_root() {
    assert_eq!(leaves_behind_root(Resolution::Realized, true).ok(), Some(LeafSource::ApplyPostStates));
    assert_eq!(leaves_behind_root(Resolution::Void, false).ok(), Some(LeafSource::KeepCurrent));
    assert!(leaves_behind_root(Resolution::Realized, false).is_err());
    assert!(leaves_behind_root(Resolution::Invalid, true).is_err());
    let current = vec![([1u8; 32], [10u8; 32], vec![1]), ([3u8; 32], [30u8; 32], vec![3])];
    let post = [([2u8; 32], Some(([20u8; 32], vec![2]))), ([3u8; 32], None)];
    let applied = resolved_leaves(current.clone(), LeafSource::ApplyPostStates, &post);
    assert_eq!(applied, vec![([1u8; 32], [10u8; 32], vec![1]), ([2u8; 32], [20u8; 32], vec![2])]);
    assert_eq!(resolved_leaves(current.clone(), LeafSource::KeepCurrent, &post), current);
    assert!(check_recomputed_root(&[1; 32], &[1; 32]).is_ok());
    assert!(check_recomputed_root(&[1; 32], &[2; 32]).is_err());
}

#[test]
fn the_admission_coordinates_come_from_the_transition_and_the_addresses() {
    let c = dsm_sdk::sofi_advance::fulfillment_acceptance_coords([1; 32], [2; 32], [3; 32], [4; 32], [5; 32]);
    assert_eq!(c.c_dsm_plus, [1; 32]);
    assert_eq!(c.embedded_parent, [2; 32]);
    assert_eq!(c.post_economic_root, [3; 32]);
    assert_eq!(c.accepted_substrate_addr, [4; 32]);
    assert_eq!(c.admission_manifest_addr, [5; 32]);
}

#[test]
fn unread_precommit_exercise_and_facts_wait() {
    assert_eq!(precommit_step(Resolved::Kept(7u8)).unwrap(), 7);
    assert!(matches!(precommit_step::<u8>(Resolved::Unavailable), Err(NotResolved::PrecommitNotStored)));
    assert!(matches!(precommit_step::<u8>(Resolved::Absent), Err(NotResolved::PrecommitNotStored)));
    assert_eq!(exercise_step(Ok(Some(9u8))).unwrap(), 9);
    assert!(matches!(exercise_step::<u8>(Ok(None)), Err(NotResolved::ExerciseNotRead)));
    assert!(matches!(exercise_step::<u8>(Err("io".to_string())), Err(NotResolved::ExerciseNotRead)));
    assert_eq!(facts_step::<u8>(Ok(3)).unwrap(), 3);
    match facts_step::<u8>(Err("no tip".to_string())) {
        Err(NotResolved::Facts(m)) => assert_eq!(m, "no tip"),
        other => panic!("unexpected {other:?}"),
    }
}

#[test]
fn a_fulfillment_not_built_on_the_predecessor_names_both_positions() {
    let root = [3u8; 32];
    let pid = [5u8; 32];
    let e = check_fulfill_builds_on(3, &root, 4, &root, 4, &pid, &pid).unwrap_err();
    assert_eq!(
        e.detail(),
        "sofi advance: P is built on position 3 at another root; the validated predecessor is position 4"
    );
    match install_failure(InstallError::NotConforming("MissingLeg".to_string())) {
        Err(e) => assert_eq!(e.detail(), "sofi advance: install: MissingLeg"),
        other => panic!("unexpected {other:?}"),
    }
}

#[test]
fn resolving_the_pending_position_runs_its_stages_in_order() {
    let mut s = ResolveStage::Admitted;
    let order = [
        ResolveStage::Registration,
        ResolveStage::Precommit,
        ResolveStage::Exercise,
        ResolveStage::Facts,
        ResolveStage::Advance,
        ResolveStage::Leaves,
        ResolveStage::Install,
    ];
    for expected in order {
        s = resolve_next(s, ResolveEvent::Proceeded);
        assert_eq!(s, expected);
    }
    assert_eq!(resolve_next(s, ResolveEvent::Installed), ResolveStage::Finished(ResolveEnd::Installed));
    assert_eq!(
        resolve_next(ResolveStage::Exercise, ResolveEvent::NotYet),
        ResolveStage::Finished(ResolveEnd::NotYet)
    );
    assert_eq!(
        resolve_next(ResolveStage::Advance, ResolveEvent::LineageTerminal),
        ResolveStage::Finished(ResolveEnd::Invalid)
    );
    assert_eq!(
        resolve_next(ResolveStage::Leaves, ResolveEvent::NotYet),
        ResolveStage::Finished(ResolveEnd::Refused)
    );
    assert_eq!(
        resolve_next(ResolveStage::Registration, ResolveEvent::Refused),
        ResolveStage::Finished(ResolveEnd::Refused)
    );
}

#[test]
fn a_fulfillment_writes_only_after_every_check() {
    let mut s = FulfillStage::Head;
    for expected in [
        FulfillStage::Trader,
        FulfillStage::Validated,
        FulfillStage::BuildsOn,
        FulfillStage::Addresses,
        FulfillStage::Advance,
        FulfillStage::Done(true),
    ] {
        s = fulfill_next(s, true);
        assert_eq!(s, expected);
    }
    assert_eq!(fulfill_next(FulfillStage::BuildsOn, false), FulfillStage::Done(false));
    assert_eq!(fulfill_next(FulfillStage::Done(false), true), FulfillStage::Done(false));
}

#[test]
fn a_resolution_step_reports_the_pending_position_and_its_reason() {
    match resolve_step(ResolveStage::Admitted, 9, ResolveReport::Proceeded) {
        ResolveStep::Next(s) => assert_eq!(s, ResolveStage::Registration),
        other => panic!("unexpected {other:?}"),
    }
    match resolve_step(ResolveStage::Facts, 9, ResolveReport::NotYet(NotResolved::Facts("no tip".to_string()))) {
        ResolveStep::Finished(Ok(Advanced::NotYet { position, why: NotResolved::Facts(m) })) => {
            assert_eq!(position, 9);
            assert_eq!(m, "no tip");
        }
        other => panic!("unexpected {other:?}"),
    }
    match resolve_step(ResolveStage::Advance, 9, ResolveReport::LineageTerminal) {
        ResolveStep::Finished(Ok(Advanced::Invalid { position })) => assert_eq!(position, 9),
        other => panic!("unexpected {other:?}"),
    }
    let installed = ResolveReport::Installed { resolution: Resolution::Void, economic_root: [4; 32] };
    match resolve_step(ResolveStage::Install, 9, installed) {
        ResolveStep::Finished(Ok(Advanced::Installed { resolution, economic_position, economic_root })) => {
            assert_eq!(resolution, Resolution::Void);
            assert_eq!(economic_position, 9);
            assert_eq!(economic_root, [4; 32]);
        }
        other => panic!("unexpected {other:?}"),
    }
    match resolve_step(ResolveStage::Leaves, 9, ResolveReport::NotYet(NotResolved::NotRegistered)) {
        ResolveStep::Finished(Err(e)) => {
            assert_eq!(e.detail(), "sofi advance: a resolution stage reported out of order")
        }
        other => panic!("unexpected {other:?}"),
    }
    let refused = SdkError::Storage("leaf cache".to_string());
    match resolve_step(ResolveStage::Precommit, 9, ResolveReport::Refused(refused)) {
        ResolveStep::Finished(Err(SdkError::Storage(m))) => assert_eq!(m, "leaf cache"),
        other => panic!("unexpected {other:?}"),
    }
}
