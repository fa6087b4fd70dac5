use dsm_sdk::error::{ErrorKind, SdkError};
use dsm_sdk::prefs::PrefStore;
use dsm_sdk::session_manager::{
    clear_fatal_error_and_snapshot, session_snapshot, get_session_snapshot_bytes, frame_local_envelope, set_fatal_error_and_snapshot,
    set_sdk_ready, update_hardware_and_snapshot, PublicationLookup, SessionHardwareFacts,
    SessionManager, SessionRuntime,
};

fn background_facts(qr_active: bool) -> SessionHardwareFacts {
    SessionHardwareFacts {
        app_foreground: false,
        ble_enabled: false,
        ble_permissions: false,
        ble_scanning: false,
        ble_advertising: false,
        qr_available: false,
        qr_active,
        camera_permission: false,
        battery_charging: false,
        battery_level_percent: 0,
    }
}

#[test]
fn sync_lock_config_reads_native_prefs() {
    let mut prefs = PrefStore::new();
    prefs.set_pref("lock_enabled", "true").expect("pref");
    prefs.set_pref("lock_method", "combo").expect("pref");
    prefs.set_pref("lock_on_pause", "false").expect("pref");

    let mut mgr = SessionManager::new();
    mgr.sync_lock_config_from_app_state(&mut prefs).expect("lock settings");

    assert!(mgr.lock_enabled);
    assert_eq!(mgr.lock_method, "combo");
    assert!(!mgr.lock_on_pause);
    assert!(mgr.lock_locked);
}

#[test]
fn cold_start_with_enabled_lock_defaults_to_locked() {
    let mut prefs = PrefStore::new();
    prefs.set_pref("lock_enabled", "true").expect("pref");
    prefs.set_pref("lock_method", "pin").expect("pref");
    prefs.set_pref("lock_on_pause", "true").expect("pref");
    prefs.set_pref("lock_locked", "false").expect("pref");

    let mut mgr = SessionManager::new();
    mgr.sync_lock_config_from_app_state(&mut prefs).expect("lock settings");

    assert!(mgr.lock_enabled);
    assert!(mgr.lock_locked);
    assert_eq!(prefs.get_pref("lock_locked").as_deref(), Some("true"));
}

#[test]
fn runtime_unlock_persists_until_next_process_start() {
    let mut prefs = PrefStore::new();
    prefs.set_pref("lock_enabled", "true").expect("pref");
    prefs.set_pref("lock_method", "pin").expect("pref");
    prefs.set_pref("lock_on_pause", "true").expect("pref");

    let mut mgr = SessionManager::new();
    mgr.sync_lock_config_from_app_state(&mut prefs).expect("lock settings");
    assert!(mgr.lock_locked);

    mgr.unlock_now(&mut prefs).expect("unlock");
    assert_eq!(prefs.get_pref("lock_locked").as_deref(), Some("false"));

    mgr.sync_lock_config_from_app_state(&mut prefs).expect("lock settings");
    assert!(!mgr.lock_locked);

    let mut restarted = SessionManager::new();
    restarted.sync_lock_config_from_app_state(&mut prefs).expect("lock settings");
    assert!(restarted.lock_locked);
}

#[test]
fn a_malformed_lock_setting_is_an_error_not_a_default() {
    let mut prefs = PrefStore::new();
    prefs.set_pref("lock_enabled", "yes").expect("pref");
    let mut mgr = SessionManager::new();
    mgr.lock_enabled = true;
    let refused = mgr.sync_lock_config_from_app_state(&mut prefs);
    assert!(refused.is_err(), "a malformed setting is reported");
    assert!(mgr.lock_enabled, "the manager's setting is untouched");
    assert_eq!(refused.err().map(|e| e.kind()), Some(ErrorKind::InvalidState));
}

#[test]
fn default_phase_is_runtime_loading() {
    let mgr = SessionManager::new();
    let snap = mgr.compute_snapshot(false, false, false, false);
    assert_eq!(snap.phase, "runtime_loading");
    assert_eq!(snap.identity_status, "runtime_not_ready");
    assert_eq!(snap.env_config_status, "loading");
}

#[test]
fn phase_needs_genesis_when_ready_but_no_identity() {
    let mgr = SessionManager::new();
    let snap = mgr.compute_snapshot(false, true, false, false);
    assert_eq!(snap.phase, "needs_genesis");
    assert_eq!(snap.identity_status, "missing");
}

#[test]
fn phase_locked_when_lock_set() {
    let mut mgr = SessionManager::new();
    mgr.lock_locked = true;
    let snap = mgr.compute_snapshot(false, true, true, true);
    assert_eq!(snap.phase, "locked");
    assert_eq!(snap.identity_status, "ready");
}

#[test]
fn phase_is_publication_pending_when_identity_is_not_published() {
    let mut rt = SessionRuntime::new();
    let mut prefs = PrefStore::new();
    set_sdk_ready(&mut rt, true);
    let snap = session_snapshot(&mut rt, &mut prefs, true, &PublicationLookup::Read(Ok(false)))
        .expect("snapshot");
    assert_eq!(
        snap.phase, "publication_pending",
        "a durable local genesis must not report the wallet as ready"
    );

    // Once publication reaches quorum, the wallet becomes ready, and stays so.
    let snap = session_snapshot(&mut rt, &mut prefs, true, &PublicationLookup::Read(Ok(true)))
        .expect("snapshot");
    assert_eq!(snap.phase, "wallet_ready");
    let snap = session_snapshot(&mut rt, &mut prefs, true, &PublicationLookup::StorageNotReady)
        .expect("snapshot");
    assert_eq!(snap.phase, "wallet_ready");
}

#[test]
fn fatal_error_overrides_phase() {
    let mut mgr = SessionManager::new();
    mgr.fatal_error = Some("test error".to_string());
    let snap = mgr.compute_snapshot(false, true, false, false);
    assert_eq!(snap.phase, "error");
    assert_eq!(snap.fatal_error, "test error");
}

#[test]
fn auto_lock_on_background() {
    let mut prefs = PrefStore::new();
    let mut mgr = SessionManager::new();
    mgr.lock_enabled = true;
    mgr.lock_on_pause = true;
    mgr.apply_hardware_facts(&mut prefs, &background_facts(false)).expect("apply facts");
    assert!(mgr.lock_locked);
    assert_eq!(prefs.get_pref("lock_locked").as_deref(), Some("true"));
}

#[test]
fn no_auto_lock_when_policy_disabled() {
    let mut prefs = PrefStore::new();
    let mut mgr = SessionManager::new();
    mgr.lock_enabled = true;
    mgr.lock_on_pause = false;
    mgr.apply_hardware_facts(&mut prefs, &background_facts(false)).expect("apply facts");
    assert!(!mgr.lock_locked);
}

#[test]
fn no_auto_lock_while_qr_scanner_active() {
    let mut prefs = PrefStore::new();
    let mut mgr = SessionManager::new();
    mgr.lock_enabled = true;
    mgr.lock_on_pause = true;
    mgr.apply_hardware_facts(&mut prefs, &background_facts(true)).expect("apply facts");
    assert!(!mgr.lock_locked);
}

#[test]
fn hardware_facts_round_trip() {
    let mut rt = SessionRuntime::new();
    let mut prefs = PrefStore::new();
    let facts = SessionHardwareFacts {
        app_foreground: true,
        ble_enabled: true,
        ble_permissions: true,
        ble_scanning: false,
        ble_advertising: true,
        qr_available: true,
        qr_active: false,
        camera_permission: true,
        battery_charging: false,
        battery_level_percent: 100,
    };
    let snap = update_hardware_and_snapshot(&mut rt, &mut prefs, &facts, false, &PublicationLookup::NoDeviceId)
        .expect("snapshot");
    let hw = snap.hardware_status.expect("hardware status");
    assert!(hw.app_foreground);
    let ble = hw.ble.expect("ble status");
    assert!(ble.enabled);
    assert!(ble.advertising);
    assert!(!ble.scanning);
    assert_eq!(hw.battery.expect("battery").level_percent, 100);
}

#[test]
fn snapshot_bytes_are_envelope_wrapped() {
    let mut rt = SessionRuntime::new();
    let mut prefs = PrefStore::new();
    set_sdk_ready(&mut rt, true);
    let snap = session_snapshot(&mut rt, &mut prefs, false, &PublicationLookup::NoDeviceId)
        .expect("snapshot");
    assert!(!snap.phase.is_empty());
    assert_eq!(snap.phase, "needs_genesis");
    // The envelope writer here carries the phase alone; the frame around it is the library's.
    let bytes = get_session_snapshot_bytes(&mut rt, &mut prefs, false, &PublicationLookup::NoDeviceId, |s| {
        s.phase.as_bytes().to_vec()
    })
    .expect("snapshot bytes");
    assert_eq!(bytes[0], 0x03);
    assert_eq!(&bytes[1..], b"needs_genesis");
    assert_eq!(frame_local_envelope(&[7, 8]), vec![0x03, 7, 8]);
    assert_eq!(frame_local_envelope(&[]), vec![0x03]);
}

#[test]
fn snapshot_bytes_carry_the_lock_settings_refusal() {
    let mut rt = SessionRuntime::new();
    let mut prefs = PrefStore::new();
    prefs.set_pref("lock_enabled", "yes").expect("pref");
    let refused = get_session_snapshot_bytes(&mut rt, &mut prefs, false, &PublicationLookup::NoDeviceId, |_| vec![1])
        .unwrap_err();
    assert!(refused.starts_with("session lock settings: "));
}

#[test]
fn a_battery_level_above_full_is_capped() {
    let mut prefs = PrefStore::new();
    let mut mgr = SessionManager::new();
    let mut facts = background_facts(false);
    facts.app_foreground = true;
    facts.battery_level_percent = 250;
    mgr.apply_hardware_facts(&mut prefs, &facts).expect("apply facts");
    assert_eq!(mgr.hardware.battery_level_percent, 100);
}

#[test]
fn a_disabled_lock_is_also_unlocked() {
    let mut prefs = PrefStore::new();
    let mut mgr = SessionManager::new();
    mgr.configure_lock(&mut prefs, true, "biometric", true).expect("configure");
    mgr.lock_now(&mut prefs).expect("lock");
    assert!(mgr.lock_locked);
    assert_eq!(mgr.lock_method, "biometric");
    mgr.configure_lock(&mut prefs, false, "face", true).expect("configure");
    assert!(!mgr.lock_locked);
    assert_eq!(mgr.lock_method, "none");
    assert_eq!(prefs.get_pref("lock_locked").as_deref(), Some("false"));
    // An unknown method on an enabled lock falls back to a PIN.
    mgr.configure_lock(&mut prefs, true, "face", true).expect("configure");
    assert_eq!(mgr.lock_method, "pin");
}

#[test]
fn a_lock_request_on_a_disabled_lock_is_ignored() {
    let mut prefs = PrefStore::new();
    let mut mgr = SessionManager::new();
    mgr.lock_now(&mut prefs).expect("lock");
    assert!(!mgr.lock_locked);
    assert_eq!(prefs.get_pref("lock_locked").as_deref(), Some("false"));
}

#[test]
fn the_lock_configuration_persists_and_reads_back() {
    let mut prefs = PrefStore::new();
    let mut mgr = SessionManager::new();
    mgr.configure_lock(&mut prefs, true, "combo", false).expect("configure");
    mgr.persist_lock_config_to_app_state(&mut prefs).expect("persist");
    assert_eq!(prefs.get_pref("lock_enabled").as_deref(), Some("true"));
    assert_eq!(prefs.get_pref("lock_method").as_deref(), Some("combo"));
    assert_eq!(prefs.get_pref("lock_on_pause").as_deref(), Some("false"));
    let mut other = SessionManager::new();
    other.sync_lock_config_from_app_state(&mut prefs).expect("lock settings");
    assert!(other.lock_enabled);
    assert_eq!(other.lock_method, "combo");
    assert!(!other.lock_on_pause);
}

#[test]
fn a_fatal_error_is_set_and_cleared_through_the_snapshot() {
    let mut rt = SessionRuntime::new();
    let mut prefs = PrefStore::new();
    set_sdk_ready(&mut rt, true);
    let snap = set_fatal_error_and_snapshot(&mut rt, &mut prefs, "disk full", true, &PublicationLookup::Read(Ok(true)))
        .expect("snapshot");
    assert_eq!(snap.phase, "error");
    assert_eq!(snap.fatal_error, "disk full");
    let snap = clear_fatal_error_and_snapshot(&mut rt, &mut prefs, true, &PublicationLookup::Read(Ok(true)))
        .expect("snapshot");
    assert_eq!(snap.phase, "wallet_ready");
    assert_eq!(snap.fatal_error, "");
}

#[test]
fn an_unreadable_lock_setting_yields_no_snapshot() {
    let mut rt = SessionRuntime::new();
    let mut prefs = PrefStore::new();
    prefs.set_pref("lock_on_pause", "maybe").expect("pref");
    let refused = session_snapshot(&mut rt, &mut prefs, false, &PublicationLookup::NoDeviceId);
    assert!(refused.is_err());
    let lookup_failed = PublicationLookup::Read(Err(SdkError::Storage("closed".to_string())));
    prefs.set_pref("lock_on_pause", "true").expect("pref");
    let snap = session_snapshot(&mut rt, &mut prefs, true, &lookup_failed).expect("snapshot");
    assert_eq!(snap.phase, "runtime_loading");
}

#[test]
fn a_publication_lookup_is_needed_only_until_the_latch_is_up() {
    let mut rt = SessionRuntime::new();
    assert!(!rt.needs_publication_lookup(false));
    assert!(rt.needs_publication_lookup(true));
    let _ = rt.identity_published(&PublicationLookup::Read(Ok(true)));
    assert!(!rt.needs_publication_lookup(true));
}

#[test]
fn a_malformed_lock_setting_names_the_setting_and_its_value() {
    let mut prefs = PrefStore::new();
    prefs.set_pref("lock_enabled", "yes").expect("pref");
    let mut mgr = SessionManager::new();
    let e = mgr.sync_lock_config_from_app_state(&mut prefs).unwrap_err();
    assert_eq!(e.detail(), "lock setting lock_enabled holds \"yes\", not true or false");
    let mut rt = SessionRuntime::new();
    let mut prefs = PrefStore::new();
    prefs.set_pref("lock_on_pause", "ma\"ybe").expect("pref");
    let refused = session_snapshot(&mut rt, &mut prefs, false, &PublicationLookup::NoDeviceId).unwrap_err();
    assert_eq!(
        refused,
        format!("session lock settings: lock setting lock_on_pause holds {:?}, not true or false", "ma\"ybe")
    );
}

#[test]
fn an_unlock_takes_effect_only_once_saved() {
    let mut prefs = PrefStore::new();
    let mut mgr = SessionManager::new();
    mgr.configure_lock(&mut prefs, true, "pin", true).expect("configure");
    mgr.lock_now(&mut prefs).expect("lock");
    prefs.set_writable(false);
    let e = mgr.unlock_now(&mut prefs).unwrap_err();
    assert_eq!(e.kind(), ErrorKind::Storage);
    assert_eq!(e.detail(), "settings store is not writable: cannot store lock_locked");
    assert!(mgr.lock_locked, "an unlock that was not saved does not take effect");
    assert_eq!(prefs.get_pref("lock_locked").as_deref(), Some("true"));
    prefs.set_writable(true);
    mgr.unlock_now(&mut prefs).expect("unlock");
    assert!(!mgr.lock_locked);
}

#[test]
fn a_lock_takes_effect_even_when_it_cannot_be_saved() {
    let mut prefs = PrefStore::new();
    let mut mgr = SessionManager::new();
    mgr.configure_lock(&mut prefs, true, "pin", true).expect("configure");
    prefs.set_writable(false);
    assert!(mgr.lock_now(&mut prefs).is_err());
    assert!(mgr.lock_locked);
    assert!(prefs.get_pref("lock_locked").is_none());
    assert!(mgr.persist_lock_config_to_app_state(&mut prefs).is_err());
}

#[test]
fn a_background_report_whose_lock_cannot_be_saved_is_an_error() {
    let mut rt = SessionRuntime::new();
    let mut prefs = PrefStore::new();
    let _ = session_snapshot(&mut rt, &mut prefs, false, &PublicationLookup::NoDeviceId).expect("first sync");
    rt.manager.configure_lock(&mut prefs, true, "pin", true).expect("configure");
    prefs.set_pref("lock_enabled", "true").expect("pref");
    prefs.set_writable(false);
    let e = update_hardware_and_snapshot(&mut rt, &mut prefs, &background_facts(false), false, &PublicationLookup::NoDeviceId)
        .unwrap_err();
    assert_eq!(e, "session lock: settings store is not writable: cannot store lock_locked");
    assert!(rt.manager.lock_locked);
}
