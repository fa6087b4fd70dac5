//! The session manager: lock state and hardware facts this layer owns, and
//! the session snapshot projected from them and from the SDK's readiness and
//! identity facts.

use vstd::prelude::*;
use crate::bytes::{extend_bytes, str_eq};
use crate::error::{SdkError, text};
use crate::prefs::{prefs_refusal, PrefStore};
use crate::text_id::{push_quoted, quoted};

verus! {

pub open spec fn lock_enabled_key() -> Seq<char> {
    "lock_enabled"@
}

pub open spec fn lock_method_key() -> Seq<char> {
    "lock_method"@
}

pub open spec fn lock_on_pause_key() -> Seq<char> {
    "lock_on_pause"@
}

pub open spec fn lock_locked_key() -> Seq<char> {
    "lock_locked"@
}

pub open spec fn flag_text(b: bool) -> Seq<char> {
    if b {
        "true"@
    } else {
        "false"@
    }
}

/// Hardware facts reported by the host.
#[derive(Debug, Clone, Copy)]
pub struct HardwareFacts {
    pub app_foreground: bool,
    pub ble_enabled: bool,
    pub ble_permissions: bool,
    pub ble_scanning: bool,
    pub ble_advertising: bool,
    pub qr_available: bool,
    pub qr_active: bool,
    pub camera_permission: bool,
    pub battery_charging: bool,
    pub battery_level_percent: u32,
}

impl Default for HardwareFacts {
    fn default() -> (r: Self)
        ensures
            !r.app_foreground && !r.ble_enabled && !r.ble_permissions && !r.ble_scanning
                && !r.ble_advertising && !r.qr_available && !r.qr_active && !r.camera_permission
                && !r.battery_charging && r.battery_level_percent == 0,
    {
        HardwareFacts {
            app_foreground: false,
            ble_enabled: false,
            ble_permissions: false,
            ble_scanning: false,
            ble_advertising: false,
            qr_available: false,
            qr_active: false,
            camera_permission: false,
            battery_charging: false,
            battery_level_percent: 0,
        }
    }
}

/// The hardware facts message the host sends (`SessionHardwareFactsProto`).
#[derive(Debug, Clone, Copy)]
pub struct SessionHardwareFacts {
    pub app_foreground: bool,
    pub ble_enabled: bool,
    pub ble_permissions: bool,
    pub ble_scanning: bool,
    pub ble_advertising: bool,
    pub qr_available: bool,
    pub qr_active: bool,
    pub camera_permission: bool,
    pub battery_charging: bool,
    pub battery_level_percent: u32,
}

/// Session manager: sole authority for the session state it owns.
#[derive(Debug, Clone)]
pub struct SessionManager {
    pub lock_enabled: bool,
    pub lock_locked: bool,
    pub lock_method: String,
    pub lock_on_pause: bool,
    pub fatal_error: Option<String>,
    pub wallet_refresh_hint: u64,
    pub hardware: HardwareFacts,
    pub lock_state_initialized: bool,
}

/// The lock state of a session manager, as values.
pub struct LockModel {
    pub enabled: bool,
    pub locked: bool,
    pub method: Seq<char>,
    pub on_pause: bool,
    pub initialized: bool,
}

impl SessionManager {
    pub open spec fn lock_model(&self) -> LockModel {
        LockModel {
            enabled: self.lock_enabled,
            locked: self.lock_locked,
            method: self.lock_method@,
            on_pause: self.lock_on_pause,
            initialized: self.lock_state_initialized,
        }
    }
}

/// The setting stored at `key` read as a flag: `current` when none is
/// stored, `None` when the stored value is neither `true` nor `false`.
pub open spec fn spec_pref_bool(p: Map<Seq<char>, Seq<char>>, key: Seq<char>, current: bool) -> Option<bool> {
    if !p.contains_key(key) {
        Some(current)
    } else if p[key] == "true"@ {
        Some(true)
    } else if p[key] == "false"@ {
        Some(false)
    } else {
        None
    }
}

/// The lock method kept for a requested one: a supported method as given,
/// otherwise `pin` for an enabled lock and `none` for a disabled one.
pub open spec fn spec_sanitize_lock_method(enabled: bool, method: Seq<char>) -> Seq<char> {
    if method == "pin"@ || method == "combo"@ || method == "biometric"@ {
        method
    } else if enabled {
        "pin"@
    } else {
        "none"@
    }
}

/// Lock or unlock, on a settings store that takes writes exactly when `w`:
/// `(saved, lock state, settings)`. A lock takes effect only while the lock
/// is enabled, and takes effect even when the locked flag cannot be saved;
/// an unlock takes effect only once the flag is saved.
pub open spec fn spec_set_locked(m: LockModel, p: Map<Seq<char>, Seq<char>>, w: bool, locked: bool) -> (bool, LockModel, Map<Seq<char>, Seq<char>>) {
    if m.enabled && locked {
        (w, LockModel { locked: true, ..m }, if w { p.insert(lock_locked_key(), "true"@) } else { p })
    } else if w {
        (true, LockModel { locked: false, ..m }, p.insert(lock_locked_key(), "false"@))
    } else {
        (false, m, p)
    }
}

/// Configure the lock: the configuration takes effect; a disabled lock is
/// also unlocked, which needs the locked flag saved.
pub open spec fn spec_configure_lock(
    m: LockModel,
    p: Map<Seq<char>, Seq<char>>,
    w: bool,
    enabled: bool,
    method: Seq<char>,
    on_pause: bool,
) -> (bool, LockModel, Map<Seq<char>, Seq<char>>) {
    let m1 = LockModel {
        enabled,
        method: spec_sanitize_lock_method(enabled, method),
        on_pause,
        ..m
    };
    if enabled {
        (true, m1, p)
    } else {
        spec_set_locked(m1, p, w, false)
    }
}

/// What a sync from stored settings does: `(ok, lock state, settings)`.
pub open spec fn spec_sync(m: LockModel, p: Map<Seq<char>, Seq<char>>, w: bool) -> (bool, LockModel, Map<Seq<char>, Seq<char>>) {
    match spec_pref_bool(p, lock_enabled_key(), m.enabled) {
        None => (false, m, p),
        Some(enabled) => {
            let method = if p.contains_key(lock_method_key()) {
                p[lock_method_key()]
            } else {
                m.method
            };
            match spec_pref_bool(p, lock_on_pause_key(), m.on_pause) {
                None => (false, m, p),
                Some(on_pause) => {
                    let (ok1, m1, p1) = spec_configure_lock(m, p, w, enabled, method, on_pause);
                    if !ok1 {
                        (false, m1, p1)
                    } else if !m1.initialized {
                        let m2 = LockModel { initialized: true, ..m1 };
                        spec_set_locked(m2, p1, w, m2.enabled)
                    } else {
                        match spec_pref_bool(p1, lock_locked_key(), m1.locked) {
                            None => (false, m1, p1),
                            Some(persisted) => (true, LockModel { locked: m1.enabled && persisted, ..m1 }, p1),
                        }
                    }
                },
            }
        },
    }
}

/// Whether `m` is a manager as a process starts it: lock disabled and
/// unlocked, method `none`, lock on pause, no fatal error, no refresh hint,
/// no hardware reported yet, and no sync done.
pub open spec fn fresh_manager(m: SessionManager) -> bool {
    &&& !m.lock_enabled
    &&& !m.lock_locked
    &&& m.lock_method@ == "none"@
    &&& m.lock_on_pause
    &&& m.fatal_error is None
    &&& m.wallet_refresh_hint == 0
    &&& !m.lock_state_initialized
    &&& !m.hardware.app_foreground && !m.hardware.ble_enabled && !m.hardware.ble_permissions
    &&& !m.hardware.ble_scanning && !m.hardware.ble_advertising && !m.hardware.qr_available
    &&& !m.hardware.qr_active && !m.hardware.camera_permission && !m.hardware.battery_charging
    &&& m.hardware.battery_level_percent == 0
}

impl SessionManager {
    /// A fresh manager: lock disabled and unlocked, method `none`, lock on pause.
    pub fn new() -> (r: SessionManager)
        ensures
            !r.lock_enabled,
            !r.lock_locked,
            r.lock_method@ == "none"@,
            r.lock_on_pause,
            r.fatal_error is None,
            r.wallet_refresh_hint == 0,
            !r.lock_state_initialized,
            fresh_manager(r),
    {
        SessionManager {
            lock_enabled: false,
            lock_locked: false,
            lock_method: text("none"),
            lock_on_pause: true,
            fatal_error: None,
            wallet_refresh_hint: 0,
            hardware: HardwareFacts::default(),
            lock_state_initialized: false,
        }
    }

    fn read_pref(prefs: &PrefStore, key: &str) -> (r: Option<String>)
        ensures
            r is Some <==> prefs@.contains_key(key@),
            r matches Some(v) ==> v@ == prefs@[key@],
    {
        prefs.get_pref(key)
    }

    fn write_pref(prefs: &mut PrefStore, key: &str, value: &str) -> (r: Result<(), SdkError>)
        ensures
            r is Ok <==> old(prefs).writable(),
            old(prefs).writable() ==> final(prefs)@ == old(prefs)@.insert(key@, value@),
            !old(prefs).writable() ==> final(prefs)@ == old(prefs)@,
            r matches Err(e) ==> e is Storage && e.spec_detail() == prefs_refusal(key@),
            final(prefs).writable() == old(prefs).writable(),
    {
        prefs.set_pref(key, value)
    }

    /// A stored lock flag, or `current` when none is stored. A stored value
    /// that is neither `true` nor `false` is an error, never read as `current`.
    fn pref_bool(prefs: &PrefStore, key: &str, current: bool) -> (r: Result<bool, SdkError>)
        ensures
            match spec_pref_bool(prefs@, key@, current) {
                Some(b) => r == Ok::<bool, SdkError>(b),
                None => r matches Err(e) && e is InvalidState && e.spec_detail() == malformed_setting_text(key@, prefs@[key@]),
            },
    {
        match Self::read_pref(prefs, key) {
            None => Ok(current),
            Some(v) => {
                if str_eq(v.as_str(), "true") {
                    Ok(true)
                } else if str_eq(v.as_str(), "false") {
                    Ok(false)
                } else {
                    let mut m = text("lock setting ");
                    m.append(key);
                    m.append(" holds ");
                    push_quoted(&mut m, v.as_str());
                    m.append(", not true or false");
                    Err(SdkError::InvalidState(m))
                }
            },
        }
    }

    fn sanitize_lock_method(enabled: bool, method: &str) -> (r: String)
        ensures
            r@ == spec_sanitize_lock_method(enabled, method@),
    {
        if str_eq(method, "pin") || str_eq(method, "combo") || str_eq(method, "biometric") {
            String::from_str(method)
        } else if enabled {
            text("pin")
        } else {
            text("none")
        }
    }

    /// Set the lock configuration; a disabled lock is also unlocked.
    pub fn configure_lock(&mut self, prefs: &mut PrefStore, enabled: bool, method: &str, lock_on_pause: bool) -> (r: Result<(), SdkError>)
        ensures
            ({
                let (ok, m, p) = spec_configure_lock(old(self).lock_model(), old(prefs)@, old(prefs).writable(), enabled, method@, lock_on_pause);
                &&& r is Ok <==> ok
                &&& final(self).lock_model() == m
                &&& final(prefs)@ == p
            }),
            r matches Err(e) ==> e is Storage && e.spec_detail() == prefs_refusal(lock_locked_key()),
            final(prefs).writable() == old(prefs).writable(),
            final(self).fatal_error == old(self).fatal_error,
            final(self).wallet_refresh_hint == old(self).wallet_refresh_hint,
            final(self).hardware == old(self).hardware,
    {
        self.lock_enabled = enabled;
        self.lock_method = Self::sanitize_lock_method(enabled, method);
        self.lock_on_pause = lock_on_pause;
        if enabled {
            Ok(())
        } else {
            self.set_locked(prefs, false)
        }
    }

    /// Lock or unlock. A lock takes effect only while the lock is enabled;
    /// the locked flag is written either way.
    pub fn set_locked(&mut self, prefs: &mut PrefStore, locked: bool) -> (r: Result<(), SdkError>)
        ensures
            ({
                let (ok, m, p) = spec_set_locked(old(self).lock_model(), old(prefs)@, old(prefs).writable(), locked);
                &&& r is Ok <==> ok
                &&& final(self).lock_model() == m
                &&& final(prefs)@ == p
            }),
            r matches Err(e) ==> e is Storage && e.spec_detail() == prefs_refusal(lock_locked_key()),
            final(prefs).writable() == old(prefs).writable(),
            final(self).fatal_error == old(self).fatal_error,
            final(self).wallet_refresh_hint == old(self).wallet_refresh_hint,
            final(self).hardware == old(self).hardware,
    {
        if self.lock_enabled && locked {
            self.lock_locked = true;
            Self::write_pref(prefs, "lock_locked", "true")
        } else {
            let w = Self::write_pref(prefs, "lock_locked", "false");
            match w {
                Err(e) => Err(e),
                Ok(()) => {
                    self.lock_locked = false;
                    Ok(())
                },
            }
        }
    }

    /// Lock now (effective only while the lock is enabled).
    pub fn lock_now(&mut self, prefs: &mut PrefStore) -> (r: Result<(), SdkError>)
        ensures
            ({
                let (ok, m, p) = spec_set_locked(old(self).lock_model(), old(prefs)@, old(prefs).writable(), true);
                &&& r is Ok <==> ok
                &&& final(self).lock_model() == m
                &&& final(prefs)@ == p
            }),
            r matches Err(e) ==> e is Storage && e.spec_detail() == prefs_refusal(lock_locked_key()),
            final(prefs).writable() == old(prefs).writable(),
            final(self).fatal_error == old(self).fatal_error,
            final(self).hardware == old(self).hardware,
            final(self).wallet_refresh_hint == old(self).wallet_refresh_hint,
    {
        self.set_locked(prefs, true)
    }

    /// Unlock now.
    pub fn unlock_now(&mut self, prefs: &mut PrefStore) -> (r: Result<(), SdkError>)
        ensures
            ({
                let (ok, m, p) = spec_set_locked(old(self).lock_model(), old(prefs)@, old(prefs).writable(), false);
                &&& r is Ok <==> ok
                &&& final(self).lock_model() == m
                &&& final(prefs)@ == p
            }),
            r matches Err(e) ==> e is Storage && e.spec_detail() == prefs_refusal(lock_locked_key()),
            final(prefs).writable() == old(prefs).writable(),
            final(self).fatal_error == old(self).fatal_error,
            final(self).hardware == old(self).hardware,
            final(self).wallet_refresh_hint == old(self).wallet_refresh_hint,
    {
        self.set_locked(prefs, false)
    }

    /// Bring the lock configuration and state in from the stored settings. A
    /// setting never stored keeps the manager's own. On the first sync of a
    /// process an enabled lock comes back locked.
    pub fn sync_lock_config_from_app_state(&mut self, prefs: &mut PrefStore) -> (r: Result<(), SdkError>)
        ensures
            ({
                let (ok, m, p) = spec_sync(old(self).lock_model(), old(prefs)@, old(prefs).writable());
                &&& r is Ok <==> ok
                &&& final(self).lock_model() == m
                &&& final(prefs)@ == p
            }),
            r matches Err(e) ==> e.spec_detail() == spec_sync_refusal(old(self).lock_model(), old(prefs)@, old(prefs).writable())
                && (e is Storage <==> spec_sync_refused_on_write(old(self).lock_model(), old(prefs)@, old(prefs).writable()))
                && (e is InvalidState <==> !spec_sync_refused_on_write(old(self).lock_model(), old(prefs)@, old(prefs).writable())),
            final(prefs).writable() == old(prefs).writable(),
            final(self).fatal_error == old(self).fatal_error,
            final(self).hardware == old(self).hardware,
            final(self).wallet_refresh_hint == old(self).wallet_refresh_hint,
    {
        let enabled = match Self::pref_bool(prefs, "lock_enabled", self.lock_enabled) {
            Ok(b) => b,
            Err(e) => return Err(e),
        };
        let method = match Self::read_pref(prefs, "lock_method") {
            Some(m) => m,
            None => self.lock_method.clone(),
        };
        let lock_on_pause = match Self::pref_bool(prefs, "lock_on_pause", self.lock_on_pause) {
            Ok(b) => b,
            Err(e) => return Err(e),
        };
        let c = self.configure_lock(prefs, enabled, method.as_str(), lock_on_pause);
        if let Err(e) = c {
            return Err(e);
        }
        if !self.lock_state_initialized {
            self.lock_state_initialized = true;
            return if self.lock_enabled {
                self.lock_now(prefs)
            } else {
                self.unlock_now(prefs)
            };
        }
        let persisted_locked = match Self::pref_bool(prefs, "lock_locked", self.lock_locked) {
            Ok(b) => b,
            Err(e) => return Err(e),
        };
        self.lock_locked = self.lock_enabled && persisted_locked;
        Ok(())
    }

    /// Write the whole lock configuration and state to the stored settings.
    pub fn persist_lock_config_to_app_state(&self, prefs: &mut PrefStore) -> (r: Result<(), SdkError>)
        ensures
            r is Ok <==> old(prefs).writable(),
            r matches Err(e) ==> e is Storage && e.spec_detail() == prefs_refusal(lock_enabled_key()),
            !old(prefs).writable() ==> final(prefs)@ == old(prefs)@,
            final(prefs).writable() == old(prefs).writable(),
            old(prefs).writable() ==> final(prefs)@ == old(prefs)@.insert(lock_enabled_key(), flag_text(self.lock_enabled)).insert(
                lock_method_key(),
                self.lock_method@,
            ).insert(lock_on_pause_key(), flag_text(self.lock_on_pause)).insert(
                lock_locked_key(),
                flag_text(self.lock_locked),
            ),
    {
        Self::write_pref(prefs, "lock_enabled", if self.lock_enabled { "true" } else { "false" })?;
        Self::write_pref(prefs, "lock_method", self.lock_method.as_str())?;
        Self::write_pref(prefs, "lock_on_pause", if self.lock_on_pause { "true" } else { "false" })?;
        Self::write_pref(prefs, "lock_locked", if self.lock_locked { "true" } else { "false" })
    }
}

/// A freshly started manager whose stored settings enable the lock comes back
/// locked, and the locked flag is stored.
pub proof fn lemma_cold_start_with_enabled_lock_is_locked(m: LockModel, p: Map<Seq<char>, Seq<char>>, w: bool)
    requires
        !m.initialized,
        spec_sync(m, p, w).0,
        spec_sync(m, p, w).1.enabled,
    ensures
        spec_sync(m, p, w).1.locked,
        spec_sync(m, p, w).2[lock_locked_key()] == "true"@,
{
}

/// After any sync, set_locked or configure_lock, a locked manager has its lock enabled.
pub proof fn lemma_locked_implies_enabled(m: LockModel, p: Map<Seq<char>, Seq<char>>, w: bool, locked: bool, enabled: bool, method: Seq<char>, on_pause: bool)
    ensures
        spec_set_locked(m, p, w, locked).1.locked && !m.locked ==> spec_set_locked(m, p, w, locked).1.enabled,
        spec_configure_lock(m, p, w, enabled, method, on_pause).1.locked && !m.locked ==> spec_configure_lock(m, p, w, enabled, method, on_pause).1.enabled,
        !enabled && spec_configure_lock(m, p, w, enabled, method, on_pause).0 ==> !spec_configure_lock(m, p, w, enabled, method, on_pause).1.locked,
        spec_sync(m, p, w).0 && (m.locked ==> m.enabled) ==> (spec_sync(m, p, w).1.locked ==> spec_sync(m, p, w).1.enabled),
{
}

/// An unlock lasts until the next process start: a running manager whose
/// unlock was saved, and that then syncs from the same settings, stays
/// unlocked. An unlock that could not be saved does not take effect.
pub proof fn lemma_unlock_persists_until_restart(m: LockModel, p: Map<Seq<char>, Seq<char>>, w: bool)
    requires
        m.initialized,
    ensures
        ({
            let (saved, m1, p1) = spec_set_locked(m, p, w, false);
            let (ok, m2, _) = spec_sync(m1, p1, w);
            &&& saved ==> (ok ==> !m2.locked)
            &&& !saved ==> m1 == m && p1 == p
        }),
{
    let (saved, m1, p1) = spec_set_locked(m, p, w, false);
    if saved {
        assert(p1[lock_locked_key()] == "false"@);
    }
    reveal_strlit("lock_locked");
    reveal_strlit("lock_enabled");
    reveal_strlit("lock_on_pause");
    reveal_strlit("true");
    reveal_strlit("false");
    assert("false"@.len() != "true"@.len());
    assert(lock_locked_key().len() != lock_enabled_key().len());
    assert(lock_locked_key().len() != lock_on_pause_key().len());
}

/// A malformed stored lock setting is an error that leaves the manager as it was.
pub proof fn lemma_malformed_enabled_setting_changes_nothing(m: LockModel, p: Map<Seq<char>, Seq<char>>, w: bool)
    requires
        p.contains_key(lock_enabled_key()),
        p[lock_enabled_key()] != "true"@,
        p[lock_enabled_key()] != "false"@,
    ensures
        !spec_sync(m, p, w).0,
        spec_sync(m, p, w).1 == m,
        spec_sync(m, p, w).2 == p,
{
}


/// The session phase: `error` under a fatal error, else `securing_device`
/// while device bootstrap runs, `runtime_loading` until the SDK is ready,
/// `needs_genesis` without an identity, `publication_pending` until the
/// identity is published, then `locked` or `wallet_ready`.
pub open spec fn spec_phase(fatal: bool, securing: bool, sdk_ready: bool, has_id: bool, published: bool, locked: bool) -> Seq<char> {
    if fatal {
        "error"@
    } else if securing {
        "securing_device"@
    } else if !sdk_ready {
        "runtime_loading"@
    } else if !has_id {
        "needs_genesis"@
    } else if !published {
        "publication_pending"@
    } else if locked {
        "locked"@
    } else {
        "wallet_ready"@
    }
}

pub open spec fn spec_identity_status(sdk_ready: bool, has_identity: bool) -> Seq<char> {
    if !sdk_ready {
        "runtime_not_ready"@
    } else if has_identity {
        "ready"@
    } else {
        "missing"@
    }
}

pub open spec fn spec_env_config_status(sdk_ready: bool) -> Seq<char> {
    if !sdk_ready {
        "loading"@
    } else {
        "ready"@
    }
}

/// Lock status in a session snapshot.
#[derive(Debug, Clone)]
pub struct LockStatus {
    pub enabled: bool,
    pub locked: bool,
    pub method: String,
    pub lock_on_pause: bool,
}

#[derive(Debug, Clone, Copy)]
pub struct BleStatus {
    pub enabled: bool,
    pub permissions_granted: bool,
    pub scanning: bool,
    pub advertising: bool,
}

#[derive(Debug, Clone, Copy)]
pub struct QrStatus {
    pub available: bool,
    pub active: bool,
    pub camera_permission: bool,
}

#[derive(Debug, Clone, Copy)]
pub struct BatteryStatus {
    pub charging: bool,
    pub level_percent: u32,
}

#[derive(Debug, Clone, Copy)]
pub struct HardwareStatus {
    pub app_foreground: bool,
    pub ble: Option<BleStatus>,
    pub qr: Option<QrStatus>,
    pub battery: Option<BatteryStatus>,
}

/// The full session snapshot (`AppSessionStateProto`).
#[derive(Debug, Clone)]
pub struct SessionSnapshot {
    pub phase: String,
    pub identity_status: String,
    pub env_config_status: String,
    pub lock_status: Option<LockStatus>,
    pub hardware_status: Option<HardwareStatus>,
    pub fatal_error: String,
    pub wallet_refresh_hint: u64,
}

/// The snapshot `m` projects, given the readiness and identity facts.
pub open spec fn snapshot_of(s: SessionSnapshot, m: SessionManager, securing: bool, sdk_ready: bool, has_identity: bool, published: bool) -> bool {
    &&& s.phase@ == spec_phase(m.fatal_error is Some, securing, sdk_ready, has_identity, published, m.lock_locked)
    &&& s.identity_status@ == spec_identity_status(sdk_ready, has_identity)
    &&& s.env_config_status@ == spec_env_config_status(sdk_ready)
    &&& s.lock_status matches Some(l) && l.enabled == m.lock_enabled && l.locked == m.lock_locked
        && l.method@ == m.lock_method@ && l.lock_on_pause == m.lock_on_pause
    &&& s.hardware_status matches Some(h) && h.app_foreground == m.hardware.app_foreground
        && h.ble == Some(BleStatus {
            enabled: m.hardware.ble_enabled,
            permissions_granted: m.hardware.ble_permissions,
            scanning: m.hardware.ble_scanning,
            advertising: m.hardware.ble_advertising,
        }) && h.qr == Some(QrStatus {
            available: m.hardware.qr_available,
            active: m.hardware.qr_active,
            camera_permission: m.hardware.camera_permission,
        }) && h.battery == Some(BatteryStatus {
            charging: m.hardware.battery_charging,
            level_percent: m.hardware.battery_level_percent,
        })
    &&& s.fatal_error@ == (match m.fatal_error {
        Some(e) => e@,
        None => Seq::<char>::empty(),
    })
    &&& s.wallet_refresh_hint == m.wallet_refresh_hint
}

impl SessionManager {
    fn compute_phase(&self, securing: bool, sdk_ready: bool, has_id: bool, published: bool) -> (r: &'static str)
        ensures
            r@ == spec_phase(self.fatal_error is Some, securing, sdk_ready, has_id, published, self.lock_locked),
    {
        let fatal = self.fatal_error.is_some();
        if fatal {
            "error"
        } else if securing {
            "securing_device"
        } else if !sdk_ready {
            "runtime_loading"
        } else if !has_id {
            "needs_genesis"
        } else if !published {
            "publication_pending"
        } else if self.lock_locked {
            "locked"
        } else {
            "wallet_ready"
        }
    }

    fn compute_identity_status(&self, sdk_ready: bool, has_identity: bool) -> (r: &'static str)
        ensures
            r@ == spec_identity_status(sdk_ready, has_identity),
    {
        if !sdk_ready {
            return "runtime_not_ready";
        }
        if has_identity {
            return "ready";
        }
        "missing"
    }

    fn compute_env_config_status(&self, sdk_ready: bool) -> (r: &'static str)
        ensures
            r@ == spec_env_config_status(sdk_ready),
    {
        if !sdk_ready {
            return "loading";
        }
        "ready"
    }

    /// Apply the host's hardware facts (battery level capped at 100). When the
    /// app went to the background with lock-on-pause set and the lock enabled
    /// and open, lock — except while the QR scanner is active.
    pub fn apply_hardware_facts(&mut self, prefs: &mut PrefStore, facts: &SessionHardwareFacts) -> (r: Result<(), SdkError>)
        ensures
            final(self).hardware.app_foreground == facts.app_foreground,
            final(self).hardware.ble_enabled == facts.ble_enabled,
            final(self).hardware.ble_permissions == facts.ble_permissions,
            final(self).hardware.ble_scanning == facts.ble_scanning,
            final(self).hardware.ble_advertising == facts.ble_advertising,
            final(self).hardware.qr_available == facts.qr_available,
            final(self).hardware.qr_active == facts.qr_active,
            final(self).hardware.camera_permission == facts.camera_permission,
            final(self).hardware.battery_charging == facts.battery_charging,
            final(self).hardware.battery_level_percent == (if facts.battery_level_percent < 100 { facts.battery_level_percent } else { 100 }),
            ({
                let auto = !facts.app_foreground && old(self).lock_on_pause && old(self).lock_enabled
                    && !old(self).lock_locked && !facts.qr_active;
                let (ok, m, p) = spec_set_locked(old(self).lock_model(), old(prefs)@, old(prefs).writable(), true);
                &&& auto ==> ((r is Ok <==> ok) && final(self).lock_model() == m && final(prefs)@ == p)
                &&& !auto ==> r is Ok && final(self).lock_model() == old(self).lock_model() && final(prefs)@ == old(prefs)@
            }),
            r matches Err(e) ==> e is Storage && e.spec_detail() == prefs_refusal(lock_locked_key()),
            final(prefs).writable() == old(prefs).writable(),
            final(self).fatal_error == old(self).fatal_error,
            final(self).wallet_refresh_hint == old(self).wallet_refresh_hint,
    {
        self.hardware.app_foreground = facts.app_foreground;
        self.hardware.ble_enabled = facts.ble_enabled;
        self.hardware.ble_permissions = facts.ble_permissions;
        self.hardware.ble_scanning = facts.ble_scanning;
        self.hardware.ble_advertising = facts.ble_advertising;
        self.hardware.qr_available = facts.qr_available;
        self.hardware.qr_active = facts.qr_active;
        self.hardware.camera_permission = facts.camera_permission;
        self.hardware.battery_charging = facts.battery_charging;
        self.hardware.battery_level_percent = if facts.battery_level_percent < 100 { facts.battery_level_percent } else { 100 };
        if !facts.app_foreground && self.lock_on_pause && self.lock_enabled && !self.lock_locked {
            if !facts.qr_active {
                return self.lock_now(prefs);
            }
        }
        Ok(())
    }

    /// Build the full session snapshot from this manager and the readiness
    /// and identity facts.
    pub fn compute_snapshot(&self, securing: bool, sdk_ready: bool, has_identity: bool, published: bool) -> (s: SessionSnapshot)
        ensures
            snapshot_of(s, *self, securing, sdk_ready, has_identity, published),
    {
        let phase = String::from_str(self.compute_phase(securing, sdk_ready, has_identity, published));
        let identity_status = String::from_str(self.compute_identity_status(sdk_ready, has_identity));
        let env_config_status = String::from_str(self.compute_env_config_status(sdk_ready));
        let fatal_error = match &self.fatal_error {
            Some(e) => e.clone(),
            None => String::new(),
        };
        SessionSnapshot {
            phase,
            identity_status,
            env_config_status,
            lock_status: Some(LockStatus {
                enabled: self.lock_enabled,
                locked: self.lock_locked,
                method: self.lock_method.clone(),
                lock_on_pause: self.lock_on_pause,
            }),
            hardware_status: Some(HardwareStatus {
                app_foreground: self.hardware.app_foreground,
                ble: Some(BleStatus {
                    enabled: self.hardware.ble_enabled,
                    permissions_granted: self.hardware.ble_permissions,
                    scanning: self.hardware.ble_scanning,
                    advertising: self.hardware.ble_advertising,
                }),
                qr: Some(QrStatus {
                    available: self.hardware.qr_available,
                    active: self.hardware.qr_active,
                    camera_permission: self.hardware.camera_permission,
                }),
                battery: Some(BatteryStatus {
                    charging: self.hardware.battery_charging,
                    level_percent: self.hardware.battery_level_percent,
                }),
            }),
            fatal_error,
            wallet_refresh_hint: self.wallet_refresh_hint,
        }
    }
}

/// What a lookup of this device's identity publication found.
#[derive(Debug)]
pub enum PublicationLookup {
    /// Storage is not initialised: nothing can be looked up yet.
    StorageNotReady,
    /// The app state holds no device id.
    NoDeviceId,
    /// The recorded publication state, or why it could not be read.
    Read(Result<bool, SdkError>),
}

/// The process-wide session state: the SDK readiness and bootstrap flags,
/// the monotone publication latch, and the session manager.
pub struct SessionRuntime {
    pub sdk_ready: bool,
    pub bootstrap_securing: bool,
    pub identity_published: bool,
    pub manager: SessionManager,
}

impl SessionRuntime {
    /// A runtime at process start: nothing ready, nothing published.
    pub fn new() -> (r: SessionRuntime)
        ensures
            !r.sdk_ready,
            !r.bootstrap_securing,
            !r.identity_published,
            !r.manager.lock_enabled && !r.manager.lock_locked && !r.manager.lock_state_initialized,
            r.manager.fatal_error is None,
            fresh_manager(r.manager),
    {
        SessionRuntime {
            sdk_ready: false,
            bootstrap_securing: false,
            identity_published: false,
            manager: SessionManager::new(),
        }
    }

    /// Whether the identity is published, from the latch or the lookup. A
    /// lookup that could not be made or read establishes nothing; a lookup
    /// that found the identity published latches it (publication is monotone).
    pub fn identity_published(&mut self, lookup: &PublicationLookup) -> (r: bool)
        ensures
            r == (old(self).identity_published || lookup matches PublicationLookup::Read(Ok(true))),
            final(self).identity_published == r,
            final(self).sdk_ready == old(self).sdk_ready,
            final(self).bootstrap_securing == old(self).bootstrap_securing,
            final(self).manager == old(self).manager,
    {
        if self.identity_published {
            return true;
        }
        let ready = match lookup {
            PublicationLookup::StorageNotReady => false,
            PublicationLookup::NoDeviceId => false,
            PublicationLookup::Read(Ok(r)) => *r,
            PublicationLookup::Read(Err(_)) => false,
        };
        if ready {
            self.identity_published = true;
        }
        ready
    }

    /// Whether a snapshot needs a publication lookup: only with an identity
    /// and while the latch is still down.
    pub fn needs_publication_lookup(&self, has_identity: bool) -> (r: bool)
        ensures
            r == (has_identity && !self.identity_published),
    {
        has_identity && !self.identity_published
    }

    /// The session snapshot. Without an identity nothing is looked up.
    pub fn snapshot(&mut self, has_identity: bool, lookup: &PublicationLookup) -> (s: SessionSnapshot)
        ensures
            ({
                let published = has_identity && (old(self).identity_published || lookup matches PublicationLookup::Read(Ok(true)));
                &&& snapshot_of(s, old(self).manager, old(self).bootstrap_securing, old(self).sdk_ready, has_identity, published)
                &&& final(self).identity_published == (old(self).identity_published || (has_identity && lookup matches PublicationLookup::Read(Ok(true))))
            }),
            final(self).manager == old(self).manager,
            final(self).sdk_ready == old(self).sdk_ready,
            final(self).bootstrap_securing == old(self).bootstrap_securing,
    {
        let published = has_identity && self.identity_published(lookup);
        self.manager.compute_snapshot(self.bootstrap_securing, self.sdk_ready, has_identity, published)
    }
}

/// Set the SDK readiness flag.
pub fn set_sdk_ready(rt: &mut SessionRuntime, ready: bool)
    ensures
        final(rt).sdk_ready == ready,
        final(rt).bootstrap_securing == old(rt).bootstrap_securing,
        final(rt).identity_published == old(rt).identity_published,
        final(rt).manager == old(rt).manager,
{
    rt.sdk_ready = ready;
}

/// The refusal of the lock setting `key` when it holds `value`, neither
/// `true` nor `false`: the value shown quoted.
pub open spec fn malformed_setting_text(key: Seq<char>, value: Seq<char>) -> Seq<char> {
    "lock setting "@ + key + " holds "@ + quoted(value) + ", not true or false"@
}

/// The refusal of a sync whose stored settings cannot be read: the first
/// flag read that is neither `true` nor `false`.
pub open spec fn spec_sync_refusal(m: LockModel, p: Map<Seq<char>, Seq<char>>, w: bool) -> Seq<char> {
    match spec_pref_bool(p, lock_enabled_key(), m.enabled) {
        None => malformed_setting_text(lock_enabled_key(), p[lock_enabled_key()]),
        Some(enabled) => match spec_pref_bool(p, lock_on_pause_key(), m.on_pause) {
            None => malformed_setting_text(lock_on_pause_key(), p[lock_on_pause_key()]),
            Some(on_pause) => {
                let method = if p.contains_key(lock_method_key()) {
                    p[lock_method_key()]
                } else {
                    m.method
                };
                let (ok1, m1, p1) = spec_configure_lock(m, p, w, enabled, method, on_pause);
                if !ok1 || !m1.initialized {
                    prefs_refusal(lock_locked_key())
                } else {
                    malformed_setting_text(lock_locked_key(), p1[lock_locked_key()])
                }
            },
        },
    }
}

/// Whether a failed sync failed on a write (the locked flag could not be
/// saved) rather than on a stored setting it could not read.
pub open spec fn spec_sync_refused_on_write(m: LockModel, p: Map<Seq<char>, Seq<char>>, w: bool) -> bool {
    match spec_pref_bool(p, lock_enabled_key(), m.enabled) {
        None => false,
        Some(enabled) => match spec_pref_bool(p, lock_on_pause_key(), m.on_pause) {
            None => false,
            Some(on_pause) => {
                let method = if p.contains_key(lock_method_key()) {
                    p[lock_method_key()]
                } else {
                    m.method
                };
                let (ok1, m1, p1) = spec_configure_lock(m, p, w, enabled, method, on_pause);
                !ok1 || !m1.initialized
            },
        },
    }
}

/// The error a snapshot gives when the lock settings cannot be synced.
pub open spec fn snapshot_refusal_text(m: LockModel, p: Map<Seq<char>, Seq<char>>, w: bool) -> Seq<char> {
    "session lock settings: "@ + spec_sync_refusal(m, p, w)
}

fn lock_settings_error(e: SdkError) -> (r: String)
    ensures
        r@ == "session lock settings: "@ + e.spec_detail(),
{
    let mut m = text("session lock settings: ");
    m.append(e.detail().as_str());
    m
}

/// Sync the lock settings, then snapshot. A lock setting that cannot be read
/// is the error, and no snapshot is made.
pub fn session_snapshot(rt: &mut SessionRuntime, prefs: &mut PrefStore, has_identity: bool, lookup: &PublicationLookup) -> (r: Result<SessionSnapshot, String>)
    ensures
        ({
            let (ok, m, p) = spec_sync(old(rt).manager.lock_model(), old(prefs)@, old(prefs).writable());
            &&& r is Ok <==> ok
            &&& r matches Err(t) ==> t@ == snapshot_refusal_text(old(rt).manager.lock_model(), old(prefs)@, old(prefs).writable())
            &&& final(rt).manager.lock_model() == m
            &&& final(prefs)@ == p
            &&& final(rt).manager.fatal_error == old(rt).manager.fatal_error
            &&& r matches Ok(s) ==> snapshot_of(s, final(rt).manager, old(rt).bootstrap_securing, old(rt).sdk_ready, has_identity,
                has_identity && (old(rt).identity_published || lookup matches PublicationLookup::Read(Ok(true))))
        }),
        synced_and_snapped(*old(rt), old(prefs)@, old(prefs).writable(), *final(rt), final(prefs)@, has_identity, *lookup, r),
        final(prefs).writable() == old(prefs).writable(),
        final(rt).manager.hardware == old(rt).manager.hardware,
{
    if let Err(e) = rt.manager.sync_lock_config_from_app_state(prefs) {
        return Err(lock_settings_error(e));
    }
    Ok(rt.snapshot(has_identity, lookup))
}

/// The local frame of an encoded envelope: the frame version byte `0x03`,
/// then the envelope's bytes.
pub fn frame_local_envelope(envelope: &[u8]) -> (r: Vec<u8>)
    ensures
        r@ == seq![0x03u8] + envelope@,
{
    let mut out: Vec<u8> = Vec::new();
    out.push(0x03u8);
    extend_bytes(&mut out, envelope);
    out
}

/// What the snapshot bytes are for a snapshot result: its refusal as it
/// stands, or the local frame of the envelope `encode_envelope` writes
/// around the snapshot.
pub open spec fn enveloped<F: Fn(&SessionSnapshot) -> Vec<u8>>(
    snap: Result<SessionSnapshot, String>,
    encode_envelope: F,
    r: Result<Vec<u8>, String>,
) -> bool {
    match snap {
        Err(t) => r == Err::<Vec<u8>, String>(t),
        Ok(s) => exists|e: Vec<u8>| #[trigger] encode_envelope.ensures((&s,), e) && (r matches Ok(b) && b@ == seq![0x03u8]
            + e@),
    }
}

/// Sync the lock settings, snapshot, and frame the envelope that carries the
/// snapshot as the session-state response (`encode_envelope` writes it) for
/// the host to relay untouched. A lock setting that cannot be read is the
/// error, and no snapshot is made.
pub fn get_session_snapshot_bytes<F: Fn(&SessionSnapshot) -> Vec<u8>>(
    rt: &mut SessionRuntime,
    prefs: &mut PrefStore,
    has_identity: bool,
    lookup: &PublicationLookup,
    encode_envelope: F,
) -> (r: Result<Vec<u8>, String>)
    requires
        forall|s: &SessionSnapshot| encode_envelope.requires((s,)),
    ensures
        exists|snap: Result<SessionSnapshot, String>|
            synced_and_snapped(*old(rt), old(prefs)@, old(prefs).writable(), *final(rt), final(prefs)@, has_identity, *lookup, snap)
            && #[trigger] enveloped(snap, encode_envelope, r),
        final(prefs).writable() == old(prefs).writable(),
        final(rt).manager.hardware == old(rt).manager.hardware,
{
    let snap = session_snapshot(rt, prefs, has_identity, lookup);
    let ghost g = snap;
    let r = match snap {
        Err(t) => Err(t),
        Ok(s) => {
            let e = encode_envelope(&s);
            Ok(frame_local_envelope(e.as_slice()))
        },
    };
    assert(enveloped(g, encode_envelope, r));
    r
}

/// The publication latch after a snapshot: raised once a lookup with an
/// identity reads it published, never lowered.
pub open spec fn spec_latch(latch: bool, has_identity: bool, lookup: PublicationLookup) -> bool {
    latch || (has_identity && lookup matches PublicationLookup::Read(Ok(true)))
}

/// What a call that syncs the lock settings, changes the manager by `step`
/// and snapshots leaves: on a failed sync the sync's lock state and settings
/// with nothing else changed; on a good one, the stepped manager, the raised
/// latch, and the snapshot of the state after the call.
pub open spec fn synced_and_snapped(
    old_rt: SessionRuntime,
    old_p: Map<Seq<char>, Seq<char>>,
    w: bool,
    final_rt: SessionRuntime,
    final_p: Map<Seq<char>, Seq<char>>,
    has_identity: bool,
    lookup: PublicationLookup,
    r: Result<SessionSnapshot, String>,
) -> bool {
    let (ok, m, p) = spec_sync(old_rt.manager.lock_model(), old_p, w);
    &&& r is Ok <==> ok
    &&& final_rt.sdk_ready == old_rt.sdk_ready
    &&& final_rt.bootstrap_securing == old_rt.bootstrap_securing
    &&& final_rt.manager.wallet_refresh_hint == old_rt.manager.wallet_refresh_hint
    &&& !ok ==> {
        &&& r matches Err(t) && t@ == snapshot_refusal_text(old_rt.manager.lock_model(), old_p, w)
        &&& final_rt.manager.lock_model() == m
        &&& final_p == p
        &&& final_rt.manager.fatal_error == old_rt.manager.fatal_error
        &&& final_rt.manager.hardware == old_rt.manager.hardware
        &&& final_rt.identity_published == old_rt.identity_published
    }
    &&& ok ==> {
        &&& final_rt.identity_published == spec_latch(old_rt.identity_published, has_identity, lookup)
        &&& r matches Ok(s) && snapshot_of(s, final_rt.manager, old_rt.bootstrap_securing, old_rt.sdk_ready, has_identity,
            has_identity && final_rt.identity_published)
    }
}

/// The hardware facts a manager keeps from a report: the report, with the
/// battery level capped at 100.
pub open spec fn spec_reported_hardware(f: SessionHardwareFacts) -> HardwareFacts {
    HardwareFacts {
        app_foreground: f.app_foreground,
        ble_enabled: f.ble_enabled,
        ble_permissions: f.ble_permissions,
        ble_scanning: f.ble_scanning,
        ble_advertising: f.ble_advertising,
        qr_available: f.qr_available,
        qr_active: f.qr_active,
        camera_permission: f.camera_permission,
        battery_charging: f.battery_charging,
        battery_level_percent: if f.battery_level_percent < 100 { f.battery_level_percent } else { 100 },
    }
}

/// Whether a hardware report locks the session: the app left the
/// foreground, the lock is on and set to lock on pause, it is not locked
/// yet, and no QR scan is active.
pub open spec fn spec_auto_lock(m: LockModel, f: SessionHardwareFacts) -> bool {
    !f.app_foreground && m.on_pause && m.enabled && !m.locked && !f.qr_active
}

/// The error a snapshot gives when the hardware report's lock cannot be saved.
pub open spec fn hardware_lock_refusal_text() -> Seq<char> {
    "session lock: "@ + prefs_refusal(lock_locked_key())
}

fn lock_error(e: SdkError) -> (r: String)
    ensures
        r@ == "session lock: "@ + e.spec_detail(),
{
    let mut m = text("session lock: ");
    m.append(e.detail().as_str());
    m
}

/// Sync the lock settings, apply the host's hardware facts, then snapshot.
/// A report that locks the session locks it even when the locked flag cannot
/// be saved; that failure is then the error, and no snapshot is made.
pub fn update_hardware_and_snapshot(rt: &mut SessionRuntime, prefs: &mut PrefStore, facts: &SessionHardwareFacts, has_identity: bool, lookup: &PublicationLookup) -> (r: Result<SessionSnapshot, String>)
    ensures
        final(prefs).writable() == old(prefs).writable(),
        final(rt).sdk_ready == old(rt).sdk_ready,
        final(rt).bootstrap_securing == old(rt).bootstrap_securing,
        final(rt).manager.wallet_refresh_hint == old(rt).manager.wallet_refresh_hint,
        final(rt).manager.fatal_error == old(rt).manager.fatal_error,
        ({
            let w = old(prefs).writable();
            let (ok, m, p) = spec_sync(old(rt).manager.lock_model(), old(prefs)@, w);
            let auto = spec_auto_lock(m, *facts);
            let (saved, m2, p2) = spec_set_locked(m, p, w, true);
            &&& !ok ==> {
                &&& r matches Err(t) && t@ == snapshot_refusal_text(old(rt).manager.lock_model(), old(prefs)@, w)
                &&& final(rt).manager.lock_model() == m
                &&& final(prefs)@ == p
                &&& final(rt).manager.hardware == old(rt).manager.hardware
                &&& final(rt).identity_published == old(rt).identity_published
            }
            &&& ok ==> final(rt).manager.hardware == spec_reported_hardware(*facts)
            &&& ok && auto ==> final(rt).manager.lock_model() == m2 && final(prefs)@ == p2
            &&& ok && !auto ==> final(rt).manager.lock_model() == m && final(prefs)@ == p
            &&& ok && auto && !saved ==> {
                &&& r matches Err(t) && t@ == hardware_lock_refusal_text()
                &&& final(rt).identity_published == old(rt).identity_published
            }
            &&& ok && (!auto || saved) ==> {
                &&& final(rt).identity_published == spec_latch(old(rt).identity_published, has_identity, *lookup)
                &&& r matches Ok(s) && snapshot_of(s, final(rt).manager, old(rt).bootstrap_securing, old(rt).sdk_ready,
                    has_identity, has_identity && final(rt).identity_published)
            }
        }),
{
    if let Err(e) = rt.manager.sync_lock_config_from_app_state(prefs) {
        return Err(lock_settings_error(e));
    }
    if let Err(e) = rt.manager.apply_hardware_facts(prefs, facts) {
        return Err(lock_error(e));
    }
    Ok(rt.snapshot(has_identity, lookup))
}

/// Sync the lock settings, record a fatal error, then snapshot: the phase is `error`.
pub fn set_fatal_error_and_snapshot(rt: &mut SessionRuntime, prefs: &mut PrefStore, message: &str, has_identity: bool, lookup: &PublicationLookup) -> (r: Result<SessionSnapshot, String>)
    ensures
        synced_and_snapped(*old(rt), old(prefs)@, old(prefs).writable(), *final(rt), final(prefs)@, has_identity, *lookup, r),
        final(prefs).writable() == old(prefs).writable(),
        ({
            let (ok, m, p) = spec_sync(old(rt).manager.lock_model(), old(prefs)@, old(prefs).writable());
            ok ==> {
                &&& final(rt).manager.lock_model() == m
                &&& final(prefs)@ == p
                &&& final(rt).manager.hardware == old(rt).manager.hardware
                &&& final(rt).manager.fatal_error matches Some(f) && f@ == message@
                &&& r matches Ok(s) && s.phase@ == "error"@ && s.fatal_error@ == message@
            }
        }),
{
    if let Err(e) = rt.manager.sync_lock_config_from_app_state(prefs) {
        return Err(lock_settings_error(e));
    }
    rt.manager.fatal_error = Some(String::from_str(message));
    Ok(rt.snapshot(has_identity, lookup))
}

/// Sync the lock settings, clear the fatal error, then snapshot.
pub fn clear_fatal_error_and_snapshot(rt: &mut SessionRuntime, prefs: &mut PrefStore, has_identity: bool, lookup: &PublicationLookup) -> (r: Result<SessionSnapshot, String>)
    ensures
        synced_and_snapped(*old(rt), old(prefs)@, old(prefs).writable(), *final(rt), final(prefs)@, has_identity, *lookup, r),
        final(prefs).writable() == old(prefs).writable(),
        ({
            let (ok, m, p) = spec_sync(old(rt).manager.lock_model(), old(prefs)@, old(prefs).writable());
            ok ==> {
                &&& final(rt).manager.lock_model() == m
                &&& final(prefs)@ == p
                &&& final(rt).manager.hardware == old(rt).manager.hardware
                &&& final(rt).manager.fatal_error is None
            }
        }),
{
    if let Err(e) = rt.manager.sync_lock_config_from_app_state(prefs) {
        return Err(lock_settings_error(e));
    }
    rt.manager.fatal_error = None;
    Ok(rt.snapshot(has_identity, lookup))
}

/// The phases in their order of precedence, over every input: a fatal
/// error first; then an in-progress bootstrap, which shows the securing
/// screen even while the SDK is not ready; then a runtime that is not ready;
/// then a missing identity, an unpublished one, a lock; and only then a
/// ready wallet.
pub proof fn lemma_phase_precedence(fatal: bool, securing: bool, sdk_ready: bool, has_id: bool, published: bool, locked: bool)
    ensures
        !fatal && securing ==> spec_phase(fatal, securing, sdk_ready, has_id, published, locked) == "securing_device"@,
        !fatal && !securing && !sdk_ready ==> spec_phase(fatal, securing, sdk_ready, has_id, published, locked)
            == "runtime_loading"@,
        !fatal && !securing && sdk_ready && !has_id ==> spec_phase(fatal, securing, sdk_ready, has_id, published, locked)
            == "needs_genesis"@,
        !fatal && !securing && sdk_ready && has_id && !published ==> spec_phase(
            fatal,
            securing,
            sdk_ready,
            has_id,
            published,
            locked,
        ) == "publication_pending"@,
        !fatal && !securing && sdk_ready && has_id && published && locked ==> spec_phase(
            fatal,
            securing,
            sdk_ready,
            has_id,
            published,
            locked,
        ) == "locked"@,
        !fatal && !securing && sdk_ready && has_id && published && !locked ==> spec_phase(
            fatal,
            securing,
            sdk_ready,
            has_id,
            published,
            locked,
        ) == "wallet_ready"@,
{
}

/// A fatal error overrides every other phase.
pub proof fn lemma_fatal_error_overrides_phase(securing: bool, sdk_ready: bool, has_id: bool, published: bool, locked: bool)
    ensures
        spec_phase(true, securing, sdk_ready, has_id, published, locked) == "error"@,
{
}

/// A durable local identity that is not yet published is never `wallet_ready`.
pub proof fn lemma_unpublished_identity_is_not_ready(fatal: bool, securing: bool, sdk_ready: bool, locked: bool)
    ensures
        spec_phase(fatal, securing, sdk_ready, true, false, locked) != "wallet_ready"@,
{
    reveal_strlit("wallet_ready");
    reveal_strlit("publication_pending");
    reveal_strlit("error");
    reveal_strlit("securing_device");
    reveal_strlit("runtime_loading");
    assert("wallet_ready"@.len() == 12);
    assert("publication_pending"@.len() != 12);
    assert("error"@.len() != 12);
    assert("securing_device"@.len() != 12);
    assert("runtime_loading"@.len() != 12);
}

} // verus!
