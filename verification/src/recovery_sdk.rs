//! The recovery SDK's own state and decisions: the unlocked session's key
//! caches, the NFC backup flags, the sealing of the recovery key at rest, the
//! wallet mnemonic, the capsule index, the rollup's per-peer heights, and
//! the checks the recovery activation runs on persisted state.

use vstd::prelude::*;
use chacha20poly1305::aead::Aead;
use chacha20poly1305::{KeyInit, XChaCha20Poly1305, XNonce};
use crate::bytes::{bytes_eq, copy_bytes, extend_bytes, fixed32, str_eq};
use crate::error::{SdkError, text};
use crate::leaf_cache::{applied, collected, insert_key_sorted, key_lt, keys_sorted, post_leaf_cache, Key32, LeafEntry, PostState};
use crate::text_id::{encode_base32_crockford, push_padded_decimal, spec_base32_crockford, spec_padded_decimal};

verus! {

/// What XChaCha20-Poly1305 encryption gives for `plaintext` under `key` and
/// `nonce`: the ciphertext with its tag appended.
pub uninterp spec fn xchacha20poly1305_seal(key: Seq<u8>, nonce: Seq<u8>, plaintext: Seq<u8>) -> Seq<u8>;

/// What XChaCha20-Poly1305 decryption gives for `ciphertext` under `key` and
/// `nonce`: the plaintext when the ciphertext is authentic, `None` otherwise.
pub uninterp spec fn xchacha20poly1305_open(key: Seq<u8>, nonce: Seq<u8>, ciphertext: Seq<u8>) -> Option<Seq<u8>>;

/// chacha20poly1305's `XChaCha20Poly1305::encrypt` under `key` and `nonce`:
/// it fails only for a plaintext of 2^32 - 1 blocks of 64 bytes or more;
/// the ciphertext is the plaintext's length plus the 16-byte tag, and
/// decrypting it under the same key and nonce gives the plaintext back.
#[verifier::external_body]
fn xchacha_seal(key: &[u8; 32], nonce: &[u8; 24], plaintext: &[u8]) -> (r: Result<Vec<u8>, String>)
    ensures
        plaintext@.len() < 64 * 4294967295 ==> r is Ok,
        r matches Ok(ct) ==> ct@ == xchacha20poly1305_seal(key@, nonce@, plaintext@),
        r matches Ok(ct) ==> ct@.len() == plaintext@.len() + 16,
        r matches Ok(ct) ==> xchacha20poly1305_open(key@, nonce@, ct@) == Some(plaintext@),
{
    let cipher = match XChaCha20Poly1305::new_from_slice(key) {
        Ok(c) => c,
        Err(e) => return Err(e.to_string()),
    };
    match cipher.encrypt(XNonce::from_slice(nonce), plaintext) {
        Ok(ct) => Ok(ct),
        Err(e) => Err(e.to_string()),
    }
}

/// chacha20poly1305's `XChaCha20Poly1305::decrypt` under `key` and `nonce`:
/// the plaintext exactly when the ciphertext is authentic.
#[verifier::external_body]
fn xchacha_open(key: &[u8; 32], nonce: &[u8; 24], ciphertext: &[u8]) -> (r: Result<Vec<u8>, String>)
    ensures
        r is Ok <==> xchacha20poly1305_open(key@, nonce@, ciphertext@) is Some,
        r matches Ok(p) ==> Some(p@) == xchacha20poly1305_open(key@, nonce@, ciphertext@),
{
    let cipher = match XChaCha20Poly1305::new_from_slice(key) {
        Ok(c) => c,
        Err(e) => return Err(e.to_string()),
    };
    match cipher.decrypt(XNonce::from_slice(nonce), ciphertext) {
        Ok(p) => Ok(p),
        Err(e) => Err(e.to_string()),
    }
}

/// 32 bytes from the operating system's random source (rand's `OsRng`), or
/// the reason it failed. Nothing is promised of the bytes.
#[verifier::external_body]
fn os_entropy_32() -> (r: Result<[u8; 32], String>) {
    let mut entropy = [0u8; 32];
    match rand::TryRngCore::try_fill_bytes(&mut rand::rngs::OsRng, &mut entropy) {
        Ok(()) => Ok(entropy),
        Err(e) => Err(e.to_string()),
    }
}

/// The English BIP-39 mnemonic bip39 writes for `entropy`.
pub uninterp spec fn bip39_english_mnemonic(entropy: Seq<u8>) -> Seq<char>;

/// The number of spaces in `s`.
pub open spec fn space_count(s: Seq<char>) -> nat
    decreases s.len(),
{
    if s.len() == 0 {
        0
    } else {
        space_count(s.drop_last()) + if s.last() == ' ' { 1nat } else { 0nat }
    }
}

/// bip39's `Mnemonic::from_entropy` on 32 bytes, written out: 256 bits of
/// entropy always make a mnemonic, of 24 English words joined by single
/// spaces.
#[verifier::external_body]
fn mnemonic_from_entropy(entropy: &[u8; 32]) -> (r: Result<String, String>)
    ensures
        r is Ok,
        r matches Ok(m) ==> m@ == bip39_english_mnemonic(entropy@),
        r matches Ok(m) ==> space_count(m@) == 23,
{
    match bip39::Mnemonic::from_entropy(entropy) {
        Ok(m) => Ok(m.to_string()),
        Err(e) => Err(e.to_string()),
    }
}

/// Whether bip39 parses `mnemonic` as a valid mnemonic.
pub uninterp spec fn bip39_parses(mnemonic: Seq<char>) -> bool;

/// The 64-byte seed bip39 derives from a valid mnemonic with the empty
/// passphrase.
pub uninterp spec fn bip39_seed(mnemonic: Seq<char>) -> Seq<u8>;

/// bip39's `Mnemonic::parse`, then `to_seed("")`: the 64-byte seed of a
/// mnemonic bip39 accepts, or why it is refused.
#[verifier::external_body]
fn mnemonic_seed(mnemonic: &str) -> (r: Result<Vec<u8>, String>)
    ensures
        r is Ok <==> bip39_parses(mnemonic@),
        r matches Ok(s) ==> s@ == bip39_seed(mnemonic@) && s@.len() == 64,
{
    match bip39::Mnemonic::parse(mnemonic) {
        Ok(m) => Ok(m.to_seed("").to_vec()),
        Err(e) => Err(e.to_string()),
    }
}

/// The 24-word English BIP-39 mnemonic of 256 bits of entropy.
pub fn mnemonic_for_entropy(entropy: &[u8; 32]) -> (r: String)
    ensures
        r@ == bip39_english_mnemonic(entropy@),
        space_count(r@) == 23,
{
    mnemonic_from_entropy(entropy).unwrap()
}

/// Generate a 24-word BIP-39 mnemonic from 256 bits of the operating
/// system's randomness: the mnemonic of the entropy drawn, or a crypto error
/// when the random source fails.
pub fn generate_mnemonic() -> (r: Result<String, SdkError>)
    ensures
        r matches Ok(m) ==> (exists|e: Seq<u8>| e.len() == 32 && m@ == bip39_english_mnemonic(e)),
        r matches Ok(m) ==> space_count(m@) == 23,
        r matches Err(e) ==> e is Crypto && "OsRng entropy failure: "@.is_prefix_of(e.spec_detail()),
{
    match os_entropy_32() {
        Ok(entropy) => {
            let m = mnemonic_for_entropy(&entropy);
            assert(entropy@.len() == 32 && m@ == bip39_english_mnemonic(entropy@));
            Ok(m)
        },
        Err(why) => {
            let mut m = text("OsRng entropy failure: ");
            m.append(why.as_str());
            Err(SdkError::Crypto(m))
        },
    }
}

/// The blob a recovery key is kept in at rest: the 24-byte nonce, then the
/// sealed key.
pub open spec fn spec_key_blob(wrapping_key: Seq<u8>, nonce: Seq<u8>, key: Seq<u8>) -> Seq<u8> {
    nonce + xchacha20poly1305_seal(wrapping_key, nonce, key)
}

/// What opening a kept blob gives: the 32-byte key, or the refusal.
pub open spec fn spec_open_key_blob(wrapping_key: Seq<u8>, blob: Seq<u8>) -> Option<Seq<u8>> {
    if blob.len() < 24 {
        None
    } else {
        match xchacha20poly1305_open(wrapping_key, blob.subrange(0, 24), blob.subrange(24, blob.len() as int)) {
            Some(p) => if p.len() == 32 { Some(p) } else { None },
            None => None,
        }
    }
}

/// Seal the recovery key under the device-bound wrapping key, with `nonce`:
/// the blob is the nonce followed by the sealed key, and opening it under
/// the same wrapping key gives the key back, so the key survives a restart.
pub fn seal_recovery_key(wrapping_key: &[u8; 32], nonce: &[u8; 24], key: &[u8; 32]) -> (r: Result<Vec<u8>, SdkError>)
    ensures
        r is Ok,
        r matches Ok(blob) ==> blob@ == spec_key_blob(wrapping_key@, nonce@, key@),
        r matches Ok(blob) ==> spec_open_key_blob(wrapping_key@, blob@) == Some(key@),
{
    let ct = match xchacha_seal(wrapping_key, nonce, key.as_slice()) {
        Ok(ct) => ct,
        Err(why) => {
            let mut m = text("recovery key encryption: ");
            m.append(why.as_str());
            return Err(SdkError::InvalidState(m));
        },
    };
    let mut blob: Vec<u8> = Vec::new();
    extend_bytes(&mut blob, nonce.as_slice());
    extend_bytes(&mut blob, ct.as_slice());
    proof {
        assert(blob@.subrange(0, 24) =~= nonce@);
        assert(blob@.subrange(24, blob@.len() as int) =~= ct@);
    }
    Ok(blob)
}

/// Open a kept blob under the wrapping key: a blob shorter than a nonce, one
/// that does not authenticate, and a plaintext that is not a 32-byte key are
/// each refused.
pub fn open_recovery_key_blob(wrapping_key: &[u8; 32], blob: &[u8]) -> (r: Result<[u8; 32], SdkError>)
    ensures
        r is Ok <==> spec_open_key_blob(wrapping_key@, blob@) is Some,
        r matches Ok(k) ==> Some(k@) == spec_open_key_blob(wrapping_key@, blob@),
        r matches Err(e) ==> e is InvalidState,
        blob@.len() < 24 ==> (r matches Err(e) && e.spec_detail() == "persisted key blob too short: "@
            + spec_padded_decimal(blob@.len(), 1) + " bytes"@),
        blob@.len() >= 24 ==> match xchacha20poly1305_open(wrapping_key@, blob@.subrange(0, 24), blob@.subrange(24, blob@.len() as int)) {
            Some(p) => p.len() != 32 ==> (r matches Err(e) && e.spec_detail() == "decrypted key wrong length: "@
                + spec_padded_decimal(p.len(), 1) + " (expected 32)"@),
            None => r matches Err(e) && "recovery key decryption: "@.is_prefix_of(e.spec_detail()),
        },
{
    if blob.len() < 24 {
        let mut m = text("persisted key blob too short: ");
        push_padded_decimal(&mut m, blob.len() as u64, 1);
        m.append(" bytes");
        return Err(SdkError::InvalidState(m));
    }
    let mut nonce = [0u8; 24];
    let mut i: usize = 0;
    while i < 24
        invariant
            i <= 24,
            blob@.len() >= 24,
            forall|k: int| 0 <= k < i ==> nonce@[k] == blob@[k],
        decreases 24 - i,
    {
        nonce[i] = blob[i];
        i = i + 1;
    }
    let mut ct: Vec<u8> = Vec::new();
    let mut j: usize = 24;
    while j < blob.len()
        invariant
            24 <= j <= blob@.len(),
            ct@ == blob@.subrange(24, j as int),
        decreases blob@.len() - j,
    {
        ct.push(blob[j]);
        proof {
            assert(blob@.subrange(24, j + 1) =~= blob@.subrange(24, j as int).push(blob@[j as int]));
        }
        j = j + 1;
    }
    proof {
        assert(nonce@ =~= blob@.subrange(0, 24));
    }
    let plain = match xchacha_open(wrapping_key, &nonce, ct.as_slice()) {
        Ok(p) => p,
        Err(why) => {
            let mut m = text("recovery key decryption: ");
            m.append(why.as_str());
            return Err(SdkError::InvalidState(m));
        },
    };
    match fixed32(plain.as_slice()) {
        Some(k) => Ok(k),
        None => {
            let mut m = text("decrypted key wrong length: ");
            push_padded_decimal(&mut m, plain.len() as u64, 1);
            m.append(" (expected 32)");
            Err(SdkError::InvalidState(m))
        },
    }
}

/// The recovery SDK's session state: the cached recovery key, the cached
/// recovery-authority keypair, the cached wallet seed (none of which is kept
/// past a lock or a clear), the NFC backup flags, and the pending capsule.
#[derive(Debug)]
pub struct RecoverySDK {
    recovery_key: Option<[u8; 32]>,
    authority_keypair: Option<(Vec<u8>, Vec<u8>)>,
    wallet_seed: Option<Vec<u8>>,
    nfc_configured: bool,
    nfc_enabled: bool,
    pending_capsule: Option<(u64, Vec<u8>)>,
}

/// The values of the recovery SDK's state.
pub struct RecoveryView {
    pub recovery_key: Option<[u8; 32]>,
    pub authority_keypair: Option<(Seq<u8>, Seq<u8>)>,
    pub wallet_seed: Option<Seq<u8>>,
    pub nfc_configured: bool,
    pub nfc_enabled: bool,
    pub pending_capsule: Option<(u64, Seq<u8>)>,
}

impl View for RecoverySDK {
    type V = RecoveryView;

    closed spec fn view(&self) -> RecoveryView {
        RecoveryView {
            recovery_key: self.recovery_key,
            authority_keypair: match self.authority_keypair {
                Some(kp) => Some((kp.0@, kp.1@)),
                None => None,
            },
            wallet_seed: match self.wallet_seed {
                Some(s) => Some(s@),
                None => None,
            },
            nfc_configured: self.nfc_configured,
            nfc_enabled: self.nfc_enabled,
            pending_capsule: match self.pending_capsule {
                Some(c) => Some((c.0, c.1@)),
                None => None,
            },
        }
    }
}

impl RecoverySDK {
    /// A locked session: nothing cached, no backup configured, no capsule.
    pub fn new() -> (r: Self)
        ensures
            r@ == (RecoveryView {
                recovery_key: None,
                authority_keypair: None,
                wallet_seed: None,
                nfc_configured: false,
                nfc_enabled: false,
                pending_capsule: None,
            }),
    {
        RecoverySDK {
            recovery_key: None,
            authority_keypair: None,
            wallet_seed: None,
            nfc_configured: false,
            nfc_enabled: false,
            pending_capsule: None,
        }
    }

    /// The cached wallet seed, if the wallet was unlocked this session.
    pub fn get_cached_wallet_seed(&self) -> (r: Option<Vec<u8>>)
        ensures
            match r {
                Some(s) => self@.wallet_seed == Some(s@),
                None => self@.wallet_seed is None,
            },
    {
        match &self.wallet_seed {
            Some(s) => Some(copy_bytes(s.as_slice())),
            None => None,
        }
    }

    /// Whether a recovery key is cached.
    pub fn has_cached_key(&self) -> (r: bool)
        ensures
            r == self@.recovery_key is Some,
    {
        self.recovery_key.is_some()
    }

    /// The cached recovery key, if any.
    pub fn cached_key(&self) -> (r: Option<[u8; 32]>)
        ensures
            r == self@.recovery_key,
    {
        self.recovery_key
    }

    /// The cached recovery-authority keypair (public, secret), if any.
    pub fn get_cached_authority_keypair(&self) -> (r: Option<(Vec<u8>, Vec<u8>)>)
        ensures
            match r {
                Some(kp) => self@.authority_keypair == Some((kp.0@, kp.1@)),
                None => self@.authority_keypair is None,
            },
    {
        match &self.authority_keypair {
            Some(kp) => Some((copy_bytes(kp.0.as_slice()), copy_bytes(kp.1.as_slice()))),
            None => None,
        }
    }

    /// Unlock from a mnemonic: cache the recovery key derived from it, then
    /// the wallet seed bip39 derives from it, then the authority keypair. A
    /// mnemonic bip39 refuses leaves the recovery key cached and is an error.
    pub fn derive_and_cache_key(&mut self, mnemonic: &str, recovery_key: [u8; 32], authority_keypair: (Vec<u8>, Vec<u8>)) -> (r: Result<(), SdkError>)
        ensures
            r is Ok <==> bip39_parses(mnemonic@),
            final(self)@.recovery_key == Some(recovery_key),
            r is Ok ==> final(self)@.wallet_seed == Some(bip39_seed(mnemonic@)),
            r is Ok ==> final(self)@.authority_keypair == Some((authority_keypair.0@, authority_keypair.1@)),
            r is Err ==> (final(self)@.wallet_seed == old(self)@.wallet_seed
                && final(self)@.authority_keypair == old(self)@.authority_keypair),
            final(self)@.nfc_configured == old(self)@.nfc_configured,
            final(self)@.nfc_enabled == old(self)@.nfc_enabled,
            final(self)@.pending_capsule == old(self)@.pending_capsule,
            r matches Err(e) ==> e is InvalidState && "invalid mnemonic: "@.is_prefix_of(e.spec_detail()),
    {
        self.recovery_key = Some(recovery_key);
        let seed = match mnemonic_seed(mnemonic) {
            Ok(s) => s,
            Err(why) => {
                let mut m = text("invalid mnemonic: ");
                m.append(why.as_str());
                return Err(SdkError::InvalidState(m));
            },
        };
        self.wallet_seed = Some(seed);
        self.authority_keypair = Some(authority_keypair);
        Ok(())
    }

    /// Clear every cache: the recovery key, the authority keypair, and the
    /// wallet seed. The flags and the pending capsule stay.
    pub fn clear_cached_key(&mut self)
        ensures
            final(self)@ == (RecoveryView {
                recovery_key: None,
                authority_keypair: None,
                wallet_seed: None,
                ..old(self)@
            }),
    {
        self.recovery_key = None;
        self.authority_keypair = None;
        self.wallet_seed = None;
    }

    /// Lock the wallet: the seed leaves memory; everything else stays.
    pub fn clear_wallet_seed_cache(&mut self)
        ensures
            final(self)@ == (RecoveryView { wallet_seed: None, ..old(self)@ }),
    {
        self.wallet_seed = None;
    }

    /// Cold-start unlock: the seed is cached already, or the unsealed seed
    /// read at rest is cached now (`true`); `false` when nothing is sealed at
    /// rest; the reading's error otherwise.
    pub fn load_and_cache_wallet_seed(&mut self, unsealed: Result<Option<Vec<u8>>, SdkError>) -> (r: Result<bool, SdkError>)
        ensures
            old(self)@.wallet_seed is Some ==> (r == Ok::<bool, SdkError>(true) && final(self)@ == old(self)@),
            old(self)@.wallet_seed is None ==> match unsealed {
                Ok(Some(s)) => r == Ok::<bool, SdkError>(true) && final(self)@ == (RecoveryView {
                    wallet_seed: Some(s@),
                    ..old(self)@
                }),
                Ok(None) => r == Ok::<bool, SdkError>(false) && final(self)@ == old(self)@,
                Err(_) => r is Err && final(self)@ == old(self)@,
            },
    {
        if self.wallet_seed.is_some() {
            return Ok(true);
        }
        match unsealed {
            Ok(Some(s)) => {
                self.wallet_seed = Some(s);
                Ok(true)
            },
            Ok(None) => Ok(false),
            Err(e) => Err(e),
        }
    }

    /// Load the recovery key kept at rest: `false` when none is kept; the
    /// opened key is cached (`true`); a read failure or a blob that does not
    /// open is an error and caches nothing.
    pub fn load_persisted_recovery_key(&mut self, wrapping_key: &[u8; 32], stored: Result<Option<Vec<u8>>, String>) -> (r: Result<bool, SdkError>)
        ensures
            match stored {
                Ok(None) => r == Ok::<bool, SdkError>(false) && final(self)@ == old(self)@,
                Err(why) => (r matches Err(e) && e is InvalidState && e.spec_detail()
                    == "load encrypted recovery key: "@ + why@) && final(self)@ == old(self)@,
                Ok(Some(blob)) => match spec_open_key_blob(wrapping_key@, blob@) {
                    Some(k) => r == Ok::<bool, SdkError>(true) && (final(self)@.recovery_key matches Some(kk) && kk@
                        == k) && final(self)@ == (RecoveryView { recovery_key: final(self)@.recovery_key, ..old(self)@ }),
                    None => r is Err && final(self)@ == old(self)@,
                },
            },
    {
        let blob = match stored {
            Ok(Some(b)) => b,
            Ok(None) => return Ok(false),
            Err(why) => {
                let mut m = text("load encrypted recovery key: ");
                m.append(why.as_str());
                return Err(SdkError::InvalidState(m));
            },
        };
        let key = open_recovery_key_blob(wrapping_key, blob.as_slice())?;
        self.recovery_key = Some(key);
        Ok(true)
    }

    /// Whether NFC backup is enabled.
    pub fn is_nfc_backup_enabled(&self) -> (r: bool)
        ensures
            r == self@.nfc_enabled,
    {
        self.nfc_enabled
    }

    /// Whether NFC backup was ever configured.
    pub fn is_nfc_backup_configured(&self) -> (r: bool)
        ensures
            r == self@.nfc_configured,
    {
        self.nfc_configured
    }

    /// Enable NFC backup: configured and enabled.
    pub fn enable_nfc_backup(&mut self)
        ensures
            final(self)@ == (RecoveryView { nfc_configured: true, nfc_enabled: true, ..old(self)@ }),
    {
        self.nfc_configured = true;
        self.nfc_enabled = true;
    }

    /// Disable NFC backup: it stays configured, so it can be enabled again,
    /// and the pending capsule is dropped.
    pub fn disable_nfc_backup(&mut self)
        ensures
            final(self)@ == (RecoveryView { nfc_enabled: false, pending_capsule: None, ..old(self)@ }),
    {
        self.nfc_enabled = false;
        self.pending_capsule = None;
    }

    /// The capsule waiting to be written to the ring, if any.
    pub fn get_pending_capsule(&self) -> (r: Option<(u64, Vec<u8>)>)
        ensures
            match r {
                Some(c) => self@.pending_capsule == Some((c.0, c.1@)),
                None => self@.pending_capsule is None,
            },
    {
        match &self.pending_capsule {
            Some(c) => Some((c.0, copy_bytes(c.1.as_slice()))),
            None => None,
        }
    }

    /// Mark a sealed capsule as the one waiting for the ring.
    pub fn mark_pending_capsule(&mut self, index: u64, capsule: Vec<u8>)
        ensures
            final(self)@ == (RecoveryView { pending_capsule: Some((index, capsule@)), ..old(self)@ }),
    {
        self.pending_capsule = Some((index, capsule));
    }

    /// The ring consumed the pending capsule.
    pub fn clear_pending_capsule(&mut self)
        ensures
            final(self)@ == (RecoveryView { pending_capsule: None, ..old(self)@ }),
    {
        self.pending_capsule = None;
    }

    /// Refresh the pending NFC capsule after a state change: nothing while
    /// backup is off; otherwise the key to seal the capsule with, loading the
    /// key kept at rest first when the cached one was lost with the process.
    /// `None` when no key can be had: none is kept, or the kept one cannot be
    /// read or opened. The refresh is best-effort and never an error.
    pub fn maybe_refresh_nfc_capsule(&mut self, wrapping_key: &[u8; 32], stored: Result<Option<Vec<u8>>, String>) -> (r:
        Option<[u8; 32]>)
        ensures
            !old(self)@.nfc_enabled ==> r is None && final(self)@ == old(self)@,
            old(self)@.nfc_enabled && old(self)@.recovery_key is Some ==> r == old(self)@.recovery_key && final(self)@
                == old(self)@,
            old(self)@.nfc_enabled && old(self)@.recovery_key is None ==> match stored {
                Ok(Some(blob)) => match spec_open_key_blob(wrapping_key@, blob@) {
                    Some(k) => (r matches Some(kk) && kk@ == k) && final(self)@ == (RecoveryView {
                        recovery_key: r,
                        ..old(self)@
                    }),
                    None => r is None && final(self)@ == old(self)@,
                },
                _ => r is None && final(self)@ == old(self)@,
            },
    {
        if !self.nfc_enabled {
            return None;
        }
        if self.recovery_key.is_none() {
            match self.load_persisted_recovery_key(wrapping_key, stored) {
                Ok(true) => {},
                Ok(false) => return None,
                Err(_) => return None,
            }
        }
        self.recovery_key
    }
}

impl Default for RecoverySDK {
    fn default() -> (r: Self)
        ensures
            r@ == (RecoveryView {
                recovery_key: None,
                authority_keypair: None,
                wallet_seed: None,
                nfc_configured: false,
                nfc_enabled: false,
                pending_capsule: None,
            }),
    {
        RecoverySDK::new()
    }
}

/// The index of the next capsule: a pending capsule's own index (it is
/// overwritten with the newest state until the ring takes it); otherwise the
/// first, 1, or the one after the highest.
pub fn next_capsule_index(pending: Option<u64>, max_index: u64) -> (r: u64)
    ensures
        r == match pending {
            Some(i) => i,
            None => if max_index == 0 { 1 } else if max_index == u64::MAX { u64::MAX } else { (max_index + 1) as u64 },
        },
{
    match pending {
        Some(i) => i,
        None => {
            if max_index == 0 {
                1
            } else {
                max_index.saturating_add(1)
            }
        },
    }
}

/// Recovery status for display.
#[derive(Debug, Clone, Copy)]
pub struct RecoveryStatus {
    pub enabled: bool,
    pub configured: bool,
    pub pending_capsule: bool,
    pub capsule_count: u64,
    pub last_capsule_index: u64,
    pub capsule_dirty: bool,
    pub accepted_state_index: u64,
    pub capsule_state_index: u64,
}

impl RecoverySDK {
    /// The status shown: the flags and pending capsule of this state, and the
    /// capsule bookkeeping kept at rest.
    pub fn get_recovery_status(
        &self,
        capsule_count: u64,
        last_capsule_index: u64,
        capsule_dirty: bool,
        accepted_state_index: u64,
        capsule_state_index: u64,
    ) -> (r: RecoveryStatus)
        ensures
            r.enabled == self@.nfc_enabled,
            r.configured == self@.nfc_configured,
            r.pending_capsule == self@.pending_capsule is Some,
            r.capsule_count == capsule_count,
            r.last_capsule_index == last_capsule_index,
            r.capsule_dirty == capsule_dirty,
            r.accepted_state_index == accepted_state_index,
            r.capsule_state_index == capsule_state_index,
    {
        RecoveryStatus {
            enabled: self.nfc_enabled,
            configured: self.nfc_configured,
            pending_capsule: self.pending_capsule.is_some(),
            capsule_count,
            last_capsule_index,
            capsule_dirty,
            accepted_state_index,
            capsule_state_index,
        }
    }
}

/// A persisted 32-byte recovery value read for the activation context: a
/// read failure is a storage error, a missing value an invalid state, and a
/// value of another length a verification error.
pub fn pref32(key: &str, stored: Result<Option<Vec<u8>>, String>) -> (r: Result<[u8; 32], SdkError>)
    ensures
        stored matches Err(why) ==> (r matches Err(SdkError::Storage(m)) && m@ == "read "@ + key@ + ": "@ + why@),
        stored == Ok::<Option<Vec<u8>>, String>(None) ==> (r matches Err(SdkError::InvalidState(m)) && m@
            == "build_activation_context: missing persisted `"@ + key@
            + "` (stage a capsule + run the recovery pipeline first)"@),
        stored matches Ok(Some(v)) ==> (v@.len() != 32 ==> (r matches Err(SdkError::Verification(m)) && m@
            == "build_activation_context: `"@ + key@ + "` is not 32 bytes"@)),
        stored matches Ok(Some(v)) ==> (v@.len() == 32 ==> (r matches Ok(a) && a@ == v@)),
{
    let v = match stored {
        Err(why) => {
            let mut m = text("read ");
            m.append(key);
            m.append(": ");
            m.append(why.as_str());
            return Err(SdkError::Storage(m));
        },
        Ok(None) => {
            let mut m = text("build_activation_context: missing persisted `");
            m.append(key);
            m.append("` (stage a capsule + run the recovery pipeline first)");
            return Err(SdkError::InvalidState(m));
        },
        Ok(Some(v)) => v,
    };
    match fixed32(v.as_slice()) {
        Some(a) => Ok(a),
        None => {
            let mut m = text("build_activation_context: `");
            m.append(key);
            m.append("` is not 32 bytes");
            Err(SdkError::Verification(m))
        },
    }
}

/// The propagated tombstone hash read for the activation context: a read
/// failure is a storage error, no tombstone an invalid state (the recovery
/// pipeline has not run), and a value of another length a verification error.
pub fn tombstone_hash32(stored: Result<Option<Vec<u8>>, String>) -> (r: Result<[u8; 32], SdkError>)
    ensures
        stored matches Err(why) ==> (r matches Err(SdkError::Storage(m)) && m@ == "read tombstone_hash: "@ + why@),
        stored == Ok::<Option<Vec<u8>>, String>(None) ==> (r matches Err(SdkError::InvalidState(m)) && m@
            == "build_activation_context: no propagated tombstone (run the recovery pipeline first)"@),
        stored matches Ok(Some(v)) ==> (v@.len() != 32 ==> (r matches Err(SdkError::Verification(m)) && m@
            == "build_activation_context: tombstone_hash is not 32 bytes"@)),
        stored matches Ok(Some(v)) ==> (v@.len() == 32 ==> (r matches Ok(a) && a@ == v@)),
{
    let v = match stored {
        Err(why) => {
            let mut m = text("read tombstone_hash: ");
            m.append(why.as_str());
            return Err(SdkError::Storage(m));
        },
        Ok(None) => {
            return Err(SdkError::InvalidState(text(
                "build_activation_context: no propagated tombstone (run the recovery pipeline first)",
            )));
        },
        Ok(Some(v)) => v,
    };
    match fixed32(v.as_slice()) {
        Some(a) => Ok(a),
        None => Err(SdkError::Verification(text("build_activation_context: tombstone_hash is not 32 bytes"))),
    }
}

/// This device's own identity field: set, and 32 bytes long.
pub fn require_self_id32(v: Option<Vec<u8>>, what: &str) -> (r: Result<[u8; 32], SdkError>)
    ensures
        r is Ok <==> (v matches Some(b) && b@.len() == 32),
        r matches Ok(a) ==> a@ == v->0@,
        r matches Err(e) ==> e is InvalidState && e.spec_detail() == match v {
            None => "recovery anchor: "@ + what@ + " not set (no identity)"@,
            Some(_) => "recovery anchor: "@ + what@ + " must be 32 bytes"@,
        },
{
    let b = match v {
        Some(b) => b,
        None => {
            let mut m = text("recovery anchor: ");
            m.append(what);
            m.append(" not set (no identity)");
            return Err(SdkError::InvalidState(m));
        },
    };
    match fixed32(b.as_slice()) {
        Some(a) => Ok(a),
        None => {
            let mut m = text("recovery anchor: ");
            m.append(what);
            m.append(" must be 32 bytes");
            Err(SdkError::InvalidState(m))
        },
    }
}

/// The session inputs of a recovery activation.
#[derive(Debug)]
pub struct RecoveryActivationContext {
    pub genesis_id: [u8; 32],
    /// The device being recovered.
    pub a_old: [u8; 32],
    /// The recovering successor device: this device.
    pub a_new: [u8; 32],
    /// The capsule floor per counterparty, in ascending counterparty order.
    pub capsule_floor: Vec<([u8; 32], [u8; 32])>,
    pub old_smt_root: [u8; 32],
    pub old_counter: u64,
    pub old_rollup_hash: [u8; 32],
    pub recovery_intent_digest: [u8; 32],
    pub tombstone_proposal_digest: [u8; 32],
    pub final_per_device_smt_root: [u8; 32],
    pub final_receipt_roll: [u8; 32],
}

/// The activation context from the persisted recovery state: the old
/// counter is zero (the tombstone re-created later must be the one already
/// propagated); the tombstone hash is the tombstone proposal; the final
/// per-device root is the resumed head's, or the capsule's root without one;
/// the final receipt roll is the capsule's rollup.
pub fn activation_context(
    genesis_id: [u8; 32],
    a_old: [u8; 32],
    a_new: [u8; 32],
    capsule_floor: Vec<([u8; 32], [u8; 32])>,
    old_smt_root: [u8; 32],
    old_rollup_hash: [u8; 32],
    tombstone_hash: [u8; 32],
    recovery_intent_digest: [u8; 32],
    resumed_head_root: Option<[u8; 32]>,
) -> (r: RecoveryActivationContext)
    ensures
        r.genesis_id == genesis_id,
        r.a_old == a_old,
        r.a_new == a_new,
        r.capsule_floor == capsule_floor,
        r.old_smt_root == old_smt_root,
        r.old_counter == 0,
        r.old_rollup_hash == old_rollup_hash,
        r.recovery_intent_digest == recovery_intent_digest,
        r.tombstone_proposal_digest == tombstone_hash,
        r.final_per_device_smt_root == match resumed_head_root {
            Some(h) => h,
            None => old_smt_root,
        },
        r.final_receipt_roll == old_rollup_hash,
{
    let final_root = match resumed_head_root {
        Some(h) => h,
        None => old_smt_root,
    };
    RecoveryActivationContext {
        genesis_id,
        a_old,
        a_new,
        capsule_floor,
        old_smt_root,
        old_counter: 0,
        old_rollup_hash,
        recovery_intent_digest,
        tombstone_proposal_digest: tombstone_hash,
        final_per_device_smt_root: final_root,
        final_receipt_roll: old_rollup_hash,
    }
}

/// The refusal that recording a recovery activation gives until the
/// counterparties' posted state is genesis-authenticated: a recovered
/// successor is never unlocked before then.
pub fn activation_recording_disabled() -> (e: SdkError)
    ensures
        e is InvalidState,
        e.spec_detail() == "recovery activation recording disabled: per-counterparty posted state is not yet genesis-authenticated and the online-posted gate-set is not yet wired; refusing to unlock a recovered successor"@,
{
    SdkError::InvalidState(
        text(
            "recovery activation recording disabled: per-counterparty posted state is not yet genesis-authenticated and the online-posted gate-set is not yet wired; refusing to unlock a recovered successor",
        ),
    )
}

/// One row of the transaction history, in the order this device accepted it.
#[derive(Debug)]
pub struct HistoryRow {
    pub tx_id: String,
    pub from_device: String,
    pub to_device: String,
    pub proof_data: Option<Vec<u8>>,
}

/// One receipt the recovery rollup folds: its transaction, its peer, the
/// relationship's height after it, and the receipt bytes.
#[derive(Debug)]
pub struct RollupStep {
    pub tx_id: String,
    pub counterparty: String,
    pub height: u64,
    pub receipt: Vec<u8>,
}

pub open spec fn step_view(s: RollupStep) -> (Seq<char>, Seq<char>, nat, Seq<u8>) {
    (s.tx_id@, s.counterparty@, s.height as nat, s.receipt@)
}

/// The peer of a history row for this device: the other side of a row
/// between this device and one other; none otherwise.
pub open spec fn counterparty_of(local: Seq<char>, from: Seq<char>, to: Seq<char>) -> Option<Seq<char>> {
    if from == local && to != local {
        Some(to)
    } else if to == local && from != local {
        Some(from)
    } else {
        None
    }
}

/// How many steps name peer `cp`.
pub open spec fn peer_count(steps: Seq<(Seq<char>, Seq<char>, nat, Seq<u8>)>, cp: Seq<char>) -> nat
    decreases steps.len(),
{
    if steps.len() == 0 {
        0
    } else {
        peer_count(steps.drop_last(), cp) + if steps.last().1 == cp { 1nat } else { 0nat }
    }
}

/// The rollup's steps over the history: every row with a peer and a
/// non-empty receipt, in acceptance order, at height one more than the
/// steps of that peer before it.
pub open spec fn spec_rollup_steps(local: Seq<char>, rows: Seq<HistoryRow>) -> Seq<(Seq<char>, Seq<char>, nat, Seq<u8>)>
    decreases rows.len(),
{
    if rows.len() == 0 {
        Seq::empty()
    } else {
        let before = spec_rollup_steps(local, rows.drop_last());
        let r = rows.last();
        match (counterparty_of(local, r.from_device@, r.to_device@), r.proof_data) {
            (Some(cp), Some(p)) => if p@.len() > 0 {
                before.push((r.tx_id@, cp, peer_count(before, cp) + 1, p@))
            } else {
                before
            },
            _ => before,
        }
    }
}

proof fn lemma_peer_count_bound(steps: Seq<(Seq<char>, Seq<char>, nat, Seq<u8>)>, cp: Seq<char>)
    ensures
        peer_count(steps, cp) <= steps.len(),
    decreases steps.len(),
{
    if steps.len() > 0 {
        lemma_peer_count_bound(steps.drop_last(), cp);
    }
}

proof fn lemma_steps_bound(local: Seq<char>, rows: Seq<HistoryRow>)
    ensures
        spec_rollup_steps(local, rows).len() <= rows.len(),
    decreases rows.len(),
{
    if rows.len() > 0 {
        lemma_steps_bound(local, rows.drop_last());
    }
}

/// The steps of the recovery rollup over the history. The relationship's
/// height after a receipt is the number of that peer's receipts accepted up
/// to and including it: the history keeps no height counter.
pub fn rollup_steps(local_device_id: &str, rows: &[HistoryRow]) -> (r: Vec<RollupStep>)
    ensures
        r@.map_values(|s: RollupStep| step_view(s)) == spec_rollup_steps(local_device_id@, rows@),
{
    let mut out: Vec<RollupStep> = Vec::new();
    let mut i: usize = 0;
    while i < rows.len()
        invariant
            i <= rows@.len(),
            out@.map_values(|s: RollupStep| step_view(s)) == spec_rollup_steps(local_device_id@, rows@.subrange(0, i as int)),
            out@.len() <= i,
        decreases rows@.len() - i,
    {
        let ghost before = out@.map_values(|s: RollupStep| step_view(s));
        proof {
            let sub = rows@.subrange(0, i + 1);
            assert(sub.drop_last() =~= rows@.subrange(0, i as int));
            assert(sub.last() == rows@[i as int]);
        }
        let row = &rows[i];
        let from_me = str_eq(row.from_device.as_str(), local_device_id);
        let to_me = str_eq(row.to_device.as_str(), local_device_id);
        let cp: Option<&String> = if from_me && !to_me {
            Some(&row.to_device)
        } else if to_me && !from_me {
            Some(&row.from_device)
        } else {
            None
        };
        if let Some(cp) = cp {
            if let Some(p) = &row.proof_data {
                if p.len() > 0 {
                    let mut n: u64 = 0;
                    let mut k: usize = 0;
                    while k < out.len()
                        invariant
                            k <= out@.len(),
                            out@.len() <= i,
                            i < rows@.len(),
                            n == peer_count(out@.map_values(|s: RollupStep| step_view(s)).subrange(0, k as int), cp@),
                            n <= k,
                        decreases out@.len() - k,
                    {
                        proof {
                            let vs = out@.map_values(|s: RollupStep| step_view(s));
                            assert(vs.subrange(0, k + 1).drop_last() =~= vs.subrange(0, k as int));
                        }
                        if str_eq(out[k].counterparty.as_str(), cp.as_str()) {
                            n = n + 1;
                        }
                        k = k + 1;
                    }
                    proof {
                        let vs = out@.map_values(|s: RollupStep| step_view(s));
                        assert(vs.subrange(0, out@.len() as int) =~= vs);
                    }
                    let step = RollupStep {
                        tx_id: row.tx_id.clone(),
                        counterparty: cp.clone(),
                        height: n + 1,
                        receipt: copy_bytes(p.as_slice()),
                    };
                    out.push(step);
                    proof {
                        assert(out@.map_values(|s: RollupStep| step_view(s)) =~= before.push(step_view(step)));
                    }
                }
            }
        }
        i = i + 1;
    }
    assert(rows@.subrange(0, rows@.len() as int) =~= rows@);
    out
}

/// The counterparties a recovery considers: those the old device's posted
/// leaves name and those the capsule floor names, each once, in key order.
pub fn recovery_candidates(leaf_peers: &[[u8; 32]], capsule_floor: &[([u8; 32], [u8; 32])]) -> (r: Vec<[u8; 32]>)
    ensures
        keys_sorted(r@),
        forall|c: [u8; 32]| r@.contains(c) <==> (leaf_peers@.contains(c) || exists|i: int|
            0 <= i < capsule_floor@.len() && (#[trigger] capsule_floor@[i]).0 == c),
{
    let mut out: Vec<[u8; 32]> = Vec::new();
    let mut i: usize = 0;
    while i < leaf_peers.len()
        invariant
            i <= leaf_peers@.len(),
            keys_sorted(out@),
            forall|c: [u8; 32]| #[trigger] out@.contains(c) <==> exists|j: int| 0 <= j < i && leaf_peers@[j] == c,
        decreases leaf_peers@.len() - i,
    {
        insert_key_sorted(&mut out, leaf_peers[i]);
        proof {
            assert forall|c: [u8; 32]| #[trigger] out@.contains(c) <==> exists|j: int| 0 <= j < i + 1 && leaf_peers@[j] == c by {
                if c == leaf_peers@[i as int] {
                    assert(leaf_peers@[i as int] == c);
                }
            }
        }
        i = i + 1;
    }
    let mut k: usize = 0;
    while k < capsule_floor.len()
        invariant
            k <= capsule_floor@.len(),
            keys_sorted(out@),
            forall|c: [u8; 32]| #[trigger] out@.contains(c) <==> (leaf_peers@.contains(c) || exists|j: int|
                0 <= j < k && (#[trigger] capsule_floor@[j]).0 == c),
        decreases capsule_floor@.len() - k,
    {
        insert_key_sorted(&mut out, capsule_floor[k].0);
        proof {
            assert forall|c: [u8; 32]| #[trigger] out@.contains(c) <==> (leaf_peers@.contains(c) || exists|j: int|
                0 <= j < k + 1 && (#[trigger] capsule_floor@[j]).0 == c) by {
                if c == capsule_floor@[k as int].0 {
                    assert(capsule_floor@[k as int].0 == c);
                }
            }
        }
        k = k + 1;
    }
    out
}

/// A contact as the recovery capsule reads it: the counterparty's device id
/// and the relationship's current chain tip, if any.
#[derive(Debug)]
pub struct ContactTip {
    pub device_id: Vec<u8>,
    pub current_chain_tip: Option<Vec<u8>>,
}

/// Whether a contact contributes a tip: a 32-byte device id with a 32-byte tip.
pub open spec fn carries_tip(c: ContactTip) -> bool {
    c.device_id@.len() == 32 && (c.current_chain_tip matches Some(t) && t@.len() == 32)
}

/// The counterparty tips a capsule records, by the counterparty's device id
/// in base32: a later contact for the same counterparty replaces an earlier one.
pub open spec fn capsule_tips(contacts: Seq<ContactTip>) -> Map<Seq<char>, Seq<u8>>
    decreases contacts.len(),
{
    if contacts.len() == 0 {
        Map::empty()
    } else {
        let m = capsule_tips(contacts.drop_last());
        let c = contacts.last();
        if carries_tip(c) {
            m.insert(spec_base32_crockford(c.device_id@), c.current_chain_tip->0@)
        } else {
            m
        }
    }
}

/// Whether `out` lists exactly the map `m`, each key once.
pub open spec fn lists_tips(out: Seq<(String, Vec<u8>)>, m: Map<Seq<char>, Seq<u8>>) -> bool {
    &&& forall|i: int, j: int| 0 <= i < j < out.len() ==> (#[trigger] out[i]).0@ != (#[trigger] out[j]).0@
    &&& forall|i: int| #![trigger out[i]] 0 <= i < out.len() ==> m.contains_key(out[i].0@) && m[out[i].0@] == out[i].1@
    &&& forall|k: Seq<char>| #[trigger] m.contains_key(k) ==> exists|i: int| 0 <= i < out.len() && out[i].0@ == k
}

fn tip_index(out: &Vec<(String, Vec<u8>)>, key: &String) -> (r: Option<usize>)
    ensures
        r matches Some(i) ==> i < out@.len() && out@[i as int].0@ == key@,
        r is None ==> forall|i: int| 0 <= i < out@.len() ==> (#[trigger] out@[i]).0@ != key@,
{
    let mut i: usize = 0;
    while i < out.len()
        invariant
            i <= out@.len(),
            forall|k: int| 0 <= k < i ==> (#[trigger] out@[k]).0@ != key@,
        decreases out@.len() - i,
    {
        if str_eq(out[i].0.as_str(), key.as_str()) {
            return Some(i);
        }
        i = i + 1;
    }
    None
}

/// The counterparty tips a recovery capsule records: for each contact with a
/// 32-byte device id and a 32-byte current chain tip, the tip, keyed by the
/// device id in base32, each counterparty once (its last contact's tip).
pub fn capsule_counterparty_tips(contacts: &[ContactTip]) -> (r: Vec<(String, Vec<u8>)>)
    ensures
        lists_tips(r@, capsule_tips(contacts@)),
{
    let mut out: Vec<(String, Vec<u8>)> = Vec::new();
    let mut i: usize = 0;
    while i < contacts.len()
        invariant
            i <= contacts@.len(),
            lists_tips(out@, capsule_tips(contacts@.subrange(0, i as int))),
        decreases contacts@.len() - i,
    {
        let ghost m = capsule_tips(contacts@.subrange(0, i as int));
        proof {
            let sub = contacts@.subrange(0, i + 1);
            assert(sub.drop_last() =~= contacts@.subrange(0, i as int));
            assert(sub.last() == contacts@[i as int]);
        }
        let c = &contacts[i];
        if c.device_id.len() == 32 {
            if let Some(tip) = &c.current_chain_tip {
                if tip.len() == 32 {
                    let key = encode_base32_crockford(c.device_id.as_slice());
                    let ghost m2 = m.insert(key@, tip@);
                    assert(m2 == capsule_tips(contacts@.subrange(0, i + 1)));
                    match tip_index(&out, &key) {
                        Some(at) => {
                            let ghost prev = out@;
                            out.set(at, (key, copy_bytes(tip.as_slice())));
                            proof {
                                assert forall|a: int, b: int| 0 <= a < b < out@.len() implies (#[trigger] out@[a]).0@
                                    != (#[trigger] out@[b]).0@ by {
                                    assert(prev[a].0@ != prev[b].0@);
                                }
                                assert forall|a: int| #![trigger out@[a]] 0 <= a < out@.len() implies m2.contains_key(out@[a].0@)
                                    && m2[out@[a].0@] == out@[a].1@ by {
                                    if a != at {
                                        assert(prev[a].0@ != prev[at as int].0@);
                                        assert(out@[a] == prev[a]);
                                    }
                                }
                                assert forall|k: Seq<char>| #[trigger] m2.contains_key(k) implies exists|a: int| 0 <= a < out@.len()
                                    && out@[a].0@ == k by {
                                    if k != prev[at as int].0@ {
                                        assert(m.contains_key(k));
                                        let a = choose|a: int| 0 <= a < prev.len() && prev[a].0@ == k;
                                        assert(out@[a] == prev[a]);
                                    } else {
                                        assert(out@[at as int].0@ == k);
                                    }
                                }
                            }
                        },
                        None => {
                            let ghost prev = out@;
                            out.push((key, copy_bytes(tip.as_slice())));
                            proof {
                                assert forall|a: int, b: int| 0 <= a < b < out@.len() implies (#[trigger] out@[a]).0@
                                    != (#[trigger] out@[b]).0@ by {
                                    if b < prev.len() {
                                        assert(prev[a].0@ != prev[b].0@);
                                    } else {
                                        assert(out@[a] == prev[a]);
                                    }
                                }
                                assert forall|a: int| #![trigger out@[a]] 0 <= a < out@.len() implies m2.contains_key(out@[a].0@)
                                    && m2[out@[a].0@] == out@[a].1@ by {
                                    if a < prev.len() {
                                        assert(out@[a] == prev[a]);
                                        assert(prev[a].0@ != key@);
                                    }
                                }
                                assert forall|k: Seq<char>| #[trigger] m2.contains_key(k) implies exists|a: int| 0 <= a < out@.len()
                                    && out@[a].0@ == k by {
                                    if k != key@ {
                                        assert(m.contains_key(k));
                                        let a = choose|a: int| 0 <= a < prev.len() && prev[a].0@ == k;
                                        assert(out@[a] == prev[a]);
                                    } else {
                                        assert(out@[prev.len() as int].0@ == k);
                                    }
                                }
                            }
                        },
                    }
                }
            }
        }
        i = i + 1;
    }
    assert(contacts@.subrange(0, contacts@.len() as int) =~= contacts@);
    out
}

/// Every vault id the verified dBTC vault indexes name, index by index.
pub open spec fn named_vault_ids(indexes: Seq<Vec<String>>) -> Seq<Seq<char>>
    decreases indexes.len(),
{
    if indexes.len() == 0 {
        Seq::empty()
    } else {
        named_vault_ids(indexes.drop_last()) + indexes.last()@.map_values(|v: String| v@)
    }
}

/// `s` with every repeat of an earlier element removed.
pub open spec fn first_occurrences(s: Seq<Seq<char>>) -> Seq<Seq<char>>
    decreases s.len(),
{
    if s.len() == 0 {
        Seq::empty()
    } else {
        let d = first_occurrences(s.drop_last());
        if d.contains(s.last()) {
            d
        } else {
            d.push(s.last())
        }
    }
}

/// The dBTC vaults a recovery may sweep: every vault any verified index
/// names, each once, in the order first named; refused when no posted index
/// verified.
pub fn candidate_vault_ids(indexes: &[Vec<String>]) -> (r: Result<Vec<String>, SdkError>)
    ensures
        indexes@.len() == 0 <==> r is Err,
        r matches Err(e) ==> e is Verification && e.spec_detail()
            == "auto_dbtc_vault_candidates: no posted dBTC vault index verifies"@,
        r matches Ok(ids) ==> ids@.map_values(|v: String| v@) == first_occurrences(named_vault_ids(indexes@)),
{
    if indexes.len() == 0 {
        return Err(SdkError::Verification(text("auto_dbtc_vault_candidates: no posted dBTC vault index verifies")));
    }
    let mut out: Vec<String> = Vec::new();
    let mut i: usize = 0;
    while i < indexes.len()
        invariant
            i <= indexes@.len(),
            out@.map_values(|v: String| v@) == first_occurrences(named_vault_ids(indexes@.subrange(0, i as int))),
        decreases indexes@.len() - i,
    {
        let ghost base = named_vault_ids(indexes@.subrange(0, i as int));
        proof {
            let sub = indexes@.subrange(0, i + 1);
            assert(sub.drop_last() =~= indexes@.subrange(0, i as int));
            assert(sub.last() == indexes@[i as int]);
        }
        let ids = &indexes[i];
        let mut j: usize = 0;
        while j < ids.len()
            invariant
                j <= ids@.len(),
                base == named_vault_ids(indexes@.subrange(0, i as int)),
                out@.map_values(|v: String| v@) == first_occurrences(base + ids@.map_values(|v: String| v@).subrange(0, j as int)),
            decreases ids@.len() - j,
        {
            let id = &ids[j];
            let mut k: usize = 0;
            let mut seen = false;
            while k < out.len()
                invariant
                    k <= out@.len(),
                    seen == exists|m: int| 0 <= m < k && out@[m]@ == id@,
                decreases out@.len() - k,
            {
                if str_eq(out[k].as_str(), id.as_str()) {
                    seen = true;
                }
                k = k + 1;
            }
            proof {
                let views = ids@.map_values(|v: String| v@);
                let pre = base + views.subrange(0, j as int);
                let post = base + views.subrange(0, j + 1);
                assert(views[j as int] == id@);
                assert(post =~= pre.push(id@));
                assert(post.drop_last() =~= pre);
                if seen {
                    let m = choose|m: int| 0 <= m < k && out@[m]@ == id@;
                    assert(out@.map_values(|v: String| v@)[m] == id@);
                    assert(first_occurrences(pre).contains(id@));
                } else {
                    assert forall|m: int| 0 <= m < first_occurrences(pre).len() implies first_occurrences(pre)[m] != id@ by {
                        assert(out@.map_values(|v: String| v@)[m] == out@[m]@);
                    }
                    assert(!first_occurrences(pre).contains(id@));
                }
            }
            if !seen {
                let ghost prev = out@.map_values(|v: String| v@);
                out.push(id.clone());
                proof {
                    assert(out@.map_values(|v: String| v@) =~= prev.push(id@));
                }
            }
            j = j + 1;
        }
        proof {
            let views = ids@.map_values(|v: String| v@);
            assert(views.subrange(0, ids@.len() as int) =~= views);
            assert(named_vault_ids(indexes@.subrange(0, i + 1)) == base + views);
        }
        i = i + 1;
    }
    assert(indexes@.subrange(0, indexes@.len() as int) =~= indexes@);
    Ok(out)
}

/// The floor the recovered chain tips give each counterparty: each device's
/// tip, a later tip for a device replacing an earlier one.
pub open spec fn floor_map(tips: Seq<([u8; 32], [u8; 32])>) -> Map<[u8; 32], [u8; 32]>
    decreases tips.len(),
{
    if tips.len() == 0 {
        Map::empty()
    } else {
        floor_map(tips.drop_last()).insert(tips.last().0, tips.last().1)
    }
}

/// `floor` holds exactly the map `m`: one entry per counterparty, in
/// ascending counterparty order.
pub open spec fn floor_represents(floor: Seq<([u8; 32], [u8; 32])>, m: Map<[u8; 32], [u8; 32]>) -> bool {
    &&& forall|i: int, j: int| 0 <= i < j < floor.len() ==> key_lt(#[trigger] floor[i].0, #[trigger] floor[j].0)
    &&& forall|i: int| #![trigger floor[i]] 0 <= i < floor.len() ==> m.contains_key(floor[i].0) && m[floor[i].0] == floor[i].1
    &&& forall|k: [u8; 32]| #[trigger] m.contains_key(k) ==> exists|i: int| 0 <= i < floor.len() && floor[i].0 == k
}

proof fn lemma_collected_tips(entries: Seq<LeafEntry>, tips: Seq<([u8; 32], [u8; 32])>)
    requires
        entries.len() == tips.len(),
        forall|i: int| 0 <= i < tips.len() ==> (#[trigger] entries[i]).0 == tips[i].0 && entries[i].1 == tips[i].1
            && entries[i].2@.len() == 0,
    ensures
        forall|k: [u8; 32]| #[trigger] collected(entries).contains_key(k) <==> floor_map(tips).contains_key(k),
        forall|k: [u8; 32]| #[trigger] floor_map(tips).contains_key(k) ==> collected(entries)[k] == (
            floor_map(tips)[k],
            Seq::<u8>::empty(),
        ),
    decreases tips.len(),
{
    if tips.len() > 0 {
        let (e0, t0) = (entries.drop_last(), tips.drop_last());
        assert forall|i: int| 0 <= i < t0.len() implies (#[trigger] e0[i]).0 == t0[i].0 && e0[i].1 == t0[i].1
            && e0[i].2@.len() == 0 by {
            assert(e0[i] == entries[i]);
            assert(t0[i] == tips[i]);
        }
        lemma_collected_tips(e0, t0);
        let last = entries[entries.len() - 1];
        assert(entries.last() == last);
        assert(tips.last() == tips[tips.len() - 1]);
        assert(last.2@ =~= Seq::<u8>::empty());
        assert(collected(entries) == collected(e0).insert(last.0, (last.1, last.2@)));
        assert(floor_map(tips) == floor_map(t0).insert(last.0, last.1));
        assert forall|k: [u8; 32]| #[trigger] collected(entries).contains_key(k) <==> floor_map(tips).contains_key(k) by {
            if k != last.0 {
                assert(collected(e0).contains_key(k) <==> floor_map(t0).contains_key(k));
            }
        }
    } else {
        assert(collected(entries) == Map::<Key32, (Key32, Seq<u8>)>::empty());
        assert(floor_map(tips) == Map::<[u8; 32], [u8; 32]>::empty());
    }
}

/// The capsule floor from the recovered chain tips (each a device id and
/// its sealed tip): one entry per device, in ascending device order, a later
/// tip for a device replacing an earlier one.
pub fn capsule_floor_of(tips: &[([u8; 32], [u8; 32])]) -> (r: Vec<([u8; 32], [u8; 32])>)
    ensures
        floor_represents(r@, floor_map(tips@)),
{
    let mut entries: Vec<LeafEntry> = Vec::new();
    let mut i: usize = 0;
    while i < tips.len()
        invariant
            i <= tips@.len(),
            entries@.len() == i,
            forall|k: int| 0 <= k < i ==> (#[trigger] entries@[k]).0 == tips@[k].0 && entries@[k].1 == tips@[k].1
                && entries@[k].2@.len() == 0,
        decreases tips@.len() - i,
    {
        entries.push((tips[i].0, tips[i].1, Vec::new()));
        i = i + 1;
    }
    let none: Vec<PostState> = Vec::new();
    let sorted = post_leaf_cache(&entries, none.as_slice());
    proof {
        assert(none@ =~= Seq::<PostState>::empty());
        assert(applied(collected(entries@), none@) == collected(entries@));
        lemma_collected_tips(entries@, tips@);
    }
    let ghost m = floor_map(tips@);
    let mut out: Vec<([u8; 32], [u8; 32])> = Vec::new();
    let mut j: usize = 0;
    while j < sorted.len()
        invariant
            j <= sorted@.len(),
            out@.len() == j,
            forall|k: int| 0 <= k < j ==> (#[trigger] out@[k]).0 == sorted@[k].0 && out@[k].1 == sorted@[k].1,
        decreases sorted@.len() - j,
    {
        out.push((sorted[j].0, sorted[j].1));
        j = j + 1;
    }
    proof {
        let c = collected(entries@);
        assert forall|a: int, b: int| 0 <= a < b < out@.len() implies key_lt(#[trigger] out@[a].0, #[trigger] out@[b].0) by {
            assert(key_lt(sorted@[a].0, sorted@[b].0));
        }
        assert forall|a: int| #![trigger out@[a]] 0 <= a < out@.len() implies m.contains_key(out@[a].0) && m[out@[a].0]
            == out@[a].1 by {
            assert(c.contains_key(sorted@[a].0));
            assert(c[sorted@[a].0] == (sorted@[a].1, sorted@[a].2@));
        }
        assert forall|k: [u8; 32]| #[trigger] m.contains_key(k) implies exists|a: int| 0 <= a < out@.len() && out@[a].0
            == k by {
            assert(c.contains_key(k));
            let a = choose|a: int| 0 <= a < sorted@.len() && sorted@[a].0 == k;
            assert(out@[a].0 == k);
        }
    }
    out
}

/// The capsule floor from the store's read of the recovered chain tips: the
/// floor of the tips read, or the storage error naming the read that failed.
pub fn capsule_floor_from_store(stored: Result<Vec<([u8; 32], [u8; 32])>, String>) -> (r: Result<
    Vec<([u8; 32], [u8; 32])>,
    SdkError,
>)
    ensures
        stored matches Err(why) ==> (r matches Err(SdkError::Storage(m)) && m@ == "read recovered chain tips: "@ + why@),
        stored matches Ok(tips) ==> (r matches Ok(floor) && floor_represents(floor@, floor_map(tips@))),
{
    match stored {
        Ok(tips) => Ok(capsule_floor_of(tips.as_slice())),
        Err(why) => {
            let mut m = text("read recovered chain tips: ");
            m.append(why.as_str());
            Err(SdkError::Storage(m))
        },
    }
}

/// The capsule floor of counterparty `c`: its first entry's tip.
pub fn floor_of(capsule_floor: &[([u8; 32], [u8; 32])], c: &[u8; 32]) -> (r: Option<[u8; 32]>)
    ensures
        r is None <==> forall|i: int| 0 <= i < capsule_floor@.len() ==> (#[trigger] capsule_floor@[i]).0 != *c,
        r matches Some(t) ==> exists|i: int| 0 <= i < capsule_floor@.len() && capsule_floor@[i].0 == *c
            && capsule_floor@[i].1 == t && forall|j: int| 0 <= j < i ==> (#[trigger] capsule_floor@[j]).0 != *c,
{
    let mut i: usize = 0;
    while i < capsule_floor.len()
        invariant
            i <= capsule_floor@.len(),
            forall|j: int| 0 <= j < i ==> (#[trigger] capsule_floor@[j]).0 != *c,
        decreases capsule_floor@.len() - i,
    {
        if bytes_eq(capsule_floor[i].0.as_slice(), c.as_slice()) {
            proof {
                assert(capsule_floor@[i as int].0 =~= *c);
            }
            return Some(capsule_floor[i].1);
        }
        proof {
            if capsule_floor@[i as int].0 == *c {
                assert(capsule_floor@[i as int].0@ == c@);
            }
        }
        i = i + 1;
    }
    None
}

/// A counterparty's posted leaf: the relationship key, the device it is
/// with, and that relationship's current tip.
#[derive(Debug, Clone, Copy)]
pub struct PostedLeaf {
    pub rel_key: [u8; 32],
    pub counterparty_device_id: [u8; 32],
    pub current_tip: [u8; 32],
}

/// The tip a counterparty posted for its relationship with the old device:
/// the first leaf at that relationship key naming the old device.
pub fn old_relationship_tip(leaves: &[PostedLeaf], old_rel_key: &[u8; 32], a_old: &[u8; 32]) -> (r: Option<[u8; 32]>)
    ensures
        r is None <==> forall|i: int| 0 <= i < leaves@.len() ==> !((#[trigger] leaves@[i]).rel_key == *old_rel_key
            && leaves@[i].counterparty_device_id == *a_old),
        r matches Some(t) ==> exists|i: int| 0 <= i < leaves@.len() && leaves@[i].rel_key == *old_rel_key
            && leaves@[i].counterparty_device_id == *a_old && leaves@[i].current_tip == t
            && forall|j: int| 0 <= j < i ==> !((#[trigger] leaves@[j]).rel_key == *old_rel_key
                && leaves@[j].counterparty_device_id == *a_old),
{
    let mut i: usize = 0;
    while i < leaves.len()
        invariant
            i <= leaves@.len(),
            forall|j: int| 0 <= j < i ==> !((#[trigger] leaves@[j]).rel_key == *old_rel_key
                && leaves@[j].counterparty_device_id == *a_old),
        decreases leaves@.len() - i,
    {
        let l = leaves[i];
        let a = bytes_eq(l.rel_key.as_slice(), old_rel_key.as_slice());
        let b = bytes_eq(l.counterparty_device_id.as_slice(), a_old.as_slice());
        proof {
            if a {
                assert(l.rel_key =~= *old_rel_key);
            }
            if b {
                assert(l.counterparty_device_id =~= *a_old);
            }
        }
        if a && b {
            assert(leaves@[i as int] == l);
            return Some(l.current_tip);
        }
        i = i + 1;
    }
    None
}

/// The ancestry segment that runs from the capsule floor to the tip the
/// counterparty posted: the first `(floor tip, current tip)` pair that is
/// exactly those two.
pub fn old_segment_index(segments: &[([u8; 32], [u8; 32])], floor_tip: &[u8; 32], current_tip: &[u8; 32]) -> (r: Option<usize>)
    ensures
        r is None <==> forall|i: int| 0 <= i < segments@.len() ==> !((#[trigger] segments@[i]).0 == *floor_tip
            && segments@[i].1 == *current_tip),
        r matches Some(i) ==> i < segments@.len() && segments@[i as int].0 == *floor_tip && segments@[i as int].1
            == *current_tip && forall|j: int| 0 <= j < i ==> !((#[trigger] segments@[j]).0 == *floor_tip
            && segments@[j].1 == *current_tip),
{
    let mut i: usize = 0;
    while i < segments.len()
        invariant
            i <= segments@.len(),
            forall|j: int| 0 <= j < i ==> !((#[trigger] segments@[j]).0 == *floor_tip && segments@[j].1 == *current_tip),
        decreases segments@.len() - i,
    {
        let a = bytes_eq(segments[i].0.as_slice(), floor_tip.as_slice());
        let b = bytes_eq(segments[i].1.as_slice(), current_tip.as_slice());
        proof {
            if a {
                assert(segments@[i as int].0 =~= *floor_tip);
            }
            if b {
                assert(segments@[i as int].1 =~= *current_tip);
            }
        }
        if a && b {
            return Some(i);
        }
        i = i + 1;
    }
    None
}

} // verus!
