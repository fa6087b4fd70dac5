//! The identity-publication lifecycle: a durable local genesis is not a ready
//! identity; the identity is ready once enough members of the pinned set
//! hold this device's exact directory entry, read back.

use vstd::prelude::*;
use crate::bytes::bytes_eq;
use crate::error::{SdkError, text};
use crate::prefs::PrefStore;
use crate::text_id::{push_padded_decimal, spec_padded_decimal};

verus! {

/// What one publication established.
#[derive(Debug, Clone, Copy, PartialEq, Eq, Structural)]
pub struct DirectoryPublication {
    /// Members whose directory cell holds this device's exact entry.
    pub holders: u32,
    /// Members the set has.
    pub members: u32,
    /// Holders needed to call the identity published.
    pub required: u32,
}

impl DirectoryPublication {
    /// Whether enough members hold the entry.
    pub fn is_published(&self) -> (r: bool)
        ensures
            r == (self.holders >= self.required),
    {
        self.holders >= self.required
    }
}

/// The lifecycle state a publication records.
#[derive(Debug, Clone, Copy, PartialEq, Eq, Structural)]
pub enum PublicationState {
    PublicationPending,
    Published,
}

pub open spec fn state_text(s: PublicationState) -> Seq<char> {
    match s {
        PublicationState::PublicationPending => "publication_pending"@,
        PublicationState::Published => "published"@,
    }
}

/// The text a pending publication records: how many members hold the entry
/// and how many are needed.
pub open spec fn spec_shortfall_text(p: DirectoryPublication) -> Seq<char> {
    spec_padded_decimal(p.holders as nat, 1) + "/"@ + spec_padded_decimal(p.members as nat, 1)
        + " members hold the entry; "@ + spec_padded_decimal(p.required as nat, 1) + " needed"@
}

/// What a publication's outcome records: published with no error when enough
/// members hold the entry; otherwise pending, with the shortfall or the
/// failure as the reason. Local genesis is never undone.
pub fn publication_record(outcome: &Result<DirectoryPublication, String>) -> (r: (PublicationState, String))
    ensures
        match outcome {
            Ok(p) => if p.holders >= p.required {
                r.0 == PublicationState::Published && r.1@ == Seq::<char>::empty()
            } else {
                r.0 == PublicationState::PublicationPending && r.1@ == spec_shortfall_text(*p)
            },
            Err(e) => r.0 == PublicationState::PublicationPending && r.1@ == e@,
        },
{
    match outcome {
        Ok(p) => {
            if p.is_published() {
                (PublicationState::Published, String::new())
            } else {
                let mut m = String::new();
                push_padded_decimal(&mut m, p.holders as u64, 1);
                m.append("/");
                push_padded_decimal(&mut m, p.members as u64, 1);
                m.append(" members hold the entry; ");
                push_padded_decimal(&mut m, p.required as u64, 1);
                m.append(" needed");
                (PublicationState::PublicationPending, m)
            }
        },
        Err(e) => (PublicationState::PublicationPending, e.clone()),
    }
}

/// The recorded publication state of each identity, by device id text.
pub struct PublicationLedger {
    states: PrefStore,
    reasons: PrefStore,
}

impl PublicationLedger {
    /// Whether the ledger's stores take every write: true of every ledger
    /// `new` makes, and kept by every record.
    pub closed spec fn wf(&self) -> bool {
        self.states.writable() && self.reasons.writable()
    }

    /// The state recorded for each device id.
    pub closed spec fn states(&self) -> Map<Seq<char>, Seq<char>> {
        self.states@
    }

    /// The reason recorded with each device's state.
    pub closed spec fn reasons(&self) -> Map<Seq<char>, Seq<char>> {
        self.reasons@
    }

    /// A ledger with nothing recorded.
    pub fn new() -> (r: Self)
        ensures
            r.states() == Map::<Seq<char>, Seq<char>>::empty(),
            r.wf(),
    {
        PublicationLedger { states: PrefStore::new(), reasons: PrefStore::new() }
    }

    /// Record `state` for `device_id`, with its reason.
    pub fn record(&mut self, device_id: &str, state: PublicationState, reason: &str)
        requires
            old(self).wf(),
        ensures
            final(self).wf(),
            final(self).states() == old(self).states().insert(device_id@, state_text(state)),
            final(self).reasons() == old(self).reasons().insert(device_id@, reason@),
    {
        let t = match state {
            PublicationState::PublicationPending => text("publication_pending"),
            PublicationState::Published => text("published"),
        };
        let _ = self.states.set_pref(device_id, t.as_str());
        let _ = self.reasons.set_pref(device_id, reason);
    }

    /// Record a pending publication for `device_id` with its reason.
    pub fn record_pending(&mut self, device_id: &str, reason: &str)
        requires
            old(self).wf(),
        ensures
            final(self).wf(),
            final(self).states() == old(self).states().insert(
                device_id@,
                state_text(PublicationState::PublicationPending),
            ),
            final(self).reasons() == old(self).reasons().insert(device_id@, reason@),
    {
        self.record(device_id, PublicationState::PublicationPending, reason);
    }
}

/// Whether an identity is ready: its directory entry was read back from
/// enough members. A durable local genesis, with nothing recorded, is not.
pub open spec fn spec_identity_ready(states: Map<Seq<char>, Seq<char>>, device_id: Seq<char>) -> bool {
    states.contains_key(device_id) && states[device_id] == "published"@
}

/// Whether this device's identity is ready to use, from the publication
/// ledger as it was read: a storage error when it could not be read (an
/// unreadable row is not "not published"), else whether the entry is
/// recorded as read back from enough members.
pub fn is_identity_ready(ledger: Result<&PublicationLedger, String>, device_id_b32: &str) -> (r: Result<bool, SdkError>)
    ensures
        ledger matches Ok(l) ==> r == Ok::<bool, SdkError>(spec_identity_ready(l.states(), device_id_b32@)),
        ledger matches Err(why) ==> (r matches Err(e) && e is Storage && e.spec_detail() == "publication state: "@ + why@),
{
    let l = match ledger {
        Ok(l) => l,
        Err(why) => {
            let mut m = text("publication state: ");
            m.append(why.as_str());
            return Err(SdkError::Storage(m));
        },
    };
    match l.states.get_pref(device_id_b32) {
        Some(v) => {
            let p = text("published");
            Ok(v == p)
        },
        None => Ok(false),
    }
}

/// A recorded outcome decides readiness: ready after a publication enough
/// members hold, not ready after any other outcome, and not ready for an
/// identity nothing was recorded for.
pub proof fn lemma_readiness_follows_the_record(
    states: Map<Seq<char>, Seq<char>>,
    device_id: Seq<char>,
    other: Seq<char>,
    state: PublicationState,
)
    requires
        other != device_id,
    ensures
        spec_identity_ready(states.insert(device_id, state_text(state)), device_id) <==> state
            == PublicationState::Published,
        spec_identity_ready(states.insert(device_id, state_text(state)), other) == spec_identity_ready(
            states,
            other,
        ),
        !spec_identity_ready(Map::empty(), device_id),
{
    reveal_strlit("published");
    reveal_strlit("publication_pending");
    assert("published"@.len() != "publication_pending"@.len());
}

/// What this device's directory entry names: its identity, its Kyber key,
/// and its counter.
#[derive(Debug)]
pub struct EntryIdentity {
    pub genesis: [u8; 32],
    pub device_id: [u8; 32],
    pub kyber_public_key: Vec<u8>,
    pub counter: u64,
}

/// How this device obtains its own entry.
#[derive(Debug, Clone, Copy, PartialEq, Eq, Structural)]
pub enum OwnEntryStep {
    /// The entry it signed before still names this identity and key.
    KeepPrevious,
    /// A new entry at this counter, re-derived and kept.
    BuildAt { counter: u64 },
}

/// The previous entry is kept while it names this identity and this device's
/// current Kyber key; otherwise a new one goes at the next counter (the first
/// at 1), and an exhausted counter is refused.
pub fn own_entry_step(previous: &Option<EntryIdentity>, genesis: &[u8; 32], device_id: &[u8; 32], kyber_public_key: &[u8]) -> (r: Result<
    OwnEntryStep,
    SdkError,
>)
    ensures
        match previous {
            None => r == Ok::<OwnEntryStep, SdkError>(OwnEntryStep::BuildAt { counter: 1 }),
            Some(e) => if e.genesis == *genesis && e.device_id == *device_id && e.kyber_public_key@
                == kyber_public_key@ {
                r == Ok::<OwnEntryStep, SdkError>(OwnEntryStep::KeepPrevious)
            } else if e.counter == u64::MAX {
                r matches Err(SdkError::InvalidOperation(m)) && m@ == "own directory entry: the counter is exhausted"@
            } else {
                r == Ok::<OwnEntryStep, SdkError>(OwnEntryStep::BuildAt { counter: (e.counter + 1) as u64 })
            },
        },
{
    match previous {
        None => Ok(OwnEntryStep::BuildAt { counter: 1 }),
        Some(e) => {
            let same_genesis = bytes_eq(e.genesis.as_slice(), genesis.as_slice());
            let same_device = bytes_eq(e.device_id.as_slice(), device_id.as_slice());
            let same_key = bytes_eq(e.kyber_public_key.as_slice(), kyber_public_key);
            proof {
                if same_genesis {
                    assert(e.genesis =~= *genesis);
                }
                if same_device {
                    assert(e.device_id =~= *device_id);
                }
            }
            if same_genesis && same_device && same_key {
                return Ok(OwnEntryStep::KeepPrevious);
            }
            match e.counter.checked_add(1) {
                Some(c) => Ok(OwnEntryStep::BuildAt { counter: c }),
                None => Err(SdkError::InvalidOperation(text("own directory entry: the counter is exhausted"))),
            }
        },
    }
}

/// A re-derived entry must name this device.
pub fn check_rederived_device(entry_device_id: &[u8; 32], device_id: &[u8; 32]) -> (r: Result<(), SdkError>)
    ensures
        r is Ok <==> entry_device_id == device_id,
        r matches Err(e) ==> e is InvalidOperation && e.spec_detail()
            == "own directory entry: the re-derived device id is not this device's"@,
{
    if !bytes_eq(entry_device_id.as_slice(), device_id.as_slice()) {
        return Err(
            SdkError::InvalidOperation(text("own directory entry: the re-derived device id is not this device's")),
        );
    }
    proof {
        assert(*entry_device_id =~= *device_id);
    }
    Ok(())
}

/// The holders a read-back counts: the members holding exactly this device's
/// entry, or none when what was read back is another entry or nothing.
pub fn holders_of_read_back(read_back: Option<(bool, usize)>) -> (r: usize)
    ensures
        r == match read_back {
            Some((same, n)) => if same { n } else { 0 },
            None => 0,
        },
{
    match read_back {
        Some((true, n)) => n,
        _ => 0,
    }
}

} // verus!
