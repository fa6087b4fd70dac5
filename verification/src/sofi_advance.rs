//! The fulfillment of a SoFi position and its resolution into the validated
//! lineage: what is checked before the fulfilling transition, what each
//! outcome of the install, the exercise and the reads means, and which leaves
//! stand behind the root a resolution installs.

use vstd::prelude::*;
use crate::bytes::bytes_eq;
use crate::error::{SdkError, text};
use crate::leaf_cache::{applied, collected, post_leaf_cache, represents, LeafEntry, PostState};
use crate::text_id::{push_padded_decimal, spec_padded_decimal};

verus! {

/// The text of this layer's refusal of `what`.
pub open spec fn refusal(what: Seq<char>) -> Seq<char> {
    "sofi advance: "@ + what
}

/// The text of this layer's refusal naming a position between two phrases.
pub open spec fn refusal_at(before: Seq<char>, position: u64, after: Seq<char>) -> Seq<char> {
    "sofi advance: "@ + before + spec_padded_decimal(position as nat, 1) + after
}

/// Whether `e` is this layer's refusal with text `t`.
pub open spec fn refused_with(e: SdkError, t: Seq<char>) -> bool {
    e is InvalidOperation && e.spec_detail() == t
}

/// A refusal of this layer: an invalid operation, explained.
pub fn refuse(what: &str) -> (e: SdkError)
    ensures
        e is InvalidOperation,
        e->InvalidOperation_0@ == refusal(what@),
{
    let mut m = text("sofi advance: ");
    m.append(what);
    SdkError::InvalidOperation(m)
}

/// A storage failure of this layer: what was being read or written, and why.
pub fn storage_err(what: &str, why: &str) -> (e: SdkError)
    ensures
        e is Storage,
        e->Storage_0@ == "sofi advance: "@ + what@ + ": "@ + why@,
{
    let mut m = text("sofi advance: ");
    m.append(what);
    m.append(": ");
    m.append(why);
    SdkError::Storage(m)
}

fn refuse_at(before: &str, position: u64, after: &str) -> (e: SdkError)
    ensures
        refused_with(e, refusal_at(before@, position, after@)),
{
    let mut m = text("sofi advance: ");
    m.append(before);
    push_padded_decimal(&mut m, position, 1);
    m.append(after);
    assert(m@ =~= refusal_at(before@, position, after@));
    SdkError::InvalidOperation(m)
}

/// The fulfillment's transition: the position `q` it holds under its
/// conditional claim, and the fulfillment's id.
#[derive(Debug, Clone, Copy)]
pub struct Fulfilled {
    pub position: u64,
    pub fulfillment_id: [u8; 32],
}

/// The write of one leg of the exercise: the leg's vault, and whether the
/// leader of the leg's key answered with the exercise's link.
#[derive(Debug, Clone, Copy)]
pub struct LegWrite {
    pub vault_id: [u8; 32],
    pub reached_leader: bool,
}

/// The acknowledgement of the pair's install at the leader of `s(q)`.
#[derive(Debug, Clone, Copy)]
pub struct Installed {
    pub position: u64,
}

/// Stages 7 and 8, written from what storage holds.
#[derive(Debug)]
pub struct Completed {
    pub position: u64,
    pub fulfillment_id: [u8; 32],
    /// The pair at the leader of `s(q)`.
    pub installed: Installed,
    /// The exercise at every leg's key.
    pub exercise: Vec<LegWrite>,
}

/// Which of the pending position's objects could not be read back.
#[derive(Debug, Clone, Copy, PartialEq, Eq, Structural)]
pub enum PendingObject {
    Fulfillment,
    Precommit,
    Preimage,
}

/// The network's status when stages 7 and 8 could not be written: never a
/// refusal, which is an error, and never a verdict.
#[derive(Debug)]
pub enum NotTaken {
    /// An object of the pending position could not be read back this pass.
    Unavailable(PendingObject),
    /// Evidence conformance needs is not in hand after the acquisition rounds.
    Evidence(Vec<String>),
    /// The leader of `s(q)` did not answer with the pair's links.
    PairLeaderUnreached,
    /// The leader of a leg's key did not answer, at these vaults.
    LegLeaderUnreached(Vec<[u8; 32]>),
}

/// What completing the pending fulfillment did.
#[derive(Debug)]
pub enum Completion {
    /// The pair reached the leader of `s(q)` and the exercise the leader of
    /// every leg's key.
    Written(Box<Completed>),
    /// The network did not take a stage this pass; the position stays
    /// pending and fenced, and the stages run again from storage next time.
    NotTaken { position: u64, why: NotTaken },
}

/// Stage 6's first refusals, before the validated predecessor is read: a
/// pending admission already stands, or the precommit names another trader
/// than the device whose head advances.
pub fn check_fulfill_trader(
    pending_position: Option<u64>,
    precommit_genesis: &[u8; 32],
    precommit_device: &[u8; 32],
    head_genesis: &[u8; 32],
    head_device: &[u8; 32],
) -> (r: Result<(), SdkError>)
    ensures
        r is Ok <==> (pending_position is None && precommit_genesis == head_genesis && precommit_device
            == head_device),
        r matches Err(e) ==> refused_with(e, match pending_position {
            Some(p) => refusal_at("a pending admission stands at position "@, p, "; finish or resolve it first"@),
            None => refusal("P names another trader than the device whose head advances"@),
        }),
{
    if let Some(p) = pending_position {
        return Err(refuse_at("a pending admission stands at position ", p, "; finish or resolve it first"));
    }
    if !bytes_eq(precommit_genesis.as_slice(), head_genesis.as_slice()) || !bytes_eq(
        precommit_device.as_slice(),
        head_device.as_slice(),
    ) {
        proof {
            if precommit_genesis == head_genesis {
                assert(precommit_device@ != head_device@);
            }
        }
        return Err(refuse("P names another trader than the device whose head advances"));
    }
    proof {
        assert(*precommit_genesis =~= *head_genesis);
        assert(*precommit_device =~= *head_device);
    }
    Ok(())
}

/// Stage 6's remaining refusals: the precommit must be built on exactly the
/// validated predecessor, its position and root, and the fulfillment must be
/// this precommit's, at the next position. The position `q` it holds.
pub fn check_fulfill_builds_on(
    precommit_position: u64,
    precommit_void_root: &[u8; 32],
    validated_position: u64,
    validated_root: &[u8; 32],
    fulfillment_position: u64,
    fulfillment_precommit_id: &[u8; 32],
    precommit_id: &[u8; 32],
) -> (r: Result<u64, SdkError>)
    ensures
        r is Ok <==> (precommit_position == validated_position && precommit_void_root == validated_root
            && precommit_position < u64::MAX && fulfillment_position == precommit_position + 1
            && fulfillment_precommit_id == precommit_id),
        r matches Ok(q) ==> q == precommit_position + 1,
        r matches Err(e) ==> refused_with(e, if precommit_position != validated_position || precommit_void_root != validated_root {
            refusal("P is built on position "@ + spec_padded_decimal(precommit_position as nat, 1)
                + " at another root; the validated predecessor is position "@ + spec_padded_decimal(validated_position as nat, 1))
        } else if precommit_position == u64::MAX {
            refusal("P's position has no successor"@)
        } else {
            refusal("F is not this P's fulfillment at p + 1"@)
        }),
{
    if precommit_position != validated_position || !bytes_eq(
        precommit_void_root.as_slice(),
        validated_root.as_slice(),
    ) {
        let mut m = text("sofi advance: ");
        m.append("P is built on position ");
        push_padded_decimal(&mut m, precommit_position, 1);
        m.append(" at another root; the validated predecessor is position ");
        push_padded_decimal(&mut m, validated_position, 1);
        assert(m@ =~= refusal("P is built on position "@ + spec_padded_decimal(precommit_position as nat, 1)
            + " at another root; the validated predecessor is position "@ + spec_padded_decimal(validated_position as nat, 1)));
        return Err(SdkError::InvalidOperation(m));
    }
    proof {
        assert(*precommit_void_root =~= *validated_root);
    }
    let q = match precommit_position.checked_add(1) {
        Some(q) => q,
        None => return Err(refuse("P's position has no successor")),
    };
    if fulfillment_position != q || !bytes_eq(fulfillment_precommit_id.as_slice(), precommit_id.as_slice()) {
        proof {
            if fulfillment_position == q {
                assert(fulfillment_precommit_id@ != precommit_id@);
            }
        }
        return Err(refuse("F is not this P's fulfillment at p + 1"));
    }
    proof {
        assert(*fulfillment_precommit_id =~= *precommit_id);
    }
    Ok(q)
}

/// The acceptance coordinates of a fulfillment's admission: until the
/// position resolves, the device's economic root stays its predecessor's; the
/// accepted substrate is the fulfillment's published object and the manifest
/// is the precommit's.
#[derive(Debug, Clone, Copy)]
pub struct AcceptedAdmissionCoords {
    pub post_economic_root: [u8; 32],
    pub accepted_substrate_addr: [u8; 32],
    pub admission_manifest_addr: [u8; 32],
    pub c_dsm_plus: [u8; 32],
    pub embedded_parent: [u8; 32],
}

/// The acceptance coordinates of the fulfillment's admission, from the chain
/// tip and embedded parent of the transition and the three addresses.
pub fn fulfillment_acceptance_coords(
    chain_tip: [u8; 32],
    embedded_parent: [u8; 32],
    predecessor_root: [u8; 32],
    fulfillment_addr: [u8; 32],
    precommit_addr: [u8; 32],
) -> (r: AcceptedAdmissionCoords)
    ensures
        r.post_economic_root == predecessor_root,
        r.accepted_substrate_addr == fulfillment_addr,
        r.admission_manifest_addr == precommit_addr,
        r.c_dsm_plus == chain_tip,
        r.embedded_parent == embedded_parent,
{
    AcceptedAdmissionCoords {
        post_economic_root: predecessor_root,
        accepted_substrate_addr: fulfillment_addr,
        admission_manifest_addr: precommit_addr,
        c_dsm_plus: chain_tip,
        embedded_parent,
    }
}

/// How an install that wrote nothing ended.
#[derive(Debug)]
pub enum InstallError {
    /// The leader of `s(q)` did not answer.
    LeaderUnreached,
    /// The evidence conformance needs is not in hand.
    Unavailable(Vec<String>),
    /// The fulfillment does not conform.
    NotConforming(String),
    /// An object has no canonical bytes.
    Wire(String),
    /// A member, or this device's own store, could not be read or written.
    Storage(String),
}

/// What an install that wrote nothing means: the network's status when the
/// leader did not answer or the evidence is not in hand; an error otherwise.
pub fn install_failure(e: InstallError) -> (r: Result<NotTaken, SdkError>)
    ensures
        install_error_is_status(e) <==> r is Ok,
        e is LeaderUnreached ==> r matches Ok(NotTaken::PairLeaderUnreached),
        e matches InstallError::Unavailable(missing) ==> (r matches Ok(NotTaken::Evidence(m2)) && m2@ == missing@),
        e matches InstallError::NotConforming(why) ==> (r matches Err(err) && refused_with(err, refusal("install: "@ + why@))),
        e matches InstallError::Wire(why) ==> (r matches Err(err) && refused_with(err, refusal("install: "@ + why@))),
        e matches InstallError::Storage(why) ==> (r matches Err(err) && err is Storage && err.spec_detail()
            == "sofi advance: "@ + "install"@ + ": "@ + why@),
{
    match e {
        InstallError::LeaderUnreached => Ok(NotTaken::PairLeaderUnreached),
        InstallError::Unavailable(missing) => Ok(NotTaken::Evidence(missing)),
        InstallError::NotConforming(why) => {
            let mut m = text("install: ");
            m.append(why.as_str());
            Err(refuse(m.as_str()))
        },
        InstallError::Wire(why) => {
            let mut m = text("install: ");
            m.append(why.as_str());
            Err(refuse(m.as_str()))
        },
        InstallError::Storage(why) => Err(storage_err("install", why.as_str())),
    }
}

/// Whether an install failure is the network's status rather than an error.
pub open spec fn install_error_is_status(e: InstallError) -> bool {
    e is LeaderUnreached || e is Unavailable
}

/// The vaults whose leader did not answer with the exercise's link, in leg
/// order.
pub open spec fn spec_unreached(writes: Seq<LegWrite>) -> Seq<[u8; 32]>
    decreases writes.len(),
{
    if writes.len() == 0 {
        Seq::empty()
    } else {
        let before = spec_unreached(writes.drop_last());
        if writes.last().reached_leader {
            before
        } else {
            before.push(writes.last().vault_id)
        }
    }
}

/// The vaults whose leader did not answer with the exercise's link.
pub fn unreached_legs(writes: &[LegWrite]) -> (r: Vec<[u8; 32]>)
    ensures
        r@ == spec_unreached(writes@),
        r@.len() == 0 <==> forall|i: int| 0 <= i < writes@.len() ==> (#[trigger] writes@[i]).reached_leader,
{
    let mut out: Vec<[u8; 32]> = Vec::new();
    let mut i: usize = 0;
    while i < writes.len()
        invariant
            i <= writes@.len(),
            out@ == spec_unreached(writes@.subrange(0, i as int)),
            out@.len() == 0 <==> forall|k: int| 0 <= k < i ==> (#[trigger] writes@[k]).reached_leader,
        decreases writes@.len() - i,
    {
        proof {
            let sub = writes@.subrange(0, i + 1);
            assert(sub.drop_last() =~= writes@.subrange(0, i as int));
            assert(sub.last() == writes@[i as int]);
        }
        if !writes[i].reached_leader {
            out.push(writes[i].vault_id);
        }
        i = i + 1;
    }
    assert(writes@.subrange(0, writes@.len() as int) =~= writes@);
    out
}

/// Stage 8's outcome: written when the leader of every leg's key answered,
/// otherwise the network's status naming the legs it did not take.
pub fn exercise_outcome(writes: Vec<LegWrite>) -> (r: Result<Vec<LegWrite>, NotTaken>)
    ensures
        r is Ok <==> forall|i: int| 0 <= i < writes@.len() ==> (#[trigger] writes@[i]).reached_leader,
        r matches Ok(w) ==> w@ == writes@,
        r matches Err(NotTaken::LegLeaderUnreached(v)) ==> v@ == spec_unreached(writes@),
        r is Err ==> r matches Err(NotTaken::LegLeaderUnreached(_)),
{
    let unreached = unreached_legs(writes.as_slice());
    if unreached.len() > 0 {
        return Err(NotTaken::LegLeaderUnreached(unreached));
    }
    Ok(writes)
}

/// The kind of the admission pending on the head.
#[derive(Debug, Clone, Copy)]
pub enum PendingAdmissionKind {
    SofiFulfillment { fulfillment_id: [u8; 32] },
    DsmBacked,
    OfflineLoad,
    OfflineUnload,
}

/// The admission pending on the head: its position, the root it stands on,
/// and its kind.
#[derive(Debug, Clone, Copy)]
pub struct PendingAdmission {
    pub economic_position: u64,
    pub pre_economic_root: [u8; 32],
    pub kind: PendingAdmissionKind,
}

/// The pending fulfillment admission, its position and fulfillment id; a
/// refusal when nothing is pending or what is pending is not a fulfillment.
pub fn pending_fulfillment(pending: Option<PendingAdmission>) -> (r: Result<(u64, [u8; 32]), SdkError>)
    ensures
        r is Ok <==> (pending matches Some(p) && p.kind is SofiFulfillment),
        r matches Ok((q, id)) ==> (pending matches Some(p) && q == p.economic_position
            && p.kind == (PendingAdmissionKind::SofiFulfillment { fulfillment_id: id })),
        r matches Err(e) ==> refused_with(e, match pending {
            None => refusal("no pending admission: nothing to resolve"@),
            Some(p) => refusal_at("the pending admission at position "@, p.economic_position, " is not a SoFi fulfillment"@),
        }),
{
    let p = match pending {
        Some(p) => p,
        None => return Err(refuse("no pending admission: nothing to resolve")),
    };
    match p.kind {
        PendingAdmissionKind::SofiFulfillment { fulfillment_id } => Ok((p.economic_position, fulfillment_id)),
        _ => Err(refuse_at("the pending admission at position ", p.economic_position, " is not a SoFi fulfillment")),
    }
}

/// A position this device admitted.
#[derive(Debug, Clone, Copy)]
pub enum AdmittedPosition {
    SingleRoot { economic_position: u64, economic_root: [u8; 32] },
    ResolvedSofi { economic_position: u64, selected_root: [u8; 32], fulfillment_id: [u8; 32] },
    UnresolvedSofi { economic_position: u64 },
}

/// The position just before `position`, where the root it was built on was
/// selected; `None` at position zero.
pub fn position_before(position: u64) -> (r: Option<u64>)
    ensures
        position == 0 <==> r is None,
        r matches Some(b) ==> b + 1 == position,
{
    position.checked_sub(1)
}

/// The root an admitted position selected, which routes the cells of the
/// next position: an ordinary position's root, a resolved position's
/// selected root; none for an unresolved one or when nothing was admitted.
pub fn root_selected_by(admitted: Option<AdmittedPosition>) -> (r: Option<[u8; 32]>)
    ensures
        r == match admitted {
            Some(AdmittedPosition::SingleRoot { economic_root, .. }) => Some(economic_root),
            Some(AdmittedPosition::ResolvedSofi { selected_root, .. }) => Some(selected_root),
            _ => None::<[u8; 32]>,
        },
{
    match admitted {
        Some(AdmittedPosition::SingleRoot { economic_root, .. }) => Some(economic_root),
        Some(AdmittedPosition::ResolvedSofi { selected_root, .. }) => Some(selected_root),
        _ => None,
    }
}

/// The chain state of a cell's claim.
#[derive(Debug, Clone, Copy, PartialEq, Eq, Structural)]
pub enum ChainState {
    Final,
    Open,
}

/// What the reads of a cell decide.
#[derive(Debug, Clone, Copy)]
pub enum CellReading {
    /// A claim holds the cell: its id, and whether its chain is final.
    Held { id: [u8; 32], state: ChainState },
    /// No claim holds the cell.
    Open,
}

/// The claim whose bytes are final at a root cell: the holder of a cell whose
/// chain is final; none while the cell is open, its chain is not final, or
/// the reads do not decide it yet.
pub fn final_claim_id(reading: Result<CellReading, String>) -> (r: Option<[u8; 32]>)
    ensures
        r == match reading {
            Ok(CellReading::Held { id, state: ChainState::Final }) => Some(id),
            _ => None::<[u8; 32]>,
        },
{
    match reading {
        Ok(CellReading::Held { id, state: ChainState::Final }) => Some(id),
        _ => None,
    }
}

/// What a scan of storage established about an object: kept with its bytes,
/// not established this pass, or established absent.
#[derive(Debug)]
pub enum Resolved<T> {
    Kept(T),
    Unavailable,
    Absent,
}

/// One object of the pending position read back: kept, or the network's
/// status naming it; an object established absent contradicts this device's
/// record, which read each back stored before the transition, and is refused.
pub fn pending_object<T>(fetched: Resolved<T>, which: PendingObject) -> (r: Result<Result<T, PendingObject>, SdkError>)
    ensures
        fetched matches Resolved::Kept(t) ==> r == Ok::<Result<T, PendingObject>, SdkError>(Ok(t)),
        fetched is Unavailable ==> r == Ok::<Result<T, PendingObject>, SdkError>(Err(which)),
        fetched is Absent ==> (r matches Err(e) && refused_with(e, match which {
            PendingObject::Fulfillment => refusal("the pending fulfillment is not Stored; nothing to finish from"@),
            PendingObject::Precommit => refusal("the pending fulfillment's P is not Stored"@),
            PendingObject::Preimage => refusal("the pending fulfillment's P(E) is not Stored"@),
        })),
{
    match fetched {
        Resolved::Kept(t) => Ok(Ok(t)),
        Resolved::Unavailable => Ok(Err(which)),
        Resolved::Absent => match which {
            PendingObject::Fulfillment => Err(refuse("the pending fulfillment is not Stored; nothing to finish from")),
            PendingObject::Precommit => Err(refuse("the pending fulfillment's P is not Stored")),
            PendingObject::Preimage => Err(refuse("the pending fulfillment's P(E) is not Stored")),
        },
    }
}

/// The claim this device registered at `p`, as a precommit names it.
#[derive(Debug, Clone, Copy)]
pub enum ParentClaimRef {
    SingleRoot { claim_ref: [u8; 32] },
    Conditional { fulfillment_id: [u8; 32] },
}

/// The parent claim from this device's own durable state: an ordinary
/// position's frozen claim envelope, by its reference, or a resolved
/// position's fulfillment. An unresolved conditional position, or an
/// ordinary one whose envelope this device does not hold, is refused.
pub fn own_parent_claim(admitted: AdmittedPosition, frozen_claim_ref: Option<[u8; 32]>) -> (r: Result<
    ParentClaimRef,
    SdkError,
>)
    ensures
        match admitted {
            AdmittedPosition::SingleRoot { economic_position, .. } => match frozen_claim_ref {
                Some(c) => r matches Ok(ParentClaimRef::SingleRoot { claim_ref }) && claim_ref == c,
                None => r matches Err(e) && refused_with(e, refusal_at(
                    "no claim of this device's own at position "@,
                    economic_position,
                    ": the parent claim P names cannot be checked"@,
                )),
            },
            AdmittedPosition::ResolvedSofi { fulfillment_id, .. } => r matches Ok(
                ParentClaimRef::Conditional { fulfillment_id: f },
            ) && f == fulfillment_id,
            AdmittedPosition::UnresolvedSofi { economic_position } => r matches Err(e) && refused_with(
                e,
                refusal_at("the admitted position "@, economic_position, " is conditional and unresolved"@),
            ),
        },
{
    match admitted {
        AdmittedPosition::SingleRoot { economic_position, .. } => match frozen_claim_ref {
            Some(c) => Ok(ParentClaimRef::SingleRoot { claim_ref: c }),
            None => Err(
                refuse_at(
                    "no claim of this device's own at position ",
                    economic_position,
                    ": the parent claim P names cannot be checked",
                ),
            ),
        },
        AdmittedPosition::ResolvedSofi { fulfillment_id, .. } => Ok(ParentClaimRef::Conditional { fulfillment_id }),
        AdmittedPosition::UnresolvedSofi { economic_position } => Err(
            refuse_at("the admitted position ", economic_position, " is conditional and unresolved"),
        ),
    }
}

/// Why the pending position is not resolved yet.
#[derive(Debug)]
pub enum NotResolved {
    /// The position pair's reads do not decide registration yet.
    Registration(String),
    /// The fulfillment is not registered at `q` yet.
    NotRegistered,
    /// The fulfillment's precommit is not stored yet.
    PrecommitNotStored,
    /// The first leg's cell does not hold the exercise yet, or its reads do
    /// not decide it.
    ExerciseNotRead,
    /// The facts are complete and the ladder does not resolve the position yet.
    Ladder(String),
    /// A fact the ladder reads is not established.
    Facts(String),
}

/// What a route resolved to.
#[derive(Debug, Clone, Copy, PartialEq, Eq, Structural)]
pub enum Resolution {
    Realized,
    Void,
    Invalid,
}

/// What resolving the pending position did.
#[derive(Debug)]
pub enum Advanced {
    /// Not resolved yet: the position stays fenced and nothing is written.
    NotYet { position: u64, why: NotResolved },
    /// The route resolved Invalid: the lineage is terminal at `q`.
    Invalid { position: u64 },
    /// The lineage advanced: the admitted position is now `q` under the root
    /// the resolution selected.
    Installed { resolution: Resolution, economic_position: u64, economic_root: [u8; 32] },
}

/// The pending position must extend the admitted coordinate exactly: the
/// next position, standing on the validated root. Anything else is a local
/// incoherence, refused rather than guessed at.
pub fn check_pending_extends_admitted(
    validated_position: u64,
    validated_root: &[u8; 32],
    pending_position: u64,
    pending_pre_root: &[u8; 32],
) -> (r: Result<(), SdkError>)
    requires
        validated_position < u64::MAX,
    ensures
        r is Ok <==> (pending_position == validated_position + 1 && pending_pre_root == validated_root),
        r matches Err(e) ==> refused_with(e, refusal(
            "the pending position does not extend the admitted coordinate \u{2014} local store incoherent; refusing to guess"@,
        )),
{
    if validated_position + 1 != pending_position || !bytes_eq(validated_root.as_slice(), pending_pre_root.as_slice()) {
        proof {
            if validated_position + 1 == pending_position {
                assert(validated_root@ != pending_pre_root@);
            }
        }
        return Err(
            refuse(
                "the pending position does not extend the admitted coordinate \u{2014} local store incoherent; refusing to guess",
            ),
        );
    }
    proof {
        assert(*validated_root =~= *pending_pre_root);
    }
    Ok(())
}

/// What the position pair's reads say of registration at `q`.
#[derive(Debug)]
pub enum RegistrationRead {
    /// The reads do not decide yet.
    Undecided(String),
    /// A fulfillment is registered: its id.
    Registered { fulfillment_id: [u8; 32] },
    /// The position was never registered.
    NeverRegistered,
    /// Registration is not resolved yet.
    Unresolved,
}

/// Registration at `q` must be this device's pending fulfillment: it only
/// ever writes its own claims at its own positions, so any other holder is a
/// refusal, and an undecided read is not yet.
pub fn classify_registration(read: RegistrationRead, position: u64, fulfillment_id: &[u8; 32]) -> (r: Result<
    Result<(), NotResolved>,
    SdkError,
>)
    ensures
        read matches RegistrationRead::Undecided(m) ==> (r matches Ok(Err(NotResolved::Registration(m2))) && m2@ == m@),
        read is Unresolved ==> r matches Ok(Err(NotResolved::NotRegistered)),
        read matches RegistrationRead::Registered { fulfillment_id: id } ==> (id == *fulfillment_id <==> r matches Ok(Ok(()))),
        read matches RegistrationRead::Registered { fulfillment_id: id } ==> (id != *fulfillment_id ==> (r matches Err(e)
            && refused_with(e, refusal_at("position "@, position, " is held by a claim other than the pending fulfillment"@)))),
        read is NeverRegistered ==> (r matches Err(e) && refused_with(
            e,
            refusal_at("position "@, position, " is held by a claim other than the pending fulfillment"@),
        )),
{
    match read {
        RegistrationRead::Undecided(m) => Ok(Err(NotResolved::Registration(m))),
        RegistrationRead::Unresolved => Ok(Err(NotResolved::NotRegistered)),
        RegistrationRead::Registered { fulfillment_id: id } => {
            if bytes_eq(id.as_slice(), fulfillment_id.as_slice()) {
                proof {
                    assert(id =~= *fulfillment_id);
                }
                Ok(Ok(()))
            } else {
                Err(refuse_at("position ", position, " is held by a claim other than the pending fulfillment"))
            }
        },
        RegistrationRead::NeverRegistered => Err(
            refuse_at("position ", position, " is held by a claim other than the pending fulfillment"),
        ),
    }
}

/// The fulfillment's precommit, or not yet while it is not stored.
pub fn precommit_step<T>(fetched: Resolved<T>) -> (r: Result<T, NotResolved>)
    ensures
        fetched matches Resolved::Kept(t) ==> r == Ok::<T, NotResolved>(t),
        !(fetched is Kept) ==> r matches Err(NotResolved::PrecommitNotStored),
{
    match fetched {
        Resolved::Kept(t) => Ok(t),
        _ => Err(NotResolved::PrecommitNotStored),
    }
}

/// Whether `i` is the first index of `s` holding vault `v`.
pub open spec fn first_attempt_at(s: Seq<([u8; 32], u64)>, v: [u8; 32], i: int) -> bool {
    &&& 0 <= i < s.len()
    &&& s[i].0 == v
    &&& forall|j: int| 0 <= j < i ==> (#[trigger] s[j]).0 != v
}

/// The first leg of the precommit and the fulfillment's attempt for it: the
/// cell the exercise is read back from. A precommit without legs, or a
/// fulfillment without an attempt for its first leg, is refused.
pub fn first_leg_attempt(leg_vaults: &[[u8; 32]], attempts: &[([u8; 32], u64)]) -> (r: Result<([u8; 32], u64), SdkError>)
    ensures
        leg_vaults@.len() == 0 ==> (r matches Err(e) && refused_with(e, refusal("P names no leg"@))),
        leg_vaults@.len() > 0 ==> (r is Ok <==> exists|i: int| 0 <= i < attempts@.len() && (#[trigger] attempts@[i]).0
            == leg_vaults@[0]),
        r matches Ok((v, a)) ==> v == leg_vaults@[0] && exists|i: int| first_attempt_at(attempts@, v, i) && attempts@[i].1 == a,
        r matches Err(e) ==> refused_with(e, if leg_vaults@.len() == 0 {
            refusal("P names no leg"@)
        } else {
            refusal("F names no attempt for P's first leg"@)
        }),
{
    if leg_vaults.len() == 0 {
        return Err(refuse("P names no leg"));
    }
    let first = leg_vaults[0];
    let mut i: usize = 0;
    while i < attempts.len()
        invariant
            i <= attempts@.len(),
            leg_vaults@.len() > 0,
            first == leg_vaults@[0],
            forall|j: int| 0 <= j < i ==> (#[trigger] attempts@[j]).0 != first,
        decreases attempts@.len() - i,
    {
        if bytes_eq(attempts[i].0.as_slice(), first.as_slice()) {
            proof {
                assert(attempts@[i as int].0 =~= first);
                assert(first_attempt_at(attempts@, first, i as int));
            }
            return Ok((first, attempts[i].1));
        }
        proof {
            if attempts@[i as int].0 == first {
                assert(attempts@[i as int].0@ == first@);
            }
        }
        i = i + 1;
    }
    Err(refuse("F names no attempt for P's first leg"))
}

/// The exercise read back from the first leg's cell, or not yet.
pub fn exercise_step<T>(read: Result<Option<T>, String>) -> (r: Result<T, NotResolved>)
    ensures
        read matches Ok(Some(t)) ==> r == Ok::<T, NotResolved>(t),
        !(read matches Ok(Some(_))) ==> r matches Err(NotResolved::ExerciseNotRead),
{
    match read {
        Ok(Some(t)) => Ok(t),
        _ => Err(NotResolved::ExerciseNotRead),
    }
}

/// Each vault of the legs once, in the order of its first leg: the chains the
/// verifier walks.
pub fn distinct_vaults(leg_vaults: &[[u8; 32]]) -> (r: Vec<[u8; 32]>)
    ensures
        forall|i: int, j: int| 0 <= i < j < r@.len() ==> r@[i] != r@[j],
        forall|k: int| 0 <= k < leg_vaults@.len() ==> r@.contains(#[trigger] leg_vaults@[k]),
        forall|i: int| 0 <= i < r@.len() ==> leg_vaults@.contains(#[trigger] r@[i]),
{
    let mut out: Vec<[u8; 32]> = Vec::new();
    let mut k: usize = 0;
    while k < leg_vaults.len()
        invariant
            k <= leg_vaults@.len(),
            forall|i: int, j: int| 0 <= i < j < out@.len() ==> out@[i] != out@[j],
            forall|m: int| 0 <= m < k ==> out@.contains(#[trigger] leg_vaults@[m]),
            forall|i: int| 0 <= i < out@.len() ==> leg_vaults@.contains(#[trigger] out@[i]),
        decreases leg_vaults@.len() - k,
    {
        let v = leg_vaults[k];
        let mut seen = false;
        let mut i: usize = 0;
        while i < out.len()
            invariant
                i <= out@.len(),
                seen <==> exists|j: int| 0 <= j < i && out@[j] == v,
            decreases out@.len() - i,
        {
            if bytes_eq(out[i].as_slice(), v.as_slice()) {
                proof {
                    assert(out@[i as int] =~= v);
                }
                seen = true;
            } else {
                proof {
                    if out@[i as int] == v {
                        assert(out@[i as int]@ == v@);
                    }
                }
            }
            i = i + 1;
        }
        if !seen {
            proof {
                assert(leg_vaults@.contains(leg_vaults@[k as int]));
            }
            let ghost before = out@;
            out.push(v);
            proof {
                assert(out@ == before.push(v));
                assert forall|m: int| 0 <= m < k + 1 implies out@.contains(#[trigger] leg_vaults@[m]) by {
                    if m < k {
                        assert(before.contains(leg_vaults@[m]));
                        let j = choose|j: int| 0 <= j < before.len() && before[j] == leg_vaults@[m];
                        assert(out@[j] == leg_vaults@[m]);
                    } else {
                        assert(out@[out@.len() - 1] == leg_vaults@[m]);
                    }
                }
                assert forall|i: int, j: int| 0 <= i < j < out@.len() implies out@[i] != out@[j] by {
                    if j == out@.len() - 1 {
                        assert(before[i] != v);
                    }
                }
                assert forall|i: int| 0 <= i < out@.len() implies leg_vaults@.contains(#[trigger] out@[i]) by {
                    if i < before.len() {
                        assert(before[i] == out@[i]);
                    }
                }
            }
        } else {
            proof {
                let j = choose|j: int| 0 <= j < out@.len() && out@[j] == v;
                assert(out@.contains(leg_vaults@[k as int]));
            }
        }
        k = k + 1;
    }
    out
}

/// The established facts, or not yet while a fact is not established.
pub fn facts_step<T>(established: Result<T, String>) -> (r: Result<T, NotResolved>)
    ensures
        established matches Ok(t) ==> r == Ok::<T, NotResolved>(t),
        established matches Err(m) ==> (r matches Err(NotResolved::Facts(m2)) && m2@ == m@),
{
    match established {
        Ok(t) => Ok(t),
        Err(m) => Err(NotResolved::Facts(m)),
    }
}

/// Why the lineage did not advance.
#[derive(Debug)]
pub enum AdvanceError {
    /// The ladder does not resolve the position yet.
    FactsIncomplete(String),
    /// The route resolved Invalid: no root follows the position.
    LineageIsTerminal,
    /// Any other refusal of the advance.
    Other(String),
}

/// What a refused advance means: not yet, Invalid with the fence standing,
/// or a refusal.
pub fn classify_advance_error(e: AdvanceError, position: u64) -> (r: Result<Advanced, SdkError>)
    ensures
        e matches AdvanceError::FactsIncomplete(m) ==> (r matches Ok(
            Advanced::NotYet { position: p, why: NotResolved::Ladder(m2) },
        ) && p == position && m2@ == m@),
        e is LineageIsTerminal ==> (r matches Ok(Advanced::Invalid { position: p }) && p == position),
        e matches AdvanceError::Other(m) ==> (r matches Err(err) && refused_with(err, refusal(m@))),
{
    match e {
        AdvanceError::FactsIncomplete(m) => Ok(Advanced::NotYet { position, why: NotResolved::Ladder(m) }),
        AdvanceError::LineageIsTerminal => Ok(Advanced::Invalid { position }),
        AdvanceError::Other(m) => Err(refuse(m.as_str())),
    }
}

/// Where the leaves behind an installed root come from.
#[derive(Debug, Clone, Copy, PartialEq, Eq, Structural)]
pub enum LeafSource {
    /// The current cache with the states the resolution wrote applied.
    ApplyPostStates,
    /// The current cache: the route moved nothing.
    KeepCurrent,
}

/// Realized over established facts applies the written states; Void keeps
/// the cache; anything else cannot come out of the advance and is refused.
pub fn leaves_behind_root(resolution: Resolution, facts_established: bool) -> (r: Result<LeafSource, SdkError>)
    ensures
        (resolution is Realized && facts_established) ==> r == Ok::<LeafSource, SdkError>(LeafSource::ApplyPostStates),
        resolution is Void ==> r == Ok::<LeafSource, SdkError>(LeafSource::KeepCurrent),
        (resolution is Invalid || (resolution is Realized && !facts_established)) ==> (r matches Err(e) && refused_with(
            e,
            refusal("the advance installed a root these facts cannot have produced"@),
        )),
{
    match resolution {
        Resolution::Realized => {
            if facts_established {
                Ok(LeafSource::ApplyPostStates)
            } else {
                Err(refuse("the advance installed a root these facts cannot have produced"))
            }
        },
        Resolution::Void => Ok(LeafSource::KeepCurrent),
        Resolution::Invalid => Err(refuse("the advance installed a root these facts cannot have produced")),
    }
}

/// The leaves behind the installed root: the post-resolution cache, or the
/// current one untouched.
pub fn resolved_leaves(current: Vec<LeafEntry>, source: LeafSource, post: &[PostState]) -> (r: Vec<LeafEntry>)
    ensures
        source is ApplyPostStates ==> represents(r@, applied(collected(current@), post@)),
        source is KeepCurrent ==> r@ == current@,
{
    match source {
        LeafSource::ApplyPostStates => post_leaf_cache(&current, post),
        LeafSource::KeepCurrent => current,
    }
}

/// The leaves must recompute the installed root before anything is written.
pub fn check_recomputed_root(recomputed: &[u8; 32], installed: &[u8; 32]) -> (r: Result<(), SdkError>)
    ensures
        r is Ok <==> recomputed == installed,
        r matches Err(e) ==> refused_with(e, refusal("the post leaves do not recompute the installed root \u{2014} nothing written"@)),
{
    if !bytes_eq(recomputed.as_slice(), installed.as_slice()) {
        return Err(refuse("the post leaves do not recompute the installed root \u{2014} nothing written"));
    }
    proof {
        assert(*recomputed =~= *installed);
    }
    Ok(())
}

/// Where resolving the pending position stands: the admitted coordinate and
/// its fence, the registration at `q`, the precommit, the exercise, the
/// facts, the advance, the leaves behind the installed root, the install;
/// or finished.
#[derive(Debug, Clone, Copy, PartialEq, Eq, Structural)]
pub enum ResolveStage {
    Admitted,
    Registration,
    Precommit,
    Exercise,
    Facts,
    Advance,
    Leaves,
    Install,
    Finished(ResolveEnd),
}

/// How resolving the pending position ended.
#[derive(Debug, Clone, Copy, PartialEq, Eq, Structural)]
pub enum ResolveEnd {
    /// Not resolved yet: nothing written, the fence kept.
    NotYet,
    /// The route resolved Invalid: the lineage is terminal, the fence kept.
    Invalid,
    /// A refusal or a failure: nothing written.
    Refused,
    /// The resolution was installed.
    Installed,
}

/// What the host reports of the stage it performed.
#[derive(Debug, Clone, Copy, PartialEq, Eq, Structural)]
pub enum ResolveEvent {
    /// The stage's object is in hand or its check passed.
    Proceeded,
    /// The stage's object or facts are not decided yet.
    NotYet,
    /// The stage refused or failed.
    Refused,
    /// The advance found the lineage terminal (the route resolved Invalid).
    LineageTerminal,
    /// The install wrote the resolved position.
    Installed,
}

/// The rank of a stage in the order they run.
pub open spec fn resolve_rank(s: ResolveStage) -> int {
    match s {
        ResolveStage::Admitted => 0,
        ResolveStage::Registration => 1,
        ResolveStage::Precommit => 2,
        ResolveStage::Exercise => 3,
        ResolveStage::Facts => 4,
        ResolveStage::Advance => 5,
        ResolveStage::Leaves => 6,
        ResolveStage::Install => 7,
        ResolveStage::Finished(_) => 8,
    }
}

/// Whether a stage can be not decided yet: the registration, the precommit,
/// the exercise, the facts and the advance wait for the network.
pub open spec fn can_wait(s: ResolveStage) -> bool {
    1 <= resolve_rank(s) <= 5
}

/// The stage after `stage` on `event`. An event that does not belong to the
/// stage is a failure: nothing written.
pub open spec fn spec_resolve_next(stage: ResolveStage, event: ResolveEvent) -> ResolveStage {
    match stage {
        ResolveStage::Finished(e) => ResolveStage::Finished(e),
        ResolveStage::Install => match event {
            ResolveEvent::Installed => ResolveStage::Finished(ResolveEnd::Installed),
            ResolveEvent::Refused => ResolveStage::Finished(ResolveEnd::Refused),
            _ => ResolveStage::Finished(ResolveEnd::Refused),
        },
        _ => match event {
            ResolveEvent::Proceeded => match stage {
                ResolveStage::Admitted => ResolveStage::Registration,
                ResolveStage::Registration => ResolveStage::Precommit,
                ResolveStage::Precommit => ResolveStage::Exercise,
                ResolveStage::Exercise => ResolveStage::Facts,
                ResolveStage::Facts => ResolveStage::Advance,
                ResolveStage::Advance => ResolveStage::Leaves,
                _ => ResolveStage::Install,
            },
            ResolveEvent::NotYet => if can_wait(stage) {
                ResolveStage::Finished(ResolveEnd::NotYet)
            } else {
                ResolveStage::Finished(ResolveEnd::Refused)
            },
            ResolveEvent::Refused => ResolveStage::Finished(ResolveEnd::Refused),
            ResolveEvent::LineageTerminal => if stage == ResolveStage::Advance {
                ResolveStage::Finished(ResolveEnd::Invalid)
            } else {
                ResolveStage::Finished(ResolveEnd::Refused)
            },
            ResolveEvent::Installed => ResolveStage::Finished(ResolveEnd::Refused),
        },
    }
}

/// The next stage of resolving the pending position.
pub fn resolve_next(stage: ResolveStage, event: ResolveEvent) -> (r: ResolveStage)
    ensures
        r == spec_resolve_next(stage, event),
{
    match stage {
        ResolveStage::Finished(e) => ResolveStage::Finished(e),
        ResolveStage::Install => match event {
            ResolveEvent::Installed => ResolveStage::Finished(ResolveEnd::Installed),
            ResolveEvent::Refused => ResolveStage::Finished(ResolveEnd::Refused),
            _ => ResolveStage::Finished(ResolveEnd::Refused),
        },
        _ => match event {
            ResolveEvent::Proceeded => match stage {
                ResolveStage::Admitted => ResolveStage::Registration,
                ResolveStage::Registration => ResolveStage::Precommit,
                ResolveStage::Precommit => ResolveStage::Exercise,
                ResolveStage::Exercise => ResolveStage::Facts,
                ResolveStage::Facts => ResolveStage::Advance,
                ResolveStage::Advance => ResolveStage::Leaves,
                _ => ResolveStage::Install,
            },
            ResolveEvent::NotYet => match stage {
                ResolveStage::Admitted | ResolveStage::Leaves => ResolveStage::Finished(ResolveEnd::Refused),
                _ => ResolveStage::Finished(ResolveEnd::NotYet),
            },
            ResolveEvent::Refused => ResolveStage::Finished(ResolveEnd::Refused),
            ResolveEvent::LineageTerminal => match stage {
                ResolveStage::Advance => ResolveStage::Finished(ResolveEnd::Invalid),
                _ => ResolveStage::Finished(ResolveEnd::Refused),
            },
            ResolveEvent::Installed => ResolveStage::Finished(ResolveEnd::Refused),
        },
    }
}

/// The stage reached from the start on `events`, in order.
pub open spec fn resolve_after(events: Seq<ResolveEvent>) -> ResolveStage
    decreases events.len(),
{
    if events.len() == 0 {
        ResolveStage::Admitted
    } else {
        spec_resolve_next(resolve_after(events.drop_last()), events.last())
    }
}

/// Whether the run on `events` reached the stage of rank `j` at some point.
pub open spec fn passed_rank(events: Seq<ResolveEvent>, j: int) -> bool {
    exists|i: int| 0 <= i <= events.len() && resolve_rank(#[trigger] resolve_after(events.take(i))) == j
}

/// The position is installed only after every stage ran, in order: a run
/// that ends installed passed the admitted coordinate, the registration, the
/// precommit, the exercise, the facts, the advance, the leaves and the
/// install. A run that ends "not yet" or Invalid never reached the leaves,
/// so it wrote nothing.
pub proof fn lemma_install_follows_every_stage(events: Seq<ResolveEvent>)
    ensures
        resolve_after(events) == ResolveStage::Finished(ResolveEnd::Installed) ==> forall|j: int| 0 <= j <= 7
            ==> passed_rank(events, j),
        resolve_rank(resolve_after(events)) <= 7 ==> forall|j: int| 0 <= j <= resolve_rank(resolve_after(events))
            ==> passed_rank(events, j),
        (resolve_after(events) == ResolveStage::Finished(ResolveEnd::NotYet) || resolve_after(events)
            == ResolveStage::Finished(ResolveEnd::Invalid)) ==> !passed_rank(events, 6),
        resolve_rank(resolve_after(events)) <= 5 ==> !passed_rank(events, 6),
    decreases events.len(),
{
    assert(events.take(events.len() as int) =~= events);
    if events.len() > 0 {
        let pre = events.drop_last();
        lemma_install_follows_every_stage(pre);
        assert(events.take(events.len() - 1) =~= pre);
        assert forall|i: int| 0 <= i <= pre.len() implies #[trigger] events.take(i) == pre.take(i) by {
            assert(events.take(i) =~= pre.take(i));
        }
        let st = resolve_after(pre);
        let cur = resolve_after(events);
        assert forall|j: int| #![trigger passed_rank(events, j)] passed_rank(pre, j) implies passed_rank(events, j) by {
            let i = choose|i: int| 0 <= i <= pre.len() && resolve_rank(#[trigger] resolve_after(pre.take(i))) == j;
            assert(events.take(i) == pre.take(i));
        }
        if cur == ResolveStage::Finished(ResolveEnd::Installed) {
            if st == cur {
            } else {
                assert(st == ResolveStage::Install);
                assert forall|j: int| 0 <= j <= 7 implies passed_rank(events, j) by {
                    assert(passed_rank(pre, j));
                }
            }
        }
        if resolve_rank(cur) <= 7 {
            assert forall|j: int| 0 <= j <= resolve_rank(cur) implies passed_rank(events, j) by {
                if j <= resolve_rank(st) && resolve_rank(st) <= 7 {
                    assert(passed_rank(pre, j));
                } else {
                    assert(resolve_rank(resolve_after(events.take(events.len() as int))) == j);
                }
            }
        }
        if !passed_rank(pre, 6) && passed_rank(events, 6) {
            let i = choose|i: int| 0 <= i <= events.len() && resolve_rank(#[trigger] resolve_after(events.take(i))) == 6;
            if i <= pre.len() {
                assert(events.take(i) == pre.take(i));
                assert(passed_rank(pre, 6));
            }
        }
    } else {
        assert forall|j: int| 0 <= j <= 0 implies passed_rank(events, j) by {
            assert(resolve_rank(resolve_after(events.take(0))) == 0);
        }
        if passed_rank(events, 6) {
            let i = choose|i: int| 0 <= i <= events.len() && resolve_rank(#[trigger] resolve_after(events.take(i))) == 6;
            assert(events.take(i) =~= events);
        }
    }
}

/// What the host hands back for the stage it performed, with what the
/// outcome carries: why the position is not resolved yet, the refusal, or
/// the installed resolution and the root it selected.
#[derive(Debug)]
pub enum ResolveReport {
    Proceeded,
    NotYet(NotResolved),
    Refused(SdkError),
    LineageTerminal,
    Installed { resolution: Resolution, economic_root: [u8; 32] },
}

/// The event a report stands for.
pub open spec fn report_event(report: ResolveReport) -> ResolveEvent {
    match report {
        ResolveReport::Proceeded => ResolveEvent::Proceeded,
        ResolveReport::NotYet(_) => ResolveEvent::NotYet,
        ResolveReport::Refused(_) => ResolveEvent::Refused,
        ResolveReport::LineageTerminal => ResolveEvent::LineageTerminal,
        ResolveReport::Installed { .. } => ResolveEvent::Installed,
    }
}

/// The stage a report leads to.
pub open spec fn reported_next(stage: ResolveStage, report: ResolveReport) -> ResolveStage {
    spec_resolve_next(stage, report_event(report))
}

/// The refusal of a report that does not belong to its stage.
pub open spec fn out_of_order_refusal() -> Seq<char> {
    refusal("a resolution stage reported out of order"@)
}

/// One step of resolving the pending position at `q`: the next stage, or
/// the result the resolution ends in.
#[derive(Debug)]
pub enum ResolveStep {
    Next(ResolveStage),
    Finished(Result<Advanced, SdkError>),
}

/// The step after `stage` on `report`, for the pending position `position`.
/// A run that is not resolved yet answers "not yet" at `position` with the
/// reason; a route resolved Invalid answers Invalid at `position`; the
/// install answers the resolution and the root it selected at `position`; a
/// refusal is handed on; a report that does not belong to its stage is
/// refused.
pub fn resolve_step(stage: ResolveStage, position: u64, report: ResolveReport) -> (r: ResolveStep)
    requires
        !(stage is Finished),
    ensures
        !(reported_next(stage, report) is Finished) ==> r == ResolveStep::Next(reported_next(stage, report)),
        reported_next(stage, report) == ResolveStage::Finished(ResolveEnd::NotYet) ==> (report matches ResolveReport::NotYet(w)
            && r matches ResolveStep::Finished(Ok(Advanced::NotYet { position: p, why })) && p == position && why == w),
        reported_next(stage, report) == ResolveStage::Finished(ResolveEnd::Invalid) ==> r == ResolveStep::Finished(
            Ok(Advanced::Invalid { position }),
        ),
        reported_next(stage, report) == ResolveStage::Finished(ResolveEnd::Installed) ==> (report matches ResolveReport::Installed {
            resolution,
            economic_root,
        } && r == ResolveStep::Finished(Ok(Advanced::Installed { resolution, economic_position: position, economic_root }))),
        reported_next(stage, report) == ResolveStage::Finished(ResolveEnd::Refused) ==> (report matches ResolveReport::Refused(e)
            ==> r == ResolveStep::Finished(Err(e))),
        reported_next(stage, report) == ResolveStage::Finished(ResolveEnd::Refused) ==> (!(report is Refused) ==> (r matches ResolveStep::Finished(
            Err(e),
        ) && refused_with(e, out_of_order_refusal()))),
{
    match report {
        ResolveReport::Proceeded => {
            let next = resolve_next(stage, ResolveEvent::Proceeded);
            match next {
                ResolveStage::Finished(_) => ResolveStep::Finished(Err(refuse("a resolution stage reported out of order"))),
                _ => ResolveStep::Next(next),
            }
        },
        ResolveReport::NotYet(why) => match stage {
            ResolveStage::Admitted | ResolveStage::Leaves | ResolveStage::Install => ResolveStep::Finished(
                Err(refuse("a resolution stage reported out of order")),
            ),
            _ => ResolveStep::Finished(Ok(Advanced::NotYet { position, why })),
        },
        ResolveReport::Refused(e) => ResolveStep::Finished(Err(e)),
        ResolveReport::LineageTerminal => match stage {
            ResolveStage::Advance => ResolveStep::Finished(Ok(Advanced::Invalid { position })),
            _ => ResolveStep::Finished(Err(refuse("a resolution stage reported out of order"))),
        },
        ResolveReport::Installed { resolution, economic_root } => match stage {
            ResolveStage::Install => ResolveStep::Finished(
                Ok(Advanced::Installed { resolution, economic_position: position, economic_root }),
            ),
            _ => ResolveStep::Finished(Err(refuse("a resolution stage reported out of order"))),
        },
    }
}

/// Where a fulfillment stands: the device head read, the trader checked
/// (no pending admission, the precommit names this device), the validated
/// predecessor read, the precommit checked to build on it, the publication
/// addresses derived, the admitted advance written; or done, `true` exactly
/// when the advance was written.
#[derive(Debug, Clone, Copy, PartialEq, Eq, Structural)]
pub enum FulfillStage {
    Head,
    Trader,
    Validated,
    BuildsOn,
    Addresses,
    Advance,
    Done(bool),
}

/// The rank of a fulfillment stage in the order they run.
pub open spec fn fulfill_rank(s: FulfillStage) -> int {
    match s {
        FulfillStage::Head => 0,
        FulfillStage::Trader => 1,
        FulfillStage::Validated => 2,
        FulfillStage::BuildsOn => 3,
        FulfillStage::Addresses => 4,
        FulfillStage::Advance => 5,
        FulfillStage::Done(_) => 6,
    }
}

/// The stage after `stage` once it succeeded (`ok`) or was refused: every
/// refusal is before anything is written and ends the fulfillment.
pub open spec fn spec_fulfill_next(stage: FulfillStage, ok: bool) -> FulfillStage {
    match stage {
        FulfillStage::Done(b) => FulfillStage::Done(b),
        _ => if !ok {
            FulfillStage::Done(false)
        } else {
            match stage {
                FulfillStage::Head => FulfillStage::Trader,
                FulfillStage::Trader => FulfillStage::Validated,
                FulfillStage::Validated => FulfillStage::BuildsOn,
                FulfillStage::BuildsOn => FulfillStage::Addresses,
                FulfillStage::Addresses => FulfillStage::Advance,
                _ => FulfillStage::Done(true),
            }
        },
    }
}

/// The next stage of a fulfillment.
pub fn fulfill_next(stage: FulfillStage, ok: bool) -> (r: FulfillStage)
    ensures
        r == spec_fulfill_next(stage, ok),
{
    match stage {
        FulfillStage::Done(b) => FulfillStage::Done(b),
        _ => if !ok {
            FulfillStage::Done(false)
        } else {
            match stage {
                FulfillStage::Head => FulfillStage::Trader,
                FulfillStage::Trader => FulfillStage::Validated,
                FulfillStage::Validated => FulfillStage::BuildsOn,
                FulfillStage::BuildsOn => FulfillStage::Addresses,
                FulfillStage::Addresses => FulfillStage::Advance,
                _ => FulfillStage::Done(true),
            }
        },
    }
}

/// The stage a fulfillment reaches from the start on the stage outcomes `oks`.
pub open spec fn fulfill_after(oks: Seq<bool>) -> FulfillStage
    decreases oks.len(),
{
    if oks.len() == 0 {
        FulfillStage::Head
    } else {
        spec_fulfill_next(fulfill_after(oks.drop_last()), oks.last())
    }
}

/// Whether the stage of rank `j` ran and succeeded on the outcomes `oks`.
pub open spec fn checked_at(oks: Seq<bool>, j: int) -> bool {
    exists|i: int| 0 <= i < oks.len() && fulfill_rank(#[trigger] fulfill_after(oks.take(i))) == j && oks[i]
}

/// The advance is written only after every check passed, in order: a
/// fulfillment that ends done with `true` read the head, checked the trader,
/// read the validated predecessor, checked that the precommit builds on it,
/// and derived the addresses, each stage succeeding before the next ran.
pub proof fn lemma_fulfillment_writes_only_after_every_check(oks: Seq<bool>)
    ensures
        fulfill_after(oks) == FulfillStage::Done(true) ==> forall|j: int| 0 <= j <= 5 ==> #[trigger] checked_at(oks, j),
        fulfill_rank(fulfill_after(oks)) <= 5 ==> forall|j: int| 0 <= j < fulfill_rank(fulfill_after(oks)) ==> #[trigger] checked_at(oks, j),
    decreases oks.len(),
{
    if oks.len() > 0 {
        let pre = oks.drop_last();
        lemma_fulfillment_writes_only_after_every_check(pre);
        assert(oks.take(oks.len() - 1) =~= pre);
        let st = fulfill_after(pre);
        let cur = fulfill_after(oks);
        assert forall|j: int| #[trigger] checked_at(pre, j) implies checked_at(oks, j) by {
            let i = choose|i: int| 0 <= i < pre.len() && fulfill_rank(#[trigger] fulfill_after(pre.take(i))) == j && pre[i];
            assert(oks.take(i) =~= pre.take(i));
            assert(oks[i] == pre[i]);
        }
        let last = oks.len() - 1;
        if oks[last] && fulfill_rank(st) <= 5 {
            assert(fulfill_after(oks.take(last)) == st);
            assert(checked_at(oks, fulfill_rank(st)));
            assert(fulfill_rank(cur) == fulfill_rank(st) + 1);
            assert forall|j: int| 0 <= j <= fulfill_rank(st) implies #[trigger] checked_at(oks, j) by {
                if j < fulfill_rank(st) {
                    assert(checked_at(pre, j));
                }
            }
        } else if st is Done {
            assert(cur == st);
            if cur == FulfillStage::Done(true) {
                assert forall|j: int| 0 <= j <= 5 implies #[trigger] checked_at(oks, j) by {
                    assert(checked_at(pre, j));
                }
            }
        } else {
            assert(cur == FulfillStage::Done(false));
        }
    }
}

} // verus!
