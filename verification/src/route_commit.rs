//! Route commits: binding a discovered path into the commit the trader signs,
//! the storage keys of the external-commitment anchor and of its per-vault
//! pending pointers, the parent-binding gate, and the decisions of the
//! routed-unlock eligibility check.

use vstd::prelude::*;
use crate::bytes::{bytes_eq, copy_bytes, fixed32, to_vec32};
use crate::error::{text, SdkError};
use crate::text_id::{chars_of, first_difference_below, lemma_difference_in_context, lemma_padded_order, pow10, sorts_before, push_base32_crockford, push_padded_decimal, spec_base32_crockford, spec_padded_decimal};
use crate::amm::{constant_product_output, lemma_swap_never_lowers_k, spec_constant_product_output};
use crate::wire_amount::{lemma_u128_be_round_trip, spec_u128_be, spec_u128_from_be, u128_to_be_bytes, u128_from_be_bytes};

verus! {

/// The only route-commit version accepted: one path bound to one anchored
/// state producing one exact output under one signature.
pub const ROUTE_COMMIT_VERSION: u32 = 2;

/// Storage prefix of the external-commitment anchors.
pub open spec fn ext_commit_root() -> Seq<char> {
    "sofi/extcommit/"@
}

/// Storage prefix of the vault-keyed pending pointers.
pub open spec fn vault_pending_root() -> Seq<char> {
    "sofi/vault-pending/"@
}

/// Storage prefix of the signed route-commit bytes paired with an anchor.
pub open spec fn ext_commit_rc_root() -> Seq<char> {
    "sofi/extcommit-rc/"@
}

pub open spec fn spec_external_commitment_key(x: Seq<u8>) -> Seq<char> {
    ext_commit_root() + spec_base32_crockford(x)
}

pub open spec fn spec_vault_pending_prefix(vault_id: Seq<u8>) -> Seq<char> {
    vault_pending_root() + spec_base32_crockford(vault_id) + "/"@
}

pub open spec fn spec_vault_pending_pointer_key(vault_id: Seq<u8>, new_sequence: u64, x: Seq<u8>) -> Seq<char> {
    spec_vault_pending_prefix(vault_id) + spec_padded_decimal(new_sequence as nat, 16) + "/"@
        + spec_base32_crockford(x)
}

pub open spec fn spec_external_commitment_rc_key(x: Seq<u8>) -> Seq<char> {
    ext_commit_rc_root() + spec_base32_crockford(x)
}

/// The anchor key of `x`: `sofi/extcommit/{x in base32}`.
pub fn external_commitment_key(x: &[u8; 32]) -> (k: String)
    ensures
        k@ == spec_external_commitment_key(x@),
{
    let mut k = text("sofi/extcommit/");
    push_base32_crockford(&mut k, x.as_slice());
    k
}

/// The prefix that lists every pending pointer of a vault:
/// `sofi/vault-pending/{vault in base32}/`.
pub fn vault_pending_prefix(vault_id: &[u8; 32]) -> (k: String)
    ensures
        k@ == spec_vault_pending_prefix(vault_id@),
{
    let mut k = text("sofi/vault-pending/");
    push_base32_crockford(&mut k, vault_id.as_slice());
    let slash = text("/");
    k.append(slash.as_str());
    k
}

/// The key of one pending pointer:
/// `sofi/vault-pending/{vault}/{new_sequence, 16 zero-padded digits}/{x}`.
/// The padding makes the storage layer's lexical order the sequence order.
pub fn vault_pending_pointer_key(vault_id: &[u8; 32], new_sequence: u64, x: &[u8; 32]) -> (k: String)
    ensures
        k@ == spec_vault_pending_pointer_key(vault_id@, new_sequence, x@),
{
    let mut k = vault_pending_prefix(vault_id);
    push_padded_decimal(&mut k, new_sequence, 16);
    let slash = text("/");
    k.append(slash.as_str());
    push_base32_crockford(&mut k, x.as_slice());
    k
}

/// Pending-pointer keys of one vault sort as their sequences: for
/// sequences below `10^16`, the 16 zero-padded digits make the key with the
/// smaller sequence sort first, whatever commitments the keys name. (From
/// `10^16` on the text grows past 16 digits and the order no longer holds.)
pub proof fn lemma_pending_pointer_keys_sort_by_sequence(vault_id: Seq<u8>, s1: u64, x1: Seq<u8>, s2: u64, x2: Seq<u8>)
    requires
        s1 < s2,
        s2 < pow10(16),
    ensures
        sorts_before(
            spec_vault_pending_pointer_key(vault_id, s1, x1),
            spec_vault_pending_pointer_key(vault_id, s2, x2),
        ),
{
    lemma_padded_order(s1 as nat, s2 as nat, 16);
    let a = spec_padded_decimal(s1 as nat, 16);
    let b = spec_padded_decimal(s2 as nat, 16);
    let k = choose|k: int| k < 16 && first_difference_below(a, b, k);
    let p = spec_vault_pending_prefix(vault_id);
    lemma_difference_in_context(p, a, b, "/"@ + spec_base32_crockford(x1), "/"@ + spec_base32_crockford(x2), k);
    assert(spec_vault_pending_pointer_key(vault_id, s1, x1) =~= p + a + ("/"@ + spec_base32_crockford(x1)));
    assert(spec_vault_pending_pointer_key(vault_id, s2, x2) =~= p + b + ("/"@ + spec_base32_crockford(x2)));
}

/// The key of the signed route-commit bytes paired with `x`:
/// `sofi/extcommit-rc/{x in base32}`.
pub fn external_commitment_rc_key(x: &[u8; 32]) -> (k: String)
    ensures
        k@ == spec_external_commitment_rc_key(x@),
{
    let mut k = text("sofi/extcommit-rc/");
    push_base32_crockford(&mut k, x.as_slice());
    k
}

/// One hop of a discovered path.
#[derive(Debug)]
pub struct PathHop {
    pub vault_id: [u8; 32],
    pub token_in: Vec<u8>,
    pub token_out: Vec<u8>,
    pub input_amount: u64,
    pub expected_output_amount: u64,
    pub fee_bps: u32,
    pub advertisement_digest: [u8; 32],
    pub unlock_spec_digest: [u8; 32],
    pub owner_public_key: Vec<u8>,
}

/// A discovered path: the route a trader chose.
#[derive(Debug)]
pub struct Path {
    pub input_token: Vec<u8>,
    pub output_token: Vec<u8>,
    pub input_amount: u64,
    pub final_output_amount: u64,
    pub total_fee_bps: u32,
    pub hops: Vec<PathHop>,
}

/// One hop of a route commit, as it stands on the wire.
#[derive(Debug)]
pub struct RouteCommitHopV1 {
    pub vault_id: Vec<u8>,
    pub token_in: Vec<u8>,
    pub token_out: Vec<u8>,
    pub input_amount_u128: Vec<u8>,
    pub expected_output_amount_u128: Vec<u8>,
    pub fee_bps: u32,
    pub advertisement_digest: Vec<u8>,
    pub unlock_spec_digest: Vec<u8>,
    pub owner_public_key: Vec<u8>,
    pub parent_binding: Vec<u8>,
}

/// A route commit, as it stands on the wire.
#[derive(Debug)]
pub struct RouteCommitV1 {
    pub version: u32,
    pub nonce: Vec<u8>,
    pub input_token: Vec<u8>,
    pub output_token: Vec<u8>,
    pub input_amount_u128: Vec<u8>,
    pub expected_final_output_amount_u128: Vec<u8>,
    pub total_fee_bps: u32,
    pub hops: Vec<RouteCommitHopV1>,
    pub initiator_public_key: Vec<u8>,
    pub initiator_signature: Vec<u8>,
}

/// The values a route-commit hop states.
pub struct HopFields {
    pub vault_id: Seq<u8>,
    pub token_in: Seq<u8>,
    pub token_out: Seq<u8>,
    pub input_amount_u128: Seq<u8>,
    pub expected_output_amount_u128: Seq<u8>,
    pub fee_bps: u32,
    pub advertisement_digest: Seq<u8>,
    pub unlock_spec_digest: Seq<u8>,
    pub owner_public_key: Seq<u8>,
    pub parent_binding: Seq<u8>,
}

/// The values a route commit states.
pub struct RouteCommitFields {
    pub version: u32,
    pub nonce: Seq<u8>,
    pub input_token: Seq<u8>,
    pub output_token: Seq<u8>,
    pub input_amount_u128: Seq<u8>,
    pub expected_final_output_amount_u128: Seq<u8>,
    pub total_fee_bps: u32,
    pub hops: Seq<HopFields>,
    pub initiator_public_key: Seq<u8>,
    pub initiator_signature: Seq<u8>,
}

impl View for RouteCommitHopV1 {
    type V = HopFields;

    open spec fn view(&self) -> HopFields {
        HopFields {
            vault_id: self.vault_id@,
            token_in: self.token_in@,
            token_out: self.token_out@,
            input_amount_u128: self.input_amount_u128@,
            expected_output_amount_u128: self.expected_output_amount_u128@,
            fee_bps: self.fee_bps,
            advertisement_digest: self.advertisement_digest@,
            unlock_spec_digest: self.unlock_spec_digest@,
            owner_public_key: self.owner_public_key@,
            parent_binding: self.parent_binding@,
        }
    }
}

impl View for RouteCommitV1 {
    type V = RouteCommitFields;

    open spec fn view(&self) -> RouteCommitFields {
        RouteCommitFields {
            version: self.version,
            nonce: self.nonce@,
            input_token: self.input_token@,
            output_token: self.output_token@,
            input_amount_u128: self.input_amount_u128@,
            expected_final_output_amount_u128: self.expected_final_output_amount_u128@,
            total_fee_bps: self.total_fee_bps,
            hops: self.hops@.map_values(|h: RouteCommitHopV1| h@),
            initiator_public_key: self.initiator_public_key@,
            initiator_signature: self.initiator_signature@,
        }
    }
}

/// Why a path could not be bound into a route commit.
#[derive(Debug, Clone, Copy, PartialEq, Eq, Structural)]
pub enum RouteCommitError {
    EmptyPath,
    InvalidNonce,
    OutputAmountOverflow,
    InputAmountOverflow,
    HopAmountOverflow,
    HopVaultIdInvalid,
    HopAdvertisementDigestInvalid,
    HopUnlockSpecDigestInvalid,
}

/// What `bind_path_to_route_commit` binds: the path, a fresh nonce, the
/// initiator's public key, and its signature (empty before signing).
pub struct BindRouteCommitInput<'a> {
    pub path: &'a Path,
    pub nonce: [u8; 32],
    pub initiator_public_key: &'a [u8],
    pub initiator_signature: Vec<u8>,
}

/// The hop a path hop binds to: every field carried, the amounts widened to
/// 16 big-endian bytes, and no parent binding yet.
pub open spec fn spec_bound_hop(h: PathHop) -> HopFields {
    HopFields {
        vault_id: h.vault_id@,
        token_in: h.token_in@,
        token_out: h.token_out@,
        input_amount_u128: spec_u128_be(h.input_amount as u128),
        expected_output_amount_u128: spec_u128_be(h.expected_output_amount as u128),
        fee_bps: h.fee_bps,
        advertisement_digest: h.advertisement_digest@,
        unlock_spec_digest: h.unlock_spec_digest@,
        owner_public_key: h.owner_public_key@,
        parent_binding: Seq::empty(),
    }
}

pub open spec fn all_zero(s: Seq<u8>) -> bool {
    forall|i: int| 0 <= i < s.len() ==> s[i] == 0u8
}

/// What binding gives: an empty path and the all-zero nonce are refused, in
/// that order; otherwise the commit of the current version carrying every
/// field of the path and of each hop.
pub open spec fn spec_bind(path: Path, nonce: [u8; 32], public_key: Seq<u8>, signature: Seq<u8>) -> Result<
    RouteCommitFields,
    RouteCommitError,
> {
    if path.hops@.len() == 0 {
        Err(RouteCommitError::EmptyPath)
    } else if all_zero(nonce@) {
        Err(RouteCommitError::InvalidNonce)
    } else {
        Ok(
            RouteCommitFields {
                version: ROUTE_COMMIT_VERSION,
                nonce: nonce@,
                input_token: path.input_token@,
                output_token: path.output_token@,
                input_amount_u128: spec_u128_be(path.input_amount as u128),
                expected_final_output_amount_u128: spec_u128_be(path.final_output_amount as u128),
                total_fee_bps: path.total_fee_bps,
                hops: path.hops@.map_values(|h: PathHop| spec_bound_hop(h)),
                initiator_public_key: public_key,
                initiator_signature: signature,
            },
        )
    }
}

/// Binding carries the path field by field: a bound commit is of the current
/// version, states the nonce, the key and the signature it was given, the
/// path's tokens and amounts (the amounts as 16 big-endian bytes that read
/// back as the path's), and one hop per path hop, in order, each stating
/// its path hop's vault, tokens, amounts, fee, advertisement digest,
/// unlock-spec digest and owner key, with no parent binding yet.
pub proof fn lemma_bind_carries_the_path(path: Path, nonce: [u8; 32], public_key: Seq<u8>, signature: Seq<u8>)
    ensures
        spec_bind(path, nonce, public_key, signature) is Ok <==> (path.hops@.len() > 0 && !all_zero(nonce@)),
        spec_bind(path, nonce, public_key, signature) matches Ok(rc) ==> {
            &&& rc.version == ROUTE_COMMIT_VERSION
            &&& rc.nonce == nonce@
            &&& rc.initiator_public_key == public_key
            &&& rc.initiator_signature == signature
            &&& rc.input_token == path.input_token@
            &&& rc.output_token == path.output_token@
            &&& rc.input_amount_u128.len() == 16 && spec_u128_from_be(rc.input_amount_u128) == path.input_amount
            &&& rc.expected_final_output_amount_u128.len() == 16 && spec_u128_from_be(rc.expected_final_output_amount_u128)
                == path.final_output_amount
            &&& rc.total_fee_bps == path.total_fee_bps
            &&& rc.hops.len() == path.hops@.len()
            &&& forall|i: int| #![trigger rc.hops[i]] 0 <= i < rc.hops.len() ==> {
                &&& rc.hops[i].vault_id == path.hops@[i].vault_id@
                &&& rc.hops[i].token_in == path.hops@[i].token_in@
                &&& rc.hops[i].token_out == path.hops@[i].token_out@
                &&& rc.hops[i].input_amount_u128.len() == 16
                &&& spec_u128_from_be(rc.hops[i].input_amount_u128) == path.hops@[i].input_amount
                &&& rc.hops[i].expected_output_amount_u128.len() == 16
                &&& spec_u128_from_be(rc.hops[i].expected_output_amount_u128) == path.hops@[i].expected_output_amount
                &&& rc.hops[i].fee_bps == path.hops@[i].fee_bps
                &&& rc.hops[i].advertisement_digest == path.hops@[i].advertisement_digest@
                &&& rc.hops[i].unlock_spec_digest == path.hops@[i].unlock_spec_digest@
                &&& rc.hops[i].owner_public_key == path.hops@[i].owner_public_key@
                &&& rc.hops[i].parent_binding.len() == 0
            }
        },
{
    lemma_u128_be_round_trip(path.input_amount as u128);
    lemma_u128_be_round_trip(path.final_output_amount as u128);
    if spec_bind(path, nonce, public_key, signature) is Ok {
        let rc = spec_bind(path, nonce, public_key, signature)->Ok_0;
        assert forall|i: int| #![trigger rc.hops[i]] 0 <= i < rc.hops.len() implies {
            &&& spec_u128_from_be(rc.hops[i].input_amount_u128) == path.hops@[i].input_amount
            &&& rc.hops[i].input_amount_u128.len() == 16
            &&& spec_u128_from_be(rc.hops[i].expected_output_amount_u128) == path.hops@[i].expected_output_amount
            &&& rc.hops[i].expected_output_amount_u128.len() == 16
        } by {
            lemma_u128_be_round_trip(path.hops@[i].input_amount as u128);
            lemma_u128_be_round_trip(path.hops@[i].expected_output_amount as u128);
        }
    }
}

fn is_all_zero(a: &[u8; 32]) -> (r: bool)
    ensures
        r == all_zero(a@),
{
    let mut i: usize = 0;
    while i < 32
        invariant
            a@.len() == 32,
            i <= 32,
            forall|k: int| 0 <= k < i ==> a@[k] == 0u8,
        decreases 32 - i,
    {
        if a[i] != 0 {
            return false;
        }
        i = i + 1;
    }
    true
}

fn bind_hop(h: &PathHop) -> (r: RouteCommitHopV1)
    ensures
        r@ == spec_bound_hop(*h),
{
    RouteCommitHopV1 {
        vault_id: to_vec32(&h.vault_id),
        token_in: copy_bytes(h.token_in.as_slice()),
        token_out: copy_bytes(h.token_out.as_slice()),
        input_amount_u128: u128_to_be_bytes(h.input_amount as u128),
        expected_output_amount_u128: u128_to_be_bytes(h.expected_output_amount as u128),
        fee_bps: h.fee_bps,
        advertisement_digest: to_vec32(&h.advertisement_digest),
        unlock_spec_digest: to_vec32(&h.unlock_spec_digest),
        owner_public_key: copy_bytes(h.owner_public_key.as_slice()),
        parent_binding: Vec::new(),
    }
}

/// Bind a discovered path into a route commit. No signing and no hashing
/// happen here; the parent bindings are stamped later, before signing.
pub fn bind_path_to_route_commit(input: BindRouteCommitInput<'_>) -> (r: Result<RouteCommitV1, RouteCommitError>)
    ensures
        match r {
            Ok(rc) => spec_bind(*input.path, input.nonce, input.initiator_public_key@, input.initiator_signature@)
                == Ok::<RouteCommitFields, RouteCommitError>(rc@),
            Err(e) => spec_bind(*input.path, input.nonce, input.initiator_public_key@, input.initiator_signature@)
                == Err::<RouteCommitFields, RouteCommitError>(e),
        },
{
    let path = input.path;
    if path.hops.len() == 0 {
        return Err(RouteCommitError::EmptyPath);
    }
    if is_all_zero(&input.nonce) {
        return Err(RouteCommitError::InvalidNonce);
    }
    let mut hops: Vec<RouteCommitHopV1> = Vec::new();
    let mut i: usize = 0;
    while i < path.hops.len()
        invariant
            i <= path.hops@.len(),
            hops@.len() == i,
            forall|k: int| 0 <= k < i ==> (#[trigger] hops@[k])@ == spec_bound_hop(path.hops@[k]),
        decreases path.hops@.len() - i,
    {
        let h = bind_hop(&path.hops[i]);
        hops.push(h);
        i = i + 1;
    }
    let rc = RouteCommitV1 {
        version: ROUTE_COMMIT_VERSION,
        nonce: to_vec32(&input.nonce),
        input_token: copy_bytes(path.input_token.as_slice()),
        output_token: copy_bytes(path.output_token.as_slice()),
        input_amount_u128: u128_to_be_bytes(path.input_amount as u128),
        expected_final_output_amount_u128: u128_to_be_bytes(path.final_output_amount as u128),
        total_fee_bps: path.total_fee_bps,
        hops,
        initiator_public_key: copy_bytes(input.initiator_public_key),
        initiator_signature: input.initiator_signature,
    };
    assert(rc@.hops =~= path.hops@.map_values(|h: PathHop| spec_bound_hop(h)));
    Ok(rc)
}

fn copy_hop(h: &RouteCommitHopV1, parent_binding: Vec<u8>) -> (r: RouteCommitHopV1)
    ensures
        r@ == (HopFields { parent_binding: parent_binding@, ..h@ }),
{
    RouteCommitHopV1 {
        vault_id: copy_bytes(h.vault_id.as_slice()),
        token_in: copy_bytes(h.token_in.as_slice()),
        token_out: copy_bytes(h.token_out.as_slice()),
        input_amount_u128: copy_bytes(h.input_amount_u128.as_slice()),
        expected_output_amount_u128: copy_bytes(h.expected_output_amount_u128.as_slice()),
        fee_bps: h.fee_bps,
        advertisement_digest: copy_bytes(h.advertisement_digest.as_slice()),
        unlock_spec_digest: copy_bytes(h.unlock_spec_digest.as_slice()),
        owner_public_key: copy_bytes(h.owner_public_key.as_slice()),
        parent_binding,
    }
}

/// A copy of the route commit with the initiator signature cleared: the
/// bytes the initiator signs and the external commitment is derived from,
/// so that the signature is not part of its own input.
pub fn canonicalise_for_commitment(rc: &RouteCommitV1) -> (r: RouteCommitV1)
    ensures
        r@ == (RouteCommitFields { initiator_signature: Seq::empty(), ..rc@ }),
{
    let mut hops: Vec<RouteCommitHopV1> = Vec::new();
    let mut i: usize = 0;
    while i < rc.hops.len()
        invariant
            i <= rc.hops@.len(),
            hops@.len() == i,
            forall|k: int| 0 <= k < i ==> (#[trigger] hops@[k])@ == rc.hops@[k]@,
        decreases rc.hops@.len() - i,
    {
        let h = &rc.hops[i];
        let c = copy_hop(h, copy_bytes(h.parent_binding.as_slice()));
        hops.push(c);
        i = i + 1;
    }
    let out = RouteCommitV1 {
        version: rc.version,
        nonce: copy_bytes(rc.nonce.as_slice()),
        input_token: copy_bytes(rc.input_token.as_slice()),
        output_token: copy_bytes(rc.output_token.as_slice()),
        input_amount_u128: copy_bytes(rc.input_amount_u128.as_slice()),
        expected_final_output_amount_u128: copy_bytes(rc.expected_final_output_amount_u128.as_slice()),
        total_fee_bps: rc.total_fee_bps,
        hops,
        initiator_public_key: copy_bytes(rc.initiator_public_key.as_slice()),
        initiator_signature: Vec::new(),
    };
    assert(out@.hops =~= rc@.hops);
    out
}

/// One vault's parent-state binding: the identity `c_n` of the composed
/// vault state the trade consumes.
#[derive(Debug, Clone, Copy)]
pub struct HopParentBinding {
    pub parent_binding: [u8; 32],
}

/// The binding given for `vault_id` among `bindings[from..]`: the first
/// entry keyed by it (a map holds at most one).
pub open spec fn binding_from(bindings: Seq<([u8; 32], HopParentBinding)>, vault_id: Seq<u8>, from: int) -> Option<
    [u8; 32],
>
    decreases bindings.len() - from,
{
    if from < 0 || from >= bindings.len() {
        None
    } else if bindings[from].0@ == vault_id {
        Some(bindings[from].1.parent_binding)
    } else {
        binding_from(bindings, vault_id, from + 1)
    }
}

/// A hop after stamping: a hop with a 32-byte vault id that has a binding
/// carries it; any other hop is left as it was.
pub open spec fn spec_stamped_hop(h: HopFields, bindings: Seq<([u8; 32], HopParentBinding)>) -> HopFields {
    if h.vault_id.len() == 32 && binding_from(bindings, h.vault_id, 0) is Some {
        HopFields { parent_binding: binding_from(bindings, h.vault_id, 0)->0@, ..h }
    } else {
        h
    }
}

fn lookup_binding(bindings: &[([u8; 32], HopParentBinding)], vault_id: &[u8]) -> (r: Option<[u8; 32]>)
    ensures
        r == binding_from(bindings@, vault_id@, 0),
{
    let mut i: usize = 0;
    while i < bindings.len()
        invariant
            i <= bindings@.len(),
            binding_from(bindings@, vault_id@, 0) == binding_from(bindings@, vault_id@, i as int),
        decreases bindings@.len() - i,
    {
        if bytes_eq(bindings[i].0.as_slice(), vault_id) {
            return Some(bindings[i].1.parent_binding);
        }
        i = i + 1;
    }
    None
}

/// Stamp each hop's parent binding from `bindings`, keyed by the hop's
/// 32-byte vault id. Runs on the unsigned commit, so that the signature and
/// the external commitment cover the bindings. A hop without a binding is
/// left empty, and the vault-side gate then refuses it.
pub fn stamp_parent_bindings(rc: &mut RouteCommitV1, bindings: &[([u8; 32], HopParentBinding)])
    ensures
        final(rc)@ == (RouteCommitFields {
            hops: old(rc)@.hops.map_values(|h: HopFields| spec_stamped_hop(h, bindings@)),
            ..old(rc)@
        }),
{
    let ghost start = rc.hops@;
    let mut i: usize = 0;
    while i < rc.hops.len()
        invariant
            i <= rc.hops@.len(),
            rc.hops@.len() == start.len(),
            rc.version == old(rc).version,
            rc.nonce == old(rc).nonce,
            rc.input_token == old(rc).input_token,
            rc.output_token == old(rc).output_token,
            rc.input_amount_u128 == old(rc).input_amount_u128,
            rc.expected_final_output_amount_u128 == old(rc).expected_final_output_amount_u128,
            rc.total_fee_bps == old(rc).total_fee_bps,
            rc.initiator_public_key == old(rc).initiator_public_key,
            rc.initiator_signature == old(rc).initiator_signature,
            start == old(rc).hops@,
            forall|k: int| 0 <= k < i ==> (#[trigger] rc.hops@[k])@ == spec_stamped_hop(start[k]@, bindings@),
            forall|k: int| i <= k < start.len() ==> #[trigger] rc.hops@[k] == start[k],
        decreases start.len() - i,
    {
        if rc.hops[i].vault_id.len() == 32 {
            let found = lookup_binding(bindings, rc.hops[i].vault_id.as_slice());
            if let Some(b) = found {
                let stamped = copy_hop(&rc.hops[i], to_vec32(&b));
                rc.hops.set(i, stamped);
            }
        }
        i = i + 1;
    }
    assert(rc@.hops =~= old(rc)@.hops.map_values(|h: HopFields| spec_stamped_hop(h, bindings@)));
}

/// Why the parent-binding gate refused a hop. Every refusal is final: the
/// binding is mandatory for every routed hop.
#[derive(Debug, Clone, Copy, PartialEq, Eq, Structural)]
pub enum ParentBindingReject {
    /// The hop carries no 32-byte parent binding.
    MissingBinding,
    /// The hop's binding is not the `c_n` of the vault's composed current
    /// state: the vault moved since the route was bound.
    StaleParent,
}

pub open spec fn spec_enforce_parent_binding(parent_binding: Seq<u8>, composed_c_n: Seq<u8>) -> Result<(), ParentBindingReject> {
    if parent_binding.len() != 32 {
        Err(ParentBindingReject::MissingBinding)
    } else if parent_binding != composed_c_n {
        Err(ParentBindingReject::StaleParent)
    } else {
        Ok(())
    }
}

/// The parent-binding gate: the hop's binding must be exactly the `c_n` the
/// verifier composed for the vault.
pub fn enforce_parent_binding(hop: &RouteCommitHopV1, composed_c_n: &[u8; 32]) -> (r: Result<(), ParentBindingReject>)
    ensures
        r == spec_enforce_parent_binding(hop.parent_binding@, composed_c_n@),
{
    if hop.parent_binding.len() != 32 {
        return Err(ParentBindingReject::MissingBinding);
    }
    if !bytes_eq(hop.parent_binding.as_slice(), composed_c_n.as_slice()) {
        return Err(ParentBindingReject::StaleParent);
    }
    Ok(())
}

/// Whether hop `i` is the first hop of `hops` naming `vault_id`.
pub open spec fn is_first_hop_for(hops: Seq<RouteCommitHopV1>, vault_id: Seq<u8>, i: int) -> bool {
    &&& 0 <= i < hops.len()
    &&& hops[i].vault_id@ == vault_id
    &&& forall|j: int| 0 <= j < i ==> (#[trigger] hops[j]).vault_id@ != vault_id
}

/// The hop of the route commit that names `vault_id`, the first one if more
/// do; `None` when the route does not pass through that vault.
pub fn find_hop<'a>(rc: &'a RouteCommitV1, vault_id: &[u8; 32]) -> (r: Option<&'a RouteCommitHopV1>)
    ensures
        r is None <==> forall|i: int| 0 <= i < rc.hops@.len() ==> (#[trigger] rc.hops@[i]).vault_id@ != vault_id@,
        r matches Some(h) ==> exists|i: int| is_first_hop_for(rc.hops@, vault_id@, i) && rc.hops@[i] == *h,
{
    let mut i: usize = 0;
    while i < rc.hops.len()
        invariant
            i <= rc.hops@.len(),
            forall|j: int| 0 <= j < i ==> (#[trigger] rc.hops@[j]).vault_id@ != vault_id@,
        decreases rc.hops@.len() - i,
    {
        if bytes_eq(rc.hops[i].vault_id.as_slice(), vault_id.as_slice()) {
            assert(is_first_hop_for(rc.hops@, vault_id@, i as int));
            return Some(&rc.hops[i]);
        }
        i = i + 1;
    }
    None
}

/// What a vault's fulfillment condition says about a routed swap: an AMM
/// vault names its pair (lexically ordered) and its fee; any other vault is
/// gated by the signature and anchor checks alone.
#[derive(Debug)]
pub enum FulfillmentMechanism {
    AmmConstantProduct { token_a: Vec<u8>, token_b: Vec<u8>, fee_bps: u32 },
    NotAmm,
}

/// The reserves an AMM vault holds once an accepted swap settles.
#[derive(Debug, Clone, Copy, PartialEq, Eq, Structural)]
pub struct AmmVerifyOutcome {
    pub new_reserve_a: u64,
    pub new_reserve_b: u64,
}

/// Why the AMM re-simulation refused a hop.
#[derive(Debug, Clone, Copy, PartialEq, Eq, Structural)]
pub enum AmmVerifyError {
    /// The hop's tokens are not the vault's pair, in either direction.
    HopTokensDoNotMatchVaultPair,
    /// An amount field is not 16 bytes.
    AmountFieldsMustBe16BytesBigEndian,
    /// The curve gives no output (a zero amount or reserve, or overflow).
    InsufficientReservesOrOverflow,
    /// The curve at these reserves gives another output than the hop signed.
    OutputMismatch { simulated: u64, expected: u64 },
    /// An amount does not fit a `u64` base-unit balance.
    AmountExceedsU64BaseUnits,
    /// The output exceeds the output reserve.
    SimulatedExceedsReserveOut,
    /// The input reserve plus the input overflows.
    ReserveInOverflow,
}

/// The re-simulation gate, stated: the direction from the hop's tokens, the
/// amounts narrowed from 16 big-endian bytes, the curve's output at the
/// supplied reserves required to equal the signed output exactly, and the
/// full input added to the input reserve.
pub open spec fn spec_verify_amm_swap(hop: HopFields, m: FulfillmentMechanism, reserve_a: u64, reserve_b: u64) -> Result<
    Option<AmmVerifyOutcome>,
    AmmVerifyError,
> {
    match m {
        FulfillmentMechanism::NotAmm => Ok(None),
        FulfillmentMechanism::AmmConstantProduct { token_a, token_b, fee_bps } => {
            let a_to_b = hop.token_in == token_a@ && hop.token_out == token_b@;
            let b_to_a = hop.token_in == token_b@ && hop.token_out == token_a@;
            if !a_to_b && !b_to_a {
                Err(AmmVerifyError::HopTokensDoNotMatchVaultPair)
            } else {
                let reserve_in = if a_to_b { reserve_a } else { reserve_b };
                let reserve_out = if a_to_b { reserve_b } else { reserve_a };
                if hop.input_amount_u128.len() != 16 || hop.expected_output_amount_u128.len() != 16 {
                    Err(AmmVerifyError::AmountFieldsMustBe16BytesBigEndian)
                } else if spec_u128_from_be(hop.input_amount_u128) > u64::MAX
                    || spec_u128_from_be(hop.expected_output_amount_u128) > u64::MAX {
                    Err(AmmVerifyError::AmountExceedsU64BaseUnits)
                } else {
                    let input = spec_u128_from_be(hop.input_amount_u128) as u64;
                    let expected = spec_u128_from_be(hop.expected_output_amount_u128) as u64;
                    match spec_constant_product_output(input, reserve_in, reserve_out, fee_bps) {
                        None => Err(AmmVerifyError::InsufficientReservesOrOverflow),
                        Some(simulated) => {
                            if simulated != expected {
                                Err(AmmVerifyError::OutputMismatch { simulated, expected })
                            } else if reserve_in + input > u64::MAX {
                                Err(AmmVerifyError::ReserveInOverflow)
                            } else if simulated > reserve_out {
                                Err(AmmVerifyError::SimulatedExceedsReserveOut)
                            } else {
                                let new_in = (reserve_in + input) as u64;
                                let new_out = (reserve_out - simulated) as u64;
                                if a_to_b {
                                    Ok(Some(AmmVerifyOutcome { new_reserve_a: new_in, new_reserve_b: new_out }))
                                } else {
                                    Ok(Some(AmmVerifyOutcome { new_reserve_a: new_out, new_reserve_b: new_in }))
                                }
                            }
                        },
                    }
                }
            }
        },
    }
}

/// Re-simulate the swap a routed-unlock hop describes against the vault's
/// current reserves, supplied by the caller from authenticated state, and
/// refuse unless the curve reproduces the hop's signed output exactly.
/// `Ok(None)` for a vault that is not an AMM.
pub fn verify_amm_swap_against_reserves(
    hop: &RouteCommitHopV1,
    fulfillment: &FulfillmentMechanism,
    reserve_a: u64,
    reserve_b: u64,
) -> (r: Result<Option<AmmVerifyOutcome>, AmmVerifyError>)
    ensures
        r == spec_verify_amm_swap(hop@, *fulfillment, reserve_a, reserve_b),
{
    let (token_a, token_b, fee_bps) = match fulfillment {
        FulfillmentMechanism::AmmConstantProduct { token_a, token_b, fee_bps } => (token_a, token_b, *fee_bps),
        FulfillmentMechanism::NotAmm => return Ok(None),
    };
    let a_to_b = bytes_eq(hop.token_in.as_slice(), token_a.as_slice()) && bytes_eq(
        hop.token_out.as_slice(),
        token_b.as_slice(),
    );
    let b_to_a = bytes_eq(hop.token_in.as_slice(), token_b.as_slice()) && bytes_eq(
        hop.token_out.as_slice(),
        token_a.as_slice(),
    );
    if !a_to_b && !b_to_a {
        return Err(AmmVerifyError::HopTokensDoNotMatchVaultPair);
    }
    let (reserve_in, reserve_out) = if a_to_b {
        (reserve_a, reserve_b)
    } else {
        (reserve_b, reserve_a)
    };
    if hop.input_amount_u128.len() != 16 || hop.expected_output_amount_u128.len() != 16 {
        return Err(AmmVerifyError::AmountFieldsMustBe16BytesBigEndian);
    }
    let wide_in = u128_from_be_bytes(hop.input_amount_u128.as_slice());
    let wide_out = u128_from_be_bytes(hop.expected_output_amount_u128.as_slice());
    if wide_in > u64::MAX as u128 || wide_out > u64::MAX as u128 {
        return Err(AmmVerifyError::AmountExceedsU64BaseUnits);
    }
    let input_amount = wide_in as u64;
    let expected_output = wide_out as u64;
    let simulated = match constant_product_output(input_amount, reserve_in, reserve_out, fee_bps) {
        Some(v) => v,
        None => return Err(AmmVerifyError::InsufficientReservesOrOverflow),
    };
    if simulated != expected_output {
        return Err(AmmVerifyError::OutputMismatch { simulated, expected: expected_output });
    }
    let new_reserve_in = match reserve_in.checked_add(input_amount) {
        Some(v) => v,
        None => return Err(AmmVerifyError::ReserveInOverflow),
    };
    if simulated > reserve_out {
        return Err(AmmVerifyError::SimulatedExceedsReserveOut);
    }
    let new_reserve_out = reserve_out - simulated;
    if a_to_b {
        Ok(Some(AmmVerifyOutcome { new_reserve_a: new_reserve_in, new_reserve_b: new_reserve_out }))
    } else {
        Ok(Some(AmmVerifyOutcome { new_reserve_a: new_reserve_out, new_reserve_b: new_reserve_in }))
    }
}

/// An accepted swap never lowers the pool's product: the reserves the
/// re-simulation hands back multiply to at least what the supplied reserves did, the fee
/// staying in the pool.
pub proof fn lemma_accepted_swap_keeps_k(hop: HopFields, m: FulfillmentMechanism, reserve_a: u64, reserve_b: u64)
    requires
        spec_verify_amm_swap(hop, m, reserve_a, reserve_b) matches Ok(Some(_)),
    ensures
        ({
            let o = spec_verify_amm_swap(hop, m, reserve_a, reserve_b)->Ok_0->0;
            o.new_reserve_a * o.new_reserve_b >= reserve_a * reserve_b
        }),
{
    match m {
        FulfillmentMechanism::NotAmm => {},
        FulfillmentMechanism::AmmConstantProduct { token_a, token_b, fee_bps } => {
            let a_to_b = hop.token_in == token_a@ && hop.token_out == token_b@;
            let reserve_in = if a_to_b { reserve_a } else { reserve_b };
            let reserve_out = if a_to_b { reserve_b } else { reserve_a };
            let input = spec_u128_from_be(hop.input_amount_u128) as u64;
            lemma_swap_never_lowers_k(input, reserve_in, reserve_out, fee_bps);
            let o = spec_verify_amm_swap(hop, m, reserve_a, reserve_b)->Ok_0->0;
            if a_to_b {
                assert(o.new_reserve_a * o.new_reserve_b == (reserve_in + input) * (reserve_out
                    - spec_constant_product_output(input, reserve_in, reserve_out, fee_bps)->0));
            } else {
                assert(o.new_reserve_a * o.new_reserve_b == (reserve_out
                    - spec_constant_product_output(input, reserve_in, reserve_out, fee_bps)->0) * (
                reserve_in + input)) by (nonlinear_arith)
                    requires
                        o.new_reserve_a == reserve_out - spec_constant_product_output(input, reserve_in, reserve_out, fee_bps)->0,
                        o.new_reserve_b == reserve_in + input,
                ;
                assert(reserve_a * reserve_b == reserve_in * reserve_out) by (nonlinear_arith)
                    requires
                        reserve_a == reserve_out,
                        reserve_b == reserve_in,
                ;
                let q = spec_constant_product_output(input, reserve_in, reserve_out, fee_bps)->0;
                assert((reserve_out - q) * (reserve_in + input) == (reserve_in + input) * (reserve_out - q)) by (nonlinear_arith);
            }
        },
    }
}

/// The quote and the settlement agree: a hop from the vault's first token to
/// its second, whose signed output is what the curve gives for its input at
/// the reserves, is accepted with the full input added to the input reserve
/// and exactly that output taken from the output reserve; a hop claiming one
/// unit more is refused with both figures.
pub proof fn lemma_simulator_and_verifier_agree(
    hop: HopFields,
    token_a: Vec<u8>,
    token_b: Vec<u8>,
    fee_bps: u32,
    reserve_a: u64,
    reserve_b: u64,
    input: u64,
)
    requires
        hop.token_in == token_a@,
        hop.token_out == token_b@,
        hop.input_amount_u128 == spec_u128_be(input as u128),
        spec_constant_product_output(input, reserve_a, reserve_b, fee_bps) is Some,
        reserve_a + input <= u64::MAX,
    ensures
        ({
            let m = FulfillmentMechanism::AmmConstantProduct { token_a, token_b, fee_bps };
            let e = spec_constant_product_output(input, reserve_a, reserve_b, fee_bps)->0;
            &&& spec_verify_amm_swap(HopFields { expected_output_amount_u128: spec_u128_be(e as u128), ..hop }, m,
                reserve_a, reserve_b) == Ok::<Option<AmmVerifyOutcome>, AmmVerifyError>(
                Some(AmmVerifyOutcome { new_reserve_a: (reserve_a + input) as u64, new_reserve_b: (reserve_b - e) as u64 }),
            )
            &&& e < u64::MAX ==> spec_verify_amm_swap(
                HopFields { expected_output_amount_u128: spec_u128_be((e + 1) as u128), ..hop },
                m,
                reserve_a,
                reserve_b,
            ) == Err::<Option<AmmVerifyOutcome>, AmmVerifyError>(
                AmmVerifyError::OutputMismatch { simulated: e, expected: (e + 1) as u64 },
            )
        }),
{
    let e = spec_constant_product_output(input, reserve_a, reserve_b, fee_bps)->0;
    lemma_u128_be_round_trip(input as u128);
    lemma_u128_be_round_trip(e as u128);
    if e < u64::MAX {
        lemma_u128_be_round_trip((e + 1) as u128);
    }
    lemma_quotient_fits(input, reserve_a, reserve_b, fee_bps);
}

proof fn lemma_quotient_fits(input: u64, reserve_in: u64, reserve_out: u64, fee_bps: u32)
    requires
        spec_constant_product_output(input, reserve_in, reserve_out, fee_bps) is Some,
    ensures
        spec_constant_product_output(input, reserve_in, reserve_out, fee_bps)->0 <= reserve_out,
{
    let inf: int = input * (10_000 - fee_bps);
    let den: int = reserve_in * 10_000 + inf;
    assert(inf > 0) by (nonlinear_arith)
        requires
            input >= 1,
            fee_bps < 10_000,
            inf == input * (10_000 - fee_bps),
    ;
    assert((inf * reserve_out) / den <= reserve_out) by (nonlinear_arith)
        requires
            inf > 0,
            reserve_out > 0,
            den >= inf,
    {
        assert(inf * reserve_out <= den * reserve_out);
        assert(((inf * reserve_out) / den) * den <= inf * reserve_out);
    }
}

/// The kinds of pointer-publication failure.
#[derive(Debug, Clone, Copy, PartialEq, Eq, Structural)]
pub enum PublishPointerErrorKind {
    HopMissingParentLinkage,
    HopParentNotResolvable,
    HopParentNotCurrent,
    HopReSimulationFailed,
    SignFailed,
    StorageFailed,
    HopPairIsNotPolicyCommits,
}

/// Why no pending pointer was published for a hop. Per hop and never fatal:
/// the anchor itself stands.
#[derive(Debug)]
pub enum PublishPointerError {
    /// The hop's vault id is not 32 bytes, or its generation overflows.
    HopMissingParentLinkage { hop_index: usize },
    /// The hop's vault did not resolve through verified discovery, so its
    /// parent generation cannot be derived.
    HopParentNotResolvable { hop_index: usize, msg: String },
    /// The hop's parent binding is not the `c_n` of the state reached.
    HopParentNotCurrent { hop_index: usize },
    /// The hop's amounts are not 16-byte big-endian base-unit amounts.
    HopReSimulationFailed { hop_index: usize },
    /// Signing the pointer failed.
    SignFailed { hop_index: usize, msg: String },
    /// Writing the pointer failed.
    StorageFailed { hop_index: usize, msg: String },
    /// The hop names its pair by something other than 32-byte policy
    /// commits, so no settlement receipt could ever match the pointer.
    HopPairIsNotPolicyCommits { hop_index: usize },
}

impl View for PublishPointerError {
    type V = (PublishPointerErrorKind, usize, Seq<char>);

    open spec fn view(&self) -> (PublishPointerErrorKind, usize, Seq<char>) {
        match self {
            PublishPointerError::HopMissingParentLinkage { hop_index } => (
                PublishPointerErrorKind::HopMissingParentLinkage,
                *hop_index,
                Seq::empty(),
            ),
            PublishPointerError::HopParentNotResolvable { hop_index, msg } => (
                PublishPointerErrorKind::HopParentNotResolvable,
                *hop_index,
                msg@,
            ),
            PublishPointerError::HopParentNotCurrent { hop_index } => (
                PublishPointerErrorKind::HopParentNotCurrent,
                *hop_index,
                Seq::empty(),
            ),
            PublishPointerError::HopReSimulationFailed { hop_index } => (
                PublishPointerErrorKind::HopReSimulationFailed,
                *hop_index,
                Seq::empty(),
            ),
            PublishPointerError::SignFailed { hop_index, msg } => (PublishPointerErrorKind::SignFailed, *hop_index, msg@),
            PublishPointerError::StorageFailed { hop_index, msg } => (
                PublishPointerErrorKind::StorageFailed,
                *hop_index,
                msg@,
            ),
            PublishPointerError::HopPairIsNotPolicyCommits { hop_index } => (
                PublishPointerErrorKind::HopPairIsNotPolicyCommits,
                *hop_index,
                Seq::empty(),
            ),
        }
    }
}

/// The text of a pointer-publication failure.
pub open spec fn spec_describe_pointer_error(e: (PublishPointerErrorKind, usize, Seq<char>)) -> Seq<char> {
    let head = "hop "@ + spec_padded_decimal(e.1 as nat, 1);
    match e.0 {
        PublishPointerErrorKind::HopMissingParentLinkage => head + ": missing parent linkage (vault_id/generation)"@,
        PublishPointerErrorKind::HopParentNotResolvable => head
            + ": the parent generation is derived only from the authenticated state, and the vault did not resolve: "@
            + e.2,
        PublishPointerErrorKind::HopParentNotCurrent => head
            + ": parent_binding is not the c_n this composer reached \u{2014} no pointer published for an unsettleable hop"@,
        PublishPointerErrorKind::HopReSimulationFailed => head + ": AMM re-simulation failed during pointer build"@,
        PublishPointerErrorKind::SignFailed => head + ": sphincs sign failed: "@ + e.2,
        PublishPointerErrorKind::HopPairIsNotPolicyCommits => head
            + ": pair identity is not 32-byte policy commits; a settlement receipt cannot be named"@,
        PublishPointerErrorKind::StorageFailed => head + ": storage put failed: "@ + e.2,
    }
}

impl PublishPointerError {
    /// The failure as text.
    pub fn describe(&self) -> (r: String)
        ensures
            r@ == spec_describe_pointer_error(self@),
    {
        let mut out = text("hop ");
        let (idx, tail, msg): (usize, &str, Option<&String>) = match self {
            PublishPointerError::HopMissingParentLinkage { hop_index } => (
                *hop_index,
                ": missing parent linkage (vault_id/generation)",
                None,
            ),
            PublishPointerError::HopParentNotResolvable { hop_index, msg } => (
                *hop_index,
                ": the parent generation is derived only from the authenticated state, and the vault did not resolve: ",
                Some(msg),
            ),
            PublishPointerError::HopParentNotCurrent { hop_index } => (
                *hop_index,
                ": parent_binding is not the c_n this composer reached \u{2014} no pointer published for an unsettleable hop",
                None,
            ),
            PublishPointerError::HopReSimulationFailed { hop_index } => (
                *hop_index,
                ": AMM re-simulation failed during pointer build",
                None,
            ),
            PublishPointerError::SignFailed { hop_index, msg } => (*hop_index, ": sphincs sign failed: ", Some(msg)),
            PublishPointerError::StorageFailed { hop_index, msg } => (*hop_index, ": storage put failed: ", Some(msg)),
            PublishPointerError::HopPairIsNotPolicyCommits { hop_index } => (
                *hop_index,
                ": pair identity is not 32-byte policy commits; a settlement receipt cannot be named",
                None,
            ),
        };
        push_padded_decimal(&mut out, idx as u64, 1);
        out.append(tail);
        if let Some(m) = msg {
            out.append(m.as_str());
        }
        out
    }
}

/// The state a composer reached for a vault through verified discovery: its
/// identity `c_n` and its generation.
#[derive(Debug, Clone, Copy)]
pub struct ComposedVault {
    pub c_n: [u8; 32],
    pub sequence: u64,
}

/// The two 32-byte policy commits that name a trading pair.
#[derive(Debug, Clone, Copy)]
pub struct CanonicalPair {
    pub first: [u8; 32],
    pub second: [u8; 32],
}

impl CanonicalPair {
    /// The member of the pair that is not `pc`, when `pc` is a member.
    pub open spec fn spec_counterpart(self, pc: Seq<u8>) -> Option<[u8; 32]> {
        if self.first@ == pc {
            Some(self.second)
        } else if self.second@ == pc {
            Some(self.first)
        } else {
            None
        }
    }

    /// The member of the pair that is not `pc`, when `pc` is a member.
    pub fn counterpart(&self, pc: &[u8; 32]) -> (r: Option<[u8; 32]>)
        ensures
            r == self.spec_counterpart(pc@),
    {
        if bytes_eq(self.first.as_slice(), pc.as_slice()) {
            Some(self.second)
        } else if bytes_eq(self.second.as_slice(), pc.as_slice()) {
            Some(self.first)
        } else {
            None
        }
    }
}

/// Everything a hop's pending pointer states besides what is derived by
/// hashing and signing: the vault, the parent generation and its successor,
/// and the settled trade the one receipt that may activate the pointer names.
#[derive(Debug, Clone, Copy)]
pub struct PointerPlan {
    pub vault_id: [u8; 32],
    pub parent_sequence: u64,
    pub new_sequence: u64,
    pub input_policy_commit: [u8; 32],
    pub output_policy_commit: [u8; 32],
    pub input_amount: u64,
    pub output_amount: u64,
}

/// The first check of a hop's pointer: its vault id must be 32 bytes.
pub fn hop_vault_id(hop_index: usize, hop: &RouteCommitHopV1) -> (r: Result<[u8; 32], PublishPointerError>)
    ensures
        r is Ok <==> hop.vault_id@.len() == 32,
        r matches Ok(v) ==> v@ == hop.vault_id@,
        r matches Err(e) ==> e@ == (PublishPointerErrorKind::HopMissingParentLinkage, hop_index, Seq::<char>::empty()),
{
    match fixed32(hop.vault_id.as_slice()) {
        Some(v) => Ok(v),
        None => Err(PublishPointerError::HopMissingParentLinkage { hop_index }),
    }
}

/// What a hop's pointer is, from the hop, the state its vault composed to,
/// and its pair: the refusals in the order they are checked, or the plan.
pub open spec fn spec_plan_hop_pointer(
    hop_index: usize,
    hop: HopFields,
    vault_id: [u8; 32],
    composed: Result<ComposedVault, Seq<char>>,
    pair: Option<CanonicalPair>,
) -> Result<PointerPlan, (PublishPointerErrorKind, usize, Seq<char>)> {
    match composed {
        Err(msg) => Err((PublishPointerErrorKind::HopParentNotResolvable, hop_index, msg)),
        Ok(c) => {
            if hop.parent_binding.len() != 32 || hop.parent_binding != c.c_n@ {
                Err((PublishPointerErrorKind::HopParentNotCurrent, hop_index, Seq::empty()))
            } else if c.sequence == u64::MAX {
                Err((PublishPointerErrorKind::HopMissingParentLinkage, hop_index, Seq::empty()))
            } else {
                match pair {
                    None => Err((PublishPointerErrorKind::HopPairIsNotPolicyCommits, hop_index, Seq::empty())),
                    Some(p) => {
                        if hop.token_in.len() != 32 || p.spec_counterpart(hop.token_in) is None {
                            Err((PublishPointerErrorKind::HopPairIsNotPolicyCommits, hop_index, Seq::empty()))
                        } else if hop.input_amount_u128.len() != 16 || hop.expected_output_amount_u128.len() != 16
                            || spec_u128_from_be(hop.input_amount_u128) > u64::MAX
                            || spec_u128_from_be(hop.expected_output_amount_u128) > u64::MAX {
                            Err((PublishPointerErrorKind::HopReSimulationFailed, hop_index, Seq::empty()))
                        } else {
                            Ok(
                                PointerPlan {
                                    vault_id,
                                    parent_sequence: c.sequence,
                                    new_sequence: (c.sequence + 1) as u64,
                                    input_policy_commit: if p.first@ == hop.token_in { p.first } else { p.second },
                                    output_policy_commit: p.spec_counterpart(hop.token_in)->0,
                                    input_amount: spec_u128_from_be(hop.input_amount_u128) as u64,
                                    output_amount: spec_u128_from_be(hop.expected_output_amount_u128) as u64,
                                },
                            )
                        }
                    },
                }
            }
        },
    }
}

pub open spec fn composed_view(composed: Result<ComposedVault, String>) -> Result<ComposedVault, Seq<char>> {
    match composed {
        Ok(c) => Ok(c),
        Err(m) => Err(m@),
    }
}

/// Plan the pending pointer of one hop of a published route. The parent
/// generation comes from the state the composer reached and from nowhere
/// else; a hop whose binding is not that state's `c_n` gets no pointer.
pub fn plan_hop_pointer(
    hop_index: usize,
    hop: &RouteCommitHopV1,
    vault_id: [u8; 32],
    composed: Result<ComposedVault, String>,
    pair: Option<CanonicalPair>,
) -> (r: Result<PointerPlan, PublishPointerError>)
    ensures
        match r {
            Ok(p) => spec_plan_hop_pointer(hop_index, hop@, vault_id, composed_view(composed), pair) == Ok::<
                PointerPlan,
                (PublishPointerErrorKind, usize, Seq<char>),
            >(p),
            Err(e) => spec_plan_hop_pointer(hop_index, hop@, vault_id, composed_view(composed), pair) == Err::<
                PointerPlan,
                (PublishPointerErrorKind, usize, Seq<char>),
            >(e@),
        },
{
    let c = match composed {
        Ok(c) => c,
        Err(msg) => return Err(PublishPointerError::HopParentNotResolvable { hop_index, msg }),
    };
    if hop.parent_binding.len() != 32 || !bytes_eq(hop.parent_binding.as_slice(), c.c_n.as_slice()) {
        return Err(PublishPointerError::HopParentNotCurrent { hop_index });
    }
    let new_sequence = match c.sequence.checked_add(1) {
        Some(v) => v,
        None => return Err(PublishPointerError::HopMissingParentLinkage { hop_index }),
    };
    let p = match pair {
        Some(p) => p,
        None => return Err(PublishPointerError::HopPairIsNotPolicyCommits { hop_index }),
    };
    let input_pc = match fixed32(hop.token_in.as_slice()) {
        Some(pc) => pc,
        None => return Err(PublishPointerError::HopPairIsNotPolicyCommits { hop_index }),
    };
    let output_pc = match p.counterpart(&input_pc) {
        Some(o) => o,
        None => return Err(PublishPointerError::HopPairIsNotPolicyCommits { hop_index }),
    };
    if hop.input_amount_u128.len() != 16 || hop.expected_output_amount_u128.len() != 16 {
        return Err(PublishPointerError::HopReSimulationFailed { hop_index });
    }
    let wide_in = u128_from_be_bytes(hop.input_amount_u128.as_slice());
    let wide_out = u128_from_be_bytes(hop.expected_output_amount_u128.as_slice());
    if wide_in > u64::MAX as u128 || wide_out > u64::MAX as u128 {
        return Err(PublishPointerError::HopReSimulationFailed { hop_index });
    }
    proof {
        if p.first@ == hop.token_in@ {
            assert(p.first == input_pc) by {
                assert(p.first@ =~= input_pc@);
                assert(p.first =~= input_pc);
            }
        } else {
            assert(p.second == input_pc) by {
                assert(p.second@ =~= input_pc@);
                assert(p.second =~= input_pc);
            }
        }
    }
    Ok(
        PointerPlan {
            vault_id,
            parent_sequence: c.sequence,
            new_sequence,
            input_policy_commit: input_pc,
            output_policy_commit: output_pc,
            input_amount: wide_in as u64,
            output_amount: wide_out as u64,
        },
    )
}

/// Where publishing a route's anchor and its pending pointers stands: the
/// external-commitment anchor, then the signed route commit, then each hop's
/// pointer in hop order; or finished.
#[derive(Debug, Clone, Copy, PartialEq, Eq, Structural)]
pub enum PublishStage {
    Anchor,
    RouteCommit,
    Hop(usize),
}

/// What the host reports of the stage it performed.
#[derive(Debug)]
pub enum PublishReport {
    /// The anchor or the route commit was stored.
    Stored,
    /// Storing the anchor or the route commit failed.
    StoreFailed(SdkError),
    /// The hop's pointer was written.
    PointerWritten,
    /// The hop got no pointer, for this reason.
    PointerRefused(PublishPointerError),
}

/// A publication in progress over a route of `hop_count` hops, with the
/// hops that got no pointer so far.
#[derive(Debug)]
pub struct PointerPublication {
    pub hop_count: usize,
    pub stage: PublishStage,
    pub errors: Vec<PublishPointerError>,
}

/// One step of a publication: the publication at its next stage, or its
/// result: the hops that got no pointer, or the failure that ended it.
#[derive(Debug)]
pub enum PublishStep {
    Next(PointerPublication),
    Finished(Result<Vec<PublishPointerError>, SdkError>),
}

/// Whether the refusals name hops in strictly ascending order, each below
/// `bound`.
pub open spec fn ascending_below(errors: Seq<PublishPointerError>, bound: int) -> bool {
    &&& forall|k: int| 0 <= k < errors.len() ==> (#[trigger] errors[k])@.1 < bound
    &&& forall|a: int, b: int| 0 <= a < b < errors.len() ==> (#[trigger] errors[a])@.1 < (#[trigger] errors[b])@.1
}

impl PointerPublication {
    /// A publication is well formed: a hop stage names a hop of the route,
    /// nothing is refused before the hops, and the refusals so far name
    /// earlier hops in ascending order.
    pub open spec fn wf(&self) -> bool {
        match self.stage {
            PublishStage::Hop(i) => i < self.hop_count && ascending_below(self.errors@, i as int),
            _ => self.errors@.len() == 0,
        }
    }

    /// Whether `report` is a report of the stage the publication stands at:
    /// a store for the anchor and the route commit, a pointer (or the
    /// refusal of this very hop) for a hop.
    pub open spec fn fits(&self, report: PublishReport) -> bool {
        match self.stage {
            PublishStage::Hop(i) => match report {
                PublishReport::PointerWritten => true,
                PublishReport::PointerRefused(e) => e@.1 == i,
                _ => false,
            },
            _ => report is Stored || report is StoreFailed,
        }
    }

    /// A publication over `hop_count` hops starts at the anchor.
    pub fn start(hop_count: usize) -> (p: PointerPublication)
        ensures
            p.wf(),
            p.hop_count == hop_count,
            p.stage == PublishStage::Anchor,
            p.errors@.len() == 0,
    {
        PointerPublication { hop_count, stage: PublishStage::Anchor, errors: Vec::new() }
    }

    /// Whether `report` is a report of the stage the publication stands at.
    pub fn report_fits(&self, report: &PublishReport) -> (r: bool)
        ensures
            r == self.fits(*report),
    {
        match self.stage {
            PublishStage::Hop(i) => match report {
                PublishReport::PointerWritten => true,
                PublishReport::PointerRefused(e) => e.hop_index() == i,
                _ => false,
            },
            _ => matches!(report, PublishReport::Stored | PublishReport::StoreFailed(_)),
        }
    }

    /// The step after a report. The anchor is stored first and the route
    /// commit second; a failure of either ends the publication with it.
    /// Then each hop in order: a hop that gets no pointer is recorded and
    /// never ends the publication. After the last hop the result is the
    /// refusals, in ascending hop order.
    pub fn step(self, report: PublishReport) -> (r: PublishStep)
        requires
            self.wf(),
            self.fits(report),
        ensures
            r matches PublishStep::Next(p) ==> p.wf() && p.hop_count == self.hop_count,
            r matches PublishStep::Finished(Ok(v)) ==> ascending_below(v@, self.hop_count as int),
            report matches PublishReport::StoreFailed(e) ==> r == PublishStep::Finished(Err(e)),
            self.stage == PublishStage::Anchor && report is Stored ==> (r matches PublishStep::Next(p)
                && p.stage == PublishStage::RouteCommit && p.errors@.len() == 0),
            self.stage == PublishStage::RouteCommit && report is Stored ==> (if self.hop_count == 0 {
                r matches PublishStep::Finished(Ok(v)) && v@.len() == 0
            } else {
                r matches PublishStep::Next(p) && p.stage == PublishStage::Hop(0) && p.errors@.len() == 0
            }),
            self.stage matches PublishStage::Hop(i) ==> ({
                let errors = match report {
                    PublishReport::PointerRefused(e) => self.errors@.push(e),
                    _ => self.errors@,
                };
                if i + 1 < self.hop_count {
                    r matches PublishStep::Next(p) && p.stage == PublishStage::Hop((i + 1) as usize) && p.errors@
                        == errors
                } else {
                    r matches PublishStep::Finished(Ok(v)) && v@ == errors
                }
            }),
    {
        let PointerPublication { hop_count, stage, mut errors } = self;
        match report {
            PublishReport::StoreFailed(e) => PublishStep::Finished(Err(e)),
            PublishReport::Stored => match stage {
                PublishStage::Anchor => PublishStep::Next(
                    PointerPublication { hop_count, stage: PublishStage::RouteCommit, errors },
                ),
                _ => {
                    if hop_count == 0 {
                        PublishStep::Finished(Ok(errors))
                    } else {
                        PublishStep::Next(PointerPublication { hop_count, stage: PublishStage::Hop(0), errors })
                    }
                },
            },
            PublishReport::PointerWritten => {
                let i = match stage {
                    PublishStage::Hop(i) => i,
                    _ => 0,
                };
                if i + 1 < hop_count {
                    PublishStep::Next(PointerPublication { hop_count, stage: PublishStage::Hop(i + 1), errors })
                } else {
                    PublishStep::Finished(Ok(errors))
                }
            },
            PublishReport::PointerRefused(e) => {
                let i = match stage {
                    PublishStage::Hop(i) => i,
                    _ => 0,
                };
                errors.push(e);
                if i + 1 < hop_count {
                    PublishStep::Next(PointerPublication { hop_count, stage: PublishStage::Hop(i + 1), errors })
                } else {
                    PublishStep::Finished(Ok(errors))
                }
            },
        }
    }
}

impl PublishPointerError {
    /// The index of the hop that got no pointer.
    pub fn hop_index(&self) -> (r: usize)
        ensures
            r == self@.1,
    {
        match self {
            PublishPointerError::HopMissingParentLinkage { hop_index } => *hop_index,
            PublishPointerError::HopParentNotResolvable { hop_index, .. } => *hop_index,
            PublishPointerError::HopParentNotCurrent { hop_index } => *hop_index,
            PublishPointerError::HopReSimulationFailed { hop_index } => *hop_index,
            PublishPointerError::SignFailed { hop_index, .. } => *hop_index,
            PublishPointerError::StorageFailed { hop_index, .. } => *hop_index,
            PublishPointerError::HopPairIsNotPolicyCommits { hop_index } => *hop_index,
        }
    }
}

/// Why a routed unlock is not eligible.
#[derive(Debug)]
pub enum RouteCommitVerifyError {
    /// The route-commit bytes do not decode.
    InvalidRouteCommitEncoding,
    /// The commit is not of the one accepted version.
    UnsupportedVersion { got: u32 },
    /// The commit names no initiator public key.
    MissingInitiatorPublicKey,
    /// The initiator signature is empty or does not verify.
    InvalidInitiatorSignature,
    /// No hop of the route names this vault.
    VaultNotInRoute,
    /// The anchor of the route's external commitment is not visible.
    ExternalCommitmentNotVisible,
    /// Reading the anchor failed; the unlock is refused rather than guessed.
    AnchorFetchFailed(String),
    /// The signature verifier itself failed.
    SignatureVerifierError(String),
}

/// The kinds of eligibility refusal.
#[derive(Debug, Clone, Copy, PartialEq, Eq, Structural)]
pub enum RouteCommitVerifyErrorKind {
    InvalidRouteCommitEncoding,
    UnsupportedVersion,
    MissingInitiatorPublicKey,
    InvalidInitiatorSignature,
    VaultNotInRoute,
    ExternalCommitmentNotVisible,
    AnchorFetchFailed,
    SignatureVerifierError,
}

impl RouteCommitVerifyError {
    pub open spec fn spec_kind(&self) -> RouteCommitVerifyErrorKind {
        match self {
            RouteCommitVerifyError::InvalidRouteCommitEncoding => RouteCommitVerifyErrorKind::InvalidRouteCommitEncoding,
            RouteCommitVerifyError::UnsupportedVersion { .. } => RouteCommitVerifyErrorKind::UnsupportedVersion,
            RouteCommitVerifyError::MissingInitiatorPublicKey => RouteCommitVerifyErrorKind::MissingInitiatorPublicKey,
            RouteCommitVerifyError::InvalidInitiatorSignature => RouteCommitVerifyErrorKind::InvalidInitiatorSignature,
            RouteCommitVerifyError::VaultNotInRoute => RouteCommitVerifyErrorKind::VaultNotInRoute,
            RouteCommitVerifyError::ExternalCommitmentNotVisible => RouteCommitVerifyErrorKind::ExternalCommitmentNotVisible,
            RouteCommitVerifyError::AnchorFetchFailed(_) => RouteCommitVerifyErrorKind::AnchorFetchFailed,
            RouteCommitVerifyError::SignatureVerifierError(_) => RouteCommitVerifyErrorKind::SignatureVerifierError,
        }
    }

    /// The refusal's kind.
    pub fn kind(&self) -> (k: RouteCommitVerifyErrorKind)
        ensures
            k == self.spec_kind(),
    {
        match self {
            RouteCommitVerifyError::InvalidRouteCommitEncoding => RouteCommitVerifyErrorKind::InvalidRouteCommitEncoding,
            RouteCommitVerifyError::UnsupportedVersion { .. } => RouteCommitVerifyErrorKind::UnsupportedVersion,
            RouteCommitVerifyError::MissingInitiatorPublicKey => RouteCommitVerifyErrorKind::MissingInitiatorPublicKey,
            RouteCommitVerifyError::InvalidInitiatorSignature => RouteCommitVerifyErrorKind::InvalidInitiatorSignature,
            RouteCommitVerifyError::VaultNotInRoute => RouteCommitVerifyErrorKind::VaultNotInRoute,
            RouteCommitVerifyError::ExternalCommitmentNotVisible => RouteCommitVerifyErrorKind::ExternalCommitmentNotVisible,
            RouteCommitVerifyError::AnchorFetchFailed(_) => RouteCommitVerifyErrorKind::AnchorFetchFailed,
            RouteCommitVerifyError::SignatureVerifierError(_) => RouteCommitVerifyErrorKind::SignatureVerifierError,
        }
    }
}

/// The schema and presence checks that run before any signature is
/// verified: the version, then a public key, then a signature.
pub fn check_route_commit_envelope(rc: &RouteCommitV1) -> (r: Result<(), RouteCommitVerifyError>)
    ensures
        rc.version != ROUTE_COMMIT_VERSION ==> (r matches Err(RouteCommitVerifyError::UnsupportedVersion { got })
            && got == rc.version),
        rc.version == ROUTE_COMMIT_VERSION && rc.initiator_public_key@.len() == 0 ==> r matches Err(
            RouteCommitVerifyError::MissingInitiatorPublicKey,
        ),
        rc.version == ROUTE_COMMIT_VERSION && rc.initiator_public_key@.len() != 0 && rc.initiator_signature@.len()
            == 0 ==> r matches Err(RouteCommitVerifyError::InvalidInitiatorSignature),
        r is Ok <==> (rc.version == ROUTE_COMMIT_VERSION && rc.initiator_public_key@.len() != 0
            && rc.initiator_signature@.len() != 0),
{
    if rc.version != ROUTE_COMMIT_VERSION {
        return Err(RouteCommitVerifyError::UnsupportedVersion { got: rc.version });
    }
    if rc.initiator_public_key.len() == 0 {
        return Err(RouteCommitVerifyError::MissingInitiatorPublicKey);
    }
    if rc.initiator_signature.len() == 0 {
        return Err(RouteCommitVerifyError::InvalidInitiatorSignature);
    }
    Ok(())
}

/// What the signature verifier's answer means: a verified signature passes,
/// a refused one is a forged route, and a verifier error is surfaced as such.
pub fn classify_signature_verdict(verdict: Result<bool, String>) -> (r: Result<(), RouteCommitVerifyError>)
    ensures
        verdict == Ok::<bool, String>(true) <==> r is Ok,
        verdict == Ok::<bool, String>(false) ==> r matches Err(RouteCommitVerifyError::InvalidInitiatorSignature),
        verdict matches Err(m) ==> (r matches Err(RouteCommitVerifyError::SignatureVerifierError(m2)) && m2@ == m@),
{
    match verdict {
        Ok(true) => Ok(()),
        Ok(false) => Err(RouteCommitVerifyError::InvalidInitiatorSignature),
        Err(m) => Err(RouteCommitVerifyError::SignatureVerifierError(m)),
    }
}

/// What the anchor's visibility means for the unlock: visible is eligible,
/// absent waits, and a failed read refuses.
pub fn classify_anchor_visibility(visible: Result<bool, String>) -> (r: Result<(), RouteCommitVerifyError>)
    ensures
        visible == Ok::<bool, String>(true) <==> r is Ok,
        visible == Ok::<bool, String>(false) ==> r matches Err(RouteCommitVerifyError::ExternalCommitmentNotVisible),
        visible matches Err(m) ==> (r matches Err(RouteCommitVerifyError::AnchorFetchFailed(m2)) && m2@ == m@),
{
    match visible {
        Ok(true) => Ok(()),
        Ok(false) => Err(RouteCommitVerifyError::ExternalCommitmentNotVisible),
        Err(m) => Err(RouteCommitVerifyError::AnchorFetchFailed(m)),
    }
}

/// The hop of the route that names this vault, or the refusal when none does.
pub fn eligible_hop<'a>(rc: &'a RouteCommitV1, vault_id: &[u8; 32]) -> (r: Result<&'a RouteCommitHopV1, RouteCommitVerifyError>)
    ensures
        r is Err <==> forall|i: int| 0 <= i < rc.hops@.len() ==> (#[trigger] rc.hops@[i]).vault_id@ != vault_id@,
        r matches Err(e) ==> e is VaultNotInRoute,
        r matches Ok(h) ==> exists|i: int| is_first_hop_for(rc.hops@, vault_id@, i) && rc.hops@[i] == *h,
{
    match find_hop(rc, vault_id) {
        Some(h) => Ok(h),
        None => Err(RouteCommitVerifyError::VaultNotInRoute),
    }
}

/// Whether `needle` occurs in `hay` at `at`.
pub open spec fn occurs_at(hay: Seq<char>, needle: Seq<char>, at: int) -> bool {
    0 <= at && at + needle.len() <= hay.len() && hay.subrange(at, at + needle.len()) == needle
}

/// Whether `needle` occurs anywhere in `hay`.
pub open spec fn contains_text(hay: Seq<char>, needle: Seq<char>) -> bool {
    exists|at: int| occurs_at(hay, needle, at)
}

fn occurs_at_exec(hay: &Vec<char>, needle: &Vec<char>, at: usize) -> (r: bool)
    requires
        at + needle@.len() <= hay@.len(),
    ensures
        r == occurs_at(hay@, needle@, at as int),
{
    let n = hay.len();
    let mut k: usize = 0;
    while k < needle.len()
        invariant
            n == hay@.len(),
            at + needle@.len() <= hay@.len(),
            k <= needle@.len(),
            forall|j: int| 0 <= j < k ==> hay@[at + j] == needle@[j],
        decreases needle@.len() - k,
    {
        if hay[at + k] != needle[k] {
            assert(hay@.subrange(at as int, at + needle@.len())[k as int] != needle@[k as int]);
            return false;
        }
        k = k + 1;
    }
    assert(hay@.subrange(at as int, at + needle@.len()) =~= needle@);
    true
}

/// Whether the text of `hay` contains that of `needle`.
pub fn text_contains(hay: &Vec<char>, needle: &Vec<char>) -> (r: bool)
    ensures
        r == contains_text(hay@, needle@),
{
    if needle.len() > hay.len() {
        assert forall|at: int| !occurs_at(hay@, needle@, at) by {}
        return false;
    }
    let last = hay.len() - needle.len();
    let mut at: usize = 0;
    loop
        invariant
            last + needle@.len() == hay@.len(),
            at <= last,
            forall|a: int| 0 <= a < at ==> !occurs_at(hay@, needle@, a),
        decreases last - at,
    {
        if occurs_at_exec(hay, needle, at) {
            return true;
        }
        if at == last {
            assert forall|a: int| !occurs_at(hay@, needle@, a) by {
                if 0 <= a < at {
                } else {
                }
            }
            return false;
        }
        at = at + 1;
    }
}


pub open spec fn not_found_text() -> Seq<char> {
    "not found"@
}

/// Whether the anchor is visible, from the outcome of reading it: read means
/// visible; a read that failed because the object is not found means not
/// visible; any other failure is surfaced, so that a transient storage error
/// is never taken for absence.
pub fn anchor_visibility(fetched: Result<(), String>) -> (r: Result<bool, String>)
    ensures
        fetched is Ok ==> r == Ok::<bool, String>(true),
        fetched matches Err(m) ==> (contains_text(m@, not_found_text()) ==> r == Ok::<bool, String>(false)),
        fetched matches Err(m) ==> (!contains_text(m@, not_found_text()) ==> (r matches Err(m2) && m2@ == m@)),
{
    match fetched {
        Ok(()) => Ok(true),
        Err(m) => {
            let hay = chars_of(m.as_str());
            let needle = chars_of("not found");
            if text_contains(&hay, &needle) {
                Ok(false)
            } else {
                Err(m)
            }
        },
    }
}

/// The anchor read back must name the commitment its key was derived from.
pub fn check_anchor_names_key(anchor_x: &[u8], x: &[u8; 32]) -> (r: bool)
    ensures
        r == (anchor_x@ == x@),
{
    bytes_eq(anchor_x, x.as_slice())
}

/// The canonical form of a commit: the commit with its signature cleared.
pub open spec fn spec_canonical(rc: RouteCommitFields) -> RouteCommitFields {
    RouteCommitFields { initiator_signature: Seq::empty(), ..rc }
}

/// Signing does not move the canonical form: two commits that differ only in
/// their initiator signature have one canonical form, so the external
/// commitment derived from it is the same before and after signing.
pub proof fn lemma_canonical_form_ignores_signature(a: RouteCommitFields, b: RouteCommitFields)
    requires
        (RouteCommitFields { initiator_signature: b.initiator_signature, ..a }) == b,
    ensures
        spec_canonical(a) == spec_canonical(b),
{
}

/// The stamp and the parent-binding check agree: a hop stamped from the
/// binding of its vault passes that check run with the same `c_n`.
pub proof fn lemma_stamped_hop_passes_gate(h: HopFields, bindings: Seq<([u8; 32], HopParentBinding)>, c_n: [u8; 32])
    requires
        h.vault_id.len() == 32,
        binding_from(bindings, h.vault_id, 0) == Some(c_n),
    ensures
        spec_enforce_parent_binding(spec_stamped_hop(h, bindings).parent_binding, c_n@) == Ok::<(), ParentBindingReject>(()),
{
}

/// A hop the stamp found no binding for is refused by the parent-binding check whatever
/// state is composed: binding leaves the parent binding empty, and an unbound
/// hop has no bypass.
pub proof fn lemma_unbound_hop_is_refused(h: PathHop, bindings: Seq<([u8; 32], HopParentBinding)>, c_n: Seq<u8>)
    requires
        binding_from(bindings, h.vault_id@, 0) is None,
    ensures
        spec_enforce_parent_binding(spec_stamped_hop(spec_bound_hop(h), bindings).parent_binding, c_n)
            == Err::<(), ParentBindingReject>(ParentBindingReject::MissingBinding),
{
}

} // verus!
