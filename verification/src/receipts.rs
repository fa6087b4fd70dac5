//! Receipt-side helpers: the deterministic protocol-transition payload
//! encoding, the per-step signing inputs and outputs, and the choice of the
//! key that certifies a per-step ephemeral key.

use vstd::prelude::*;
use vstd::bytes::{spec_u32_to_le_bytes, spec_u32_from_le_bytes, u32_to_le_bytes, lemma_auto_spec_u32_to_from_le_bytes};
use crate::bytes::{copy_bytes, extend_bytes};
use crate::error::{SdkError, text};

verus! {

/// `b` preceded by its length as four little-endian bytes (the length is
/// taken modulo 2^32, as a `u32` cast does).
pub open spec fn frame(b: Seq<u8>) -> Seq<u8> {
    spec_u32_to_le_bytes(b.len() as u32) + b
}

/// The frames of `parts`, in order.
pub open spec fn frame_all(parts: Seq<Seq<u8>>) -> Seq<u8>
    decreases parts.len(),
{
    if parts.len() == 0 {
        Seq::empty()
    } else {
        frame(parts[0]) + frame_all(parts.drop_first())
    }
}

/// The protocol-transition payload: the framed label, then every framed part.
pub open spec fn spec_protocol_transition_payload(label: Seq<u8>, parts: Seq<Seq<u8>>) -> Seq<u8> {
    frame(label) + frame_all(parts)
}

pub open spec fn views_of(parts: Seq<&[u8]>) -> Seq<Seq<u8>> {
    parts.map_values(|p: &[u8]| p@)
}

proof fn lemma_frame_all_push(parts: Seq<Seq<u8>>, p: Seq<u8>)
    ensures
        frame_all(parts.push(p)) == frame_all(parts) + frame(p),
    decreases parts.len(),
{
    if parts.len() == 0 {
        assert(parts.push(p).drop_first() =~= Seq::<Seq<u8>>::empty());
        assert(parts.push(p)[0] == p);
        assert(frame_all(Seq::<Seq<u8>>::empty()) == Seq::<u8>::empty());
        assert(frame_all(parts) == Seq::<u8>::empty());
        assert(frame_all(parts.push(p)) =~= frame(p) + Seq::<u8>::empty());
        assert(frame_all(parts.push(p)) =~= frame_all(parts) + frame(p));
    } else {
        lemma_frame_all_push(parts.drop_first(), p);
        assert(parts.push(p).drop_first() =~= parts.drop_first().push(p));
        assert(frame_all(parts.push(p)) =~= frame(parts[0]) + frame_all(parts.drop_first().push(p)));
    }
}

/// Deterministically encode a protocol-only transition payload: the label and
/// each part, in order, each preceded by its length as four little-endian bytes.
pub fn encode_protocol_transition_payload(label: &[u8], parts: &[&[u8]]) -> (out: Vec<u8>)
    ensures
        out@ == spec_protocol_transition_payload(label@, views_of(parts@)),
{
    let mut out: Vec<u8> = Vec::new();
    let len_bytes = u32_to_le_bytes(label.len() as u32);
    extend_bytes(&mut out, len_bytes.as_slice());
    extend_bytes(&mut out, label);
    let ghost head = out@;
    assert(head =~= frame(label@));
    let mut i: usize = 0;
    while i < parts.len()
        invariant
            i <= parts@.len(),
            head == frame(label@),
            out@ == head + frame_all(views_of(parts@).subrange(0, i as int)),
        decreases parts@.len() - i,
    {
        let part: &[u8] = parts[i];
        let lb = u32_to_le_bytes(part.len() as u32);
        extend_bytes(&mut out, lb.as_slice());
        extend_bytes(&mut out, part);
        proof {
            let vs = views_of(parts@);
            lemma_frame_all_push(vs.subrange(0, i as int), part@);
            assert(vs.subrange(0, i + 1) =~= vs.subrange(0, i as int).push(part@));
        }
        i = i + 1;
    }
    assert(views_of(parts@).subrange(0, parts@.len() as int) =~= views_of(parts@));
    out
}

proof fn lemma_frame_len(b: Seq<u8>)
    ensures
        frame(b).len() == 4 + b.len(),
{
    lemma_auto_spec_u32_to_from_le_bytes();
}

/// Two framed strings followed by anything are equal only when the strings
/// (shorter than 2^32 bytes) and what follows are equal.
proof fn lemma_frame_prefix_unique(a: Seq<u8>, ra: Seq<u8>, b: Seq<u8>, rb: Seq<u8>)
    requires
        a.len() < 0x1_0000_0000,
        b.len() < 0x1_0000_0000,
        frame(a) + ra == frame(b) + rb,
    ensures
        a == b,
        ra == rb,
{
    lemma_auto_spec_u32_to_from_le_bytes();
    let s = frame(a) + ra;
    assert(s.subrange(0, 4) =~= spec_u32_to_le_bytes(a.len() as u32));
    assert((frame(b) + rb).subrange(0, 4) =~= spec_u32_to_le_bytes(b.len() as u32));
    assert(spec_u32_from_le_bytes(spec_u32_to_le_bytes(a.len() as u32)) == a.len() as u32);
    assert(spec_u32_from_le_bytes(spec_u32_to_le_bytes(b.len() as u32)) == b.len() as u32);
    assert(a.len() == b.len());
    assert(s.subrange(4, 4 + a.len() as int) =~= a);
    assert((frame(b) + rb).subrange(4, 4 + b.len() as int) =~= b);
    assert(s.subrange(4 + a.len() as int, s.len() as int) =~= ra);
    assert((frame(b) + rb).subrange(4 + b.len() as int, s.len() as int) =~= rb);
}

pub open spec fn all_short(parts: Seq<Seq<u8>>) -> bool {
    forall|i: int| 0 <= i < parts.len() ==> #[trigger] parts[i].len() < 0x1_0000_0000
}

proof fn lemma_frame_all_injective(p: Seq<Seq<u8>>, q: Seq<Seq<u8>>)
    requires
        all_short(p),
        all_short(q),
        frame_all(p) == frame_all(q),
    ensures
        p == q,
    decreases p.len(),
{
    if p.len() == 0 {
        if q.len() != 0 {
            lemma_frame_len(q[0]);
            assert(frame_all(q).len() >= 4);
        }
        assert(p =~= q);
    } else {
        if q.len() == 0 {
            lemma_frame_len(p[0]);
            assert(frame_all(p).len() >= 4);
        } else {
            assert(p[0].len() < 0x1_0000_0000);
            assert(q[0].len() < 0x1_0000_0000);
            lemma_frame_prefix_unique(p[0], frame_all(p.drop_first()), q[0], frame_all(q.drop_first()));
            assert forall|i: int| 0 <= i < p.drop_first().len() implies #[trigger] p.drop_first()[i].len() < 0x1_0000_0000 by {
                assert(p.drop_first()[i] == p[i + 1]);
            }
            assert forall|i: int| 0 <= i < q.drop_first().len() implies #[trigger] q.drop_first()[i].len() < 0x1_0000_0000 by {
                assert(q.drop_first()[i] == q[i + 1]);
            }
            lemma_frame_all_injective(p.drop_first(), q.drop_first());
            assert(p.len() == q.len());
            assert forall|i: int| 0 <= i < p.len() implies p[i] == q[i] by {
                if i > 0 {
                    assert(p[i] == p.drop_first()[i - 1]);
                    assert(q[i] == q.drop_first()[i - 1]);
                }
            }
            assert(p =~= q);
        }
    }
}

/// The protocol-transition payload is injective: two payloads are equal only
/// when their labels and their part lists (each shorter than 2^32 bytes) are
/// equal — order and boundaries included.
pub proof fn lemma_protocol_transition_payload_injective(
    label_a: Seq<u8>,
    parts_a: Seq<Seq<u8>>,
    label_b: Seq<u8>,
    parts_b: Seq<Seq<u8>>,
)
    requires
        label_a.len() < 0x1_0000_0000,
        label_b.len() < 0x1_0000_0000,
        all_short(parts_a),
        all_short(parts_b),
        spec_protocol_transition_payload(label_a, parts_a) == spec_protocol_transition_payload(
            label_b,
            parts_b,
        ),
    ensures
        label_a == label_b,
        parts_a == parts_b,
{
    lemma_frame_prefix_unique(label_a, frame_all(parts_a), label_b, frame_all(parts_b));
    lemma_frame_all_injective(parts_a, parts_b);
}

/// Inputs for per-step ephemeral key derivation: the chain id, the current
/// tip `h_n`, the pre-commitment `C_pre` and the Kyber-derived step key.
#[derive(Debug, Clone, Copy)]
pub struct PerStepEkContext {
    pub chain_id: [u8; 32],
    pub h_n: [u8; 32],
    pub c_pre: [u8; 32],
    pub k_step: [u8; 32],
}

/// Result of the sender-side per-step Kyber encapsulation.
#[derive(Debug)]
pub struct KyberStepEncap {
    pub k_step: [u8; 32],
    pub ciphertext: Vec<u8>,
}

/// Inputs to per-step signing.
pub struct PerStepSigningInputs<'a> {
    pub commitment: &'a [u8; 32],
    pub h_n: [u8; 32],
    pub c_pre: [u8; 32],
    pub devid_sender: [u8; 32],
    pub relationship_key: [u8; 32],
    /// Root AK keypair `(ak_pk, ak_sk)`, used only when the relationship has no
    /// chain head yet.
    pub root_ak_keypair: Option<(&'a [u8], &'a [u8])>,
    pub recipient_kyber_pk: &'a [u8],
    pub session_binding: &'a [u8; 32],
}

/// Output of per-step signing.
#[derive(Debug)]
pub struct PerStepSigningOutput {
    pub ek_pk: Vec<u8>,
    pub ek_sk: Vec<u8>,
    pub ek_cert: Vec<u8>,
    pub sig: Vec<u8>,
    pub kyber_ct: Vec<u8>,
    pub used_root_ak: bool,
}

/// The per-step EK context the signing inputs and a step key bind: the
/// relationship key is the chain id.
pub fn per_step_ek_context(inputs: &PerStepSigningInputs, k_step: [u8; 32]) -> (c: PerStepEkContext)
    ensures
        c.chain_id == inputs.relationship_key,
        c.h_n == inputs.h_n,
        c.c_pre == inputs.c_pre,
        c.k_step == k_step,
{
    PerStepEkContext {
        chain_id: inputs.relationship_key,
        h_n: inputs.h_n,
        c_pre: inputs.c_pre,
        k_step,
    }
}

/// The key that certifies the next per-step EK: the relationship's chain-head
/// secret key when one is recorded, else the root AK secret key (then
/// `used_root_ak` is true); refused when neither is available.
pub fn resolve_prior_signer(
    chain_head_sk: Option<Vec<u8>>,
    root_ak_keypair: Option<(&[u8], &[u8])>,
) -> (r: Result<(Vec<u8>, bool), SdkError>)
    ensures
        chain_head_sk matches Some(sk) ==> r matches Ok((k, used)) && k@ == sk@ && !used,
        chain_head_sk is None ==> match root_ak_keypair {
            Some((_, sk)) => r matches Ok((k, used)) && k@ == sk@ && used,
            None => r matches Err(e) && e is InvalidOperation && e.spec_detail()
                == "per-step signing requires chain-head SK or root AK keypair; neither was available"@,
        },
{
    match chain_head_sk {
        Some(sk) => Ok((sk, false)),
        None => match root_ak_keypair {
            Some((_pk, sk)) => Ok((copy_bytes(sk), true)),
            None => Err(
                SdkError::InvalidOperation(
                    text(
                        "per-step signing requires chain-head SK or root AK keypair; neither was available",
                    ),
                ),
            ),
        },
    }
}

/// The sender's Kyber encapsulation needs the recipient's Kyber public key:
/// refused (fail closed) when it is empty.
pub fn require_recipient_kyber_key(recipient_kyber_pk: &[u8]) -> (r: Result<(), SdkError>)
    ensures
        r is Ok <==> recipient_kyber_pk@.len() > 0,
        r matches Err(e) ==> e is InvalidOperation && e.spec_detail()
            == "derive_kyber_k_step_for_send: recipient Kyber public key is empty; contact must be re-established with a Kyber pubkey"@,
{
    if recipient_kyber_pk.len() == 0 {
        return Err(
            SdkError::InvalidOperation(
                text(
                    "derive_kyber_k_step_for_send: recipient Kyber public key is empty; contact must be re-established with a Kyber pubkey",
                ),
            ),
        );
    }
    Ok(())
}

/// The recipient can only derive the step key from a receipt that carries the
/// sender's Kyber ciphertext: refused when it is empty.
pub fn require_sender_ciphertext(sender_ciphertext: &[u8]) -> (r: Result<(), SdkError>)
    ensures
        r is Ok <==> sender_ciphertext@.len() > 0,
        r matches Err(e) ==> e is InvalidOperation && e.spec_detail()
            == "derive_kyber_k_step_for_verify: receipt does not carry a Kyber ciphertext; cannot derive k_step"@,
{
    if sender_ciphertext.len() == 0 {
        return Err(
            SdkError::InvalidOperation(
                text(
                    "derive_kyber_k_step_for_verify: receipt does not carry a Kyber ciphertext; cannot derive k_step",
                ),
            ),
        );
    }
    Ok(())
}

} // verus!
