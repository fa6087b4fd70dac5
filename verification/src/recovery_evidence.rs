//! Choosing among posted recovery evidence. Storage is availability only:
//! anyone can write a cell, so a reader keeps what parses and verifies, and
//! then decides here which of it counts — the one distinct anchor, receipt or
//! proof a cell may hold, the chain of PDSMT heads from a genesis head, the
//! authority a device anchored, and a relationship's ancestry walk.

use vstd::prelude::*;
use crate::bytes::bytes_eq;
use crate::error::{SdkError, text};
use crate::text_id::{push_padded_decimal, spec_padded_decimal};

verus! {

/// `s` with every repeat of an earlier element removed, in first-seen order.
pub open spec fn distinct_in_order<A>(s: Seq<A>) -> Seq<A>
    decreases s.len(),
{
    if s.len() == 0 {
        Seq::empty()
    } else {
        let d = distinct_in_order(s.drop_last());
        if d.contains(s.last()) {
            d
        } else {
            d.push(s.last())
        }
    }
}

/// The byte strings `items` holds, by view.
pub open spec fn blob_views(items: Seq<Vec<u8>>) -> Seq<Seq<u8>> {
    items.map_values(|v: Vec<u8>| v@)
}

/// The views of `items` at the indices `idx`.
pub open spec fn blobs_at(items: Seq<Vec<u8>>, idx: Seq<usize>) -> Seq<Seq<u8>> {
    idx.map_values(|k: usize| items[k as int]@)
}

/// The index of the first occurrence of each distinct byte string of
/// `items`, in first-seen order.
pub fn distinct_blobs(items: &[Vec<u8>]) -> (r: Vec<usize>)
    ensures
        forall|k: int| 0 <= k < r@.len() ==> r@[k] < items@.len(),
        blobs_at(items@, r@) == distinct_in_order(blob_views(items@)),
{
    let mut out: Vec<usize> = Vec::new();
    let mut i: usize = 0;
    while i < items.len()
        invariant
            i <= items@.len(),
            forall|k: int| 0 <= k < out@.len() ==> out@[k] < i,
            blobs_at(items@, out@) == distinct_in_order(blob_views(items@).subrange(0, i as int)),
        decreases items@.len() - i,
    {
        let mut k: usize = 0;
        let mut seen = false;
        while k < out.len()
            invariant
                i < items@.len(),
                k <= out@.len(),
                forall|m: int| 0 <= m < out@.len() ==> out@[m] < i,
                seen == exists|m: int| 0 <= m < k && items@[out@[m] as int]@ == items@[i as int]@,
            decreases out@.len() - k,
        {
            if bytes_eq(items[out[k]].as_slice(), items[i].as_slice()) {
                seen = true;
            }
            k = k + 1;
        }
        proof {
            let pre = blob_views(items@).subrange(0, i as int);
            let post = blob_views(items@).subrange(0, i + 1);
            assert(post.drop_last() =~= pre);
            assert(post.last() == items@[i as int]@);
            let d = blobs_at(items@, out@);
            if seen {
                let m = choose|m: int| 0 <= m < k && items@[out@[m] as int]@ == items@[i as int]@;
                assert(d[m] == items@[i as int]@);
                assert(d.contains(items@[i as int]@));
            } else {
                assert forall|m: int| 0 <= m < d.len() implies d[m] != items@[i as int]@ by {
                    assert(d[m] == items@[out@[m] as int]@);
                }
                assert(!d.contains(items@[i as int]@));
            }
        }
        if !seen {
            let ghost prev = out@;
            out.push(i);
            proof {
                assert(blobs_at(items@, out@) =~= blobs_at(items@, prev).push(items@[i as int]@));
            }
        }
        i = i + 1;
    }
    assert(blob_views(items@).subrange(0, items@.len() as int) =~= blob_views(items@));
    out
}

/// The text of a refusal that counts `n` things: `before`, the count, `after`.
pub open spec fn counted(before: Seq<char>, n: nat, after: Seq<char>) -> Seq<char> {
    before + spec_padded_decimal(n, 1) + after
}

fn counted_text(before: &str, n: usize, after: &str) -> (r: String)
    ensures
        r@ == counted(before@, n as nat, after@),
{
    let mut m = text(before);
    push_padded_decimal(&mut m, n as u64, 1);
    m.append(after);
    m
}

/// The recovery-authority anchor a device bound for its genesis, among the
/// anchors of that genesis's cell whose genesis binding verifies (given by
/// their encodings): none, or the one distinct anchor. Two distinct anchors
/// are the device declaring two authorities, and none is anchored.
pub fn bound_anchor_choice(bound: &[Vec<u8>]) -> (r: Result<Option<usize>, SdkError>)
    ensures
        distinct_in_order(blob_views(bound@)).len() == 0 ==> r == Ok::<Option<usize>, SdkError>(None),
        distinct_in_order(blob_views(bound@)).len() == 1 ==> (r matches Ok(Some(i)) && i < bound@.len()
            && bound@[i as int]@ == distinct_in_order(blob_views(bound@))[0]),
        distinct_in_order(blob_views(bound@)).len() > 1 ==> (r matches Err(e) && e is Verification
            && e.spec_detail() == counted("recovery anchor: "@, distinct_in_order(blob_views(bound@)).len(),
            " distinct anchors bind this genesis and device; the device declared more than one authority and none is anchored"@)),
{
    let d = distinct_blobs(bound);
    if d.len() == 0 {
        return Ok(None);
    }
    if d.len() == 1 {
        return Ok(Some(d[0]));
    }
    Err(SdkError::Verification(counted_text("recovery anchor: ", d.len(),
        " distinct anchors bind this genesis and device; the device declared more than one authority and none is anchored")))
}

/// Bind-once on publishing: this device's anchor (by encoding) may be put
/// while none of its anchors is bound for the genesis, or while the bound one
/// is this very anchor; a different bound anchor is a conflict, refused.
pub fn check_bind_once(bound: Option<&[u8]>, ours: &[u8]) -> (r: Result<(), SdkError>)
    ensures
        r is Ok <==> (bound is None || bound->0@ == ours@),
        r matches Err(e) ==> e is InvalidState && e.spec_detail()
            == "recovery anchor publish: this device already bound a different authority for its genesis (bind-once conflict)"@,
{
    match bound {
        Some(b) => {
            if !bytes_eq(b, ours) {
                return Err(SdkError::InvalidState(text(
                    "recovery anchor publish: this device already bound a different authority for its genesis (bind-once conflict)")));
            }
            Ok(())
        },
        None => Ok(()),
    }
}

/// The anchor a device bound for a genesis, which an authority check needs:
/// a device that bound none has no anchored authority.
pub fn require_bound_anchor<A>(bound: Option<A>) -> (r: Result<A, SdkError>)
    ensures
        bound matches Some(a) ==> r == Ok::<A, SdkError>(a),
        bound is None ==> (r matches Err(e) && e is Verification
            && e.spec_detail() == "authority anchor: the device has bound no recovery authority for the genesis"@),
{
    match bound {
        Some(a) => Ok(a),
        None => Err(SdkError::Verification(text("authority anchor: the device has bound no recovery authority for the genesis"))),
    }
}

/// The `(A_new, C)` establishment receipt of a relationship, among the
/// receipts posted for it that verify as its first state (given by their
/// encodings): the one distinct receipt.
pub fn establishment_receipt_choice(verified: &[Vec<u8>]) -> (r: Result<usize, SdkError>)
    ensures
        distinct_in_order(blob_views(verified@)).len() == 0 ==> (r matches Err(e) && e is Verification
            && e.spec_detail() == "establishment receipt: none posted verifies"@),
        distinct_in_order(blob_views(verified@)).len() == 1 ==> (r matches Ok(i) && i < verified@.len()
            && verified@[i as int]@ == distinct_in_order(blob_views(verified@))[0]),
        distinct_in_order(blob_views(verified@)).len() > 1 ==> (r matches Err(e) && e is Verification
            && e.spec_detail() == counted("establishment receipt: "@, distinct_in_order(blob_views(verified@)).len(),
            " distinct receipts verify as the first state"@)),
{
    let d = distinct_blobs(verified);
    if d.len() == 0 {
        return Err(SdkError::Verification(text("establishment receipt: none posted verifies")));
    }
    if d.len() == 1 {
        return Ok(d[0]);
    }
    Err(SdkError::Verification(counted_text("establishment receipt: ", d.len(),
        " distinct receipts verify as the first state")))
}

/// A recovering device's succession proof, among the proofs posted for it
/// that name the anchored authority (given by their encodings): the one
/// distinct proof.
pub fn succession_proof_choice(named: &[Vec<u8>]) -> (r: Result<usize, SdkError>)
    ensures
        distinct_in_order(blob_views(named@)).len() == 0 ==> (r matches Err(e) && e is Verification
            && e.spec_detail() == "recovery succession proof: none posted names the anchored authority"@),
        distinct_in_order(blob_views(named@)).len() == 1 ==> (r matches Ok(i) && i < named@.len()
            && named@[i as int]@ == distinct_in_order(blob_views(named@))[0]),
        distinct_in_order(blob_views(named@)).len() > 1 ==> (r matches Err(e) && e is Verification
            && e.spec_detail() == counted("recovery succession proof: "@, distinct_in_order(blob_views(named@)).len(),
            " distinct proofs name the anchored authority"@)),
{
    let d = distinct_blobs(named);
    if d.len() == 0 {
        return Err(SdkError::Verification(text("recovery succession proof: none posted names the anchored authority")));
    }
    if d.len() == 1 {
        return Ok(d[0]);
    }
    Err(SdkError::Verification(counted_text("recovery succession proof: ", d.len(),
        " distinct proofs name the anchored authority")))
}

/// What the chain walk reads of a PDSMT head that parsed and verified under
/// the authority: its number, the hash of the head it extends, its own hash,
/// and whether it is a genesis head.
#[derive(Debug, Clone, Copy)]
pub struct HeadLink {
    pub head_number: u64,
    pub parent_head_hash: [u8; 32],
    pub head_hash: [u8; 32],
    pub genesis: bool,
}

/// Whether `h` extends the chain whose last head is `tip`: with no head yet,
/// a genesis head; else the head at the next number that names `tip`'s hash.
pub open spec fn extends(tip: Option<HeadLink>, h: HeadLink) -> bool {
    match tip {
        None => h.genesis,
        Some(t) => t.head_number < u64::MAX && h.head_number == t.head_number + 1
            && h.parent_head_hash@ == t.head_hash@,
    }
}

/// The heads of `d` that extend `tip`, in order.
pub open spec fn successors(d: Seq<HeadLink>, tip: Option<HeadLink>) -> Seq<HeadLink>
    decreases d.len(),
{
    if d.len() == 0 {
        Seq::empty()
    } else {
        let s = successors(d.drop_last(), tip);
        if extends(tip, d.last()) {
            s.push(d.last())
        } else {
            s
        }
    }
}

/// Every head `successors` lists extends the tip.
pub proof fn lemma_successors_extend(d: Seq<HeadLink>, tip: Option<HeadLink>)
    ensures
        forall|i: int| 0 <= i < successors(d, tip).len() ==> extends(tip, #[trigger] successors(d, tip)[i]),
    decreases d.len(),
{
    if d.len() > 0 {
        lemma_successors_extend(d.drop_last(), tip);
        let s = successors(d.drop_last(), tip);
        if extends(tip, d.last()) {
            assert forall|i: int| 0 <= i < s.len() + 1 implies extends(tip, #[trigger] s.push(d.last())[i]) by {
                if i < s.len() {
                    assert(s.push(d.last())[i] == s[i]);
                }
            }
        }
    }
}

/// The last head of `chain`, if any.
pub open spec fn last_head(chain: Seq<HeadLink>) -> Option<HeadLink> {
    if chain.len() == 0 {
        None
    } else {
        Some(chain.last())
    }
}

/// What bounds the walk: head numbers only grow along a chain.
pub open spec fn walk_measure(chain: Seq<HeadLink>) -> int {
    if chain.len() == 0 {
        u64::MAX + 2
    } else {
        u64::MAX - chain.last().head_number
    }
}

/// The chain the distinct verified heads `d` form, grown from `chain`: while
/// exactly one head extends it, that head joins; when none does, the chain is
/// done; when several do, the walk stops at a fork, with their count and the
/// chain's length.
pub open spec fn walk_heads(d: Seq<HeadLink>, chain: Seq<HeadLink>) -> Result<Seq<HeadLink>, (nat, nat)>
    decreases walk_measure(chain),
{
    let next = successors(d, last_head(chain));
    if next.len() == 0 {
        Ok(chain)
    } else if next.len() == 1 {
        proof {
            lemma_successors_extend(d, last_head(chain));
            assert(extends(last_head(chain), next[0]));
        }
        walk_heads(d, chain.push(next[0]))
    } else {
        Err((next.len(), chain.len()))
    }
}

/// The refusal of a head chain with `n` verified heads at position `p`.
pub open spec fn fork_refusal(n: nat, p: nat) -> Seq<char> {
    "pdsmt head chain: "@ + spec_padded_decimal(n, 1) + " verified heads at position "@ + spec_padded_decimal(p, 1)
        + "; a fork has no single chain"@
}

fn same_head(a: &HeadLink, b: &HeadLink) -> (r: bool)
    ensures
        r == (*a == *b),
{
    if a.head_number != b.head_number || a.genesis != b.genesis {
        return false;
    }
    let p = bytes_eq(&a.parent_head_hash, &b.parent_head_hash);
    let h = bytes_eq(&a.head_hash, &b.head_hash);
    if p && h {
        assert(a.parent_head_hash =~= b.parent_head_hash);
        assert(a.head_hash =~= b.head_hash);
        true
    } else {
        false
    }
}

fn head_extends(tip: &Option<HeadLink>, h: &HeadLink) -> (r: bool)
    ensures
        r == extends(*tip, *h),
{
    match tip {
        None => h.genesis,
        Some(t) => t.head_number < u64::MAX && h.head_number == t.head_number + 1
            && bytes_eq(&h.parent_head_hash, &t.head_hash),
    }
}

/// The heads `verified` holds at the indices `idx`.
pub open spec fn heads_at(verified: Seq<HeadLink>, idx: Seq<usize>) -> Seq<HeadLink> {
    idx.map_values(|k: usize| verified[k as int])
}

fn distinct_heads(verified: &[HeadLink]) -> (r: Vec<usize>)
    ensures
        forall|k: int| 0 <= k < r@.len() ==> r@[k] < verified@.len(),
        heads_at(verified@, r@) == distinct_in_order(verified@),
{
    let mut out: Vec<usize> = Vec::new();
    let mut i: usize = 0;
    while i < verified.len()
        invariant
            i <= verified@.len(),
            forall|k: int| 0 <= k < out@.len() ==> out@[k] < i,
            heads_at(verified@, out@) == distinct_in_order(verified@.subrange(0, i as int)),
        decreases verified@.len() - i,
    {
        let mut k: usize = 0;
        let mut seen = false;
        while k < out.len()
            invariant
                i < verified@.len(),
                k <= out@.len(),
                forall|m: int| 0 <= m < out@.len() ==> out@[m] < i,
                seen == exists|m: int| 0 <= m < k && verified@[out@[m] as int] == verified@[i as int],
            decreases out@.len() - k,
        {
            if same_head(&verified[out[k]], &verified[i]) {
                seen = true;
            }
            k = k + 1;
        }
        proof {
            let pre = verified@.subrange(0, i as int);
            let post = verified@.subrange(0, i + 1);
            assert(post.drop_last() =~= pre);
            let d = heads_at(verified@, out@);
            if seen {
                let m = choose|m: int| 0 <= m < k && verified@[out@[m] as int] == verified@[i as int];
                assert(d[m] == verified@[i as int]);
            } else {
                assert forall|m: int| 0 <= m < d.len() implies d[m] != verified@[i as int] by {
                    assert(d[m] == verified@[out@[m] as int]);
                }
            }
        }
        if !seen {
            let ghost prev = out@;
            out.push(i);
            proof {
                assert(heads_at(verified@, out@) =~= heads_at(verified@, prev).push(verified@[i as int]));
            }
        }
        i = i + 1;
    }
    assert(verified@.subrange(0, verified@.len() as int) =~= verified@);
    out
}

fn successor_indices(verified: &[HeadLink], d: &Vec<usize>, tip: &Option<HeadLink>) -> (r: Vec<usize>)
    requires
        forall|k: int| 0 <= k < d@.len() ==> d@[k] < verified@.len(),
    ensures
        forall|k: int| 0 <= k < r@.len() ==> r@[k] < verified@.len(),
        heads_at(verified@, r@) == successors(heads_at(verified@, d@), *tip),
{
    let mut out: Vec<usize> = Vec::new();
    let mut j: usize = 0;
    while j < d.len()
        invariant
            j <= d@.len(),
            forall|k: int| 0 <= k < d@.len() ==> d@[k] < verified@.len(),
            forall|k: int| 0 <= k < out@.len() ==> out@[k] < verified@.len(),
            heads_at(verified@, out@) == successors(heads_at(verified@, d@).subrange(0, j as int), *tip),
        decreases d@.len() - j,
    {
        proof {
            let all = heads_at(verified@, d@);
            assert(all.subrange(0, j + 1).drop_last() =~= all.subrange(0, j as int));
            assert(all.subrange(0, j + 1).last() == verified@[d@[j as int] as int]);
        }
        if head_extends(tip, &verified[d[j]]) {
            let ghost prev = out@;
            out.push(d[j]);
            proof {
                assert(heads_at(verified@, out@) =~= heads_at(verified@, prev).push(verified@[d@[j as int] as int]));
            }
        }
        j = j + 1;
    }
    assert(heads_at(verified@, d@).subrange(0, d@.len() as int) =~= heads_at(verified@, d@));
    out
}

/// The chain of a device's PDSMT heads, from the heads of its cell that parsed
/// and verified under the authority, in the order read: from the genesis
/// head, each next head the one distinct head that extends the last. The
/// indices of the chain's heads in `verified`; refused at a fork.
pub fn head_chain(verified: &[HeadLink]) -> (r: Result<Vec<usize>, SdkError>)
    ensures
        walk_heads(distinct_in_order(verified@), Seq::empty()) matches Ok(c) ==> (r matches Ok(v)
            && (forall|k: int| 0 <= k < v@.len() ==> v@[k] < verified@.len()) && heads_at(verified@, v@) == c),
        walk_heads(distinct_in_order(verified@), Seq::empty()) matches Err((n, p)) ==> (r matches Err(e)
            && e is Verification && e.spec_detail() == fork_refusal(n, p)),
{
    let d = distinct_heads(verified);
    let ghost dd = distinct_in_order(verified@);
    let mut chain: Vec<usize> = Vec::new();
    assert(heads_at(verified@, chain@) =~= Seq::<HeadLink>::empty());
    loop
        invariant
            forall|k: int| 0 <= k < d@.len() ==> d@[k] < verified@.len(),
            heads_at(verified@, d@) == dd,
            dd == distinct_in_order(verified@),
            forall|k: int| 0 <= k < chain@.len() ==> chain@[k] < verified@.len(),
            walk_heads(dd, heads_at(verified@, chain@)) == walk_heads(dd, Seq::empty()),
        decreases walk_measure(heads_at(verified@, chain@)),
    {
        let ghost cs = heads_at(verified@, chain@);
        let tip: Option<HeadLink> = if chain.len() == 0 {
            None
        } else {
            Some(verified[chain[chain.len() - 1]])
        };
        assert(tip == last_head(cs));
        let next = successor_indices(verified, &d, &tip);
        if next.len() == 0 {
            return Ok(chain);
        }
        if next.len() > 1 {
            let mut m = text("pdsmt head chain: ");
            push_padded_decimal(&mut m, next.len() as u64, 1);
            m.append(" verified heads at position ");
            push_padded_decimal(&mut m, chain.len() as u64, 1);
            m.append("; a fork has no single chain");
            return Err(SdkError::Verification(m));
        }
        proof {
            lemma_successors_extend(dd, tip);
            assert(heads_at(verified@, next@)[0] == verified@[next@[0] as int]);
        }
        let ghost prev = chain@;
        chain.push(next[0]);
        assert(heads_at(verified@, chain@) =~= heads_at(verified@, prev).push(verified@[next@[0] as int]));
    }
}

/// The heads of a device's cell that can be in its chain under an
/// authority: those naming the device and signed under that authority (each
/// head given as the device and the authority it names), in read order.
/// Their indices in `heads`; the signature check is then the caller's.
pub fn heads_under(heads: &[([u8; 32], Vec<u8>)], device_id: &[u8; 32], authority_pubkey: &[u8]) -> (r: Vec<usize>)
    ensures
        forall|k: int| 0 <= k < r@.len() ==> (#[trigger] r@[k]) < heads@.len(),
        forall|a: int, b: int| 0 <= a < b < r@.len() ==> r@[a] < r@[b],
        forall|i: int| 0 <= i < heads@.len() ==> (r@.contains(i as usize) <==> (heads@[i].0@ == device_id@
            && heads@[i].1@ == authority_pubkey@)),
{
    let mut out: Vec<usize> = Vec::new();
    let mut i: usize = 0;
    while i < heads.len()
        invariant
            i <= heads@.len(),
            forall|k: int| 0 <= k < out@.len() ==> (#[trigger] out@[k]) < i,
            forall|a: int, b: int| 0 <= a < b < out@.len() ==> out@[a] < out@[b],
            forall|j: int| 0 <= j < i ==> (out@.contains(j as usize) <==> (heads@[j].0@ == device_id@
                && heads@[j].1@ == authority_pubkey@)),
        decreases heads@.len() - i,
    {
        let d = bytes_eq(&heads[i].0, device_id);
        let a = bytes_eq(heads[i].1.as_slice(), authority_pubkey);
        let ghost before = out@;
        if d && a {
            out.push(i);
        }
        proof {
            assert forall|j: int| 0 <= j < i + 1 implies (out@.contains(j as usize) <==> (heads@[j].0@ == device_id@
                && heads@[j].1@ == authority_pubkey@)) by {
                if j < i {
                    if out@.contains(j as usize) {
                        let k = choose|k: int| 0 <= k < out@.len() && out@[k] == j as usize;
                        if k == before.len() {
                            assert(out@[k] == i);
                        } else {
                            assert(before[k] == j as usize);
                        }
                    }
                    if before.contains(j as usize) {
                        let k = choose|k: int| 0 <= k < before.len() && before[k] == j as usize;
                        assert(out@[k] == j as usize);
                    }
                } else {
                    if d && a {
                        assert(out@[before.len() as int] == i);
                    } else {
                        assert(out@ == before);
                        if out@.contains(j as usize) {
                            let k = choose|k: int| 0 <= k < out@.len() && out@[k] == j as usize;
                            assert(out@[k] < i);
                        }
                    }
                }
            }
        }
        i = i + 1;
    }
    out
}

/// Where this device's next PDSMT head goes: after the last head of its
/// chain, at the next number; with no chain yet, the genesis head, number 0
/// under `genesis_parent`. Refused once the head number is exhausted.
pub fn next_head_position(latest: Option<HeadLink>, genesis_parent: [u8; 32]) -> (r: Result<([u8; 32], u64), SdkError>)
    ensures
        latest is None ==> r == Ok::<([u8; 32], u64), SdkError>((genesis_parent, 0u64)),
        latest matches Some(p) ==> (p.head_number < u64::MAX ==> r == Ok::<([u8; 32], u64), SdkError>(
            (p.head_hash, (p.head_number + 1) as u64))),
        latest matches Some(p) ==> (p.head_number == u64::MAX ==> (r matches Err(e) && e is InvalidState
            && e.spec_detail() == "pdsmt head chain: head number exhausted"@)),
{
    match latest {
        None => Ok((genesis_parent, 0)),
        Some(p) => match p.head_number.checked_add(1) {
            Some(n) => Ok((p.head_hash, n)),
            None => Err(SdkError::InvalidState(text("pdsmt head chain: head number exhausted"))),
        },
    }
}

/// The `(genesis, authority)` pairs the given heads name, by view.
pub open spec fn pair_views(s: Seq<([u8; 32], Vec<u8>)>) -> Seq<(Seq<u8>, Seq<u8>)> {
    s.map_values(|p: ([u8; 32], Vec<u8>)| (p.0@, p.1@))
}

/// The pairs of `s` under `genesis`, or all of them when no genesis is named.
pub open spec fn named_pairs(s: Seq<(Seq<u8>, Seq<u8>)>, genesis: Option<[u8; 32]>) -> Seq<(Seq<u8>, Seq<u8>)>
    decreases s.len(),
{
    if s.len() == 0 {
        Seq::empty()
    } else {
        let n = named_pairs(s.drop_last(), genesis);
        if genesis is None || s.last().0 == genesis->0@ {
            n.push(s.last())
        } else {
            n
        }
    }
}

/// The pairs `heads` holds at the indices `idx`, by view.
pub open spec fn pairs_at(heads: Seq<([u8; 32], Vec<u8>)>, idx: Seq<usize>) -> Seq<(Seq<u8>, Seq<u8>)> {
    idx.map_values(|k: usize| (heads[k as int].0@, heads[k as int].1@))
}

/// The authorities a device's posted heads name, as `(genesis, authority)`
/// pairs read from the heads that parse, in order: those under `genesis`
/// when one is given, each pair once. Their indices in `heads`.
pub fn head_authority_candidates(heads: &[([u8; 32], Vec<u8>)], genesis: Option<[u8; 32]>) -> (r: Vec<usize>)
    ensures
        forall|k: int| 0 <= k < r@.len() ==> r@[k] < heads@.len(),
        pairs_at(heads@, r@) == distinct_in_order(named_pairs(pair_views(heads@), genesis)),
{
    let mut out: Vec<usize> = Vec::new();
    let mut i: usize = 0;
    while i < heads.len()
        invariant
            i <= heads@.len(),
            forall|k: int| 0 <= k < out@.len() ==> out@[k] < i,
            pairs_at(heads@, out@) == distinct_in_order(named_pairs(pair_views(heads@).subrange(0, i as int), genesis)),
        decreases heads@.len() - i,
    {
        let ghost pre = named_pairs(pair_views(heads@).subrange(0, i as int), genesis);
        let ghost x = (heads@[i as int].0@, heads@[i as int].1@);
        proof {
            let sub = pair_views(heads@).subrange(0, i + 1);
            assert(sub.drop_last() =~= pair_views(heads@).subrange(0, i as int));
            assert(sub.last() == x);
        }
        let named = match &genesis {
            None => true,
            Some(g) => bytes_eq(&heads[i].0, g),
        };
        if named {
            assert(named_pairs(pair_views(heads@).subrange(0, i + 1), genesis) == pre.push(x));
            let mut k: usize = 0;
            let mut seen = false;
            while k < out.len()
                invariant
                    i < heads@.len(),
                    x == (heads@[i as int].0@, heads@[i as int].1@),
                    k <= out@.len(),
                    forall|m: int| 0 <= m < out@.len() ==> out@[m] < i,
                    seen == exists|m: int| 0 <= m < k && (heads@[out@[m] as int].0@, heads@[out@[m] as int].1@) == x,
                decreases out@.len() - k,
            {
                let a = bytes_eq(&heads[out[k]].0, &heads[i].0);
                let b = bytes_eq(heads[out[k]].1.as_slice(), heads[i].1.as_slice());
                if a && b {
                    seen = true;
                }
                k = k + 1;
            }
            proof {
                assert(pre.push(x).drop_last() =~= pre);
                let d = pairs_at(heads@, out@);
                if seen {
                    let m = choose|m: int| 0 <= m < k && (heads@[out@[m] as int].0@, heads@[out@[m] as int].1@) == x;
                    assert(d[m] == x);
                } else {
                    assert forall|m: int| 0 <= m < d.len() implies d[m] != x by {
                        assert(d[m] == (heads@[out@[m] as int].0@, heads@[out@[m] as int].1@));
                    }
                }
            }
            if !seen {
                let ghost prev = out@;
                out.push(i);
                proof {
                    assert(pairs_at(heads@, out@) =~= pairs_at(heads@, prev).push(x));
                }
            }
        } else {
            assert(named_pairs(pair_views(heads@).subrange(0, i + 1), genesis) == pre);
        }
        i = i + 1;
    }
    assert(pair_views(heads@).subrange(0, heads@.len() as int) =~= pair_views(heads@));
    out
}

/// The authority a device anchored, among the candidate authorities whose
/// anchor verified: it must be exactly one.
pub fn anchored_authority(anchored: Vec<Vec<u8>>) -> (r: Result<Vec<u8>, SdkError>)
    ensures
        anchored@.len() == 1 ==> (r matches Ok(a) && a@ == anchored@[0]@),
        anchored@.len() == 0 ==> (r matches Err(e) && e is Verification
            && e.spec_detail() == "pdsmt head: no posted head names an authority the device anchored"@),
        anchored@.len() > 1 ==> (r matches Err(e) && e is Verification
            && e.spec_detail() == counted("pdsmt head: "@, anchored@.len(), " anchored authorities; none is the device's"@)),
{
    let n = anchored.len();
    if n == 0 {
        return Err(SdkError::Verification(text("pdsmt head: no posted head names an authority the device anchored")));
    }
    if n > 1 {
        return Err(SdkError::Verification(counted_text("pdsmt head: ", n, " anchored authorities; none is the device's")));
    }
    let mut anchored = anchored;
    match anchored.pop() {
        Some(a) => Ok(a),
        None => Err(SdkError::Verification(text("pdsmt head: no posted head names an authority the device anchored"))),
    }
}

/// A device's latest PDSMT head: the tip of its head chain, which must have
/// begun at a genesis head.
pub fn latest_chain_head(chain: &[usize]) -> (r: Result<usize, SdkError>)
    ensures
        chain@.len() > 0 ==> r == Ok::<usize, SdkError>(chain@.last()),
        chain@.len() == 0 ==> (r matches Err(e) && e is Verification
            && e.spec_detail() == "pdsmt head: no chain from a genesis head is posted"@),
{
    if chain.len() == 0 {
        return Err(SdkError::Verification(text("pdsmt head: no chain from a genesis head is posted")));
    }
    Ok(chain[chain.len() - 1])
}

/// Whether `f` is the first state of the archive `a` that extends `cursor`
/// (each state given as its embedded parent tip and its own chain tip).
pub open spec fn is_first_child(a: Seq<([u8; 32], [u8; 32])>, cursor: [u8; 32], f: int) -> bool {
    &&& 0 <= f < a.len()
    &&& a[f].0@ == cursor@
    &&& forall|j: int| 0 <= j < f ==> (#[trigger] a[j]).0@ != cursor@
}

/// Whether some archived state extends `cursor`.
pub open spec fn has_child(a: Seq<([u8; 32], [u8; 32])>, cursor: [u8; 32]) -> bool {
    exists|i: int| 0 <= i < a.len() && (#[trigger] a[i]).0@ == cursor@
}

/// The first archived state that extends `cursor`.
pub open spec fn first_child(a: Seq<([u8; 32], [u8; 32])>, cursor: [u8; 32]) -> int {
    choose|f: int| is_first_child(a, cursor, f)
}

/// Whether every archived state that extends `cursor` reaches the tip of
/// state `f`: one forward path, no fork.
pub open spec fn single_path(a: Seq<([u8; 32], [u8; 32])>, cursor: [u8; 32], f: int) -> bool {
    forall|i: int| 0 <= i < a.len() && (#[trigger] a[i]).0@ == cursor@ ==> a[i].1@ == a[f].1@
}

/// Why an ancestry walk stops short of the current tip.
#[derive(Debug, Clone, Copy)]
pub enum AncestryStop {
    /// No archived state extends the tip reached.
    Gap,
    /// Archived states extend the tip reached toward different tips.
    Fork,
    /// The path grew past the archive's size.
    Runaway,
}

/// The walk from `cursor` toward `current` over the archive `a`, after the
/// states `steps`: the first state that extends the tip reached joins, until
/// its tip is `current`.
pub open spec fn ancestry_walk(a: Seq<([u8; 32], [u8; 32])>, cursor: [u8; 32], current: [u8; 32], steps: Seq<usize>)
    -> Result<Seq<usize>, AncestryStop>
    decreases (if steps.len() <= a.len() { a.len() - steps.len() } else { 0 }),
{
    if !has_child(a, cursor) {
        Err(AncestryStop::Gap)
    } else {
        let f = first_child(a, cursor);
        if !single_path(a, cursor, f) {
            Err(AncestryStop::Fork)
        } else {
            let next = steps.push(f as usize);
            if a[f].1@ == current@ {
                Ok(next)
            } else if next.len() > a.len() {
                Err(AncestryStop::Runaway)
            } else {
                ancestry_walk(a, a[f].1, current, next)
            }
        }
    }
}

proof fn lemma_first_child_is(a: Seq<([u8; 32], [u8; 32])>, cursor: [u8; 32], f: int)
    requires
        is_first_child(a, cursor, f),
    ensures
        first_child(a, cursor) == f,
        has_child(a, cursor),
{
    assert(a[f].0@ == cursor@);
    let g = first_child(a, cursor);
    assert(is_first_child(a, cursor, g));
    if g < f {
        assert(a[g].0@ != cursor@);
    }
    if f < g {
        assert(a[f].0@ != cursor@);
    }
}

/// The states of a relationship's ancestry segment from `floor_tip`
/// (exclusive) to `current_tip` (inclusive), from the relationship's archive
/// (each state as its embedded parent tip and its own chain tip, in archive
/// order): the walk follows parent adjacency, taking the first archived state
/// that extends the tip reached. No state when the floor is the current tip.
/// Their indices in `archive`; refused at a gap, a fork, or a path longer
/// than the archive.
pub fn walk_rel_chain(archive: &[([u8; 32], [u8; 32])], floor_tip: &[u8; 32], current_tip: &[u8; 32])
    -> (r: Result<Vec<usize>, SdkError>)
    ensures
        floor_tip@ == current_tip@ ==> (r matches Ok(v) && v@.len() == 0),
        floor_tip@ != current_tip@ ==> (ancestry_walk(archive@, *floor_tip, *current_tip, Seq::empty()) matches Ok(s)
            ==> (r matches Ok(v) && v@ == s)),
        floor_tip@ != current_tip@ ==> (ancestry_walk(archive@, *floor_tip, *current_tip, Seq::empty()) matches Err(AncestryStop::Gap)
            ==> (r matches Err(e) && e is Verification && e.spec_detail()
            == "build_rel_chain_segment: gap \u{2014} no archived child of the current tip toward current_tip (incomplete history; fail closed)"@)),
        floor_tip@ != current_tip@ ==> (ancestry_walk(archive@, *floor_tip, *current_tip, Seq::empty()) matches Err(AncestryStop::Fork)
            ==> (r matches Err(e) && e is Verification && e.spec_detail()
            == "build_rel_chain_segment: fork in archive \u{2014} ambiguous ancestry path (fail closed)"@)),
        floor_tip@ != current_tip@ ==> (ancestry_walk(archive@, *floor_tip, *current_tip, Seq::empty()) matches Err(AncestryStop::Runaway)
            ==> (r matches Err(e) && e is Verification && e.spec_detail()
            == "build_rel_chain_segment: path exceeds archive size (cycle?) \u{2014} fail closed"@)),
{
    if bytes_eq(floor_tip, current_tip) {
        return Ok(Vec::new());
    }
    let ghost a = archive@;
    let mut steps: Vec<usize> = Vec::new();
    let mut cursor: [u8; 32] = *floor_tip;
    loop
        invariant
            a == archive@,
            floor_tip@ != current_tip@,
            steps@.len() <= a.len(),
            ancestry_walk(a, cursor, *current_tip, steps@) == ancestry_walk(a, *floor_tip, *current_tip, Seq::empty()),
        decreases a.len() - steps@.len(),
    {
        let mut found: Option<usize> = None;
        let mut fork = false;
        let mut i: usize = 0;
        while i < archive.len()
            invariant
                a == archive@,
                i <= a.len(),
                found is None ==> !fork && forall|j: int| 0 <= j < i ==> (#[trigger] a[j]).0@ != cursor@,
                found matches Some(f) ==> (f < i && is_first_child(a, cursor, f as int)
                    && (fork == exists|j: int| 0 <= j < i && (#[trigger] a[j]).0@ == cursor@ && a[j].1@ != a[f as int].1@)),
            decreases a.len() - i,
        {
            if bytes_eq(&archive[i].0, &cursor) {
                match found {
                    None => {
                        found = Some(i);
                    },
                    Some(f) => {
                        if !bytes_eq(&archive[i].1, &archive[f].1) {
                            fork = true;
                        }
                    },
                }
            }
            i = i + 1;
        }
        match found {
            None => {
                proof {
                    assert(!has_child(a, cursor));
                }
                return Err(SdkError::Verification(text(
                    "build_rel_chain_segment: gap \u{2014} no archived child of the current tip toward current_tip (incomplete history; fail closed)")));
            },
            Some(f) => {
                proof {
                    lemma_first_child_is(a, cursor, f as int);
                }
                if fork {
                    return Err(SdkError::Verification(text(
                        "build_rel_chain_segment: fork in archive \u{2014} ambiguous ancestry path (fail closed)")));
                }
                assert(single_path(a, cursor, f as int));
                steps.push(f);
                let tip = archive[f].1;
                if bytes_eq(&tip, current_tip) {
                    return Ok(steps);
                }
                if steps.len() > archive.len() {
                    return Err(SdkError::Verification(text(
                        "build_rel_chain_segment: path exceeds archive size (cycle?) \u{2014} fail closed")));
                }
                cursor = tip;
            },
        }
    }
}

proof fn lemma_walk_heads_links(d: Seq<HeadLink>, ch: Seq<HeadLink>, c: Seq<HeadLink>)
    requires
        walk_heads(d, ch) == Ok::<Seq<HeadLink>, (nat, nat)>(c),
    ensures
        ch.len() <= c.len(),
        c.take(ch.len() as int) == ch,
        forall|i: int| ch.len() <= i < c.len() ==> #[trigger] successors(d, last_head(c.take(i))) == seq![c[i]],
        successors(d, last_head(c)).len() == 0,
    decreases walk_measure(ch),
{
    let next = successors(d, last_head(ch));
    if next.len() == 0 {
        assert(c == ch);
        assert(c.take(ch.len() as int) =~= ch);
    } else if next.len() == 1 {
        lemma_successors_extend(d, last_head(ch));
        assert(extends(last_head(ch), next[0]));
        let ch2 = ch.push(next[0]);
        lemma_walk_heads_links(d, ch2, c);
        assert(c.take(ch.len() as int) =~= ch2.take(ch.len() as int));
        assert(ch2.take(ch.len() as int) =~= ch);
        assert forall|i: int| ch.len() <= i < c.len() implies #[trigger] successors(d, last_head(c.take(i))) == seq![c[i]] by {
            if i == ch.len() {
                assert(c.take(i) =~= ch);
                assert(c[i] == c.take(ch2.len() as int)[i]);
                assert(c[i] == next[0]);
                assert(next =~= seq![next[0]]);
            }
        }
    }
}

/// The chain a walk over verified heads gives is linked: each head is the
/// one distinct verified head that extends the heads before it (the first a
/// genesis head), and no verified head extends the last.
pub proof fn lemma_head_chain_links(d: Seq<HeadLink>, c: Seq<HeadLink>)
    requires
        walk_heads(d, Seq::empty()) == Ok::<Seq<HeadLink>, (nat, nat)>(c),
    ensures
        forall|i: int| 0 <= i < c.len() ==> #[trigger] successors(d, last_head(c.take(i))) == seq![c[i]],
        forall|i: int| 0 <= i < c.len() ==> extends(last_head(c.take(i)), #[trigger] c[i]),
        successors(d, last_head(c)).len() == 0,
{
    lemma_walk_heads_links(d, Seq::empty(), c);
    assert forall|i: int| 0 <= i < c.len() implies extends(last_head(c.take(i)), #[trigger] c[i]) by {
        assert(successors(d, last_head(c.take(i))) == seq![c[i]]);
        lemma_successors_extend(d, last_head(c.take(i)));
        assert(successors(d, last_head(c.take(i)))[0] == c[i]);
    }
}

proof fn lemma_child_has_first(a: Seq<([u8; 32], [u8; 32])>, cursor: [u8; 32], i: int)
    requires
        0 <= i < a.len(),
        a[i].0@ == cursor@,
    ensures
        is_first_child(a, cursor, first_child(a, cursor)),
    decreases i,
{
    if exists|j: int| 0 <= j < i && (#[trigger] a[j]).0@ == cursor@ {
        let j = choose|j: int| 0 <= j < i && (#[trigger] a[j]).0@ == cursor@;
        lemma_child_has_first(a, cursor, j);
    } else {
        assert(is_first_child(a, cursor, i));
    }
}

proof fn lemma_ancestry_walk_links(
    a: Seq<([u8; 32], [u8; 32])>,
    cursor: [u8; 32],
    current: [u8; 32],
    steps: Seq<usize>,
    s: Seq<usize>,
)
    requires
        a.len() <= usize::MAX,
        ancestry_walk(a, cursor, current, steps) == Ok::<Seq<usize>, AncestryStop>(s),
    ensures
        steps.len() < s.len(),
        s.take(steps.len() as int) == steps,
        forall|k: int| steps.len() <= k < s.len() ==> 0 <= #[trigger] s[k] < a.len(),
        a[s[steps.len() as int] as int].0@ == cursor@,
        forall|k: int| steps.len() < k < s.len() ==> a[#[trigger] s[k] as int].0@ == a[s[k - 1] as int].1@,
        a[s.last() as int].1@ == current@,
    decreases (if steps.len() <= a.len() { a.len() - steps.len() } else { 0 }),
{
    let i = choose|i: int| 0 <= i < a.len() && (#[trigger] a[i]).0@ == cursor@;
    lemma_child_has_first(a, cursor, i);
    let f = first_child(a, cursor);
    let next = steps.push(f as usize);
    assert((f as usize) as int == f);
    if a[f].1@ == current@ {
        assert(s == next);
        assert(s[steps.len() as int] == f as usize);
        assert(s.take(steps.len() as int) =~= steps);
    } else {
        lemma_ancestry_walk_links(a, a[f].1, current, next, s);
        assert(s.take(steps.len() as int) =~= next.take(steps.len() as int));
        assert(next.take(steps.len() as int) =~= steps);
        assert(s[steps.len() as int] == s.take(next.len() as int)[steps.len() as int]);
        assert(s[steps.len() as int] == f as usize);
        assert forall|k: int| steps.len() < k < s.len() implies a[#[trigger] s[k] as int].0@ == a[s[k - 1] as int].1@ by {
            if k == next.len() {
                assert(s[k - 1] == f as usize);
            }
        }
    }
}

/// The ancestry a walk gives is a path: its first state extends the floor,
/// each next state extends the tip of the one before, and the last reaches
/// the current tip.
pub proof fn lemma_ancestry_walk_is_a_path(a: Seq<([u8; 32], [u8; 32])>, floor_tip: [u8; 32], current_tip: [u8; 32], s: Seq<usize>)
    requires
        a.len() <= usize::MAX,
        ancestry_walk(a, floor_tip, current_tip, Seq::empty()) == Ok::<Seq<usize>, AncestryStop>(s),
    ensures
        s.len() > 0,
        forall|k: int| 0 <= k < s.len() ==> 0 <= #[trigger] s[k] < a.len(),
        a[s[0] as int].0@ == floor_tip@,
        forall|k: int| 0 < k < s.len() ==> a[#[trigger] s[k] as int].0@ == a[s[k - 1] as int].1@,
        a[s.last() as int].1@ == current_tip@,
{
    lemma_ancestry_walk_links(a, floor_tip, current_tip, Seq::empty(), s);
}

} // verus!
