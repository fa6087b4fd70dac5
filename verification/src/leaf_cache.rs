//! The economic leaf cache: entries `(key, leaf value, leaf state bytes)`
//! kept in ascending key order with one entry per key, and the cache a
//! resolved position leaves once the states it wrote are applied.

use vstd::prelude::*;
use crate::bytes::copy_bytes;

verus! {

/// A 32-byte key.
pub type Key32 = [u8; 32];

/// One cache entry: the leaf key, the leaf value, and the encoded leaf state.
pub type LeafEntry = ([u8; 32], [u8; 32], Vec<u8>);

/// A state a resolution wrote for a key: the new value and state bytes, or
/// `None` when the leaf is removed.
pub type PostState = ([u8; 32], Option<([u8; 32], Vec<u8>)>);

/// Byte-wise lexicographic order on keys: `a` comes before `b` when they
/// first differ at an index where `a`'s byte is smaller.
pub open spec fn key_lt(a: [u8; 32], b: [u8; 32]) -> bool {
    exists|i: int| 0 <= i < 32 && a@[i] < b@[i] && forall|j: int| 0 <= j < i ==> a@[j] == b@[j]
}

proof fn lemma_key_lt_irreflexive(a: [u8; 32])
    ensures
        !key_lt(a, a),
{
}

proof fn lemma_key_lt_transitive(a: [u8; 32], b: [u8; 32], c: [u8; 32])
    requires
        key_lt(a, b),
        key_lt(b, c),
    ensures
        key_lt(a, c),
{
    let i = choose|i: int| 0 <= i < 32 && a@[i] < b@[i] && forall|j: int| 0 <= j < i ==> a@[j] == b@[j];
    let k = choose|k: int| 0 <= k < 32 && b@[k] < c@[k] && forall|j: int| 0 <= j < k ==> b@[j] == c@[j];
    if i < k {
        assert(a@[i] < c@[i]);
        assert(forall|j: int| 0 <= j < i ==> a@[j] == c@[j]);
    } else if k < i {
        assert(a@[k] < c@[k]);
        assert(forall|j: int| 0 <= j < k ==> a@[j] == c@[j]);
    } else {
        assert(a@[i] < c@[i]);
        assert(forall|j: int| 0 <= j < i ==> a@[j] == c@[j]);
    }
}

proof fn lemma_key_lt_asymmetric(a: [u8; 32], b: [u8; 32])
    requires
        key_lt(a, b),
    ensures
        !key_lt(b, a),
{
    if key_lt(b, a) {
        lemma_key_lt_transitive(a, b, a);
        lemma_key_lt_irreflexive(a);
    }
}

/// The order on keys as a comparison: `-1`, `0` or `1`.
pub fn compare_keys(a: &[u8; 32], b: &[u8; 32]) -> (r: i8)
    ensures
        r == 0 <==> a == b,
        r < 0 <==> key_lt(*a, *b),
        r > 0 <==> key_lt(*b, *a),
        -1 <= r <= 1,
{
    let mut i: usize = 0;
    while i < 32
        invariant
            i <= 32,
            forall|j: int| 0 <= j < i ==> a@[j] == b@[j],
        decreases 32 - i,
    {
        if a[i] < b[i] {
            proof {
                lemma_key_lt_asymmetric(*a, *b);
                assert(a@[i as int] != b@[i as int]);
            }
            return -1;
        }
        if a[i] > b[i] {
            proof {
                assert(key_lt(*b, *a));
                lemma_key_lt_asymmetric(*b, *a);
                assert(a@[i as int] != b@[i as int]);
            }
            return 1;
        }
        i = i + 1;
    }
    assert(a@ =~= b@);
    assert(*a =~= *b);
    proof {
        lemma_key_lt_irreflexive(*a);
    }
    0
}

/// The content of an entry, by value.
pub open spec fn entry_view(e: LeafEntry) -> (Key32, Key32, Seq<u8>) {
    (e.0, e.1, e.2@)
}

/// Keys strictly ascending: one entry per key, in key order.
pub open spec fn strictly_sorted(s: Seq<LeafEntry>) -> bool {
    forall|i: int, j: int| 0 <= i < j < s.len() ==> key_lt(#[trigger] s[i].0, #[trigger] s[j].0)
}

/// `s` holds exactly the map `m`: each entry states its key's binding, and
/// each key of `m` has an entry.
pub open spec fn represents(s: Seq<LeafEntry>, m: Map<Key32, (Key32, Seq<u8>)>) -> bool {
    &&& strictly_sorted(s)
    &&& forall|i: int| #![trigger s[i]] 0 <= i < s.len() ==> (m.contains_key(s[i].0) && m[s[i].0] == (s[i].1, s[i].2@))
    &&& forall|k: Key32| #[trigger] m.contains_key(k) ==> exists|i: int| 0 <= i < s.len() && s[i].0 == k
}

/// The map a list of entries collects into, a later entry for a key
/// replacing an earlier one.
pub open spec fn collected(entries: Seq<LeafEntry>) -> Map<Key32, (Key32, Seq<u8>)>
    decreases entries.len(),
{
    if entries.len() == 0 {
        Map::empty()
    } else {
        collected(entries.drop_last()).insert(
            entries.last().0,
            (entries.last().1, entries.last().2@),
        )
    }
}

/// `m` with the written states applied in order: a state replaces its key's
/// binding, a removal drops it.
pub open spec fn applied(m: Map<Key32, (Key32, Seq<u8>)>, post: Seq<PostState>) -> Map<Key32, (Key32, Seq<u8>)>
    decreases post.len(),
{
    if post.len() == 0 {
        m
    } else {
        let before = applied(m, post.drop_last());
        match post.last().1 {
            Some(st) => before.insert(post.last().0, (st.0, st.1@)),
            None => before.remove(post.last().0),
        }
    }
}

/// The first index whose key is not below `k` (the length when none is).
fn lower_bound(s: &Vec<LeafEntry>, k: &[u8; 32]) -> (r: usize)
    requires
        strictly_sorted(s@),
    ensures
        r <= s@.len(),
        forall|i: int| 0 <= i < r ==> key_lt(#[trigger] s@[i].0, *k),
        r < s@.len() ==> !key_lt(s@[r as int].0, *k),
{
    let mut i: usize = 0;
    while i < s.len()
        invariant
            i <= s@.len(),
            forall|j: int| 0 <= j < i ==> key_lt(#[trigger] s@[j].0, *k),
        decreases s@.len() - i,
    {
        if compare_keys(&s[i].0, k) >= 0 {
            return i;
        }
        i = i + 1;
    }
    i
}

proof fn lemma_not_lt_sorted_after(s: Seq<LeafEntry>, p: int, k: Key32)
    requires
        strictly_sorted(s),
        0 <= p < s.len(),
        !key_lt(s[p].0, k),
    ensures
        forall|i: int| p < i < s.len() ==> key_lt(k, #[trigger] s[i].0),
{
    assert forall|i: int| p < i < s.len() implies key_lt(k, #[trigger] s[i].0) by {
        assert(key_lt(s[p].0, s[i].0));
        if s[p].0 == k {
        } else {
            // not below and not equal: above
            lemma_total(s[p].0, k);
            lemma_key_lt_transitive(k, s[p].0, s[i].0);
        }
    }
}

proof fn lemma_total_from(a: Key32, b: Key32, i: int)
    requires
        0 <= i <= 32,
        forall|j: int| 0 <= j < i ==> a@[j] == b@[j],
    ensures
        a == b || key_lt(a, b) || key_lt(b, a),
    decreases 32 - i,
{
    if i == 32 {
        assert(a =~= b);
    } else if a@[i] < b@[i] {
        assert(key_lt(a, b));
    } else if a@[i] > b@[i] {
        assert(key_lt(b, a));
    } else {
        lemma_total_from(a, b, i + 1);
    }
}

proof fn lemma_total(a: Key32, b: Key32)
    ensures
        a == b || key_lt(a, b) || key_lt(b, a),
{
    lemma_total_from(a, b, 0);
}

proof fn lemma_represents_entry(s: Seq<LeafEntry>, m: Map<Key32, (Key32, Seq<u8>)>, i: int)
    requires
        represents(s, m),
        0 <= i < s.len(),
    ensures
        m.contains_key(s[i].0),
        m[s[i].0] == (s[i].1, s[i].2@),
{
}

/// Put `e` into the sorted entries: replace the entry of its key, or insert
/// it where its key belongs.
#[verifier::spinoff_prover]
fn upsert(s: &mut Vec<LeafEntry>, e: LeafEntry, Ghost(m): Ghost<Map<Key32, (Key32, Seq<u8>)>>)
    requires
        represents(old(s)@, m),
    ensures
        represents(final(s)@, m.insert(e.0, (e.1, e.2@))),
{
    let ghost e_view = (e.1, e.2@);
    let ghost m2 = m.insert(e.0, e_view);
    let p = lower_bound(s, &e.0);
    let same = p < s.len() && compare_keys(&s[p].0, &e.0) == 0;
    if same {
        let ghost old_s = s@;
        assert(old_s == old(s)@);
        assert(represents(old_s, m));
        s.set(p, e);
        proof {
            assert forall|i: int, j: int| 0 <= i < j < s@.len() implies key_lt(#[trigger] s@[i].0, #[trigger] s@[j].0) by {
                assert(key_lt(old_s[i].0, old_s[j].0));
            }
            assert forall|i: int| 0 <= i < s@.len() implies #[trigger] m2.contains_key(s@[i].0) && m2[s@[i].0] == (
            s@[i].1, s@[i].2@) by {
                if i != p {
                    if i < p {
                        assert(key_lt(old_s[i].0, old_s[p as int].0));
                    } else {
                        assert(key_lt(old_s[p as int].0, old_s[i].0));
                    }
                    lemma_key_lt_irreflexive(e.0);
                    assert(old_s[i].0 != e.0);
                    assert(s@[i] == old_s[i]);
                    lemma_represents_entry(old_s, m, i);
                } else {
                    assert(s@[i] == e);
                }
            }
            assert forall|k: Key32| #[trigger] m2.contains_key(k) implies exists|i: int|
                0 <= i < s@.len() && s@[i].0 == k by {
                if k == e.0 {
                    assert(s@[p as int].0 == k);
                } else {
                    assert(m.contains_key(k));
                    let i = choose|i: int| 0 <= i < old_s.len() && old_s[i].0 == k;
                    assert(s@[i].0 == k);
                }
            }
        }
    } else {
        let ghost old_s = s@;
        proof {
            if p < old_s.len() {
                lemma_total(old_s[p as int].0, e.0);
                assert(key_lt(e.0, old_s[p as int].0));
                lemma_not_lt_sorted_after(old_s, p as int, e.0);
            }
            // the key is new: no entry holds it
            assert(!m.contains_key(e.0)) by {
                if m.contains_key(e.0) {
                    let i = choose|i: int| 0 <= i < old_s.len() && old_s[i].0 == e.0;
                    if i < p {
                        lemma_key_lt_irreflexive(e.0);
                    } else {
                        lemma_key_lt_irreflexive(e.0);
                        if i > p {
                            assert(key_lt(e.0, old_s[i].0));
                        }
                    }
                }
            }
        }
        s.insert(p, e);
        proof {
            assert(s@ == old_s.insert(p as int, e));
            assert forall|i: int, j: int| 0 <= i < j < s@.len() implies key_lt(#[trigger] s@[i].0, #[trigger] s@[j].0) by {
                if j < p {
                    assert(key_lt(old_s[i].0, old_s[j].0));
                } else if j == p {
                    assert(key_lt(old_s[i].0, e.0));
                } else if i < p {
                    assert(key_lt(old_s[i].0, e.0));
                    assert(key_lt(e.0, old_s[j - 1].0));
                    lemma_key_lt_transitive(old_s[i].0, e.0, old_s[j - 1].0);
                } else if i == p {
                    assert(key_lt(e.0, old_s[j - 1].0));
                } else {
                    assert(key_lt(old_s[i - 1].0, old_s[j - 1].0));
                }
            }
            assert forall|i: int| 0 <= i < s@.len() implies #[trigger] m2.contains_key(s@[i].0) && m2[s@[i].0] == (
            s@[i].1, s@[i].2@) by {
                if i < p {
                    assert(s@[i] == old_s[i]);
                    assert(key_lt(old_s[i].0, e.0));
                    lemma_key_lt_irreflexive(e.0);
                    assert(m.contains_key(old_s[i].0));
                } else if i > p {
                    assert(s@[i] == old_s[i - 1]);
                    assert(key_lt(e.0, old_s[i - 1].0));
                    lemma_key_lt_irreflexive(e.0);
                    assert(m.contains_key(old_s[i - 1].0));
                }
            }
            assert forall|k: Key32| #[trigger] m2.contains_key(k) implies exists|i: int|
                0 <= i < s@.len() && s@[i].0 == k by {
                if k == e.0 {
                    assert(s@[p as int].0 == k);
                } else {
                    assert(m.contains_key(k));
                    let i = choose|i: int| 0 <= i < old_s.len() && old_s[i].0 == k;
                    if i < p {
                        assert(s@[i].0 == k);
                    } else {
                        assert(s@[i + 1].0 == k);
                    }
                }
            }
        }
    }
}

/// Drop the entry of key `k`, if there is one.
#[verifier::spinoff_prover]
fn remove_key(s: &mut Vec<LeafEntry>, k: &[u8; 32], Ghost(m): Ghost<Map<Key32, (Key32, Seq<u8>)>>)
    requires
        represents(old(s)@, m),
    ensures
        represents(final(s)@, m.remove(*k)),
{
    let ghost m2 = m.remove(*k);
    let p = lower_bound(s, k);
    let same = p < s.len() && compare_keys(&s[p].0, k) == 0;
    let ghost old_s = s@;
    if same {
        s.remove(p);
        proof {
            assert(s@ == old_s.remove(p as int));
            assert forall|i: int, j: int| 0 <= i < j < s@.len() implies key_lt(#[trigger] s@[i].0, #[trigger] s@[j].0) by {
                if j < p {
                    assert(key_lt(old_s[i].0, old_s[j].0));
                } else if i < p {
                    assert(key_lt(old_s[i].0, old_s[j + 1].0));
                } else {
                    assert(key_lt(old_s[i + 1].0, old_s[j + 1].0));
                }
            }
            assert forall|i: int| 0 <= i < s@.len() implies #[trigger] m2.contains_key(s@[i].0) && m2[s@[i].0] == (
            s@[i].1, s@[i].2@) by {
                lemma_key_lt_irreflexive(*k);
                if i < p {
                    assert(key_lt(old_s[i].0, old_s[p as int].0));
                } else {
                    assert(key_lt(old_s[p as int].0, old_s[i + 1].0));
                    assert(s@[i] == old_s[i + 1]);
                }
            }
            assert forall|kk: Key32| #[trigger] m2.contains_key(kk) implies exists|i: int|
                0 <= i < s@.len() && s@[i].0 == kk by {
                assert(m.contains_key(kk));
                let i = choose|i: int| 0 <= i < old_s.len() && old_s[i].0 == kk;
                assert(i != p);
                if i < p {
                    assert(s@[i].0 == kk);
                } else {
                    assert(s@[i - 1].0 == kk);
                }
            }
        }
    } else {
        proof {
            if p < old_s.len() {
                lemma_total(old_s[p as int].0, *k);
                lemma_not_lt_sorted_after(old_s, p as int, *k);
            }
            assert(!m.contains_key(*k)) by {
                if m.contains_key(*k) {
                    let i = choose|i: int| 0 <= i < old_s.len() && old_s[i].0 == *k;
                    lemma_key_lt_irreflexive(*k);
                    if i > p {
                        assert(key_lt(*k, old_s[i].0));
                    }
                }
            }
            assert(m2 =~= m);
        }
    }
}

fn copy_entry(e: &LeafEntry) -> (r: LeafEntry)
    ensures
        r.0 == e.0,
        r.1 == e.1,
        r.2@ == e.2@,
{
    (e.0, e.1, copy_bytes(e.2.as_slice()))
}

/// The cache after a resolution: the current cache, one entry per key (a
/// later entry for a key replacing an earlier one), with each written state
/// applied in order (a new value replacing its key's entry, a removal
/// dropping it), returned in ascending key order.
pub fn post_leaf_cache(current: &Vec<LeafEntry>, post: &[PostState]) -> (r: Vec<LeafEntry>)
    ensures
        represents(r@, applied(collected(current@), post@)),
{
    let mut out: Vec<LeafEntry> = Vec::new();
    let mut i: usize = 0;
    while i < current.len()
        invariant
            i <= current@.len(),
            represents(out@, collected(current@.subrange(0, i as int))),
        decreases current@.len() - i,
    {
        let e = copy_entry(&current[i]);
        proof {
            let sub = current@.subrange(0, i + 1);
            assert(sub.drop_last() =~= current@.subrange(0, i as int));
            assert(sub.last() == current@[i as int]);
        }
        upsert(&mut out, e, Ghost(collected(current@.subrange(0, i as int))));
        i = i + 1;
    }
    assert(current@.subrange(0, current@.len() as int) =~= current@);
    let ghost base = collected(current@);
    let mut j: usize = 0;
    while j < post.len()
        invariant
            j <= post@.len(),
            base == collected(current@),
            represents(out@, applied(base, post@.subrange(0, j as int))),
        decreases post@.len() - j,
    {
        proof {
            let sub = post@.subrange(0, j + 1);
            assert(sub.drop_last() =~= post@.subrange(0, j as int));
            assert(sub.last() == post@[j as int]);
        }
        let ghost before = applied(base, post@.subrange(0, j as int));
        match &post[j].1 {
            Some(st) => {
                let e = (post[j].0, st.0, copy_bytes(st.1.as_slice()));
                upsert(&mut out, e, Ghost(before));
            },
            None => {
                remove_key(&mut out, &post[j].0, Ghost(before));
            },
        }
        j = j + 1;
    }
    assert(post@.subrange(0, post@.len() as int) =~= post@);
    out
}

proof fn lemma_represents_drop_first(s: Seq<LeafEntry>, m: Map<Key32, (Key32, Seq<u8>)>)
    requires
        represents(s, m),
        s.len() > 0,
    ensures
        represents(s.drop_first(), m.remove(s[0].0)),
{
    let t = s.drop_first();
    let m2 = m.remove(s[0].0);
    assert forall|i: int, j: int| 0 <= i < j < t.len() implies key_lt(#[trigger] t[i].0, #[trigger] t[j].0) by {
        assert(key_lt(s[i + 1].0, s[j + 1].0));
    }
    assert forall|i: int| 0 <= i < t.len() implies #[trigger] m2.contains_key(t[i].0) && m2[t[i].0] == (t[i].1, t[i].2@) by {
        assert(key_lt(s[0].0, s[i + 1].0));
        lemma_key_lt_irreflexive(s[0].0);
        assert(m.contains_key(s[i + 1].0));
    }
    assert forall|k: Key32| #[trigger] m2.contains_key(k) implies exists|i: int| 0 <= i < t.len() && t[i].0 == k by {
        assert(m.contains_key(k));
        let i = choose|i: int| 0 <= i < s.len() && s[i].0 == k;
        assert(i != 0);
        assert(t[i - 1].0 == k);
    }
}

/// A map has one representation: two key-ordered entry lists that hold the
/// same map hold the same entries in the same order. So the cache after a
/// resolution is determined by the current cache and the written states.
pub proof fn lemma_representation_is_unique(s1: Seq<LeafEntry>, s2: Seq<LeafEntry>, m: Map<Key32, (Key32, Seq<u8>)>)
    requires
        represents(s1, m),
        represents(s2, m),
    ensures
        s1.len() == s2.len(),
        forall|i: int| 0 <= i < s1.len() ==> entry_view(#[trigger] s1[i]) == entry_view(s2[i]),
    decreases s1.len(),
{
    if s1.len() == 0 {
        if s2.len() > 0 {
            assert(m.contains_key(s2[0].0));
        }
    } else {
        assert(m.contains_key(s1[0].0));
        assert(s2.len() > 0);
        assert(s1[0].0 == s2[0].0) by {
            let j = choose|j: int| 0 <= j < s2.len() && s2[j].0 == s1[0].0;
            if j > 0 {
                assert(key_lt(s2[0].0, s1[0].0));
                assert(m.contains_key(s2[0].0));
                let i = choose|i: int| 0 <= i < s1.len() && s1[i].0 == s2[0].0;
                if i > 0 {
                    assert(key_lt(s1[0].0, s1[i].0));
                    lemma_key_lt_asymmetric(s2[0].0, s1[0].0);
                } else {
                    lemma_key_lt_irreflexive(s1[0].0);
                }
            }
        }
        lemma_represents_drop_first(s1, m);
        lemma_represents_drop_first(s2, m);
        lemma_representation_is_unique(s1.drop_first(), s2.drop_first(), m.remove(s1[0].0));
        assert forall|i: int| 0 <= i < s1.len() implies entry_view(#[trigger] s1[i]) == entry_view(s2[i]) by {
            if i > 0 {
                assert(s1.drop_first()[i - 1] == s1[i]);
                assert(s2.drop_first()[i - 1] == s2[i]);
            } else {
                assert(m[s1[0].0] == (s1[0].1, s1[0].2@));
                assert(m[s2[0].0] == (s2[0].1, s2[0].2@));
            }
        }
    }
}

/// Keys strictly ascending: a set of keys in key order.
pub open spec fn keys_sorted(s: Seq<Key32>) -> bool {
    forall|i: int, j: int| 0 <= i < j < s.len() ==> key_lt(#[trigger] s[i], #[trigger] s[j])
}

/// The first index whose key is not below `k` (the length when none is).
fn key_lower_bound(s: &Vec<[u8; 32]>, k: &[u8; 32]) -> (r: usize)
    ensures
        r <= s@.len(),
        forall|i: int| 0 <= i < r ==> key_lt(#[trigger] s@[i], *k),
        r < s@.len() ==> !key_lt(s@[r as int], *k),
{
    let mut i: usize = 0;
    while i < s.len()
        invariant
            i <= s@.len(),
            forall|j: int| 0 <= j < i ==> key_lt(#[trigger] s@[j], *k),
        decreases s@.len() - i,
    {
        if compare_keys(&s[i], k) >= 0 {
            return i;
        }
        i = i + 1;
    }
    i
}

/// Add `k` to a key-ordered set of keys: nothing changes when it is there,
/// otherwise it goes where its order puts it.
pub fn insert_key_sorted(s: &mut Vec<[u8; 32]>, k: [u8; 32])
    requires
        keys_sorted(old(s)@),
    ensures
        keys_sorted(final(s)@),
        forall|x: Key32| #[trigger] final(s)@.contains(x) <==> (old(s)@.contains(x) || x == k),
{
    let ghost old_s = s@;
    assert(old_s == old(s)@);
    let p = key_lower_bound(s, &k);
    if p < s.len() && compare_keys(&s[p], &k) == 0 {
        proof {
            assert forall|x: Key32| s@.contains(x) <==> (old_s.contains(x) || x == k) by {
                if x == k {
                    assert(s@[p as int] == k);
                }
            }
        }
        return;
    }
    proof {
        if p < old_s.len() {
            lemma_total(old_s[p as int], k);
            assert(key_lt(k, old_s[p as int]));
        }
        assert forall|i: int| p < i < old_s.len() implies key_lt(k, #[trigger] old_s[i]) by {
            assert(key_lt(old_s[p as int], old_s[i]));
            lemma_key_lt_transitive(k, old_s[p as int], old_s[i]);
        }
    }
    s.insert(p, k);
    proof {
        assert(s@ == old_s.insert(p as int, k));
        assert forall|i: int, j: int| 0 <= i < j < s@.len() implies key_lt(#[trigger] s@[i], #[trigger] s@[j]) by {
            if j < p {
                assert(key_lt(old_s[i], old_s[j]));
            } else if j == p {
                assert(key_lt(old_s[i], k));
            } else if i < p {
                assert(key_lt(old_s[i], k));
                assert(key_lt(k, old_s[j - 1]));
                lemma_key_lt_transitive(old_s[i], k, old_s[j - 1]);
            } else if i == p {
                assert(key_lt(k, old_s[j - 1]));
            } else {
                assert(key_lt(old_s[i - 1], old_s[j - 1]));
            }
        }
        assert forall|x: Key32| s@.contains(x) <==> (old_s.contains(x) || x == k) by {
            if s@.contains(x) {
                let i = choose|i: int| 0 <= i < s@.len() && s@[i] == x;
                if i < p {
                    assert(old_s[i] == x);
                } else if i > p {
                    assert(old_s[i - 1] == x);
                }
            }
            if old_s.contains(x) {
                let i = choose|i: int| 0 <= i < old_s.len() && old_s[i] == x;
                if i < p {
                    assert(s@[i] == x);
                } else {
                    assert(s@[i + 1] == x);
                }
            }
            if x == k {
                assert(s@[p as int] == k);
            }
        }
        assert(forall|x: Key32| #[trigger] s@.contains(x) <==> (old(s)@.contains(x) || x == k));
    }
}

} // verus!
