//! Recovery objects on the network's pinned set: a member stores every entry
//! it is sent, so a read gathers every distinct entry any member holds and
//! the caller keeps what verifies.

use vstd::prelude::*;
use crate::bytes::{bytes_eq, copy_bytes};
use crate::error::{SdkError, text};

verus! {

pub open spec fn entry_views(v: Vec<Vec<u8>>) -> Seq<Seq<u8>> {
    v@.map_values(|e: Vec<u8>| e@)
}

/// Every entry the members that answered hold, members in set order and
/// each member's entries in arrival order.
pub open spec fn answered_entries(reads: Seq<Option<Vec<Vec<u8>>>>) -> Seq<Seq<u8>>
    decreases reads.len(),
{
    if reads.len() == 0 {
        Seq::empty()
    } else {
        answered_entries(reads.drop_last()) + match reads.last() {
            Some(v) => entry_views(v),
            None => Seq::empty(),
        }
    }
}

/// `s` with every repeat of an earlier element removed.
pub open spec fn dedup_first(s: Seq<Seq<u8>>) -> Seq<Seq<u8>>
    decreases s.len(),
{
    if s.len() == 0 {
        Seq::empty()
    } else {
        let d = dedup_first(s.drop_last());
        if d.contains(s.last()) {
            d
        } else {
            d.push(s.last())
        }
    }
}

pub open spec fn no_member_answered(reads: Seq<Option<Vec<Vec<u8>>>>) -> bool {
    forall|i: int| 0 <= i < reads.len() ==> (#[trigger] reads[i]) is None
}

proof fn lemma_answered_push(prefix: Seq<Option<Vec<Vec<u8>>>>, last: Option<Vec<Vec<u8>>>)
    ensures
        answered_entries(prefix.push(last)) == answered_entries(prefix) + match last {
            Some(v) => entry_views(v),
            None => Seq::<Seq<u8>>::empty(),
        },
{
    assert(prefix.push(last).drop_last() =~= prefix);
}

/// Every distinct entry any member holds in a cell, from each member's
/// answer (`None` for a member that did not answer): an error when no member
/// answered, an empty list when those that answered hold nothing there.
pub fn merge_cell_reads(reads: &Vec<Option<Vec<Vec<u8>>>>) -> (r: Result<Vec<Vec<u8>>, SdkError>)
    ensures
        r is Err <==> no_member_answered(reads@),
        r matches Err(e) ==> e is Network && e.spec_detail()
            == "recovery store: no member of the pinned set answered the read"@,
        r matches Ok(out) ==> entry_views(out) == dedup_first(answered_entries(reads@)),
{
    let mut any = false;
    let mut out: Vec<Vec<u8>> = Vec::new();
    let mut i: usize = 0;
    while i < reads.len()
        invariant
            i <= reads@.len(),
            any == !no_member_answered(reads@.subrange(0, i as int)),
            entry_views(out) == dedup_first(answered_entries(reads@.subrange(0, i as int))),
        decreases reads@.len() - i,
    {
        proof {
            lemma_answered_push(reads@.subrange(0, i as int), reads@[i as int]);
            assert(reads@.subrange(0, i + 1) =~= reads@.subrange(0, i as int).push(reads@[i as int]));
        }
        match &reads[i] {
            None => {
                proof {
                    assert(answered_entries(reads@.subrange(0, i + 1)) =~= answered_entries(reads@.subrange(0, i as int)));
                    if !any {
                        assert(no_member_answered(reads@.subrange(0, i + 1)));
                    } else {
                        let w = choose|k: int| 0 <= k < i && !(reads@.subrange(0, i as int)[k] is None);
                        assert(reads@.subrange(0, i + 1)[w] == reads@.subrange(0, i as int)[w]);
                    }
                }
            },
            Some(held) => {
                let ghost base = answered_entries(reads@.subrange(0, i as int));
                let mut j: usize = 0;
                while j < held.len()
                    invariant
                        j <= held@.len(),
                        entry_views(out) == dedup_first(base + entry_views(*held).subrange(0, j as int)),
                    decreases held@.len() - j,
                {
                    let entry = &held[j];
                    let mut k: usize = 0;
                    let mut seen = false;
                    while k < out.len()
                        invariant
                            k <= out@.len(),
                            seen == exists|m: int| 0 <= m < k && out@[m]@ == entry@,
                        decreases out@.len() - k,
                    {
                        if bytes_eq(out[k].as_slice(), entry.as_slice()) {
                            seen = true;
                        }
                        k = k + 1;
                    }
                    proof {
                        let pre = base + entry_views(*held).subrange(0, j as int);
                        let post = base + entry_views(*held).subrange(0, j + 1);
                        assert(post =~= pre.push(entry@));
                        assert(post.drop_last() =~= pre);
                        if seen {
                            let m = choose|m: int| 0 <= m < k && out@[m]@ == entry@;
                            assert(entry_views(out)[m] == entry@);
                            assert(dedup_first(pre).contains(entry@));
                        } else {
                            assert forall|m: int| 0 <= m < dedup_first(pre).len() implies dedup_first(pre)[m] != entry@ by {
                                assert(entry_views(out)[m] == out@[m]@);
                            }
                            assert(!dedup_first(pre).contains(entry@));
                        }
                    }
                    if !seen {
                        let ghost prev = entry_views(out);
                        out.push(copy_bytes(entry.as_slice()));
                        proof {
                            assert(entry_views(out) =~= prev.push(entry@));
                        }
                    }
                    j = j + 1;
                }
                proof {
                    assert(entry_views(*held).subrange(0, held@.len() as int) =~= entry_views(*held));
                }
                any = true;
                proof {
                    assert(reads@.subrange(0, i + 1)[i as int] is Some);
                }
            },
        }
        i = i + 1;
    }
    assert(reads@.subrange(0, reads@.len() as int) =~= reads@);
    if !any {
        return Err(SdkError::Network(text("recovery store: no member of the pinned set answered the read")));
    }
    Ok(out)
}

/// A put is established when at least one member took the write; none taking
/// it is an error.
pub fn check_put_taken(took: u32) -> (r: Result<u32, SdkError>)
    ensures
        took == 0 ==> (r matches Err(e) && e is Network && e.spec_detail()
            == "recovery store: no member of the pinned set took the write"@),
        took > 0 ==> r == Ok::<u32, SdkError>(took),
{
    if took == 0 {
        return Err(SdkError::Network(text("recovery store: no member of the pinned set took the write")));
    }
    Ok(took)
}

} // verus!
