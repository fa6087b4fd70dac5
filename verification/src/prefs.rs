//! The app's named string settings, as the session layer reads and writes
//! them: an append-only log in which the latest write of a key is its value.
//! The store can be closed to writes (the platform's store is not writable):
//! a write then fails and changes nothing.

use vstd::prelude::*;
use crate::bytes::str_eq;
use crate::error::SdkError;

verus! {

/// Named string settings.
pub struct PrefStore {
    entries: Vec<(String, String)>,
    writable: bool,
}

/// The settings a log of writes leaves: each key maps to its latest value.
pub open spec fn log_map(s: Seq<(String, String)>) -> Map<Seq<char>, Seq<char>>
    decreases s.len(),
{
    if s.len() == 0 {
        Map::empty()
    } else {
        log_map(s.drop_last()).insert(s.last().0@, s.last().1@)
    }
}

proof fn lemma_log_map_suffix(s: Seq<(String, String)>, i: int, k: Seq<char>)
    requires
        0 <= i <= s.len(),
        forall|j: int| i <= j < s.len() ==> (#[trigger] s[j]).0@ != k,
    ensures
        log_map(s).contains_key(k) == log_map(s.subrange(0, i)).contains_key(k),
        log_map(s)[k] == log_map(s.subrange(0, i))[k],
    decreases s.len() - i,
{
    if i < s.len() {
        assert(s.drop_last().len() == s.len() - 1);
        assert forall|j: int| i <= j < s.drop_last().len() implies (#[trigger] s.drop_last()[j]).0@ != k by {
            assert(s.drop_last()[j] == s[j]);
        }
        lemma_log_map_suffix(s.drop_last(), i, k);
        assert(s.drop_last().subrange(0, i) =~= s.subrange(0, i));
        assert(s.last() == s[s.len() - 1]);
    } else {
        assert(s.subrange(0, i) =~= s);
    }
}

impl View for PrefStore {
    type V = Map<Seq<char>, Seq<char>>;

    closed spec fn view(&self) -> Map<Seq<char>, Seq<char>> {
        log_map(self.entries@)
    }
}

impl PrefStore {
    /// A store holding no setting.
    pub fn new() -> (r: PrefStore)
        ensures
            r@ == Map::<Seq<char>, Seq<char>>::empty(),
            r.writable(),
    {
        PrefStore { entries: Vec::new(), writable: true }
    }

    /// Whether writes are taken.
    pub closed spec fn writable(&self) -> bool {
        self.writable
    }

    /// Whether writes are taken.
    pub fn is_writable(&self) -> (r: bool)
        ensures
            r == self.writable(),
    {
        self.writable
    }

    /// Open the store to writes, or close it: what the platform's store
    /// reports. The settings stay.
    pub fn set_writable(&mut self, writable: bool)
        ensures
            final(self)@ == old(self)@,
            final(self).writable() == writable,
    {
        self.writable = writable;
    }

    /// The value stored at `key`, if any.
    pub fn get_pref(&self, key: &str) -> (r: Option<String>)
        ensures
            r is Some <==> self@.contains_key(key@),
            r matches Some(v) ==> v@ == self@[key@],
    {
        let mut i: usize = self.entries.len();
        while i > 0
            invariant
                i <= self.entries@.len(),
                forall|j: int| i <= j < self.entries@.len() ==> (#[trigger] self.entries@[j]).0@ != key@,
            decreases i,
        {
            let found = str_eq(self.entries[i - 1].0.as_str(), key);
            if found {
                proof {
                    let s = self.entries@;
                    lemma_log_map_suffix(s, i as int, key@);
                    assert(s.subrange(0, i as int).drop_last() =~= s.subrange(0, i - 1));
                    assert(s.subrange(0, i as int).last() == s[i - 1]);
                }
                return Some(self.entries[i - 1].1.clone());
            }
            i = i - 1;
        }
        proof {
            lemma_log_map_suffix(self.entries@, 0, key@);
            assert(self.entries@.subrange(0, 0) =~= Seq::<(String, String)>::empty());
        }
        None
    }

    /// Store `value` at `key`; refused, with nothing changed, while the store
    /// is closed to writes.
    pub fn set_pref(&mut self, key: &str, value: &str) -> (r: Result<(), SdkError>)
        ensures
            r is Ok <==> old(self).writable(),
            old(self).writable() ==> final(self)@ == old(self)@.insert(key@, value@),
            !old(self).writable() ==> final(self)@ == old(self)@,
            r matches Err(e) ==> e is Storage && e.spec_detail() == prefs_refusal(key@),
            final(self).writable() == old(self).writable(),
    {
        if !self.writable {
            let mut m = String::from_str("settings store is not writable: cannot store ");
            m.append(key);
            return Err(SdkError::Storage(m));
        }
        let k = String::from_str(key);
        let v = String::from_str(value);
        self.entries.push((k, v));
        proof {
            let s = self.entries@;
            assert(s.drop_last() =~= old(self).entries@);
        }
        Ok(())
    }
}

/// The refusal of a write of `key` to a store closed to writes.
pub open spec fn prefs_refusal(key: Seq<char>) -> Seq<char> {
    "settings store is not writable: cannot store "@ + key
}

} // verus!
