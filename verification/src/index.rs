//! The in-memory index: an association list from key bytes to the file
//! offset of the key's most recent record.

use vstd::prelude::*;
use vstd::slice::slice_to_vec;
use crate::bytes::bytes_eq;

verus! {

/// The mathematical views of a sequence of owned entries.
pub open spec fn entry_views(s: Seq<(Vec<u8>, u64)>) -> Seq<(Seq<u8>, u64)> {
    s.map_values(|p: (Vec<u8>, u64)| (p.0@, p.1))
}

/// The mapping that an entry list denotes; a later entry for a key
/// overrides an earlier one.
pub open spec fn assoc_map(s: Seq<(Seq<u8>, u64)>) -> Map<Seq<u8>, u64>
    decreases s.len(),
{
    if s.len() == 0 {
        Map::empty()
    } else {
        assoc_map(s.drop_last()).insert(s.last().0, s.last().1)
    }
}

/// A key is in the mapping exactly when some entry holds it.
pub proof fn lemma_assoc_map_contains(s: Seq<(Seq<u8>, u64)>, key: Seq<u8>)
    ensures
        assoc_map(s).contains_key(key) <==> exists|i: int| 0 <= i < s.len() && s[i].0 == key,
    decreases s.len(),
{
    if s.len() > 0 {
        lemma_assoc_map_contains(s.drop_last(), key);
        if s.last().0 == key {
            assert(s[s.len() - 1].0 == key);
        } else if assoc_map(s).contains_key(key) {
            let i = choose|i: int| 0 <= i < s.drop_last().len() && s.drop_last()[i].0 == key;
            assert(s[i].0 == key);
        } else {
            assert forall|i: int| 0 <= i < s.len() implies s[i].0 != key by {
                if i < s.len() - 1 {
                    assert(s.drop_last()[i] == s[i]);
                }
            }
        }
    }
}

/// The mapping takes a key's value from the last entry that holds the key.
pub proof fn lemma_assoc_map_found(s: Seq<(Seq<u8>, u64)>, i: int, key: Seq<u8>)
    requires
        0 <= i < s.len(),
        s[i].0 == key,
        forall|j: int| i < j < s.len() ==> s[j].0 != key,
    ensures
        assoc_map(s).contains_key(key),
        assoc_map(s)[key] == s[i].1,
    decreases s.len(),
{
    if i == s.len() - 1 {
        assert(s.last().0 == key);
    } else {
        assert(s.drop_last()[i] == s[i]);
        assert forall|j: int| i < j < s.drop_last().len() implies s.drop_last()[j].0 != key by {
            assert(s.drop_last()[j] == s[j]);
        }
        lemma_assoc_map_found(s.drop_last(), i, key);
        assert(s.last().0 != key);
    }
}

/// Removing the only entry that holds a key removes the key from the mapping.
pub proof fn lemma_assoc_map_remove(s: Seq<(Seq<u8>, u64)>, i: int, key: Seq<u8>)
    requires
        0 <= i < s.len(),
        s[i].0 == key,
        forall|j: int| 0 <= j < s.len() && j != i ==> s[j].0 != key,
    ensures
        assoc_map(s.remove(i)) == assoc_map(s).remove(key),
    decreases s.len(),
{
    if i == s.len() - 1 {
        assert(s.remove(i) =~= s.drop_last());
        lemma_assoc_map_contains(s.drop_last(), key);
        assert forall|j: int| 0 <= j < s.drop_last().len() implies s.drop_last()[j].0 != key by {
            assert(s.drop_last()[j] == s[j]);
        }
        assert(!assoc_map(s.drop_last()).contains_key(key));
        assert(assoc_map(s).remove(key) =~= assoc_map(s.drop_last()));
    } else {
        assert(s.remove(i).drop_last() =~= s.drop_last().remove(i));
        assert(s.remove(i).last() == s.last());
        assert(s.drop_last()[i] == s[i]);
        assert forall|j: int|
            0 <= j < s.drop_last().len() && j != i implies s.drop_last()[j].0 != key by {
            assert(s.drop_last()[j] == s[j]);
        }
        lemma_assoc_map_remove(s.drop_last(), i, key);
        assert(s.last().0 != key);
        assert(assoc_map(s.drop_last()).remove(key).insert(s.last().0, s.last().1)
            =~= assoc_map(s).remove(key));
    }
}

/// The in-memory index. Each key appears in at most one entry.
pub struct LogIndex {
    entries: Vec<(Vec<u8>, u64)>,
}

impl View for LogIndex {
    type V = Map<Seq<u8>, u64>;

    closed spec fn view(&self) -> Map<Seq<u8>, u64> {
        assoc_map(entry_views(self.entries@))
    }
}

impl LogIndex {
    /// No two entries hold the same key.
    pub closed spec fn wf(&self) -> bool {
        forall|i: int, j: int|
            0 <= i < j < self.entries@.len() ==> self.entries@[i].0@ != self.entries@[j].0@
    }

    /// The entry list behind this index, for serialization.
    pub fn entries_ref(&self) -> (r: &Vec<(Vec<u8>, u64)>)
        ensures
            assoc_map(entry_views(r@)) == self@,
    {
        &self.entries
    }

    /// An empty index.
    pub fn new() -> (r: LogIndex)
        ensures
            r@ == Map::<Seq<u8>, u64>::empty(),
            r.wf(),
    {
        let r = LogIndex { entries: Vec::new() };
        proof {
            assert(entry_views(r.entries@) =~= Seq::<(Seq<u8>, u64)>::empty());
        }
        r
    }

    /// The offset stored for `key`, if any.
    pub fn get(&self, key: &[u8]) -> (r: Option<u64>)
        ensures
            match r {
                Some(off) => self@.contains_key(key@) && self@[key@] == off,
                None => !self@.contains_key(key@),
            },
    {
        lookup_entries(&self.entries, key)
    }

    /// Sets the offset stored for `key`, replacing any earlier entry.
    pub fn insert(&mut self, key: &[u8], off: u64)
        requires
            old(self).wf(),
        ensures
            final(self).wf(),
            final(self)@ == old(self)@.insert(key@, off),
    {
        self.remove(key);
        let ghost vs = entry_views(self.entries@);
        proof {
            lemma_assoc_map_contains(vs, key@);
            assert(forall|j: int| 0 <= j < vs.len() ==> vs[j].0 != key@);
        }
        self.entries.push((slice_to_vec(key), off));
        proof {
            assert(entry_views(self.entries@) =~= vs.push((key@, off)));
            assert(vs.push((key@, off)).drop_last() =~= vs);
            assert(self@ =~= old(self)@.insert(key@, off));
            assert forall|i: int, j: int|
                0 <= i < j < self.entries@.len() implies self.entries@[i].0@
                != self.entries@[j].0@ by {
                if j == self.entries@.len() - 1 {
                    assert(vs[i].0 != key@);
                }
            }
        }
    }

    /// Removes the entry for `key`, if there is one.
    pub fn remove(&mut self, key: &[u8])
        requires
            old(self).wf(),
        ensures
            final(self).wf(),
            final(self)@ == old(self)@.remove(key@),
    {
        let ghost vs = entry_views(self.entries@);
        let n = self.entries.len();
        let mut i: usize = 0;
        while i < n
            invariant
                i <= n,
                n == self.entries@.len(),
                vs == entry_views(self.entries@),
                self.wf(),
                self@ == assoc_map(vs),
                old(self)@ == assoc_map(vs),
                forall|j: int| 0 <= j < i ==> self.entries@[j].0@ != key@,
            decreases n - i,
        {
            if bytes_eq(self.entries[i].0.as_slice(), key) {
                proof {
                    assert(vs[i as int].0 == key@);
                    assert forall|j: int|
                        0 <= j < vs.len() && j != i implies vs[j].0 != key@ by {
                        if j < i as int {
                            assert(self.entries@[j].0@ != key@);
                        } else {
                            assert(self.entries@[i as int].0@ != self.entries@[j].0@);
                        }
                    }
                    lemma_assoc_map_remove(vs, i as int, key@);
                }
                let ghost pre = self.entries@;
                let _ = self.entries.remove(i);
                proof {
                    assert(entry_views(self.entries@) =~= vs.remove(i as int));
                    assert forall|a: int, b: int|
                        0 <= a < b < self.entries@.len() implies self.entries@[a].0@
                        != self.entries@[b].0@ by {
                        let oa: int = if a < i as int { a } else { a + 1 };
                        let ob: int = if b < i as int { b } else { b + 1 };
                        assert(self.entries@[a] == pre[oa]);
                        assert(self.entries@[b] == pre[ob]);
                    }
                }
                return ;
            }
            i += 1;
        }
        proof {
            lemma_assoc_map_contains(vs, key@);
            assert(!self@.contains_key(key@));
            assert(self@ =~= self@.remove(key@));
        }
    }
}

/// The offset that a raw entry list stores for `key`, if any: the last
/// entry for the key wins.
pub fn lookup_entries(entries: &Vec<(Vec<u8>, u64)>, key: &[u8]) -> (r: Option<u64>)
    ensures
        match r {
            Some(off) => assoc_map(entry_views(entries@)).contains_key(key@) && assoc_map(
                entry_views(entries@),
            )[key@] == off,
            None => !assoc_map(entry_views(entries@)).contains_key(key@),
        },
{
    let ghost vs = entry_views(entries@);
    let mut i: usize = entries.len();
    while i > 0
        invariant
            i <= entries@.len(),
            vs == entry_views(entries@),
            forall|j: int| i <= j < vs.len() ==> vs[j].0 != key@,
        decreases i,
    {
        i -= 1;
        if bytes_eq(entries[i].0.as_slice(), key) {
            proof {
                assert(vs[i as int].0 == key@);
                lemma_assoc_map_found(vs, i as int, key@);
            }
            return Some(entries[i].1);
        }
        proof {
            assert(vs[i as int].0 != key@);
        }
    }
    proof {
        lemma_assoc_map_contains(vs, key@);
    }
    None
}

} // verus!
