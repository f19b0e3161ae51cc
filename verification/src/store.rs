//! The store: a byte log of framed records plus the in-memory index that
//! maps each key to the offset of its most recent record.
//!
//! The store itself performs no I/O. A caller hands `open` the current
//! bytes of the backing file and appends `log_bytes` growth to that file
//! after inserts; every operation in between is pure computation.

use vstd::prelude::*;
use crate::bytes::push_bytes;
use crate::codec::{decode, encode, encoded_record, spec_decode, SpecDecoded, KeyValuePair, lemma_decode_encoded};
use crate::errors::StoreError;
use crate::index::{LogIndex, assoc_map, entry_views, lookup_entries};
use crate::replay::{replay, replay_from, indexed_record, lemma_indexed_record_append, SpecReplay};
use crate::snapshot::{index_encoding_of, serialize_entries, deserialize_entries};

verus! {

/// An append-only, log-structured key-value store over an in-memory log
/// image.
pub struct ActionKV {
    log: Vec<u8>,
    index: LogIndex,
}

impl ActionKV {
    /// The bytes of the log.
    pub closed spec fn log_view(&self) -> Seq<u8> {
        self.log@
    }

    /// The mapping the in-memory index currently holds.
    pub closed spec fn index_view(&self) -> Map<Seq<u8>, u64> {
        self.index@
    }

    /// Every index entry points at a well-framed record that holds the
    /// entry's key.
    pub closed spec fn wf(&self) -> bool {
        &&& self.index.wf()
        &&& forall|k: Seq<u8>|
            #[trigger] self.index@.contains_key(k) ==> indexed_record(
                self.log@,
                k,
                self.index@[k],
            )
    }

    /// Opens a store over the given log image, with an empty index.
    /// Callers must `load` before relying on index-based lookups.
    pub fn open(initial_log: Vec<u8>) -> (s: ActionKV)
        ensures
            s.wf(),
            s.log_view() == initial_log@,
            s.index_view() == Map::<Seq<u8>, u64>::empty(),
    {
        ActionKV { log: initial_log, index: LogIndex::new() }
    }

    /// The whole log image, for a caller that persists it.
    pub fn log_bytes(&self) -> (r: &Vec<u8>)
        ensures
            r@ == self.log_view(),
    {
        &self.log
    }

    /// The number of bytes in the log.
    pub fn len(&self) -> (r: u64)
        ensures
            r == self.log_view().len(),
    {
        self.log.len() as u64
    }

    /// Discards the in-memory index and rebuilds it by replaying every
    /// record in file order; a later record for a key overwrites an
    /// earlier one. Aborts, reporting the fault, on a truncated or
    /// corrupt record.
    pub fn load(&mut self) -> (r: Result<(), StoreError>)
        ensures
            final(self).wf(),
            final(self).log_view() == old(self).log_view(),
            match replay(old(self).log_view()) {
                SpecReplay::Done { index, end: _ } => r == Ok::<(), StoreError>(())
                    && final(self).index_view() == index,
                SpecReplay::Fail(e) => r == Err::<(), StoreError>(e),
            },
    {
        self.index = LogIndex::new();
        let ghost orig = self.log@;
        proof {
            assert(replay(orig) == replay_from(orig, 0, self.index@));
        }
        let mut position: u64 = 0;
        loop
            invariant
                self.log@ == orig,
                orig == old(self).log@,
                self.index.wf(),
                position <= orig.len(),
                replay(orig) == replay_from(orig, position as int, self.index@),
                forall|k: Seq<u8>|
                    #[trigger] self.index@.contains_key(k) ==> indexed_record(
                        orig,
                        k,
                        self.index@[k],
                    ),
            decreases orig.len() - position,
        {
            match decode(self.log.as_slice(), position) {
                Ok((kv, next)) => {
                    proof {
                        assert(spec_decode(orig, position as int) matches SpecDecoded::Rec {
                            key,
                            value: _,
                            next: n,
                        } && key == kv.key@ && n == next);
                    }
                    self.index.insert(kv.key.as_slice(), position);
                    position = next;
                }
                Err(e) => {
                    match e {
                        StoreError::EndOfLog => {
                            return Ok(());
                        }
                        _ => {
                            return Err(e);
                        }
                    }
                }
            }
        }
    }

    /// Looks `key` up in the index and reads its record's value. A key
    /// the index does not hold is a miss, not an error.
    pub fn get(&self, key: &[u8]) -> (r: Result<Option<Vec<u8>>, StoreError>)
        requires
            self.wf(),
        ensures
            !self.index_view().contains_key(key@) ==> r == Ok::<Option<Vec<u8>>, StoreError>(
                None,
            ),
            self.index_view().contains_key(key@) ==> match spec_decode(
                self.log_view(),
                self.index_view()[key@] as int,
            ) {
                SpecDecoded::Rec { key: _, value, next: _ } => {
                    &&& r matches Ok(o)
                    &&& o matches Some(v)
                    &&& v@ == value
                },
                SpecDecoded::Fail(e) => r == Err::<Option<Vec<u8>>, StoreError>(e),
                SpecDecoded::End => false,
            },
    {
        match self.index.get(key) {
            None => Ok(None),
            Some(position) => {
                match decode(self.log.as_slice(), position) {
                    Ok((kv, _)) => Ok(Some(kv.value)),
                    Err(e) => Err(e),
                }
            }
        }
    }

    /// Decodes exactly one record at `position`.
    pub fn get_at(&self, position: u64) -> (r: Result<KeyValuePair, StoreError>)
        ensures
            match spec_decode(self.log_view(), position as int) {
                SpecDecoded::Rec { key, value, next: _ } => {
                    &&& r matches Ok(kv)
                    &&& kv.key@ == key
                    &&& kv.value@ == value
                },
                SpecDecoded::Fail(e) => r == Err::<KeyValuePair, StoreError>(e),
                SpecDecoded::End => r == Err::<KeyValuePair, StoreError>(StoreError::EndOfLog),
            },
    {
        match decode(self.log.as_slice(), position) {
            Ok((kv, _)) => Ok(kv),
            Err(e) => Err(e),
        }
    }

    /// Scans the whole log, ignoring the index, and returns the offset
    /// and value of the last record whose key equals `target` — scanning
    /// to end-of-file even after a match, to honour last-write-wins.
    pub fn find(&self, target: &[u8]) -> (r: Result<Option<(u64, Vec<u8>)>, StoreError>)
        ensures
            match replay(self.log_view()) {
                SpecReplay::Done { index, end: _ } => {
                    &&& index.contains_key(target@) ==> {
                        &&& r matches Ok(o)
                        &&& o matches Some(p)
                        &&& p.0 == index[target@]
                        &&& spec_decode(self.log_view(), index[target@] as int) matches
                            SpecDecoded::Rec { key: _, value, next: _ } && p.1@ == value
                    }
                    &&& !index.contains_key(target@) ==> r == Ok::<
                        Option<(u64, Vec<u8>)>,
                        StoreError,
                    >(None)
                },
                SpecReplay::Fail(e) => r == Err::<Option<(u64, Vec<u8>)>, StoreError>(e),
            },
    {
        let ghost orig = self.log@;
        let ghost mut gm: Map<Seq<u8>, u64> = Map::empty();
        let mut found: Option<(u64, Vec<u8>)> = None;
        let mut position: u64 = 0;
        loop
            invariant
                self.log@ == orig,
                position <= orig.len(),
                replay(orig) == replay_from(orig, position as int, gm),
                match found {
                    None => !gm.contains_key(target@),
                    Some(p) => {
                        &&& gm.contains_key(target@)
                        &&& gm[target@] == p.0
                        &&& spec_decode(orig, p.0 as int) matches SpecDecoded::Rec {
                            key: _,
                            value,
                            next: _,
                        } && p.1@ == value
                    },
                },
            decreases orig.len() - position,
        {
            match decode(self.log.as_slice(), position) {
                Ok((kv, next)) => {
                    if crate::bytes::bytes_eq(kv.key.as_slice(), target) {
                        found = Some((position, kv.value));
                    }
                    proof {
                        gm = gm.insert(kv.key@, position);
                    }
                    position = next;
                }
                Err(e) => {
                    match e {
                        StoreError::EndOfLog => {
                            return Ok(found);
                        }
                        _ => {
                            return Err(e);
                        }
                    }
                }
            }
        }
    }

    /// Appends one encoded record at the end of the log without touching
    /// the index, and returns the offset the record starts at.
    pub fn insert_but_ignore_index(&mut self, key: &[u8], value: &[u8]) -> (position: u64)
        requires
            old(self).wf(),
            key@.len() <= u32::MAX,
            value@.len() <= u32::MAX,
            old(self).log_view().len() + 12 + key@.len() + value@.len() <= usize::MAX,
        ensures
            final(self).wf(),
            final(self).log_view() == old(self).log_view() + encoded_record(key@, value@),
            final(self).index_view() == old(self).index_view(),
            position == old(self).log_view().len(),
    {
        let position = self.log.len() as u64;
        let rec = encode(key, value);
        push_bytes(&mut self.log, rec.as_slice());
        proof {
            assert forall|k: Seq<u8>| #[trigger]
                self.index@.contains_key(k) implies indexed_record(
                self.log@,
                k,
                self.index@[k],
            ) by {
                lemma_indexed_record_append(old(self).log@, rec@, k, self.index@[k]);
            }
        }
        position
    }

    /// Appends a new record for `(key, value)` and points the index at it.
    pub fn insert(&mut self, key: &[u8], value: &[u8])
        requires
            old(self).wf(),
            key@.len() <= u32::MAX,
            value@.len() <= u32::MAX,
            old(self).log_view().len() + 12 + key@.len() + value@.len() <= usize::MAX,
        ensures
            final(self).wf(),
            final(self).log_view() == old(self).log_view() + encoded_record(key@, value@),
            final(self).index_view() == old(self).index_view().insert(
                key@,
                old(self).log_view().len() as u64,
            ),
    {
        let position = self.insert_but_ignore_index(key, value);
        proof {
            lemma_decode_encoded(old(self).log@, key@, value@);
        }
        self.index.insert(key, position);
        proof {
            assert(indexed_record(self.log@, key@, position));
        }
    }

    /// A logical update is a new record appended under the same key: the
    /// log keeps both, and the index points at the newer one. (The public
    /// surface declares `update` without defining it further; this store
    /// gives it the append-based overwrite semantics.)
    pub fn update(&mut self, key: &[u8], value: &[u8])
        requires
            old(self).wf(),
            key@.len() <= u32::MAX,
            value@.len() <= u32::MAX,
            old(self).log_view().len() + 12 + key@.len() + value@.len() <= usize::MAX,
        ensures
            final(self).wf(),
            final(self).log_view() == old(self).log_view() + encoded_record(key@, value@),
            final(self).index_view() == old(self).index_view().insert(
                key@,
                old(self).log_view().len() as u64,
            ),
    {
        self.insert(key, value);
    }

    /// Writes a point-in-time snapshot of the index into the log as a
    /// normal record under the reserved `sentinel` key: removes any
    /// entry for `sentinel`, serializes the remaining mapping, clears
    /// the in-memory index, and appends the serialized mapping as a
    /// record for `sentinel`. Returns the snapshot record's offset.
    /// Success is owed: the call fails only when the serialized mapping
    /// would overflow the header's 32-bit length field or the log would
    /// outgrow addressable memory.
    pub fn snapshot_index(&mut self, sentinel: &[u8]) -> (r: Result<u64, StoreError>)
        requires
            old(self).wf(),
            sentinel@.len() <= u32::MAX,
        ensures
            final(self).wf(),
            match r {
                Ok(position) => {
                    &&& position == old(self).log_view().len()
                    &&& exists|es: Seq<(Seq<u8>, u64)>|
                        final(self).log_view() == old(self).log_view() + encoded_record(
                            sentinel@,
                            #[trigger] index_encoding_of(es),
                        ) && assoc_map(es) == old(self).index_view().remove(sentinel@)
                    &&& final(self).index_view() == Map::<Seq<u8>, u64>::empty().insert(
                        sentinel@,
                        position,
                    )
                },
                Err(e) => {
                    &&& final(self).log_view() == old(self).log_view()
                    &&& final(self).index_view() == old(self).index_view().remove(sentinel@)
                    &&& e == StoreError::TooLarge
                    &&& exists|es: Seq<(Seq<u8>, u64)>|
                        assoc_map(es) == old(self).index_view().remove(sentinel@) && (
                        (#[trigger] index_encoding_of(es)).len() > u32::MAX
                            || old(self).log_view().len() + 12 + sentinel@.len()
                                + index_encoding_of(es).len() > usize::MAX)
                },
            },
    {
        self.index.remove(sentinel);
        let entries = self.index.entries_ref();
        let ghost es = entry_views(entries@);
        let data = match serialize_entries(entries) {
            Some(b) => b,
            None => vstd::pervasive::unreached(),
        };
        if data.len() > (u32::MAX as usize) {
            proof {
                assert(assoc_map(es) == old(self).index_view().remove(sentinel@)
                    && index_encoding_of(es).len() > u32::MAX);
            }
            return Err(StoreError::TooLarge);
        }
        let needed = match 12usize.checked_add(sentinel.len()) {
            Some(x) => x,
            None => {
                proof {
                    assert(assoc_map(es) == old(self).index_view().remove(sentinel@)
                        && old(self).log_view().len() + 12 + sentinel@.len()
                        + index_encoding_of(es).len() > usize::MAX);
                }
                return Err(StoreError::TooLarge);
            }
        };
        let needed = match needed.checked_add(data.len()) {
            Some(x) => x,
            None => {
                proof {
                    assert(assoc_map(es) == old(self).index_view().remove(sentinel@)
                        && old(self).log_view().len() + 12 + sentinel@.len()
                        + index_encoding_of(es).len() > usize::MAX);
                }
                return Err(StoreError::TooLarge);
            }
        };
        if self.log.len() > usize::MAX - needed {
            proof {
                assert(assoc_map(es) == old(self).index_view().remove(sentinel@)
                    && old(self).log_view().len() + 12 + sentinel@.len()
                    + index_encoding_of(es).len() > usize::MAX);
            }
            return Err(StoreError::TooLarge);
        }
        let position = self.log.len() as u64;
        self.index = LogIndex::new();
        self.insert(sentinel, data.as_slice());
        proof {
            assert(self.log_view() == old(self).log_view() + encoded_record(
                sentinel@,
                index_encoding_of(es),
            ) && assoc_map(es) == old(self).index_view().remove(sentinel@));
        }
        Ok(position)
    }

    /// Serves a lookup through the persisted snapshot stored under
    /// `sentinel`: reads the snapshot record, deserializes its mapping,
    /// and does a positioned read at the offset that mapping gives for
    /// `key`. The snapshot is a point-in-time cache — keys inserted
    /// after it was written are absent from it even when the live index
    /// holds them.
    pub fn get_via_snapshot(&self, sentinel: &[u8], key: &[u8]) -> (r: Result<
        Option<Vec<u8>>,
        StoreError,
    >)
        requires
            self.wf(),
        ensures
            r == Err::<Option<Vec<u8>>, StoreError>(StoreError::BadSnapshot) ==> ({
                &&& self.index_view().contains_key(sentinel@)
                &&& spec_decode(self.log_view(), self.index_view()[sentinel@] as int) matches
                    SpecDecoded::Rec { key: _, value: snap, next: _ } && !(exists|
                    es: Seq<(Seq<u8>, u64)>,
                | snap == #[trigger] index_encoding_of(es))
            }),
            !self.index_view().contains_key(sentinel@) ==> r == Ok::<Option<Vec<u8>>, StoreError>(
                None,
            ),
            self.index_view().contains_key(sentinel@) ==> ({
                let sd = spec_decode(self.log_view(), self.index_view()[sentinel@] as int);
                &&& (sd matches SpecDecoded::Fail(e) ==> r == Err::<Option<Vec<u8>>, StoreError>(
                    e,
                ))
                &&& (sd matches SpecDecoded::Rec { key: _, value: snap, next: _ }
                    ==> forall|es: Seq<(Seq<u8>, u64)>|
                    snap == #[trigger] index_encoding_of(es) ==> ({
                        let m = assoc_map(es);
                        &&& (!m.contains_key(key@) ==> r == Ok::<Option<Vec<u8>>, StoreError>(
                            None,
                        ))
                        &&& (m.contains_key(key@) ==> match spec_decode(
                            self.log_view(),
                            m[key@] as int,
                        ) {
                            SpecDecoded::Rec { key: _, value, next: _ } => {
                                &&& r matches Ok(o)
                                &&& o matches Some(v)
                                &&& v@ == value
                            },
                            SpecDecoded::Fail(e2) => r == Err::<Option<Vec<u8>>, StoreError>(e2),
                            SpecDecoded::End => r == Err::<Option<Vec<u8>>, StoreError>(
                                StoreError::EndOfLog,
                            ),
                        })
                    }))
            }),
    {
        let position = match self.index.get(sentinel) {
            None => {
                return Ok(None);
            }
            Some(p) => p,
        };
        let snap_rec = match decode(self.log.as_slice(), position) {
            Ok((kv, _)) => kv,
            Err(e) => {
                return Err(e);
            }
        };
        let entries = match deserialize_entries(snap_rec.value.as_slice()) {
            Some(v) => v,
            None => {
                return Err(StoreError::BadSnapshot);
            }
        };
        let off = match lookup_entries(&entries, key) {
            None => {
                return Ok(None);
            }
            Some(o) => o,
        };
        match decode(self.log.as_slice(), off) {
            Ok((kv, _)) => Ok(Some(kv.value)),
            Err(e) => Err(e),
        }
    }

    /// The public surface declares `delete` without giving it a
    /// behaviour, and this design defines no tombstone marker; rather
    /// than silently doing nothing, the call reports `Unsupported`.
    pub fn delete(&self, _key: &[u8]) -> (r: Result<(), StoreError>)
        ensures
            r == Err::<(), StoreError>(StoreError::Unsupported),
    {
        Err(StoreError::Unsupported)
    }
}

} // verus!
