//! Store-wide guarantees, each proved from the codec and replay
//! specifications that the executable operations are verified against.

use vstd::prelude::*;
use crate::codec::{encoded_record, spec_decode, SpecDecoded, lemma_decode_encoded};
use crate::index::assoc_map;
use crate::replay::{replay, replay_from, lemma_replay_append, SpecReplay};

verus! {

/// Round-trip: a log holding exactly one encoded record decodes, from
/// offset 0, to the key and value the record was built from.
pub proof fn lemma_round_trip(key: Seq<u8>, value: Seq<u8>)
    requires
        key.len() <= u32::MAX,
        value.len() <= u32::MAX,
    ensures
        spec_decode(encoded_record(key, value), 0) == (SpecDecoded::Rec {
            key,
            value,
            next: 12 + key.len() + value.len() as int,
        }),
{
    lemma_decode_encoded(Seq::empty(), key, value);
    assert(Seq::<u8>::empty() + encoded_record(key, value) =~= encoded_record(key, value));
}

/// A log that replays cleanly still does after appending one record, and
/// the rebuilt index points the record's key at the old end of the log.
pub proof fn lemma_replay_of_append(log: Seq<u8>, key: Seq<u8>, value: Seq<u8>)
    requires
        key.len() <= u32::MAX,
        value.len() <= u32::MAX,
        replay(log) matches SpecReplay::Done { index: _, end } && end == log.len(),
    ensures
        replay(log + encoded_record(key, value)) == (SpecReplay::Done {
            index: replay(log)->index.insert(key, log.len() as u64),
            end: (log + encoded_record(key, value)).len() as int,
        }),
{
    lemma_replay_append(log, 0, Map::empty(), key, value);
}

/// Last-write-wins: appending two records with the same key and then
/// replaying the log from scratch indexes the key at the second record's
/// offset, and the record there holds the second value.
pub proof fn lemma_last_write_wins(log: Seq<u8>, key: Seq<u8>, v1: Seq<u8>, v2: Seq<u8>)
    requires
        key.len() <= u32::MAX,
        v1.len() <= u32::MAX,
        v2.len() <= u32::MAX,
        replay(log) matches SpecReplay::Done { index: _, end } && end == log.len(),
    ensures
        ({
            let log1 = log + encoded_record(key, v1);
            let log2 = log1 + encoded_record(key, v2);
            &&& replay(log2) matches SpecReplay::Done { index, end } && end == log2.len()
                && index.contains_key(key) && index[key] == log1.len() as u64
            &&& spec_decode(log2, log1.len() as int) matches SpecDecoded::Rec {
                key: k,
                value,
                next: _,
            } && k == key && value == v2
        }),
{
    let log1 = log + encoded_record(key, v1);
    let log2 = log1 + encoded_record(key, v2);
    lemma_replay_of_append(log, key, v1);
    lemma_replay_of_append(log1, key, v2);
    lemma_decode_encoded(log1, key, v2);
}

/// Replay idempotence: replaying an unchanged log is deterministic, so
/// any two successful replays of the same bytes build the same index —
/// `load` depends on the log alone, not on the index it started from.
pub proof fn lemma_replay_idempotent(
    log: Seq<u8>,
    m1: Map<Seq<u8>, u64>,
    e1: int,
    m2: Map<Seq<u8>, u64>,
    e2: int,
)
    requires
        replay(log) == (SpecReplay::Done { index: m1, end: e1 }),
        replay(log) == (SpecReplay::Done { index: m2, end: e2 }),
    ensures
        m1 == m2,
        e1 == e2,
{
}

/// Snapshot consistency, replay half: after the snapshot record is
/// appended, a fresh replay indexes the sentinel at the snapshot's
/// offset, and the record there holds exactly the serialized mapping.
pub proof fn lemma_snapshot_replay(log: Seq<u8>, sentinel: Seq<u8>, snap: Seq<u8>)
    requires
        sentinel.len() <= u32::MAX,
        snap.len() <= u32::MAX,
        replay(log) matches SpecReplay::Done { index: _, end } && end == log.len(),
    ensures
        ({
            let log2 = log + encoded_record(sentinel, snap);
            &&& replay(log2) matches SpecReplay::Done { index, end } && end == log2.len()
                && index.contains_key(sentinel) && index[sentinel] == log.len() as u64
                && index == replay(log)->index.insert(sentinel, log.len() as u64)
            &&& spec_decode(log2, log.len() as int) matches SpecDecoded::Rec {
                key: k,
                value,
                next: _,
            } && k == sentinel && value == snap
        }),
{
    lemma_replay_of_append(log, sentinel, snap);
    lemma_decode_encoded(log, sentinel, snap);
}

/// Snapshot consistency, mapping half: the snapshot's mapping holds
/// every key the index held when it was taken (under its then-current
/// offset), except the sentinel itself; and a key absent from the index
/// at that moment — for instance one only inserted later — is absent
/// from the snapshot's mapping. The snapshot is an explicit
/// point-in-time cache, not an always-fresh index.
pub proof fn lemma_snapshot_mapping(
    m: Map<Seq<u8>, u64>,
    es: Seq<(Seq<u8>, u64)>,
    sentinel: Seq<u8>,
)
    requires
        assoc_map(es) == m.remove(sentinel),
    ensures
        forall|k: Seq<u8>|
            k != sentinel && #[trigger] m.contains_key(k) ==> assoc_map(es).contains_key(k)
                && assoc_map(es)[k] == m[k],
        forall|k: Seq<u8>| !(#[trigger] m.contains_key(k)) ==> !assoc_map(es).contains_key(k),
{
}

} // verus!
