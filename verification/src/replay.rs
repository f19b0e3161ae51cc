//! Replaying a log from the start rebuilds the index: every decoded
//! record inserts `(key, offset)`, so a later record for a key wins.

use vstd::prelude::*;
use crate::codec::{spec_decode, SpecDecoded, encoded_record, lemma_decode_encoded, lemma_decode_frame, payload_fits, record_key};
use crate::errors::StoreError;

verus! {

/// What a full replay of a log yields.
pub enum SpecReplay {
    /// The index that replay built, and the offset where the scan hit the
    /// clean end of the log.
    Done { index: Map<Seq<u8>, u64>, end: int },
    /// Replay aborted on a malformed or corrupt record.
    Fail(StoreError),
}

/// Replays `log` from `off` onward, starting from the index `acc`.
pub open spec fn replay_from(log: Seq<u8>, off: int, acc: Map<Seq<u8>, u64>) -> SpecReplay
    decreases log.len() - off,
{
    match spec_decode(log, off) {
        SpecDecoded::End => SpecReplay::Done { index: acc, end: off },
        SpecDecoded::Fail(e) => SpecReplay::Fail(e),
        SpecDecoded::Rec { key, value: _, next } => replay_from(
            log,
            next,
            acc.insert(key, off as u64),
        ),
    }
}

/// Replays the whole log into an empty index.
pub open spec fn replay(log: Seq<u8>) -> SpecReplay {
    replay_from(log, 0, Map::empty())
}

/// A well-framed record whose key bytes are `key` lies at `off`.
/// (Framing only: the checksum is checked when the record is read.)
pub open spec fn indexed_record(log: Seq<u8>, key: Seq<u8>, off: u64) -> bool {
    payload_fits(log, off as int) && record_key(log, off as int) == key
}

/// A record that lies within a log still lies within it after an append.
pub proof fn lemma_indexed_record_append(log: Seq<u8>, tail: Seq<u8>, key: Seq<u8>, off: u64)
    requires
        indexed_record(log, key, off),
    ensures
        indexed_record(log + tail, key, off),
{
    let l2 = log + tail;
    let o = off as int;
    assert(crate::codec::stored_key_len(l2, o) == crate::codec::stored_key_len(log, o));
    assert(crate::codec::stored_value_len(l2, o) == crate::codec::stored_value_len(log, o));
    assert(record_key(l2, o) =~= record_key(log, o));
}

/// Appending one encoded record to a log that replays cleanly extends the
/// replayed index by exactly that record's key, at the old end of the log.
#[verifier::rlimit(50)]
pub proof fn lemma_replay_append(
    log: Seq<u8>,
    off: int,
    acc: Map<Seq<u8>, u64>,
    key: Seq<u8>,
    value: Seq<u8>,
)
    requires
        key.len() <= u32::MAX,
        value.len() <= u32::MAX,
        replay_from(log, off, acc) matches SpecReplay::Done { index: _, end } && end == log.len(),
    ensures
        replay_from(log + encoded_record(key, value), off, acc) == (SpecReplay::Done {
            index: replay_from(log, off, acc)->index.insert(key, log.len() as u64),
            end: log.len() + encoded_record(key, value).len() as int,
        }),
    decreases log.len() - off,
{
    let e = encoded_record(key, value);
    let l2 = log + e;
    match spec_decode(log, off) {
        SpecDecoded::End => {
            assert(off == log.len());
            lemma_decode_encoded(log, key, value);
            let next2 = log.len() + 12 + key.len() + value.len() as int;
            assert(spec_decode(l2, off) == (SpecDecoded::Rec { key, value, next: next2 }));
            assert(l2.len() == next2);
            let acc2 = acc.insert(key, off as u64);
            assert(replay_from(l2, off, acc) == replay_from(l2, next2, acc2));
            assert(spec_decode(l2, next2) is End);
            assert(replay_from(l2, next2, acc2) == (SpecReplay::Done {
                index: acc2,
                end: next2,
            }));
            assert(replay_from(log, off, acc)->index == acc);
        }
        SpecDecoded::Fail(_) => {
            assert(false);
        }
        SpecDecoded::Rec { key: k, value: _, next } => {
            lemma_decode_frame(log, e, off);
            let acc2 = acc.insert(k, off as u64);
            assert(replay_from(l2, off, acc) == replay_from(l2, next, acc2));
            assert(replay_from(log, off, acc) == replay_from(log, next, acc2));
            lemma_replay_append(log, next, acc2, key, value);
        }
    }
}

} // verus!
