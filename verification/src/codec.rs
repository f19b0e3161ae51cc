//! The record codec: one key-value record framed as a fixed 12-byte header
//! (checksum, key length, value length, each little-endian 32-bit) followed
//! by the raw key and value bytes.

use vstd::prelude::*;
use vstd::slice::{slice_subrange, slice_to_vec};
use crate::bytes::{u32_le, u32_from_le, lemma_u32_le_round_trip, push_u32_le, read_u32_le, push_bytes};
use crate::checksum::{crc32_of, crc32};
use crate::errors::StoreError;

verus! {

/// One key-value record: arbitrary byte sequences for both key and value.
#[derive(Debug)]
pub struct KeyValuePair {
    pub key: Vec<u8>,
    pub value: Vec<u8>,
}

/// The full framing of one record: checksum over key‖value, key length,
/// value length, then the raw key and value bytes.
pub open spec fn encoded_record(key: Seq<u8>, value: Seq<u8>) -> Seq<u8> {
    u32_le(crc32_of(key + value)) + u32_le(key.len() as u32) + u32_le(value.len() as u32) + key
        + value
}

/// The checksum field stored at `off`.
pub open spec fn stored_checksum(log: Seq<u8>, off: int) -> u32 {
    u32_from_le(log[off], log[off + 1], log[off + 2], log[off + 3])
}

/// The key-length field stored at `off`.
pub open spec fn stored_key_len(log: Seq<u8>, off: int) -> u32 {
    u32_from_le(log[off + 4], log[off + 5], log[off + 6], log[off + 7])
}

/// The value-length field stored at `off`.
pub open spec fn stored_value_len(log: Seq<u8>, off: int) -> u32 {
    u32_from_le(log[off + 8], log[off + 9], log[off + 10], log[off + 11])
}

/// Whether a full 12-byte header lies at `off`.
pub open spec fn header_fits(log: Seq<u8>, off: int) -> bool {
    0 <= off && off + 12 <= log.len()
}

/// Whether the payload that the header at `off` declares lies in the log.
pub open spec fn payload_fits(log: Seq<u8>, off: int) -> bool {
    header_fits(log, off) && off + 12 + stored_key_len(log, off) + stored_value_len(log, off)
        <= log.len()
}

/// The offset just past the record at `off`.
pub open spec fn record_end(log: Seq<u8>, off: int) -> int {
    off + 12 + stored_key_len(log, off) + stored_value_len(log, off)
}

/// The key bytes of the record at `off`.
pub open spec fn record_key(log: Seq<u8>, off: int) -> Seq<u8> {
    log.subrange(off + 12, off + 12 + stored_key_len(log, off))
}

/// The value bytes of the record at `off`.
pub open spec fn record_value(log: Seq<u8>, off: int) -> Seq<u8> {
    log.subrange(off + 12 + stored_key_len(log, off), record_end(log, off))
}

/// Whether the payload at `off` hashes to the stored checksum.
pub open spec fn checksum_matches(log: Seq<u8>, off: int) -> bool {
    crc32_of(log.subrange(off + 12, record_end(log, off))) == stored_checksum(log, off)
}

/// What decoding finds at one offset of a log.
pub enum SpecDecoded {
    /// Fewer than 12 bytes remain: the clean end of the log.
    End,
    /// A malformed or corrupt record.
    Fail(StoreError),
    /// A well-formed record and the offset just past it.
    Rec { key: Seq<u8>, value: Seq<u8>, next: int },
}

/// The record stored at offset `off` of `log`, if any.
pub open spec fn spec_decode(log: Seq<u8>, off: int) -> SpecDecoded {
    if !header_fits(log, off) {
        SpecDecoded::End
    } else if !payload_fits(log, off) {
        SpecDecoded::Fail(StoreError::Truncated { offset: off as u64 })
    } else if !checksum_matches(log, off) {
        SpecDecoded::Fail(
            StoreError::Corruption {
                offset: off as u64,
                stored: stored_checksum(log, off),
                computed: crc32_of(log.subrange(off + 12, record_end(log, off))),
            },
        )
    } else {
        SpecDecoded::Rec {
            key: record_key(log, off),
            value: record_value(log, off),
            next: record_end(log, off),
        }
    }
}

/// Encodes one record: `[checksum][key_len][value_len][key][value]`.
/// Pure; performs no I/O.
pub fn encode(key: &[u8], value: &[u8]) -> (r: Vec<u8>)
    requires
        key@.len() <= u32::MAX,
        value@.len() <= u32::MAX,
        key@.len() + value@.len() + 12 <= usize::MAX,
    ensures
        r@ == encoded_record(key@, value@),
        r@.len() == 12 + key@.len() + value@.len(),
{
    let mut payload: Vec<u8> = Vec::new();
    push_bytes(&mut payload, key);
    push_bytes(&mut payload, value);
    let checksum = crc32(payload.as_slice());
    let mut out: Vec<u8> = Vec::new();
    push_u32_le(&mut out, checksum);
    push_u32_le(&mut out, key.len() as u32);
    push_u32_le(&mut out, value.len() as u32);
    push_bytes(&mut out, key);
    push_bytes(&mut out, value);
    proof {
        assert(out@ =~= encoded_record(key@, value@));
    }
    out
}

/// Decodes the record stored at `offset`, returning the record and the
/// offset just past it. Reports `EndOfLog` at a clean end, `Truncated`
/// when the declared payload overruns the log, and `Corruption` when the
/// payload does not hash to the stored checksum.
pub fn decode(log: &[u8], offset: u64) -> (r: Result<(KeyValuePair, u64), StoreError>)
    ensures
        match spec_decode(log@, offset as int) {
            SpecDecoded::End => r == Err::<(KeyValuePair, u64), StoreError>(StoreError::EndOfLog),
            SpecDecoded::Fail(e) => r == Err::<(KeyValuePair, u64), StoreError>(e),
            SpecDecoded::Rec { key, value, next } => {
                &&& r matches Ok(p)
                &&& p.0.key@ == key
                &&& p.0.value@ == value
                &&& p.1 == next
            },
        },
{
    let n = log.len();
    if n < 12 || offset > (n - 12) as u64 {
        return Err(StoreError::EndOfLog);
    }
    let off = offset as usize;
    let stored = read_u32_le(log, off);
    let key_len = read_u32_le(log, off + 4);
    let value_len = read_u32_le(log, off + 8);
    let remaining = (n - off - 12) as u64;
    if (key_len as u64) + (value_len as u64) > remaining {
        return Err(StoreError::Truncated { offset });
    }
    let data_start = off + 12;
    let key_end = data_start + key_len as usize;
    let end = key_end + value_len as usize;
    let computed = crc32(slice_subrange(log, data_start, end));
    if computed != stored {
        return Err(StoreError::Corruption { offset, stored, computed });
    }
    let key = slice_to_vec(slice_subrange(log, data_start, key_end));
    let value = slice_to_vec(slice_subrange(log, key_end, end));
    proof {
        assert(log@.subrange(data_start as int, end as int) =~= record_key(log@, offset as int)
            + record_value(log@, offset as int));
    }
    Ok((KeyValuePair { key, value }, end as u64))
}

/// A record appended to any log decodes, at the old end of that log, to
/// exactly the key and value it was built from.
pub proof fn lemma_decode_encoded(log: Seq<u8>, key: Seq<u8>, value: Seq<u8>)
    ensures
        key.len() <= u32::MAX && value.len() <= u32::MAX ==> spec_decode(
            log + encoded_record(key, value),
            log.len() as int,
        ) == (SpecDecoded::Rec {
            key,
            value,
            next: log.len() + 12 + key.len() + value.len() as int,
        }),
{
    if key.len() <= u32::MAX && value.len() <= u32::MAX {
        let e = encoded_record(key, value);
        let l2 = log + e;
        let off = log.len() as int;
        let c = crc32_of(key + value);
        let kl = key.len() as u32;
        let vl = value.len() as u32;
        assert forall|i: int| 0 <= i < e.len() implies l2[off + i] == e[i] by {}
        assert(stored_checksum(l2, off) == c) by {
            assert(l2[off] == u32_le(c)[0] && l2[off + 1] == u32_le(c)[1] && l2[off + 2] == u32_le(
                c,
            )[2] && l2[off + 3] == u32_le(c)[3]);
            lemma_u32_le_round_trip(c);
        }
        assert(stored_key_len(l2, off) == kl) by {
            assert(l2[off + 4] == u32_le(kl)[0] && l2[off + 5] == u32_le(kl)[1] && l2[off + 6]
                == u32_le(kl)[2] && l2[off + 7] == u32_le(kl)[3]);
            lemma_u32_le_round_trip(kl);
        }
        assert(stored_value_len(l2, off) == vl) by {
            assert(l2[off + 8] == u32_le(vl)[0] && l2[off + 9] == u32_le(vl)[1] && l2[off + 10]
                == u32_le(vl)[2] && l2[off + 11] == u32_le(vl)[3]);
            lemma_u32_le_round_trip(vl);
        }
        assert(payload_fits(l2, off));
        assert(record_key(l2, off) =~= key);
        assert(record_value(l2, off) =~= value);
        assert(l2.subrange(off + 12, record_end(l2, off)) =~= key + value);
        assert(checksum_matches(l2, off));
    }
}

/// Decoding an existing record is unaffected by bytes appended after it.
pub proof fn lemma_decode_frame(log: Seq<u8>, tail: Seq<u8>, off: int)
    requires
        spec_decode(log, off) is Rec,
    ensures
        spec_decode(log + tail, off) == spec_decode(log, off),
{
    let l2 = log + tail;
    assert(stored_checksum(l2, off) == stored_checksum(log, off));
    assert(stored_key_len(l2, off) == stored_key_len(log, off));
    assert(stored_value_len(l2, off) == stored_value_len(log, off));
    assert(record_key(l2, off) =~= record_key(log, off));
    assert(record_value(l2, off) =~= record_value(log, off));
    assert(l2.subrange(off + 12, record_end(l2, off)) =~= log.subrange(
        off + 12,
        record_end(log, off),
    ));
}

} // verus!
