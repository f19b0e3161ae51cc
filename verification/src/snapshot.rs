//! Serializing the index so a snapshot of it can live in the log as a
//! normal record under a reserved sentinel key.

use vstd::prelude::*;
use crate::index::entry_views;

verus! {

/// The byte encoding of an index entry list, as the snapshot record
/// stores it. The encoding depends on the entries alone.
pub uninterp spec fn index_encoding_of(entries: Seq<(Seq<u8>, u64)>) -> Seq<u8>;

/// Relies on `bincode::serialize` (fixed-width integer encoding): the
/// bytes produced for an entry list are a pure function of the entries,
/// and serializing vectors, byte strings and integers into a fresh
/// in-memory vector has no failure path, so the call always succeeds.
#[verifier::external_body]
pub(crate) fn serialize_entries(entries: &Vec<(Vec<u8>, u64)>) -> (r: Option<Vec<u8>>)
    ensures
        r is Some,
        r matches Some(b) ==> b@ == index_encoding_of(entry_views(entries@)),
{
    match bincode::serialize(entries) {
        Ok(b) => Some(b),
        Err(_) => None,
    }
}

/// Relies on `bincode::deserialize`: reading back the exact bytes that
/// `bincode::serialize` produced for an entry list recovers that list.
#[verifier::external_body]
pub(crate) fn deserialize_entries(data: &[u8]) -> (r: Option<Vec<(Vec<u8>, u64)>>)
    ensures
        r is Some <== exists|es: Seq<(Seq<u8>, u64)>| data@ == #[trigger] index_encoding_of(es),
        r matches Some(v) ==> forall|es: Seq<(Seq<u8>, u64)>|
            data@ == #[trigger] index_encoding_of(es) ==> entry_views(v@) == es,
{
    match bincode::deserialize(data) {
        Ok(v) => Some(v),
        Err(_) => None,
    }
}

} // verus!
