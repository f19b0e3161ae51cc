//! The ways a store operation can fail.

use vstd::prelude::*;

verus! {

/// Why decoding a record or operating on the store failed.
///
/// `EndOfLog` is not a true fault: it marks the clean end of a scan and is
/// consumed internally by replaying operations. The others are fatal for
/// the operation that hit them; corruption in particular is never skipped.
#[derive(Debug, Clone, Copy, PartialEq, Eq, Structural)]
pub enum StoreError {
    /// Fewer than a full 12-byte header remains at the read offset.
    EndOfLog,
    /// The header at `offset` declares more payload bytes than the log holds.
    Truncated { offset: u64 },
    /// The payload at `offset` does not hash to the checksum stored with it.
    Corruption { offset: u64, stored: u32, computed: u32 },
    /// The operation is declared by the public surface but was never given
    /// a behaviour; it reports this error rather than silently doing nothing.
    Unsupported,
    /// A record or serialized index snapshot is too large for a length to
    /// be stored in a 32-bit header field, or the log cannot grow by it.
    TooLarge,
    /// A snapshot record's value could not be read back as an index mapping.
    BadSnapshot,
}

impl StoreError {
    /// A short human-readable description of the error.
    pub fn describe(&self) -> (r: &'static str)
    {
        match self {
            StoreError::EndOfLog => "end of log",
            StoreError::Truncated { .. } => "record truncated",
            StoreError::Corruption { .. } => "data corruption encountered",
            StoreError::Unsupported => "operation not supported",
            StoreError::TooLarge => "record too large",
            StoreError::BadSnapshot => "malformed index snapshot",
        }
    }
}

} // verus!
