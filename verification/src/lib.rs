//! An append-only, log-structured key-value store.
//!
//! Records are framed as a fixed 12-byte header (checksum, key length,
//! value length, all little-endian 32-bit) followed by the raw key and
//! value bytes. An in-memory index maps each key to the offset of its most
//! recent record; it is rebuilt by replaying the log from the start, and
//! can be persisted back into the log as a snapshot record under a
//! reserved sentinel key.
//!
//! The store performs no I/O itself: it works on an in-memory image of
//! the log file, and a front end persists the growth of that image.
//!
//! The crate also carries a small CHIP-8 style opcode interpreter
//! (`cpu`), independent of the store.

pub mod bytes;
pub mod checksum;
pub mod codec;
pub mod cpu;
pub mod errors;
pub mod index;
pub mod properties;
pub mod replay;
pub mod snapshot;
pub mod store;

pub use codec::KeyValuePair;
pub use errors::StoreError;
pub use store::ActionKV;
