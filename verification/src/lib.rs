//! A key-value cache with two storage backends behind one contract:
//! a volatile in-memory cache, and a durable file-per-entry cache whose
//! write protocol keeps committed entries safe across crashes.
//!
//! The network front end, the argument handling and the actual file
//! operations live outside this crate; what is here is everything the
//! cache decides and computes: the in-memory backend, the on-disk record
//! format, the digest-derived file names, the write-protocol planning,
//! and a model of the directory under crashes with the safety proofs.
pub mod codec;
pub mod disk;
pub mod fsmodel;
pub mod laws;
pub mod mem;

use vstd::prelude::*;

verus! {

/// The length of a durable entry's file name: a 256-bit digest printed in
/// hexadecimal.  `list` tells entry files from transient or foreign files
/// by this length alone.
pub const ENTRY_NAME_LEN: usize = 64;

} // verus!
