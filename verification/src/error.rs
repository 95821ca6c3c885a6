//! What can go wrong when a store is examined.
use vstd::prelude::*;

use crate::codec::CodecError;
use crate::hex::HexError;
use crate::keys::KeyError;
use crate::types::MvccError;

verus! {

/// Why a store could not be examined.
#[derive(Clone, Copy, Debug, PartialEq, Eq, Structural)]
pub enum CtlError {
    /// A key on the command line is no escaped text.
    BadEscape,
    /// The store has no column family of that name.
    UnknownCf,
    /// A stored key does not have the expected layout.
    Key(KeyError),
    /// A stored key has no timestamp at its end.
    Codec(CodecError),
    /// A stored lock or write record is unreadable.
    Mvcc(MvccError),
    /// A region that the store lists has no state.
    NoRegionState(u64),
    /// The raft log has no entry under that key.
    NoLogEntry,
    /// A sum of sizes does not fit.
    SizeOverflow,
    /// A key on the command line is not in hexadecimal notation.
    Hex(HexError),
    /// A key is too long for its hexadecimal notation.
    KeyTooLong,
}

} // verus!
