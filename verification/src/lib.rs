//! Chain-state access layer for a Substrate-style ledger node.
//!
//! The library decodes the node's binary storage encoding (compact integers,
//! options, sequences, records), renders account identities in the
//! checksummed base-58 address format, derives the hashed storage keys under
//! which named items live, and aggregates decoded staking records into
//! display-ready structures. Network transport and terminal rendering are
//! left to the surrounding application, which hands raw bytes in and takes
//! plain values back.

pub mod scale;
pub mod types;
pub mod decode;
pub mod hashing;
pub mod keys;
pub mod ss58;
pub mod aggregate;
pub mod query;

use vstd::prelude::*;

verus! {

/// Failure of the binary decoder or of storage-key interpretation.
///
/// `TruncatedInput`: the input ended before the shape being decoded was
/// complete. `InvalidDiscriminant`: a tag, boolean or length byte lay outside
/// the range its shape defines. `BadKeyLength`: a raw storage key did not
/// have the length under which an account-keyed map stores its entries.
#[derive(Clone, Copy, Debug, PartialEq, Eq, Structural)]
pub enum DecodeError {
    TruncatedInput,
    InvalidDiscriminant,
    BadKeyLength,
}

} // verus!
