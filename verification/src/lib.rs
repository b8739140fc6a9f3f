//! A self-describing, extensible binary hash format: a tagged value carrying
//! a hash-algorithm identifier, the digest's byte length and the digest
//! bytes, so that hash values can be stored, compared and transmitted
//! without out-of-band knowledge of which algorithm produced them.

pub mod digest;
pub mod error;
pub mod hash;
pub mod sink;
pub mod varu64;

pub use crate::hash::{
    new_blake3, DigestBuf, YamfHash, BLAKE3_HASH_SIZE, BLAKE3_NUMERIC_ID, MAX_YAMF_HASH_SIZE,
};
