//! Decoder for the Bitcoin block-file wire format.
//!
//! A raw byte stream of magic-framed blocks is turned into structured
//! block / transaction / input / output / witness values, embedded scripts
//! are decoded into symbolic opcodes, and each transaction's canonical
//! double-hash identifier is recomputed from its base serialization.
#![verifier::loop_isolation(false)]

pub mod bytes;
pub mod errors;
pub mod varint;
pub mod hexfmt;
pub mod txhash;
pub mod timefmt;
pub mod script;
pub mod types;
pub mod decode;
pub mod records;
