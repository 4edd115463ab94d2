//! Error taxonomy of the decoder. Every error carries the byte offset at
//! which the offending field begins, for diagnosis.
use vstd::prelude::*;

verus! {

/// Why a decode failed. Offsets are positions into the byte buffer of one
/// source file.
#[derive(Clone, Copy, Debug, PartialEq, Eq, Structural)]
pub enum DecodeError {
    /// A mandatory fixed-size or length-prefixed field ends before its
    /// expected length.
    Truncated { offset: usize },
    /// A frame does not start with the expected magic constant.
    MagicMismatch { offset: usize, found: u32 },
    /// A transaction version field holds a value other than the accepted one.
    UnsupportedVersion { offset: usize, version: u32 },
    /// An input count of zero was followed by a byte other than the segwit
    /// flag value 1.
    BadSegwitFlag { offset: usize, flag: u8 },
    /// A push opcode's declared length exceeds the remaining script bytes;
    /// the offset is that of the push opcode within the script.
    ScriptOverrun { offset: usize },
}

} // verus!
