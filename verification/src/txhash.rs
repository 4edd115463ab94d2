//! The canonical transaction identifier: a cryptographic hash applied
//! twice in succession over the base serialization.
use vstd::prelude::*;
use crate::hexfmt::{hex_of, hex_encode};
use sha2::Digest;

verus! {

/// The 32-byte digest that the outside hash function returns for a byte
/// sequence. The digest depends on the input bytes alone.
pub uninterp spec fn sha256_of(data: Seq<u8>) -> Seq<u8>;

/// Relies on sha2::Sha256::digest: the 32-byte digest is a deterministic
/// function of the input bytes alone.
#[verifier::external_body]
fn sha256(data: &Vec<u8>) -> (r: Vec<u8>)
    ensures
        r@ == sha256_of(data@),
        r@.len() == 32,
{
    sha2::Sha256::digest(data.as_slice()).to_vec()
}

/// Computes the transaction identifier of a base serialization: the hash
/// of the hash of the bytes, in natural (non-reversed) byte order.
pub fn compute_txid(base: &Vec<u8>) -> (r: Vec<u8>)
    ensures
        r@ == sha256_of(sha256_of(base@)),
        r@.len() == 32,
{
    let first = sha256(base);
    sha256(&first)
}

/// Renders an identifier for human-readable display: the bytes are
/// reversed before hex encoding. The stored identifier itself keeps the
/// natural byte order.
pub fn txid_display_hex(txid: &Vec<u8>) -> (r: String)
    ensures
        r@ == hex_of(txid@.reverse()),
{
    let mut reversed: Vec<u8> = Vec::new();
    let mut i = txid.len();
    while i > 0
        invariant
            i <= txid@.len(),
            reversed@.len() == txid@.len() - i,
            forall|j: int| 0 <= j < reversed@.len()
                ==> reversed@[j] == txid@[txid@.len() - 1 - j],
        decreases i,
    {
        i = i - 1;
        reversed.push(txid[i]);
    }
    proof {
        assert(reversed@ =~= txid@.reverse());
    }
    hex_encode(&reversed)
}

} // verus!
