use blockparse::decode::parse_tx;
use blockparse::txhash::{compute_txid, txid_display_hex};
use sha2::Digest;

// The coinbase transaction of the genesis block: version 1, one input,
// one output, no witness, so its base serialization is the whole raw
// encoding.
const GENESIS_COINBASE_HEX: &str = "01000000010000000000000000000000000000000000000000000000000000000000000000ffffffff4d04ffff001d0104455468652054696d65732030332f4a616e2f32303039204368616e63656c6c6f72206f6e206272696e6b206f66207365636f6e64206261696c6f757420666f722062616e6b73ffffffff0100f2052a01000000434104678afdb0fe5548271967f1a67130b7105cd6a828e03909a67962e0ea1f61deb649f6bc3f4cef38c4f35504e51ec112de5c384df7ba0b8d578a4c702b6bf11d5fac00000000";

const GENESIS_COINBASE_TXID_DISPLAY: &str =
    "4a5e1e4baab89f3a32518a88c31bc87f618f76673e2cc77ab2127b7afdeda33b";

#[test]
fn reference_transaction_hash() {
    let bytes = hex::decode(GENESIS_COINBASE_HEX).unwrap();
    let (tx, end) = parse_tx(&bytes, 0).unwrap();
    assert_eq!(end, bytes.len());
    assert_eq!(tx.base, bytes, "a legacy transaction's base bytes are its whole encoding");
    let mut expected_natural = hex::decode(GENESIS_COINBASE_TXID_DISPLAY).unwrap();
    expected_natural.reverse();
    assert_eq!(tx.txid, expected_natural, "identifier in natural, pre-reversal byte order");
    assert_eq!(txid_display_hex(&tx.txid), GENESIS_COINBASE_TXID_DISPLAY);
}

#[test]
fn hash_is_applied_twice() {
    let bytes = hex::decode(GENESIS_COINBASE_HEX).unwrap();
    let once = sha2::Sha256::digest(&bytes).to_vec();
    let twice = compute_txid(&bytes);
    assert_ne!(once, twice, "a single hash is not the identifier");
    let expected = sha2::Sha256::digest(&once).to_vec();
    assert_eq!(twice, expected);
}

#[test]
fn reference_transaction_structure() {
    let bytes = hex::decode(GENESIS_COINBASE_HEX).unwrap();
    let (tx, _) = parse_tx(&bytes, 0).unwrap();
    assert_eq!(tx.version, 1);
    assert!(!tx.has_witness);
    assert_eq!(tx.inputs.len(), 1);
    assert_eq!(tx.outputs.len(), 1);
    assert_eq!(tx.outputs[0].value, 5_000_000_000);
    assert_eq!(tx.inputs[0].vout, 0xffff_ffff);
    assert!(tx.witnesses.is_none());
}
