use blockparse::decode::{parse_block, MAGIC};
use blockparse::records::{block_record, tx_record, tx_input_records, tx_output_records};

fn le32(v: u32) -> Vec<u8> {
    vec![v as u8, (v >> 8) as u8, (v >> 16) as u8, (v >> 24) as u8]
}

fn one_tx_block(time: u32) -> Vec<u8> {
    let mut tx: Vec<u8> = Vec::new();
    tx.extend_from_slice(&[1, 0, 0, 0]);
    tx.push(1);
    tx.extend_from_slice(&[0xabu8; 32]);
    tx.extend_from_slice(&[3, 0, 0, 0]);
    tx.push(1);
    tx.push(0x51);
    tx.extend_from_slice(&[0xff, 0xff, 0xff, 0xff]);
    tx.push(1);
    tx.extend_from_slice(&[0x05, 0x00, 0x00, 0x00, 0x00, 0x00, 0x00, 0x00]);
    tx.push(2);
    tx.push(0x76);
    tx.push(0xac);
    tx.extend_from_slice(&[0, 0, 0, 0]);

    let mut b: Vec<u8> = Vec::new();
    b.extend_from_slice(&le32(MAGIC));
    b.extend_from_slice(&le32(0));
    b.extend_from_slice(&[2, 0, 0, 0]); // header version
    b.extend_from_slice(&[0x01u8; 32]);
    b.extend_from_slice(&[0x02u8; 32]);
    b.extend_from_slice(&le32(time));
    b.extend_from_slice(&[0xde, 0xad, 0xbe, 0xef]); // bits
    b.extend_from_slice(&[0x01, 0x02, 0x03, 0x04]); // nonce
    b.push(1);
    b.extend_from_slice(&tx);
    b
}

#[test]
fn block_record_renders_header_fields_as_hex() {
    let bytes = one_tx_block(0);
    let (blk, _) = parse_block(&bytes, 0).unwrap();
    let r = block_record(5, 17, &blk);
    assert_eq!(r.file_index, 5);
    assert_eq!(r.block_index, 17);
    assert_eq!(r.version_hex, "02000000");
    assert_eq!(r.prev_hash_hex, "01".repeat(32));
    assert_eq!(r.merkle_root_hex, "02".repeat(32));
    assert_eq!(r.bits_hex, "deadbeef");
    assert_eq!(r.nonce_hex, "01020304");
    assert_eq!(r.tx_count, 1);
}

#[test]
fn block_record_timestamp_epoch() {
    let bytes = one_tx_block(0);
    let (blk, _) = parse_block(&bytes, 0).unwrap();
    let r = block_record(0, 0, &blk);
    assert_eq!(r.date, "1970-01-01");
    assert_eq!(r.time, "00:00:00");
}

#[test]
fn block_record_timestamp_known_value() {
    // the genesis block's timestamp
    let bytes = one_tx_block(1231006505);
    let (blk, _) = parse_block(&bytes, 0).unwrap();
    let r = block_record(0, 0, &blk);
    assert_eq!(r.date, "2009-01-03");
    assert_eq!(r.time, "18:15:05");
}

#[test]
fn tx_and_input_output_records() {
    let bytes = one_tx_block(0);
    let (blk, _) = parse_block(&bytes, 0).unwrap();
    let tx = &blk.transactions[0];
    let tr = tx_record(17, tx);
    assert_eq!(tr.block_index, 17);
    assert_eq!(tr.input_count, 1);
    assert_eq!(tr.output_count, 1);
    assert_eq!(tr.txid_hex, hex::encode(&tx.txid));

    let irs = tx_input_records(tx);
    assert_eq!(irs.len(), 1);
    assert_eq!(irs[0].txid_hex, tr.txid_hex);
    assert_eq!(irs[0].input_index, 0);
    assert_eq!(irs[0].prev_txid_hex, "ab".repeat(32));
    assert_eq!(irs[0].vout, 3);
    assert_eq!(irs[0].script_sig, "OP_1");

    let ors = tx_output_records(tx);
    assert_eq!(ors.len(), 1);
    assert_eq!(ors[0].txid_hex, tr.txid_hex);
    assert_eq!(ors[0].output_index, 0);
    assert_eq!(ors[0].value, 5);
    assert_eq!(ors[0].script_pubkey, "OP_DUP OP_CHECKSIG");
}

#[test]
fn overrun_script_gets_marker_text() {
    let mut bytes = one_tx_block(0);
    // the scriptPubKey is the two bytes 0x76 0xac; turn its first byte
    // into a push of 75 bytes so it overruns the script end
    let n = bytes.len();
    bytes[n - 6] = 0x4b;
    let (blk, _) = parse_block(&bytes, 0).unwrap();
    let ors = tx_output_records(&blk.transactions[0]);
    assert_eq!(ors[0].script_pubkey, "SCRIPT_OVERRUN");
}
