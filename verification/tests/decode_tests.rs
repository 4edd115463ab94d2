use blockparse::decode::{parse_tx, parse_block, parse_file, Session, MAGIC};
use blockparse::errors::DecodeError;
use blockparse::records::file_records;

fn le32(v: u32) -> Vec<u8> {
    vec![v as u8, (v >> 8) as u8, (v >> 16) as u8, (v >> 24) as u8]
}

fn legacy_tx_bytes() -> Vec<u8> {
    let mut tx: Vec<u8> = Vec::new();
    tx.extend_from_slice(&[1, 0, 0, 0]); // version 1
    tx.push(1); // one input
    tx.extend_from_slice(&[0x11u8; 32]); // previous txid
    tx.extend_from_slice(&[0, 0, 0, 0]); // previous output index
    tx.push(1); // scriptSig length
    tx.push(0xac); // scriptSig
    tx.extend_from_slice(&[0xff, 0xff, 0xff, 0xff]); // sequence
    tx.push(1); // one output
    tx.extend_from_slice(&[0x00, 0xf2, 0x05, 0x2a, 0x01, 0x00, 0x00, 0x00]); // 5_000_000_000
    tx.push(1); // scriptPubKey length
    tx.push(0xac); // scriptPubKey
    tx.extend_from_slice(&[0, 0, 0, 0]); // locktime
    tx
}

fn segwit_tx_bytes(flag: u8) -> Vec<u8> {
    let mut tx: Vec<u8> = Vec::new();
    tx.extend_from_slice(&[1, 0, 0, 0]); // version 1
    tx.push(0); // marker: input count reads as zero
    tx.push(flag); // segwit flag
    tx.push(1); // the real input count
    tx.extend_from_slice(&[0x22u8; 32]);
    tx.extend_from_slice(&[1, 0, 0, 0]);
    tx.push(0); // empty scriptSig
    tx.extend_from_slice(&[0xff, 0xff, 0xff, 0xff]);
    tx.push(1); // one output
    tx.extend_from_slice(&[0x40, 0x42, 0x0f, 0x00, 0x00, 0x00, 0x00, 0x00]); // 1_000_000
    tx.push(0); // empty scriptPubKey
    tx.push(2); // witness of the single input: two items
    tx.push(1);
    tx.push(0xab); // first item
    tx.push(2);
    tx.push(0xcd);
    tx.push(0xef); // second item
    tx.extend_from_slice(&[0, 0, 0, 0]); // locktime
    tx
}

fn block_bytes(time: u32, txs: &[Vec<u8>]) -> Vec<u8> {
    let mut b: Vec<u8> = Vec::new();
    b.extend_from_slice(&le32(MAGIC));
    let payload: usize = 80 + 1 + txs.iter().map(|t| t.len()).sum::<usize>();
    b.extend_from_slice(&le32(payload as u32)); // declared size
    b.extend_from_slice(&[1, 0, 0, 0]); // header version
    b.extend_from_slice(&[0x33u8; 32]); // previous block hash
    b.extend_from_slice(&[0x44u8; 32]); // merkle root
    b.extend_from_slice(&le32(time));
    b.extend_from_slice(&[0xff, 0xff, 0x00, 0x1d]); // bits
    b.extend_from_slice(&[0x2a, 0x00, 0x00, 0x00]); // nonce
    assert!(txs.len() < 0xfd);
    b.push(txs.len() as u8); // transaction count varint
    for t in txs {
        b.extend_from_slice(t);
    }
    b
}

#[test]
fn segwit_marker_triggers_witness_parsing() {
    let tx = segwit_tx_bytes(1);
    let (parsed, end) = parse_tx(&tx, 0).unwrap();
    assert_eq!(end, tx.len());
    assert!(parsed.has_witness);
    assert_eq!(parsed.in_count.value(), 1, "the real input count is re-read after the flag");
    assert_eq!(parsed.inputs.len(), 1);
    let wits = parsed.witnesses.as_ref().unwrap();
    assert_eq!(wits.len(), 1, "one witness structure per input");
    assert_eq!(wits[0].items.len(), 2);
    assert_eq!(wits[0].items[0], vec![0xabu8]);
    assert_eq!(wits[0].items[1], vec![0xcdu8, 0xef]);
}

#[test]
fn segwit_base_excludes_marker_flag_and_witness() {
    let tx = segwit_tx_bytes(1);
    let (parsed, _) = parse_tx(&tx, 0).unwrap();
    let mut expected_base: Vec<u8> = Vec::new();
    expected_base.extend_from_slice(&tx[0..4]); // version
    expected_base.extend_from_slice(&tx[6..tx.len() - 10]); // real input count through outputs
    expected_base.extend_from_slice(&tx[tx.len() - 4..]); // locktime
    assert_eq!(parsed.base, expected_base);
}

#[test]
fn segwit_bad_flag_is_an_error() {
    let tx = segwit_tx_bytes(2);
    let e = parse_tx(&tx, 0).unwrap_err();
    assert_eq!(e, DecodeError::BadSegwitFlag { offset: 5, flag: 2 });
}

#[test]
fn unsupported_version_is_an_error() {
    let mut tx = legacy_tx_bytes();
    tx[0] = 2;
    let e = parse_tx(&tx, 0).unwrap_err();
    assert_eq!(e, DecodeError::UnsupportedVersion { offset: 0, version: 2 });
}

#[test]
fn truncated_input_is_an_error() {
    let tx = &legacy_tx_bytes()[0..20];
    let e = parse_tx(&tx.to_vec(), 0).unwrap_err();
    assert_eq!(e, DecodeError::Truncated { offset: 5 });
}

#[test]
fn magic_mismatch_is_an_error() {
    let mut b = block_bytes(0, &[legacy_tx_bytes()]);
    b[0] = 0x00;
    let e = parse_block(&b, 0).unwrap_err();
    assert_eq!(e, DecodeError::MagicMismatch { offset: 0, found: 0xd9b4_be00 });
}

#[test]
fn truncated_header_is_an_error() {
    let b = block_bytes(0, &[]);
    let cut = b[0..40].to_vec();
    let e = parse_block(&cut, 0).unwrap_err();
    assert_eq!(e, DecodeError::Truncated { offset: 8 });
}

#[test]
fn end_to_end_two_files() {
    let file0 = block_bytes(0, &[legacy_tx_bytes()]);
    let file1: Vec<u8> = Vec::new();

    let mut session = Session::new();
    let blocks0 = parse_file(&mut session, &file0).unwrap();
    assert_eq!(blocks0.len(), 1);
    assert_eq!(session.next_block_index, 1);

    let recs0 = file_records(0, 0, &blocks0);
    assert_eq!(recs0.blocks.len(), 1);
    assert_eq!(recs0.blocks[0].file_index, 0);
    assert_eq!(recs0.blocks[0].block_index, 0);
    assert_eq!(recs0.blocks[0].tx_count, 1);
    assert_eq!(recs0.txs.len(), 1);
    assert_eq!(recs0.txs[0].block_index, 0);
    assert_eq!(recs0.txs[0].input_count, 1);
    assert_eq!(recs0.txs[0].output_count, 1);

    let blocks1 = parse_file(&mut session, &file1).unwrap();
    assert_eq!(blocks1.len(), 0);
    assert_eq!(session.next_block_index, 1, "the counter does not reset between files");

    let recs1 = file_records(1, session.next_block_index, &blocks1);
    assert_eq!(recs1.blocks.len(), 0);
    assert_eq!(recs1.txs.len(), 0);
}

#[test]
fn block_counter_spans_files() {
    let file0 = block_bytes(0, &[legacy_tx_bytes()]);
    let file1 = block_bytes(7, &[legacy_tx_bytes()]);
    let mut session = Session::new();
    let b0 = parse_file(&mut session, &file0).unwrap();
    let first1 = session.next_block_index;
    let b1 = parse_file(&mut session, &file1).unwrap();
    assert_eq!(session.next_block_index, 2);
    let recs0 = file_records(0, 0, &b0);
    let recs1 = file_records(1, first1, &b1);
    assert_eq!(recs0.blocks[0].block_index, 0);
    assert_eq!(recs1.blocks[0].block_index, 1);
    assert_eq!(recs1.blocks[0].file_index, 1);
}

#[test]
fn error_leaves_counter_unchanged() {
    let mut file = block_bytes(0, &[]);
    let first_len = file.len();
    file.extend_from_slice(&[0u8; 10]); // a second frame with a zero magic
    let mut session = Session::new();
    let e = parse_file(&mut session, &file).unwrap_err();
    assert_eq!(e, DecodeError::MagicMismatch { offset: first_len, found: 0 });
    assert_eq!(session.next_block_index, 0, "nothing is counted for a failed file");
}

#[test]
fn zero_transaction_block() {
    let b = block_bytes(0, &[]);
    let mut session = Session::new();
    let blocks = parse_file(&mut session, &b).unwrap();
    assert_eq!(blocks.len(), 1);
    assert_eq!(blocks[0].tx_count.value(), 0);
    assert_eq!(blocks[0].transactions.len(), 0);
    let recs = file_records(0, 0, &blocks);
    assert_eq!(recs.blocks.len(), 1);
    assert_eq!(recs.blocks[0].tx_count, 0);
    assert_eq!(recs.txs.len(), 0, "no transaction records for an empty block");
}

#[test]
fn two_frames_in_one_file() {
    let mut file: Vec<u8> = Vec::new();
    file.extend_from_slice(&block_bytes(0, &[legacy_tx_bytes()]));
    file.extend_from_slice(&block_bytes(9, &[]));
    let mut session = Session::new();
    let blocks = parse_file(&mut session, &file).unwrap();
    assert_eq!(blocks.len(), 2);
    assert_eq!(session.next_block_index, 2);
}

#[test]
fn declared_size_is_kept_but_unchecked() {
    let mut b = block_bytes(0, &[]);
    // corrupt the declared size; decoding must not care
    b[4] = 0xff;
    b[5] = 0xff;
    let (blk, _) = parse_block(&b, 0).unwrap();
    assert_eq!(blk.size, 0x0000_ffff);
}
