//! The records the decoder emits: one per block, one per transaction,
//! and optional per-input and per-output records, with header fields and
//! identifiers rendered as lowercase hex and the block timestamp rendered
//! as a calendar date and a time of day.
use vstd::prelude::*;
use crate::bytes::read_u32_le;
use crate::bytes::le_bytes_value;
use crate::hexfmt::{hex_of, hex_encode};
use crate::timefmt::{utc_date_text, utc_time_text, format_utc_date, format_utc_time};
use crate::types::{Block, BlockM, Tx, TxM};
use crate::script::{spec_disassemble, spec_render, script_to_opcodes};
use vstd::string::*;

verus! {

/// One block record: stream position, decoded timestamp, header fields
/// as hex, and the declared transaction count.
pub struct BlockRecord {
    pub file_index: u64,
    pub block_index: u64,
    pub date: String,
    pub time: String,
    pub version_hex: String,
    pub prev_hash_hex: String,
    pub merkle_root_hex: String,
    pub bits_hex: String,
    pub nonce_hex: String,
    pub tx_count: u64,
}

/// Model of a block record.
#[verifier::ext_equal]
pub ghost struct BlockRecordM {
    pub file_index: u64,
    pub block_index: u64,
    pub date: Seq<char>,
    pub time: Seq<char>,
    pub version_hex: Seq<char>,
    pub prev_hash_hex: Seq<char>,
    pub merkle_root_hex: Seq<char>,
    pub bits_hex: Seq<char>,
    pub nonce_hex: Seq<char>,
    pub tx_count: u64,
}

impl View for BlockRecord {
    type V = BlockRecordM;

    open spec fn view(&self) -> BlockRecordM {
        BlockRecordM {
            file_index: self.file_index,
            block_index: self.block_index,
            date: self.date@,
            time: self.time@,
            version_hex: self.version_hex@,
            prev_hash_hex: self.prev_hash_hex@,
            merkle_root_hex: self.merkle_root_hex@,
            bits_hex: self.bits_hex@,
            nonce_hex: self.nonce_hex@,
            tx_count: self.tx_count,
        }
    }
}

impl DeepView for BlockRecord {
    type V = BlockRecordM;

    open spec fn deep_view(&self) -> BlockRecordM {
        self.view()
    }
}

/// One transaction record: the block it sits in, its identifier in
/// natural byte order as hex, and its input and output counts.
pub struct TxRecord {
    pub block_index: u64,
    pub txid_hex: String,
    pub input_count: u64,
    pub output_count: u64,
}

/// Model of a transaction record.
#[verifier::ext_equal]
pub ghost struct TxRecordM {
    pub block_index: u64,
    pub txid_hex: Seq<char>,
    pub input_count: u64,
    pub output_count: u64,
}

impl View for TxRecord {
    type V = TxRecordM;

    open spec fn view(&self) -> TxRecordM {
        TxRecordM {
            block_index: self.block_index,
            txid_hex: self.txid_hex@,
            input_count: self.input_count,
            output_count: self.output_count,
        }
    }
}

impl DeepView for TxRecord {
    type V = TxRecordM;

    open spec fn deep_view(&self) -> TxRecordM {
        self.view()
    }
}

/// One input record: the containing transaction, the input position, the
/// referenced previous output, and the disassembled scriptSig.
pub struct InputRecord {
    pub txid_hex: String,
    pub input_index: u64,
    pub prev_txid_hex: String,
    pub vout: u32,
    pub script_sig: String,
}

/// Model of an input record.
#[verifier::ext_equal]
pub ghost struct InputRecordM {
    pub txid_hex: Seq<char>,
    pub input_index: u64,
    pub prev_txid_hex: Seq<char>,
    pub vout: u32,
    pub script_sig: Seq<char>,
}

impl View for InputRecord {
    type V = InputRecordM;

    open spec fn view(&self) -> InputRecordM {
        InputRecordM {
            txid_hex: self.txid_hex@,
            input_index: self.input_index,
            prev_txid_hex: self.prev_txid_hex@,
            vout: self.vout,
            script_sig: self.script_sig@,
        }
    }
}

/// One output record: the containing transaction, the output position,
/// the value in base units, and the disassembled scriptPubKey.
pub struct OutputRecord {
    pub txid_hex: String,
    pub output_index: u64,
    pub value: u64,
    pub script_pubkey: String,
}

/// Model of an output record.
#[verifier::ext_equal]
pub ghost struct OutputRecordM {
    pub txid_hex: Seq<char>,
    pub output_index: u64,
    pub value: u64,
    pub script_pubkey: Seq<char>,
}

impl View for OutputRecord {
    type V = OutputRecordM;

    open spec fn view(&self) -> OutputRecordM {
        OutputRecordM {
            txid_hex: self.txid_hex@,
            output_index: self.output_index,
            value: self.value,
            script_pubkey: self.script_pubkey@,
        }
    }
}

/// The observability text of a script: its rendered token sequence, or a
/// fixed marker where a push overruns the script end. The marker policy
/// reports a malformed script per record instead of aborting the run;
/// identifier computation never depends on it.
pub open spec fn spec_script_text(script: Seq<u8>) -> Seq<char> {
    match spec_disassemble(script, 0) {
        Ok(ts) => spec_render(ts),
        Err(_) => "SCRIPT_OVERRUN"@,
    }
}

/// Renders a script for a record, applying the overrun marker policy.
pub fn script_text(script: &Vec<u8>) -> (r: String)
    ensures
        r@ == spec_script_text(script@),
{
    match script_to_opcodes(script) {
        Ok(s) => s,
        Err(_) => String::from_str("SCRIPT_OVERRUN"),
    }
}

/// The record of one block at a stream position.
pub open spec fn spec_block_record(file_index: u64, block_index: u64, b: BlockM) -> BlockRecordM {
    let ts = le_bytes_value(b.header.time) as u32;
    BlockRecordM {
        file_index,
        block_index,
        date: utc_date_text(ts),
        time: utc_time_text(ts),
        version_hex: hex_of(b.header.version),
        prev_hash_hex: hex_of(b.header.prev_hash),
        merkle_root_hex: hex_of(b.header.merkle_root),
        bits_hex: hex_of(b.header.bits),
        nonce_hex: hex_of(b.header.nonce),
        tx_count: b.tx_count.value as u64,
    }
}

/// Builds the record of one block.
pub fn block_record(file_index: u64, block_index: u64, b: &Block) -> (r: BlockRecord)
    requires
        b@.header.wf(),
    ensures
        r@ == spec_block_record(file_index, block_index, b@),
{
    let ts = read_u32_le(&b.header.time, 0);
    proof {
        assert(b.header.time@.subrange(0, 4) =~= b@.header.time);
    }
    let r = BlockRecord {
        file_index,
        block_index,
        date: format_utc_date(ts),
        time: format_utc_time(ts),
        version_hex: hex_encode(&b.header.version),
        prev_hash_hex: hex_encode(&b.header.prev_hash),
        merkle_root_hex: hex_encode(&b.header.merkle_root),
        bits_hex: hex_encode(&b.header.bits),
        nonce_hex: hex_encode(&b.header.nonce),
        tx_count: b.tx_count.value,
    };
    proof {
        assert(r@ =~= spec_block_record(file_index, block_index, b@));
    }
    r
}

/// The record of one transaction in a block: identifier hex in natural
/// byte order, and the decoded input and output counts.
pub open spec fn spec_tx_record(block_index: u64, t: TxM) -> TxRecordM {
    TxRecordM {
        block_index,
        txid_hex: hex_of(t.txid),
        input_count: t.in_count.value as u64,
        output_count: t.out_count.value as u64,
    }
}

/// Builds the record of one transaction.
pub fn tx_record(block_index: u64, t: &Tx) -> (r: TxRecord)
    ensures
        r@ == spec_tx_record(block_index, t@),
{
    TxRecord {
        block_index,
        txid_hex: hex_encode(&t.txid),
        input_count: t.in_count.value,
        output_count: t.out_count.value,
    }
}

/// The record of input `i` of a transaction.
pub open spec fn spec_input_record(t: TxM, i: int) -> InputRecordM {
    InputRecordM {
        txid_hex: hex_of(t.txid),
        input_index: i as u64,
        prev_txid_hex: hex_of(t.inputs[i].txid),
        vout: t.inputs[i].vout,
        script_sig: spec_script_text(t.inputs[i].script),
    }
}

/// Builds one record per input of a transaction, in input order.
pub fn tx_input_records(t: &Tx) -> (r: Vec<InputRecord>)
    ensures
        r@.len() == t@.inputs.len(),
        forall|i: int| 0 <= i < r@.len() ==> (#[trigger] r@[i])@ == spec_input_record(t@, i),
{
    let mut r: Vec<InputRecord> = Vec::new();
    let mut i: usize = 0;
    proof {
        assert(t.inputs@.len() == t.inputs.len());
    }
    while i < t.inputs.len()
        invariant
            i <= t@.inputs.len(),
            r@.len() == i,
            forall|j: int| 0 <= j < i ==> (#[trigger] r@[j])@ == spec_input_record(t@, j),
        decreases t@.inputs.len() - i,
    {
        let inp = &t.inputs[i];
        r.push(
            InputRecord {
                txid_hex: hex_encode(&t.txid),
                input_index: i as u64,
                prev_txid_hex: hex_encode(&inp.txid),
                vout: inp.vout,
                script_sig: script_text(&inp.script),
            },
        );
        i = i + 1;
    }
    r
}

/// The record of output `i` of a transaction.
pub open spec fn spec_output_record(t: TxM, i: int) -> OutputRecordM {
    OutputRecordM {
        txid_hex: hex_of(t.txid),
        output_index: i as u64,
        value: t.outputs[i].value,
        script_pubkey: spec_script_text(t.outputs[i].script),
    }
}

/// Builds one record per output of a transaction, in output order.
pub fn tx_output_records(t: &Tx) -> (r: Vec<OutputRecord>)
    ensures
        r@.len() == t@.outputs.len(),
        forall|i: int| 0 <= i < r@.len() ==> (#[trigger] r@[i])@ == spec_output_record(t@, i),
{
    let mut r: Vec<OutputRecord> = Vec::new();
    let mut i: usize = 0;
    proof {
        assert(t.outputs@.len() == t.outputs.len());
    }
    while i < t.outputs.len()
        invariant
            i <= t@.outputs.len(),
            r@.len() == i,
            forall|j: int| 0 <= j < i ==> (#[trigger] r@[j])@ == spec_output_record(t@, j),
        decreases t@.outputs.len() - i,
    {
        let out = &t.outputs[i];
        r.push(
            OutputRecord {
                txid_hex: hex_encode(&t.txid),
                output_index: i as u64,
                value: out.value,
                script_pubkey: script_text(&out.script),
            },
        );
        i = i + 1;
    }
    r
}

/// The block records of a file's blocks: consecutive block indices from
/// `first` on, all under one file index.
pub open spec fn spec_block_records(file_index: u64, first: int, blocks: Seq<BlockM>) -> Seq<
    BlockRecordM,
> {
    Seq::new(blocks.len(), |i: int| spec_block_record(file_index, (first + i) as u64, blocks[i]))
}

/// The transaction records of one block, in transaction order.
pub open spec fn spec_block_tx_records(block_index: u64, txs: Seq<TxM>) -> Seq<TxRecordM> {
    Seq::new(txs.len(), |i: int| spec_tx_record(block_index, txs[i]))
}

/// The transaction records of a file's blocks, flattened in block order.
pub open spec fn spec_file_tx_records(first: int, blocks: Seq<BlockM>) -> Seq<TxRecordM>
    decreases blocks.len(),
{
    if blocks.len() == 0 {
        Seq::empty()
    } else {
        spec_file_tx_records(first, blocks.drop_last()) + spec_block_tx_records(
            (first + blocks.len() - 1) as u64,
            blocks.last().txs,
        )
    }
}

/// The records of one file: one block record per frame and one
/// transaction record per transaction.
pub struct FileRecords {
    pub blocks: Vec<BlockRecord>,
    pub txs: Vec<TxRecord>,
}

/// Builds the records of one decoded file: block records with
/// consecutive block indices from `first_block_index` on, and the
/// transaction records of every block, flattened in block order.
pub fn file_records(file_index: u64, first_block_index: u64, blocks: &Vec<Block>) -> (r:
    FileRecords)
    requires
        first_block_index + blocks@.len() <= u64::MAX,
        forall|i: int| 0 <= i < blocks@.len() ==> (#[trigger] blocks@[i]@).header.wf(),
    ensures
        r.blocks.deep_view() == spec_block_records(
            file_index,
            first_block_index as int,
            blocks.deep_view(),
        ),
        r.txs.deep_view() == spec_file_tx_records(first_block_index as int, blocks.deep_view()),
{
    let ghost bs = blocks.deep_view();
    let mut brs: Vec<BlockRecord> = Vec::new();
    let mut trs: Vec<TxRecord> = Vec::new();
    let mut bi: usize = 0;
    proof {
        assert(blocks@.len() == blocks.len());
        assert(brs.deep_view() =~= spec_block_records(
            file_index,
            first_block_index as int,
            bs.take(0),
        ));
        assert(trs.deep_view() =~= spec_file_tx_records(first_block_index as int, bs.take(0)));
    }
    while bi < blocks.len()
        invariant
            bi <= blocks@.len(),
            brs.deep_view() == spec_block_records(
                file_index,
                first_block_index as int,
                bs.take(bi as int),
            ),
            trs.deep_view() == spec_file_tx_records(first_block_index as int, bs.take(bi as int)),
        decreases blocks@.len() - bi,
    {
        let b = &blocks[bi];
        let idx = first_block_index + bi as u64;
        proof {
            assert(blocks@[bi as int]@ == bs[bi as int]);
        }
        let ghost old_brs = brs.deep_view();
        let ghost old_trs = trs.deep_view();
        brs.push(block_record(file_index, idx, b));
        proof {
            assert(brs.deep_view() =~= old_brs.push(
                spec_block_record(file_index, idx, bs[bi as int]),
            ));
            assert(bs.take(bi as int + 1).drop_last() =~= bs.take(bi as int));
            assert(brs.deep_view() =~= spec_block_records(
                file_index,
                first_block_index as int,
                bs.take(bi as int + 1),
            ));
        }
        let ghost txs_m = bs[bi as int].txs;
        let mut ti: usize = 0;
        proof {
            assert(b.transactions@.len() == b.transactions.len());
            assert(b@.txs == txs_m);
            assert(trs.deep_view() =~= old_trs + spec_block_tx_records(idx, txs_m.take(0)));
        }
        while ti < b.transactions.len()
            invariant
                ti <= txs_m.len(),
                txs_m == b@.txs,
                b == blocks[bi as int],
                bi < blocks@.len(),
                idx == first_block_index + bi,
                trs.deep_view() == old_trs + spec_block_tx_records(idx, txs_m.take(ti as int)),
            decreases txs_m.len() - ti,
        {
            let ghost prev = trs.deep_view();
            trs.push(tx_record(idx, &b.transactions[ti]));
            proof {
                assert(b.transactions@[ti as int]@ == txs_m[ti as int]);
                assert(trs.deep_view() =~= prev.push(spec_tx_record(idx, txs_m[ti as int])));
                assert(spec_block_tx_records(idx, txs_m.take(ti as int + 1)) =~= spec_block_tx_records(
                    idx,
                    txs_m.take(ti as int),
                ).push(spec_tx_record(idx, txs_m[ti as int])));
                assert(trs.deep_view() =~= old_trs + spec_block_tx_records(
                    idx,
                    txs_m.take(ti as int + 1),
                ));
            }
            ti = ti + 1;
        }
        proof {
            assert(txs_m.take(txs_m.len() as int) =~= txs_m);
            assert(bs.take(bi as int + 1).drop_last() =~= bs.take(bi as int));
            assert(bs.take(bi as int + 1).last() == bs[bi as int]);
            assert(trs.deep_view() =~= spec_file_tx_records(
                first_block_index as int,
                bs.take(bi as int + 1),
            ));
        }
        bi = bi + 1;
    }
    proof {
        assert(bs.take(blocks@.len() as int) =~= bs);
    }
    FileRecords { blocks: brs, txs: trs }
}

} // verus!
