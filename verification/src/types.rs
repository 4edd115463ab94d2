//! The structured entities of the wire format: header, block,
//! transaction, input, output and witness, with their mathematical models.
//!
//! Header fields stay raw byte buffers rather than parsed integers: they
//! are displayed in hex and hashed byte for byte; only the timestamp gets
//! a numeric reading, derived on demand.
use vstd::prelude::*;
use crate::varint::{VarInt, VarIntM};

verus! {

/// The six raw fields of an 80-byte block header.
#[derive(Debug)]
pub struct Header {
    pub version: Vec<u8>,
    pub prev_hash: Vec<u8>,
    pub merkle_root: Vec<u8>,
    pub time: Vec<u8>,
    pub bits: Vec<u8>,
    pub nonce: Vec<u8>,
}

/// Model of a header: the same six fields as byte sequences.
#[verifier::ext_equal]
pub ghost struct HeaderM {
    pub version: Seq<u8>,
    pub prev_hash: Seq<u8>,
    pub merkle_root: Seq<u8>,
    pub time: Seq<u8>,
    pub bits: Seq<u8>,
    pub nonce: Seq<u8>,
}

impl HeaderM {
    /// The fields have their fixed wire sizes.
    pub open spec fn wf(self) -> bool {
        &&& self.version.len() == 4
        &&& self.prev_hash.len() == 32
        &&& self.merkle_root.len() == 32
        &&& self.time.len() == 4
        &&& self.bits.len() == 4
        &&& self.nonce.len() == 4
    }
}

impl View for Header {
    type V = HeaderM;

    open spec fn view(&self) -> HeaderM {
        HeaderM {
            version: self.version@,
            prev_hash: self.prev_hash@,
            merkle_root: self.merkle_root@,
            time: self.time@,
            bits: self.bits@,
            nonce: self.nonce@,
        }
    }
}

impl DeepView for Header {
    type V = HeaderM;

    open spec fn deep_view(&self) -> HeaderM {
        self.view()
    }
}

/// One transaction input: previous transaction id, previous output index,
/// the scriptSig with its length varint kept verbatim, and the sequence
/// field.
#[derive(Debug)]
pub struct Input {
    pub txid: Vec<u8>,
    pub vout: u32,
    pub script_len: VarInt,
    pub script: Vec<u8>,
    pub sequence: Vec<u8>,
}

/// Model of an input.
#[verifier::ext_equal]
pub ghost struct InputM {
    pub txid: Seq<u8>,
    pub vout: u32,
    pub script_len: VarIntM,
    pub script: Seq<u8>,
    pub sequence: Seq<u8>,
}

impl View for Input {
    type V = InputM;

    open spec fn view(&self) -> InputM {
        InputM {
            txid: self.txid@,
            vout: self.vout,
            script_len: self.script_len@,
            script: self.script@,
            sequence: self.sequence@,
        }
    }
}

impl DeepView for Input {
    type V = InputM;

    open spec fn deep_view(&self) -> InputM {
        self.view()
    }
}

/// One transaction output: a value in indivisible base units and the
/// scriptPubKey, possibly empty, with its length varint kept verbatim.
#[derive(Debug)]
pub struct Output {
    pub value: u64,
    pub script_len: VarInt,
    pub script: Vec<u8>,
}

/// Model of an output.
#[verifier::ext_equal]
pub ghost struct OutputM {
    pub value: u64,
    pub script_len: VarIntM,
    pub script: Seq<u8>,
}

impl View for Output {
    type V = OutputM;

    open spec fn view(&self) -> OutputM {
        OutputM { value: self.value, script_len: self.script_len@, script: self.script@ }
    }
}

impl DeepView for Output {
    type V = OutputM;

    open spec fn deep_view(&self) -> OutputM {
        self.view()
    }
}

/// One witness structure: the ordered stack items of one input.
#[derive(Debug)]
pub struct Witness {
    pub items: Vec<Vec<u8>>,
}

/// Model of a witness: its stack items as byte sequences.
#[verifier::ext_equal]
pub ghost struct WitnessM {
    pub items: Seq<Seq<u8>>,
}

impl View for Witness {
    type V = WitnessM;

    open spec fn view(&self) -> WitnessM {
        WitnessM { items: self.items.deep_view() }
    }
}

impl DeepView for Witness {
    type V = WitnessM;

    open spec fn deep_view(&self) -> WitnessM {
        self.view()
    }
}

/// One decoded transaction, together with its base serialization (every
/// field except the segwit marker/flag and the witness stacks, in original
/// order with the original varint bytes) and the identifier computed from
/// it.
#[derive(Debug)]
pub struct Tx {
    pub version: u32,
    pub has_witness: bool,
    pub in_count: VarInt,
    pub inputs: Vec<Input>,
    pub out_count: VarInt,
    pub outputs: Vec<Output>,
    pub witnesses: Option<Vec<Witness>>,
    pub lock_time: Vec<u8>,
    pub base: Vec<u8>,
    pub txid: Vec<u8>,
}

/// Model of a transaction.
#[verifier::ext_equal]
pub ghost struct TxM {
    pub version: u32,
    pub has_witness: bool,
    pub in_count: VarIntM,
    pub inputs: Seq<InputM>,
    pub out_count: VarIntM,
    pub outputs: Seq<OutputM>,
    pub witnesses: Option<Seq<WitnessM>>,
    pub lock_time: Seq<u8>,
    pub base: Seq<u8>,
    pub txid: Seq<u8>,
}

impl View for Tx {
    type V = TxM;

    open spec fn view(&self) -> TxM {
        TxM {
            version: self.version,
            has_witness: self.has_witness,
            in_count: self.in_count@,
            inputs: self.inputs.deep_view(),
            out_count: self.out_count@,
            outputs: self.outputs.deep_view(),
            witnesses: match self.witnesses {
                Some(w) => Some(w.deep_view()),
                None => None,
            },
            lock_time: self.lock_time@,
            base: self.base@,
            txid: self.txid@,
        }
    }
}

impl DeepView for Tx {
    type V = TxM;

    open spec fn deep_view(&self) -> TxM {
        self.view()
    }
}

/// One block: the declared frame size (kept for reporting, never checked
/// against the bytes consumed), the header, the transaction-count varint
/// and the transactions.
#[derive(Debug)]
pub struct Block {
    pub size: u32,
    pub header: Header,
    pub tx_count: VarInt,
    pub transactions: Vec<Tx>,
}

/// Model of a block.
#[verifier::ext_equal]
pub ghost struct BlockM {
    pub size: u32,
    pub header: HeaderM,
    pub tx_count: VarIntM,
    pub txs: Seq<TxM>,
}

impl View for Block {
    type V = BlockM;

    open spec fn view(&self) -> BlockM {
        BlockM {
            size: self.size,
            header: self.header@,
            tx_count: self.tx_count@,
            txs: self.transactions.deep_view(),
        }
    }
}

impl DeepView for Block {
    type V = BlockM;

    open spec fn deep_view(&self) -> BlockM {
        self.view()
    }
}

} // verus!
