//! The block and transaction decoder: consumes a byte buffer of one
//! source file, validates frame magic, and produces structured blocks,
//! transactions and their computed identifiers.
//!
//! Every parsing function is specified against a spec-level parser over
//! the byte sequence; decoding succeeds if and only if the spec parser
//! does, with the same result and the same error.
use vstd::prelude::*;
use crate::bytes::{
    le_bytes_value, read_u32_le, read_u64_le, copy_range, append_range, lemma_subrange_merge,
};
use crate::errors::DecodeError;
use crate::varint::{VarInt, VarIntM, spec_read_varint, read_varint};
use crate::types::{
    Header, HeaderM, Input, InputM, Output, OutputM, Witness, WitnessM, Tx, TxM, Block, BlockM,
};
use crate::txhash::{sha256_of, compute_txid};

verus! {

/// The 4-byte magic constant that starts every frame, as a little-endian
/// integer.
pub const MAGIC: u32 = 0xd9b4_bef9;

/// What parsing one input at `pos` yields: the structured input and the
/// position just past it, or the exact error.
pub open spec fn spec_parse_input(s: Seq<u8>, pos: int) -> Result<(InputM, int), DecodeError> {
    if pos + 32 > s.len() {
        Err(DecodeError::Truncated { offset: pos as usize })
    } else if pos + 36 > s.len() {
        Err(DecodeError::Truncated { offset: (pos + 32) as usize })
    } else {
        match spec_read_varint(s, pos + 36) {
            None => Err(DecodeError::Truncated { offset: (pos + 36) as usize }),
            Some(sl) => {
                let script_start = pos + 36 + sl.raw.len();
                let script_end = script_start + sl.value;
                if script_end > s.len() {
                    Err(DecodeError::Truncated { offset: script_start as usize })
                } else if script_end + 4 > s.len() {
                    Err(DecodeError::Truncated { offset: script_end as usize })
                } else {
                    Ok(
                        (
                            InputM {
                                txid: s.subrange(pos, pos + 32),
                                vout: le_bytes_value(s.subrange(pos + 32, pos + 36)) as u32,
                                script_len: sl,
                                script: s.subrange(script_start, script_end),
                                sequence: s.subrange(script_end, script_end + 4),
                            },
                            script_end + 4,
                        ),
                    )
                }
            },
        }
    }
}

/// A parsed input ends inside the buffer, past where it began.
pub proof fn lemma_parse_input_bounds(s: Seq<u8>, pos: int)
    requires
        spec_parse_input(s, pos) is Ok,
    ensures
        pos < spec_parse_input(s, pos).unwrap().1 <= s.len(),
{
}

/// The first `n` inputs from `pos` on, parsed in order.
pub open spec fn spec_parse_inputs(s: Seq<u8>, pos: int, n: nat) -> Result<
    (Seq<InputM>, int),
    DecodeError,
>
    decreases n,
{
    if n == 0 {
        Ok((Seq::empty(), pos))
    } else {
        match spec_parse_inputs(s, pos, (n - 1) as nat) {
            Err(e) => Err(e),
            Ok((items, p)) => match spec_parse_input(s, p) {
                Err(e) => Err(e),
                Ok((it, p2)) => Ok((items.push(it), p2)),
            },
        }
    }
}

/// Once a prefix of the items fails, every longer prefix fails the same
/// way.
pub proof fn lemma_parse_inputs_err(s: Seq<u8>, pos: int, m: nat, n: nat)
    requires
        m <= n,
        spec_parse_inputs(s, pos, m) is Err,
    ensures
        spec_parse_inputs(s, pos, n) == spec_parse_inputs(s, pos, m),
    decreases n,
{
    if m < n {
        lemma_parse_inputs_err(s, pos, m, (n - 1) as nat);
    }
}

/// Parsed inputs stay inside the buffer and come out one per count.
pub proof fn lemma_parse_inputs_bounds(s: Seq<u8>, pos: int, n: nat)
    requires
        0 <= pos <= s.len(),
        spec_parse_inputs(s, pos, n) is Ok,
    ensures
        pos <= spec_parse_inputs(s, pos, n).unwrap().1 <= s.len(),
        spec_parse_inputs(s, pos, n).unwrap().0.len() == n,
    decreases n,
{
    if n > 0 {
        lemma_parse_inputs_bounds(s, pos, (n - 1) as nat);
        let p = spec_parse_inputs(s, pos, (n - 1) as nat).unwrap().1;
        lemma_parse_input_bounds(s, p);
    }
}

/// What parsing one output at `pos` yields.
pub open spec fn spec_parse_output(s: Seq<u8>, pos: int) -> Result<(OutputM, int), DecodeError> {
    if pos + 8 > s.len() {
        Err(DecodeError::Truncated { offset: pos as usize })
    } else {
        match spec_read_varint(s, pos + 8) {
            None => Err(DecodeError::Truncated { offset: (pos + 8) as usize }),
            Some(sl) => {
                let script_start = pos + 8 + sl.raw.len();
                let script_end = script_start + sl.value;
                if script_end > s.len() {
                    Err(DecodeError::Truncated { offset: script_start as usize })
                } else {
                    Ok(
                        (
                            OutputM {
                                value: le_bytes_value(s.subrange(pos, pos + 8)) as u64,
                                script_len: sl,
                                script: s.subrange(script_start, script_end),
                            },
                            script_end,
                        ),
                    )
                }
            },
        }
    }
}

/// A parsed output ends inside the buffer, past where it began.
pub proof fn lemma_parse_output_bounds(s: Seq<u8>, pos: int)
    requires
        spec_parse_output(s, pos) is Ok,
    ensures
        pos < spec_parse_output(s, pos).unwrap().1 <= s.len(),
{
}

/// The first `n` outputs from `pos` on, parsed in order.
pub open spec fn spec_parse_outputs(s: Seq<u8>, pos: int, n: nat) -> Result<
    (Seq<OutputM>, int),
    DecodeError,
>
    decreases n,
{
    if n == 0 {
        Ok((Seq::empty(), pos))
    } else {
        match spec_parse_outputs(s, pos, (n - 1) as nat) {
            Err(e) => Err(e),
            Ok((items, p)) => match spec_parse_output(s, p) {
                Err(e) => Err(e),
                Ok((it, p2)) => Ok((items.push(it), p2)),
            },
        }
    }
}

/// Once a prefix of the outputs fails, every longer prefix fails the same
/// way.
pub proof fn lemma_parse_outputs_err(s: Seq<u8>, pos: int, m: nat, n: nat)
    requires
        m <= n,
        spec_parse_outputs(s, pos, m) is Err,
    ensures
        spec_parse_outputs(s, pos, n) == spec_parse_outputs(s, pos, m),
    decreases n,
{
    if m < n {
        lemma_parse_outputs_err(s, pos, m, (n - 1) as nat);
    }
}

/// Parsed outputs stay inside the buffer.
pub proof fn lemma_parse_outputs_bounds(s: Seq<u8>, pos: int, n: nat)
    requires
        0 <= pos <= s.len(),
        spec_parse_outputs(s, pos, n) is Ok,
    ensures
        pos <= spec_parse_outputs(s, pos, n).unwrap().1 <= s.len(),
        spec_parse_outputs(s, pos, n).unwrap().0.len() == n,
    decreases n,
{
    if n > 0 {
        lemma_parse_outputs_bounds(s, pos, (n - 1) as nat);
        let p = spec_parse_outputs(s, pos, (n - 1) as nat).unwrap().1;
        lemma_parse_output_bounds(s, p);
    }
}

/// One witness stack item: a varint length, then that many bytes.
pub open spec fn spec_parse_witness_item(s: Seq<u8>, pos: int) -> Result<
    (Seq<u8>, int),
    DecodeError,
> {
    match spec_read_varint(s, pos) {
        None => Err(DecodeError::Truncated { offset: pos as usize }),
        Some(l) => {
            let start = pos + l.raw.len();
            let end = start + l.value;
            if end > s.len() {
                Err(DecodeError::Truncated { offset: start as usize })
            } else {
                Ok((s.subrange(start, end), end))
            }
        },
    }
}

/// A parsed witness item ends inside the buffer, past where it began.
pub proof fn lemma_parse_witness_item_bounds(s: Seq<u8>, pos: int)
    requires
        spec_parse_witness_item(s, pos) is Ok,
    ensures
        pos < spec_parse_witness_item(s, pos).unwrap().1 <= s.len(),
{
}

/// The first `n` witness stack items from `pos` on.
pub open spec fn spec_parse_witness_items(s: Seq<u8>, pos: int, n: nat) -> Result<
    (Seq<Seq<u8>>, int),
    DecodeError,
>
    decreases n,
{
    if n == 0 {
        Ok((Seq::empty(), pos))
    } else {
        match spec_parse_witness_items(s, pos, (n - 1) as nat) {
            Err(e) => Err(e),
            Ok((items, p)) => match spec_parse_witness_item(s, p) {
                Err(e) => Err(e),
                Ok((it, p2)) => Ok((items.push(it), p2)),
            },
        }
    }
}

/// Once a prefix of the witness items fails, every longer prefix fails
/// the same way.
pub proof fn lemma_parse_witness_items_err(s: Seq<u8>, pos: int, m: nat, n: nat)
    requires
        m <= n,
        spec_parse_witness_items(s, pos, m) is Err,
    ensures
        spec_parse_witness_items(s, pos, n) == spec_parse_witness_items(s, pos, m),
    decreases n,
{
    if m < n {
        lemma_parse_witness_items_err(s, pos, m, (n - 1) as nat);
    }
}

/// Parsed witness items stay inside the buffer.
pub proof fn lemma_parse_witness_items_bounds(s: Seq<u8>, pos: int, n: nat)
    requires
        0 <= pos <= s.len(),
        spec_parse_witness_items(s, pos, n) is Ok,
    ensures
        pos <= spec_parse_witness_items(s, pos, n).unwrap().1 <= s.len(),
        spec_parse_witness_items(s, pos, n).unwrap().0.len() == n,
    decreases n,
{
    if n > 0 {
        lemma_parse_witness_items_bounds(s, pos, (n - 1) as nat);
        let p = spec_parse_witness_items(s, pos, (n - 1) as nat).unwrap().1;
        lemma_parse_witness_item_bounds(s, p);
    }
}

/// One witness structure: a varint item count, then that many items.
pub open spec fn spec_parse_witness(s: Seq<u8>, pos: int) -> Result<(WitnessM, int), DecodeError> {
    match spec_read_varint(s, pos) {
        None => Err(DecodeError::Truncated { offset: pos as usize }),
        Some(c) => match spec_parse_witness_items(s, pos + c.raw.len(), c.value) {
            Err(e) => Err(e),
            Ok((items, p)) => Ok((WitnessM { items }, p)),
        },
    }
}

/// A parsed witness ends inside the buffer, past where it began.
pub proof fn lemma_parse_witness_bounds(s: Seq<u8>, pos: int)
    requires
        spec_parse_witness(s, pos) is Ok,
    ensures
        pos < spec_parse_witness(s, pos).unwrap().1 <= s.len(),
{
    let c = spec_read_varint(s, pos).unwrap();
    lemma_parse_witness_items_bounds(s, pos + c.raw.len(), c.value);
}

/// One witness structure per input, in input order.
pub open spec fn spec_parse_witnesses(s: Seq<u8>, pos: int, n: nat) -> Result<
    (Seq<WitnessM>, int),
    DecodeError,
>
    decreases n,
{
    if n == 0 {
        Ok((Seq::empty(), pos))
    } else {
        match spec_parse_witnesses(s, pos, (n - 1) as nat) {
            Err(e) => Err(e),
            Ok((items, p)) => match spec_parse_witness(s, p) {
                Err(e) => Err(e),
                Ok((it, p2)) => Ok((items.push(it), p2)),
            },
        }
    }
}

/// Once a prefix of the witnesses fails, every longer prefix fails the
/// same way.
pub proof fn lemma_parse_witnesses_err(s: Seq<u8>, pos: int, m: nat, n: nat)
    requires
        m <= n,
        spec_parse_witnesses(s, pos, m) is Err,
    ensures
        spec_parse_witnesses(s, pos, n) == spec_parse_witnesses(s, pos, m),
    decreases n,
{
    if m < n {
        lemma_parse_witnesses_err(s, pos, m, (n - 1) as nat);
    }
}

/// Parsed witnesses stay inside the buffer.
pub proof fn lemma_parse_witnesses_bounds(s: Seq<u8>, pos: int, n: nat)
    requires
        0 <= pos <= s.len(),
        spec_parse_witnesses(s, pos, n) is Ok,
    ensures
        pos <= spec_parse_witnesses(s, pos, n).unwrap().1 <= s.len(),
        spec_parse_witnesses(s, pos, n).unwrap().0.len() == n,
    decreases n,
{
    if n > 0 {
        lemma_parse_witnesses_bounds(s, pos, (n - 1) as nat);
        let p = spec_parse_witnesses(s, pos, (n - 1) as nat).unwrap().1;
        lemma_parse_witness_bounds(s, p);
    }
}

/// The tail of a transaction once the real input count is known:
/// `tx_start` is where the version field began, `in_count` the real input
/// count with its raw bytes, `body_start` the position just after it.
/// The base serialization is the version, the input-count bytes, the
/// contiguous inputs-through-outputs region and the locktime — exactly
/// the fields the identifier is hashed over, marker/flag and witnesses
/// excluded.
pub open spec fn spec_parse_tx_body(
    s: Seq<u8>,
    tx_start: int,
    has_witness: bool,
    in_count: VarIntM,
    body_start: int,
) -> Result<(TxM, int), DecodeError> {
    match spec_parse_inputs(s, body_start, in_count.value) {
        Err(e) => Err(e),
        Ok((inputs, p1)) => match spec_read_varint(s, p1) {
            None => Err(DecodeError::Truncated { offset: p1 as usize }),
            Some(oc) => match spec_parse_outputs(s, p1 + oc.raw.len(), oc.value) {
                Err(e) => Err(e),
                Ok((outputs, p2)) => {
                    let wits = if has_witness {
                        spec_parse_witnesses(s, p2, in_count.value)
                    } else {
                        Ok((Seq::empty(), p2))
                    };
                    match wits {
                        Err(e) => Err(e),
                        Ok((ws, p3)) => {
                            if p3 + 4 > s.len() {
                                Err(DecodeError::Truncated { offset: p3 as usize })
                            } else {
                                let base = s.subrange(tx_start, tx_start + 4) + in_count.raw
                                    + s.subrange(body_start, p2) + s.subrange(p3, p3 + 4);
                                Ok(
                                    (
                                        TxM {
                                            version: 1,
                                            has_witness,
                                            in_count,
                                            inputs,
                                            out_count: oc,
                                            outputs,
                                            witnesses: if has_witness {
                                                Some(ws)
                                            } else {
                                                None
                                            },
                                            lock_time: s.subrange(p3, p3 + 4),
                                            base,
                                            txid: sha256_of(sha256_of(base)),
                                        },
                                        p3 + 4,
                                    ),
                                )
                            }
                        },
                    }
                },
            },
        },
    }
}

/// What parsing one transaction at `pos` yields. The accepted version is
/// exactly 1, and any other value is rejected with its offset — the
/// strict policy, applied uniformly; an input count of zero is the
/// segwit marker and must be followed by the flag byte 1 and the real
/// input count.
pub open spec fn spec_parse_tx(s: Seq<u8>, pos: int) -> Result<(TxM, int), DecodeError> {
    if pos + 4 > s.len() {
        Err(DecodeError::Truncated { offset: pos as usize })
    } else if le_bytes_value(s.subrange(pos, pos + 4)) != 1 {
        Err(
            DecodeError::UnsupportedVersion {
                offset: pos as usize,
                version: le_bytes_value(s.subrange(pos, pos + 4)) as u32,
            },
        )
    } else {
        match spec_read_varint(s, pos + 4) {
            None => Err(DecodeError::Truncated { offset: (pos + 4) as usize }),
            Some(c0) => {
                if c0.value == 0 {
                    let flag_pos = pos + 4 + c0.raw.len();
                    if flag_pos + 1 > s.len() {
                        Err(DecodeError::Truncated { offset: flag_pos as usize })
                    } else if s[flag_pos] != 1 {
                        Err(
                            DecodeError::BadSegwitFlag {
                                offset: flag_pos as usize,
                                flag: s[flag_pos],
                            },
                        )
                    } else {
                        match spec_read_varint(s, flag_pos + 1) {
                            None => Err(DecodeError::Truncated { offset: (flag_pos + 1) as usize }),
                            Some(ic) => spec_parse_tx_body(
                                s,
                                pos,
                                true,
                                ic,
                                flag_pos + 1 + ic.raw.len(),
                            ),
                        }
                    }
                } else {
                    spec_parse_tx_body(s, pos, false, c0, pos + 4 + c0.raw.len())
                }
            },
        }
    }
}

/// A parsed transaction ends inside the buffer, past where it began.
pub proof fn lemma_parse_tx_bounds(s: Seq<u8>, pos: int)
    requires
        0 <= pos,
        spec_parse_tx(s, pos) is Ok,
    ensures
        pos < spec_parse_tx(s, pos).unwrap().1 <= s.len(),
{
    let c0 = spec_read_varint(s, pos + 4).unwrap();
    if c0.value == 0 {
        let flag_pos = pos + 4 + c0.raw.len();
        let ic = spec_read_varint(s, flag_pos + 1).unwrap();
        lemma_parse_tx_body_bounds(s, pos, true, ic, flag_pos + 1 + ic.raw.len());
    } else {
        lemma_parse_tx_body_bounds(s, pos, false, c0, pos + 4 + c0.raw.len());
    }
}

/// The tail of a transaction ends inside the buffer, past the input-count
/// field.
pub proof fn lemma_parse_tx_body_bounds(
    s: Seq<u8>,
    tx_start: int,
    has_witness: bool,
    in_count: VarIntM,
    body_start: int,
)
    requires
        0 <= body_start <= s.len(),
        spec_parse_tx_body(s, tx_start, has_witness, in_count, body_start) is Ok,
    ensures
        body_start < spec_parse_tx_body(s, tx_start, has_witness, in_count, body_start).unwrap().1
            <= s.len(),
{
    lemma_parse_inputs_bounds(s, body_start, in_count.value);
    let p1 = spec_parse_inputs(s, body_start, in_count.value).unwrap().1;
    let oc = spec_read_varint(s, p1).unwrap();
    lemma_parse_outputs_bounds(s, p1 + oc.raw.len(), oc.value);
    let p2 = spec_parse_outputs(s, p1 + oc.raw.len(), oc.value).unwrap().1;
    if has_witness {
        lemma_parse_witnesses_bounds(s, p2, in_count.value);
    }
}

/// The shape of every successfully parsed transaction: the decoded
/// sequences match their count fields, witnesses are present exactly
/// when the marker/flag was seen — one structure per input — and the
/// identifier is the double hash of the base serialization.
pub proof fn lemma_parse_tx_shape(s: Seq<u8>, pos: int)
    requires
        0 <= pos,
        spec_parse_tx(s, pos) is Ok,
    ensures
        ({
            let tx = spec_parse_tx(s, pos).unwrap().0;
            &&& tx.version == 1
            &&& tx.inputs.len() == tx.in_count.value
            &&& tx.outputs.len() == tx.out_count.value
            &&& (tx.has_witness <==> tx.witnesses is Some)
            &&& (tx.has_witness ==> tx.witnesses.unwrap().len() == tx.in_count.value)
            &&& tx.lock_time.len() == 4
            &&& tx.txid == sha256_of(sha256_of(tx.base))
        }),
{
    let c0 = spec_read_varint(s, pos + 4).unwrap();
    if c0.value == 0 {
        let flag_pos = pos + 4 + c0.raw.len();
        let ic = spec_read_varint(s, flag_pos + 1).unwrap();
        let body_start = flag_pos + 1 + ic.raw.len();
        lemma_parse_inputs_bounds(s, body_start, ic.value);
        let p1 = spec_parse_inputs(s, body_start, ic.value).unwrap().1;
        let oc = spec_read_varint(s, p1).unwrap();
        lemma_parse_outputs_bounds(s, p1 + oc.raw.len(), oc.value);
        let p2 = spec_parse_outputs(s, p1 + oc.raw.len(), oc.value).unwrap().1;
        lemma_parse_witnesses_bounds(s, p2, ic.value);
    } else {
        let body_start = pos + 4 + c0.raw.len();
        lemma_parse_inputs_bounds(s, body_start, c0.value);
        let p1 = spec_parse_inputs(s, body_start, c0.value).unwrap().1;
        let oc = spec_read_varint(s, p1).unwrap();
        lemma_parse_outputs_bounds(s, p1 + oc.raw.len(), oc.value);
    }
}

/// A transaction without the segwit marker hashes over its whole
/// encoding: its base serialization is exactly the bytes it was decoded
/// from. (A witness transaction's base instead skips the marker/flag pair
/// and the witness stacks.)
pub proof fn lemma_legacy_base_is_whole_encoding(s: Seq<u8>, pos: int)
    requires
        0 <= pos,
        spec_parse_tx(s, pos) is Ok,
        !spec_parse_tx(s, pos).unwrap().0.has_witness,
    ensures
        spec_parse_tx(s, pos).unwrap().0.base == s.subrange(
            pos,
            spec_parse_tx(s, pos).unwrap().1,
        ),
{
    let c0 = spec_read_varint(s, pos + 4).unwrap();
    let body_start = pos + 4 + c0.raw.len();
    let (inputs, p1) = spec_parse_inputs(s, body_start, c0.value).unwrap();
    let oc = spec_read_varint(s, p1).unwrap();
    let p2 = spec_parse_outputs(s, p1 + oc.raw.len(), oc.value).unwrap().1;
    lemma_parse_inputs_bounds(s, body_start, c0.value);
    lemma_parse_outputs_bounds(s, p1 + oc.raw.len(), oc.value);
    lemma_subrange_merge(s, pos, pos + 4, body_start);
    lemma_subrange_merge(s, pos, body_start, p2);
    lemma_subrange_merge(s, pos, p2, p2 + 4);
    assert(s.subrange(pos, pos + 4) + c0.raw + s.subrange(body_start, p2) + s.subrange(
        p2,
        p2 + 4,
    ) =~= s.subrange(pos, p2 + 4));
}

/// Segwit detection: when a transaction's input-count varint reads zero,
/// the byte after it decides. If it is 1, decoding carries on as a
/// witness transaction and re-reads the true input count just past the
/// flag; any other byte value is a format error naming that byte.
pub proof fn lemma_segwit_detection(s: Seq<u8>, pos: int)
    requires
        0 <= pos,
        pos + 4 <= s.len(),
        le_bytes_value(s.subrange(pos, pos + 4)) == 1,
        spec_read_varint(s, pos + 4) is Some,
        spec_read_varint(s, pos + 4).unwrap().value == 0,
        pos + 4 + spec_read_varint(s, pos + 4).unwrap().raw.len() < s.len(),
    ensures
        ({
            let flag_pos = pos + 4 + spec_read_varint(s, pos + 4).unwrap().raw.len();
            &&& (s[flag_pos] != 1 ==> spec_parse_tx(s, pos) == Err::<(TxM, int), _>(
                DecodeError::BadSegwitFlag { offset: flag_pos as usize, flag: s[flag_pos] },
            ))
            &&& (s[flag_pos] == 1 && spec_parse_tx(s, pos) is Ok ==> {
                let tx = spec_parse_tx(s, pos).unwrap().0;
                &&& tx.has_witness
                &&& spec_read_varint(s, flag_pos + 1) is Some
                &&& tx.in_count == spec_read_varint(s, flag_pos + 1).unwrap()
            })
        }),
{
}

/// The first `n` transactions from `pos` on, in order.
pub open spec fn spec_parse_txs(s: Seq<u8>, pos: int, n: nat) -> Result<
    (Seq<TxM>, int),
    DecodeError,
>
    decreases n,
{
    if n == 0 {
        Ok((Seq::empty(), pos))
    } else {
        match spec_parse_txs(s, pos, (n - 1) as nat) {
            Err(e) => Err(e),
            Ok((items, p)) => match spec_parse_tx(s, p) {
                Err(e) => Err(e),
                Ok((it, p2)) => Ok((items.push(it), p2)),
            },
        }
    }
}

/// Once a prefix of the transactions fails, every longer prefix fails the
/// same way.
pub proof fn lemma_parse_txs_err(s: Seq<u8>, pos: int, m: nat, n: nat)
    requires
        m <= n,
        spec_parse_txs(s, pos, m) is Err,
    ensures
        spec_parse_txs(s, pos, n) == spec_parse_txs(s, pos, m),
    decreases n,
{
    if m < n {
        lemma_parse_txs_err(s, pos, m, (n - 1) as nat);
    }
}

/// Parsed transactions stay inside the buffer.
pub proof fn lemma_parse_txs_bounds(s: Seq<u8>, pos: int, n: nat)
    requires
        0 <= pos <= s.len(),
        spec_parse_txs(s, pos, n) is Ok,
    ensures
        pos <= spec_parse_txs(s, pos, n).unwrap().1 <= s.len(),
        spec_parse_txs(s, pos, n).unwrap().0.len() == n,
    decreases n,
{
    if n > 0 {
        lemma_parse_txs_bounds(s, pos, (n - 1) as nat);
        let p = spec_parse_txs(s, pos, (n - 1) as nat).unwrap().1;
        lemma_parse_tx_bounds(s, p);
    }
}

/// What parsing one block frame at `pos` yields: magic, declared size,
/// the 80-byte header split into its six fields, the transaction count,
/// and that many transactions.
pub open spec fn spec_parse_block(s: Seq<u8>, pos: int) -> Result<(BlockM, int), DecodeError> {
    if pos + 4 > s.len() {
        Err(DecodeError::Truncated { offset: pos as usize })
    } else if le_bytes_value(s.subrange(pos, pos + 4)) != MAGIC {
        Err(
            DecodeError::MagicMismatch {
                offset: pos as usize,
                found: le_bytes_value(s.subrange(pos, pos + 4)) as u32,
            },
        )
    } else if pos + 8 > s.len() {
        Err(DecodeError::Truncated { offset: (pos + 4) as usize })
    } else if pos + 88 > s.len() {
        Err(DecodeError::Truncated { offset: (pos + 8) as usize })
    } else {
        match spec_read_varint(s, pos + 88) {
            None => Err(DecodeError::Truncated { offset: (pos + 88) as usize }),
            Some(tc) => match spec_parse_txs(s, pos + 88 + tc.raw.len(), tc.value) {
                Err(e) => Err(e),
                Ok((txs, end)) => Ok(
                    (
                        BlockM {
                            size: le_bytes_value(s.subrange(pos + 4, pos + 8)) as u32,
                            header: HeaderM {
                                version: s.subrange(pos + 8, pos + 12),
                                prev_hash: s.subrange(pos + 12, pos + 44),
                                merkle_root: s.subrange(pos + 44, pos + 76),
                                time: s.subrange(pos + 76, pos + 80),
                                bits: s.subrange(pos + 80, pos + 84),
                                nonce: s.subrange(pos + 84, pos + 88),
                            },
                            tx_count: tc,
                            txs,
                        },
                        end,
                    ),
                ),
            },
        }
    }
}

/// A parsed block frame ends inside the buffer, past where it began.
pub proof fn lemma_parse_block_bounds(s: Seq<u8>, pos: int)
    requires
        0 <= pos,
        spec_parse_block(s, pos) is Ok,
    ensures
        pos < spec_parse_block(s, pos).unwrap().1 <= s.len(),
{
    let tc = spec_read_varint(s, pos + 88).unwrap();
    lemma_parse_txs_bounds(s, pos + 88 + tc.raw.len(), tc.value);
}

/// The whole frame sequence of one file from `pos` on. Fewer than four
/// bytes left at a frame boundary is the clean end of the file, not an
/// error; anything else that stops a frame is the exact error of that
/// frame.
pub open spec fn spec_parse_file(s: Seq<u8>, pos: int) -> Result<Seq<BlockM>, DecodeError>
    decreases s.len() - pos,
        when 0 <= pos <= s.len()
{
    if pos + 4 > s.len() {
        Ok(Seq::empty())
    } else {
        match spec_parse_block(s, pos) {
            Err(e) => Err(e),
            Ok((b, p2)) => if pos < p2 <= s.len() {
                match spec_parse_file(s, p2) {
                    Err(e) => Err(e),
                    Ok(rest) => Ok(seq![b] + rest),
                }
            } else {
                // never reached — a parsed frame always advances inside the
                // buffer (lemma_parse_block_bounds); the branch keeps the
                // recursion well founded
                Err(DecodeError::Truncated { offset: pos as usize })
            },
        }
    }
}

/// Every block of a successfully parsed file has a header whose six
/// fields carry their fixed wire sizes.
pub proof fn lemma_parse_file_headers_wf(s: Seq<u8>, pos: int)
    requires
        0 <= pos <= s.len(),
        spec_parse_file(s, pos) is Ok,
    ensures
        forall|i: int|
            0 <= i < spec_parse_file(s, pos).unwrap().len() ==> (#[trigger] spec_parse_file(
                s,
                pos,
            ).unwrap()[i]).header.wf(),
    decreases s.len() - pos,
{
    if pos + 4 > s.len() {
    } else {
        let (b, p2) = spec_parse_block(s, pos).unwrap();
        lemma_parse_block_bounds(s, pos);
        lemma_parse_file_headers_wf(s, p2);
        let whole = spec_parse_file(s, pos).unwrap();
        let rest = spec_parse_file(s, p2).unwrap();
        assert forall|i: int| 0 <= i < whole.len() implies (#[trigger] whole[i]).header.wf() by {
            if i > 0 {
                assert(whole[i] == rest[i - 1]);
            }
        }
    }
}

/// Decodes one input at `pos`.
pub fn parse_input(s: &Vec<u8>, pos: usize) -> (r: Result<(Input, usize), DecodeError>)
    ensures
        match r {
            Ok((inp, end)) => {
                &&& spec_parse_input(s@, pos as int) == Ok::<_, DecodeError>((inp@, end as int))
                &&& pos < end <= s@.len()
            },
            Err(e) => spec_parse_input(s@, pos as int) == Err::<(InputM, int), _>(e),
        },
{
    proof {
        assert(s@.len() == s.len());
    }
    if pos > s.len() || s.len() - pos < 32 {
        return Err(DecodeError::Truncated { offset: pos });
    }
    if s.len() - pos < 36 {
        return Err(DecodeError::Truncated { offset: pos + 32 });
    }
    let txid = copy_range(s, pos, pos + 32);
    let vout = read_u32_le(s, pos + 32);
    match read_varint(s, pos + 36) {
        Err(e) => Err(e),
        Ok(sl) => {
            let script_start = pos + 36 + sl.width as usize;
            if ((s.len() - script_start) as u64) < sl.value {
                return Err(DecodeError::Truncated { offset: script_start });
            }
            let script_end = script_start + sl.value as usize;
            if s.len() - script_end < 4 {
                return Err(DecodeError::Truncated { offset: script_end });
            }
            let script = copy_range(s, script_start, script_end);
            let sequence = copy_range(s, script_end, script_end + 4);
            let inp = Input { txid, vout, script_len: sl, script, sequence };
            let end = script_end + 4;
            proof {
                let m = spec_parse_input(s@, pos as int).unwrap();
                assert(m.0 =~= inp@);
            }
            Ok((inp, end))
        },
    }
}

/// Decodes `count` inputs in order from `pos` on.
pub fn parse_inputs(s: &Vec<u8>, pos: usize, count: u64) -> (r: Result<
    (Vec<Input>, usize),
    DecodeError,
>)
    requires
        pos <= s@.len(),
    ensures
        match r {
            Ok((inputs, end)) => {
                &&& spec_parse_inputs(s@, pos as int, count as nat) == Ok::<_, DecodeError>(
                    (inputs.deep_view(), end as int),
                )
                &&& inputs@.len() == count
                &&& pos <= end <= s@.len()
            },
            Err(e) => spec_parse_inputs(s@, pos as int, count as nat) == Err::<
                (Seq<InputM>, int),
                _,
            >(e),
        },
{
    let mut inputs: Vec<Input> = Vec::new();
    proof {
        assert(inputs.deep_view() =~= Seq::<InputM>::empty());
    }
    let mut cur = pos;
    let mut i: u64 = 0;
    while i < count
        invariant
            i <= count,
            inputs@.len() == i,
            pos <= cur <= s@.len(),
            spec_parse_inputs(s@, pos as int, i as nat) == Ok::<_, DecodeError>(
                (inputs.deep_view(), cur as int),
            ),
        decreases count - i,
    {
        let ghost done = inputs.deep_view();
        match parse_input(s, cur) {
            Err(e) => {
                proof {
                    lemma_parse_inputs_err(s@, pos as int, (i + 1) as nat, count as nat);
                }
                return Err(e);
            },
            Ok((inp, p2)) => {
                inputs.push(inp);
                proof {
                    assert(inputs.deep_view() =~~= done.push(inp@));
                }
                cur = p2;
                i = i + 1;
            },
        }
    }
    Ok((inputs, cur))
}

/// Decodes one output at `pos`.
pub fn parse_output(s: &Vec<u8>, pos: usize) -> (r: Result<(Output, usize), DecodeError>)
    ensures
        match r {
            Ok((out, end)) => {
                &&& spec_parse_output(s@, pos as int) == Ok::<_, DecodeError>((out@, end as int))
                &&& pos < end <= s@.len()
            },
            Err(e) => spec_parse_output(s@, pos as int) == Err::<(OutputM, int), _>(e),
        },
{
    proof {
        assert(s@.len() == s.len());
    }
    if pos > s.len() || s.len() - pos < 8 {
        return Err(DecodeError::Truncated { offset: pos });
    }
    let value = read_u64_le(s, pos);
    match read_varint(s, pos + 8) {
        Err(e) => Err(e),
        Ok(sl) => {
            let script_start = pos + 8 + sl.width as usize;
            if ((s.len() - script_start) as u64) < sl.value {
                return Err(DecodeError::Truncated { offset: script_start });
            }
            let script_end = script_start + sl.value as usize;
            let script = copy_range(s, script_start, script_end);
            let out = Output { value, script_len: sl, script };
            proof {
                let m = spec_parse_output(s@, pos as int).unwrap();
                assert(m.0 =~= out@);
            }
            Ok((out, script_end))
        },
    }
}

/// Decodes `count` outputs in order from `pos` on.
pub fn parse_outputs(s: &Vec<u8>, pos: usize, count: u64) -> (r: Result<
    (Vec<Output>, usize),
    DecodeError,
>)
    requires
        pos <= s@.len(),
    ensures
        match r {
            Ok((outputs, end)) => {
                &&& spec_parse_outputs(s@, pos as int, count as nat) == Ok::<_, DecodeError>(
                    (outputs.deep_view(), end as int),
                )
                &&& outputs@.len() == count
                &&& pos <= end <= s@.len()
            },
            Err(e) => spec_parse_outputs(s@, pos as int, count as nat) == Err::<
                (Seq<OutputM>, int),
                _,
            >(e),
        },
{
    let mut outputs: Vec<Output> = Vec::new();
    proof {
        assert(outputs.deep_view() =~= Seq::<OutputM>::empty());
    }
    let mut cur = pos;
    let mut i: u64 = 0;
    while i < count
        invariant
            i <= count,
            outputs@.len() == i,
            pos <= cur <= s@.len(),
            spec_parse_outputs(s@, pos as int, i as nat) == Ok::<_, DecodeError>(
                (outputs.deep_view(), cur as int),
            ),
        decreases count - i,
    {
        let ghost done = outputs.deep_view();
        match parse_output(s, cur) {
            Err(e) => {
                proof {
                    lemma_parse_outputs_err(s@, pos as int, (i + 1) as nat, count as nat);
                }
                return Err(e);
            },
            Ok((out, p2)) => {
                outputs.push(out);
                proof {
                    assert(outputs.deep_view() =~~= done.push(out@));
                }
                cur = p2;
                i = i + 1;
            },
        }
    }
    Ok((outputs, cur))
}

/// Decodes one witness structure at `pos`: an item count, then that many
/// length-prefixed byte strings.
pub fn parse_witness(s: &Vec<u8>, pos: usize) -> (r: Result<(Witness, usize), DecodeError>)
    ensures
        match r {
            Ok((w, end)) => {
                &&& spec_parse_witness(s@, pos as int) == Ok::<_, DecodeError>((w@, end as int))
                &&& pos < end <= s@.len()
            },
            Err(e) => spec_parse_witness(s@, pos as int) == Err::<(WitnessM, int), _>(e),
        },
{
    proof {
        assert(s@.len() == s.len());
    }
    match read_varint(s, pos) {
        Err(e) => Err(e),
        Ok(c) => {
            let items_start = pos + c.width as usize;
            let count = c.value;
            let mut items: Vec<Vec<u8>> = Vec::new();
            proof {
                assert(items.deep_view() =~= Seq::<Seq<u8>>::empty());
            }
            let mut cur = items_start;
            let mut i: u64 = 0;
            while i < count
                invariant
                    i <= count,
                    items@.len() == i,
                    items_start <= cur <= s@.len(),
                    spec_parse_witness_items(s@, items_start as int, i as nat) == Ok::<
                        _,
                        DecodeError,
                    >((items.deep_view(), cur as int)),
                decreases count - i,
            {
                let ghost done = items.deep_view();
                match read_varint(s, cur) {
                    Err(e) => {
                        proof {
                            lemma_parse_witness_items_err(
                                s@,
                                items_start as int,
                                (i + 1) as nat,
                                count as nat,
                            );
                        }
                        return Err(e);
                    },
                    Ok(l) => {
                        let data_start = cur + l.width as usize;
                        if ((s.len() - data_start) as u64) < l.value {
                            proof {
                                lemma_parse_witness_items_err(
                                    s@,
                                    items_start as int,
                                    (i + 1) as nat,
                                    count as nat,
                                );
                            }
                            return Err(DecodeError::Truncated { offset: data_start });
                        }
                        let data_end = data_start + l.value as usize;
                        let item = copy_range(s, data_start, data_end);
                        items.push(item);
                        proof {
                            assert(items.deep_view() =~~= done.push(item@));
                        }
                        cur = data_end;
                        i = i + 1;
                    },
                }
            }
            let w = Witness { items };
            proof {
                assert(spec_parse_witness(s@, pos as int).unwrap().0 =~~= w@);
                assert(spec_parse_witness(s@, pos as int) == Ok::<_, DecodeError>(
                    (w@, cur as int),
                ));
            }
            Ok((w, cur))
        },
    }
}

/// Decodes `count` witness structures in order from `pos` on.
pub fn parse_witnesses(s: &Vec<u8>, pos: usize, count: u64) -> (r: Result<
    (Vec<Witness>, usize),
    DecodeError,
>)
    requires
        pos <= s@.len(),
    ensures
        match r {
            Ok((ws, end)) => {
                &&& spec_parse_witnesses(s@, pos as int, count as nat) == Ok::<_, DecodeError>(
                    (ws.deep_view(), end as int),
                )
                &&& ws@.len() == count
                &&& pos <= end <= s@.len()
            },
            Err(e) => spec_parse_witnesses(s@, pos as int, count as nat) == Err::<
                (Seq<WitnessM>, int),
                _,
            >(e),
        },
{
    let mut ws: Vec<Witness> = Vec::new();
    proof {
        assert(ws.deep_view() =~= Seq::<WitnessM>::empty());
    }
    let mut cur = pos;
    let mut i: u64 = 0;
    while i < count
        invariant
            i <= count,
            ws@.len() == i,
            pos <= cur <= s@.len(),
            spec_parse_witnesses(s@, pos as int, i as nat) == Ok::<_, DecodeError>(
                (ws.deep_view(), cur as int),
            ),
        decreases count - i,
    {
        let ghost done = ws.deep_view();
        match parse_witness(s, cur) {
            Err(e) => {
                proof {
                    lemma_parse_witnesses_err(s@, pos as int, (i + 1) as nat, count as nat);
                }
                return Err(e);
            },
            Ok((w, p2)) => {
                ws.push(w);
                proof {
                    assert(ws.deep_view() =~~= done.push(w@));
                }
                cur = p2;
                i = i + 1;
            },
        }
    }
    Ok((ws, cur))
}

/// Decodes one transaction at `pos`: version (which must equal 1), segwit
/// marker/flag detection, inputs, outputs, witnesses when signaled, and
/// locktime. The returned transaction carries its base serialization and
/// the identifier computed by hashing it.
pub fn parse_tx(s: &Vec<u8>, pos: usize) -> (r: Result<(Tx, usize), DecodeError>)
    ensures
        match r {
            Ok((tx, end)) => {
                &&& spec_parse_tx(s@, pos as int) == Ok::<_, DecodeError>((tx@, end as int))
                &&& pos < end <= s@.len()
            },
            Err(e) => spec_parse_tx(s@, pos as int) == Err::<(TxM, int), _>(e),
        },
{
    proof {
        assert(s@.len() == s.len());
    }
    if pos > s.len() || s.len() - pos < 4 {
        return Err(DecodeError::Truncated { offset: pos });
    }
    let version = read_u32_le(s, pos);
    if version != 1 {
        return Err(DecodeError::UnsupportedVersion { offset: pos, version });
    }
    let c0 = match read_varint(s, pos + 4) {
        Err(e) => {
            return Err(e);
        },
        Ok(c0) => c0,
    };
    let has_witness: bool;
    let ic: VarInt;
    let ic_pos: usize;
    if c0.value == 0 {
        let flag_pos = pos + 4 + c0.width as usize;
        if flag_pos >= s.len() {
            return Err(DecodeError::Truncated { offset: flag_pos });
        }
        let flag = s[flag_pos];
        if flag != 1 {
            return Err(DecodeError::BadSegwitFlag { offset: flag_pos, flag });
        }
        has_witness = true;
        ic_pos = flag_pos + 1;
        ic = match read_varint(s, ic_pos) {
            Err(e) => {
                return Err(e);
            },
            Ok(v) => v,
        };
    } else {
        has_witness = false;
        ic_pos = pos + 4;
        ic = c0;
    }
    let body_start = ic_pos + ic.width as usize;
    let ghost icm = ic@;
    let (inputs, p1) = match parse_inputs(s, body_start, ic.value) {
        Err(e) => {
            return Err(e);
        },
        Ok(r) => r,
    };
    let oc = match read_varint(s, p1) {
        Err(e) => {
            return Err(e);
        },
        Ok(v) => v,
    };
    let (outputs, p2) = match parse_outputs(s, p1 + oc.width as usize, oc.value) {
        Err(e) => {
            return Err(e);
        },
        Ok(r) => r,
    };
    let witnesses: Option<Vec<Witness>>;
    let p3: usize;
    if has_witness {
        match parse_witnesses(s, p2, ic.value) {
            Err(e) => {
                return Err(e);
            },
            Ok((ws, p)) => {
                witnesses = Some(ws);
                p3 = p;
            },
        }
    } else {
        witnesses = None;
        p3 = p2;
    }
    if p3 > s.len() || s.len() - p3 < 4 {
        return Err(DecodeError::Truncated { offset: p3 });
    }
    let lock_time = copy_range(s, p3, p3 + 4);
    let mut base = copy_range(s, pos, pos + 4);
    append_range(&mut base, s, ic_pos, p2);
    append_range(&mut base, s, p3, p3 + 4);
    proof {
        lemma_subrange_merge(s@, ic_pos as int, body_start as int, p2 as int);
        assert(base@ =~= s@.subrange(pos as int, pos as int + 4) + icm.raw + s@.subrange(
            body_start as int,
            p2 as int,
        ) + s@.subrange(p3 as int, p3 as int + 4));
    }
    let txid = compute_txid(&base);
    let tx = Tx {
        version,
        has_witness,
        in_count: ic,
        inputs,
        out_count: oc,
        outputs,
        witnesses,
        lock_time,
        base,
        txid,
    };
    let end = p3 + 4;
    proof {
        let body = spec_parse_tx_body(s@, pos as int, has_witness, icm, body_start as int);
        assert(body.unwrap().0 =~= tx@);
        assert(spec_parse_tx(s@, pos as int) == Ok::<_, DecodeError>((tx@, end as int)));
    }
    Ok((tx, end))
}

/// Decodes `count` transactions in order from `pos` on.
pub fn parse_txs(s: &Vec<u8>, pos: usize, count: u64) -> (r: Result<
    (Vec<Tx>, usize),
    DecodeError,
>)
    requires
        pos <= s@.len(),
    ensures
        match r {
            Ok((txs, end)) => {
                &&& spec_parse_txs(s@, pos as int, count as nat) == Ok::<_, DecodeError>(
                    (txs.deep_view(), end as int),
                )
                &&& txs@.len() == count
                &&& pos <= end <= s@.len()
            },
            Err(e) => spec_parse_txs(s@, pos as int, count as nat) == Err::<(Seq<TxM>, int), _>(e),
        },
{
    let mut txs: Vec<Tx> = Vec::new();
    proof {
        assert(txs.deep_view() =~= Seq::<TxM>::empty());
    }
    let mut cur = pos;
    let mut i: u64 = 0;
    while i < count
        invariant
            i <= count,
            txs@.len() == i,
            pos <= cur <= s@.len(),
            spec_parse_txs(s@, pos as int, i as nat) == Ok::<_, DecodeError>(
                (txs.deep_view(), cur as int),
            ),
        decreases count - i,
    {
        let ghost done = txs.deep_view();
        match parse_tx(s, cur) {
            Err(e) => {
                proof {
                    lemma_parse_txs_err(s@, pos as int, (i + 1) as nat, count as nat);
                }
                return Err(e);
            },
            Ok((tx, p2)) => {
                txs.push(tx);
                proof {
                    assert(txs.deep_view() =~~= done.push(tx@));
                }
                cur = p2;
                i = i + 1;
            },
        }
    }
    Ok((txs, cur))
}

/// Decodes one block frame at `pos`: magic, declared size, header,
/// transaction count and transactions.
pub fn parse_block(s: &Vec<u8>, pos: usize) -> (r: Result<(Block, usize), DecodeError>)
    ensures
        match r {
            Ok((b, end)) => {
                &&& spec_parse_block(s@, pos as int) == Ok::<_, DecodeError>((b@, end as int))
                &&& pos < end <= s@.len()
            },
            Err(e) => spec_parse_block(s@, pos as int) == Err::<(BlockM, int), _>(e),
        },
{
    proof {
        assert(s@.len() == s.len());
    }
    if pos > s.len() || s.len() - pos < 4 {
        return Err(DecodeError::Truncated { offset: pos });
    }
    let magic = read_u32_le(s, pos);
    if magic != MAGIC {
        return Err(DecodeError::MagicMismatch { offset: pos, found: magic });
    }
    if s.len() - pos < 8 {
        return Err(DecodeError::Truncated { offset: pos + 4 });
    }
    if s.len() - pos < 88 {
        return Err(DecodeError::Truncated { offset: pos + 8 });
    }
    let size = read_u32_le(s, pos + 4);
    let header = Header {
        version: copy_range(s, pos + 8, pos + 12),
        prev_hash: copy_range(s, pos + 12, pos + 44),
        merkle_root: copy_range(s, pos + 44, pos + 76),
        time: copy_range(s, pos + 76, pos + 80),
        bits: copy_range(s, pos + 80, pos + 84),
        nonce: copy_range(s, pos + 84, pos + 88),
    };
    let tc = match read_varint(s, pos + 88) {
        Err(e) => {
            return Err(e);
        },
        Ok(v) => v,
    };
    let (transactions, end) = match parse_txs(s, pos + 88 + tc.width as usize, tc.value) {
        Err(e) => {
            return Err(e);
        },
        Ok(r) => r,
    };
    let b = Block { size, header, tx_count: tc, transactions };
    proof {
        assert(spec_parse_block(s@, pos as int).unwrap().0 =~= b@);
    }
    Ok((b, end))
}

/// The running cross-file block counter: the only state that outlives one
/// file. Block indices are 0-based positions within the whole multi-file
/// stream, independent of per-file numbering.
pub struct Session {
    pub next_block_index: u64,
}

impl Session {
    /// A fresh session, counting from zero.
    pub fn new() -> (r: Session)
        ensures
            r.next_block_index == 0,
    {
        Session { next_block_index: 0 }
    }
}

/// Decodes every frame of one file's bytes, in order, and advances the
/// session's block counter by one per frame. Fewer than four bytes left
/// at a frame boundary is the clean end of the file. On an error the
/// counter is left unchanged and nothing is emitted for the file.
///
/// A caller that wants to stop between frames — the only safe boundary —
/// can drive [`parse_block`] directly instead and keep its own cursor.
pub fn parse_file(session: &mut Session, bytes: &Vec<u8>) -> (r: Result<Vec<Block>, DecodeError>)
    requires
        old(session).next_block_index + bytes@.len() <= u64::MAX,
    ensures
        match r {
            Ok(blocks) => {
                &&& spec_parse_file(bytes@, 0) == Ok::<_, DecodeError>(blocks.deep_view())
                &&& final(session).next_block_index == old(session).next_block_index
                    + blocks@.len()
            },
            Err(e) => {
                &&& spec_parse_file(bytes@, 0) == Err::<Seq<BlockM>, _>(e)
                &&& *final(session) == *old(session)
            },
        },
{
    proof {
        assert(bytes@.len() == bytes.len());
    }
    let mut blocks: Vec<Block> = Vec::new();
    proof {
        assert(blocks.deep_view() =~= Seq::<BlockM>::empty());
        if spec_parse_file(bytes@, 0) is Ok {
            let whole = spec_parse_file(bytes@, 0).unwrap();
            assert(blocks.deep_view() + whole =~= whole);
        }
    }
    let mut pos: usize = 0;
    while s_remaining(bytes, pos) >= 4
        invariant
            pos <= bytes@.len(),
            blocks@.len() <= pos,
            spec_parse_file(bytes@, pos as int) matches Ok(rest) ==> spec_parse_file(bytes@, 0)
                == Ok::<_, DecodeError>(blocks.deep_view() + rest),
            spec_parse_file(bytes@, pos as int) matches Err(e) ==> spec_parse_file(bytes@, 0)
                == Err::<Seq<BlockM>, _>(e),
        decreases bytes@.len() - pos,
    {
        let ghost done = blocks.deep_view();
        match parse_block(bytes, pos) {
            Err(e) => {
                return Err(e);
            },
            Ok((b, p2)) => {
                proof {
                    lemma_parse_block_bounds(bytes@, pos as int);
                }
                blocks.push(b);
                proof {
                    assert(blocks.deep_view() =~~= done + seq![b@]);
                    if spec_parse_file(bytes@, p2 as int) is Ok {
                        let rest = spec_parse_file(bytes@, p2 as int).unwrap();
                        assert(done + (seq![b@] + rest) =~= (done + seq![b@]) + rest);
                    }
                }
                pos = p2;
            },
        }
    }
    proof {
        assert(blocks.deep_view() + Seq::<BlockM>::empty() =~= blocks.deep_view());
    }
    session.next_block_index = session.next_block_index + blocks.len() as u64;
    Ok(blocks)
}

/// The bytes left in the buffer from `pos` on; zero once `pos` has
/// passed the end.
fn s_remaining(s: &Vec<u8>, pos: usize) -> (r: usize)
    ensures
        r == if pos <= s@.len() {
            s@.len() - pos
        } else {
            0
        },
{
    proof {
        assert(s@.len() == s.len());
    }
    if pos > s.len() {
        0
    } else {
        s.len() - pos
    }
}

} // verus!
