//! The script disassembler: maps raw script bytes to a symbolic opcode
//! sequence. Unrecognized byte values become a distinguishable unknown
//! token; only a push whose declared length overruns the script fails.
use vstd::prelude::*;
use vstd::string::*;
use crate::bytes::{le_bytes_value, copy_range, read_u16_le, read_u32_le};
use crate::errors::DecodeError;
use crate::hexfmt::{hex_of, byte_hex, hex_encode};

verus! {

/// One symbolic opcode of a decoded script.
#[derive(Debug)]
pub enum Token {
    /// Byte 0x00: pushes the empty value.
    Op0,
    /// Bytes 0x51 through 0x60: push the number `n`, 1 through 16.
    OpN { n: u8 },
    /// Bytes 1 through 75: push that many literal payload bytes.
    Push { data: Vec<u8> },
    /// Byte 0x4c: a one-byte length, then that many payload bytes.
    PushData1 { data: Vec<u8> },
    /// Byte 0x4d: a two-byte little-endian length, then the payload.
    PushData2 { data: Vec<u8> },
    /// Byte 0x4e: a four-byte little-endian length, then the payload.
    PushData4 { data: Vec<u8> },
    /// A byte with an entry in the fixed mnemonic table.
    Named { op: u8 },
    /// A byte with no table entry; decoding carries on.
    Unknown { op: u8 },
}

/// Mathematical model of a token.
#[verifier::ext_equal]
pub ghost enum TokenM {
    Op0,
    OpN { n: u8 },
    Push { data: Seq<u8> },
    PushData1 { data: Seq<u8> },
    PushData2 { data: Seq<u8> },
    PushData4 { data: Seq<u8> },
    Named { op: u8 },
    Unknown { op: u8 },
}

impl View for Token {
    type V = TokenM;

    open spec fn view(&self) -> TokenM {
        match self {
            Token::Op0 => TokenM::Op0,
            Token::OpN { n } => TokenM::OpN { n: *n },
            Token::Push { data } => TokenM::Push { data: data@ },
            Token::PushData1 { data } => TokenM::PushData1 { data: data@ },
            Token::PushData2 { data } => TokenM::PushData2 { data: data@ },
            Token::PushData4 { data } => TokenM::PushData4 { data: data@ },
            Token::Named { op } => TokenM::Named { op: *op },
            Token::Unknown { op } => TokenM::Unknown { op: *op },
        }
    }
}

impl DeepView for Token {
    type V = TokenM;

    open spec fn deep_view(&self) -> TokenM {
        self.view()
    }
}

/// Whether a byte has an entry in the fixed mnemonic table (the standard
/// opcode set outside the push and numeric ranges handled separately).
pub open spec fn is_named_opcode(op: u8) -> bool {
    op == 0x4f || op == 0x50 || (0x61 <= op && op <= 0xb9)
}

/// The mnemonic of a byte from the fixed table; empty for a byte without
/// an entry.
pub open spec fn opcode_mnemonic(op: u8) -> Seq<char> {
    if op == 0x4f {
        "OP_1NEGATE"@
    } else if op == 0x50 {
        "OP_RESERVED"@
    } else if op == 0x61 {
        "OP_NOP"@
    } else if op == 0x62 {
        "OP_VER"@
    } else if op == 0x63 {
        "OP_IF"@
    } else if op == 0x64 {
        "OP_NOTIF"@
    } else if op == 0x65 {
        "OP_VERIF"@
    } else if op == 0x66 {
        "OP_VERNOTIF"@
    } else if op == 0x67 {
        "OP_ELSE"@
    } else if op == 0x68 {
        "OP_ENDIF"@
    } else if op == 0x69 {
        "OP_VERIFY"@
    } else if op == 0x6a {
        "OP_RETURN"@
    } else if op == 0x6b {
        "OP_TOALTSTACK"@
    } else if op == 0x6c {
        "OP_FROMALTSTACK"@
    } else if op == 0x6d {
        "OP_2DROP"@
    } else if op == 0x6e {
        "OP_2DUP"@
    } else if op == 0x6f {
        "OP_3DUP"@
    } else if op == 0x70 {
        "OP_2OVER"@
    } else if op == 0x71 {
        "OP_2ROT"@
    } else if op == 0x72 {
        "OP_2SWAP"@
    } else if op == 0x73 {
        "OP_IFDUP"@
    } else if op == 0x74 {
        "OP_DEPTH"@
    } else if op == 0x75 {
        "OP_DROP"@
    } else if op == 0x76 {
        "OP_DUP"@
    } else if op == 0x77 {
        "OP_NIP"@
    } else if op == 0x78 {
        "OP_OVER"@
    } else if op == 0x79 {
        "OP_PICK"@
    } else if op == 0x7a {
        "OP_ROLL"@
    } else if op == 0x7b {
        "OP_ROT"@
    } else if op == 0x7c {
        "OP_SWAP"@
    } else if op == 0x7d {
        "OP_TUCK"@
    } else if op == 0x7e {
        "OP_CAT"@
    } else if op == 0x7f {
        "OP_SUBSTR"@
    } else if op == 0x80 {
        "OP_LEFT"@
    } else if op == 0x81 {
        "OP_RIGHT"@
    } else if op == 0x82 {
        "OP_SIZE"@
    } else if op == 0x83 {
        "OP_INVERT"@
    } else if op == 0x84 {
        "OP_AND"@
    } else if op == 0x85 {
        "OP_OR"@
    } else if op == 0x86 {
        "OP_XOR"@
    } else if op == 0x87 {
        "OP_EQUAL"@
    } else if op == 0x88 {
        "OP_EQUALVERIFY"@
    } else if op == 0x89 {
        "OP_RESERVED1"@
    } else if op == 0x8a {
        "OP_RESERVED2"@
    } else if op == 0x8b {
        "OP_1ADD"@
    } else if op == 0x8c {
        "OP_1SUB"@
    } else if op == 0x8d {
        "OP_2MUL"@
    } else if op == 0x8e {
        "OP_2DIV"@
    } else if op == 0x8f {
        "OP_NEGATE"@
    } else if op == 0x90 {
        "OP_ABS"@
    } else if op == 0x91 {
        "OP_NOT"@
    } else if op == 0x92 {
        "OP_0NOTEQUAL"@
    } else if op == 0x93 {
        "OP_ADD"@
    } else if op == 0x94 {
        "OP_SUB"@
    } else if op == 0x95 {
        "OP_MUL"@
    } else if op == 0x96 {
        "OP_DIV"@
    } else if op == 0x97 {
        "OP_MOD"@
    } else if op == 0x98 {
        "OP_LSHIFT"@
    } else if op == 0x99 {
        "OP_RSHIFT"@
    } else if op == 0x9a {
        "OP_BOOLAND"@
    } else if op == 0x9b {
        "OP_BOOLOR"@
    } else if op == 0x9c {
        "OP_NUMEQUAL"@
    } else if op == 0x9d {
        "OP_NUMEQUALVERIFY"@
    } else if op == 0x9e {
        "OP_NUMNOTEQUAL"@
    } else if op == 0x9f {
        "OP_LESSTHAN"@
    } else if op == 0xa0 {
        "OP_GREATERTHAN"@
    } else if op == 0xa1 {
        "OP_LESSTHANOREQUAL"@
    } else if op == 0xa2 {
        "OP_GREATERTHANOREQUAL"@
    } else if op == 0xa3 {
        "OP_MIN"@
    } else if op == 0xa4 {
        "OP_MAX"@
    } else if op == 0xa5 {
        "OP_WITHIN"@
    } else if op == 0xa6 {
        "OP_RIPEMD160"@
    } else if op == 0xa7 {
        "OP_SHA1"@
    } else if op == 0xa8 {
        "OP_SHA256"@
    } else if op == 0xa9 {
        "OP_HASH160"@
    } else if op == 0xaa {
        "OP_HASH256"@
    } else if op == 0xab {
        "OP_CODESEPARATOR"@
    } else if op == 0xac {
        "OP_CHECKSIG"@
    } else if op == 0xad {
        "OP_CHECKSIGVERIFY"@
    } else if op == 0xae {
        "OP_CHECKMULTISIG"@
    } else if op == 0xaf {
        "OP_CHECKMULTISIGVERIFY"@
    } else if op == 0xb0 {
        "OP_NOP1"@
    } else if op == 0xb1 {
        "OP_CHECKLOCKTIMEVERIFY"@
    } else if op == 0xb2 {
        "OP_CHECKSEQUENCEVERIFY"@
    } else if op == 0xb3 {
        "OP_NOP4"@
    } else if op == 0xb4 {
        "OP_NOP5"@
    } else if op == 0xb5 {
        "OP_NOP6"@
    } else if op == 0xb6 {
        "OP_NOP7"@
    } else if op == 0xb7 {
        "OP_NOP8"@
    } else if op == 0xb8 {
        "OP_NOP9"@
    } else if op == 0xb9 {
        "OP_NOP10"@
    } else {
        Seq::empty()
    }
}

/// The table entry of a byte, or `None` where the table has none.
pub fn named_opcode(op: u8) -> (r: Option<String>)
    ensures
        r is Some <==> is_named_opcode(op),
        r matches Some(s) ==> s@ == opcode_mnemonic(op),
{
    if op == 0x4f {
        Some(String::from_str("OP_1NEGATE"))
    } else if op == 0x50 {
        Some(String::from_str("OP_RESERVED"))
    } else if op == 0x61 {
        Some(String::from_str("OP_NOP"))
    } else if op == 0x62 {
        Some(String::from_str("OP_VER"))
    } else if op == 0x63 {
        Some(String::from_str("OP_IF"))
    } else if op == 0x64 {
        Some(String::from_str("OP_NOTIF"))
    } else if op == 0x65 {
        Some(String::from_str("OP_VERIF"))
    } else if op == 0x66 {
        Some(String::from_str("OP_VERNOTIF"))
    } else if op == 0x67 {
        Some(String::from_str("OP_ELSE"))
    } else if op == 0x68 {
        Some(String::from_str("OP_ENDIF"))
    } else if op == 0x69 {
        Some(String::from_str("OP_VERIFY"))
    } else if op == 0x6a {
        Some(String::from_str("OP_RETURN"))
    } else if op == 0x6b {
        Some(String::from_str("OP_TOALTSTACK"))
    } else if op == 0x6c {
        Some(String::from_str("OP_FROMALTSTACK"))
    } else if op == 0x6d {
        Some(String::from_str("OP_2DROP"))
    } else if op == 0x6e {
        Some(String::from_str("OP_2DUP"))
    } else if op == 0x6f {
        Some(String::from_str("OP_3DUP"))
    } else if op == 0x70 {
        Some(String::from_str("OP_2OVER"))
    } else if op == 0x71 {
        Some(String::from_str("OP_2ROT"))
    } else if op == 0x72 {
        Some(String::from_str("OP_2SWAP"))
    } else if op == 0x73 {
        Some(String::from_str("OP_IFDUP"))
    } else if op == 0x74 {
        Some(String::from_str("OP_DEPTH"))
    } else if op == 0x75 {
        Some(String::from_str("OP_DROP"))
    } else if op == 0x76 {
        Some(String::from_str("OP_DUP"))
    } else if op == 0x77 {
        Some(String::from_str("OP_NIP"))
    } else if op == 0x78 {
        Some(String::from_str("OP_OVER"))
    } else if op == 0x79 {
        Some(String::from_str("OP_PICK"))
    } else if op == 0x7a {
        Some(String::from_str("OP_ROLL"))
    } else if op == 0x7b {
        Some(String::from_str("OP_ROT"))
    } else if op == 0x7c {
        Some(String::from_str("OP_SWAP"))
    } else if op == 0x7d {
        Some(String::from_str("OP_TUCK"))
    } else if op == 0x7e {
        Some(String::from_str("OP_CAT"))
    } else if op == 0x7f {
        Some(String::from_str("OP_SUBSTR"))
    } else if op == 0x80 {
        Some(String::from_str("OP_LEFT"))
    } else if op == 0x81 {
        Some(String::from_str("OP_RIGHT"))
    } else if op == 0x82 {
        Some(String::from_str("OP_SIZE"))
    } else if op == 0x83 {
        Some(String::from_str("OP_INVERT"))
    } else if op == 0x84 {
        Some(String::from_str("OP_AND"))
    } else if op == 0x85 {
        Some(String::from_str("OP_OR"))
    } else if op == 0x86 {
        Some(String::from_str("OP_XOR"))
    } else if op == 0x87 {
        Some(String::from_str("OP_EQUAL"))
    } else if op == 0x88 {
        Some(String::from_str("OP_EQUALVERIFY"))
    } else if op == 0x89 {
        Some(String::from_str("OP_RESERVED1"))
    } else if op == 0x8a {
        Some(String::from_str("OP_RESERVED2"))
    } else if op == 0x8b {
        Some(String::from_str("OP_1ADD"))
    } else if op == 0x8c {
        Some(String::from_str("OP_1SUB"))
    } else if op == 0x8d {
        Some(String::from_str("OP_2MUL"))
    } else if op == 0x8e {
        Some(String::from_str("OP_2DIV"))
    } else if op == 0x8f {
        Some(String::from_str("OP_NEGATE"))
    } else if op == 0x90 {
        Some(String::from_str("OP_ABS"))
    } else if op == 0x91 {
        Some(String::from_str("OP_NOT"))
    } else if op == 0x92 {
        Some(String::from_str("OP_0NOTEQUAL"))
    } else if op == 0x93 {
        Some(String::from_str("OP_ADD"))
    } else if op == 0x94 {
        Some(String::from_str("OP_SUB"))
    } else if op == 0x95 {
        Some(String::from_str("OP_MUL"))
    } else if op == 0x96 {
        Some(String::from_str("OP_DIV"))
    } else if op == 0x97 {
        Some(String::from_str("OP_MOD"))
    } else if op == 0x98 {
        Some(String::from_str("OP_LSHIFT"))
    } else if op == 0x99 {
        Some(String::from_str("OP_RSHIFT"))
    } else if op == 0x9a {
        Some(String::from_str("OP_BOOLAND"))
    } else if op == 0x9b {
        Some(String::from_str("OP_BOOLOR"))
    } else if op == 0x9c {
        Some(String::from_str("OP_NUMEQUAL"))
    } else if op == 0x9d {
        Some(String::from_str("OP_NUMEQUALVERIFY"))
    } else if op == 0x9e {
        Some(String::from_str("OP_NUMNOTEQUAL"))
    } else if op == 0x9f {
        Some(String::from_str("OP_LESSTHAN"))
    } else if op == 0xa0 {
        Some(String::from_str("OP_GREATERTHAN"))
    } else if op == 0xa1 {
        Some(String::from_str("OP_LESSTHANOREQUAL"))
    } else if op == 0xa2 {
        Some(String::from_str("OP_GREATERTHANOREQUAL"))
    } else if op == 0xa3 {
        Some(String::from_str("OP_MIN"))
    } else if op == 0xa4 {
        Some(String::from_str("OP_MAX"))
    } else if op == 0xa5 {
        Some(String::from_str("OP_WITHIN"))
    } else if op == 0xa6 {
        Some(String::from_str("OP_RIPEMD160"))
    } else if op == 0xa7 {
        Some(String::from_str("OP_SHA1"))
    } else if op == 0xa8 {
        Some(String::from_str("OP_SHA256"))
    } else if op == 0xa9 {
        Some(String::from_str("OP_HASH160"))
    } else if op == 0xaa {
        Some(String::from_str("OP_HASH256"))
    } else if op == 0xab {
        Some(String::from_str("OP_CODESEPARATOR"))
    } else if op == 0xac {
        Some(String::from_str("OP_CHECKSIG"))
    } else if op == 0xad {
        Some(String::from_str("OP_CHECKSIGVERIFY"))
    } else if op == 0xae {
        Some(String::from_str("OP_CHECKMULTISIG"))
    } else if op == 0xaf {
        Some(String::from_str("OP_CHECKMULTISIGVERIFY"))
    } else if op == 0xb0 {
        Some(String::from_str("OP_NOP1"))
    } else if op == 0xb1 {
        Some(String::from_str("OP_CHECKLOCKTIMEVERIFY"))
    } else if op == 0xb2 {
        Some(String::from_str("OP_CHECKSEQUENCEVERIFY"))
    } else if op == 0xb3 {
        Some(String::from_str("OP_NOP4"))
    } else if op == 0xb4 {
        Some(String::from_str("OP_NOP5"))
    } else if op == 0xb5 {
        Some(String::from_str("OP_NOP6"))
    } else if op == 0xb6 {
        Some(String::from_str("OP_NOP7"))
    } else if op == 0xb7 {
        Some(String::from_str("OP_NOP8"))
    } else if op == 0xb8 {
        Some(String::from_str("OP_NOP9"))
    } else if op == 0xb9 {
        Some(String::from_str("OP_NOP10"))
    } else {
        None
    }
}

/// The rendering of the numeric opcodes pushing 1 through 16.
pub open spec fn op_n_text(n: u8) -> Seq<char> {
    if n == 1 {
        "OP_1"@
    } else if n == 2 {
        "OP_2"@
    } else if n == 3 {
        "OP_3"@
    } else if n == 4 {
        "OP_4"@
    } else if n == 5 {
        "OP_5"@
    } else if n == 6 {
        "OP_6"@
    } else if n == 7 {
        "OP_7"@
    } else if n == 8 {
        "OP_8"@
    } else if n == 9 {
        "OP_9"@
    } else if n == 10 {
        "OP_10"@
    } else if n == 11 {
        "OP_11"@
    } else if n == 12 {
        "OP_12"@
    } else if n == 13 {
        "OP_13"@
    } else if n == 14 {
        "OP_14"@
    } else if n == 15 {
        "OP_15"@
    } else if n == 16 {
        "OP_16"@
    } else {
        Seq::empty()
    }
}

fn op_n_string(n: u8) -> (r: String)
    requires
        1 <= n <= 16,
    ensures
        r@ == op_n_text(n),
{
    if n == 1 {
        String::from_str("OP_1")
    } else if n == 2 {
        String::from_str("OP_2")
    } else if n == 3 {
        String::from_str("OP_3")
    } else if n == 4 {
        String::from_str("OP_4")
    } else if n == 5 {
        String::from_str("OP_5")
    } else if n == 6 {
        String::from_str("OP_6")
    } else if n == 7 {
        String::from_str("OP_7")
    } else if n == 8 {
        String::from_str("OP_8")
    } else if n == 9 {
        String::from_str("OP_9")
    } else if n == 10 {
        String::from_str("OP_10")
    } else if n == 11 {
        String::from_str("OP_11")
    } else if n == 12 {
        String::from_str("OP_12")
    } else if n == 13 {
        String::from_str("OP_13")
    } else if n == 14 {
        String::from_str("OP_14")
    } else if n == 15 {
        String::from_str("OP_15")
    } else if n == 16 {
        String::from_str("OP_16")
    } else {
        proof {
            assert(false);
        }
        String::new()
    }
}

impl TokenM {
    /// Structural bounds that every token decoded from a script meets.
    pub open spec fn wf(self) -> bool {
        match self {
            TokenM::OpN { n } => 1 <= n <= 16,
            TokenM::Push { data } => 1 <= data.len() <= 75,
            TokenM::PushData1 { data } => data.len() <= 0xff,
            TokenM::PushData2 { data } => data.len() <= 0xffff,
            TokenM::PushData4 { data } => data.len() <= 0xffff_ffff,
            TokenM::Named { op } => is_named_opcode(op),
            _ => true,
        }
    }

    /// The text of one token: data renders as lowercase hex, numeric
    /// opcodes and table entries as their mnemonic, and a byte without a
    /// table entry as a marked unknown.
    pub open spec fn text(self) -> Seq<char> {
        match self {
            TokenM::Op0 => "OP_0"@,
            TokenM::OpN { n } => op_n_text(n),
            TokenM::Push { data } => hex_of(data),
            TokenM::PushData1 { data } => "OP_PUSHDATA1 "@ + hex_of(data),
            TokenM::PushData2 { data } => "OP_PUSHDATA2 "@ + hex_of(data),
            TokenM::PushData4 { data } => "OP_PUSHDATA4 "@ + hex_of(data),
            TokenM::Named { op } => opcode_mnemonic(op),
            TokenM::Unknown { op } => "OP_UNKNOWN_"@ + byte_hex(op),
        }
    }
}

/// The token that starts at `pos` and the position just past it. Fails
/// exactly when a push length field or payload overruns the script end;
/// the error carries the offset of the push opcode.
pub open spec fn spec_next_token(s: Seq<u8>, pos: int) -> Result<(TokenM, int), DecodeError>
    recommends
        0 <= pos < s.len(),
{
    let b = s[pos];
    if b == 0 {
        Ok((TokenM::Op0, pos + 1))
    } else if b <= 75 {
        if pos + 1 + b <= s.len() {
            Ok((TokenM::Push { data: s.subrange(pos + 1, pos + 1 + b) }, pos + 1 + b))
        } else {
            Err(DecodeError::ScriptOverrun { offset: pos as usize })
        }
    } else if b == 0x4c {
        if pos + 2 <= s.len() && pos + 2 + s[pos + 1] <= s.len() {
            Ok(
                (
                    TokenM::PushData1 { data: s.subrange(pos + 2, pos + 2 + s[pos + 1]) },
                    pos + 2 + s[pos + 1],
                ),
            )
        } else {
            Err(DecodeError::ScriptOverrun { offset: pos as usize })
        }
    } else if b == 0x4d {
        if pos + 3 <= s.len() && pos + 3 + le_bytes_value(s.subrange(pos + 1, pos + 3)) <= s.len() {
            Ok(
                (
                    TokenM::PushData2 {
                        data: s.subrange(
                            pos + 3,
                            pos + 3 + le_bytes_value(s.subrange(pos + 1, pos + 3)),
                        ),
                    },
                    pos + 3 + le_bytes_value(s.subrange(pos + 1, pos + 3)),
                ),
            )
        } else {
            Err(DecodeError::ScriptOverrun { offset: pos as usize })
        }
    } else if b == 0x4e {
        if pos + 5 <= s.len() && pos + 5 + le_bytes_value(s.subrange(pos + 1, pos + 5)) <= s.len() {
            Ok(
                (
                    TokenM::PushData4 {
                        data: s.subrange(
                            pos + 5,
                            pos + 5 + le_bytes_value(s.subrange(pos + 1, pos + 5)),
                        ),
                    },
                    pos + 5 + le_bytes_value(s.subrange(pos + 1, pos + 5)),
                ),
            )
        } else {
            Err(DecodeError::ScriptOverrun { offset: pos as usize })
        }
    } else if 0x51 <= b <= 0x60 {
        Ok((TokenM::OpN { n: (b - 0x50) as u8 }, pos + 1))
    } else if is_named_opcode(b) {
        Ok((TokenM::Named { op: b }, pos + 1))
    } else {
        Ok((TokenM::Unknown { op: b }, pos + 1))
    }
}

/// A successfully decoded token is well formed and ends inside the script,
/// past where it began.
pub proof fn lemma_next_token_advances(s: Seq<u8>, pos: int)
    requires
        0 <= pos < s.len(),
        spec_next_token(s, pos) is Ok,
    ensures
        pos < spec_next_token(s, pos).unwrap().1 <= s.len(),
        spec_next_token(s, pos).unwrap().0.wf(),
{
    reveal_with_fuel(crate::bytes::pow256, 5);
    if s[pos] == 0x4d && pos + 3 <= s.len() {
        crate::bytes::lemma_le_bytes_value_bound(s.subrange(pos + 1, pos + 3));
    }
    if s[pos] == 0x4e && pos + 5 <= s.len() {
        crate::bytes::lemma_le_bytes_value_bound(s.subrange(pos + 1, pos + 5));
    }
}

/// The whole token sequence of a script from `pos` on. Fails exactly when
/// some push overruns the script end.
pub open spec fn spec_disassemble(s: Seq<u8>, pos: int) -> Result<Seq<TokenM>, DecodeError>
    decreases s.len() - pos,
        when 0 <= pos <= s.len()
{
    if pos >= s.len() {
        Ok(Seq::empty())
    } else {
        match spec_next_token(s, pos) {
            Err(e) => Err(e),
            Ok((t, p2)) => if pos < p2 <= s.len() {
                match spec_disassemble(s, p2) {
                    Err(e) => Err(e),
                    Ok(rest) => Ok(seq![t] + rest),
                }
            } else {
                // never reached — a decoded token always advances inside the
                // script (lemma_next_token_advances); the branch keeps the
                // recursion well founded
                Err(DecodeError::ScriptOverrun { offset: pos as usize })
            },
        }
    }
}

/// Decodes one token of `script` at `pos`, returning it with the position
/// just past it.
fn next_token(script: &Vec<u8>, pos: usize) -> (r: Result<(Token, usize), DecodeError>)
    requires
        pos < script@.len(),
    ensures
        match r {
            Ok((t, p2)) => spec_next_token(script@, pos as int) == Ok::<_, DecodeError>(
                (t@, p2 as int),
            ),
            Err(e) => spec_next_token(script@, pos as int) == Err::<(TokenM, int), _>(e),
        },
{
    proof {
        assert(script@.len() == script.len());
    }
    let b = script[pos];
    if b == 0 {
        Ok((Token::Op0, pos + 1))
    } else if b <= 75 {
        let n = b as usize;
        if script.len() - (pos + 1) < n {
            return Err(DecodeError::ScriptOverrun { offset: pos });
        }
        let data = copy_range(script, pos + 1, pos + 1 + n);
        Ok((Token::Push { data }, pos + 1 + n))
    } else if b == 0x4c {
        if script.len() - pos < 2 {
            return Err(DecodeError::ScriptOverrun { offset: pos });
        }
        let n = script[pos + 1] as usize;
        if script.len() - (pos + 2) < n {
            return Err(DecodeError::ScriptOverrun { offset: pos });
        }
        let data = copy_range(script, pos + 2, pos + 2 + n);
        Ok((Token::PushData1 { data }, pos + 2 + n))
    } else if b == 0x4d {
        if script.len() - pos < 3 {
            return Err(DecodeError::ScriptOverrun { offset: pos });
        }
        let n = read_u16_le(script, pos + 1) as usize;
        if script.len() - (pos + 3) < n {
            return Err(DecodeError::ScriptOverrun { offset: pos });
        }
        let data = copy_range(script, pos + 3, pos + 3 + n);
        Ok((Token::PushData2 { data }, pos + 3 + n))
    } else if b == 0x4e {
        if script.len() - pos < 5 {
            return Err(DecodeError::ScriptOverrun { offset: pos });
        }
        let n64 = read_u32_le(script, pos + 1) as u64;
        if (script.len() as u64) - ((pos + 5) as u64) < n64 {
            return Err(DecodeError::ScriptOverrun { offset: pos });
        }
        let n = n64 as usize;
        let data = copy_range(script, pos + 5, pos + 5 + n);
        Ok((Token::PushData4 { data }, pos + 5 + n))
    } else if 0x51 <= b && b <= 0x60 {
        Ok((Token::OpN { n: b - 0x50 }, pos + 1))
    } else {
        match named_opcode(b) {
            Some(_) => Ok((Token::Named { op: b }, pos + 1)),
            None => Ok((Token::Unknown { op: b }, pos + 1)),
        }
    }
}

/// Disassembles a whole script into its ordered token sequence. Succeeds
/// on every byte value; it fails exactly when a push opcode's declared
/// length overruns the remaining script bytes, and never reads past the
/// script boundary.
pub fn disassemble(script: &Vec<u8>) -> (r: Result<Vec<Token>, DecodeError>)
    ensures
        match r {
            Ok(ts) => spec_disassemble(script@, 0) == Ok::<_, DecodeError>(ts.deep_view()),
            Err(e) => {
                &&& spec_disassemble(script@, 0) == Err::<Seq<TokenM>, _>(e)
                &&& e is ScriptOverrun
            },
        },
{
    proof {
        assert(script@.len() == script.len());
    }
    let mut tokens: Vec<Token> = Vec::new();
    let mut pos: usize = 0;
    while pos < script.len()
        invariant
            pos <= script@.len(),
            spec_disassemble(script@, pos as int) matches Ok(rest) ==> spec_disassemble(
                script@,
                0,
            ) == Ok::<_, DecodeError>(tokens.deep_view() + rest),
            spec_disassemble(script@, pos as int) matches Err(e) ==> spec_disassemble(script@, 0)
                == Err::<Seq<TokenM>, _>(e),
        decreases script@.len() - pos,
    {
        let ghost done = tokens.deep_view();
        match next_token(script, pos) {
            Err(e) => {
                return Err(e);
            },
            Ok((t, p2)) => {
                proof {
                    lemma_next_token_advances(script@, pos as int);
                }
                tokens.push(t);
                proof {
                    assert(tokens.deep_view() =~= done + seq![t@]);
                    if spec_disassemble(script@, p2 as int) is Ok {
                        let rest = spec_disassemble(script@, p2 as int).unwrap();
                        assert(done + (seq![t@] + rest) =~= (done + seq![t@]) + rest);
                    }
                }
                pos = p2;
            },
        }
    }
    proof {
        assert(tokens.deep_view() + Seq::<TokenM>::empty() =~= tokens.deep_view());
    }
    Ok(tokens)
}

/// Every token of a successful disassembly is well formed.
pub proof fn lemma_disassemble_wf(s: Seq<u8>, pos: int)
    requires
        0 <= pos <= s.len(),
        spec_disassemble(s, pos) is Ok,
    ensures
        forall|i: int|
            0 <= i < spec_disassemble(s, pos).unwrap().len() ==> (
            #[trigger] spec_disassemble(s, pos).unwrap()[i]).wf(),
    decreases s.len() - pos,
{
    if pos >= s.len() {
    } else {
        lemma_next_token_advances(s, pos);
        let (t, p2) = spec_next_token(s, pos).unwrap();
        lemma_disassemble_wf(s, p2);
    }
}

/// The rendering of a token sequence: the tokens' texts joined by single
/// spaces.
pub open spec fn spec_render(ts: Seq<TokenM>) -> Seq<char>
    decreases ts.len(),
{
    if ts.len() == 0 {
        Seq::empty()
    } else if ts.len() == 1 {
        ts[0].text()
    } else {
        spec_render(ts.drop_last()) + seq![' '] + ts.last().text()
    }
}

/// The text of one well-formed token.
fn token_text(t: &Token) -> (r: String)
    requires
        t@.wf(),
    ensures
        r@ == t@.text(),
{
    match t {
        Token::Op0 => String::from_str("OP_0"),
        Token::OpN { n } => op_n_string(*n),
        Token::Push { data } => hex_encode(data),
        Token::PushData1 { data } => {
            let mut s = String::from_str("OP_PUSHDATA1 ");
            s.append(hex_encode(data).as_str());
            s
        },
        Token::PushData2 { data } => {
            let mut s = String::from_str("OP_PUSHDATA2 ");
            s.append(hex_encode(data).as_str());
            s
        },
        Token::PushData4 { data } => {
            let mut s = String::from_str("OP_PUSHDATA4 ");
            s.append(hex_encode(data).as_str());
            s
        },
        Token::Named { op } => {
            match named_opcode(*op) {
                Some(s) => s,
                None => {
                    proof {
                        assert(false);
                    }
                    String::new()
                },
            }
        },
        Token::Unknown { op } => {
            let mut s = String::from_str("OP_UNKNOWN_");
            let mut b: Vec<u8> = Vec::new();
            b.push(*op);
            proof {
                reveal_with_fuel(hex_of, 3);
                assert(b@.drop_first() =~= Seq::<u8>::empty());
                assert(hex_of(b@) =~= byte_hex(*op));
            }
            s.append(hex_encode(&b).as_str());
            s
        },
    }
}

/// Renders a token sequence as text, tokens joined by single spaces.
pub fn render_tokens(tokens: &Vec<Token>) -> (r: String)
    requires
        forall|i: int| 0 <= i < tokens@.len() ==> (#[trigger] tokens@[i]@).wf(),
    ensures
        r@ == spec_render(tokens.deep_view()),
{
    let mut out = String::new();
    let mut i: usize = 0;
    proof {
        assert(tokens@.len() == tokens.len());
    }
    while i < tokens.len()
        invariant
            i <= tokens@.len(),
            out@ == spec_render(tokens.deep_view().take(i as int)),
        decreases tokens@.len() - i,
    {
        let text = token_text(&tokens[i]);
        if i == 0 {
            out = text;
        } else {
            out.append(" ");
            out.append(text.as_str());
        }
        proof {
            let dv = tokens.deep_view();
            assert(dv[i as int] == tokens@[i as int]@);
            assert(dv.take(i as int + 1).drop_last() =~= dv.take(i as int));
            assert(dv.take(i as int + 1).last() == dv[i as int]);
            if i == 0 {
                assert(dv.take(1).len() == 1);
                assert(out@ == spec_render(dv.take(1)));
            } else {
                reveal_strlit(" ");
                assert(" "@ =~= seq![' ']);
                reveal_with_fuel(spec_render, 2);
            }
        }
        i = i + 1;
    }
    proof {
        assert(tokens.deep_view().take(tokens@.len() as int) =~= tokens.deep_view());
    }
    out
}

/// Disassembles a script and renders it as text in one step. The result
/// is exactly the rendering of the script's token sequence; the error is
/// exactly that of disassembly.
pub fn script_to_opcodes(script: &Vec<u8>) -> (r: Result<String, DecodeError>)
    ensures
        match r {
            Ok(text) => {
                &&& spec_disassemble(script@, 0) is Ok
                &&& text@ == spec_render(spec_disassemble(script@, 0).unwrap())
            },
            Err(e) => spec_disassemble(script@, 0) == Err::<Seq<TokenM>, _>(e),
        },
{
    match disassemble(script) {
        Err(e) => Err(e),
        Ok(tokens) => {
            proof {
                lemma_disassemble_wf(script@, 0);
                assert forall|i: int| 0 <= i < tokens@.len() implies (
                #[trigger] tokens@[i]@).wf() by {
                    assert(spec_disassemble(script@, 0).unwrap()[i] == tokens@[i]@);
                }
            }
            Ok(render_tokens(&tokens))
        },
    }
}

} // verus!
