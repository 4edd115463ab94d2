use blockparse::script::{disassemble, script_to_opcodes, Token};
use blockparse::errors::DecodeError;

#[test]
fn opcode_zero_is_op_0() {
    let script: Vec<u8> = vec![0x00];
    let tokens = disassemble(&script).unwrap();
    assert_eq!(tokens.len(), 1);
    assert!(matches!(tokens[0], Token::Op0));
    assert_eq!(script_to_opcodes(&script).unwrap(), "OP_0");
}

#[test]
fn pushdata1_consumes_payload() {
    let script: Vec<u8> = vec![0x4c, 0x03, 0xaa, 0xbb, 0xcc];
    let tokens = disassemble(&script).unwrap();
    assert_eq!(tokens.len(), 1, "cursor must advance past the whole payload");
    match &tokens[0] {
        Token::PushData1 { data } => assert_eq!(data, &vec![0xaau8, 0xbb, 0xcc]),
        _ => panic!("expected a PUSHDATA1 token"),
    }
    assert_eq!(script_to_opcodes(&script).unwrap(), "OP_PUSHDATA1 aabbcc");
}

#[test]
fn pushdata2_little_endian_length() {
    let mut script: Vec<u8> = vec![0x4d, 0x02, 0x00, 0x11, 0x22];
    assert_eq!(script_to_opcodes(&script).unwrap(), "OP_PUSHDATA2 1122");
    script = vec![0x4e, 0x01, 0x00, 0x00, 0x00, 0x7f];
    assert_eq!(script_to_opcodes(&script).unwrap(), "OP_PUSHDATA4 7f");
}

#[test]
fn unknown_opcode_is_tolerated() {
    let script: Vec<u8> = vec![0xfe];
    let tokens = disassemble(&script).unwrap();
    assert_eq!(tokens.len(), 1);
    assert!(matches!(tokens[0], Token::Unknown { op: 0xfe }));
    assert_eq!(script_to_opcodes(&script).unwrap(), "OP_UNKNOWN_fe");
}

#[test]
fn direct_push_renders_as_data() {
    let script: Vec<u8> = vec![0x02, 0xde, 0xad];
    assert_eq!(script_to_opcodes(&script).unwrap(), "dead");
}

#[test]
fn numeric_opcodes_render() {
    assert_eq!(script_to_opcodes(&vec![0x51]).unwrap(), "OP_1");
    assert_eq!(script_to_opcodes(&vec![0x60]).unwrap(), "OP_16");
}

#[test]
fn p2pkh_script_renders() {
    let mut script: Vec<u8> = vec![0x76, 0xa9, 0x14];
    for i in 0..20u8 {
        script.push(i);
    }
    script.push(0x88);
    script.push(0xac);
    assert_eq!(
        script_to_opcodes(&script).unwrap(),
        "OP_DUP OP_HASH160 000102030405060708090a0b0c0d0e0f10111213 OP_EQUALVERIFY OP_CHECKSIG"
    );
}

#[test]
fn push_overrun_is_an_error() {
    let script: Vec<u8> = vec![0x05, 0x01, 0x02];
    let e = disassemble(&script).unwrap_err();
    assert_eq!(e, DecodeError::ScriptOverrun { offset: 0 });
}

#[test]
fn pushdata_overrun_is_an_error() {
    let script: Vec<u8> = vec![0xaa, 0x4c, 0x09, 0x01];
    let e = disassemble(&script).unwrap_err();
    assert_eq!(e, DecodeError::ScriptOverrun { offset: 1 });
}

#[test]
fn empty_script_has_no_tokens() {
    let script: Vec<u8> = vec![];
    assert_eq!(disassemble(&script).unwrap().len(), 0);
    assert_eq!(script_to_opcodes(&script).unwrap(), "");
}
