use blockparse::varint::{read_varint, encode_varint};
use blockparse::errors::DecodeError;

#[test]
fn varint_round_trip_tested_values() {
    let cases: Vec<(u64, u32)> = vec![
        (0, 1),
        (1, 1),
        (252, 1),
        (253, 3),
        (65535, 3),
        (65536, 5),
        (4294967295, 5),
        (4294967296, 9),
        (18446744073709551615, 9),
    ];
    for (value, expected_width) in cases {
        let encoded = encode_varint(value);
        assert_eq!(encoded.len(), expected_width, "minimal width for {}", value);
        let decoded = read_varint(encoded.data(), 0).unwrap();
        assert_eq!(decoded.value(), value);
        assert_eq!(decoded.len(), expected_width);
        assert_eq!(decoded.data(), encoded.data());
    }
}

#[test]
fn varint_encode_exact_bytes() {
    assert_eq!(encode_varint(5).data(), &vec![5u8]);
    assert_eq!(encode_varint(253).data(), &vec![0xfdu8, 0xfd, 0x00]);
    assert_eq!(encode_varint(65536).data(), &vec![0xfeu8, 0x00, 0x00, 0x01, 0x00]);
    assert_eq!(
        encode_varint(4294967296).data(),
        &vec![0xffu8, 0x00, 0x00, 0x00, 0x00, 0x01, 0x00, 0x00, 0x00]
    );
}

#[test]
fn varint_non_canonical_accepted() {
    let bytes: Vec<u8> = vec![0xfd, 0x05, 0x00];
    let v = read_varint(&bytes, 0).unwrap();
    assert_eq!(v.value(), 5);
    assert_eq!(v.len(), 3);
    assert_eq!(v.data(), &bytes);
}

#[test]
fn varint_truncated_fails() {
    let bytes: Vec<u8> = vec![0xfd, 0x05];
    let e = read_varint(&bytes, 0).unwrap_err();
    assert_eq!(e, DecodeError::Truncated { offset: 0 });
    let empty: Vec<u8> = vec![];
    let e2 = read_varint(&empty, 0).unwrap_err();
    assert_eq!(e2, DecodeError::Truncated { offset: 0 });
}

#[test]
fn varint_mid_buffer() {
    let bytes: Vec<u8> = vec![0xaa, 0xfe, 0x01, 0x00, 0x01, 0x00, 0xbb];
    let v = read_varint(&bytes, 1).unwrap();
    assert_eq!(v.value(), 0x0001_0001);
    assert_eq!(v.len(), 5);
}
