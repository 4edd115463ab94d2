//! The self-describing variable-length integer of the wire format.
//!
//! A decoded [`VarInt`] keeps the exact raw bytes it was read from: the
//! legacy transaction hash is computed over the literal encoding, so a
//! re-normalized encoding would change the hash. Decoding is lenient: a
//! non-minimal encoding (for example the value 5 written with the 3-byte
//! prefix form) is accepted verbatim. Encoding always picks the minimal
//! width.
use vstd::prelude::*;
use crate::bytes::le_bytes_value;
use crate::errors::DecodeError;

verus! {

/// Width in bytes of a varint encoding, determined by its first byte.
pub open spec fn varint_width_of(first: u8) -> nat {
    if first < 0xfd {
        1
    } else if first == 0xfd {
        3
    } else if first == 0xfe {
        5
    } else {
        9
    }
}

/// Value of a complete varint encoding: a one-byte encoding is its own
/// value; otherwise the bytes after the prefix, read little-endian.
pub open spec fn varint_value_of(raw: Seq<u8>) -> nat {
    if raw.len() == 1 {
        raw[0] as nat
    } else {
        le_bytes_value(raw.drop_first())
    }
}

/// The minimal width that can represent a value; what `encode_varint` picks.
pub open spec fn varint_min_width(value: nat) -> nat {
    if value < 0xfd {
        1
    } else if value < 0x1_0000 {
        3
    } else if value < 0x1_0000_0000 {
        5
    } else {
        9
    }
}

/// Mathematical model of a decoded varint: its numeric value and the raw
/// bytes it was read from.
#[verifier::ext_equal]
pub ghost struct VarIntM {
    pub value: nat,
    pub raw: Seq<u8>,
}

/// A decoded variable-length integer: numeric value, encoding width, and
/// the exact raw bytes of the encoding.
#[derive(Debug)]
pub struct VarInt {
    pub value: u64,
    pub width: u32,
    pub raw: Vec<u8>,
}

impl View for VarInt {
    type V = VarIntM;

    open spec fn view(&self) -> VarIntM {
        VarIntM { value: self.value as nat, raw: self.raw@ }
    }
}

impl VarInt {
    /// The raw bytes are a complete encoding and agree with the stored
    /// value and width.
    pub open spec fn wf(self) -> bool {
        &&& self.raw@.len() == self.width as nat
        &&& self.raw@.len() >= 1
        &&& varint_width_of(self.raw@[0]) == self.width as nat
        &&& self.value as nat == varint_value_of(self.raw@)
    }

    /// The encoding is the shortest one for the stored value.
    pub open spec fn canonical(self) -> bool {
        self.width as nat == varint_min_width(self.value as nat)
    }

    /// The numeric value.
    pub fn value(&self) -> (r: u64)
        ensures
            r == self.value,
    {
        self.value
    }

    /// The width of the encoding in bytes.
    pub fn len(&self) -> (r: u32)
        ensures
            r == self.width,
    {
        self.width
    }

    /// The exact raw bytes of the encoding.
    pub fn data(&self) -> (r: &Vec<u8>)
        ensures
            r@ == self.raw@,
    {
        &self.raw
    }
}

/// What decoding a varint at `pos` yields: `None` when the buffer ends
/// mid-field, otherwise the value and the raw bytes consumed.
pub open spec fn spec_read_varint(s: Seq<u8>, pos: int) -> Option<VarIntM> {
    if 0 <= pos < s.len() {
        let w = varint_width_of(s[pos]);
        if pos + w <= s.len() {
            Some(
                VarIntM {
                    value: varint_value_of(s.subrange(pos, pos + w)),
                    raw: s.subrange(pos, pos + w),
                },
            )
        } else {
            None
        }
    } else {
        None
    }
}

/// Decodes the varint that starts at `pos` in `s`. Succeeds if and only if
/// the buffer holds the whole encoding; the result keeps the raw bytes
/// verbatim, with no canonical-minimal-encoding check.
pub fn read_varint(s: &Vec<u8>, pos: usize) -> (r: Result<VarInt, DecodeError>)
    ensures
        match r {
            Ok(v) => {
                &&& v.wf()
                &&& spec_read_varint(s@, pos as int) == Some(v@)
                &&& v.raw@ == s@.subrange(pos as int, pos as int + v.width as int)
                &&& pos + v.width as nat <= s@.len()
                &&& 1 <= v.width <= 9
            },
            Err(e) => {
                &&& spec_read_varint(s@, pos as int) is None
                &&& e == (DecodeError::Truncated { offset: pos })
            },
        },
{
    if pos >= s.len() {
        return Err(DecodeError::Truncated { offset: pos });
    }
    let first = s[pos];
    if first < 0xfd {
        let mut raw: Vec<u8> = Vec::new();
        raw.push(first);
        proof {
            assert(raw@ =~= s@.subrange(pos as int, pos as int + 1));
        }
        let v = VarInt { value: first as u64, width: 1, raw };
        proof {
            assert(spec_read_varint(s@, pos as int) == Some(v@)) by {
                assert(spec_read_varint(s@, pos as int).unwrap() =~= v@);
            }
        }
        Ok(v)
    } else if first == 0xfd {
        if s.len() - pos < 3 {
            return Err(DecodeError::Truncated { offset: pos });
        }
        let value = crate::bytes::read_u16_le(s, pos + 1) as u64;
        let raw = crate::bytes::copy_range(s, pos, pos + 3);
        let v = VarInt { value, width: 3, raw };
        proof {
            assert(v.raw@.drop_first() =~= s@.subrange(pos as int + 1, pos as int + 3));
            assert(spec_read_varint(s@, pos as int).unwrap() =~= v@);
        }
        Ok(v)
    } else if first == 0xfe {
        if s.len() - pos < 5 {
            return Err(DecodeError::Truncated { offset: pos });
        }
        let value = crate::bytes::read_u32_le(s, pos + 1) as u64;
        let raw = crate::bytes::copy_range(s, pos, pos + 5);
        let v = VarInt { value, width: 5, raw };
        proof {
            assert(v.raw@.drop_first() =~= s@.subrange(pos as int + 1, pos as int + 5));
            assert(spec_read_varint(s@, pos as int).unwrap() =~= v@);
        }
        Ok(v)
    } else {
        if s.len() - pos < 9 {
            return Err(DecodeError::Truncated { offset: pos });
        }
        let value = crate::bytes::read_u64_le(s, pos + 1);
        let raw = crate::bytes::copy_range(s, pos, pos + 9);
        let v = VarInt { value, width: 9, raw };
        proof {
            assert(v.raw@.drop_first() =~= s@.subrange(pos as int + 1, pos as int + 9));
            assert(spec_read_varint(s@, pos as int).unwrap() =~= v@);
        }
        Ok(v)
    }
}

/// Encodes a value with the minimal-width prefix. The result is a
/// well-formed, canonical varint carrying exactly that value.
pub fn encode_varint(value: u64) -> (v: VarInt)
    ensures
        v.wf(),
        v.canonical(),
        v.value == value,
{
    if value < 0xfd {
        let mut raw: Vec<u8> = Vec::new();
        raw.push(value as u8);
        VarInt { value, width: 1, raw }
    } else if value <= 0xffff {
        let mut raw: Vec<u8> = Vec::new();
        raw.push(0xfd);
        raw.push(#[verifier::truncate] (value as u8));
        raw.push(#[verifier::truncate] ((value >> 8) as u8));
        let v = VarInt { value, width: 3, raw };
        proof {
            assert(value == (value as u8) as u64 + 0x100 * ((value >> 8) as u8) as u64)
                by (bit_vector)
                requires
                    value <= 0xffff,
            ;
            assert(v.raw@.drop_first() =~= seq![value as u8, (value >> 8) as u8]);
            crate::bytes::lemma_le2(value as u8, (value >> 8) as u8);
        }
        v
    } else if value <= 0xffff_ffff {
        let mut raw: Vec<u8> = Vec::new();
        raw.push(0xfe);
        raw.push(#[verifier::truncate] (value as u8));
        raw.push(#[verifier::truncate] ((value >> 8) as u8));
        raw.push(#[verifier::truncate] ((value >> 16) as u8));
        raw.push(#[verifier::truncate] ((value >> 24) as u8));
        let v = VarInt { value, width: 5, raw };
        proof {
            assert(value == (value as u8) as u64 + 0x100 * ((value >> 8) as u8) as u64
                + 0x1_0000 * ((value >> 16) as u8) as u64
                + 0x100_0000 * ((value >> 24) as u8) as u64)
                by (bit_vector)
                requires
                    value <= 0xffff_ffff,
            ;
            assert(v.raw@.drop_first() =~= seq![
                value as u8,
                (value >> 8) as u8,
                (value >> 16) as u8,
                (value >> 24) as u8,
            ]);
            crate::bytes::lemma_le4(
                value as u8,
                (value >> 8) as u8,
                (value >> 16) as u8,
                (value >> 24) as u8,
            );
        }
        v
    } else {
        let mut raw: Vec<u8> = Vec::new();
        raw.push(0xff);
        raw.push(#[verifier::truncate] (value as u8));
        raw.push(#[verifier::truncate] ((value >> 8) as u8));
        raw.push(#[verifier::truncate] ((value >> 16) as u8));
        raw.push(#[verifier::truncate] ((value >> 24) as u8));
        raw.push(#[verifier::truncate] ((value >> 32) as u8));
        raw.push(#[verifier::truncate] ((value >> 40) as u8));
        raw.push(#[verifier::truncate] ((value >> 48) as u8));
        raw.push(#[verifier::truncate] ((value >> 56) as u8));
        let v = VarInt { value, width: 9, raw };
        proof {
            assert(value == (value as u8) as u64 + 0x100 * ((value >> 8) as u8) as u64
                + 0x1_0000 * ((value >> 16) as u8) as u64
                + 0x100_0000 * ((value >> 24) as u8) as u64
                + 0x1_0000_0000 * ((value >> 32) as u8) as u64
                + 0x100_0000_0000 * ((value >> 40) as u8) as u64
                + 0x1_0000_0000_0000 * ((value >> 48) as u8) as u64
                + 0x100_0000_0000_0000 * ((value >> 56) as u8) as u64)
                by (bit_vector);
            assert(v.raw@.drop_first() =~= seq![
                value as u8,
                (value >> 8) as u8,
                (value >> 16) as u8,
                (value >> 24) as u8,
                (value >> 32) as u8,
                (value >> 40) as u8,
                (value >> 48) as u8,
                (value >> 56) as u8,
            ]);
            crate::bytes::lemma_le8(
                value as u8,
                (value >> 8) as u8,
                (value >> 16) as u8,
                (value >> 24) as u8,
                (value >> 32) as u8,
                (value >> 40) as u8,
                (value >> 48) as u8,
                (value >> 56) as u8,
            );
        }
        v
    }
}

/// Round trip: decoding any well-formed varint from its own raw bytes
/// yields the same value and consumes exactly those bytes. Together with
/// the contract of [`encode_varint`], decoding an encoded value returns
/// that value, and the encoding has the minimal width.
pub proof fn lemma_varint_round_trip(v: VarInt)
    requires
        v.wf(),
    ensures
        spec_read_varint(v.raw@, 0) == Some(v@),
{
    assert(v.raw@.subrange(0, v.raw@.len() as int) =~= v.raw@);
    assert(spec_read_varint(v.raw@, 0).unwrap() =~= v@);
}

} // verus!
