//! Words and primitive data types. A word is a fixed 8-byte value stored
//! in little-endian order; accessors reinterpret the bytes as signed or
//! unsigned 64-bit integers.

use vstd::bytes::{
    lemma_auto_spec_u64_to_from_le_bytes, spec_u64_from_le_bytes, spec_u64_to_le_bytes,
    spec_u64_to_le_bytes_to_open, u64_from_le_bytes,
};
use vstd::prelude::*;
use crate::text::{hex_pairs, push_hex_pair, push_hex_pairs, push_str};

verus! {

/// The size of a machine word in bytes.
pub const WORD_SIZE: usize = 8;

/// The version string of the SLASM IR.
pub open spec fn version_chars() -> Seq<char> {
    "1.0.0"@
}

/// The declared version of the SLASM IR.
pub fn version() -> (r: &'static str)
    ensures
        r@ == version_chars(),
{
    "1.0.0"
}

/// `0x` followed by the upper-case hexadecimal pairs of the bytes in the
/// order given.
pub open spec fn hex_string_chars(bs: Seq<u8>) -> Seq<char> {
    "0x"@ + hex_pairs(bs)
}

/// `0x` followed by 16 upper-case hexadecimal digits, most significant
/// byte of the word first.
pub open spec fn word_hex_chars(bs: Seq<u8>) -> Seq<char> {
    hex_string_chars(bs.reverse())
}

/// The unsigned 64-bit value stored by 8 little-endian bytes.
pub open spec fn le_bytes_as_u64(bs: Seq<u8>) -> u64
    recommends
        bs.len() == WORD_SIZE,
{
    spec_u64_from_le_bytes(bs)
}

/// The two's-complement reinterpretation of an unsigned 64-bit value.
pub open spec fn u64_as_i64(x: u64) -> int {
    if x < 0x8000_0000_0000_0000 {
        x as int
    } else {
        x - 0x1_0000_0000_0000_0000
    }
}

/// The two's-complement reinterpretation of a signed 64-bit value.
pub open spec fn i64_as_u64(x: i64) -> int {
    if x >= 0 {
        x as int
    } else {
        x + 0x1_0000_0000_0000_0000
    }
}

/// Renders a byte sequence as `0x` followed by upper-case hexadecimal
/// pairs, first byte first.
pub fn to_hex_string(bytes: &[u8]) -> (r: String)
    ensures
        r@ == hex_string_chars(bytes@),
{
    let mut out = String::new();
    push_str(&mut out, "0x");
    push_hex_pairs(&mut out, bytes);
    proof {
        assert(out@ =~= hex_string_chars(bytes@));
    }
    out
}

/// A fixed 8-byte little-endian value.
#[derive(Debug, Clone, Copy)]
pub struct Word {
    pub bytes: [u8; WORD_SIZE],
}

impl View for Word {
    type V = Seq<u8>;

    open spec fn view(&self) -> Seq<u8> {
        self.bytes@
    }
}

impl Word {
    /// Wraps 8 raw bytes, taken to be in little-endian order.
    pub fn new(bytes: [u8; WORD_SIZE]) -> (r: Word)
        ensures
            r@ == bytes@,
    {
        Word { bytes }
    }

    /// Encodes a signed 64-bit integer in two's complement,
    /// little-endian.
    pub fn from_i64(value: i64) -> (r: Word)
        ensures
            r@ == spec_u64_to_le_bytes(i64_as_u64(value) as u64),
    {
        let unsigned: u64 = if value >= 0 {
            value as u64
        } else {
            u64::MAX - ((-(value + 1)) as u64)
        };
        assert(unsigned == i64_as_u64(value));
        Word::from_ui64(unsigned)
    }

    /// Encodes an unsigned 64-bit integer in little-endian order.
    pub fn from_ui64(value: u64) -> (r: Word)
        ensures
            r@ == spec_u64_to_le_bytes(value),
    {
        let bytes: [u8; WORD_SIZE] = [
            (value & 0xff) as u8,
            ((value >> 8) & 0xff) as u8,
            ((value >> 16) & 0xff) as u8,
            ((value >> 24) & 0xff) as u8,
            ((value >> 32) & 0xff) as u8,
            ((value >> 40) & 0xff) as u8,
            ((value >> 48) & 0xff) as u8,
            ((value >> 56) & 0xff) as u8,
        ];
        proof {
            spec_u64_to_le_bytes_to_open(value);
            assert(bytes@ =~= spec_u64_to_le_bytes(value));
        }
        Word { bytes }
    }

    /// `0x` followed by 16 upper-case hexadecimal digits, most
    /// significant byte first.
    pub fn as_hex(&self) -> (r: String)
        ensures
            r@ == word_hex_chars(self@),
    {
        let mut out = String::new();
        push_str(&mut out, "0x");
        let ghost rev = self@.reverse();
        let mut i: usize = 0;
        while i < WORD_SIZE
            invariant
                i <= WORD_SIZE,
                rev == self@.reverse(),
                self.bytes@.len() == WORD_SIZE,
                out@ == "0x"@ + hex_pairs(rev.take(i as int)),
            decreases WORD_SIZE - i,
        {
            proof {
                crate::text::lemma_hex_pairs_take_snoc(rev, i as int);
                assert(rev[i as int] == self.bytes@[WORD_SIZE - 1 - i as int]);
            }
            push_hex_pair(&mut out, self.bytes[WORD_SIZE - 1 - i]);
            proof {
                assert(out@ =~= "0x"@ + hex_pairs(rev.take(i + 1)));
            }
            i = i + 1;
        }
        proof {
            assert(rev.take(rev.len() as int) =~= rev);
        }
        out
    }

    /// The bytes read back as a signed little-endian 64-bit integer.
    pub fn as_i64(&self) -> (r: i64)
        ensures
            r as int == u64_as_i64(le_bytes_as_u64(self@)),
    {
        let unsigned = self.as_ui64();
        if unsigned <= 0x7fff_ffff_ffff_ffff {
            unsigned as i64
        } else {
            let distance_to_max: u64 = u64::MAX - unsigned;
            -(distance_to_max as i64) - 1
        }
    }

    /// The bytes read back as an unsigned little-endian 64-bit integer.
    pub fn as_ui64(&self) -> (r: u64)
        ensures
            r == le_bytes_as_u64(self@),
    {
        u64_from_le_bytes(self.bytes.as_slice())
    }
}

/// A word stores exactly the integer it was built from: decoding after
/// encoding is the identity, for signed and unsigned 64-bit values alike,
/// and the hexadecimal rendering of any word is `0x` followed by 16
/// digits, most significant byte first.
pub proof fn lemma_word_round_trip(x: i64, y: u64)
    ensures
        u64_as_i64(le_bytes_as_u64(spec_u64_to_le_bytes(i64_as_u64(x) as u64))) == x as int,
        le_bytes_as_u64(spec_u64_to_le_bytes(y)) == y,
        spec_u64_to_le_bytes(y).len() == WORD_SIZE,
        word_hex_chars(spec_u64_to_le_bytes(y)).len() == "0x"@.len() + 2 * WORD_SIZE,
{
    lemma_auto_spec_u64_to_from_le_bytes();
    crate::text::lemma_hex_pairs_len(spec_u64_to_le_bytes(y).reverse());
}

/// The primitive numeric data types of SLASM.
#[derive(Debug, Clone, Copy, PartialEq, Eq, Structural)]
pub enum DataType {
    I8,
    UI8,
    I16,
    UI16,
    I32,
    UI32,
    I64,
    UI64,
    F32,
    F64,
}

/// The upper-case mnemonic of a data type.
pub open spec fn data_type_chars(t: DataType) -> Seq<char> {
    match t {
        DataType::I8 => "I8"@,
        DataType::UI8 => "UI8"@,
        DataType::I16 => "I16"@,
        DataType::UI16 => "UI16"@,
        DataType::I32 => "I32"@,
        DataType::UI32 => "UI32"@,
        DataType::I64 => "I64"@,
        DataType::UI64 => "UI64"@,
        DataType::F32 => "F32"@,
        DataType::F64 => "F64"@,
    }
}

impl DataType {
    /// The upper-case mnemonic, the string rendering of the type.
    pub fn as_str(&self) -> (r: &'static str)
        ensures
            r@ == data_type_chars(*self),
    {
        match self {
            DataType::I8 => "I8",
            DataType::UI8 => "UI8",
            DataType::I16 => "I16",
            DataType::UI16 => "UI16",
            DataType::I32 => "I32",
            DataType::UI32 => "UI32",
            DataType::I64 => "I64",
            DataType::UI64 => "UI64",
            DataType::F32 => "F32",
            DataType::F64 => "F64",
        }
    }
}

} // verus!
