//! Conversion of hexadecimal strings into fixed-width integers.
//!
//! A hexadecimal string of digit pairs is decoded into bytes, the byte count
//! is held against the width of the requested integer type, and the bytes are
//! read as that integer in big-endian or little-endian order. Signed types
//! read the bytes in two's complement. Every entry point either returns the
//! integer every correct string of its width denotes, or says exactly why the
//! string was refused.

pub mod decode;
pub mod digits;
pub mod laws;
pub mod numeric;

use vstd::prelude::*;
use crate::decode::{decode_error, decode_hex, decoded_bytes, valid_hex};
use crate::numeric::{
    as_signed, be_bytes_to_u128, be_val, le_bytes_to_u128, le_val, lemma_be_val_bound,
    lemma_pow256_values,
};

verus! {

/// Why a string failed to decode as hexadecimal digit pairs.
#[derive(Debug, Clone, Copy, PartialEq, Eq, Structural)]
pub enum HexDecodeError {
    /// The string holds an odd number of hexadecimal digits.
    OddLength,
    /// The string holds a character that is no hexadecimal digit: the first
    /// such character and its index.
    InvalidHexCharacter { c: char, index: usize },
}

/// Why a hexadecimal string did not convert to the requested integer.
#[derive(Debug, Clone, Copy, PartialEq, Eq, Structural)]
pub enum ConversionError {
    /// The string is not made of hexadecimal digit pairs.
    InvalidHex(HexDecodeError),
    /// The string decodes to the wrong number of bytes for the requested
    /// width: the byte count the width asks for, and the count found.
    IncorrectLength { expected: usize, found: usize },
    /// Defensive variant for an inconsistency between length validation and
    /// reinterpretation; the contracts of the conversion functions show that
    /// no call returns it.
    ConversionFailed,
}

/// The error a conversion aimed at `expected_len` bytes returns on a string
/// that is not valid hexadecimal of exactly that byte count.
pub open spec fn conversion_error_for(s: Seq<char>, expected_len: usize) -> ConversionError {
    if !valid_hex(s) {
        ConversionError::InvalidHex(decode_error(s))
    } else {
        ConversionError::IncorrectLength { expected: expected_len, found: (s.len() / 2) as usize }
    }
}

/// Decodes a hexadecimal string and holds the byte count against
/// `expected_len`: either exactly `expected_len` bytes come back, or the
/// error that says what was wrong.
fn hex_to_bytes_vec(hex_str: &str, expected_len: usize) -> (r: Result<Vec<u8>, ConversionError>)
    ensures
        r is Ok <==> (valid_hex(hex_str@) && hex_str@.len() == 2 * expected_len),
        r is Ok ==> r->Ok_0@ == decoded_bytes(hex_str@) && r->Ok_0@.len() == expected_len,
        r is Err ==> r->Err_0 == conversion_error_for(hex_str@, expected_len),
{
    let bytes = match decode_hex(hex_str) {
        Ok(b) => b,
        Err(e) => {
            return Err(ConversionError::InvalidHex(e));
        },
    };
    if bytes.len() != expected_len {
        return Err(
            ConversionError::IncorrectLength { expected: expected_len, found: bytes.len() },
        );
    }
    Ok(bytes)
}

/// Converts two hexadecimal digits to a signed 8-bit integer.
pub fn hex_to_i8(hex_str: &str) -> (r: Result<i8, ConversionError>)
    ensures
        r is Ok <==> (valid_hex(hex_str@) && hex_str@.len() == 2),
        r is Ok ==> r->Ok_0 as int == as_signed(be_val(decoded_bytes(hex_str@)), 1),
        r is Err ==> r->Err_0 == conversion_error_for(hex_str@, 1),
{
    let bytes = match hex_to_bytes_vec(hex_str, 1) {
        Ok(b) => b,
        Err(e) => {
            return Err(e);
        },
    };
    proof {
        lemma_pow256_values();
        lemma_be_val_bound(bytes@);
    }
    let v = be_bytes_to_u128(&bytes);
    Ok(if v < 0x80 { v as i8 } else { ((v as i128) - 0x100) as i8 })
}

/// Converts two hexadecimal digits to an unsigned 8-bit integer.
pub fn hex_to_u8(hex_str: &str) -> (r: Result<u8, ConversionError>)
    ensures
        r is Ok <==> (valid_hex(hex_str@) && hex_str@.len() == 2),
        r is Ok ==> r->Ok_0 == be_val(decoded_bytes(hex_str@)),
        r is Err ==> r->Err_0 == conversion_error_for(hex_str@, 1),
{
    let bytes = match hex_to_bytes_vec(hex_str, 1) {
        Ok(b) => b,
        Err(e) => {
            return Err(e);
        },
    };
    proof {
        lemma_pow256_values();
        lemma_be_val_bound(bytes@);
    }
    let v = be_bytes_to_u128(&bytes);
    Ok(v as u8)
}

/// Converts four hexadecimal digits to a signed 16-bit integer, big-endian.
pub fn hex_to_i16_be(hex_str: &str) -> (r: Result<i16, ConversionError>)
    ensures
        r is Ok <==> (valid_hex(hex_str@) && hex_str@.len() == 4),
        r is Ok ==> r->Ok_0 as int == as_signed(be_val(decoded_bytes(hex_str@)), 2),
        r is Err ==> r->Err_0 == conversion_error_for(hex_str@, 2),
{
    let bytes = match hex_to_bytes_vec(hex_str, 2) {
        Ok(b) => b,
        Err(e) => {
            return Err(e);
        },
    };
    proof {
        lemma_pow256_values();
        lemma_be_val_bound(bytes@);
    }
    let v = be_bytes_to_u128(&bytes);
    Ok(if v < 0x8000 { v as i16 } else { ((v as i128) - 0x10000) as i16 })
}

/// Converts four hexadecimal digits to a signed 16-bit integer, little-endian.
pub fn hex_to_i16_le(hex_str: &str) -> (r: Result<i16, ConversionError>)
    ensures
        r is Ok <==> (valid_hex(hex_str@) && hex_str@.len() == 4),
        r is Ok ==> r->Ok_0 as int == as_signed(le_val(decoded_bytes(hex_str@)), 2),
        r is Err ==> r->Err_0 == conversion_error_for(hex_str@, 2),
{
    let bytes = match hex_to_bytes_vec(hex_str, 2) {
        Ok(b) => b,
        Err(e) => {
            return Err(e);
        },
    };
    proof {
        lemma_pow256_values();
        lemma_be_val_bound(bytes@.reverse());
    }
    let v = le_bytes_to_u128(&bytes);
    Ok(if v < 0x8000 { v as i16 } else { ((v as i128) - 0x10000) as i16 })
}

/// Converts four hexadecimal digits to an unsigned 16-bit integer, big-endian.
pub fn hex_to_u16_be(hex_str: &str) -> (r: Result<u16, ConversionError>)
    ensures
        r is Ok <==> (valid_hex(hex_str@) && hex_str@.len() == 4),
        r is Ok ==> r->Ok_0 == be_val(decoded_bytes(hex_str@)),
        r is Err ==> r->Err_0 == conversion_error_for(hex_str@, 2),
{
    let bytes = match hex_to_bytes_vec(hex_str, 2) {
        Ok(b) => b,
        Err(e) => {
            return Err(e);
        },
    };
    proof {
        lemma_pow256_values();
        lemma_be_val_bound(bytes@);
    }
    let v = be_bytes_to_u128(&bytes);
    Ok(v as u16)
}

/// Converts four hexadecimal digits to an unsigned 16-bit integer,
/// little-endian.
pub fn hex_to_u16_le(hex_str: &str) -> (r: Result<u16, ConversionError>)
    ensures
        r is Ok <==> (valid_hex(hex_str@) && hex_str@.len() == 4),
        r is Ok ==> r->Ok_0 == le_val(decoded_bytes(hex_str@)),
        r is Err ==> r->Err_0 == conversion_error_for(hex_str@, 2),
{
    let bytes = match hex_to_bytes_vec(hex_str, 2) {
        Ok(b) => b,
        Err(e) => {
            return Err(e);
        },
    };
    proof {
        lemma_pow256_values();
        lemma_be_val_bound(bytes@.reverse());
    }
    let v = le_bytes_to_u128(&bytes);
    Ok(v as u16)
}

/// Converts eight hexadecimal digits to a signed 32-bit integer, big-endian.
pub fn hex_to_i32_be(hex_str: &str) -> (r: Result<i32, ConversionError>)
    ensures
        r is Ok <==> (valid_hex(hex_str@) && hex_str@.len() == 8),
        r is Ok ==> r->Ok_0 as int == as_signed(be_val(decoded_bytes(hex_str@)), 4),
        r is Err ==> r->Err_0 == conversion_error_for(hex_str@, 4),
{
    let bytes = match hex_to_bytes_vec(hex_str, 4) {
        Ok(b) => b,
        Err(e) => {
            return Err(e);
        },
    };
    proof {
        lemma_pow256_values();
        lemma_be_val_bound(bytes@);
    }
    let v = be_bytes_to_u128(&bytes);
    Ok(if v < 0x80000000 { v as i32 } else { ((v as i128) - 0x100000000) as i32 })
}

/// Converts eight hexadecimal digits to a signed 32-bit integer,
/// little-endian.
pub fn hex_to_i32_le(hex_str: &str) -> (r: Result<i32, ConversionError>)
    ensures
        r is Ok <==> (valid_hex(hex_str@) && hex_str@.len() == 8),
        r is Ok ==> r->Ok_0 as int == as_signed(le_val(decoded_bytes(hex_str@)), 4),
        r is Err ==> r->Err_0 == conversion_error_for(hex_str@, 4),
{
    let bytes = match hex_to_bytes_vec(hex_str, 4) {
        Ok(b) => b,
        Err(e) => {
            return Err(e);
        },
    };
    proof {
        lemma_pow256_values();
        lemma_be_val_bound(bytes@.reverse());
    }
    let v = le_bytes_to_u128(&bytes);
    Ok(if v < 0x80000000 { v as i32 } else { ((v as i128) - 0x100000000) as i32 })
}

/// Converts eight hexadecimal digits to an unsigned 32-bit integer,
/// big-endian.
pub fn hex_to_u32_be(hex_str: &str) -> (r: Result<u32, ConversionError>)
    ensures
        r is Ok <==> (valid_hex(hex_str@) && hex_str@.len() == 8),
        r is Ok ==> r->Ok_0 == be_val(decoded_bytes(hex_str@)),
        r is Err ==> r->Err_0 == conversion_error_for(hex_str@, 4),
{
    let bytes = match hex_to_bytes_vec(hex_str, 4) {
        Ok(b) => b,
        Err(e) => {
            return Err(e);
        },
    };
    proof {
        lemma_pow256_values();
        lemma_be_val_bound(bytes@);
    }
    let v = be_bytes_to_u128(&bytes);
    Ok(v as u32)
}

/// Converts eight hexadecimal digits to an unsigned 32-bit integer,
/// little-endian.
pub fn hex_to_u32_le(hex_str: &str) -> (r: Result<u32, ConversionError>)
    ensures
        r is Ok <==> (valid_hex(hex_str@) && hex_str@.len() == 8),
        r is Ok ==> r->Ok_0 == le_val(decoded_bytes(hex_str@)),
        r is Err ==> r->Err_0 == conversion_error_for(hex_str@, 4),
{
    let bytes = match hex_to_bytes_vec(hex_str, 4) {
        Ok(b) => b,
        Err(e) => {
            return Err(e);
        },
    };
    proof {
        lemma_pow256_values();
        lemma_be_val_bound(bytes@.reverse());
    }
    let v = le_bytes_to_u128(&bytes);
    Ok(v as u32)
}

/// Converts sixteen hexadecimal digits to a signed 64-bit integer,
/// big-endian.
pub fn hex_to_i64_be(hex_str: &str) -> (r: Result<i64, ConversionError>)
    ensures
        r is Ok <==> (valid_hex(hex_str@) && hex_str@.len() == 16),
        r is Ok ==> r->Ok_0 as int == as_signed(be_val(decoded_bytes(hex_str@)), 8),
        r is Err ==> r->Err_0 == conversion_error_for(hex_str@, 8),
{
    let bytes = match hex_to_bytes_vec(hex_str, 8) {
        Ok(b) => b,
        Err(e) => {
            return Err(e);
        },
    };
    proof {
        lemma_pow256_values();
        lemma_be_val_bound(bytes@);
    }
    let v = be_bytes_to_u128(&bytes);
    Ok(
        if v < 0x8000000000000000 {
            v as i64
        } else {
            ((v as i128) - 0x10000000000000000) as i64
        },
    )
}

/// Converts sixteen hexadecimal digits to a signed 64-bit integer,
/// little-endian.
pub fn hex_to_i64_le(hex_str: &str) -> (r: Result<i64, ConversionError>)
    ensures
        r is Ok <==> (valid_hex(hex_str@) && hex_str@.len() == 16),
        r is Ok ==> r->Ok_0 as int == as_signed(le_val(decoded_bytes(hex_str@)), 8),
        r is Err ==> r->Err_0 == conversion_error_for(hex_str@, 8),
{
    let bytes = match hex_to_bytes_vec(hex_str, 8) {
        Ok(b) => b,
        Err(e) => {
            return Err(e);
        },
    };
    proof {
        lemma_pow256_values();
        lemma_be_val_bound(bytes@.reverse());
    }
    let v = le_bytes_to_u128(&bytes);
    Ok(
        if v < 0x8000000000000000 {
            v as i64
        } else {
            ((v as i128) - 0x10000000000000000) as i64
        },
    )
}

/// Converts sixteen hexadecimal digits to an unsigned 64-bit integer,
/// big-endian.
pub fn hex_to_u64_be(hex_str: &str) -> (r: Result<u64, ConversionError>)
    ensures
        r is Ok <==> (valid_hex(hex_str@) && hex_str@.len() == 16),
        r is Ok ==> r->Ok_0 == be_val(decoded_bytes(hex_str@)),
        r is Err ==> r->Err_0 == conversion_error_for(hex_str@, 8),
{
    let bytes = match hex_to_bytes_vec(hex_str, 8) {
        Ok(b) => b,
        Err(e) => {
            return Err(e);
        },
    };
    proof {
        lemma_pow256_values();
        lemma_be_val_bound(bytes@);
    }
    let v = be_bytes_to_u128(&bytes);
    Ok(v as u64)
}

/// Converts sixteen hexadecimal digits to an unsigned 64-bit integer,
/// little-endian.
pub fn hex_to_u64_le(hex_str: &str) -> (r: Result<u64, ConversionError>)
    ensures
        r is Ok <==> (valid_hex(hex_str@) && hex_str@.len() == 16),
        r is Ok ==> r->Ok_0 == le_val(decoded_bytes(hex_str@)),
        r is Err ==> r->Err_0 == conversion_error_for(hex_str@, 8),
{
    let bytes = match hex_to_bytes_vec(hex_str, 8) {
        Ok(b) => b,
        Err(e) => {
            return Err(e);
        },
    };
    proof {
        lemma_pow256_values();
        lemma_be_val_bound(bytes@.reverse());
    }
    let v = le_bytes_to_u128(&bytes);
    Ok(v as u64)
}

/// Converts thirty-two hexadecimal digits to a signed 128-bit integer,
/// big-endian.
pub fn hex_to_i128_be(hex_str: &str) -> (r: Result<i128, ConversionError>)
    ensures
        r is Ok <==> (valid_hex(hex_str@) && hex_str@.len() == 32),
        r is Ok ==> r->Ok_0 as int == as_signed(be_val(decoded_bytes(hex_str@)), 16),
        r is Err ==> r->Err_0 == conversion_error_for(hex_str@, 16),
{
    let bytes = match hex_to_bytes_vec(hex_str, 16) {
        Ok(b) => b,
        Err(e) => {
            return Err(e);
        },
    };
    proof {
        lemma_pow256_values();
        lemma_be_val_bound(bytes@);
    }
    let v = be_bytes_to_u128(&bytes);
    Ok(
        if v < 0x80000000000000000000000000000000 {
            v as i128
        } else {
            -((u128::MAX - v) as i128) - 1
        },
    )
}

/// Converts thirty-two hexadecimal digits to a signed 128-bit integer,
/// little-endian.
pub fn hex_to_i128_le(hex_str: &str) -> (r: Result<i128, ConversionError>)
    ensures
        r is Ok <==> (valid_hex(hex_str@) && hex_str@.len() == 32),
        r is Ok ==> r->Ok_0 as int == as_signed(le_val(decoded_bytes(hex_str@)), 16),
        r is Err ==> r->Err_0 == conversion_error_for(hex_str@, 16),
{
    let bytes = match hex_to_bytes_vec(hex_str, 16) {
        Ok(b) => b,
        Err(e) => {
            return Err(e);
        },
    };
    proof {
        lemma_pow256_values();
        lemma_be_val_bound(bytes@.reverse());
    }
    let v = le_bytes_to_u128(&bytes);
    Ok(
        if v < 0x80000000000000000000000000000000 {
            v as i128
        } else {
            -((u128::MAX - v) as i128) - 1
        },
    )
}

/// Converts thirty-two hexadecimal digits to an unsigned 128-bit integer,
/// big-endian.
pub fn hex_to_u128_be(hex_str: &str) -> (r: Result<u128, ConversionError>)
    ensures
        r is Ok <==> (valid_hex(hex_str@) && hex_str@.len() == 32),
        r is Ok ==> r->Ok_0 == be_val(decoded_bytes(hex_str@)),
        r is Err ==> r->Err_0 == conversion_error_for(hex_str@, 16),
{
    let bytes = match hex_to_bytes_vec(hex_str, 16) {
        Ok(b) => b,
        Err(e) => {
            return Err(e);
        },
    };
    Ok(be_bytes_to_u128(&bytes))
}

/// Converts thirty-two hexadecimal digits to an unsigned 128-bit integer,
/// little-endian.
pub fn hex_to_u128_le(hex_str: &str) -> (r: Result<u128, ConversionError>)
    ensures
        r is Ok <==> (valid_hex(hex_str@) && hex_str@.len() == 32),
        r is Ok ==> r->Ok_0 == le_val(decoded_bytes(hex_str@)),
        r is Err ==> r->Err_0 == conversion_error_for(hex_str@, 16),
{
    let bytes = match hex_to_bytes_vec(hex_str, 16) {
        Ok(b) => b,
        Err(e) => {
            return Err(e);
        },
    };
    Ok(le_bytes_to_u128(&bytes))
}

} // verus!
