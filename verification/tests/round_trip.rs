//! Round trips through the real hexadecimal encoder of the `hex` crate:
//! encoding an integer's bytes and decoding the string back must return the
//! integer, exhaustively for the 8- and 16-bit types and on sampled values
//! for the wider ones.

use rs_hex2int::{
    hex_to_i128_be, hex_to_i128_le, hex_to_i16_be, hex_to_i16_le, hex_to_i32_be, hex_to_i32_le,
    hex_to_i64_be, hex_to_i64_le, hex_to_i8, hex_to_u128_be, hex_to_u128_le, hex_to_u16_be,
    hex_to_u16_le, hex_to_u32_be, hex_to_u32_le, hex_to_u64_be, hex_to_u64_le, hex_to_u8,
};

#[test]
fn round_trip_8_bit_exhaustive() {
    for v in 0..=u8::MAX {
        assert_eq!(hex_to_u8(&hex::encode(v.to_be_bytes())).unwrap(), v);
    }
    for v in i8::MIN..=i8::MAX {
        assert_eq!(hex_to_i8(&hex::encode(v.to_be_bytes())).unwrap(), v);
    }
}

#[test]
fn round_trip_16_bit_exhaustive() {
    for v in 0..=u16::MAX {
        assert_eq!(hex_to_u16_be(&hex::encode(v.to_be_bytes())).unwrap(), v);
        assert_eq!(hex_to_u16_le(&hex::encode(v.to_le_bytes())).unwrap(), v);
    }
    for v in i16::MIN..=i16::MAX {
        assert_eq!(hex_to_i16_be(&hex::encode(v.to_be_bytes())).unwrap(), v);
        assert_eq!(hex_to_i16_le(&hex::encode(v.to_le_bytes())).unwrap(), v);
    }
}

#[test]
fn round_trip_32_bit_sampled() {
    for v in [0u32, 1, 2, 127, 128, 255, 256, 65535, 65536, 0x7fffffff, 0x80000000, u32::MAX] {
        assert_eq!(hex_to_u32_be(&hex::encode(v.to_be_bytes())).unwrap(), v);
        assert_eq!(hex_to_u32_le(&hex::encode(v.to_le_bytes())).unwrap(), v);
    }
    for v in [i32::MIN, -65536, -255, -2, -1, 0, 1, 2, 255, 65536, i32::MAX] {
        assert_eq!(hex_to_i32_be(&hex::encode(v.to_be_bytes())).unwrap(), v);
        assert_eq!(hex_to_i32_le(&hex::encode(v.to_le_bytes())).unwrap(), v);
    }
}

#[test]
fn round_trip_64_bit_sampled() {
    for v in [0u64, 1, 255, 256, 0xdead_beef, 0x7fffffffffffffff, 0x8000000000000000, u64::MAX] {
        assert_eq!(hex_to_u64_be(&hex::encode(v.to_be_bytes())).unwrap(), v);
        assert_eq!(hex_to_u64_le(&hex::encode(v.to_le_bytes())).unwrap(), v);
    }
    for v in [i64::MIN, -0xdead_beef, -256, -1, 0, 1, 256, 0xdead_beef, i64::MAX] {
        assert_eq!(hex_to_i64_be(&hex::encode(v.to_be_bytes())).unwrap(), v);
        assert_eq!(hex_to_i64_le(&hex::encode(v.to_le_bytes())).unwrap(), v);
    }
}

#[test]
fn round_trip_128_bit_sampled() {
    for v in [0u128, 1, 255, u64::MAX as u128, 1 << 127, u128::MAX] {
        assert_eq!(hex_to_u128_be(&hex::encode(v.to_be_bytes())).unwrap(), v);
        assert_eq!(hex_to_u128_le(&hex::encode(v.to_le_bytes())).unwrap(), v);
    }
    for v in [i128::MIN, i64::MIN as i128, -1, 0, 1, i64::MAX as i128, i128::MAX] {
        assert_eq!(hex_to_i128_be(&hex::encode(v.to_be_bytes())).unwrap(), v);
        assert_eq!(hex_to_i128_le(&hex::encode(v.to_le_bytes())).unwrap(), v);
    }
}

#[test]
fn byte_order_symmetry() {
    // Reversed byte pairs give equal values when the order is swapped too.
    assert_eq!(hex_to_i16_be("8000").unwrap(), -32768);
    assert_eq!(hex_to_i16_le("0080").unwrap(), -32768);
    assert_eq!(hex_to_u32_be("12345678").unwrap(), hex_to_u32_le("78563412").unwrap());
    assert_eq!(hex_to_i64_be("0123456789abcdef").unwrap(), hex_to_i64_le("efcdab8967452301").unwrap());
}

#[test]
fn boundary_values_128_bit() {
    assert_eq!(hex_to_i128_be("00000000000000000000000000000000").unwrap(), 0);
    assert_eq!(hex_to_i128_be("7fffffffffffffffffffffffffffffff").unwrap(), i128::MAX);
    assert_eq!(hex_to_i128_be("80000000000000000000000000000000").unwrap(), i128::MIN);
    assert_eq!(hex_to_i128_be("ffffffffffffffffffffffffffffffff").unwrap(), -1);
    assert_eq!(hex_to_u128_be("ffffffffffffffffffffffffffffffff").unwrap(), u128::MAX);
    assert_eq!(hex_to_u128_le("ffffffffffffffffffffffffffffff7f").unwrap(), i128::MAX as u128);
}

#[test]
fn uppercase_and_mixed_case() {
    assert_eq!(hex_to_u8("FF").unwrap(), 255);
    assert_eq!(hex_to_u8("aB").unwrap(), 0xab);
    assert_eq!(hex_to_u16_be("BeEf").unwrap(), 0xbeef);
    assert_eq!(hex_to_u64_be("DEADBEEFDEADBEEF").unwrap(), 0xdead_beef_dead_beef);
}
