use rs_hex2int::{
    hex_to_i16_be, hex_to_i16_le, hex_to_i32_be, hex_to_i32_le, hex_to_i64_be, hex_to_i64_le,
    hex_to_i8, hex_to_u16_be, hex_to_u16_le, hex_to_u32_be, hex_to_u32_le, hex_to_u64_be,
    hex_to_u64_le, hex_to_u8, ConversionError,
};

#[test]
fn test_hex_to_i8_valid() {
    assert_eq!(hex_to_i8("00").unwrap(), 0);
    assert_eq!(hex_to_i8("7f").unwrap(), 127);
    assert_eq!(hex_to_i8("80").unwrap(), -128);
    assert_eq!(hex_to_i8("ff").unwrap(), -1);
}

#[test]
fn test_hex_to_u8_valid() {
    assert_eq!(hex_to_u8("00").unwrap(), 0);
    assert_eq!(hex_to_u8("7f").unwrap(), 127);
    assert_eq!(hex_to_u8("80").unwrap(), 128);
    assert_eq!(hex_to_u8("ff").unwrap(), 255);
}

#[test]
fn test_hex_to_i16_be_valid() {
    assert_eq!(hex_to_i16_be("0000").unwrap(), 0);
    assert_eq!(hex_to_i16_be("7fff").unwrap(), 32767);
    assert_eq!(hex_to_i16_be("8000").unwrap(), -32768);
    assert_eq!(hex_to_i16_be("ffff").unwrap(), -1);
}

#[test]
fn test_hex_to_i16_le_valid() {
    assert_eq!(hex_to_i16_le("0000").unwrap(), 0);
    assert_eq!(hex_to_i16_le("ff7f").unwrap(), 32767); // 0x7fff
    assert_eq!(hex_to_i16_le("0080").unwrap(), -32768); // 0x8000
    assert_eq!(hex_to_i16_le("ffff").unwrap(), -1);
}

#[test]
fn test_hex_to_u16_be_valid() {
    assert_eq!(hex_to_u16_be("0000").unwrap(), 0);
    assert_eq!(hex_to_u16_be("7fff").unwrap(), 32767);
    assert_eq!(hex_to_u16_be("8000").unwrap(), 32768);
    assert_eq!(hex_to_u16_be("ffff").unwrap(), 65535);
}

#[test]
fn test_hex_to_u16_le_valid() {
    assert_eq!(hex_to_u16_le("0000").unwrap(), 0);
    assert_eq!(hex_to_u16_le("ff7f").unwrap(), 32767); // 0x7fff
    assert_eq!(hex_to_u16_le("0080").unwrap(), 32768); // 0x8000
    assert_eq!(hex_to_u16_le("ffff").unwrap(), 65535);
}

#[test]
fn test_hex_to_i32_be_valid() {
    assert_eq!(hex_to_i32_be("00000000").unwrap(), 0);
    assert_eq!(hex_to_i32_be("7fffffff").unwrap(), 2147483647);
    assert_eq!(hex_to_i32_be("80000000").unwrap(), -2147483648);
    assert_eq!(hex_to_i32_be("ffffffff").unwrap(), -1);
}

#[test]
fn test_hex_to_i32_le_valid() {
    assert_eq!(hex_to_i32_le("00000000").unwrap(), 0);
    assert_eq!(hex_to_i32_le("ffffff7f").unwrap(), 2147483647); // 0x7fffffff
    assert_eq!(hex_to_i32_le("00000080").unwrap(), -2147483648); // 0x80000000
    assert_eq!(hex_to_i32_le("ffffffff").unwrap(), -1);
}

#[test]
fn test_hex_to_u32_be_valid() {
    assert_eq!(hex_to_u32_be("00000000").unwrap(), 0);
    assert_eq!(hex_to_u32_be("7fffffff").unwrap(), 2147483647);
    assert_eq!(hex_to_u32_be("80000000").unwrap(), 2147483648);
    assert_eq!(hex_to_u32_be("ffffffff").unwrap(), 4294967295);
}

#[test]
fn test_hex_to_u32_le_valid() {
    assert_eq!(hex_to_u32_le("00000000").unwrap(), 0);
    assert_eq!(hex_to_u32_le("ffffff7f").unwrap(), 2147483647); // 0x7fffffff
    assert_eq!(hex_to_u32_le("00000080").unwrap(), 2147483648); // 0x80000000
    assert_eq!(hex_to_u32_le("ffffffff").unwrap(), 4294967295);
}

#[test]
fn test_hex_to_i64_be_valid() {
    assert_eq!(hex_to_i64_be("0000000000000000").unwrap(), 0);
    assert_eq!(
        hex_to_i64_be("7fffffffffffffff").unwrap(),
        9223372036854775807
    );
    assert_eq!(
        hex_to_i64_be("8000000000000000").unwrap(),
        -9223372036854775808
    );
    assert_eq!(hex_to_i64_be("ffffffffffffffff").unwrap(), -1);
}

#[test]
fn test_hex_to_i64_le_valid() {
    assert_eq!(hex_to_i64_le("0000000000000000").unwrap(), 0);
    assert_eq!(
        hex_to_i64_le("ffffffffffffff7f").unwrap(),
        9223372036854775807
    ); // 0x7fffffffffffffff
    assert_eq!(
        hex_to_i64_le("0000000000000080").unwrap(),
        -9223372036854775808
    ); // 0x8000000000000000
    assert_eq!(hex_to_i64_le("ffffffffffffffff").unwrap(), -1);
}

#[test]
fn test_hex_to_u64_be_valid() {
    assert_eq!(hex_to_u64_be("0000000000000000").unwrap(), 0);
    assert_eq!(
        hex_to_u64_be("7fffffffffffffff").unwrap(),
        9223372036854775807
    );
    assert_eq!(
        hex_to_u64_be("8000000000000000").unwrap(),
        9223372036854775808
    );
    assert_eq!(
        hex_to_u64_be("ffffffffffffffff").unwrap(),
        18446744073709551615
    );
}

#[test]
fn test_hex_to_u64_le_valid() {
    assert_eq!(hex_to_u64_le("0000000000000000").unwrap(), 0);
    assert_eq!(
        hex_to_u64_le("ffffffffffffff7f").unwrap(),
        9223372036854775807
    ); // 0x7fffffffffffffff
    assert_eq!(
        hex_to_u64_le("0000000000000080").unwrap(),
        9223372036854775808
    ); // 0x8000000000000000
    assert_eq!(
        hex_to_u64_le("ffffffffffffffff").unwrap(),
        18446744073709551615
    );
}

#[test]
fn test_invalid_hex_string() {
    assert!(matches!(
        hex_to_i8("gg").unwrap_err(),
        ConversionError::InvalidHex(_)
    ));
    assert!(matches!(
        hex_to_u64_be("nothex").unwrap_err(),
        ConversionError::InvalidHex(_)
    ));
}

#[test]
fn test_incorrect_length() {
    assert!(matches!(
        hex_to_i8("0000").unwrap_err(),
        ConversionError::IncorrectLength {
            expected: 1,
            found: 2
        }
    ));
    assert!(matches!(
        hex_to_u16_be("00").unwrap_err(),
        ConversionError::IncorrectLength {
            expected: 2,
            found: 1
        }
    ));
    assert!(matches!(
        hex_to_u64_be("0000").unwrap_err(),
        ConversionError::IncorrectLength {
            expected: 8,
            found: 2
        }
    ));
}
