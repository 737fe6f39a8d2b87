//! The library-wide laws: round trips between integers, bytes and
//! hexadecimal digits, for every width, order and signedness, and the
//! symmetry between the two byte orders.
//!
//! Each conversion entry point promises that its result is the numeric
//! reading of the decoded bytes; the proof functions here state that the
//! reading inverts the canonical writing, so that together an integer encoded
//! to its fixed-length hexadecimal representation and decoded through the
//! matching entry point comes back exactly.

use vstd::prelude::*;
use crate::decode::{decoded_bytes, hex_chars_of_bytes, lemma_hex_chars_of_bytes, valid_hex};
use crate::numeric::{
    as_signed, be_bytes_of, be_val, le_bytes_of, le_val, lemma_be_bytes_of_be_val,
    lemma_be_val_of_be_bytes_of, lemma_signed_round_trip, pow256, to_unsigned,
};
use crate::{conversion_error_for, ConversionError};

verus! {

/// The defensive [`ConversionError::ConversionFailed`] variant is
/// unreachable through the entry points: every refused string maps to one of
/// the two real errors.
pub proof fn lemma_conversion_failed_unreachable(s: Seq<char>, expected_len: usize)
    ensures
        conversion_error_for(s, expected_len) !is ConversionFailed,
{
}

/// A byte sequence read in little-endian order has the value of its reversal
/// read in big-endian order, and the other way round.
pub proof fn lemma_byte_order_symmetry(bytes: Seq<u8>)
    ensures
        le_val(bytes) == be_val(bytes.reverse()),
        be_val(bytes) == le_val(bytes.reverse()),
{
    assert(bytes.reverse().reverse() =~= bytes);
}

/// Every byte sequence is the writing of its own reading, in either order:
/// no two distinct sequences of one length read as the same value, so every
/// bit pattern of a width round-trips exactly.
pub proof fn lemma_bytes_round_trip(bytes: Seq<u8>)
    ensures
        be_bytes_of(be_val(bytes), bytes.len()) == bytes,
        le_bytes_of(le_val(bytes), bytes.len()) == bytes,
{
    lemma_be_bytes_of_be_val(bytes);
    lemma_be_bytes_of_be_val(bytes.reverse());
    assert(bytes.reverse().len() == bytes.len());
    assert(bytes.reverse().reverse() =~= bytes);
}

/// Round trip, unsigned, big-endian: a value below `256^n` written on `n`
/// bytes and printed as hexadecimal digits is a valid string of `2n` digits
/// whose decoded bytes read back as the value.
pub proof fn lemma_round_trip_be_unsigned(v: nat, n: nat)
    requires
        v < pow256(n),
    ensures
        ({
            let s = hex_chars_of_bytes(be_bytes_of(v, n));
            valid_hex(s) && s.len() == 2 * n && be_val(decoded_bytes(s)) == v
        }),
{
    lemma_be_val_of_be_bytes_of(v, n);
    lemma_hex_chars_of_bytes(be_bytes_of(v, n));
}

/// Round trip, unsigned, little-endian: as in
/// [`lemma_round_trip_be_unsigned`], with the bytes written least significant
/// first and read back in little-endian order.
pub proof fn lemma_round_trip_le_unsigned(v: nat, n: nat)
    requires
        v < pow256(n),
    ensures
        ({
            let s = hex_chars_of_bytes(le_bytes_of(v, n));
            valid_hex(s) && s.len() == 2 * n && le_val(decoded_bytes(s)) == v
        }),
{
    lemma_be_val_of_be_bytes_of(v, n);
    lemma_hex_chars_of_bytes(le_bytes_of(v, n));
    assert(be_bytes_of(v, n).reverse().len() == n);
    assert(be_bytes_of(v, n).reverse().reverse() =~= be_bytes_of(v, n));
}

/// Round trip, signed, big-endian: a value of an `n`-byte signed integer,
/// written on `n` bytes in two's complement and printed as hexadecimal
/// digits, reads back as the same value through the two's-complement reading.
pub proof fn lemma_round_trip_be_signed(x: int, n: nat)
    requires
        1 <= n,
        -(pow256(n) / 2) <= x < pow256(n) / 2,
    ensures
        ({
            let s = hex_chars_of_bytes(be_bytes_of(to_unsigned(x, n), n));
            valid_hex(s) && s.len() == 2 * n && as_signed(be_val(decoded_bytes(s)), n) == x
        }),
{
    lemma_signed_round_trip(x, n);
    lemma_round_trip_be_unsigned(to_unsigned(x, n), n);
}

/// Round trip, signed, little-endian: as in [`lemma_round_trip_be_signed`],
/// with the bytes written least significant first and read back in
/// little-endian order.
pub proof fn lemma_round_trip_le_signed(x: int, n: nat)
    requires
        1 <= n,
        -(pow256(n) / 2) <= x < pow256(n) / 2,
    ensures
        ({
            let s = hex_chars_of_bytes(le_bytes_of(to_unsigned(x, n), n));
            valid_hex(s) && s.len() == 2 * n && as_signed(le_val(decoded_bytes(s)), n) == x
        }),
{
    lemma_signed_round_trip(x, n);
    lemma_round_trip_le_unsigned(to_unsigned(x, n), n);
}

} // verus!
