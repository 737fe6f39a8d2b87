//! Decoding a string of hexadecimal digit pairs into bytes, with the exact
//! error on any other string: odd digit count, or the first character that is
//! no hexadecimal digit.

use vstd::prelude::*;
use crate::digits::{
    hex_digit_char, hex_digit_of_char, hex_digit_value, is_hex_digit, lemma_hex_digit_char_inverse,
    lemma_hex_digit_value_bound,
};
use crate::HexDecodeError;

verus! {

/// Every character of the sequence is a hexadecimal digit.
pub open spec fn all_hex_digits(s: Seq<char>) -> bool {
    forall|i: int| 0 <= i < s.len() ==> is_hex_digit(#[trigger] s[i])
}

/// The sequence decodes to whole bytes: an even count of hexadecimal digits.
pub open spec fn valid_hex(s: Seq<char>) -> bool {
    s.len() % 2 == 0 && all_hex_digits(s)
}

/// The byte written as the digit pair `hi`, `lo`.
pub open spec fn decoded_byte(hi: char, lo: char) -> u8
    recommends
        is_hex_digit(hi),
        is_hex_digit(lo),
{
    (hex_digit_value(hi) * 16 + hex_digit_value(lo)) as u8
}

/// The bytes written as a sequence of hexadecimal digit pairs.
pub open spec fn decoded_bytes(s: Seq<char>) -> Seq<u8>
    recommends
        valid_hex(s),
    decreases s.len(),
{
    if s.len() < 2 {
        Seq::empty()
    } else {
        seq![decoded_byte(s[0], s[1])] + decoded_bytes(s.skip(2))
    }
}

/// The index of the first character that is no hexadecimal digit (the length,
/// when every character is one).
pub open spec fn first_invalid(s: Seq<char>) -> int
    decreases s.len(),
{
    if s.len() == 0 {
        0
    } else if !is_hex_digit(s[0]) {
        0
    } else {
        1 + first_invalid(s.skip(1))
    }
}

/// The error a decode of `s` returns when `s` is not made of hexadecimal
/// digit pairs: an odd length outranks an invalid character.
pub open spec fn decode_error(s: Seq<char>) -> HexDecodeError
    recommends
        !valid_hex(s),
{
    if s.len() % 2 != 0 {
        HexDecodeError::OddLength
    } else {
        HexDecodeError::InvalidHexCharacter { c: s[first_invalid(s)], index: first_invalid(s) as usize }
    }
}

/// A sequence of digit pairs decodes to half as many bytes.
pub proof fn lemma_decoded_bytes_len(s: Seq<char>)
    ensures
        decoded_bytes(s).len() == s.len() / 2,
    decreases s.len(),
{
    if s.len() >= 2 {
        lemma_decoded_bytes_len(s.skip(2));
    }
}

/// Decoding distributes over splitting the digits at a pair boundary.
pub proof fn lemma_decoded_bytes_append(a: Seq<char>, b: Seq<char>)
    requires
        a.len() % 2 == 0,
    ensures
        decoded_bytes(a + b) == decoded_bytes(a) + decoded_bytes(b),
    decreases a.len(),
{
    if a.len() == 0 {
        assert(a + b =~= b);
        assert(decoded_bytes(a) + decoded_bytes(b) =~= decoded_bytes(b));
    } else {
        assert((a + b).skip(2) =~= a.skip(2) + b);
        lemma_decoded_bytes_append(a.skip(2), b);
        assert((a + b)[0] == a[0] && (a + b)[1] == a[1]);
        assert(seq![decoded_byte(a[0], a[1])] + (decoded_bytes(a.skip(2)) + decoded_bytes(b))
            =~= decoded_bytes(a) + decoded_bytes(b));
    }
}

/// Decoding one more digit pair appends one more byte.
pub proof fn lemma_decoded_bytes_snoc(s: Seq<char>, k: int)
    requires
        0 <= k,
        2 * k + 2 <= s.len(),
    ensures
        decoded_bytes(s.take(2 * k + 2)) == decoded_bytes(s.take(2 * k)).push(
            decoded_byte(s[2 * k], s[2 * k + 1]),
        ),
{
    let pair = seq![s[2 * k], s[2 * k + 1]];
    assert(s.take(2 * k + 2) =~= s.take(2 * k) + pair);
    lemma_decoded_bytes_append(s.take(2 * k), pair);
    assert(pair.len() == 2 && pair[0] == s[2 * k] && pair[1] == s[2 * k + 1]);
    assert(pair.skip(2) =~= Seq::<char>::empty());
    assert(decoded_bytes(pair.skip(2)) =~= Seq::<u8>::empty());
    assert(decoded_bytes(pair) =~= seq![decoded_byte(s[2 * k], s[2 * k + 1])]);
    assert(decoded_bytes(s.take(2 * k)) + decoded_bytes(pair) =~= decoded_bytes(s.take(2 * k)).push(
        decoded_byte(s[2 * k], s[2 * k + 1]),
    ));
}

/// The lowercase hexadecimal writing of a byte sequence, two digits a byte,
/// most significant digit of each byte first.
pub open spec fn hex_chars_of_bytes(bytes: Seq<u8>) -> Seq<char>
    decreases bytes.len(),
{
    if bytes.len() == 0 {
        Seq::empty()
    } else {
        seq![hex_digit_char(bytes[0] / 16), hex_digit_char(bytes[0] % 16)]
            + hex_chars_of_bytes(bytes.skip(1))
    }
}

/// The hexadecimal writing of bytes is valid hexadecimal of twice the length
/// and decodes back to the same bytes.
pub proof fn lemma_hex_chars_of_bytes(bytes: Seq<u8>)
    ensures
        hex_chars_of_bytes(bytes).len() == 2 * bytes.len(),
        valid_hex(hex_chars_of_bytes(bytes)),
        decoded_bytes(hex_chars_of_bytes(bytes)) == bytes,
    decreases bytes.len(),
{
    let s = hex_chars_of_bytes(bytes);
    if bytes.len() == 0 {
        assert(decoded_bytes(s) =~= bytes);
    } else {
        let b = bytes[0];
        let rest = hex_chars_of_bytes(bytes.skip(1));
        lemma_hex_chars_of_bytes(bytes.skip(1));
        assert(b / 16 < 16) by (nonlinear_arith)
            requires
                b < 256,
        ;
        lemma_hex_digit_char_inverse(b / 16);
        lemma_hex_digit_char_inverse(b % 16);
        assert forall|i: int| 0 <= i < s.len() implies is_hex_digit(#[trigger] s[i]) by {
            if i >= 2 {
                assert(s[i] == rest[i - 2]);
            }
        }
        assert(decoded_byte(s[0], s[1]) == (hex_digit_value(s[0]) * 16 + hex_digit_value(s[1])) as u8);
        vstd::arithmetic::div_mod::lemma_fundamental_div_mod(b as int, 16);
        assert(decoded_byte(s[0], s[1]) == b);
        assert(s.skip(2) =~= rest);
        assert(decoded_bytes(s) =~= bytes);
    }
}

/// A non-digit preceded by digits alone stands at the first invalid index.
pub proof fn lemma_first_invalid_at(s: Seq<char>, k: int)
    requires
        0 <= k < s.len(),
        !is_hex_digit(s[k]),
        forall|j: int| 0 <= j < k ==> is_hex_digit(#[trigger] s[j]),
    ensures
        first_invalid(s) == k,
    decreases k,
{
    if k > 0 {
        assert forall|j: int| 0 <= j < k - 1 implies is_hex_digit(#[trigger] s.skip(1)[j]) by {
            assert(s.skip(1)[j] == s[j + 1]);
        }
        assert(s.skip(1)[k - 1] == s[k]);
        lemma_first_invalid_at(s.skip(1), k - 1);
    }
}

/// Decodes a string of hexadecimal digit pairs into its bytes.
///
/// Fails with [`HexDecodeError::OddLength`] on an odd number of digits, and
/// otherwise with [`HexDecodeError::InvalidHexCharacter`] naming the first
/// character that is no hexadecimal digit.
pub fn decode_hex(hex_str: &str) -> (r: Result<Vec<u8>, HexDecodeError>)
    ensures
        r is Ok <==> valid_hex(hex_str@),
        r is Ok ==> r->Ok_0@ == decoded_bytes(hex_str@) && r->Ok_0@.len() == hex_str@.len() / 2,
        r is Err ==> r->Err_0 == decode_error(hex_str@),
{
    let n = hex_str.unicode_len();
    if n % 2 != 0 {
        return Err(HexDecodeError::OddLength);
    }
    let pairs = n / 2;
    let mut out: Vec<u8> = Vec::new();
    let mut i: usize = 0;
    while i < pairs
        invariant
            n == hex_str@.len(),
            n % 2 == 0,
            pairs == n / 2,
            i <= pairs,
            out@ == decoded_bytes(hex_str@.take(2 * i as int)),
            out@.len() == i,
            forall|j: int| 0 <= j < 2 * i ==> is_hex_digit(#[trigger] hex_str@[j]),
        decreases pairs - i,
    {
        let hi = hex_str.get_char(2 * i);
        let lo = hex_str.get_char(2 * i + 1);
        let hi_v = match hex_digit_of_char(hi) {
            Some(v) => v,
            None => {
                proof {
                    lemma_first_invalid_at(hex_str@, 2 * i as int);
                }
                return Err(HexDecodeError::InvalidHexCharacter { c: hi, index: 2 * i });
            },
        };
        let lo_v = match hex_digit_of_char(lo) {
            Some(v) => v,
            None => {
                proof {
                    lemma_first_invalid_at(hex_str@, 2 * i as int + 1);
                }
                return Err(HexDecodeError::InvalidHexCharacter { c: lo, index: 2 * i + 1 });
            },
        };
        proof {
            lemma_hex_digit_value_bound(hi);
            lemma_hex_digit_value_bound(lo);
            lemma_decoded_bytes_snoc(hex_str@, i as int);
        }
        out.push(hi_v * 16 + lo_v);
        i += 1;
    }
    proof {
        assert(hex_str@.take(2 * i as int) =~= hex_str@);
        lemma_decoded_bytes_len(hex_str@);
    }
    Ok(out)
}

} // verus!
