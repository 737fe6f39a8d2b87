//! The numeric reading of byte sequences: the value of a sequence in
//! big-endian and little-endian order, the canonical byte representation of a
//! value, and two's-complement reinterpretation of an unsigned value.

use vstd::prelude::*;

verus! {

/// `256^n`: the number of distinct values of an `n`-byte integer.
pub open spec fn pow256(n: nat) -> nat
    decreases n,
{
    if n == 0 {
        1
    } else {
        256 * pow256((n - 1) as nat)
    }
}

/// The value of a byte sequence read in big-endian order (most significant
/// byte first).
pub open spec fn be_val(bytes: Seq<u8>) -> nat
    decreases bytes.len(),
{
    if bytes.len() == 0 {
        0
    } else {
        (be_val(bytes.drop_last()) * 256 + bytes.last()) as nat
    }
}

/// The value of a byte sequence read in little-endian order (least
/// significant byte first): the big-endian value of the reversed sequence.
pub open spec fn le_val(bytes: Seq<u8>) -> nat {
    be_val(bytes.reverse())
}

/// The two's-complement reading of an unsigned value `v` of an `n`-byte
/// integer: values at or above `256^n / 2` wrap around to negative.
pub open spec fn as_signed(v: nat, n: nat) -> int
    recommends
        v < pow256(n),
{
    if v < pow256(n) / 2 {
        v as int
    } else {
        v - pow256(n)
    }
}

/// The unsigned value whose two's-complement reading in `n` bytes is `x`:
/// the inverse of [`as_signed`].
pub open spec fn to_unsigned(x: int, n: nat) -> nat
    recommends
        -(pow256(n) / 2) <= x < pow256(n) / 2,
{
    if x >= 0 {
        x as nat
    } else {
        (x + pow256(n)) as nat
    }
}

/// The canonical `n`-byte big-endian representation of a value below `256^n`.
pub open spec fn be_bytes_of(v: nat, n: nat) -> Seq<u8>
    decreases n,
{
    if n == 0 {
        Seq::empty()
    } else {
        be_bytes_of(v / 256, (n - 1) as nat).push((v % 256) as u8)
    }
}

/// The canonical `n`-byte little-endian representation of a value below
/// `256^n`: the big-endian representation reversed.
pub open spec fn le_bytes_of(v: nat, n: nat) -> Seq<u8> {
    be_bytes_of(v, n).reverse()
}

/// The concrete powers of 256 for the widths the library offers.
pub proof fn lemma_pow256_values()
    ensures
        pow256(0) == 1,
        pow256(1) == 0x100,
        pow256(2) == 0x10000,
        pow256(4) == 0x100000000,
        pow256(8) == 0x10000000000000000,
        pow256(16) == 0x100000000000000000000000000000000,
{
    reveal_with_fuel(pow256, 17);
}

/// `pow256` grows with its argument.
pub proof fn lemma_pow256_increases(a: nat, b: nat)
    requires
        a <= b,
    ensures
        pow256(a) <= pow256(b),
    decreases b,
{
    if a < b {
        lemma_pow256_increases(a, (b - 1) as nat);
        assert(pow256(b) == 256 * pow256((b - 1) as nat));
    }
}

/// A byte sequence of length `n` always reads as a value below `256^n`.
pub proof fn lemma_be_val_bound(bytes: Seq<u8>)
    ensures
        be_val(bytes) < pow256(bytes.len()),
    decreases bytes.len(),
{
    if bytes.len() > 0 {
        lemma_be_val_bound(bytes.drop_last());
        assert(pow256(bytes.len()) == 256 * pow256((bytes.len() - 1) as nat));
    }
}

/// Appending one byte multiplies the big-endian value by 256 and adds it.
pub proof fn lemma_be_val_push(bytes: Seq<u8>, b: u8)
    ensures
        be_val(bytes.push(b)) == be_val(bytes) * 256 + b,
{
    assert(bytes.push(b).drop_last() =~= bytes);
    assert(bytes.push(b).last() == b);
}

/// Writing a value below `256^n` on `n` bytes and reading the bytes back in
/// big-endian order returns the value.
pub proof fn lemma_be_val_of_be_bytes_of(v: nat, n: nat)
    requires
        v < pow256(n),
    ensures
        be_bytes_of(v, n).len() == n,
        be_val(be_bytes_of(v, n)) == v,
    decreases n,
{
    if n == 0 {
        assert(v == 0);
    } else {
        let p = pow256((n - 1) as nat);
        assert(pow256(n) == 256 * p);
        assert(v / 256 < p) by (nonlinear_arith)
            requires
                v < 256 * p,
                p > 0,
        ;
        lemma_be_val_of_be_bytes_of(v / 256, (n - 1) as nat);
        lemma_be_val_push(be_bytes_of(v / 256, (n - 1) as nat), (v % 256) as u8);
        vstd::arithmetic::div_mod::lemma_fundamental_div_mod(v as int, 256);
    }
}

/// Reading `n` bytes in big-endian order and writing the value back on `n`
/// bytes returns the same bytes.
pub proof fn lemma_be_bytes_of_be_val(bytes: Seq<u8>)
    ensures
        be_bytes_of(be_val(bytes), bytes.len()) == bytes,
    decreases bytes.len(),
{
    if bytes.len() > 0 {
        let v = be_val(bytes);
        let head = bytes.drop_last();
        assert(v == be_val(head) * 256 + bytes.last());
        vstd::arithmetic::div_mod::lemma_fundamental_div_mod_converse(
            v as int,
            256,
            be_val(head) as int,
            bytes.last() as int,
        );
        lemma_be_bytes_of_be_val(head);
        assert(be_bytes_of(v, bytes.len()) =~= bytes);
    } else {
        assert(be_bytes_of(be_val(bytes), bytes.len()) =~= bytes);
    }
}

/// The two's-complement reading of the unsigned image of `x` returns `x`.
pub proof fn lemma_signed_round_trip(x: int, n: nat)
    requires
        1 <= n,
        -(pow256(n) / 2) <= x < pow256(n) / 2,
    ensures
        to_unsigned(x, n) < pow256(n),
        as_signed(to_unsigned(x, n), n) == x,
{
    lemma_pow256_half(n);
}

/// The unsigned image of the two's-complement reading of `v` returns `v`.
pub proof fn lemma_unsigned_round_trip(v: nat, n: nat)
    requires
        1 <= n,
        v < pow256(n),
    ensures
        -(pow256(n) / 2) <= as_signed(v, n) < pow256(n) / 2,
        to_unsigned(as_signed(v, n), n) == v,
{
    lemma_pow256_half(n);
}

/// Half of `256^n` is exact for a positive width.
pub proof fn lemma_pow256_half(n: nat)
    requires
        1 <= n,
    ensures
        pow256(n) == 256 * pow256((n - 1) as nat),
        pow256(n) / 2 == 128 * pow256((n - 1) as nat),
{
    let p = pow256((n - 1) as nat);
    assert((256 * p) / 2 == 128 * p) by (nonlinear_arith);
}

/// Reads a byte vector as an unsigned big-endian value.
pub fn be_bytes_to_u128(bytes: &Vec<u8>) -> (r: u128)
    requires
        bytes@.len() <= 16,
    ensures
        r == be_val(bytes@),
{
    let mut acc: u128 = 0;
    let mut i: usize = 0;
    while i < bytes.len()
        invariant
            bytes@.len() <= 16,
            i <= bytes@.len(),
            acc == be_val(bytes@.take(i as int)),
            acc < pow256(i as nat),
        decreases bytes@.len() - i,
    {
        proof {
            lemma_pow256_values();
            lemma_pow256_increases((i + 1) as nat, 16);
            assert(pow256((i + 1) as nat) == 256 * pow256(i as nat));
            assert(bytes@.take(i + 1).drop_last() =~= bytes@.take(i as int));
            assert(bytes@.take(i + 1).last() == bytes@[i as int]);
        }
        acc = acc * 256 + bytes[i] as u128;
        i += 1;
    }
    proof {
        assert(bytes@.take(i as int) =~= bytes@);
    }
    acc
}

/// A copy of a byte vector with its bytes in the opposite order.
pub fn reversed(bytes: &Vec<u8>) -> (r: Vec<u8>)
    ensures
        r@ == bytes@.reverse(),
{
    let n = bytes.len();
    let mut out: Vec<u8> = Vec::new();
    let mut i: usize = 0;
    while i < n
        invariant
            n == bytes@.len(),
            i <= n,
            out@.len() == i,
            forall|j: int| 0 <= j < i ==> out@[j] == bytes@[n - 1 - j],
        decreases n - i,
    {
        out.push(bytes[n - 1 - i]);
        i += 1;
    }
    proof {
        assert(out@ =~= bytes@.reverse());
    }
    out
}

/// Reads a byte vector as an unsigned little-endian value.
pub fn le_bytes_to_u128(bytes: &Vec<u8>) -> (r: u128)
    requires
        bytes@.len() <= 16,
    ensures
        r == le_val(bytes@),
{
    let rev = reversed(bytes);
    be_bytes_to_u128(&rev)
}

} // verus!
