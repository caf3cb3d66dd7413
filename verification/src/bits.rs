//! The bits of a byte sequence as numbers.
//!
//! Bit 0 is the most significant bit of byte 0, bit 8 the most significant
//! bit of byte 1, and so on. A run of bits is read as an unsigned number whose
//! first bit is its highest binary digit.

use vstd::prelude::*;
use vstd::arithmetic::div_mod::{lemma_div_denominator, lemma_fundamental_div_mod_converse};
use vstd::arithmetic::power2::{lemma2_to64, lemma_pow2_pos, lemma_pow2_unfold, pow2};

verus! {

/// The number of bits that `data` holds.
pub open spec fn total_bits(data: Seq<u8>) -> nat {
    8 * data.len()
}

/// The bit at position `i`: 0 or 1.
pub open spec fn bit_at(data: Seq<u8>, i: int) -> nat
    recommends
        0 <= i < total_bits(data),
{
    (data[i / 8] as nat / pow2((7 - i % 8) as nat)) % 2
}

/// The number written by the `n` bits from position `start` on, the first of
/// them being the highest digit.
pub open spec fn bits_value(data: Seq<u8>, start: int, n: nat) -> nat
    recommends
        0 <= start,
        start + n <= total_bits(data),
    decreases n,
{
    if n == 0 {
        0
    } else {
        2 * bits_value(data, start, (n - 1) as nat) + bit_at(data, start + n - 1)
    }
}

/// A run of `n` bits writes a number below 2^n.
pub proof fn lemma_bits_value_bound(data: Seq<u8>, start: int, n: nat)
    ensures
        bits_value(data, start, n) < pow2(n),
    decreases n,
{
    if n == 0 {
        lemma2_to64();
    } else {
        lemma_bits_value_bound(data, start, (n - 1) as nat);
        lemma_pow2_unfold(n);
    }
}

/// A run of `m + k` bits is its first `m` bits, moved up by `k` digits, plus
/// its last `k` bits.
pub proof fn lemma_bits_value_split(data: Seq<u8>, start: int, m: nat, k: nat)
    ensures
        bits_value(data, start, m + k) == bits_value(data, start, m) * pow2(k) + bits_value(
            data,
            start + m,
            k,
        ),
    decreases k,
{
    if k == 0 {
        lemma2_to64();
    } else {
        let j: nat = (k - 1) as nat;
        lemma_bits_value_split(data, start, m, j);
        lemma_pow2_unfold(k);
        let head: int = bits_value(data, start, m) as int;
        let p: int = pow2(j) as int;
        assert(2 * (head * p) == head * (2 * p)) by (nonlinear_arith);
        assert((m + k - 1) as nat == m + j);
    }
}

/// Eight bits from a byte boundary on write that byte.
pub proof fn lemma_bits_value_byte(data: Seq<u8>, i: int)
    requires
        0 <= i < data.len(),
    ensures
        bits_value(data, 8 * i, 8) == data[i],
{
    let b: u8 = data[i];
    let s: int = 8 * i;
    lemma2_to64();
    assert(bit_at(data, s) == (b / 128) % 2);
    assert(bit_at(data, s + 1) == (b / 64) % 2);
    assert(bit_at(data, s + 2) == (b / 32) % 2);
    assert(bit_at(data, s + 3) == (b / 16) % 2);
    assert(bit_at(data, s + 4) == (b / 8) % 2);
    assert(bit_at(data, s + 5) == (b / 4) % 2);
    assert(bit_at(data, s + 6) == (b / 2) % 2);
    assert(bit_at(data, s + 7) == (b / 1) % 2);
    assert(bits_value(data, s, 0) == 0);
    assert(bits_value(data, s, 1) == 2 * bits_value(data, s, 0) + bit_at(data, s));
    assert(bits_value(data, s, 2) == 2 * bits_value(data, s, 1) + bit_at(data, s + 1));
    assert(bits_value(data, s, 3) == 2 * bits_value(data, s, 2) + bit_at(data, s + 2));
    assert(bits_value(data, s, 4) == 2 * bits_value(data, s, 3) + bit_at(data, s + 3));
    assert(bits_value(data, s, 5) == 2 * bits_value(data, s, 4) + bit_at(data, s + 4));
    assert(bits_value(data, s, 6) == 2 * bits_value(data, s, 5) + bit_at(data, s + 5));
    assert(bits_value(data, s, 7) == 2 * bits_value(data, s, 6) + bit_at(data, s + 6));
    assert(bits_value(data, s, 8) == 2 * bits_value(data, s, 7) + bit_at(data, s + 7));
    assert(((b / 128) % 2) * 128 + ((b / 64) % 2) * 64 + ((b / 32) % 2) * 32 + ((b / 16) % 2) * 16
        + ((b / 8) % 2) * 8 + ((b / 4) % 2) * 4 + ((b / 2) % 2) * 2 + (b % 2) == b) by (bit_vector);
}

/// The bits of a run are the binary digits of the number it writes: bit `j` of
/// the run is the digit of weight 2^(n-1-j).
pub proof fn lemma_bits_value_digit(data: Seq<u8>, start: int, n: nat, j: nat)
    requires
        j < n,
    ensures
        (bits_value(data, start, n) / pow2((n - 1 - j) as nat)) % 2 == bit_at(data, start + j),
{
    let rest: nat = (n - 1 - j) as nat;
    lemma_bits_value_split(data, start, j + 1, rest);
    lemma_bits_value_bound(data, start + j + 1, rest);
    lemma_pow2_pos(rest);
    lemma_fundamental_div_mod_converse(
        bits_value(data, start, n) as int,
        pow2(rest) as int,
        bits_value(data, start, j + 1) as int,
        bits_value(data, start + j + 1, rest) as int,
    );
    assert((j + 1 - 1) as nat == j);
}

/// No other number below 2^n has the bits of the run as its binary digits.
pub proof fn lemma_bits_value_unique(data: Seq<u8>, start: int, n: nat, x: nat)
    requires
        x < pow2(n),
        forall|j: nat| j < n ==> (x / #[trigger] pow2((n - 1 - j) as nat)) % 2 == bit_at(data, start + j),
    ensures
        x == bits_value(data, start, n),
    decreases n,
{
    lemma2_to64();
    if n > 0 {
        let m: nat = (n - 1) as nat;
        lemma_pow2_unfold(n);
        assert forall|j: nat| j < m implies (x / 2 / #[trigger] pow2((m - 1 - j) as nat)) % 2
            == bit_at(data, start + j) by {
            let e: nat = (m - 1 - j) as nat;
            assert((n - 1 - j) as nat == e + 1);
            lemma_pow2_unfold(e + 1);
            lemma_pow2_pos(e);
            assert(pow2((n - 1 - j) as nat) == 2 * pow2(e));
            lemma_div_denominator(x as int, 2, pow2(e) as int);
        }
        lemma_bits_value_unique(data, start, m, x / 2);
        assert(pow2((n - 1 - m) as nat) == 1);
        assert((x / pow2((n - 1 - m) as nat)) % 2 == bit_at(data, start + m));
    }
}

/// A run that lies inside a longer one is cut out of the longer one's number
/// by a division and a remainder.
pub proof fn lemma_bits_value_window(data: Seq<u8>, start: int, m: nat, skip: nat, n: nat)
    requires
        skip + n <= m,
    ensures
        bits_value(data, start + skip, n) == (bits_value(data, start, m) / pow2(
            (m - skip - n) as nat,
        )) % pow2(n),
{
    let tail: nat = (m - skip - n) as nat;
    lemma_bits_value_split(data, start, skip + n, tail);
    lemma_bits_value_bound(data, start + skip + n, tail);
    lemma_pow2_pos(tail);
    lemma_fundamental_div_mod_converse(
        bits_value(data, start, m) as int,
        pow2(tail) as int,
        bits_value(data, start, skip + n) as int,
        bits_value(data, start + skip + n, tail) as int,
    );
    lemma_bits_value_split(data, start, skip, n);
    lemma_bits_value_bound(data, start + skip, n);
    lemma_pow2_pos(n);
    lemma_fundamental_div_mod_converse(
        bits_value(data, start, skip + n) as int,
        pow2(n) as int,
        bits_value(data, start, skip) as int,
        bits_value(data, start + skip, n) as int,
    );
}

} // verus!
