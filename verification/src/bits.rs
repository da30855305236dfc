//! Little-endian bit decomposition of field words.

use crate::field::{words_value, Words};
use vstd::arithmetic::div_mod::lemma_fundamental_div_mod_converse;
use vstd::arithmetic::power2::{lemma2_to64, lemma2_to64_rest, lemma_pow2_adds, lemma_pow2_pos, lemma_pow2_unfold, pow2};
use vstd::bits::lemma_u64_shl_is_mul;
use vstd::prelude::*;

verus! {

/// The weight of one bit: 0 or 1.
pub open spec fn bit(b: bool) -> nat {
    if b {
        1
    } else {
        0
    }
}

/// The integer whose little-endian bits are `bits`: the sum of `2^i` over the
/// positions `i` that hold `true`.
pub open spec fn bits_value(bits: Seq<bool>) -> nat
    decreases bits.len(),
{
    if bits.len() == 0 {
        0
    } else {
        bits_value(bits.drop_last()) + pow2((bits.len() - 1) as nat) * bit(bits.last())
    }
}

/// A sequence of `n` bits holds an integer below `2^n`.
pub proof fn lemma_bits_value_bound(bits: Seq<bool>)
    ensures
        bits_value(bits) < pow2(bits.len()),
    decreases bits.len(),
{
    if bits.len() == 0 {
        lemma2_to64();
    } else {
        lemma_bits_value_bound(bits.drop_last());
        lemma_pow2_unfold(bits.len());
        let w = pow2((bits.len() - 1) as nat);
        assert(w * bit(bits.last()) <= w) by (nonlinear_arith)
            requires
                bit(bits.last()) <= 1,
        ;
    }
}

/// The top bit of `n + 1` bits is set exactly when the integer reaches `2^n`.
pub proof fn lemma_top_bit(bits: Seq<bool>)
    requires
        bits.len() > 0,
    ensures
        bits.last() <==> bits_value(bits) >= pow2((bits.len() - 1) as nat),
{
    lemma_bits_value_bound(bits.drop_last());
    let w = pow2((bits.len() - 1) as nat);
    if bits.last() {
        assert(w * bit(bits.last()) == w) by (nonlinear_arith)
            requires
                bit(bits.last()) == 1,
        ;
    } else {
        assert(w * bit(bits.last()) == 0) by (nonlinear_arith)
            requires
                bit(bits.last()) == 0,
        ;
    }
}

/// The low `width` bits of the integer that `w` holds, least significant
/// first. Bits above the width are cut off.
pub fn decompose(w: Words, width: usize) -> (bits: Vec<bool>)
    ensures
        bits@.len() == width,
        bits_value(bits@) == words_value(w) % pow2(width as nat),
{
    let mut bits: Vec<bool> = Vec::new();
    let mut rest: Words = w;
    let mut i: usize = 0;
    proof {
        lemma2_to64();
        assert(pow2(0) * words_value(rest) == words_value(w)) by (nonlinear_arith)
            requires
                pow2(0) == 1,
                rest == w,
        ;
    }
    while i < width
        invariant
            i <= width,
            bits@.len() == i,
            bits_value(bits@) + pow2(i as nat) * words_value(rest) == words_value(w),
        decreases width - i,
    {
        let low: bool = rest[0] % 2 == 1;
        let next: Words = [
            rest[0] / 2 + (rest[1] % 2) * 0x8000_0000_0000_0000u64,
            rest[1] / 2 + (rest[2] % 2) * 0x8000_0000_0000_0000u64,
            rest[2] / 2 + (rest[3] % 2) * 0x8000_0000_0000_0000u64,
            rest[3] / 2,
        ];
        proof {
            let p = pow2(i as nat);
            let r = words_value(rest);
            let n = words_value(next);
            assert(r == 2 * n + bit(low));
            lemma_pow2_unfold((i + 1) as nat);
            assert(p * r == pow2((i + 1) as nat) * n + p * bit(low)) by (nonlinear_arith)
                requires
                    r == 2 * n + bit(low),
                    pow2((i + 1) as nat) == 2 * p,
            ;
            assert(bits@.push(low).drop_last() =~= bits@);
        }
        bits.push(low);
        rest = next;
        i = i + 1;
    }
    proof {
        lemma_bits_value_bound(bits@);
        lemma_pow2_pos(width as nat);
        let p = pow2(width as nat) as int;
        let q = words_value(rest) as int;
        assert(p * q == q * p) by (nonlinear_arith);
        lemma_fundamental_div_mod_converse(
            words_value(w) as int,
            p,
            q,
            bits_value(bits@) as int,
        );
    }
    bits
}

/// The words that hold `2^k`.
pub fn power_of_two(k: usize) -> (r: Words)
    requires
        k < 256,
    ensures
        words_value(r) == pow2(k as nat),
{
    let word: usize = k / 64;
    let shift: u64 = (k % 64) as u64;
    proof {
        vstd::bits::lemma_u64_pow2_no_overflow(shift as nat);
        assert(1u64 * pow2(shift as nat) == pow2(shift as nat)) by (nonlinear_arith);
        lemma_u64_shl_is_mul(1u64, shift);
        lemma2_to64();
        lemma2_to64_rest();
        lemma_pow2_adds(64, 64);
        lemma_pow2_adds(128, 64);
        lemma_pow2_adds(shift as nat, 64);
        lemma_pow2_adds(shift as nat, 128);
        lemma_pow2_adds(shift as nat, 192);
        assert(pow2(shift as nat) * pow2(64) == pow2(64) * pow2(shift as nat)) by (nonlinear_arith);
        assert(pow2(shift as nat) * pow2(128) == pow2(128) * pow2(shift as nat)) by (nonlinear_arith);
        assert(pow2(shift as nat) * pow2(192) == pow2(192) * pow2(shift as nat)) by (nonlinear_arith);
    }
    let one: u64 = 1u64 << shift;
    if word == 0 {
        [one, 0, 0, 0]
    } else if word == 1 {
        [0, one, 0, 0]
    } else if word == 2 {
        [0, 0, one, 0]
    } else {
        [0, 0, 0, one]
    }
}

/// The words that hold one bit: 1 for `true`, 0 for `false`.
pub fn bit_words(b: bool) -> (r: Words)
    ensures
        words_value(r) == bit(b),
{
    if b {
        [1, 0, 0, 0]
    } else {
        [0, 0, 0, 0]
    }
}

} // verus!

