//! Bit reversal and powers of two: the index arithmetic beneath the radix-2
//! transform.

use vstd::arithmetic::div_mod::lemma_fundamental_div_mod_converse;
use vstd::arithmetic::power2::{lemma_pow2_pos, lemma_pow2_strictly_increases, lemma_pow2_unfold, pow2};
use vstd::prelude::*;

verus! {

/// Whether `n` is `2^e` for some `e`.
pub open spec fn is_power_of_two(n: nat) -> bool {
    exists|e: nat| n == pow2(e)
}

/// The smallest power of two that is at least `n`.
pub open spec fn fft_size(n: nat) -> nat
    decreases n,
{
    if n <= 1 {
        1
    } else {
        2 * fft_size((n + 1) / 2)
    }
}

/// The exponent of [`fft_size`]: the binary logarithm of `n`, rounded up.
pub open spec fn fft_log(n: nat) -> nat
    decreases n,
{
    if n <= 1 {
        0
    } else {
        1 + fft_log((n + 1) / 2)
    }
}

/// The number whose `bits` low binary digits are those of `i` in reverse
/// order.
pub open spec fn bit_reverse(i: nat, bits: nat) -> nat
    decreases bits,
{
    if bits == 0 {
        0
    } else {
        (i % 2) * pow2((bits - 1) as nat) + bit_reverse(i / 2, (bits - 1) as nat)
    }
}

/// Adds one to a number of `bits` binary digits read from the top digit
/// down: the highest clear digit is set and every digit above it cleared.
pub open spec fn reverse_succ(j: nat, bits: nat) -> nat
    decreases bits,
{
    if bits == 0 {
        0
    } else if j < pow2((bits - 1) as nat) {
        j + pow2((bits - 1) as nat)
    } else {
        reverse_succ((j - pow2((bits - 1) as nat)) as nat, (bits - 1) as nat)
    }
}

/// `2^0 = 1` and `2^(e+1) = 2 * 2^e`.
pub proof fn lemma_pow2_step(e: nat)
    ensures
        pow2(0) == 1,
        pow2(e + 1) == 2 * pow2(e),
        pow2(e) >= 1,
{
    vstd::arithmetic::power2::lemma2_to64();
    lemma_pow2_unfold(e + 1);
    lemma_pow2_pos(e);
}

/// A larger exponent gives a power of two at least twice as large.
pub proof fn lemma_pow2_gap(a: nat, b: nat)
    requires
        pow2(a) < pow2(b),
    ensures
        a < b,
        2 * pow2(a) <= pow2(b),
{
    if a >= b {
        if a > b {
            lemma_pow2_strictly_increases(b, a);
        }
        assert(false);
    }
    lemma_pow2_step(a);
    if a + 1 < b {
        lemma_pow2_strictly_increases(a + 1, b);
    }
}

/// `fft_size(n)` is a power of two, at least `n`, and below `2n` unless
/// `n` is zero.
pub proof fn lemma_fft_size(n: nat)
    ensures
        is_power_of_two(fft_size(n)),
        n <= fft_size(n),
        n >= 1 ==> fft_size(n) < 2 * n,
        fft_size(n) >= 1,
    decreases n,
{
    if n <= 1 {
        lemma_pow2_step(0);
        assert(fft_size(n) == pow2(0));
    } else {
        let m = (n + 1) / 2;
        lemma_fft_size(m);
        let e = choose|e: nat| fft_size(m) == pow2(e);
        lemma_pow2_step(e);
        assert(fft_size(n) == pow2(e + 1));
    }
}

/// `fft_size(n)` is two to the power `fft_log(n)`.
pub proof fn lemma_fft_log(n: nat)
    ensures
        fft_size(n) == pow2(fft_log(n)),
    decreases n,
{
    if n <= 1 {
        lemma_pow2_step(0);
    } else {
        lemma_fft_log((n + 1) / 2);
        lemma_pow2_step(fft_log((n + 1) / 2));
    }
}

/// Powers of two with different exponents differ.
pub proof fn lemma_pow2_injective(a: nat, b: nat)
    requires
        pow2(a) == pow2(b),
    ensures
        a == b,
{
    if a < b {
        lemma_pow2_strictly_increases(a, b);
    }
    if b < a {
        lemma_pow2_strictly_increases(b, a);
    }
}

/// No power of two lies between `n` and `fft_size(n)`.
pub proof fn lemma_fft_size_least(n: nat, p: nat)
    requires
        is_power_of_two(p),
        n <= p,
    ensures
        fft_size(n) <= p,
{
    lemma_fft_size(n);
    let a = choose|e: nat| p == pow2(e);
    let b = choose|e: nat| fft_size(n) == pow2(e);
    lemma_pow2_pos(a);
    if p < fft_size(n) {
        lemma_pow2_gap(a, b);
    }
}

/// A power of two is its own transform size.
pub proof fn lemma_fft_size_fixed(n: nat)
    requires
        is_power_of_two(n),
    ensures
        fft_size(n) == n,
{
    lemma_fft_size(n);
    lemma_fft_size_least(n, n);
}

/// Zero reverses to zero.
pub proof fn lemma_bit_reverse_zero(bits: nat)
    ensures
        bit_reverse(0, bits) == 0,
    decreases bits,
{
    if bits > 0 {
        lemma_bit_reverse_zero((bits - 1) as nat);
        assert((0nat % 2) * pow2((bits - 1) as nat) == 0) by (nonlinear_arith);
    }
}

/// Padding a padded side adds nothing: the transform back runs on the
/// sides that the transform forward gave.
pub proof fn lemma_fft_size_idempotent(n: nat)
    ensures
        fft_size(fft_size(n)) == fft_size(n),
        fft_log(fft_size(n)) == fft_log(n),
{
    lemma_fft_size(n);
    lemma_fft_size_fixed(fft_size(n));
    lemma_fft_log(n);
    lemma_fft_log(fft_size(n));
    lemma_pow2_injective(fft_log(fft_size(n)), fft_log(n));
}

/// A reversal of `bits` digits is below `2^bits`.
pub proof fn lemma_bit_reverse_bound(i: nat, bits: nat)
    ensures
        bit_reverse(i, bits) < pow2(bits),
    decreases bits,
{
    if bits == 0 {
        lemma_pow2_step(0);
    } else {
        let b = (bits - 1) as nat;
        lemma_bit_reverse_bound(i / 2, b);
        lemma_pow2_step(b);
        assert((i % 2) * pow2(b) <= pow2(b)) by (nonlinear_arith)
            requires
                0 <= i % 2 <= 1,
        ;
    }
}

/// Only the all-ones number reverses to the all-ones number.
pub proof fn lemma_bit_reverse_full(i: nat, bits: nat)
    requires
        i < pow2(bits),
        bit_reverse(i, bits) == pow2(bits) - 1,
    ensures
        i == pow2(bits) - 1,
    decreases bits,
{
    if bits == 0 {
        lemma_pow2_step(0);
    } else {
        let b = (bits - 1) as nat;
        lemma_pow2_step(b);
        lemma_bit_reverse_bound(i / 2, b);
        if i % 2 == 0 {
            assert((i % 2) * pow2(b) == 0) by (nonlinear_arith)
                requires
                    i % 2 == 0,
            ;
            assert(false);
        }
        assert((i % 2) * pow2(b) == pow2(b)) by (nonlinear_arith)
            requires
                i % 2 == 1,
        ;
        lemma_bit_reverse_full(i / 2, b);
    }
}

/// Reversing the successor of `i` is the reversed successor of the
/// reversal of `i`.
pub proof fn lemma_bit_reverse_succ(i: nat, bits: nat)
    requires
        i + 1 < pow2(bits),
    ensures
        bit_reverse(i + 1, bits) == reverse_succ(bit_reverse(i, bits), bits),
    decreases bits,
{
    if bits == 0 {
        lemma_pow2_step(0);
    } else {
        let b = (bits - 1) as nat;
        lemma_pow2_step(b);
        lemma_bit_reverse_bound(i / 2, b);
        if i % 2 == 0 {
            assert((i % 2) * pow2(b) == 0) by (nonlinear_arith)
                requires
                    i % 2 == 0,
            ;
            assert(((i + 1) % 2) * pow2(b) == pow2(b)) by (nonlinear_arith)
                requires
                    (i + 1) % 2 == 1,
            ;
            assert((i + 1) / 2 == i / 2);
        } else {
            assert((i % 2) * pow2(b) == pow2(b)) by (nonlinear_arith)
                requires
                    i % 2 == 1,
            ;
            assert(((i + 1) % 2) * pow2(b) == 0) by (nonlinear_arith)
                requires
                    (i + 1) % 2 == 0,
            ;
            assert((i + 1) / 2 == i / 2 + 1);
            lemma_bit_reverse_succ(i / 2, b);
        }
    }
}

/// Reversal moves the top digit to the bottom: for a digit `a` and
/// `b < 2^(bits-1)`, reversing `a * 2^(bits-1) + b` gives `a` below the
/// doubled reversal of `b`.
pub proof fn lemma_bit_reverse_top(a: nat, b: nat, bits: nat)
    requires
        bits >= 1,
        a <= 1,
        b < pow2((bits - 1) as nat),
    ensures
        bit_reverse(a * pow2((bits - 1) as nat) + b, bits) == a + 2 * bit_reverse(
            b,
            (bits - 1) as nat,
        ),
    decreases bits,
{
    let p = pow2((bits - 1) as nat);
    let x = a * p + b;
    if bits == 1 {
        lemma_pow2_step(0);
        assert(x == a) by (nonlinear_arith)
            requires
                x == a * p + b,
                p == 1,
                b == 0,
        ;
        assert(bit_reverse(x / 2, 0) == 0);
        assert((x % 2) * pow2(0) == a) by (nonlinear_arith)
            requires
                x == a,
                a <= 1,
                pow2(0) == 1,
        ;
    } else {
        let q = pow2((bits - 2) as nat);
        lemma_pow2_step((bits - 2) as nat);
        assert(p == 2 * q);
        assert(x == 2 * (a * q + b / 2) + b % 2) by (nonlinear_arith)
            requires
                x == a * p + b,
                p == 2 * q,
        ;
        lemma_fundamental_div_mod_converse(x as int, 2, (a * q + b / 2) as int, (b % 2) as int);
        assert(x % 2 == b % 2);
        assert(x / 2 == a * q + b / 2);
        lemma_bit_reverse_top(a, b / 2, (bits - 1) as nat);
        assert(bit_reverse(b, (bits - 1) as nat) == (b % 2) * q + bit_reverse(
            b / 2,
            (bits - 2) as nat,
        ));
        assert((b % 2) * p == 2 * ((b % 2) * q)) by (nonlinear_arith)
            requires
                p == 2 * q,
        ;
    }
}

/// Reversing twice gives the number back.
pub proof fn lemma_bit_reverse_involution(i: nat, bits: nat)
    requires
        i < pow2(bits),
    ensures
        bit_reverse(bit_reverse(i, bits), bits) == i,
    decreases bits,
{
    if bits == 0 {
        lemma_pow2_step(0);
    } else {
        let b = (bits - 1) as nat;
        lemma_pow2_step(b);
        lemma_bit_reverse_bound(i / 2, b);
        lemma_bit_reverse_top(i % 2, bit_reverse(i / 2, b), bits);
        lemma_bit_reverse_involution(i / 2, b);
    }
}

} // verus!
