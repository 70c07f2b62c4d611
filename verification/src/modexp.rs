//! Modular exponentiation on 64-bit numbers.

use crate::text::{parse_unsigned, read_unsigned};
use vstd::arithmetic::div_mod::{lemma_mod_twice, lemma_mul_mod_noop_general, lemma_small_mod};
use vstd::arithmetic::power::{
    lemma_pow0, lemma_pow1, lemma_pow_adds, lemma_pow_mod_noop, lemma_pow_multiplies,
    lemma_square_is_pow2, pow,
};
use vstd::prelude::*;

verus! {

/// One round of square and multiply keeps the product of the result so far
/// and the power still to be taken, modulo `m`.
proof fn lemma_square_and_multiply(acc: int, x: int, y: nat, m: int)
    requires
        m > 0,
        y > 0,
    ensures
        ({
            let acc2 = if y % 2 == 1 {
                (acc * x) % m
            } else {
                acc
            };
            (acc2 * pow((x * x) % m, y / 2)) % m == (acc * pow(x, y)) % m
        }),
{
    let half = y / 2;
    let squares = pow(x * x, half);
    let reduced = pow((x * x) % m, half);
    assert(reduced % m == squares % m) by {
        lemma_pow_mod_noop(x * x, half, m);
    }
    assert(pow(x, 2 * half) == squares) by {
        lemma_pow_multiplies(x, 2, half);
        lemma_square_is_pow2(x);
    }
    if y % 2 == 1 {
        let acc2 = (acc * x) % m;
        assert(pow(x, y) == squares * x) by {
            lemma_pow_adds(x, 2 * half, 1);
            lemma_pow1(x);
        }
        assert(acc * (squares * x) == (acc * x) * squares) by (nonlinear_arith);
        lemma_mul_mod_noop_general(acc2, reduced, m);
        lemma_mul_mod_noop_general(acc2, squares, m);
        lemma_mul_mod_noop_general(acc * x, squares, m);
    } else {
        lemma_mul_mod_noop_general(acc, reduced, m);
        lemma_mul_mod_noop_general(acc, squares, m);
    }
}

/// `x` to the power `y`, modulo `m`. The modulus is not zero.
pub fn modexp(x: u64, y: u64, m: u64) -> (r: u64)
    requires
        m > 0,
    ensures
        r == pow(x as int, y as nat) % (m as int),
{
    if m == 1 {
        return 0;
    }
    let modulus: u128 = m as u128;
    let mut base: u128 = x as u128;
    let mut left: u64 = y;
    let mut ret_val: u128 = 1;
    while left > 0
        invariant
            modulus == m,
            m > 1,
            base <= u64::MAX,
            ret_val < modulus,
            (ret_val * pow(base as int, left as nat)) % (m as int) == pow(x as int, y as nat) % (
            m as int),
        decreases left,
    {
        proof {
            lemma_square_and_multiply(ret_val as int, base as int, left as nat, m as int);
            assert(ret_val * base <= 0xffff_ffff_ffff_ffff * 0xffff_ffff_ffff_ffff)
                by (nonlinear_arith)
                requires
                    0 <= ret_val <= 0xffff_ffff_ffff_ffff,
                    0 <= base <= 0xffff_ffff_ffff_ffff,
            ;
            assert(base * base <= 0xffff_ffff_ffff_ffff * 0xffff_ffff_ffff_ffff)
                by (nonlinear_arith)
                requires
                    0 <= base <= 0xffff_ffff_ffff_ffff,
            ;
        }
        if left % 2 == 1 {
            ret_val = (ret_val * base) % modulus;
        }
        left = left / 2;
        base = (base * base) % modulus;
    }
    proof {
        lemma_pow0(base as int);
        lemma_small_mod(ret_val as nat, m as nat);
    }
    ret_val as u64
}

/// Reads `s` as a 64-bit number in decimal notation.
pub fn parsenum(s: &str) -> (r: Option<u64>)
    ensures
        r matches Some(v) ==> parse_unsigned(s@, u64::MAX as nat) == Some(v as nat),
        r is None ==> parse_unsigned(s@, u64::MAX as nat) is None,
{
    read_unsigned(s, u64::MAX)
}

} // verus!
