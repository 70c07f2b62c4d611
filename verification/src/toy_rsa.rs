//! The decisions of a toy RSA scheme with a fixed exponent and two primes of
//! 32 bits: which pair of primes makes a key, what the public key is, and
//! what a decrypted number is worth as a message.
//!
//! The number theory, primes, least common multiples and modular powers, is
//! the caller's: the functions here take its results.

use vstd::prelude::*;

verus! {

/// The fixed encryption exponent.
pub const EXP: u64 = 65_537;

/// Whether two primes make a key, given the least common multiple `lambda` of
/// their predecessors and the greatest common divisor `common` of the
/// exponent and `lambda`: the exponent has to be below `lambda` and prime to
/// it.
pub fn key_is_suitable(lambda: u64, common: u64) -> (r: bool)
    ensures
        r == (EXP < lambda && common == 1),
{
    EXP < lambda && common == 1
}

/// The public key of a pair of primes: their product.
pub fn public_key(p: u32, q: u32) -> (r: u64)
    ensures
        r == p * q,
{
    assert(p * q <= 0xffff_ffff * 0xffff_ffff) by (nonlinear_arith)
        requires
            0 <= p <= 0xffff_ffff,
            0 <= q <= 0xffff_ffff,
    ;
    (p as u64) * (q as u64)
}

/// The numbers whose least common multiple decides on a key and gives the
/// decryption exponent: the predecessors of the two primes. There are none
/// where one of the two is zero.
pub fn predecessors(p: u32, q: u32) -> (r: Option<(u64, u64)>)
    ensures
        r == if p >= 1 && q >= 1 {
            Some(((p - 1) as u64, (q - 1) as u64))
        } else {
            None
        },
{
    if p >= 1 && q >= 1 {
        Some(((p - 1) as u64, (q - 1) as u64))
    } else {
        None
    }
}

/// A decrypted number as a message: the number itself where it fits in 32
/// bits, and nothing otherwise.
pub fn as_message(plaintext: u64) -> (r: Option<u32>)
    ensures
        r == if plaintext <= u32::MAX {
            Some(plaintext as u32)
        } else {
            None
        },
{
    if plaintext <= u32::MAX as u64 {
        Some(plaintext as u32)
    } else {
        None
    }
}

} // verus!
