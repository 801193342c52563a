//! Arithmetic in the prime field of order `MODULUS = 2^64 - 2^32 + 1`.
//!
//! Elements are held as `u64` values below `MODULUS`; every operation reduces
//! exactly, and its contract states the result as an integer residue.
use vstd::prelude::*;

verus! {

/// The field's characteristic.
pub const MODULUS: u64 = 18446744069414584321;

/// A generator of the multiplicative group of the field.
pub const GENERATOR: u64 = 7;

/// The largest power-of-two order that a subgroup of the multiplicative group has.
pub const TWO_ADICITY: u64 = 32;

pub open spec fn modulus() -> int {
    18446744069414584321
}

/// A canonical representative of a field element.
pub open spec fn is_elem(a: int) -> bool {
    0 <= a < modulus()
}

pub open spec fn add_s(a: int, b: int) -> int {
    (a + b) % modulus()
}

pub open spec fn sub_s(a: int, b: int) -> int {
    (a - b) % modulus()
}

pub open spec fn mul_s(a: int, b: int) -> int {
    (a * b) % modulus()
}

/// Exponentiation, by repeated squaring.
pub open spec fn pow_s(a: int, e: nat) -> int
    decreases e,
{
    if e == 0 {
        1
    } else {
        let h = pow_s(mul_s(a, a), e / 2);
        if e % 2 == 1 {
            mul_s(a, h)
        } else {
            h
        }
    }
}

/// The multiplicative inverse of a non-zero element, by Fermat's little theorem.
pub open spec fn inv_s(a: int) -> int {
    pow_s(a, (modulus() - 2) as nat)
}

/// Reduces an arbitrary 64-bit word to a field element.
pub fn reduce(a: u64) -> (r: u64)
    ensures
        r as int == a as int % modulus(),
{
    a % MODULUS
}

pub fn fadd(a: u64, b: u64) -> (r: u64)
    requires
        is_elem(a as int),
        is_elem(b as int),
    ensures
        r as int == add_s(a as int, b as int),
        is_elem(r as int),
{
    (((a as u128) + (b as u128)) % (MODULUS as u128)) as u64
}

pub fn fsub(a: u64, b: u64) -> (r: u64)
    requires
        is_elem(a as int),
        is_elem(b as int),
    ensures
        r as int == sub_s(a as int, b as int),
        is_elem(r as int),
{
    let x: u128 = (a as u128) + (MODULUS as u128) - (b as u128);
    proof {
        assert((a as int - b as int) % modulus() == (a as int - b as int + modulus()) % modulus())
            by {
            vstd::arithmetic::div_mod::lemma_mod_add_multiples_vanish(
                a as int - b as int,
                modulus(),
            );
        }
    }
    (x % (MODULUS as u128)) as u64
}

pub fn fmul(a: u64, b: u64) -> (r: u64)
    requires
        is_elem(a as int),
        is_elem(b as int),
    ensures
        r as int == mul_s(a as int, b as int),
        is_elem(r as int),
{
    proof {
        assert((a as int) * (b as int) < 0x1_0000_0000_0000_0000_0000_0000_0000_0000) by (nonlinear_arith)
            requires
                0 <= a < 0x1_0000_0000_0000_0000,
                0 <= b < 0x1_0000_0000_0000_0000,
        ;
    }
    (((a as u128) * (b as u128)) % (MODULUS as u128)) as u64
}

pub fn fpow(a: u64, e: u64) -> (r: u64)
    requires
        is_elem(a as int),
    ensures
        r as int == pow_s(a as int, e as nat),
        is_elem(r as int),
    decreases e,
{
    if e == 0 {
        1
    } else {
        let sq = fmul(a, a);
        let h = fpow(sq, e / 2);
        if e % 2 == 1 {
            fmul(a, h)
        } else {
            h
        }
    }
}

pub fn finv(a: u64) -> (r: u64)
    requires
        is_elem(a as int),
    ensures
        r as int == inv_s(a as int),
        is_elem(r as int),
{
    fpow(a, MODULUS - 2)
}

} // verus!
