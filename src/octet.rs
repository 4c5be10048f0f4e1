//! Arithmetic on elements of GF(256), represented as bytes.
//!
//! Addition is bitwise xor. Multiplication is carry-less multiplication
//! reduced modulo the primitive polynomial x^8 + x^4 + x^3 + x^2 + 1.
use vstd::prelude::*;

verus! {

/// The additive identity.
pub const ZERO: u8 = 0;

/// The multiplicative identity.
pub const ONE: u8 = 1;

/// Multiplies `a` by x and reduces modulo the field polynomial.
pub open spec fn times_x(a: u8) -> u8 {
    if a & 0x80u8 != 0 {
        (a << 1u8) ^ 0x1du8
    } else {
        a << 1u8
    }
}

/// `n` steps of shift-and-add multiplication: `acc + a * (b mod x^n)`.
pub open spec fn mul_steps(a: u8, b: u8, acc: u8, n: nat) -> u8
    decreases n,
{
    if n == 0 {
        acc
    } else {
        let acc2 = if b & 1u8 == 1u8 { acc ^ a } else { acc };
        mul_steps(times_x(a), b >> 1u8, acc2, (n - 1) as nat)
    }
}

/// The field product of `a` and `b`.
pub open spec fn gf_mul(a: u8, b: u8) -> u8 {
    mul_steps(a, b, 0, 8)
}

/// The field sum of `a` and `b`.
pub open spec fn gf_add(a: u8, b: u8) -> u8 {
    a ^ b
}

proof fn lemma_steps_zero_a(b: u8, n: nat)
    ensures
        mul_steps(0, b, 0, n) == 0,
    decreases n,
{
    if n > 0 {
        assert(times_x(0) == 0) by (bit_vector);
        assert((0u8 ^ 0u8) == 0u8) by (bit_vector);
        lemma_steps_zero_a(b >> 1u8, (n - 1) as nat);
    }
}

proof fn lemma_steps_zero_b(a: u8, acc: u8, n: nat)
    ensures
        mul_steps(a, 0, acc, n) == acc,
    decreases n,
{
    if n > 0 {
        assert((0u8 & 1u8) == 0u8 && (0u8 >> 1u8) == 0u8) by (bit_vector);
        lemma_steps_zero_b(times_x(a), acc, (n - 1) as nat);
    }
}

/// Zero absorbs multiplication from either side.
pub proof fn lemma_mul_zero(a: u8)
    ensures
        gf_mul(a, 0) == 0,
        gf_mul(0, a) == 0,
{
    lemma_steps_zero_b(a, 0, 8);
    lemma_steps_zero_a(a, 8);
}

/// One is the multiplicative identity.
pub proof fn lemma_mul_one(a: u8)
    ensures
        gf_mul(a, 1) == a,
{
    assert((1u8 & 1u8) == 1u8 && (1u8 >> 1u8) == 0u8 && (0u8 ^ a) == a) by (bit_vector);
    lemma_steps_zero_b(times_x(a), a, 7);
}

/// Zero is the additive identity.
pub proof fn lemma_add_zero(a: u8)
    ensures
        gf_add(a, 0) == a,
        gf_add(0, a) == a,
{
    assert((a ^ 0u8) == a && (0u8 ^ a) == a) by (bit_vector);
}

/// Field multiplication of two bytes.
pub fn octet_mul(a: u8, b: u8) -> (r: u8)
    ensures
        r == gf_mul(a, b),
{
    let mut x: u8 = a;
    let mut y: u8 = b;
    let mut acc: u8 = 0;
    let mut i: u8 = 0;
    while i < 8
        invariant
            i <= 8,
            mul_steps(x, y, acc, (8 - i) as nat) == gf_mul(a, b),
        decreases 8 - i,
    {
        if y & 1 == 1 {
            acc = acc ^ x;
        }
        x = if x & 0x80 != 0 { (x << 1u8) ^ 0x1d } else { x << 1u8 };
        y = y >> 1u8;
        i = i + 1;
    }
    acc
}


/// Fused multiply-add on one element: returns `dest + a * b`.
pub fn fma(dest: u8, a: u8, b: u8) -> (r: u8)
    ensures
        r == gf_add(dest, gf_mul(a, b)),
{
    dest ^ octet_mul(a, b)
}

} // verus!
