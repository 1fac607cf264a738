//! Arithmetic in the prime field of order `P = 15 * 2^27 + 1`, with elements
//! held as their canonical representatives below `P`.
use vstd::arithmetic::div_mod::{lemma_fundamental_div_mod, lemma_mul_mod_noop_general};
use vstd::arithmetic::power::{lemma_pow0, lemma_pow1, lemma_pow_adds, lemma_pow_mod_noop, lemma_pow_multiplies, pow};
use vstd::prelude::*;

verus! {

/// The field's order, a prime.
pub const P: u64 = 2013265921;

/// The canonical representative of `x`.
pub open spec fn reduce(x: int) -> int {
    x % (P as int)
}

/// The multiplicative inverse of `x` for `x` not divisible by `P`, and zero
/// otherwise: `x^(P-2)` (Fermat).
pub open spec fn inverse_spec(x: int) -> int {
    reduce(pow(reduce(x), (P - 2) as nat))
}

/// Sum of two canonical elements.
pub fn add_mod(a: u64, b: u64) -> (r: u64)
    requires
        a < P,
        b < P,
    ensures
        r as int == reduce(a + b),
{
    (a + b) % P
}

/// Difference of two canonical elements.
pub fn sub_mod(a: u64, b: u64) -> (r: u64)
    requires
        a < P,
        b < P,
    ensures
        r as int == reduce(a - b),
{
    proof {
        vstd::arithmetic::div_mod::lemma_mod_add_multiples_vanish(a - b, P as int);
    }
    (a + P - b) % P
}

/// Product of two canonical elements.
pub fn mul_mod(a: u64, b: u64) -> (r: u64)
    requires
        a < P,
        b < P,
    ensures
        r as int == reduce(a * b),
{
    proof {
        assert(a * b < P * P) by (nonlinear_arith)
            requires
                a < P,
                b < P,
        ;
    }
    (a * b) % P
}

/// One round of square-and-multiply keeps `result * base^k` fixed modulo `P`.
proof fn lemma_square_step(result: int, base: int, k: nat)
    ensures
        reduce(reduce(result * pow(base, k % 2)) * pow(reduce(base * base), k / 2)) == reduce(
            result * pow(base, k),
        ),
{
    let m = P as int;
    let b = k % 2;
    let q = k / 2;
    lemma_fundamental_div_mod(k as int, 2);
    lemma_pow_adds(base, b, 2 * q);
    lemma_pow_multiplies(base, 2, q);
    assert(pow(base, 2) == base * base) by {
        reveal(pow);
        lemma_pow1(base);
    }
    lemma_pow_mod_noop(base * base, q, m);
    let x = result * pow(base, b);
    let y = pow(base * base, q);
    let z = pow(reduce(base * base), q);
    lemma_mul_mod_noop_general(x, z, m);
    lemma_mul_mod_noop_general(x, y, m);
    assert(x * y == result * pow(base, k)) by (nonlinear_arith)
        requires
            x == result * pow(base, b),
            y == pow(base, 2 * q),
            pow(base, k) == pow(base, b) * pow(base, 2 * q),
    ;
}

/// `a^e` reduced modulo `P`, by square-and-multiply.
pub fn pow_mod(a: u64, e: u64) -> (r: u64)
    requires
        a < P,
    ensures
        r as int == reduce(pow(a as int, e as nat)),
        r < P,
{
    let mut result: u64 = 1;
    let mut base: u64 = a;
    let mut k: u64 = e;
    proof {
        lemma_pow0(a as int);
    }
    while k > 0
        invariant
            result < P,
            base < P,
            reduce(result * pow(base as int, k as nat)) == reduce(pow(a as int, e as nat)),
        decreases k,
    {
        proof {
            lemma_square_step(result as int, base as int, k as nat);
            lemma_pow0(base as int);
            lemma_pow1(base as int);
        }
        if k % 2 == 1 {
            result = mul_mod(result, base);
        } else {
            assert(reduce(result as int * 1) == result);
        }
        base = mul_mod(base, base);
        k = k / 2;
    }
    proof {
        lemma_pow0(base as int);
    }
    result
}

/// The inverse of the canonical element `a` (zero for zero).
pub fn inverse(a: u64) -> (r: u64)
    requires
        a < P,
    ensures
        r as int == inverse_spec(a as int),
        r < P,
{
    pow_mod(a, P - 2)
}

} // verus!
