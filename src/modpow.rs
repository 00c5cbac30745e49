use vstd::arithmetic::div_mod::{
    lemma_mod_bound, lemma_mod_twice, lemma_mul_mod_noop_general, lemma_small_mod,
};
use vstd::arithmetic::power::{lemma_pow0, lemma_pow_adds, lemma_pow_mod_noop, lemma_pow_multiplies, pow};
use vstd::prelude::*;

verus! {

/// The largest modulus for which the product of two residues fits in `u128`.
pub const MAX_MODULUS: u128 = 0x1_0000_0000_0000_0000;

/// `base` raised to `exponent`, reduced modulo `modulus`.
pub open spec fn pow_mod(base: int, exponent: nat, modulus: int) -> int {
    pow(base, exponent) % modulus
}

/// Square-and-multiply exponentiation: `base^exponent mod modulus`.
///
/// The modulus is bounded by `2^64`, so that every product of two residues
/// is computed in `u128` without wrapping.
pub fn mod_pow(base: u128, exponent: u128, modulus: u128) -> (r: u128)
    requires
        1 < modulus <= MAX_MODULUS,
    ensures
        r == pow_mod(base as int, exponent as nat, modulus as int),
        r < modulus,
{
    let m = Ghost(modulus as int);
    let mut result: u128 = 1;
    let mut b: u128 = base % modulus;
    let mut e: u128 = exponent;
    proof {
        lemma_pow_mod_noop(base as int, exponent as nat, m@);
        lemma_mod_bound(1, m@);
        assert(1int % m@ == 1) by (nonlinear_arith)
            requires m@ > 1;
    }
    while e > 0
        invariant
            m@ == modulus as int,
            1 < modulus <= MAX_MODULUS,
            result < modulus,
            b < modulus,
            (result as int * pow(b as int, e as nat)) % m@
                == pow(base as int, exponent as nat) % m@,
        decreases e,
    {
        // Residues are below 2^64, so the products of two of them fit in u128.
        assert(modulus - 1 <= 0xFFFF_FFFF_FFFF_FFFF);
        assert((modulus - 1) * (modulus - 1) <= 0xFFFF_FFFF_FFFF_FFFFu128 * 0xFFFF_FFFF_FFFF_FFFFu128) by (nonlinear_arith)
            requires modulus - 1 <= 0xFFFF_FFFF_FFFF_FFFFu128;
        assert(result * b <= (modulus - 1) * (modulus - 1)) by (nonlinear_arith)
            requires result < modulus, b < modulus;
        assert(b * b <= (modulus - 1) * (modulus - 1)) by (nonlinear_arith)
            requires b < modulus;
        let half: u128 = e / 2;
        let bit: u128 = e % 2;
        let new_b: u128 = b * b % modulus;
        let new_result: u128 = if bit == 1 { result * b % modulus } else { result };
        proof {
            let bi = b as int;
            let ri = result as int;
            // pow(b, e) == pow(b, bit) * pow(b*b, half)
            assert(e as nat == bit as nat + 2 * half as nat);
            lemma_pow_adds(bi, bit as nat, 2 * half as nat);
            lemma_pow_multiplies(bi, 2, half as nat);
            reveal_with_fuel(pow, 3);
            assert(pow(bi, 2) == bi * bi);
            lemma_pow_mod_noop(bi * bi, half as nat, m@);
            let rest = pow(bi * bi, half as nat);
            let rest_m = pow((bi * bi) % m@, half as nat);
            assert(new_b as int == (bi * bi) % m@);
            assert(rest_m % m@ == rest % m@);
            if bit == 1 {
                lemma_pow0(bi);
                assert(pow(bi, 1) == bi);
                assert(pow(bi, e as nat) == bi * rest);
                assert(ri * (bi * rest) == (ri * bi) * rest) by (nonlinear_arith);
                lemma_mul_mod_noop_general(ri * bi, rest, m@);
                lemma_mul_mod_noop_general(ri * bi, rest_m, m@);
                assert(new_result as int == (ri * bi) % m@);
                assert((new_result as int * rest_m) % m@ == (ri * pow(bi, e as nat)) % m@);
            } else {
                lemma_pow0(bi);
                assert(pow(bi, e as nat) == rest);
                lemma_mul_mod_noop_general(ri, rest, m@);
                lemma_mul_mod_noop_general(ri, rest_m, m@);
                assert((new_result as int * rest_m) % m@ == (ri * pow(bi, e as nat)) % m@);
            }
        }
        result = new_result;
        b = new_b;
        e = half;
    }
    proof {
        lemma_pow0(b as int);
        lemma_mod_bound(result as int, m@);
        lemma_small_mod(result as nat, modulus as nat);
    }
    result
}

} // verus!
