use crate::modpow::{mod_pow, MAX_MODULUS};
use crate::laws::{is_prime, lemma_commitment_nonzero};
use crate::params::PedersenParams;
use vstd::arithmetic::div_mod::lemma_mul_mod_noop;
use vstd::arithmetic::power::pow;
use vstd::prelude::*;

verus! {

/// The Pedersen commitment `g^secret * h^blind mod p`.
pub open spec fn commitment_of(params: PedersenParams, secret: nat, blind: nat) -> int {
    (pow(params.g as int, secret) * pow(params.h as int, blind)) % (params.p as int)
}

/// The Sigma-protocol check `g^z * h^z_blind == R * K^c (mod p)` for the
/// commitment `K`, the first message `R`, the challenge `c` and the responses.
pub open spec fn accepts(
    params: PedersenParams,
    commitment: nat,
    announcement: nat,
    challenge: nat,
    z: nat,
    z_blind: nat,
) -> bool {
    commitment_of(params, z, z_blind) == (announcement * pow(commitment as int, challenge))
        % (params.p as int)
}

/// Product of two residues modulo `p`.
pub(crate) fn mul_mod(a: u128, b: u128, p: u128) -> (r: u128)
    requires
        1 < p <= MAX_MODULUS,
        a < p,
        b < p,
    ensures
        r == (a * b) % (p as int),
        r < p,
{
    assert(a * b <= 0xFFFF_FFFF_FFFF_FFFFu128 * 0xFFFF_FFFF_FFFF_FFFFu128) by (nonlinear_arith)
        requires
            a < p,
            b < p,
            p <= MAX_MODULUS,
    ;
    a * b % p
}

/// Combines two powers, already reduced modulo `p`, into the residue of their product.
proof fn lemma_product_of_residues(x: int, y: int, p: int)
    requires
        p > 0,
    ensures
        ((x % p) * (y % p)) % p == (x * y) % p,
{
    lemma_mul_mod_noop(x, y, p);
}

/// Commits to `secret` with blinding factor `blind`.
pub fn commit(k: u128, r_k: u128, params: &PedersenParams) -> (r: u128)
    requires
        params.wf(),
    ensures
        r == commitment_of(*params, k as nat, r_k as nat),
        r < params.p,
        is_prime(params.p as int) ==> 1 <= r,
{
    let g_k = mod_pow(params.g, k, params.p);
    let h_rk = mod_pow(params.h, r_k, params.p);
    proof {
        lemma_product_of_residues(pow(params.g as int, k as nat), pow(params.h as int, r_k as nat), params.p as int);
        if is_prime(params.p as int) {
            lemma_commitment_nonzero(*params, k as nat, r_k as nat);
        }
    }
    mul_mod(g_k, h_rk, params.p)
}

} // verus!
