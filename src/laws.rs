use crate::commitment::{accepts, commitment_of};
use crate::params::PedersenParams;
use vstd::arithmetic::div_mod::{
    lemma_fundamental_div_mod, lemma_mod_bound, lemma_mod_multiples_basic, lemma_mod_twice,
    lemma_mul_mod_noop, lemma_mul_mod_noop_general, lemma_small_mod,
};
use vstd::arithmetic::power::{lemma_pow_adds, lemma_pow_distributes, lemma_pow_mod_noop, lemma_pow_multiplies, pow};
use vstd::prelude::*;

verus! {

/// Completeness: an honest prover always convinces the verifier.
///
/// For the commitment `K` to `(secret, blind)`, the first message `R` built
/// from `(nonce, nonce_blind)`, and any challenge `c`, the responses
/// `z = nonce + c * secret` and `z_blind = nonce_blind + c * blind` pass the
/// check `g^z * h^z_blind == R * K^c (mod p)`.
pub proof fn lemma_completeness(
    params: PedersenParams,
    secret: nat,
    blind: nat,
    nonce: nat,
    nonce_blind: nat,
    c: nat,
)
    requires
        params.wf(),
    ensures
        accepts(
            params,
            commitment_of(params, secret, blind) as nat,
            commitment_of(params, nonce, nonce_blind) as nat,
            c,
            nonce + c * secret,
            nonce_blind + c * blind,
        ),
{
    let p = params.p as int;
    let g = params.g as int;
    let h = params.h as int;
    let a = pow(g, nonce) * pow(h, nonce_blind);
    let b = pow(g, secret) * pow(h, blind);
    assert(c * secret == secret * c) by (nonlinear_arith);
    assert(c * blind == blind * c) by (nonlinear_arith);
    lemma_pow_adds(g, nonce, secret * c);
    lemma_pow_adds(h, nonce_blind, blind * c);
    lemma_pow_multiplies(g, secret, c);
    lemma_pow_multiplies(h, blind, c);
    lemma_pow_distributes(pow(g, secret), pow(h, blind), c);
    let gs = pow(g, secret * c);
    let hs = pow(h, blind * c);
    assert(pow(g, nonce + c * secret) * pow(h, nonce_blind + c * blind) == a * pow(b, c)) by (nonlinear_arith)
        requires
            pow(g, nonce + c * secret) == pow(g, nonce) * gs,
            pow(h, nonce_blind + c * blind) == pow(h, nonce_blind) * hs,
            pow(b, c) == gs * hs,
            a == pow(g, nonce) * pow(h, nonce_blind),
    ;
    // The residues of `a` and `b` stand for them in `R * K^c (mod p)`.
    assert(commitment_of(params, secret, blind) == b % p);
    assert(commitment_of(params, nonce, nonce_blind) == a % p);
    assert(b % p >= 0 && a % p >= 0) by {
        lemma_mod_bound(b, p);
        lemma_mod_bound(a, p);
    }
    lemma_pow_mod_noop(b, c, p);
    lemma_mul_mod_noop_general(a, pow(b % p, c), p);
    lemma_mul_mod_noop_general(a, pow(b, c), p);
}

/// `p` has no divisor strictly between 1 and itself.
pub open spec fn is_prime(p: int) -> bool {
    &&& p > 1
    &&& forall|d: int| 1 < d < p ==> #[trigger] (p % d) != 0
}

/// A residue `x` in `(0, p)` times a `b` that `p` does not divide is not a
/// multiple of the prime `p`.
proof fn lemma_residue_product_nonzero(p: int, x: int, b: int)
    requires
        is_prime(p),
        0 < x < p,
        b % p != 0,
    ensures
        (x * b) % p != 0,
    decreases x,
{
    if x > 1 && (x * b) % p == 0 {
        let q = p / x;
        let r = p % x;
        lemma_fundamental_div_mod(p, x);
        assert(p % x != 0);
        lemma_mod_bound(p, x);
        lemma_fundamental_div_mod(x * b, p);
        let k = (x * b) / p;
        assert(x * b == p * k);
        assert(r * b == p * (b - q * k)) by (nonlinear_arith)
            requires
                p == x * q + r,
                x * b == p * k,
        ;
        lemma_mod_multiples_basic(b - q * k, p);
        assert((p * (b - q * k)) % p == 0) by (nonlinear_arith)
            requires
                ((b - q * k) * p) % p == 0,
        ;
        lemma_residue_product_nonzero(p, r, b);
    }
}

/// Euclid's lemma: a prime divides a product only if it divides a factor.
pub proof fn lemma_prime_product_nonzero(p: int, a: int, b: int)
    requires
        is_prime(p),
        a % p != 0,
        b % p != 0,
    ensures
        (a * b) % p != 0,
{
    lemma_mod_bound(a, p);
    lemma_mod_bound(b, p);
    lemma_mod_twice(b, p);
    lemma_residue_product_nonzero(p, a % p, b % p);
    lemma_mul_mod_noop(a, b, p);
}

/// A power of a residue that the prime `p` does not divide is not divisible by `p`.
pub proof fn lemma_pow_nonzero(p: int, b: int, e: nat)
    requires
        is_prime(p),
        b % p != 0,
    ensures
        pow(b, e) % p != 0,
    decreases e,
{
    reveal(pow);
    if e == 0 {
        lemma_small_mod(1, p as nat);
    } else {
        lemma_pow_nonzero(p, b, (e - 1) as nat);
        lemma_prime_product_nonzero(p, b, pow(b, (e - 1) as nat));
    }
}

/// Over a prime modulus, a commitment is never 0: every commitment, and
/// every first message of the prover, lies in `[1, p)`.
pub proof fn lemma_commitment_nonzero(params: PedersenParams, secret: nat, blind: nat)
    requires
        params.wf(),
        is_prime(params.p as int),
    ensures
        1 <= commitment_of(params, secret, blind) < params.p,
{
    let p = params.p as int;
    lemma_small_mod(params.g as nat, params.p as nat);
    lemma_small_mod(params.h as nat, params.p as nat);
    lemma_pow_nonzero(p, params.g as int, secret);
    lemma_pow_nonzero(p, params.h as int, blind);
    lemma_prime_product_nonzero(p, pow(params.g as int, secret), pow(params.h as int, blind));
    lemma_mod_bound(pow(params.g as int, secret) * pow(params.h as int, blind), p);
}

/// Two integers with the same residue differ by a multiple of `p`.
proof fn lemma_same_residue_difference(u: int, v: int, p: int)
    requires
        p > 0,
        u % p == v % p,
    ensures
        (u - v) % p == 0,
{
    lemma_fundamental_div_mod(u, p);
    lemma_fundamental_div_mod(v, p);
    let k = u / p - v / p;
    assert(u - v == k * p) by (nonlinear_arith)
        requires
            u == p * (u / p) + u % p,
            v == p * (v / p) + v % p,
            u % p == v % p,
            k == u / p - v / p,
    ;
    lemma_mod_multiples_basic(k, p);
}

/// Cancellation modulo a prime: if `a * x` and `a` have the same residue,
/// `p` does not divide `a` and `x` is a residue, then `x` is 1.
proof fn lemma_cancel_residue(p: int, a: int, x: int)
    requires
        is_prime(p),
        a % p != 0,
        0 <= x < p,
        (a * x) % p == a % p,
    ensures
        x == 1,
{
    if x == 0 {
        assert(a * x == 0);
        lemma_small_mod(0, p as nat);
    } else if x > 1 {
        lemma_same_residue_difference(a * x, a, p);
        assert(a * x - a == a * (x - 1)) by (nonlinear_arith);
        lemma_small_mod((x - 1) as nat, p as nat);
        lemma_prime_product_nonzero(p, a, x - 1);
    }
}

/// Tampering is detected: take a transcript `(R, c, z, z_blind)` that passes
/// the check for the commitment `K` over a prime modulus, and add `d` to one
/// of its four values. The changed transcript passes too only in these
/// coincidences:
/// for `z`, when `g^d == 1 (mod p)`;
/// for `z_blind`, when `h^d == 1 (mod p)`;
/// for `R`, when `p` divides `d`;
/// for `c`, when `K^d == 1 (mod p)`.
pub proof fn lemma_tampering_detected(
    params: PedersenParams,
    commitment: nat,
    announcement: nat,
    c: nat,
    z: nat,
    z_blind: nat,
    d: nat,
)
    requires
        params.wf(),
        is_prime(params.p as int),
        accepts(params, commitment, announcement, c, z, z_blind),
    ensures
        accepts(params, commitment, announcement, c, z + d, z_blind) ==> pow(params.g as int, d)
            % (params.p as int) == 1,
        accepts(params, commitment, announcement, c, z, z_blind + d) ==> pow(params.h as int, d)
            % (params.p as int) == 1,
        accepts(params, commitment, announcement + d, c, z, z_blind) ==> (d as int) % (params.p as int)
            == 0,
        accepts(params, commitment, announcement, c + d, z, z_blind) ==> pow(commitment as int, d)
            % (params.p as int) == 1,
{
    let p = params.p as int;
    let g = params.g as int;
    let h = params.h as int;
    let big_l = pow(g, z) * pow(h, z_blind);
    let kc = pow(commitment as int, c);
    let m = announcement * kc;
    lemma_commitment_nonzero(params, z, z_blind);
    assert(big_l % p != 0);
    assert(m % p == big_l % p);
    if accepts(params, commitment, announcement, c, z + d, z_blind) {
        let x = pow(g, d) % p;
        lemma_pow_adds(g, d, z);
        assert(pow(g, z + d) * pow(h, z_blind) == big_l * pow(g, d)) by (nonlinear_arith)
            requires
                pow(g, d + z) == pow(g, d) * pow(g, z),
                big_l == pow(g, z) * pow(h, z_blind),
        ;
        lemma_mul_mod_noop_general(big_l, pow(g, d), p);
        lemma_mod_bound(pow(g, d), p);
        lemma_cancel_residue(p, big_l, x);
    }
    if accepts(params, commitment, announcement, c, z, z_blind + d) {
        let x = pow(h, d) % p;
        lemma_pow_adds(h, d, z_blind);
        assert(pow(g, z) * pow(h, z_blind + d) == big_l * pow(h, d)) by (nonlinear_arith)
            requires
                pow(h, d + z_blind) == pow(h, d) * pow(h, z_blind),
                big_l == pow(g, z) * pow(h, z_blind),
        ;
        lemma_mul_mod_noop_general(big_l, pow(h, d), p);
        lemma_mod_bound(pow(h, d), p);
        lemma_cancel_residue(p, big_l, x);
    }
    if accepts(params, commitment, announcement + d, c, z, z_blind) {
        assert((announcement + d) * kc == m + d * kc) by (nonlinear_arith)
            requires
                m == announcement * kc,
        ;
        assert(((announcement + d) * kc) % p == m % p);
        lemma_same_residue_difference((announcement + d) * kc, m, p);
        assert((d * kc) % p == 0);
        if kc % p == 0 {
            lemma_mul_mod_noop_general(announcement as int, kc, p);
            assert(announcement * 0 == 0);
        }
        if (d as int) % p != 0 {
            lemma_prime_product_nonzero(p, d as int, kc);
        }
    }
    if accepts(params, commitment, announcement, c + d, z, z_blind) {
        let x = pow(commitment as int, d) % p;
        lemma_pow_adds(commitment as int, c, d);
        assert(announcement * pow(commitment as int, c + d) == m * pow(commitment as int, d)) by (nonlinear_arith)
            requires
                pow(commitment as int, c + d) == kc * pow(commitment as int, d),
                m == announcement * kc,
        ;
        lemma_mul_mod_noop_general(m, pow(commitment as int, d), p);
        lemma_mod_bound(pow(commitment as int, d), p);
        lemma_cancel_residue(p, m, x);
    }
}

/// Two passing answers to one first message `R` reveal an opening of a
/// power of the commitment: if `(R, c, z, z_blind)` and
/// `(R, c + d, z2, z_blind2)` both pass for `K`, then
/// `g^z2 * h^z_blind2 == (g^z * h^z_blind) * K^d (mod p)`. A prover that can
/// answer two different challenges for one `R` therefore knows how to write
/// `K^d` over `g` and `h`.
pub proof fn lemma_two_challenges_open_power(
    params: PedersenParams,
    commitment: nat,
    announcement: nat,
    c: nat,
    d: nat,
    z: nat,
    z_blind: nat,
    z2: nat,
    z_blind2: nat,
)
    requires
        params.wf(),
        accepts(params, commitment, announcement, c, z, z_blind),
        accepts(params, commitment, announcement, c + d, z2, z_blind2),
    ensures
        commitment_of(params, z2, z_blind2) == (commitment_of(params, z, z_blind) * pow(
            commitment as int,
            d,
        )) % (params.p as int),
{
    let p = params.p as int;
    let kc = pow(commitment as int, c);
    let kd = pow(commitment as int, d);
    let m = announcement * kc;
    lemma_pow_adds(commitment as int, c, d);
    assert(announcement * pow(commitment as int, c + d) == m * kd) by (nonlinear_arith)
        requires
            pow(commitment as int, c + d) == kc * kd,
            m == announcement * kc,
    ;
    lemma_mul_mod_noop_general(m, kd, p);
}

/// 467 has no divisor between 2 and 21.
proof fn lemma_467_no_small_divisor(d: int)
    requires
        2 <= d <= 21,
    ensures
        467int % d != 0,
{
    assert(467int % 2 != 0);
    assert(467int % 3 != 0);
    assert(467int % 4 != 0);
    assert(467int % 5 != 0);
    assert(467int % 6 != 0);
    assert(467int % 7 != 0);
    assert(467int % 8 != 0);
    assert(467int % 9 != 0);
    assert(467int % 10 != 0);
    assert(467int % 11 != 0);
    assert(467int % 12 != 0);
    assert(467int % 13 != 0);
    assert(467int % 14 != 0);
    assert(467int % 15 != 0);
    assert(467int % 16 != 0);
    assert(467int % 17 != 0);
    assert(467int % 18 != 0);
    assert(467int % 19 != 0);
    assert(467int % 20 != 0);
    assert(467int % 21 != 0);
}

/// The modulus of the default parameters is prime.
pub proof fn lemma_467_is_prime()
    ensures
        is_prime(467),
{
    assert forall|d: int| 1 < d < 467 implies #[trigger] (467int % d) != 0 by {
        if 467int % d == 0 {
            lemma_fundamental_div_mod(467int, d);
            let e = 467int / d;
            assert(467int == d * e);
            if d <= 21 {
                lemma_467_no_small_divisor(d);
            } else {
                assert(2 <= e <= 21) by (nonlinear_arith)
                    requires
                        467int == d * e,
                        21 < d < 467,
                ;
                assert(467int % e == 0) by {
                    lemma_mod_multiples_basic(d, e);
                }
                lemma_467_no_small_divisor(e);
            }
        }
    }
}

/// In the default group (`p = 467`, `g = 2`, `h = 3`), raising a passing
/// response `z` by one makes the transcript fail, whatever the challenge.
pub proof fn lemma_default_group_rejects_shifted_response(
    commitment: nat,
    announcement: nat,
    c: nat,
    z: nat,
    z_blind: nat,
)
    requires
        accepts(PedersenParams { p: 467, g: 2, h: 3 }, commitment, announcement, c, z, z_blind),
    ensures
        !accepts(PedersenParams { p: 467, g: 2, h: 3 }, commitment, announcement, c, z + 1, z_blind),
{
    let params = PedersenParams { p: 467, g: 2, h: 3 };
    lemma_467_is_prime();
    lemma_tampering_detected(params, commitment, announcement, c, z, z_blind, 1);
    reveal_with_fuel(pow, 2);
    assert(pow(2, 1) == 2);
}

} // verus!
