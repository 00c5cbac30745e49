use crate::commitment::{accepts, commit, mul_mod};
use crate::modpow::mod_pow;
use crate::params::PedersenParams;
use crate::random::random_in_range;
use vstd::arithmetic::div_mod::{lemma_mod_bound, lemma_mod_twice, lemma_mul_mod_noop};
use vstd::arithmetic::power::pow;
use vstd::prelude::*;

verus! {

/// The party that holds only public data: the commitment and the group.
pub struct Verifier {
    pk: u128,
    params: PedersenParams,
}

impl Verifier {
    #[verifier::type_invariant]
    spec fn inv(self) -> bool {
        self.params.wf()
    }

    /// The commitment under test, as contracts see it.
    pub closed spec fn spec_pk(&self) -> u128 {
        self.pk
    }

    /// The group parameters, as contracts see them.
    pub closed spec fn spec_params(&self) -> PedersenParams {
        self.params
    }

    /// A verifier for the commitment `pk`.
    pub fn new(pk: u128, params: PedersenParams) -> (r: Self)
        requires
            params.wf(),
        ensures
            r.pk() == pk,
            r.params() == params,
    {
        Verifier { pk, params }
    }

    /// The commitment `K` under test.
    #[verifier::when_used_as_spec(spec_pk)]
    pub fn pk(&self) -> (r: u128)
        ensures
            r == self.spec_pk(),
    {
        self.pk
    }

    /// The group parameters.
    #[verifier::when_used_as_spec(spec_params)]
    pub fn params(&self) -> (r: PedersenParams)
        ensures
            r == self.spec_params(),
            r.wf(),
    {
        proof {
            use_type_invariant(self);
        }
        self.params
    }

    /// Second round: a challenge drawn uniformly from `[1, p)`.
    pub fn round2(&self) -> (r: u128)
        ensures
            1 <= r < self.params().p,
    {
        proof {
            use_type_invariant(self);
        }
        random_in_range(1, self.params.p)
    }

    /// Checks `g^z * h^z_rho == R * K^c (mod p)`.
    #[allow(non_snake_case)]
    pub fn verify(&self, R: u128, c: u128, z: u128, z_rho: u128) -> (r: bool)
        ensures
            r == accepts(self.params(), self.pk() as nat, R as nat, c as nat, z as nat, z_rho as nat),
    {
        proof {
            use_type_invariant(self);
        }
        let p = self.params.p;
        let left = commit(z, z_rho, &self.params);
        let k_c = mod_pow(self.pk, c, p);
        let right = mul_mod(R % p, k_c, p);
        proof {
            let kc = pow(self.pk as int, c as nat);
            assert(k_c == kc % (p as int));
            lemma_mul_mod_noop(R as int, kc, p as int);
            lemma_mod_bound(R as int, p as int);
            lemma_mod_twice(R as int, p as int);
            lemma_mod_twice(kc, p as int);
            lemma_mul_mod_noop((R % p) as int, kc, p as int);
        }
        left == right
    }
}

} // verus!
