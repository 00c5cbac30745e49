use crate::commitment::{commit, commitment_of};
use crate::laws::is_prime;
use crate::params::PedersenParams;
use crate::random::random_in_range;
use vstd::prelude::*;

verus! {

/// Why the prover could not answer a challenge.
#[derive(Clone, Copy, Debug, PartialEq, Eq)]
pub enum ProverError {
    /// No nonces have been drawn yet: the first round has not run.
    MissingFirstRound,
    /// A response `nonce + c * secret` does not fit in `u128`.
    ResponseOverflow,
}

/// The party that knows the opening `(secret, blind)` of its commitment.
pub struct Prover {
    sk: u128,
    rho: u128,
    nonces: Option<(u128, u128)>,
    pk: u128,
    params: PedersenParams,
}

impl Prover {
    #[verifier::type_invariant]
    spec fn inv(self) -> bool {
        &&& self.params.wf()
        &&& 0 < self.sk < self.params.p
        &&& 0 < self.rho < self.params.p
        &&& self.pk == commitment_of(self.params, self.sk as nat, self.rho as nat)
        &&& self.nonces matches Some((r, r_rho)) ==> 1 <= r < self.params.p && 1 <= r_rho < self.params.p
    }

    /// The committed secret.
    pub closed spec fn secret(self) -> u128 {
        self.sk
    }

    /// The blinding factor of the commitment.
    pub closed spec fn blind(self) -> u128 {
        self.rho
    }

    /// The nonces of the current session, once the first round has run.
    pub closed spec fn nonces(self) -> Option<(u128, u128)> {
        self.nonces
    }

    /// The public commitment `K`, as contracts see it.
    pub closed spec fn spec_pk(&self) -> u128 {
        self.pk
    }

    /// The group parameters, as contracts see them.
    pub closed spec fn spec_params(&self) -> PedersenParams {
        self.params
    }

    /// Commits to `sk` with blinding factor `rho`.
    pub fn new(sk: u128, rho: u128, params: PedersenParams) -> (r: Self)
        requires
            params.wf(),
            0 < sk < params.p,
            0 < rho < params.p,
        ensures
            r.secret() == sk,
            r.blind() == rho,
            r.nonces() is None,
            r.pk() == commitment_of(params, sk as nat, rho as nat),
            r.params() == params,
    {
        let pk = commit(sk, rho, &params);
        Prover { sk, rho, nonces: None, pk, params }
    }

    /// The public commitment `K`.
    #[verifier::when_used_as_spec(spec_pk)]
    pub fn pk(&self) -> (r: u128)
        ensures
            r == self.spec_pk(),
    {
        self.pk
    }

    /// The group parameters.
    #[verifier::when_used_as_spec(spec_params)]
    pub fn params(&self) -> (r: PedersenParams)
        ensures
            r == self.spec_params(),
    {
        self.params
    }

    /// First round with the nonces given: stores them and returns
    /// `R = g^nonce * h^nonce_blind mod p`.
    pub fn round1_with_nonces(&mut self, nonce: u128, nonce_blind: u128) -> (r: u128)
        requires
            1 <= nonce < old(self).params().p,
            1 <= nonce_blind < old(self).params().p,
        ensures
            r == commitment_of(final(self).params(), nonce as nat, nonce_blind as nat),
            r < final(self).params().p,
            is_prime(final(self).params().p as int) ==> 1 <= r,
            final(self).nonces() == Some((nonce, nonce_blind)),
            final(self).secret() == old(self).secret(),
            final(self).blind() == old(self).blind(),
            final(self).pk() == old(self).pk(),
            final(self).params() == old(self).params(),
    {
        proof {
            use_type_invariant(&*self);
        }
        self.nonces = Some((nonce, nonce_blind));
        commit(nonce, nonce_blind, &self.params)
    }

    /// First round: draws both nonces uniformly from `[1, p)` and returns
    /// `R = g^nonce * h^nonce_blind mod p`.
    pub fn round1(&mut self) -> (r: u128)
        ensures
            final(self).nonces() matches Some((n, nb)) && 1 <= n < final(self).params().p && 1
                <= nb < final(self).params().p && r == commitment_of(
                final(self).params(),
                n as nat,
                nb as nat,
            ),
            r < final(self).params().p,
            is_prime(final(self).params().p as int) ==> 1 <= r,
            final(self).secret() == old(self).secret(),
            final(self).blind() == old(self).blind(),
            final(self).pk() == old(self).pk(),
            final(self).params() == old(self).params(),
    {
        proof {
            use_type_invariant(&*self);
        }
        let p = self.params.p;
        let nonce = random_in_range(1, p);
        let nonce_blind = random_in_range(1, p);
        self.round1_with_nonces(nonce, nonce_blind)
    }

    /// Third round: the responses `z = nonce + c * secret` and
    /// `z_blind = nonce_blind + c * blind`, in plain integers.
    pub fn round3(&self, c: u128) -> (r: Result<(u128, u128), ProverError>)
        ensures
            self.nonces() is None ==> r == Err::<(u128, u128), ProverError>(
                ProverError::MissingFirstRound,
            ),
            self.nonces() matches Some((n, nb)) ==> {
                let z = n + c * self.secret();
                let z_blind = nb + c * self.blind();
                if z > u128::MAX || z_blind > u128::MAX {
                    r == Err::<(u128, u128), ProverError>(ProverError::ResponseOverflow)
                } else {
                    r == Ok::<(u128, u128), ProverError>((z as u128, z_blind as u128))
                }
            },
    {
        match self.nonces {
            None => Err(ProverError::MissingFirstRound),
            Some((n, nb)) => {
                let z = match c.checked_mul(self.sk) {
                    Some(cs) => n.checked_add(cs),
                    None => None,
                };
                let z_blind = match c.checked_mul(self.rho) {
                    Some(cb) => nb.checked_add(cb),
                    None => None,
                };
                match (z, z_blind) {
                    (Some(z), Some(z_blind)) => Ok((z, z_blind)),
                    _ => Err(ProverError::ResponseOverflow),
                }
            },
        }
    }
}

} // verus!
