use crate::laws::{is_prime, lemma_467_is_prime};
use crate::modpow::MAX_MODULUS;
use vstd::prelude::*;

verus! {

/// The group in which commitments live: residues modulo `p`, with two
/// generators `g` and `h` whose discrete-log relation is assumed unknown.
#[derive(Clone, Copy, Debug, PartialEq, Eq)]
pub struct PedersenParams {
    /// The prime modulus.
    pub p: u128,
    /// The generator that carries the secret.
    pub g: u128,
    /// The generator that carries the blinding factor.
    pub h: u128,
}

/// Why a triple `(p, g, h)` cannot serve as group parameters.
#[derive(Clone, Copy, Debug, PartialEq, Eq)]
pub enum ParamsError {
    /// The modulus is 0 or 1.
    ModulusTooSmall,
    /// The modulus exceeds `2^64`, so products of residues could wrap in `u128`.
    ModulusTooLarge,
    /// A generator is not in the open range `(1, p)`.
    GeneratorOutOfRange,
}

impl PedersenParams {
    /// Parameters on which every operation of this library is defined.
    pub open spec fn wf(&self) -> bool {
        &&& 1 < self.p <= MAX_MODULUS
        &&& 1 < self.g < self.p
        &&& 1 < self.h < self.p
    }

    /// The fixed demonstration group: `p = 467`, `g = 2`, `h = 3`.
    ///
    /// These values are small and are not checked for the properties a real
    /// deployment would need.
    pub fn new() -> (r: Self)
        ensures
            r.p == 467,
            r.g == 2,
            r.h == 3,
            r.wf(),
            is_prime(r.p as int),
    {
        proof {
            lemma_467_is_prime();
        }
        PedersenParams { p: 467, g: 2, h: 3 }
    }

    /// Checked construction from arbitrary integers.
    pub fn try_new(p: u128, g: u128, h: u128) -> (r: Result<Self, ParamsError>)
        ensures
            p <= 1 ==> r == Err::<Self, ParamsError>(ParamsError::ModulusTooSmall),
            p > MAX_MODULUS ==> r == Err::<Self, ParamsError>(ParamsError::ModulusTooLarge),
            1 < p <= MAX_MODULUS && !(1 < g < p && 1 < h < p)
                ==> r == Err::<Self, ParamsError>(ParamsError::GeneratorOutOfRange),
            r is Ok <==> (PedersenParams { p, g, h }).wf(),
            r is Ok ==> r == Ok::<Self, ParamsError>(PedersenParams { p, g, h }),
    {
        if p <= 1 {
            Err(ParamsError::ModulusTooSmall)
        } else if p > MAX_MODULUS {
            Err(ParamsError::ModulusTooLarge)
        } else if !(1 < g && g < p && 1 < h && h < p) {
            Err(ParamsError::GeneratorOutOfRange)
        } else {
            Ok(PedersenParams { p, g, h })
        }
    }
}

} // verus!
