//! Pedersen commitments over the multiplicative group of residues modulo a
//! prime, and a three-move Sigma protocol in which a prover shows that it
//! knows the secret and the blinding factor behind a commitment without
//! revealing either.
pub mod commitment;
pub mod laws;
pub mod modpow;
pub mod params;
pub mod prover;
mod random;
pub mod verification;

pub use commitment::commit;
pub use modpow::mod_pow;
pub use params::{ParamsError, PedersenParams};
pub use prover::{Prover, ProverError};
pub use verification::Verifier;
