use pedersen_commitment::{commit, mod_pow, ParamsError, PedersenParams, Prover, ProverError, Verifier};
use rand::Rng;

#[allow(non_snake_case)]
#[test]
fn test_pedersen_protocol() {
    // Initialize parameters
    let params = PedersenParams::new();

    // Prover's secret values
    let mut rng = rand::thread_rng();
    let sk = rng.gen_range(1..params.p); // Secret value k
    let rho = rng.gen_range(1..params.p); // Blinder rho

    // Initialize Prover
    let mut prover = Prover::new(sk, rho, params);

    // Prover's commitment phase
    let R = prover.round1();

    // Initialize Verifier with Prover's commitment K
    let verifier = Verifier::new(prover.pk(), prover.params().clone());

    // Verifier sends challenge c
    let c = verifier.round2();

    // Prover computes responses
    let (z, z_rho) = prover.round3(c).unwrap();

    // Verifier checks the proof
    let is_valid = verifier.verify(R, c, z, z_rho);

    assert!(is_valid, "Verification failed in the test case.");
}

#[test]
fn mod_pow_exact_values() {
    assert_eq!(mod_pow(2, 10, 1000), 24);
    assert_eq!(mod_pow(3, 200, 1_000_000_007), 136318165);
    assert_eq!(mod_pow(5, 0, 7), 1);
    assert_eq!(mod_pow(0, 0, 2), 1);
    assert_eq!(mod_pow(0, 5, 7), 0);
    assert_eq!(mod_pow(9, 1, 7), 2);
}

#[test]
fn mod_pow_largest_modulus() {
    let m: u128 = 1 << 64;
    assert_eq!(mod_pow(m - 1, 3, m), m - 1);
    assert_eq!(mod_pow(m - 2, m + 5, m - 1), m - 2);
}

#[test]
fn default_params_are_the_toy_group() {
    let params = PedersenParams::new();
    assert_eq!((params.p, params.g, params.h), (467, 2, 3));
}

#[test]
fn try_new_accepts_valid_params() {
    assert_eq!(PedersenParams::try_new(467, 2, 3), Ok(PedersenParams::new()));
    assert_eq!(
        PedersenParams::try_new(1 << 64, 5, 7),
        Ok(PedersenParams { p: 1 << 64, g: 5, h: 7 })
    );
}

#[test]
fn try_new_rejects_small_modulus() {
    assert_eq!(PedersenParams::try_new(0, 2, 3), Err(ParamsError::ModulusTooSmall));
    assert_eq!(PedersenParams::try_new(1, 2, 3), Err(ParamsError::ModulusTooSmall));
}

#[test]
fn try_new_rejects_large_modulus() {
    assert_eq!(
        PedersenParams::try_new((1 << 64) + 1, 2, 3),
        Err(ParamsError::ModulusTooLarge)
    );
}

#[test]
fn try_new_rejects_generators_out_of_range() {
    assert_eq!(PedersenParams::try_new(467, 1, 3), Err(ParamsError::GeneratorOutOfRange));
    assert_eq!(PedersenParams::try_new(467, 2, 467), Err(ParamsError::GeneratorOutOfRange));
    assert_eq!(PedersenParams::try_new(467, 0, 3), Err(ParamsError::GeneratorOutOfRange));
    assert_eq!(PedersenParams::try_new(467, 2, 500), Err(ParamsError::GeneratorOutOfRange));
}

#[test]
fn commit_exact_value() {
    let params = PedersenParams::new();
    // 2^5 * 3^7 mod 467
    assert_eq!(commit(5, 7, &params), 401);
    assert_eq!(commit(0, 0, &params), 1);
    assert_eq!(commit(11, 13, &params), 102);
}

#[test]
fn commit_is_deterministic() {
    let params = PedersenParams::new();
    for k in 1..50u128 {
        assert_eq!(commit(k, 3 * k, &params), commit(k, 3 * k, &params));
    }
}

#[test]
fn end_to_end_toy_scenario() {
    let params = PedersenParams::new();
    let mut prover = Prover::new(5, 7, params);
    assert_eq!(prover.pk(), 401);
    let r = prover.round1_with_nonces(11, 13);
    assert_eq!(r, 102);
    let verifier = Verifier::new(prover.pk(), params);
    for c in 1..467u128 {
        let (z, z_blind) = prover.round3(c).unwrap();
        assert_eq!((z, z_blind), (11 + 5 * c, 13 + 7 * c));
        assert!(verifier.verify(r, c, z, z_blind));
        assert!(!verifier.verify(r, c, z + 1, z_blind));
    }
}

#[test]
fn honest_run_with_drawn_nonces_passes() {
    let params = PedersenParams::new();
    let verifier_params = params;
    for secret in [1u128, 5, 233, 466] {
        let mut prover = Prover::new(secret, 467 - secret, params);
        let r = prover.round1();
        let verifier = Verifier::new(prover.pk(), verifier_params);
        let c = verifier.round2();
        let (z, z_blind) = prover.round3(c).unwrap();
        assert!(verifier.verify(r, c, z, z_blind));
    }
}

#[test]
fn tampered_transcripts_are_rejected() {
    let params = PedersenParams::new();
    let mut prover = Prover::new(5, 7, params);
    let r = prover.round1_with_nonces(11, 13);
    let verifier = Verifier::new(prover.pk(), params);
    let c: u128 = 29;
    let (z, z_blind) = prover.round3(c).unwrap();
    assert!(verifier.verify(r, c, z, z_blind));
    assert!(!verifier.verify(r + 1, c, z, z_blind));
    assert!(!verifier.verify(r, c + 1, z, z_blind));
    assert!(!verifier.verify(r, c, z + 1, z_blind));
    assert!(!verifier.verify(r, c, z, z_blind + 1));
    // Adding a multiple of p to R changes nothing modulo p.
    assert!(verifier.verify(r + 467, c, z, z_blind));
}

#[test]
fn verify_is_deterministic() {
    let params = PedersenParams::new();
    let verifier = Verifier::new(401, params);
    for c in 1..30u128 {
        let first = verifier.verify(102, c, 11 + 5 * c, 13 + 7 * c);
        assert_eq!(first, verifier.verify(102, c, 11 + 5 * c, 13 + 7 * c));
        assert!(first);
        assert_eq!(
            verifier.verify(102, c, 12 + 5 * c, 13 + 7 * c),
            verifier.verify(102, c, 12 + 5 * c, 13 + 7 * c)
        );
    }
}

#[test]
fn cheating_prover_passes_for_at_most_one_challenge() {
    let params = PedersenParams::new();
    let verifier = Verifier::new(401, params);
    for (r, z, z_blind) in [(100u128, 50u128, 60u128), (1, 1, 1), (466, 300, 20), (37, 0, 0)] {
        let accepted = (1..467u128).filter(|&c| verifier.verify(r, c, z, z_blind)).count();
        assert!(accepted <= 1);
    }
    let accepted = (1..467u128).filter(|&c| verifier.verify(100, c, 50, 60)).count();
    assert_eq!(accepted, 1);
}

#[test]
fn round3_before_round1_fails() {
    let prover = Prover::new(5, 7, PedersenParams::new());
    assert_eq!(prover.round3(3), Err(ProverError::MissingFirstRound));
}

#[test]
fn round3_reports_overflow() {
    let p: u128 = 1 << 64;
    let params = PedersenParams::try_new(p, 5, 7).unwrap();
    let mut prover = Prover::new(p - 1, 2, params);
    prover.round1_with_nonces(p - 1, 1);
    assert_eq!(prover.round3(u128::MAX), Err(ProverError::ResponseOverflow));
    assert_eq!(prover.round3(p - 1), Ok(((p - 1) + (p - 1) * (p - 1), 1 + 2 * (p - 1))));
}

#[test]
fn drawn_values_stay_in_range() {
    let params = PedersenParams::new();
    let verifier = Verifier::new(401, params);
    let mut prover = Prover::new(5, 7, params);
    let mut challenges = Vec::new();
    for _ in 0..200 {
        let c = verifier.round2();
        assert!(1 <= c && c < 467);
        challenges.push(c);
        let r = prover.round1();
        assert!(1 <= r && r < 467);
        assert!(commit(5, c, &params) < 467);
    }
    assert!(challenges.iter().any(|&c| c != challenges[0]));
}
