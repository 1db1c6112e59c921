use argon2::password_hash::SaltString;
use argon2::{Algorithm, Argon2, Params, PasswordHasher, Version};
use phinet_core::cert::{CertBits, PhiCert};
use phinet_core::errors::Error;
use phinet_core::pow::{
    cert_canonical_bytes, leading_zeros, solve_admission, verify_admission, AdmissionPoW,
    ArgonParams, IntroPuzzle, IntroPuzzleSolution, PuzzleController, MAX_DIFFICULTY,
    MIN_DIFFICULTY,
};
use sha2::{Digest, Sha256};

fn cert() -> PhiCert {
    PhiCert { bits: CertBits::B256, j: vec![0xab; 32], phi: vec![0xcd; 32], mu: 3, dr: 1 }
}

#[test]
fn intro_puzzle_solve_verify() {
    let p = IntroPuzzle::generate(10);
    let sol = p.solve().unwrap();
    assert!(p.verify(&sol));
}

fn solution_digest(challenge: &str, nonce: u64) -> Vec<u8> {
    let mut h = Sha256::new();
    h.update(hex::decode(challenge).unwrap());
    h.update(nonce.to_le_bytes());
    h.finalize().to_vec()
}

#[test]
fn intro_puzzle_wrong_nonce() {
    loop {
        let p = IntroPuzzle::generate(10);
        let mut sol = p.solve().unwrap();
        sol.nonce += 1;
        // One nonce in 1024 is a solution: where the next one is, draw again.
        let digest = solution_digest(&p.challenge, sol.nonce);
        if digest[0] == 0 && digest[1] < 64 {
            continue;
        }
        assert!(!p.verify(&sol));
        return;
    }
}

#[test]
fn controller_adjusts() {
    let mut c = PuzzleController::new(10_000);
    let init = c.difficulty;
    for i in 0..500u64 {
        c.record_request(1_000_000_000 + i);
    }
    assert!(c.difficulty > init);
}

#[test]
fn a_solution_hashes_to_enough_zero_bits() {
    let p = IntroPuzzle::generate(9);
    assert_eq!(p.challenge.len(), 64);
    let sol = p.solve().unwrap();
    assert_eq!(sol.challenge, p.challenge);
    let digest = solution_digest(&p.challenge, sol.nonce);
    assert_eq!(digest[0], 0);
    assert!(digest[1] < 128);
    // The nonces are tried in turn, so every smaller one fails.
    for nonce in 0..sol.nonce {
        assert!(leading_zeros(&solution_digest(&p.challenge, nonce)) < 9);
    }
}

#[test]
fn an_answer_to_another_puzzle_is_refused() {
    let p = IntroPuzzle::generate(0);
    let q = IntroPuzzle::generate(0);
    let sol = p.solve().unwrap();
    assert_eq!(sol.nonce, 0);
    assert!(p.verify(&sol));
    assert!(!q.verify(&sol));
}

#[test]
fn a_puzzle_with_a_broken_challenge_cannot_be_solved() {
    let p = IntroPuzzle { challenge: "xyz".into(), difficulty: 0, issued_at: 0 };
    assert!(matches!(p.solve(), Err(Error::PowFailed(_))));
    assert!(!p.verify(&IntroPuzzleSolution { challenge: "xyz".into(), nonce: 0 }));
}

#[test]
fn puzzles_go_stale_after_two_minutes() {
    let p = IntroPuzzle { challenge: "00".into(), difficulty: 0, issued_at: 1_000 };
    assert!(p.is_fresh_at(1_119));
    assert!(!p.is_fresh_at(1_120));
    assert!(p.is_fresh_at(10));
    assert!(!p.is_fresh());
    assert!(IntroPuzzle::generate(1).is_fresh());
}

#[test]
fn leading_zero_bits_are_counted_across_bytes() {
    assert_eq!(leading_zeros(&[]), 0);
    assert_eq!(leading_zeros(&[0xff, 0]), 0);
    assert_eq!(leading_zeros(&[0x01, 0]), 7);
    assert_eq!(leading_zeros(&[0, 0x10]), 11);
    assert_eq!(leading_zeros(&[0, 0, 0]), 24);
}

#[test]
fn the_difficulty_follows_the_rate() {
    // A target of one request per second is ten in the window.
    let sec = 1_000_000_000u64;
    let mut c = PuzzleController::new(1_000);
    assert_eq!(c.difficulty, 16);
    for i in 0..4u64 {
        assert_eq!(c.record_request(100 * sec + i), 15 - i as u8);
    }
    // From half the target to the target nothing changes.
    for i in 4..10u64 {
        assert_eq!(c.record_request(100 * sec + i), 12);
    }
    for i in 10..20u64 {
        assert_eq!(c.record_request(100 * sec + i), 13 + (i - 10) as u8);
    }
    for i in 20..24u64 {
        assert_eq!(c.record_request(100 * sec + i), (22 + 2 * (i - 19) as u8).min(MAX_DIFFICULTY));
    }
    // Once the window has passed the count starts anew.
    assert_eq!(c.record_request(111 * sec), MAX_DIFFICULTY - 1);
    for i in 0..4u64 {
        c.record_request(200 * sec + 20 * i * sec);
    }
    assert_eq!(c.difficulty, MAX_DIFFICULTY - 5);
    assert_eq!(MIN_DIFFICULTY, 12);
}

#[test]
fn admission_costs_grow_with_the_certificate() {
    let small = ArgonParams::for_cert(CertBits::B256);
    assert_eq!((small.m_cost, small.t_cost, small.p_cost), (65_536, 3, 1));
    let large = ArgonParams::for_cert(CertBits::B2048);
    assert_eq!((large.m_cost, large.t_cost, large.p_cost), (4_194_304, 6, 4));
}

#[test]
fn the_proof_is_over_the_certificate() {
    let mut expected = vec![0xab; 32];
    expected.extend_from_slice(&[0xcd; 32]);
    expected.extend_from_slice(&[3, 1, 2]);
    assert_eq!(cert_canonical_bytes(&cert()), expected);
}

fn cheap_proof(c: &PhiCert) -> AdmissionPoW {
    let params = Params::new(8, 1, 1, None).unwrap();
    let argon = Argon2::new(Algorithm::Argon2id, Version::V0x13, params);
    let salt = SaltString::from_b64("c2FsdHNhbHRzYWx0").unwrap();
    let hash = argon.hash_password(&cert_canonical_bytes(c), &salt).unwrap().to_string();
    AdmissionPoW { hash, salt: salt.to_string(), m_cost: 8, t_cost: 1, p_cost: 1 }
}

#[test]
fn a_proof_admits_its_own_certificate_only() {
    let c = cert();
    let proof = cheap_proof(&c);
    assert!(verify_admission(&c, &proof));
    let mut other = cert();
    other.mu += 1;
    assert!(!verify_admission(&other, &proof));
    let mut broken = cheap_proof(&c);
    broken.hash = "not a hash".into();
    assert!(!verify_admission(&c, &broken));
}

#[test]
fn impossible_costs_admit_nobody() {
    let c = cert();
    let mut proof = cheap_proof(&c);
    proof.m_cost = 7;
    assert!(!verify_admission(&c, &proof));
    proof.m_cost = 8;
    proof.p_cost = 0x2000_0000;
    assert!(!verify_admission(&c, &proof));
    proof.p_cost = 1;
    assert!(verify_admission(&c, &proof));
    proof.hash = proof.hash.replace("p=1", "p=600000000");
    assert!(!verify_admission(&c, &proof));
}

#[test]
fn a_solved_admission_is_accepted() {
    let c = cert();
    let proof = solve_admission(&c).unwrap();
    assert_eq!((proof.m_cost, proof.t_cost, proof.p_cost), (65_536, 3, 1));
    assert!(verify_admission(&c, &proof));
}
