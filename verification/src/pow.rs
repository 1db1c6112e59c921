//! Proofs of work: a memory-hard one for admission to the network, and puzzles
//! for introductions to a service.

use crate::bytes;
use crate::bytes::{append, push_le};
use crate::cert::{CertBits, PhiCert};
use crate::clock;
use crate::clock::is_now;
use crate::crypto;
use crate::crypto::{random_32, sha256};
use crate::errors;
use crate::errors::Error;
use crate::text;
use crate::text::{chars_of, hex_decode, hex_encode, str_eq};
use argon2::{PasswordHasher, PasswordVerifier};
use std::collections::VecDeque;
use vstd::prelude::*;

verus! {

/// Cost parameters of the admission proof: memory in KiB, passes, lanes.
pub struct ArgonParams {
    pub m_cost: u32,
    pub t_cost: u32,
    pub p_cost: u32,
}

impl ArgonParams {
    /// The costs for a certificate of this size.
    pub fn for_cert(bits: CertBits) -> (r: Self)
        ensures
            r == argon_params(bits),
    {
        match bits {
            CertBits::B256 => ArgonParams { m_cost: 65_536, t_cost: 3, p_cost: 1 },
            CertBits::B512 => ArgonParams { m_cost: 262_144, t_cost: 4, p_cost: 1 },
            CertBits::B1024 => ArgonParams { m_cost: 1_048_576, t_cost: 5, p_cost: 2 },
            CertBits::B2048 => ArgonParams { m_cost: 4_194_304, t_cost: 6, p_cost: 4 },
        }
    }
}

/// The costs of the admission proof: each size of certificate costs four times
/// the memory of the one below it, and one more pass.
pub open spec fn argon_params(bits: CertBits) -> ArgonParams {
    match bits {
        CertBits::B256 => ArgonParams { m_cost: 65_536, t_cost: 3, p_cost: 1 },
        CertBits::B512 => ArgonParams { m_cost: 262_144, t_cost: 4, p_cost: 1 },
        CertBits::B1024 => ArgonParams { m_cost: 1_048_576, t_cost: 5, p_cost: 2 },
        CertBits::B2048 => ArgonParams { m_cost: 4_194_304, t_cost: 6, p_cost: 4 },
    }
}

/// A solved admission proof.
#[derive(Debug, Clone)]
pub struct AdmissionPoW {
    pub hash: String,
    pub salt: String,
    pub m_cost: u32,
    pub t_cost: u32,
    pub p_cost: u32,
}

/// The stated costs are valid, and the password hash `hash` is one of `pass`.
pub uninterp spec fn argon2_accepts(
    pass: Seq<u8>,
    m_cost: u32,
    t_cost: u32,
    p_cost: u32,
    hash: Seq<char>,
) -> bool;

/// Costs that Argon2 can be run at: at least eight kibibytes for each of one to
/// 2^24 - 1 lanes, and at least one pass.
pub open spec fn costs_valid(p: ArgonParams) -> bool {
    p.m_cost >= 8 && p.m_cost >= 8 * p.p_cost && p.t_cost >= 1 && 1 <= p.p_cost <= 0xff_ffff
}

/// A hundred million lanes or more are asked for at `i`: `p=` and nine digits.
pub open spec fn many_lanes_at(hash: Seq<char>, i: int) -> bool {
    &&& hash[i] == 'p'
    &&& hash[i + 1] == '='
    &&& forall|k: int| 2 <= k < 11 ==> '0' <= #[trigger] hash[i + k] <= '9'
}

/// The password hash asks for a hundred million lanes or more, which is more than
/// Argon2 can have.
pub open spec fn asks_many_lanes(hash: Seq<char>) -> bool {
    exists|i: int| 0 <= i && i + 11 <= hash.len() && #[trigger] many_lanes_at(hash, i)
}

/// Whether the password hash asks for a hundred million lanes or more.
fn check_lanes(hash: &str) -> (r: bool)
    ensures
        r == asks_many_lanes(hash@),
{
    let v: Vec<char> = chars_of(hash);
    let n: usize = v.len();
    let mut i: usize = 0;
    while i < n && n - i >= 11
        invariant
            v@ == hash@,
            n == v@.len(),
            i <= n,
            forall|j: int| 0 <= j < i ==> !#[trigger] many_lanes_at(v@, j),
        decreases n - i,
    {
        if v[i] == 'p' && v[i + 1] == '=' {
            let mut k: usize = 2;
            while k < 11 && '0' <= v[i + k] && v[i + k] <= '9'
                invariant
                    2 <= k <= 11,
                    i + 11 <= n,
                    n == v@.len(),
                    forall|j: int| 2 <= j < k ==> '0' <= #[trigger] v@[i + j] <= '9',
                decreases 11 - k,
            {
                k += 1;
            }
            if k == 11 {
                assert(many_lanes_at(v@, i as int));
                return true;
            }
            assert(!('0' <= v@[i + k] <= '9'));
        }
        i += 1;
    }
    false
}

/// `argon2::Argon2::hash_password` with Argon2id, version 0x13, the given costs
/// and a fresh salt. It succeeds if and only if the costs are valid and the password
/// is no longer than 2^32 - 1 bytes. The hash it returns is one that verifies and
/// names the lanes it was computed with, of which there are at most 2^24 - 1; the
/// salt is random, so nothing else is known of the two, nor of the text of an error.
#[verifier::external_body]
fn argon2_hash(pass: &[u8], p: &ArgonParams) -> (r: Result<(String, String), String>)
    requires
        p.p_cost < 0x2000_0000,
    ensures
        r is Ok == (costs_valid(*p) && pass@.len() <= 0xffff_ffff),
        r matches Ok((hash, salt)) ==> argon2_accepts(pass@, p.m_cost, p.t_cost, p.p_cost, hash@)
            && !asks_many_lanes(hash@),
{
    let mut rng = argon2::password_hash::rand_core::OsRng;
    let salt = argon2::password_hash::SaltString::generate(&mut rng);
    let params = argon2::Params::new(p.m_cost, p.t_cost, p.p_cost, None).map_err(|e| e.to_string())?;
    let argon = argon2::Argon2::new(argon2::Algorithm::Argon2id, argon2::Version::V0x13, params);
    let hash = argon.hash_password(pass, &salt).map_err(|e| e.to_string())?.to_string();
    Ok((hash, salt.to_string()))
}

/// `argon2::Argon2::verify_password`: whether the costs are valid and `hash` is a
/// password hash of `pass`. The verdict depends on the arguments alone. Numbers of
/// lanes whose eightfold is more than 32 bits are left out, as an argument and in
/// the text of the hash.
#[verifier::external_body]
fn argon2_verify(pass: &[u8], m_cost: u32, t_cost: u32, p_cost: u32, hash: &str) -> (r: bool)
    requires
        p_cost < 0x2000_0000,
        !asks_many_lanes(hash@),
    ensures
        r == argon2_accepts(pass@, m_cost, t_cost, p_cost, hash@),
{
    let Ok(params) = argon2::Params::new(m_cost, t_cost, p_cost, None) else { return false };
    let argon = argon2::Argon2::new(argon2::Algorithm::Argon2id, argon2::Version::V0x13, params);
    let Ok(parsed) = argon2::PasswordHash::new(hash) else { return false };
    argon.verify_password(pass, &parsed).is_ok()
}

/// The bytes of a certificate that the admission proof is over.
pub open spec fn cert_bytes(cert: PhiCert) -> Seq<u8> {
    (cert.j@ + cert.phi@).push(cert.mu).push(cert.dr).push(2u8)
}

/// The bytes of a certificate that the admission proof is over.
pub fn cert_canonical_bytes(cert: &PhiCert) -> (r: Vec<u8>)
    ensures
        r@ == cert_bytes(*cert),
{
    let mut b: Vec<u8> = Vec::new();
    append(&mut b, &cert.j);
    append(&mut b, &cert.phi);
    b.push(cert.mu);
    b.push(cert.dr);
    b.push(2u8);
    assert(b@ =~= cert_bytes(*cert));
    b
}

/// The proof `pow` is one of the certificate `cert`: it asks for no more lanes than
/// Argon2 can have, and Argon2 accepts it.
pub open spec fn admits(cert: PhiCert, pow: AdmissionPoW) -> bool {
    pow.p_cost <= 0xff_ffff && !asks_many_lanes(pow.hash@) && argon2_accepts(
        cert_bytes(cert),
        pow.m_cost,
        pow.t_cost,
        pow.p_cost,
        pow.hash@,
    )
}

/// Argon2 gives this hash of `pass` at these costs, with this salt: what a call of
/// [`argon2_hash`] returns.
pub closed spec fn argon2_gives(pass: Seq<u8>, p: ArgonParams, hash: String, salt: String) -> bool {
    exists|b: &[u8], q: &ArgonParams|
        b@ == pass && *q == p && #[trigger] call_ensures(argon2_hash, (b, q), Ok((hash, salt)))
}

/// Computes the admission proof of a certificate, at the costs of its size. What
/// it returns is accepted for that certificate.
pub fn solve_admission(cert: &PhiCert) -> (r: Result<AdmissionPoW, Error>)
    ensures
        r is Ok == (cert_bytes(*cert).len() <= 0xffff_ffff),
        r matches Ok(pow) ==> {
            &&& pow.m_cost == argon_params(cert.bits).m_cost
            &&& pow.t_cost == argon_params(cert.bits).t_cost
            &&& pow.p_cost == argon_params(cert.bits).p_cost
            &&& admits(*cert, pow)
            &&& argon2_gives(cert_bytes(*cert), argon_params(cert.bits), pow.hash, pow.salt)
        },
        r matches Err(e) ==> e is PowFailed,
{
    let p: ArgonParams = ArgonParams::for_cert(cert.bits);
    let pass: Vec<u8> = cert_canonical_bytes(cert);
    match argon2_hash(&pass, &p) {
        Ok((hash, salt)) => Ok(
            AdmissionPoW { hash, salt, m_cost: p.m_cost, t_cost: p.t_cost, p_cost: p.p_cost },
        ),
        Err(e) => Err(Error::PowFailed(e)),
    }
}

/// Whether `pow` is an admission proof of the certificate.
pub fn verify_admission(cert: &PhiCert, pow: &AdmissionPoW) -> (r: bool)
    ensures
        r == admits(*cert, *pow),
{
    if pow.p_cost > 0xff_ffff || check_lanes(pow.hash.as_str()) {
        return false;
    }
    let pass: Vec<u8> = cert_canonical_bytes(cert);
    argon2_verify(&pass, pow.m_cost, pow.t_cost, pow.p_cost, pow.hash.as_str())
}

/// The number of leading zero bits of a byte.
pub open spec fn byte_zeros(b: u8) -> nat {
    if b >= 128 {
        0
    } else if b >= 64 {
        1
    } else if b >= 32 {
        2
    } else if b >= 16 {
        3
    } else if b >= 8 {
        4
    } else if b >= 4 {
        5
    } else if b >= 2 {
        6
    } else if b >= 1 {
        7
    } else {
        8
    }
}

/// The number of leading zero bits of a byte string.
pub open spec fn zero_bits(s: Seq<u8>) -> nat
    decreases s.len(),
{
    if s.len() == 0 {
        0
    } else if s[0] != 0 {
        byte_zeros(s[0])
    } else {
        8 + zero_bits(s.skip(1))
    }
}

fn byte_leading_zeros(b: u8) -> (r: usize)
    ensures
        r == byte_zeros(b),
{
    if b >= 128 {
        0
    } else if b >= 64 {
        1
    } else if b >= 32 {
        2
    } else if b >= 16 {
        3
    } else if b >= 8 {
        4
    } else if b >= 4 {
        5
    } else if b >= 2 {
        6
    } else if b >= 1 {
        7
    } else {
        8
    }
}

/// The number of leading zero bits of a byte string.
pub fn leading_zeros(hash: &[u8]) -> (r: usize)
    requires
        8 * hash@.len() <= usize::MAX,
    ensures
        r == zero_bits(hash@),
{
    let mut n: usize = 0;
    let mut i: usize = 0;
    assert(hash@.skip(0) =~= hash@);
    while i < hash.len()
        invariant
            8 * hash@.len() <= usize::MAX,
            i <= hash@.len(),
            n == 8 * i,
            zero_bits(hash@) == n + zero_bits(hash@.skip(i as int)),
        decreases hash@.len() - i,
    {
        assert(hash@.skip(i as int).skip(1) =~= hash@.skip(i + 1));
        let z: usize = byte_leading_zeros(hash[i]);
        if z < 8 {
            return n + z;
        }
        n = n + z;
        i += 1;
    }
    n
}

/// A puzzle: find a nonce whose hash with the challenge begins with enough zero
/// bits.
#[derive(Debug, Clone)]
pub struct IntroPuzzle {
    /// 32 random bytes in hexadecimal.
    pub challenge: String,
    pub difficulty: u8,
    /// When the puzzle was issued, in Unix seconds.
    pub issued_at: u64,
}

/// An answer to a puzzle.
#[derive(Debug, Clone)]
pub struct IntroPuzzleSolution {
    pub challenge: String,
    pub nonce: u64,
}

/// `nonce` solves the challenge at the difficulty.
pub open spec fn solves(challenge: Seq<u8>, nonce: u64, difficulty: u8) -> bool {
    zero_bits(crypto::sha256_of(challenge + bytes::le_bytes(nonce as nat, 8))) >= difficulty
}

/// Whether `nonce` solves the challenge at the difficulty.
fn is_solution(challenge: &[u8], nonce: u64, difficulty: u8) -> (r: bool)
    ensures
        r == solves(challenge@, nonce, difficulty),
{
    let mut input: Vec<u8> = Vec::new();
    append(&mut input, challenge);
    push_le(&mut input, nonce, 8);
    assert(input@ =~= challenge@ + bytes::le_bytes(nonce as nat, 8));
    let digest: [u8; 32] = sha256(&input);
    leading_zeros(digest.as_slice()) >= difficulty as usize
}

impl IntroPuzzle {
    /// The puzzle accepts the answer.
    pub open spec fn accepts(self, sol: IntroPuzzleSolution) -> bool {
        sol.challenge@ == self.challenge@ && text::is_hex(self.challenge@) && solves(
            text::unhex(self.challenge@),
            sol.nonce,
            self.difficulty,
        )
    }

    /// The puzzle was issued less than two minutes before `now`.
    pub open spec fn fresh_at(self, now: u64) -> bool {
        now - self.issued_at < 120
    }

    /// A fresh puzzle.
    pub fn generate(difficulty: u8) -> (r: Self)
        ensures
            r.difficulty == difficulty,
            text::is_hex(r.challenge@),
            r.challenge@.len() == 64,
            crypto::is_random(text::unhex(r.challenge@)),
            is_now(r.issued_at),
    {
        let ch: [u8; 32] = random_32();
        let now: u64 = clock::now();
        proof {
            text::lemma_hex_roundtrip(ch@);
        }
        IntroPuzzle { challenge: hex_encode(ch.as_slice()), difficulty, issued_at: now }
    }

    /// Solves the puzzle by trying nonces in turn.
    pub fn solve(&self) -> (r: Result<IntroPuzzleSolution, Error>)
        ensures
            match r {
                Ok(sol) => self.accepts(sol) && forall|n: u64|
                    n < sol.nonce ==> !#[trigger] solves(
                        text::unhex(self.challenge@),
                        n,
                        self.difficulty,
                    ),
                Err(e) => if text::is_hex(self.challenge@) {
                    errors::is_pow_failed(r, "exhausted"@) && forall|n: u64|
                        !#[trigger] solves(text::unhex(self.challenge@), n, self.difficulty)
                } else {
                    errors::is_pow_failed(r, text::hex_error_text(self.challenge@))
                },
            },
    {
        let cb: Vec<u8> = match hex_decode(self.challenge.as_str()) {
            Ok(v) => v,
            Err(e) => {
                return Err(Error::PowFailed(e));
            },
        };
        let mut nonce: u64 = 0;
        loop
            invariant
                text::is_hex(self.challenge@),
                cb@ == text::unhex(self.challenge@),
                forall|n: u64| n < nonce ==> !#[trigger] solves(cb@, n, self.difficulty),
            decreases u64::MAX - nonce,
        {
            if is_solution(&cb, nonce, self.difficulty) {
                return Ok(IntroPuzzleSolution { challenge: self.challenge.clone(), nonce });
            }
            if nonce == u64::MAX {
                assert forall|n: u64| !#[trigger] solves(cb@, n, self.difficulty) by {
                    if n < nonce {
                    } else {
                        assert(n == nonce);
                    }
                }
                return Err(Error::PowFailed("exhausted".to_owned()));
            }
            nonce += 1;
        }
    }

    /// Whether the answer solves this puzzle.
    pub fn verify(&self, sol: &IntroPuzzleSolution) -> (r: bool)
        ensures
            r == self.accepts(*sol),
    {
        if !str_eq(sol.challenge.as_str(), self.challenge.as_str()) {
            return false;
        }
        match hex_decode(self.challenge.as_str()) {
            Ok(cb) => is_solution(&cb, sol.nonce, self.difficulty),
            Err(_) => false,
        }
    }

    /// Whether the puzzle was issued less than two minutes ago.
    pub fn is_fresh(&self) -> (r: bool)
        ensures
            exists|now: u64| is_now(now) && r == #[trigger] self.fresh_at(now),
    {
        let now: u64 = clock::now();
        self.is_fresh_at(now)
    }

    /// Whether the puzzle was issued less than two minutes before `now`.
    pub fn is_fresh_at(&self, now: u64) -> (r: bool)
        ensures
            r == self.fresh_at(now),
    {
        now.saturating_sub(self.issued_at) < 120
    }
}

/// The lowest difficulty that the controller sets.
pub const MIN_DIFFICULTY: u8 = 12;

/// The highest difficulty that the controller sets.
pub const MAX_DIFFICULTY: u8 = 28;

/// The controller's window, in nanoseconds.
pub const WINDOW_NANOS: u64 = 10_000_000_000;

/// Sets the puzzles' difficulty by the rate of requests over the last ten
/// seconds.
pub struct PuzzleController {
    /// The rate to hold, in thousandths of a request per second.
    pub target_mrps: u64,
    pub difficulty: u8,
    recent: VecDeque<u64>,
}

/// `s` without the leading times before `cutoff`.
pub open spec fn from_cutoff(s: Seq<u64>, cutoff: u64) -> Seq<u64>
    decreases s.len(),
{
    if s.len() > 0 && s[0] < cutoff {
        from_cutoff(s.skip(1), cutoff)
    } else {
        s
    }
}

/// The start of the window that ends at `now`.
pub open spec fn window_start(now: u64) -> u64 {
    if now >= WINDOW_NANOS {
        (now - WINDOW_NANOS) as u64
    } else {
        0
    }
}

/// The difficulty after `n` requests in the window: two up when the rate is more
/// than twice the target, one up when it is above, one down when it is below
/// half; within the bounds.
pub open spec fn adjusted(difficulty: u8, n: nat, target_mrps: u64) -> u8 {
    if 100 * n > 2 * target_mrps {
        if difficulty + 2 > MAX_DIFFICULTY {
            MAX_DIFFICULTY
        } else {
            (difficulty + 2) as u8
        }
    } else if 100 * n > target_mrps {
        if difficulty + 1 > MAX_DIFFICULTY {
            MAX_DIFFICULTY
        } else {
            (difficulty + 1) as u8
        }
    } else if 200 * n < target_mrps {
        if difficulty <= MIN_DIFFICULTY {
            MIN_DIFFICULTY
        } else {
            (difficulty - 1) as u8
        }
    } else {
        difficulty
    }
}

/// A difficulty within the bounds stays within them.
pub proof fn law_difficulty_stays_within_bounds(difficulty: u8, n: nat, target_mrps: u64)
    requires
        MIN_DIFFICULTY <= difficulty <= MAX_DIFFICULTY,
    ensures
        MIN_DIFFICULTY <= adjusted(difficulty, n, target_mrps) <= MAX_DIFFICULTY,
{
}

impl PuzzleController {
    /// The times of the requests in the window.
    pub closed spec fn times(self) -> Seq<u64> {
        self.recent@
    }

    /// The rate to hold.
    pub closed spec fn target(self) -> u64 {
        self.target_mrps
    }

    /// The difficulty that is set.
    pub closed spec fn level(self) -> u8 {
        self.difficulty
    }

    /// A controller that holds the rate `target_mrps`.
    pub fn new(target_mrps: u64) -> (r: Self)
        ensures
            r.target() == target_mrps,
            r.level() == 16,
            r.times().len() == 0,
    {
        PuzzleController { target_mrps, difficulty: 16, recent: VecDeque::new() }
    }

    /// Counts a request at the time `now` and sets the difficulty.
    pub fn record_request(&mut self, now: u64) -> (r: u8)
        ensures
            final(self).target() == old(self).target(),
            final(self).times() == from_cutoff(old(self).times().push(now), window_start(now)),
            final(self).level() == adjusted(
                old(self).level(),
                final(self).times().len(),
                old(self).target(),
            ),
            r == final(self).level(),
    {
        self.recent.push_back(now);
        let cutoff: u64 = now.saturating_sub(WINDOW_NANOS);
        let ghost all = self.recent@;
        while self.recent.len() > 0 && self.recent[0] < cutoff
            invariant
                from_cutoff(all, cutoff) == from_cutoff(self.recent@, cutoff),
                self.target_mrps == old(self).target_mrps,
                self.difficulty == old(self).difficulty,
            decreases self.recent@.len(),
        {
            let ghost s = self.recent@;
            let _gone: Option<u64> = self.recent.pop_front();
            assert(self.recent@ =~= s.skip(1));
        }
        let n: u128 = self.recent.len() as u128;
        let target: u128 = self.target_mrps as u128;
        if 100 * n > 2 * target {
            let d: u8 = self.difficulty.saturating_add(2);
            self.difficulty = if d > MAX_DIFFICULTY {
                MAX_DIFFICULTY
            } else {
                d
            };
        } else if 100 * n > target {
            let d: u8 = self.difficulty.saturating_add(1);
            self.difficulty = if d > MAX_DIFFICULTY {
                MAX_DIFFICULTY
            } else {
                d
            };
        } else if 200 * n < target {
            let d: u8 = self.difficulty.saturating_sub(1);
            self.difficulty = if d < MIN_DIFFICULTY {
                MIN_DIFFICULTY
            } else {
                d
            };
        }
        self.difficulty
    }
}

/// The `i`-th bit of a byte string, the highest of the first byte first.
pub open spec fn bit_at(s: Seq<u8>, i: int) -> u8 {
    (s[i / 8] >> ((7 - i % 8) as u8)) & 1
}

proof fn lemma_byte_bits(b: u8)
    ensures
        forall|k: int| 0 <= k < byte_zeros(b) ==> #[trigger] bit_at(seq![b], k) == 0,
        byte_zeros(b) < 8 ==> bit_at(seq![b], byte_zeros(b) as int) == 1,
{
    assert((b < 128 ==> (b >> 7) & 1 == 0) && (b < 64 ==> (b >> 6) & 1 == 0) && (b < 32 ==> (b >> 5) & 1 == 0) && (b < 16
        ==> (b >> 4) & 1 == 0) && (b < 8 ==> (b >> 3) & 1 == 0) && (b < 4 ==> (b >> 2) & 1 == 0) && (b < 2 ==> (b >> 1) & 1
        == 0) && (b < 1 ==> (b >> 0) & 1 == 0)) by (bit_vector);
    assert((b >= 128 ==> (b >> 7) & 1 == 1) && (64 <= b && b < 128 ==> (b >> 6) & 1 == 1) && (32 <= b && b < 64 ==> (b >> 5)
        & 1 == 1) && (16 <= b && b < 32 ==> (b >> 4) & 1 == 1) && (8 <= b && b < 16 ==> (b >> 3) & 1 == 1) && (4 <= b && b
        < 8 ==> (b >> 2) & 1 == 1) && (2 <= b && b < 4 ==> (b >> 1) & 1 == 1) && (b == 1 ==> (b >> 0) & 1 == 1))
        by (bit_vector);
    assert(seq![b][0] == b);
    assert forall|k: int| 0 <= k < byte_zeros(b) implies #[trigger] bit_at(seq![b], k) == 0 by {
        assert(k == 0 || k == 1 || k == 2 || k == 3 || k == 4 || k == 5 || k == 6 || k == 7);
    }
}

proof fn lemma_zero_bits(s: Seq<u8>)
    ensures
        zero_bits(s) <= 8 * s.len(),
        forall|k: int| 0 <= k < zero_bits(s) ==> #[trigger] bit_at(s, k) == 0,
        zero_bits(s) < 8 * s.len() ==> bit_at(s, zero_bits(s) as int) == 1,
    decreases s.len(),
{
    if s.len() > 0 {
        lemma_byte_bits(s[0]);
        let t = s.skip(1);
        lemma_zero_bits(t);
        if s[0] != 0 {
            let n = byte_zeros(s[0]) as int;
            assert forall|k: int| 0 <= k < n implies #[trigger] bit_at(s, k) == 0 by {
                assert(bit_at(seq![s[0]], k) == 0);
            }
            assert(bit_at(seq![s[0]], n) == 1);
        } else {
            assert forall|k: int| 0 <= k < zero_bits(s) implies #[trigger] bit_at(s, k) == 0 by {
                if k < 8 {
                    assert(bit_at(seq![s[0]], k) == 0);
                } else {
                    assert(bit_at(t, k - 8) == 0);
                    assert(t[(k - 8) / 8] == s[k / 8]);
                    assert((k - 8) % 8 == k % 8);
                }
            }
            if zero_bits(s) < 8 * s.len() {
                let n = zero_bits(s) as int;
                assert(bit_at(t, n - 8) == 1);
                assert(t[(n - 8) / 8] == s[n / 8]);
                assert((n - 8) % 8 == n % 8);
            }
        }
    }
}

/// The leading zeros of a hash are counted: every bit before that many is zero, and the
/// next one is not, unless the hash ends there.
pub proof fn law_leading_zeros_are_counted(hash: &[u8], r: usize)
    requires
        8 * hash@.len() <= usize::MAX,
        call_ensures(leading_zeros, (hash,), r),
    ensures
        r <= 8 * hash@.len(),
        forall|k: int| 0 <= k < r ==> #[trigger] bit_at(hash@, k) == 0,
        r < 8 * hash@.len() ==> bit_at(hash@, r as int) == 1,
{
    lemma_zero_bits(hash@);
}

/// The solution that is found is accepted, by the puzzle it was found for and by no puzzle
/// with another challenge; where none is found, no solution would be accepted.
pub proof fn law_solutions_are_accepted(
    p: IntroPuzzle,
    sol: IntroPuzzleSolution,
    accepted: bool,
    other: IntroPuzzle,
    elsewhere: bool,
    e: Error,
    hopeless: IntroPuzzle,
    any: IntroPuzzleSolution,
    never: bool,
)
    requires
        call_ensures(IntroPuzzle::solve, (&p,), Ok(sol)),
        call_ensures(IntroPuzzle::verify, (&p, &sol), accepted),
        other.challenge@ != p.challenge@,
        call_ensures(IntroPuzzle::verify, (&other, &sol), elsewhere),
        call_ensures(IntroPuzzle::solve, (&hopeless,), Err(e)),
        call_ensures(IntroPuzzle::verify, (&hopeless, &any), never),
    ensures
        accepted,
        !elsewhere,
        !never,
{
}

/// An accepted solution's hash begins with as many zero bits as the puzzle asks for.
pub proof fn law_accepted_solutions_did_the_work(p: IntroPuzzle, sol: IntroPuzzleSolution, r: bool, k: int)
    requires
        call_ensures(IntroPuzzle::verify, (&p, &sol), r),
        r,
        0 <= k < p.difficulty,
    ensures
        ({
            let hash = crypto::sha256_of(text::unhex(p.challenge@) + bytes::le_bytes(sol.nonce as nat, 8));
            k < 8 * hash.len() ==> bit_at(hash, k) == 0
        }),
        sol.challenge@ == p.challenge@,
{
    lemma_zero_bits(crypto::sha256_of(text::unhex(p.challenge@) + bytes::le_bytes(sol.nonce as nat, 8)));
}

/// A puzzle is good for two minutes from when it was issued.
pub proof fn law_puzzles_are_good_for_two_minutes(p: IntroPuzzle, now: u64, r: bool, by_clock: bool)
    requires
        call_ensures(IntroPuzzle::is_fresh_at, (&p, now), r),
        call_ensures(IntroPuzzle::is_fresh, (&p,), by_clock),
    ensures
        r <==> now < p.issued_at + 120,
        exists|t: u64| #[trigger] is_now(t) && (by_clock <==> t < p.issued_at + 120),
{
    let t = choose|t: u64| is_now(t) && by_clock == #[trigger] p.fresh_at(t);
    assert(is_now(t));
}

/// A certificate admits the node that did the work for it: what was solved for a
/// certificate is accepted for it.
pub proof fn law_solved_admissions_are_accepted(cert: PhiCert, pow: AdmissionPoW, r: bool)
    requires
        call_ensures(solve_admission, (&cert,), Ok(pow)),
        call_ensures(verify_admission, (&cert, &pow), r),
    ensures
        r,
{
}

/// The larger a certificate, the more its admission costs: in memory, passes and lanes.
pub proof fn law_larger_certificates_cost_more(a: ArgonParams, b: ArgonParams, c: ArgonParams, d: ArgonParams)
    requires
        call_ensures(ArgonParams::for_cert, (CertBits::B256,), a),
        call_ensures(ArgonParams::for_cert, (CertBits::B512,), b),
        call_ensures(ArgonParams::for_cert, (CertBits::B1024,), c),
        call_ensures(ArgonParams::for_cert, (CertBits::B2048,), d),
    ensures
        a.m_cost == 64 * 1024,
        b.m_cost == 4 * a.m_cost && c.m_cost == 4 * b.m_cost && d.m_cost == 4 * c.m_cost,
        a.t_cost == 3 && b.t_cost == a.t_cost + 1 && c.t_cost == b.t_cost + 1 && d.t_cost == c.t_cost + 1,
        a.p_cost == 1 && b.p_cost == 1 && c.p_cost == 2 && d.p_cost == 4,
{
}

proof fn lemma_from_cutoff(s: Seq<u64>, cutoff: u64)
    ensures
        from_cutoff(s, cutoff).len() <= s.len(),
        from_cutoff(s, cutoff) == s.skip(s.len() - from_cutoff(s, cutoff).len()),
        from_cutoff(s, cutoff).len() > 0 ==> from_cutoff(s, cutoff)[0] >= cutoff,
        forall|i: int| 0 <= i < s.len() - from_cutoff(s, cutoff).len() ==> #[trigger] s[i] < cutoff,
    decreases s.len(),
{
    if s.len() > 0 && s[0] < cutoff {
        lemma_from_cutoff(s.skip(1), cutoff);
        let r = from_cutoff(s.skip(1), cutoff);
        assert(s.skip(s.len() - r.len()) =~= s.skip(1).skip(s.skip(1).len() - r.len()));
        assert forall|i: int| 0 <= i < s.len() - r.len() implies #[trigger] s[i] < cutoff by {
            if i > 0 {
                assert(s.skip(1)[i - 1] < cutoff);
            }
        }
    } else {
        assert(s.skip(0) =~= s);
    }
}

/// The difficulty follows the requests of the last ten seconds: above the rate wanted it
/// rises by one, above twice that by two, below half of it it falls by one, and it never
/// leaves its bounds. Requests that are older are forgotten, from the oldest on, and none
/// other.
pub proof fn law_difficulty_follows_the_requests(
    before: PuzzleController,
    after: PuzzleController,
    now: u64,
    r: u8,
)
    requires
        12 <= before.level() <= 28,
        exists|c: &mut PuzzleController|
            *c == before && *final(c) == after && #[trigger] call_ensures(
                PuzzleController::record_request,
                (c, now),
                r,
            ),
    ensures
        12 <= r <= 28,
        r == after.level(),
        ({
            let n = after.times().len();
            let rate = 100 * n;
            &&& rate > 2 * before.target() && before.level() <= 26 ==> r == before.level() + 2
            &&& rate > before.target() && rate <= 2 * before.target() && before.level() <= 27 ==> r == before.level() + 1
            &&& rate > before.target() && before.level() == 28 ==> r == 28
            &&& 2 * rate < before.target() && before.level() > 12 ==> r == before.level() - 1
            &&& rate <= before.target() && 2 * rate >= before.target() ==> r == before.level()
        }),
        ({
            let all = before.times().push(now);
            let gone = all.len() - after.times().len();
            &&& 0 <= gone
            &&& after.times() == all.skip(gone)
            &&& forall|i: int| 0 <= i < gone ==> #[trigger] all[i] + 10_000_000_000 < now
            &&& gone < all.len() ==> all[gone] + 10_000_000_000 >= now
        }),
{
    let all = before.times().push(now);
    lemma_from_cutoff(all, window_start(now));
    let gone = all.len() - after.times().len();
    if gone < all.len() {
        assert(after.times()[0] == all[gone]);
    }
}

/// The admission proof of a certificate is over its numbers, in order, and the version.
pub proof fn law_what_admission_is_over(cert: PhiCert, r: Vec<u8>)
    requires
        call_ensures(cert_canonical_bytes, (&cert,), r),
    ensures
        r@ == cert.j@ + cert.phi@ + seq![cert.mu, cert.dr, 2u8],
{
    assert(r@ =~= cert.j@ + cert.phi@ + seq![cert.mu, cert.dr, 2u8]);
}

/// A service starts with sixteen zero bits, and with nothing to count.
pub proof fn law_where_the_difficulty_starts(target: u64, c: PuzzleController)
    requires
        call_ensures(PuzzleController::new, (target,), c),
    ensures
        c.level() == 16,
        c.target() == target,
        c.times().len() == 0,
{
}

/// A puzzle is fresh and hard to foresee: its challenge is 32 random bytes, and it was issued
/// when the clock says.
pub proof fn law_puzzles_are_fresh(difficulty: u8, p: IntroPuzzle)
    requires
        call_ensures(IntroPuzzle::generate, (difficulty,), p),
    ensures
        p.difficulty == difficulty,
        text::unhex(p.challenge@).len() == 32,
        crypto::is_random(text::unhex(p.challenge@)),
        is_now(p.issued_at),
{
}

} // verus!
