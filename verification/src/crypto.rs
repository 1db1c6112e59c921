//! The cryptographic primitives, each a call into the crate that implements it.

use crate::bytes;
use crate::bytes::{array_32, push_le, read_le64};
use crate::errors::Error;
use vstd::prelude::*;
use vstd::string::*;
use chacha20::cipher::{KeyIvInit, StreamCipher};
use chacha20poly1305::aead::{Aead, KeyInit, Payload};
use ed25519_dalek::{Signer, Verifier};
use hmac::Mac;
use rand::RngCore;
use sha2::Digest;
use zeroize::Zeroize;

verus! {

/// The longest text that one cipher call takes: the keystream of a key and a
/// nonce ends short of 256 GiB.
pub open spec fn cipher_limit() -> nat {
    0x3f_ffff_0000
}

/// The SHA-256 digest of a byte string.
pub uninterp spec fn sha256_of(data: Seq<u8>) -> Seq<u8>;

/// `sha2::Sha256::digest`: the digest depends on the data alone.
#[verifier::external_body]
pub(crate) fn sha256(data: &[u8]) -> (r: [u8; 32])
    ensures
        r@ == sha256_of(data@),
{
    sha2::Sha256::digest(data).into()
}

/// The HMAC-SHA256 tag of `data` under `key`.
pub uninterp spec fn hmac_of(key: Seq<u8>, data: Seq<u8>) -> Seq<u8>;

/// `hmac::Hmac<Sha256>`: keyed with a key of any length, fed the data, finished.
/// The tag depends on the key and the data alone.
#[verifier::external_body]
pub(crate) fn hmac_sha256(key: &[u8], data: &[u8]) -> (r: [u8; 32])
    ensures
        r@ == hmac_of(key@, data@),
{
    let mut mac = <hmac::Hmac<sha2::Sha256> as Mac>::new_from_slice(key).expect("any key length");
    mac.update(data);
    mac.finalize().into_bytes().into()
}

/// The pseudorandom key that HKDF-SHA256 extracts.
pub uninterp spec fn hkdf_extract_of(salt: Seq<u8>, ikm: Seq<u8>) -> Seq<u8>;

/// `hkdf::Hkdf<Sha256>::extract`: the pseudorandom key depends on the salt and
/// the keying material alone.
#[verifier::external_body]
pub(crate) fn hkdf_extract(salt: &[u8], ikm: &[u8]) -> (r: [u8; 32])
    ensures
        r@ == hkdf_extract_of(salt@, ikm@),
{
    hkdf::Hkdf::<sha2::Sha256>::extract(Some(salt), ikm).0.into()
}

/// The `len` bytes that HKDF-SHA256 expands from a pseudorandom key.
pub uninterp spec fn hkdf_expand_of(prk: Seq<u8>, info: Seq<u8>, len: nat) -> Seq<u8>;

/// `hkdf::Hkdf<Sha256>::expand`, from a key of the hash's own length: as many
/// bytes as asked for, at most 255 blocks of 32.
#[verifier::external_body]
pub(crate) fn hkdf_expand(prk: &[u8; 32], info: &[u8], len: usize) -> (r: Vec<u8>)
    requires
        len <= 8160,
    ensures
        r@.len() == len,
        r@ == hkdf_expand_of(prk@, info@, len as nat),
{
    let mut out = vec![0u8; len];
    let h = hkdf::Hkdf::<sha2::Sha256>::from_prk(prk).expect("a key of 32 bytes");
    h.expand(info, &mut out).expect("at most 255 blocks");
    out
}

/// What extracting and expanding derives from `ikm`.
pub open spec fn hkdf_of(ikm: Seq<u8>, salt: Seq<u8>, info: Seq<u8>, len: nat) -> Seq<u8> {
    hkdf_expand_of(hkdf_extract_of(salt, ikm), info, len)
}

/// Derives `len` bytes of key material from `ikm`.
pub fn hkdf_derive(ikm: &[u8], salt: &[u8], info: &[u8], len: usize) -> (r: Vec<u8>)
    requires
        len <= 8160,
    ensures
        r@.len() == len,
        r@ == hkdf_of(ikm@, salt@, info@, len as nat),
{
    let prk: [u8; 32] = hkdf_extract(salt, ikm);
    hkdf_expand(&prk, info, len)
}

/// `data` with the ChaCha20 keystream of `key` and `nonce` laid over it.
pub uninterp spec fn chacha20_of(key: Seq<u8>, nonce: Seq<u8>, data: Seq<u8>) -> Seq<u8>;

/// `chacha20::ChaCha20::apply_keystream` on a copy of `data`. The keystream is
/// combined by exclusive or, so the length stays and a second application
/// gives the data back.
#[verifier::external_body]
pub(crate) fn chacha20_apply(key: &[u8; 32], nonce: &[u8; 12], data: &[u8]) -> (r: Vec<u8>)
    requires
        data@.len() <= cipher_limit(),
    ensures
        r@.len() == data@.len(),
        r@ == chacha20_of(key@, nonce@, data@),
        chacha20_of(key@, nonce@, r@) == data@,
{
    let mut out = data.to_vec();
    chacha20::ChaCha20::new(key.into(), nonce.into()).apply_keystream(&mut out);
    out
}

/// The ChaCha20-Poly1305 ciphertext of `text`, tag included.
pub uninterp spec fn seal_of(key: Seq<u8>, nonce: Seq<u8>, aad: Seq<u8>, text: Seq<u8>) -> Seq<u8>;

/// What a ChaCha20-Poly1305 ciphertext opens to; nothing when its tag is wrong.
pub uninterp spec fn open_of(key: Seq<u8>, nonce: Seq<u8>, aad: Seq<u8>, sealed: Seq<u8>) -> Option<
    Seq<u8>,
>;

/// `chacha20poly1305::ChaCha20Poly1305::encrypt`: the ciphertext with a tag of
/// 16 bytes behind it, which opens to the text again under the same key,
/// nonce and associated data.
#[verifier::external_body]
fn seal(key: &[u8; 32], nonce: &[u8; 12], aad: &[u8], text: &[u8]) -> (r: Vec<u8>)
    requires
        text@.len() <= cipher_limit(),
    ensures
        r@.len() == text@.len() + 16,
        r@ == seal_of(key@, nonce@, aad@, text@),
        open_of(key@, nonce@, aad@, r@) == Some(text@),
{
    let cipher = chacha20poly1305::ChaCha20Poly1305::new(key.into());
    cipher.encrypt(nonce.into(), Payload { msg: text, aad }).expect("a text below the limit")
}

/// `chacha20poly1305::ChaCha20Poly1305::decrypt`: the text, or nothing when the
/// tag does not match. Both depend on the arguments alone, and the text is as long as what
/// is opened without its tag.
#[verifier::external_body]
fn unseal(key: &[u8; 32], nonce: &[u8; 12], aad: &[u8], sealed: &[u8]) -> (r: Option<Vec<u8>>)
    requires
        sealed@.len() <= cipher_limit(),
    ensures
        r is Some == open_of(key@, nonce@, aad@, sealed@) is Some,
        r matches Some(text) ==> text@ == open_of(key@, nonce@, aad@, sealed@)->0 && text@.len() + 16
            == sealed@.len(),
{
    let cipher = chacha20poly1305::ChaCha20Poly1305::new(key.into());
    cipher.decrypt(nonce.into(), Payload { msg: sealed, aad }).ok()
}

/// The 96-bit nonce of a message counter: four zero bytes and the counter,
/// least significant byte first.
pub open spec fn nonce_of(counter: u64) -> Seq<u8> {
    seq![0u8, 0u8, 0u8, 0u8] + bytes::le_bytes(counter as nat, 8)
}

/// Different counters have different nonces.
pub proof fn lemma_nonces_differ(a: u64, b: u64)
    requires
        a != b,
    ensures
        nonce_of(a) != nonce_of(b),
{
    bytes::lemma_pow256();
    if nonce_of(a) == nonce_of(b) {
        assert(nonce_of(a).skip(4) =~= bytes::le_bytes(a as nat, 8));
        assert(nonce_of(b).skip(4) =~= bytes::le_bytes(b as nat, 8));
        bytes::lemma_le_injective(a as nat, b as nat, 8);
    }
}

/// Lays a message counter out as a 96-bit nonce.
pub fn nonce96(counter: u64) -> (r: [u8; 12])
    ensures
        r@ == nonce_of(counter),
{
    let mut v: Vec<u8> = Vec::new();
    push_le(&mut v, counter, 8);
    proof {
        bytes::lemma_le_bytes_len(counter as nat, 8);
    }
    let r: [u8; 12] = [0u8, 0u8, 0u8, 0u8, v[0], v[1], v[2], v[3], v[4], v[5], v[6], v[7]];
    assert(v@ =~= bytes::le_bytes(counter as nat, 8));
    assert(r@ =~= nonce_of(counter));
    r
}

/// Encrypts and authenticates `text`, and authenticates `aad` with it.
pub fn aead_encrypt(key: &[u8; 32], counter: u64, aad: &[u8], text: &[u8]) -> (r: Vec<u8>)
    requires
        text@.len() <= cipher_limit(),
    ensures
        r@.len() == text@.len() + 16,
        r@ == seal_of(key@, nonce_of(counter), aad@, text@),
        open_of(key@, nonce_of(counter), aad@, r@) == Some(text@),
{
    let nonce: [u8; 12] = nonce96(counter);
    seal(key, &nonce, aad, text)
}

/// Opens what `aead_encrypt` made. A ciphertext whose tag does not match is
/// refused.
pub fn aead_decrypt(key: &[u8; 32], counter: u64, aad: &[u8], sealed: &[u8]) -> (r: Result<
    Vec<u8>,
    Error,
>)
    requires
        sealed@.len() <= cipher_limit(),
    ensures
        r is Ok == open_of(key@, nonce_of(counter), aad@, sealed@) is Some,
        r matches Ok(text) ==> Some(text@) == open_of(key@, nonce_of(counter), aad@, sealed@)
            && text@.len() + 16 == sealed@.len(),
        r matches Err(e) ==> e == Error::AuthFailed,
{
    let nonce: [u8; 12] = nonce96(counter);
    match unseal(key, &nonce, aad, sealed) {
        Some(text) => Ok(text),
        None => Err(Error::AuthFailed),
    }
}

/// The X25519 public key of a secret key.
pub uninterp spec fn x25519_public_of(secret: Seq<u8>) -> Seq<u8>;

/// The X25519 shared secret of a secret key and a peer's public key.
pub uninterp spec fn x25519_of(secret: Seq<u8>, peer: Seq<u8>) -> Seq<u8>;

/// `x25519_dalek::PublicKey::from(&StaticSecret)`: the public key depends on
/// the secret alone.
#[verifier::external_body]
pub(crate) fn x25519_public(secret: &[u8; 32]) -> (r: [u8; 32])
    ensures
        r@ == x25519_public_of(secret@),
{
    x25519_dalek::PublicKey::from(&x25519_dalek::StaticSecret::from(*secret)).to_bytes()
}

/// `x25519_dalek::StaticSecret::diffie_hellman`. With the public key of another
/// secret, the other side gets the same value from its secret and the public
/// key of this one.
#[verifier::external_body]
pub(crate) fn x25519(secret: &[u8; 32], peer: &[u8; 32]) -> (r: [u8; 32])
    ensures
        r@ == x25519_of(secret@, peer@),
        forall|other: Seq<u8>|
            other.len() == 32 && peer@ == #[trigger] x25519_public_of(other) ==> r@ == x25519_of(
                other,
                x25519_public_of(secret@),
            ),
{
    let secret = x25519_dalek::StaticSecret::from(*secret);
    secret.diffie_hellman(&x25519_dalek::PublicKey::from(*peer)).to_bytes()
}

/// The key of one onion layer, from a secret and the peer's public key.
pub open spec fn hop_key_of(secret: Seq<u8>, peer: Seq<u8>) -> Seq<u8> {
    hkdf_of(x25519_of(secret, peer), "phinet-hop-v1".spec_bytes(), "key".spec_bytes(), 32)
}

/// Derives the key of one onion layer. The holder of the secret behind `peer`
/// derives the same from the public key of `secret`.
pub fn derive_hop_key(secret: &[u8; 32], peer: &[u8; 32]) -> (r: [u8; 32])
    ensures
        r@ == hop_key_of(secret@, peer@),
        forall|other: Seq<u8>|
            other.len() == 32 && peer@ == #[trigger] x25519_public_of(other) ==> r@ == hop_key_of(
                other,
                x25519_public_of(secret@),
            ),
{
    let mut shared: [u8; 32] = x25519(secret, peer);
    let km: Vec<u8> = hkdf_derive(
        shared.as_slice(),
        "phinet-hop-v1".as_bytes(),
        "key".as_bytes(),
        32,
    );
    wipe(&mut shared);
    let r: [u8; 32] = array_32(&km, 0);
    assert(r@ =~= km@);
    r
}

/// The Ed25519 public key of a signing key.
pub uninterp spec fn ed25519_public_of(secret: Seq<u8>) -> Seq<u8>;

/// The Ed25519 signature of `message`.
pub uninterp spec fn ed25519_sign_of(secret: Seq<u8>, message: Seq<u8>) -> Seq<u8>;

/// `public` is the encoding of a point of the curve.
pub uninterp spec fn ed25519_is_point(public: Seq<u8>) -> bool;

/// `signature` is a signature of `message` under the key `public`.
pub uninterp spec fn ed25519_verifies(
    public: Seq<u8>,
    message: Seq<u8>,
    signature: Seq<u8>,
) -> bool;

/// `ed25519_dalek::SigningKey::verifying_key`: the public key depends on the
/// secret alone, and is the encoding of a point.
#[verifier::external_body]
pub(crate) fn ed25519_public(secret: &[u8; 32]) -> (r: [u8; 32])
    ensures
        r@ == ed25519_public_of(secret@),
        ed25519_is_point(r@),
{
    ed25519_dalek::SigningKey::from_bytes(secret).verifying_key().to_bytes()
}

/// `ed25519_dalek::SigningKey::sign`: the signature depends on the secret and
/// the message alone, and verifies under the secret's public key.
#[verifier::external_body]
pub(crate) fn ed25519_sign(secret: &[u8; 32], message: &[u8]) -> (r: [u8; 64])
    ensures
        r@ == ed25519_sign_of(secret@, message@),
        ed25519_verifies(ed25519_public_of(secret@), message@, r@),
{
    ed25519_dalek::SigningKey::from_bytes(secret).sign(message).to_bytes()
}

/// `ed25519_dalek::VerifyingKey::from_bytes`: whether the bytes decode to a point.
#[verifier::external_body]
pub(crate) fn ed25519_decodes(public: &[u8; 32]) -> (r: bool)
    ensures
        r == ed25519_is_point(public@),
{
    ed25519_dalek::VerifyingKey::from_bytes(public).is_ok()
}

/// `ed25519_dalek::VerifyingKey::verify`, on a key that decodes to a point: the
/// verdict depends on the key, the message and the signature alone.
#[verifier::external_body]
pub(crate) fn ed25519_verify(public: &[u8; 32], message: &[u8], signature: &[u8; 64]) -> (r: bool)
    requires
        ed25519_is_point(public@),
    ensures
        r == ed25519_verifies(public@, message@, signature@),
{
    let key = ed25519_dalek::VerifyingKey::from_bytes(public).expect("a point");
    key.verify(message, &ed25519_dalek::Signature::from_bytes(signature)).is_ok()
}

/// `rand::rngs::OsRng::fill_bytes`: `n` bytes that nothing else is known of.
#[verifier::external_body]
pub(crate) fn random_bytes(n: usize) -> (r: Vec<u8>)
    ensures
        r@.len() == n,
{
    let mut out = vec![0u8; n];
    rand::rngs::OsRng.fill_bytes(&mut out);
    out
}

/// `b` is what one call of [`random_bytes`] for as many bytes gives.
pub closed spec fn is_random(b: Seq<u8>) -> bool {
    exists|v: Vec<u8>| v@ == b && #[trigger] call_ensures(random_bytes, (v@.len() as usize,), v)
}

/// `n` fresh bytes.
pub(crate) fn fresh_bytes(n: usize) -> (r: Vec<u8>)
    ensures
        r@.len() == n,
        is_random(r@),
{
    let v: Vec<u8> = random_bytes(n);
    assert(v@.len() as usize == n);
    v
}

/// A fresh 32-byte secret.
pub fn random_32() -> (r: [u8; 32])
    ensures
        r@.len() == 32,
        is_random(r@),
{
    let v: Vec<u8> = fresh_bytes(32);
    assert(v@.subrange(0, 32) =~= v@);
    array_32(&v, 0)
}

/// A fresh number of 64 bits: eight fresh bytes as `read_le64` reads them. Any number may come
/// back.
pub fn random_u64() -> (r: u64)
    ensures
        is_random(bytes::le_bytes(r as nat, 8)),
{
    let v: Vec<u8> = fresh_bytes(8);
    assert(v@.subrange(0, 8) =~= v@);
    read_le64(&v, 0)
}

/// `zeroize::Zeroize::zeroize`: overwrites a secret with zeros.
#[verifier::external_body]
pub(crate) fn wipe(secret: &mut [u8; 32])
    ensures
        forall|i: int| 0 <= i < 32 ==> final(secret)@[i] == 0,
{
    secret.zeroize();
}

/// What was sealed opens again under the same key, number and companion, and gives what
/// went in.
pub proof fn law_sealed_texts_open(
    key: &[u8; 32],
    counter: u64,
    aad: &[u8],
    text: &[u8],
    sealed: Vec<u8>,
    s: &[u8],
    r: Result<Vec<u8>, Error>,
)
    requires
        call_ensures(aead_encrypt, (key, counter, aad, text), sealed),
        s@ == sealed@,
        call_ensures(aead_decrypt, (key, counter, aad, s), r),
    ensures
        r is Ok && r->Ok_0@ == text@,
        sealed@.len() == text@.len() + 16,
{
}

/// No two numbers share a nonce, and every nonce begins with four zeros.
pub proof fn law_numbers_have_nonces_of_their_own(a: u64, b: u64, x: [u8; 12], y: [u8; 12])
    requires
        call_ensures(nonce96, (a,), x),
        call_ensures(nonce96, (b,), y),
    ensures
        x@ == y@ ==> a == b,
        x@[0] == 0 && x@[1] == 0 && x@[2] == 0 && x@[3] == 0,
        x@.skip(4) == bytes::le_bytes(a as nat, 8),
{
    bytes::lemma_le_bytes_len(a as nat, 8);
    bytes::lemma_le_bytes_len(b as nat, 8);
    assert(x@.skip(4) =~= bytes::le_bytes(a as nat, 8));
    if x@ == y@ && a != b {
        lemma_nonces_differ(a, b);
    }
}

/// Both ends of a hop derive the same key, from the secret they share and under the label
/// of this protocol.
pub proof fn law_hop_keys_agree(a: &[u8; 32], b: &[u8; 32], pa: &[u8; 32], pb: &[u8; 32], x: [u8; 32], y: [u8; 32])
    requires
        pa@ == x25519_public_of(a@),
        pb@ == x25519_public_of(b@),
        call_ensures(derive_hop_key, (a, pb), x),
        call_ensures(derive_hop_key, (b, pa), y),
    ensures
        x@ == y@,
        x@ == hkdf_of(x25519_of(a@, pb@), "phinet-hop-v1".spec_bytes(), "key".spec_bytes(), 32),
{
}

/// Deriving is extracting and then expanding, to as many bytes as were asked for.
pub proof fn law_deriving_extracts_and_expands(ikm: &[u8], salt: &[u8], info: &[u8], len: usize, r: Vec<u8>)
    requires
        call_ensures(hkdf_derive, (ikm, salt, info, len), r),
    ensures
        r@.len() == len,
        r@ == hkdf_expand_of(hkdf_extract_of(salt@, ikm@), info@, len as nat),
{
}

} // verus!
