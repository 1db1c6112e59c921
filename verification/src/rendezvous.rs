//! The rendezvous protocol between a client, an introduction point, a
//! rendezvous point and a hidden service.
//!
//! The service registers at an introduction point. A client leaves a cookie at
//! a rendezvous point and sends the introduction point a sealed message that
//! only the service can open. The service answers at the rendezvous point, and
//! both ends derive keys that neither point in between can compute.

use crate::bytes;
use crate::bytes::{append, array_20, array_32, copy_range, push_be, read_be16};
use crate::crypto;
use crate::crypto::{chacha20_apply, fresh_bytes, hkdf_derive, hmac_sha256, random_32, wipe, x25519, x25519_public};
use crate::errors;
use crate::errors::Error;
use crate::text;
use crate::text::utf8_lossy;
use crate::timing::ct_eq_32;
use vstd::prelude::*;
use vstd::string::*;
use vstd::utf8::*;

verus! {

/// Mixed into every key and tag of this protocol.
pub const HS_PROTOID: &'static str = "phinet-hs-rendezvous-v1";

/// Length of a rendezvous cookie.
pub const COOKIE_LEN: usize = 20;

/// Length of the plaintext of an introduction: rendezvous node (32), cookie
/// (20), host (20, padded), port (2).
pub const INTRO1_PLAINTEXT_LEN: usize = 74;

/// Length of the authentication tag of a rendezvous.
pub const HS_AUTH_LEN: usize = 32;

/// A service's request to an introduction point: accept introductions for this
/// key.
#[derive(Clone, Debug)]
pub struct EstablishIntro {
    pub auth_key_pub: [u8; 32],
    pub sig: [u8; 32],
}

/// The bytes of an `EstablishIntro` message: key type, key length, key, four
/// reserved bytes, signature length, signature.
pub open spec fn establish_intro_bytes(key: Seq<u8>, sig: Seq<u8>) -> Seq<u8> {
    seq![2u8] + bytes::be_bytes(32, 2) + key + bytes::be_bytes(0, 4) + bytes::be_bytes(32, 2) + sig
}

/// The key and the signature that `buf` carries, or the reason it is refused.
pub open spec fn establish_intro_parsed(buf: Seq<u8>) -> Result<(Seq<u8>, Seq<u8>), Seq<char>> {
    if buf.len() < 72 {
        Err("establish_intro: too short"@)
    } else if buf[0] != 2 {
        Err("establish_intro: unsupported auth type"@)
    } else if bytes::be_value(buf.subrange(1, 3)) != 32 || buf.len() < 73 {
        Err("establish_intro: bad auth_key_len"@)
    } else if bytes::be_value(buf.subrange(39, 41)) != 32 {
        Err("establish_intro: bad sig_len"@)
    } else {
        Ok((buf.subrange(3, 35), buf.subrange(41, 73)))
    }
}

/// What `EstablishIntro` writes, it reads back, whatever follows in the cell.
pub proof fn law_establish_intro_roundtrip(key: Seq<u8>, sig: Seq<u8>, rest: Seq<u8>)
    requires
        key.len() == 32,
        sig.len() == 32,
    ensures
        establish_intro_parsed(establish_intro_bytes(key, sig) + rest) == Ok::<
            (Seq<u8>, Seq<u8>),
            Seq<char>,
        >((key, sig)),
{
    bytes::lemma_pow256();
    bytes::lemma_be_roundtrip(32, 2);
    bytes::lemma_be_bytes_len(32, 2);
    bytes::lemma_be_bytes_len(0, 4);
    let buf = establish_intro_bytes(key, sig) + rest;
    assert(buf.subrange(1, 3) =~= bytes::be_bytes(32, 2));
    assert(buf.subrange(3, 35) =~= key);
    assert(buf.subrange(39, 41) =~= bytes::be_bytes(32, 2));
    assert(buf.subrange(41, 73) =~= sig);
}

impl EstablishIntro {
    /// Writes the message.
    pub fn encode(&self) -> (r: Vec<u8>)
        ensures
            r@ == establish_intro_bytes(self.auth_key_pub@, self.sig@),
    {
        let mut out: Vec<u8> = Vec::new();
        out.push(2u8);
        push_be(&mut out, 32, 2);
        append(&mut out, self.auth_key_pub.as_slice());
        push_be(&mut out, 0, 4);
        push_be(&mut out, 32, 2);
        append(&mut out, self.sig.as_slice());
        assert(out@ =~= establish_intro_bytes(self.auth_key_pub@, self.sig@));
        out
    }

    /// Reads the message.
    pub fn decode(buf: &[u8]) -> (r: Result<Self, Error>)
        ensures
            match establish_intro_parsed(buf@) {
                Ok((key, sig)) => r matches Ok(m) && m.auth_key_pub@ == key && m.sig@ == sig,
                Err(text) => errors::is_crypto(r, text),
            },
    {
        if buf.len() < 72 {
            return Err(Error::Crypto("establish_intro: too short".to_owned()));
        }
        if buf[0] != 2 {
            return Err(Error::Crypto("establish_intro: unsupported auth type".to_owned()));
        }
        let key_len: u16 = read_be16(buf, 1);
        if key_len != 32 || buf.len() < 73 {
            return Err(Error::Crypto("establish_intro: bad auth_key_len".to_owned()));
        }
        let auth_key_pub: [u8; 32] = array_32(buf, 3);
        let sig_len: u16 = read_be16(buf, 39);
        if sig_len != 32 {
            return Err(Error::Crypto("establish_intro: bad sig_len".to_owned()));
        }
        let sig: [u8; 32] = array_32(buf, 41);
        Ok(EstablishIntro { auth_key_pub, sig })
    }
}

/// A client's request to a rendezvous point: join whoever presents this cookie
/// to this circuit.
#[derive(Clone, Debug)]
pub struct EstablishRendezvous {
    pub cookie: [u8; 20],
}

impl EstablishRendezvous {
    /// Writes the message: the cookie alone.
    pub fn encode(&self) -> (r: Vec<u8>)
        ensures
            r@ == self.cookie@,
    {
        let mut out: Vec<u8> = Vec::new();
        append(&mut out, self.cookie.as_slice());
        assert(out@ =~= self.cookie@);
        out
    }

    /// Reads the message: the first bytes are the cookie.
    pub fn decode(buf: &[u8]) -> (r: Result<Self, Error>)
        ensures
            r is Ok == (buf@.len() >= COOKIE_LEN),
            r matches Ok(m) ==> m.cookie@ == buf@.take(COOKIE_LEN as int),
            r is Err ==> errors::is_crypto(r, "establish_rendezvous: too short"@),
    {
        if buf.len() < COOKIE_LEN {
            return Err(Error::Crypto("establish_rendezvous: too short".to_owned()));
        }
        assert(buf@.subrange(0, 20) =~= buf@.take(20));
        Ok(EstablishRendezvous { cookie: array_20(buf, 0) })
    }
}

/// An introduction: the sealed message of a client to a service, with the key
/// by which the introduction point finds the service.
#[derive(Clone, Debug)]
pub struct Introduce {
    /// The introduction key that the message is for.
    pub auth_key_pub: [u8; 32],
    /// The client's public ephemeral.
    pub client_ntor_x: [u8; 32],
    /// The sealed plaintext.
    pub enc_payload: Vec<u8>,
    /// The tag over the sealed plaintext.
    pub mac: [u8; 32],
}

/// What an introduction tells the service: where to meet.
#[derive(Clone, Debug)]
pub struct IntroducePlaintext {
    pub rp_node_id: [u8; 32],
    pub rp_host: String,
    pub rp_port: u16,
    pub cookie: [u8; 20],
}

/// The bytes of an introduction: key, public ephemeral, length of the sealed
/// plaintext, the sealed plaintext, tag.
pub open spec fn introduce_bytes(key: Seq<u8>, x: Seq<u8>, sealed: Seq<u8>, mac: Seq<u8>) -> Seq<
    u8,
> {
    key + x + bytes::be_bytes(sealed.len(), 2) + sealed + mac
}

/// The key, the public ephemeral, the sealed plaintext and the tag that `buf`
/// carries, or the reason it is refused.
pub open spec fn introduce_parsed(buf: Seq<u8>) -> Result<
    (Seq<u8>, Seq<u8>, Seq<u8>, Seq<u8>),
    Seq<char>,
> {
    if buf.len() < 98 {
        Err("introduce: too short"@)
    } else {
        let n = bytes::be_value(buf.subrange(64, 66)) as int;
        if buf.len() < 98 + n {
            Err("introduce: truncated"@)
        } else {
            Ok(
                (
                    buf.subrange(0, 32),
                    buf.subrange(32, 64),
                    buf.subrange(66, 66 + n),
                    buf.subrange(66 + n, 98 + n),
                ),
            )
        }
    }
}

/// What `Introduce` writes, it reads back, whatever follows in the cell, where
/// the length of the sealed plaintext fits its field.
pub proof fn law_introduce_roundtrip(
    key: Seq<u8>,
    x: Seq<u8>,
    sealed: Seq<u8>,
    mac: Seq<u8>,
    rest: Seq<u8>,
)
    requires
        key.len() == 32,
        x.len() == 32,
        sealed.len() < 0x1_0000,
        mac.len() == 32,
    ensures
        introduce_parsed(introduce_bytes(key, x, sealed, mac) + rest) == Ok::<
            (Seq<u8>, Seq<u8>, Seq<u8>, Seq<u8>),
            Seq<char>,
        >((key, x, sealed, mac)),
{
    bytes::lemma_pow256();
    bytes::lemma_be_roundtrip(sealed.len(), 2);
    bytes::lemma_be_bytes_len(sealed.len(), 2);
    let buf = introduce_bytes(key, x, sealed, mac) + rest;
    let n = sealed.len() as int;
    assert(buf.subrange(64, 66) =~= bytes::be_bytes(sealed.len(), 2));
    assert(buf.subrange(0, 32) =~= key);
    assert(buf.subrange(32, 64) =~= x);
    assert(buf.subrange(66, 66 + n) =~= sealed);
    assert(buf.subrange(66 + n, 98 + n) =~= mac);
}

/// The host as its field of 20 bytes: cut, or padded with zeros.
pub open spec fn host_field(host: Seq<u8>) -> Seq<u8> {
    Seq::new(20, |i: int| if i < host.len() { host[i] } else { 0u8 })
}

/// The plaintext of an introduction.
pub open spec fn intro_plaintext_bytes(
    node: Seq<u8>,
    cookie: Seq<u8>,
    host: Seq<u8>,
    port: nat,
) -> Seq<u8> {
    node + cookie + host_field(host) + bytes::be_bytes(port, 2)
}

/// The bytes of a field up to its first zero.
pub open spec fn until_zero(field: Seq<u8>) -> Seq<u8>
    decreases field.len(),
{
    if field.len() == 0 || field[0] == 0 {
        Seq::empty()
    } else {
        seq![field[0]] + until_zero(field.skip(1))
    }
}

/// `p` is what the plaintext bytes `buf` say.
pub open spec fn intro_plaintext_read(buf: Seq<u8>, p: IntroducePlaintext) -> bool {
    &&& p.rp_node_id@ == buf.subrange(0, 32)
    &&& p.cookie@ == buf.subrange(32, 52)
    &&& p.rp_host@ == text::text_of(until_zero(buf.subrange(52, 72)))
    &&& p.rp_port as nat == bytes::be_value(buf.subrange(72, 74))
}

proof fn lemma_until_zero_prefix(field: Seq<u8>, n: int)
    requires
        0 <= n <= field.len(),
        forall|i: int| 0 <= i < n ==> field[i] != 0,
        n == field.len() || field[n] == 0,
    ensures
        until_zero(field) == field.take(n),
    decreases n,
{
    if n > 0 {
        lemma_until_zero_prefix(field.skip(1), n - 1);
        assert(seq![field[0]] + field.skip(1).take(n - 1) =~= field.take(n));
    } else {
        assert(until_zero(field) =~= field.take(n));
    }
}

/// A plaintext reads back as it was written, where the host fits its field and
/// holds no zero character.
pub proof fn law_intro_plaintext_roundtrip(p: IntroducePlaintext, q: IntroducePlaintext)
    requires
        encode_utf8(p.rp_host@).len() <= 20,
        forall|i: int| 0 <= i < encode_utf8(p.rp_host@).len() ==> encode_utf8(p.rp_host@)[i] != 0,
        intro_plaintext_read(
            intro_plaintext_bytes(
                p.rp_node_id@,
                p.cookie@,
                encode_utf8(p.rp_host@),
                p.rp_port as nat,
            ),
            q,
        ),
    ensures
        q.rp_node_id@ == p.rp_node_id@,
        q.cookie@ == p.cookie@,
        q.rp_host@ == p.rp_host@,
        q.rp_port == p.rp_port,
{
    let host = encode_utf8(p.rp_host@);
    let buf = intro_plaintext_bytes(p.rp_node_id@, p.cookie@, host, p.rp_port as nat);
    bytes::lemma_pow256();
    bytes::lemma_be_bytes_len(p.rp_port as nat, 2);
    bytes::lemma_be_roundtrip(p.rp_port as nat, 2);
    assert(buf.subrange(0, 32) =~= p.rp_node_id@);
    assert(buf.subrange(32, 52) =~= p.cookie@);
    assert(buf.subrange(52, 72) =~= host_field(host));
    assert(buf.subrange(72, 74) =~= bytes::be_bytes(p.rp_port as nat, 2));
    lemma_until_zero_prefix(host_field(host), host.len() as int);
    assert(host_field(host).take(host.len() as int) =~= host);
    encode_utf8_valid_utf8(p.rp_host@);
    encode_utf8_decode_utf8(p.rp_host@);
}

/// The stream key and the tag key of an introduction, one behind the other.
pub open spec fn intro_keys(shared: Seq<u8>, x: Seq<u8>, b: Seq<u8>) -> Seq<u8> {
    crypto::hkdf_of(
        shared,
        intro_salt(x, b),
        "intro-keys".spec_bytes(),
        64,
    )
}

/// The nonce of the introduction's stream cipher. Its key is used once.
pub open spec fn zero_nonce() -> Seq<u8> {
    Seq::new(12, |i: int| 0u8)
}

/// The sealed plaintext under the keys `keys`.
pub open spec fn intro_sealed(keys: Seq<u8>, text: Seq<u8>) -> Seq<u8> {
    crypto::chacha20_of(keys.subrange(0, 32), zero_nonce(), text)
}

/// The tag over a sealed plaintext under the keys `keys`.
pub open spec fn intro_mac(keys: Seq<u8>, auth_key: Seq<u8>, x: Seq<u8>, sealed: Seq<u8>) -> Seq<
    u8,
> {
    crypto::hmac_of(
        keys.subrange(32, 64),
        HS_PROTOID.spec_bytes() + ":intro-mac:".spec_bytes() + auth_key + x + sealed,
    )
}

impl Introduce {
    /// The plaintext that the service with the secret `b_secret` and the
    /// public key `b` finds in this introduction; nothing when the tag is wrong.
    pub open spec fn opened(self, b_secret: Seq<u8>, b: Seq<u8>) -> Option<Seq<u8>> {
        let keys = intro_keys(crypto::x25519_of(b_secret, self.client_ntor_x@), self.client_ntor_x@, b);
        if self.mac@ == intro_mac(
            keys,
            self.auth_key_pub@,
            self.client_ntor_x@,
            self.enc_payload@,
        ) {
            Some(intro_sealed(keys, self.enc_payload@))
        } else {
            None
        }
    }

    /// This introduction carries `text` for the service with the public key `b`
    /// and the introduction key `auth_key`, sealed with the ephemeral secret `x`.
    pub open spec fn built(self, b: Seq<u8>, auth_key: Seq<u8>, text: Seq<u8>, x: Seq<u8>) -> bool {
        let keys = intro_keys(crypto::x25519_of(x, b), crypto::x25519_public_of(x), b);
        &&& self.auth_key_pub@ == auth_key
        &&& self.client_ntor_x@ == crypto::x25519_public_of(x)
        &&& self.enc_payload@ == intro_sealed(keys, text)
        &&& self.enc_payload@.len() == text.len()
        &&& self.mac@ == intro_mac(keys, auth_key, crypto::x25519_public_of(x), self.enc_payload@)
    }

    /// The holder of the secret behind `b` opens this introduction and finds
    /// `text`.
    pub open spec fn opens_to(self, b: Seq<u8>, text: Seq<u8>) -> bool {
        forall|b_secret: Seq<u8>|
            b_secret.len() == 32 && b == #[trigger] crypto::x25519_public_of(b_secret) ==> self.opened(
                b_secret,
                b,
            ) == Some(text)
    }

    /// Writes the introduction.
    pub fn encode(&self) -> (r: Vec<u8>)
        ensures
            r@ == introduce_bytes(
                self.auth_key_pub@,
                self.client_ntor_x@,
                self.enc_payload@,
                self.mac@,
            ),
    {
        let mut out: Vec<u8> = Vec::new();
        append(&mut out, self.auth_key_pub.as_slice());
        append(&mut out, self.client_ntor_x.as_slice());
        push_be(&mut out, self.enc_payload.len() as u64, 2);
        append(&mut out, &self.enc_payload);
        append(&mut out, self.mac.as_slice());
        assert(out@ =~= introduce_bytes(
            self.auth_key_pub@,
            self.client_ntor_x@,
            self.enc_payload@,
            self.mac@,
        ));
        out
    }

    /// Reads an introduction.
    pub fn decode(buf: &[u8]) -> (r: Result<Self, Error>)
        ensures
            match introduce_parsed(buf@) {
                Ok((key, x, sealed, mac)) => r matches Ok(m) && m.auth_key_pub@ == key
                    && m.client_ntor_x@ == x && m.enc_payload@ == sealed && m.mac@ == mac,
                Err(text) => errors::is_crypto(r, text),
            },
    {
        if buf.len() < 98 {
            return Err(Error::Crypto("introduce: too short".to_owned()));
        }
        let auth_key_pub: [u8; 32] = array_32(buf, 0);
        let client_ntor_x: [u8; 32] = array_32(buf, 32);
        let enc_len: usize = read_be16(buf, 64) as usize;
        if buf.len() < 66 + enc_len + 32 {
            return Err(Error::Crypto("introduce: truncated".to_owned()));
        }
        let enc_payload: Vec<u8> = copy_range(buf, 66, 66 + enc_len);
        let mac: [u8; 32] = array_32(buf, 66 + enc_len);
        Ok(Introduce { auth_key_pub, client_ntor_x, enc_payload, mac })
    }

    /// Builds an introduction with a fresh ephemeral, which is returned with it.
    pub fn build_for_hs(
        hs_static_b_pub: &[u8; 32],
        auth_key_pub: &[u8; 32],
        plaintext: &IntroducePlaintext,
    ) -> (r: (Self, [u8; 32]))
        ensures
            r.0.built(hs_static_b_pub@, auth_key_pub@, plaintext.bytes(), r.1@),
            r.0.opens_to(hs_static_b_pub@, plaintext.bytes()),
            crypto::is_random(r.1@),
    {
        let client_sk: [u8; 32] = random_32();
        Self::build_for_hs_with_ephemeral(hs_static_b_pub, auth_key_pub, plaintext, client_sk)
    }

    /// Builds an introduction with the ephemeral secret `client_sk`. The client
    /// uses the one whose public key it will verify the rendezvous against.
    pub fn build_for_hs_with_ephemeral(
        hs_static_b_pub: &[u8; 32],
        auth_key_pub: &[u8; 32],
        plaintext: &IntroducePlaintext,
        client_sk: [u8; 32],
    ) -> (r: (Self, [u8; 32]))
        ensures
            r.1 == client_sk,
            r.0.built(hs_static_b_pub@, auth_key_pub@, plaintext.bytes(), client_sk@),
            r.0.opens_to(hs_static_b_pub@, plaintext.bytes()),
    {
        let client_x: [u8; 32] = x25519_public(&client_sk);
        let mut shared: [u8; 32] = x25519(&client_sk, hs_static_b_pub);
        let ghost g_shared = shared@;
        let (stream_key, mac_key) = derive_intro_keys(&shared, &client_x, hs_static_b_pub);
        wipe(&mut shared);
        let pt: Vec<u8> = encode_intro_plaintext(plaintext);
        let ct: Vec<u8> = apply_chacha20(&stream_key, &pt);
        let mac: [u8; 32] = hmac_intro(&mac_key, auth_key_pub, &client_x, &ct);
        let intro: Introduce = Introduce {
            auth_key_pub: *auth_key_pub,
            client_ntor_x: client_x,
            enc_payload: ct,
            mac,
        };
        proof {
            let b = hs_static_b_pub@;
            assert forall|b_secret: Seq<u8>|
                b_secret.len() == 32 && b == #[trigger] crypto::x25519_public_of(
                    b_secret,
                ) implies intro.opened(b_secret, b) == Some(plaintext.bytes()) by {
                assert(g_shared == crypto::x25519_of(b_secret, client_x@));
            }
        }
        (intro, client_sk)
    }

    /// Opens an introduction at the service. The tag is checked before anything
    /// is decrypted.
    pub fn open_at_hs(&self, hs_b_secret: &[u8; 32], hs_static_b_pub: &[u8; 32]) -> (r: Result<
        IntroducePlaintext,
        Error,
    >)
        requires
            self.enc_payload@.len() <= crypto::cipher_limit(),
        ensures
            match self.opened(hs_b_secret@, hs_static_b_pub@) {
                None => r matches Err(Error::AuthFailed),
                Some(text) => if text.len() < INTRO1_PLAINTEXT_LEN {
                    errors::is_crypto(r, "intro plaintext: too short"@)
                } else {
                    r matches Ok(p) && intro_plaintext_read(text, p)
                },
            },
    {
        let mut shared: [u8; 32] = x25519(hs_b_secret, &self.client_ntor_x);
        let (stream_key, mac_key) = derive_intro_keys(
            &shared,
            &self.client_ntor_x,
            hs_static_b_pub,
        );
        wipe(&mut shared);
        let expected: [u8; 32] = hmac_intro(
            &mac_key,
            &self.auth_key_pub,
            &self.client_ntor_x,
            &self.enc_payload,
        );
        if !ct_eq_32(&expected, &self.mac) {
            return Err(Error::AuthFailed);
        }
        let pt: Vec<u8> = apply_chacha20(&stream_key, &self.enc_payload);
        decode_intro_plaintext(&pt)
    }
}

/// An introduction reaches the service: the holder of the secret behind the key that it was
/// built for opens it and reads the plaintext that the client wrote, where the host fits its
/// field and holds no zero character.
pub proof fn law_introductions_reach_the_service(
    m: Introduce,
    p: IntroducePlaintext,
    b_secret: Seq<u8>,
    q: IntroducePlaintext,
)
    requires
        b_secret.len() == 32,
        m.opens_to(crypto::x25519_public_of(b_secret), p.bytes()),
        encode_utf8(p.rp_host@).len() <= 20,
        forall|i: int| 0 <= i < encode_utf8(p.rp_host@).len() ==> encode_utf8(p.rp_host@)[i] != 0,
    ensures
        m.opened(b_secret, crypto::x25519_public_of(b_secret)) == Some(p.bytes()),
        p.bytes().len() == INTRO1_PLAINTEXT_LEN,
        intro_plaintext_read(p.bytes(), q) ==> {
            &&& q.rp_node_id@ == p.rp_node_id@
            &&& q.cookie@ == p.cookie@
            &&& q.rp_host@ == p.rp_host@
            &&& q.rp_port == p.rp_port
        },
{
    bytes::lemma_be_bytes_len(p.rp_port as nat, 2);
    if intro_plaintext_read(p.bytes(), q) {
        law_intro_plaintext_roundtrip(p, q);
    }
}

/// What is tagged of an introduction.
pub open spec fn intro_tagged(m: Introduce) -> Seq<u8> {
    HS_PROTOID.spec_bytes() + ":intro-mac:".spec_bytes() + m.auth_key_pub@ + m.client_ntor_x@
        + m.enc_payload@
}

/// The salt of the keys of an introduction.
pub open spec fn intro_salt(x: Seq<u8>, b: Seq<u8>) -> Seq<u8> {
    HS_PROTOID.spec_bytes() + ":intro:".spec_bytes() + x + b
}

/// The key of the tag that the service with the secret `b_secret` and the public key `b`
/// expects of an introduction.
pub open spec fn intro_tag_key(m: Introduce, b_secret: Seq<u8>, b: Seq<u8>) -> Seq<u8> {
    intro_keys(
        crypto::x25519_of(b_secret, m.client_ntor_x@),
        m.client_ntor_x@,
        b,
    ).subrange(32, 64)
}

/// With another tag an introduction is refused.
pub proof fn law_changed_tags_are_refused(
    m: Introduce,
    changed: Introduce,
    b_secret: Seq<u8>,
    b: Seq<u8>,
)
    requires
        m.opened(b_secret, b) is Some,
        intro_tagged(changed) == intro_tagged(m),
        changed.mac@ != m.mac@,
    ensures
        changed.opened(b_secret, b) is None,
{
    lemma_tagged(m, changed);
}

/// An introduction cannot be changed on its way, nor opened by another service: with any
/// other field, or under another key pair, its tag fits only by a collision, of the tags of
/// two messages or under two keys, or of two derivations with one key of the tag.
pub proof fn law_changed_introductions_are_refused(
    m: Introduce,
    changed: Introduce,
    b_secret: Seq<u8>,
    b: Seq<u8>,
    other_secret: Seq<u8>,
    other: Seq<u8>,
)
    requires
        b.len() == 32,
        other.len() == 32,
        m.opened(b_secret, b) is Some,
        changed.opened(other_secret, other) is Some,
        changed.mac@ == m.mac@,
        changed.auth_key_pub@ != m.auth_key_pub@ || changed.client_ntor_x@ != m.client_ntor_x@
            || changed.enc_payload@ != m.enc_payload@ || other != b || crypto::x25519_of(
            other_secret,
            m.client_ntor_x@,
        ) != crypto::x25519_of(b_secret, m.client_ntor_x@),
    ensures
        ({
            let (k, l) = (intro_tag_key(m, b_secret, b), intro_tag_key(changed, other_secret, other));
            let (p, q) = (intro_tagged(m), intro_tagged(changed));
            let (s, t) = (intro_salt(m.client_ntor_x@, b), intro_salt(changed.client_ntor_x@, other));
            &&& crypto::hmac_of(k, p) == crypto::hmac_of(l, q)
            &&& p != q || k != l || (k == l && (s != t || crypto::x25519_of(
                b_secret,
                m.client_ntor_x@,
            ) != crypto::x25519_of(other_secret, changed.client_ntor_x@)))
        }),
{
    lemma_tagged(m, changed);
    let (s, t) = (intro_salt(m.client_ntor_x@, b), intro_salt(changed.client_ntor_x@, other));
    let n = (HS_PROTOID.spec_bytes() + ":intro:".spec_bytes()).len() as int;
    assert(s.skip(n + 32) =~= b);
    assert(t.skip(n + 32) =~= other);
}

/// All but the tag of an introduction is tagged.
proof fn lemma_tagged(m: Introduce, changed: Introduce)
    ensures
        intro_tagged(m) == intro_tagged(changed) ==> m.auth_key_pub@ == changed.auth_key_pub@
            && m.client_ntor_x@ == changed.client_ntor_x@ && m.enc_payload@ == changed.enc_payload@,
{
    let (x, y) = (intro_tagged(m), intro_tagged(changed));
    let n = (HS_PROTOID.spec_bytes() + ":intro-mac:".spec_bytes()).len() as int;
    assert(x.subrange(n, n + 32) =~= m.auth_key_pub@);
    assert(y.subrange(n, n + 32) =~= changed.auth_key_pub@);
    assert(x.subrange(n + 32, n + 64) =~= m.client_ntor_x@);
    assert(y.subrange(n + 32, n + 64) =~= changed.client_ntor_x@);
    assert(x.skip(n + 64) =~= m.enc_payload@);
    assert(y.skip(n + 64) =~= changed.enc_payload@);
}

impl IntroducePlaintext {
    /// The bytes of this plaintext.
    pub open spec fn bytes(self) -> Seq<u8> {
        intro_plaintext_bytes(
            self.rp_node_id@,
            self.cookie@,
            encode_utf8(self.rp_host@),
            self.rp_port as nat,
        )
    }
}

/// Writes the plaintext of an introduction.
pub fn encode_intro_plaintext(p: &IntroducePlaintext) -> (r: Vec<u8>)
    ensures
        r@ == p.bytes(),
        r@.len() == INTRO1_PLAINTEXT_LEN,
{
    let mut out: Vec<u8> = Vec::new();
    append(&mut out, p.rp_node_id.as_slice());
    append(&mut out, p.cookie.as_slice());
    let hb: &[u8] = p.rp_host.as_str().as_bytes();
    let ghost before = out@;
    let mut i: usize = 0;
    while i < 20
        invariant
            i <= 20,
            hb@ == encode_utf8(p.rp_host@),
            out@ == before + host_field(hb@).take(i as int),
        decreases 20 - i,
    {
        if i < hb.len() {
            out.push(hb[i]);
        } else {
            out.push(0u8);
        }
        i += 1;
        assert(host_field(hb@).take(i as int) =~= host_field(hb@).take(i - 1).push(
            host_field(hb@)[i - 1],
        ));
        assert(out@ =~= before + host_field(hb@).take(i as int));
    }
    assert(host_field(hb@).take(20) =~= host_field(hb@));
    push_be(&mut out, p.rp_port as u64, 2);
    proof {
        bytes::lemma_be_bytes_len(p.rp_port as nat, 2);
    }
    assert(out@ =~= p.bytes());
    out
}

/// Reads the plaintext of an introduction.
pub fn decode_intro_plaintext(buf: &[u8]) -> (r: Result<IntroducePlaintext, Error>)
    ensures
        r is Ok == (buf@.len() >= INTRO1_PLAINTEXT_LEN),
        r matches Ok(p) ==> intro_plaintext_read(buf@, p),
        r is Err ==> errors::is_crypto(r, "intro plaintext: too short"@),
{
    if buf.len() < INTRO1_PLAINTEXT_LEN {
        return Err(Error::Crypto("intro plaintext: too short".to_owned()));
    }
    let rp_node_id: [u8; 32] = array_32(buf, 0);
    let cookie: [u8; 20] = array_20(buf, 32);
    let ghost field = buf@.subrange(52, 72);
    let mut hlen: usize = 0;
    while hlen < 20 && buf[52 + hlen] != 0
        invariant
            hlen <= 20,
            buf.len() >= INTRO1_PLAINTEXT_LEN,
            field == buf@.subrange(52, 72),
            forall|i: int| 0 <= i < hlen ==> field[i] != 0,
        decreases 20 - hlen,
    {
        hlen += 1;
    }
    proof {
        lemma_until_zero_prefix(field, hlen as int);
    }
    let raw: Vec<u8> = copy_range(buf, 52, 52 + hlen);
    assert(raw@ =~= field.take(hlen as int));
    let rp_host: String = utf8_lossy(&raw);
    let rp_port: u16 = read_be16(buf, 72);
    Ok(IntroducePlaintext { rp_node_id, rp_host, rp_port, cookie })
}

/// A service's message to a rendezvous point.
#[derive(Clone, Debug)]
pub struct Rendezvous1 {
    pub cookie: [u8; 20],
    pub server_y: [u8; 32],
    pub auth: [u8; 32],
}

impl Rendezvous1 {
    /// Writes the message: cookie, public ephemeral, tag.
    pub fn encode(&self) -> (r: Vec<u8>)
        ensures
            r@ == self.cookie@ + self.server_y@ + self.auth@,
    {
        let mut out: Vec<u8> = Vec::new();
        append(&mut out, self.cookie.as_slice());
        append(&mut out, self.server_y.as_slice());
        append(&mut out, self.auth.as_slice());
        assert(out@ =~= self.cookie@ + self.server_y@ + self.auth@);
        out
    }

    /// Reads the message.
    pub fn decode(buf: &[u8]) -> (r: Result<Self, Error>)
        ensures
            r is Ok == (buf@.len() >= 84),
            r matches Ok(m) ==> m.cookie@ + m.server_y@ + m.auth@ == buf@.take(84),
            r is Err ==> errors::is_crypto(r, "rendezvous1: too short"@),
    {
        if buf.len() < COOKIE_LEN + 32 + HS_AUTH_LEN {
            return Err(Error::Crypto("rendezvous1: too short".to_owned()));
        }
        let m: Rendezvous1 = Rendezvous1 {
            cookie: array_20(buf, 0),
            server_y: array_32(buf, COOKIE_LEN),
            auth: array_32(buf, COOKIE_LEN + 32),
        };
        assert(m.cookie@ + m.server_y@ + m.auth@ =~= buf@.take(84));
        Ok(m)
    }
}

/// A rendezvous point's message to the client.
#[derive(Clone, Debug)]
pub struct Rendezvous2 {
    pub server_y: [u8; 32],
    pub auth: [u8; 32],
}

impl Rendezvous2 {
    /// Writes the message: public ephemeral, tag.
    pub fn encode(&self) -> (r: Vec<u8>)
        ensures
            r@ == self.server_y@ + self.auth@,
    {
        let mut out: Vec<u8> = Vec::new();
        append(&mut out, self.server_y.as_slice());
        append(&mut out, self.auth.as_slice());
        assert(out@ =~= self.server_y@ + self.auth@);
        out
    }

    /// Reads the message.
    pub fn decode(buf: &[u8]) -> (r: Result<Self, Error>)
        ensures
            r is Ok == (buf@.len() >= 64),
            r matches Ok(m) ==> m.server_y@ + m.auth@ == buf@.take(64),
            r is Err ==> errors::is_crypto(r, "rendezvous2: too short"@),
    {
        if buf.len() < 32 + HS_AUTH_LEN {
            return Err(Error::Crypto("rendezvous2: too short".to_owned()));
        }
        let m: Rendezvous2 = Rendezvous2 { server_y: array_32(buf, 0), auth: array_32(buf, 32) };
        assert(m.server_y@ + m.auth@ =~= buf@.take(64));
        Ok(m)
    }
}

/// Two rendezvous messages that are written alike are alike, so that reading
/// gives back what was written.
pub proof fn law_rendezvous_messages_roundtrip(
    cookie: Seq<u8>,
    y: Seq<u8>,
    auth: Seq<u8>,
    m1: Rendezvous1,
    m2: Rendezvous2,
)
    requires
        cookie.len() == 20,
        y.len() == 32,
        auth.len() == 32,
        m1.cookie@ + m1.server_y@ + m1.auth@ == cookie + y + auth,
        m2.server_y@ + m2.auth@ == y + auth,
    ensures
        m1.cookie@ == cookie && m1.server_y@ == y && m1.auth@ == auth,
        m2.server_y@ == y && m2.auth@ == auth,
{
    let a = m1.cookie@ + m1.server_y@ + m1.auth@;
    let b = m2.server_y@ + m2.auth@;
    assert(m1.cookie@ =~= a.subrange(0, 20));
    assert(m1.server_y@ =~= a.subrange(20, 52));
    assert(m1.auth@ =~= a.subrange(52, 84));
    assert(cookie =~= (cookie + y + auth).subrange(0, 20));
    assert(y =~= (cookie + y + auth).subrange(20, 52));
    assert(auth =~= (cookie + y + auth).subrange(52, 84));
    assert(m2.server_y@ =~= b.subrange(0, 32));
    assert(m2.auth@ =~= b.subrange(32, 64));
    assert(y =~= (y + auth).subrange(0, 32));
    assert(auth =~= (y + auth).subrange(32, 64));
}

/// The end-to-end keys of a client and a service.
pub struct E2EKeys {
    pub client_to_hs_key: [u8; 32],
    pub hs_to_client_key: [u8; 32],
    pub c2h_digest_seed: [u8; 20],
    pub h2c_digest_seed: [u8; 20],
}

impl E2EKeys {
    /// These are the keys that the key material `km` is cut into.
    pub open spec fn cut_from(self, km: Seq<u8>) -> bool {
        &&& km.len() == 104
        &&& self.client_to_hs_key@ == km.subrange(0, 32)
        &&& self.hs_to_client_key@ == km.subrange(32, 64)
        &&& self.c2h_digest_seed@ == km.subrange(64, 84)
        &&& self.h2c_digest_seed@ == km.subrange(84, 104)
    }
}

/// The end-to-end key material of two shared secrets and the transcript.
pub open spec fn e2e_material(
    ss_xy: Seq<u8>,
    ss_xb: Seq<u8>,
    x: Seq<u8>,
    y: Seq<u8>,
    b: Seq<u8>,
) -> Seq<u8> {
    crypto::hkdf_of(
        ss_xy + ss_xb + x + y + b + HS_PROTOID.spec_bytes(),
        "phinet-hs-e2e-salt".spec_bytes(),
        "e2e-expand".spec_bytes(),
        104,
    )
}

/// The tag by which the service proves that it derived the key material `km`.
pub open spec fn e2e_auth(km: Seq<u8>, x: Seq<u8>, y: Seq<u8>, b: Seq<u8>) -> Seq<u8> {
    crypto::hmac_of(
        km.subrange(0, 32),
        HS_PROTOID.spec_bytes() + ":e2e-auth:".spec_bytes() + x + y + b,
    )
}

/// The key material that the client derives from a rendezvous; nothing when the
/// tag is not the service's.
pub open spec fn client_e2e_result(
    x_secret: Seq<u8>,
    x: Seq<u8>,
    b: Seq<u8>,
    y: Seq<u8>,
    auth: Seq<u8>,
) -> Option<Seq<u8>> {
    let km = e2e_material(crypto::x25519_of(x_secret, y), crypto::x25519_of(x_secret, b), x, y, b);
    if auth == e2e_auth(km, x, y, b) {
        Some(km)
    } else {
        None
    }
}

/// Every client with the secret of `x` accepts `y` and `auth` and cuts the same
/// keys, where `b` is the public key of `b_secret`.
pub open spec fn e2e_agrees(
    b_secret: Seq<u8>,
    b: Seq<u8>,
    x: Seq<u8>,
    y: Seq<u8>,
    auth: Seq<u8>,
    k: E2EKeys,
) -> bool {
    b == crypto::x25519_public_of(b_secret) ==> forall|x_secret: Seq<u8>|
        x_secret.len() == 32 && x == #[trigger] crypto::x25519_public_of(x_secret) ==> client_e2e_result(
            x_secret,
            x,
            b,
            y,
            auth,
        ) is Some && k.cut_from(client_e2e_result(x_secret, x, b, y, auth)->0)
}

/// `k`, `y_pub` and `auth` are what a service with the ephemeral secret `y`
/// makes of the client's public ephemeral `x`.
pub open spec fn hs_result(
    b_secret: Seq<u8>,
    b: Seq<u8>,
    x: Seq<u8>,
    y: Seq<u8>,
    k: E2EKeys,
    y_pub: Seq<u8>,
    auth: Seq<u8>,
) -> bool {
    let km = e2e_material(crypto::x25519_of(y, x), crypto::x25519_of(b_secret, x), x, crypto::x25519_public_of(y), b);
    &&& y_pub == crypto::x25519_public_of(y)
    &&& k.cut_from(km)
    &&& auth == e2e_auth(km, x, y_pub, b)
}

/// The service's side: derives the end-to-end keys with a fresh ephemeral.
/// Returns the keys, the public ephemeral and the tag for the client.
pub fn hs_finalize(hs_b_secret: &[u8; 32], hs_b_pub: &[u8; 32], client_x_pub: &[u8; 32]) -> (r: (
    E2EKeys,
    [u8; 32],
    [u8; 32],
))
    ensures
        exists|y: Seq<u8>|
            y.len() == 32 && crypto::is_random(y) && #[trigger] hs_result(
                hs_b_secret@,
                hs_b_pub@,
                client_x_pub@,
                y,
                r.0,
                r.1@,
                r.2@,
            ),
        e2e_agrees(hs_b_secret@, hs_b_pub@, client_x_pub@, r.1@, r.2@, r.0),
{
    let y_sk: [u8; 32] = random_32();
    hs_finalize_with(hs_b_secret, hs_b_pub, client_x_pub, y_sk)
}

/// The service's side with the ephemeral secret `y_sk`.
pub fn hs_finalize_with(
    hs_b_secret: &[u8; 32],
    hs_b_pub: &[u8; 32],
    client_x_pub: &[u8; 32],
    y_sk: [u8; 32],
) -> (r: (E2EKeys, [u8; 32], [u8; 32]))
    ensures
        hs_result(hs_b_secret@, hs_b_pub@, client_x_pub@, y_sk@, r.0, r.1@, r.2@),
        e2e_agrees(hs_b_secret@, hs_b_pub@, client_x_pub@, r.1@, r.2@, r.0),
{
    let y_pub: [u8; 32] = x25519_public(&y_sk);
    let mut ss_xy: [u8; 32] = x25519(&y_sk, client_x_pub);
    let mut ss_xb: [u8; 32] = x25519(hs_b_secret, client_x_pub);
    let ghost g_xy = ss_xy@;
    let ghost g_xb = ss_xb@;
    let keys: E2EKeys = expand_e2e(&ss_xy, &ss_xb, client_x_pub, &y_pub, hs_b_pub);
    let ghost km = e2e_material(g_xy, g_xb, client_x_pub@, y_pub@, hs_b_pub@);
    wipe(&mut ss_xy);
    wipe(&mut ss_xb);
    let auth: [u8; 32] = compute_e2e_auth(&keys, client_x_pub, &y_pub, hs_b_pub);
    assert(auth@ == e2e_auth(km, client_x_pub@, y_pub@, hs_b_pub@));
    proof {
        if hs_b_pub@ == crypto::x25519_public_of(hs_b_secret@) {
            assert forall|x_secret: Seq<u8>|
                x_secret.len() == 32 && client_x_pub@ == #[trigger] crypto::x25519_public_of(
                    x_secret,
                ) implies client_e2e_result(
                x_secret,
                client_x_pub@,
                hs_b_pub@,
                y_pub@,
                auth@,
            ) is Some && keys.cut_from(
                client_e2e_result(x_secret, client_x_pub@, hs_b_pub@, y_pub@, auth@)->0,
            ) by {
                assert(g_xy == crypto::x25519_of(x_secret, y_pub@));
                assert(g_xb == crypto::x25519_of(x_secret, hs_b_pub@));
            }
        }
    }
    (keys, y_pub, auth)
}

/// The client's side: checks the service's tag and derives the same keys.
pub fn client_finalize(
    client_x_sk: &[u8; 32],
    client_x_pub: &[u8; 32],
    hs_b_pub: &[u8; 32],
    server_y_pub: &[u8; 32],
    received_auth: &[u8; 32],
) -> (r: Result<E2EKeys, Error>)
    ensures
        r is Ok == client_e2e_result(
            client_x_sk@,
            client_x_pub@,
            hs_b_pub@,
            server_y_pub@,
            received_auth@,
        ) is Some,
        r matches Ok(k) ==> k.cut_from(
            client_e2e_result(
                client_x_sk@,
                client_x_pub@,
                hs_b_pub@,
                server_y_pub@,
                received_auth@,
            )->0,
        ),
        r matches Err(e) ==> e == Error::AuthFailed,
{
    let mut ss_xy: [u8; 32] = x25519(client_x_sk, server_y_pub);
    let mut ss_xb: [u8; 32] = x25519(client_x_sk, hs_b_pub);
    let keys: E2EKeys = expand_e2e(&ss_xy, &ss_xb, client_x_pub, server_y_pub, hs_b_pub);
    wipe(&mut ss_xy);
    wipe(&mut ss_xb);
    let expected: [u8; 32] = compute_e2e_auth(&keys, client_x_pub, server_y_pub, hs_b_pub);
    if !ct_eq_32(&expected, received_auth) {
        return Err(Error::AuthFailed);
    }
    Ok(keys)
}

/// Derives the stream key and the tag key of an introduction.
fn derive_intro_keys(shared: &[u8; 32], client_x: &[u8; 32], hs_b: &[u8; 32]) -> (r: (
    [u8; 32],
    [u8; 32],
))
    ensures
        r.0@ == intro_keys(shared@, client_x@, hs_b@).subrange(0, 32),
        r.1@ == intro_keys(shared@, client_x@, hs_b@).subrange(32, 64),
{
    let mut salt: Vec<u8> = Vec::new();
    append(&mut salt, HS_PROTOID.as_bytes());
    append(&mut salt, ":intro:".as_bytes());
    append(&mut salt, client_x.as_slice());
    append(&mut salt, hs_b.as_slice());
    assert(salt@ =~= HS_PROTOID.spec_bytes() + ":intro:".spec_bytes() + client_x@ + hs_b@);
    let keys: Vec<u8> = hkdf_derive(shared.as_slice(), &salt, "intro-keys".as_bytes(), 64);
    (array_32(&keys, 0), array_32(&keys, 32))
}

/// The tag over a sealed plaintext.
fn hmac_intro(mac_key: &[u8; 32], auth_pub: &[u8; 32], client_x: &[u8; 32], ct: &[u8]) -> (r: [u8;
    32])
    ensures
        r@ == crypto::hmac_of(
            mac_key@,
            HS_PROTOID.spec_bytes() + ":intro-mac:".spec_bytes() + auth_pub@ + client_x@ + ct@,
        ),
{
    let mut data: Vec<u8> = Vec::new();
    append(&mut data, HS_PROTOID.as_bytes());
    append(&mut data, ":intro-mac:".as_bytes());
    append(&mut data, auth_pub.as_slice());
    append(&mut data, client_x.as_slice());
    append(&mut data, ct);
    assert(data@ =~= HS_PROTOID.spec_bytes() + ":intro-mac:".spec_bytes() + auth_pub@ + client_x@
        + ct@);
    hmac_sha256(mac_key.as_slice(), &data)
}

/// Lays the keystream of `key` over `buf`.
fn apply_chacha20(key: &[u8; 32], buf: &[u8]) -> (r: Vec<u8>)
    requires
        buf@.len() <= crypto::cipher_limit(),
    ensures
        r@.len() == buf@.len(),
        r@ == crypto::chacha20_of(key@, zero_nonce(), buf@),
        crypto::chacha20_of(key@, zero_nonce(), r@) == buf@,
{
    let nonce: [u8; 12] = [0u8; 12];
    assert(nonce@ =~= zero_nonce());
    chacha20_apply(key, &nonce, buf)
}

/// Expands the end-to-end keys.
fn expand_e2e(
    ss_xy: &[u8; 32],
    ss_xb: &[u8; 32],
    x_pub: &[u8; 32],
    y_pub: &[u8; 32],
    b_pub: &[u8; 32],
) -> (r: E2EKeys)
    ensures
        r.cut_from(e2e_material(ss_xy@, ss_xb@, x_pub@, y_pub@, b_pub@)),
{
    let mut ikm: Vec<u8> = Vec::new();
    append(&mut ikm, ss_xy.as_slice());
    append(&mut ikm, ss_xb.as_slice());
    append(&mut ikm, x_pub.as_slice());
    append(&mut ikm, y_pub.as_slice());
    append(&mut ikm, b_pub.as_slice());
    append(&mut ikm, HS_PROTOID.as_bytes());
    assert(ikm@ =~= ss_xy@ + ss_xb@ + x_pub@ + y_pub@ + b_pub@ + HS_PROTOID.spec_bytes());
    let km: Vec<u8> = hkdf_derive(
        &ikm,
        "phinet-hs-e2e-salt".as_bytes(),
        "e2e-expand".as_bytes(),
        104,
    );
    E2EKeys {
        client_to_hs_key: array_32(&km, 0),
        hs_to_client_key: array_32(&km, 32),
        c2h_digest_seed: array_20(&km, 64),
        h2c_digest_seed: array_20(&km, 84),
    }
}

/// The tag over the transcript, under the client-to-service key.
fn compute_e2e_auth(keys: &E2EKeys, x_pub: &[u8; 32], y_pub: &[u8; 32], b_pub: &[u8; 32]) -> (r: [
u8; 32])
    ensures
        forall|km: Seq<u8>|
            keys.cut_from(km) ==> r@ == #[trigger] e2e_auth(km, x_pub@, y_pub@, b_pub@),
{
    let mut data: Vec<u8> = Vec::new();
    append(&mut data, HS_PROTOID.as_bytes());
    append(&mut data, ":e2e-auth:".as_bytes());
    append(&mut data, x_pub.as_slice());
    append(&mut data, y_pub.as_slice());
    append(&mut data, b_pub.as_slice());
    assert(data@ =~= HS_PROTOID.spec_bytes() + ":e2e-auth:".spec_bytes() + x_pub@ + y_pub@
        + b_pub@);
    hmac_sha256(keys.client_to_hs_key.as_slice(), &data)
}

/// A fresh rendezvous cookie.
pub fn fresh_cookie() -> (r: [u8; 20])
    ensures
        r@.len() == COOKIE_LEN,
        crypto::is_random(r@),
{
    let v: Vec<u8> = fresh_bytes(20);
    assert(v@.subrange(0, 20) =~= v@);
    array_20(&v, 0)
}

/// Every message of a rendezvous reads back as it was written, whatever padding follows it.
pub proof fn law_messages_read_back(
    a: EstablishIntro,
    ab: Vec<u8>,
    abuf: &[u8],
    ar: Result<EstablishIntro, Error>,
    c: EstablishRendezvous,
    cb: Vec<u8>,
    cbuf: &[u8],
    cr: Result<EstablishRendezvous, Error>,
    d: Rendezvous1,
    db: Vec<u8>,
    dbuf: &[u8],
    dr: Result<Rendezvous1, Error>,
    e: Rendezvous2,
    eb: Vec<u8>,
    ebuf: &[u8],
    er: Result<Rendezvous2, Error>,
    pad: Seq<u8>,
)
    requires
        call_ensures(EstablishIntro::encode, (&a,), ab),
        abuf@ == ab@ + pad,
        call_ensures(EstablishIntro::decode, (abuf,), ar),
        call_ensures(EstablishRendezvous::encode, (&c,), cb),
        cbuf@ == cb@ + pad,
        call_ensures(EstablishRendezvous::decode, (cbuf,), cr),
        call_ensures(Rendezvous1::encode, (&d,), db),
        dbuf@ == db@ + pad,
        call_ensures(Rendezvous1::decode, (dbuf,), dr),
        call_ensures(Rendezvous2::encode, (&e,), eb),
        ebuf@ == eb@ + pad,
        call_ensures(Rendezvous2::decode, (ebuf,), er),
    ensures
        ar is Ok && ar->Ok_0.auth_key_pub@ == a.auth_key_pub@ && ar->Ok_0.sig@ == a.sig@,
        cr is Ok && cr->Ok_0.cookie@ == c.cookie@,
        dr is Ok && dr->Ok_0.cookie@ == d.cookie@ && dr->Ok_0.server_y@ == d.server_y@ && dr->Ok_0.auth@ == d.auth@,
        er is Ok && er->Ok_0.server_y@ == e.server_y@ && er->Ok_0.auth@ == e.auth@,
{
    law_establish_intro_roundtrip(a.auth_key_pub@, a.sig@, pad);
    assert(cbuf@.take(20) =~= c.cookie@);
    assert(dbuf@.take(84) =~= d.cookie@ + d.server_y@ + d.auth@);
    assert(ebuf@.take(64) =~= e.server_y@ + e.auth@);
    let m1 = dr->Ok_0;
    let m2 = er->Ok_0;
    let s1 = m1.cookie@ + m1.server_y@ + m1.auth@;
    assert(m1.cookie@ =~= s1.subrange(0, 20) && m1.server_y@ =~= s1.subrange(20, 52) && m1.auth@ =~= s1.subrange(52, 84));
    let t1 = d.cookie@ + d.server_y@ + d.auth@;
    assert(d.cookie@ =~= t1.subrange(0, 20) && d.server_y@ =~= t1.subrange(20, 52) && d.auth@ =~= t1.subrange(52, 84));
    let s2 = m2.server_y@ + m2.auth@;
    assert(m2.server_y@ =~= s2.subrange(0, 32) && m2.auth@ =~= s2.subrange(32, 64));
    let t2 = e.server_y@ + e.auth@;
    assert(e.server_y@ =~= t2.subrange(0, 32) && e.auth@ =~= t2.subrange(32, 64));
}

/// An introduction brings the service what the client put in it: sealed for the service,
/// sent as bytes, read and opened there, it names the same rendezvous point and cookie.
pub proof fn law_an_introduction_arrives(
    b_secret: &[u8; 32],
    b: &[u8; 32],
    auth: &[u8; 32],
    p: &IntroducePlaintext,
    m: Introduce,
    sk: [u8; 32],
    sent: Vec<u8>,
    buf: &[u8],
    pad: Seq<u8>,
    read: Result<Introduce, Error>,
    q: Result<IntroducePlaintext, Error>,
)
    requires
        b@ == crypto::x25519_public_of(b_secret@),
        encode_utf8(p.rp_host@).len() <= 20,
        forall|i: int| 0 <= i < encode_utf8(p.rp_host@).len() ==> encode_utf8(p.rp_host@)[i] != 0,
        call_ensures(Introduce::build_for_hs, (b, auth, p), (m, sk)),
        call_ensures(Introduce::encode, (&m,), sent),
        buf@ == sent@ + pad,
        call_ensures(Introduce::decode, (buf,), read),
        read is Ok ==> call_ensures(Introduce::open_at_hs, (&read->Ok_0, b_secret, b), q),
    ensures
        read is Ok && read->Ok_0.auth_key_pub@ == auth@,
        q is Ok && q->Ok_0.rp_node_id@ == p.rp_node_id@ && q->Ok_0.rp_host@ == p.rp_host@ && q->Ok_0.rp_port
            == p.rp_port && q->Ok_0.cookie@ == p.cookie@,
{
    bytes::lemma_be_bytes_len(p.rp_port as nat, 2);
    assert(p.bytes().len() == 74);
    law_introduce_roundtrip(m.auth_key_pub@, m.client_ntor_x@, m.enc_payload@, m.mac@, pad);
    let n = read->Ok_0;
    law_introductions_reach_the_service(m, *p, b_secret@, q->Ok_0);
    assert(n.opened(b_secret@, b@) == m.opened(b_secret@, b@));
}

/// The service and the client that it answers have the same four keys.
pub proof fn law_a_rendezvous_agrees(
    b_secret: &[u8; 32],
    b: &[u8; 32],
    x_secret: &[u8; 32],
    x: &[u8; 32],
    k: E2EKeys,
    y: [u8; 32],
    auth: [u8; 32],
    r: Result<E2EKeys, Error>,
    changed: &[u8; 32],
    refused: Result<E2EKeys, Error>,
)
    requires
        b@ == crypto::x25519_public_of(b_secret@),
        x@ == crypto::x25519_public_of(x_secret@),
        call_ensures(hs_finalize, (b_secret, b, x), (k, y, auth)),
        call_ensures(client_finalize, (x_secret, x, b, &y, &auth), r),
        changed@ != auth@,
        call_ensures(client_finalize, (x_secret, x, b, &y, changed), refused),
    ensures
        r is Ok && r->Ok_0.client_to_hs_key@ == k.client_to_hs_key@ && r->Ok_0.hs_to_client_key@ == k.hs_to_client_key@
            && r->Ok_0.c2h_digest_seed@ == k.c2h_digest_seed@ && r->Ok_0.h2c_digest_seed@ == k.h2c_digest_seed@,
        refused == Err::<E2EKeys, Error>(Error::AuthFailed),
{
}

/// The keys of a rendezvous are cut from both secrets and the three public keys, in this
/// order and under the labels of this protocol.
pub proof fn law_rendezvous_keys_come_from_both_secrets(
    x_secret: &[u8; 32],
    x: &[u8; 32],
    b: &[u8; 32],
    y: &[u8; 32],
    auth: &[u8; 32],
    k: E2EKeys,
)
    requires
        call_ensures(client_finalize, (x_secret, x, b, y, auth), Ok(k)),
    ensures
        ({
            let km = crypto::hkdf_of(
                crypto::x25519_of(x_secret@, y@) + crypto::x25519_of(x_secret@, b@) + x@ + y@ + b@
                    + "phinet-hs-rendezvous-v1".spec_bytes(),
                "phinet-hs-e2e-salt".spec_bytes(),
                "e2e-expand".spec_bytes(),
                104,
            );
            &&& auth@ == crypto::hmac_of(
                km.subrange(0, 32),
                "phinet-hs-rendezvous-v1".spec_bytes() + ":e2e-auth:".spec_bytes() + x@ + y@ + b@,
            )
            &&& k.client_to_hs_key@ == km.subrange(0, 32)
            &&& k.hs_to_client_key@ == km.subrange(32, 64)
            &&& k.c2h_digest_seed@ == km.subrange(64, 84)
            &&& k.h2c_digest_seed@ == km.subrange(84, 104)
        }),
{
}

/// How the messages of a rendezvous lie in bytes: the request for an introduction point is
/// its kind, two, its key with the length before it, no extensions, and its signature with
/// the length before it; an introduction is the service's key, the client's, the sealed
/// text with its length before it, and the tag.
pub proof fn law_how_messages_lie_in_bytes(a: EstablishIntro, ab: Vec<u8>, m: Introduce, mb: Vec<u8>)
    requires
        call_ensures(EstablishIntro::encode, (&a,), ab),
        call_ensures(Introduce::encode, (&m,), mb),
    ensures
        ab@.len() == 73,
        ab@.subrange(0, 3) == seq![2u8, 0, 32],
        ab@.subrange(3, 35) == a.auth_key_pub@,
        ab@.subrange(35, 41) == seq![0u8, 0, 0, 0, 0, 32],
        ab@.subrange(41, 73) == a.sig@,
        mb@.len() == 98 + m.enc_payload@.len(),
        mb@.subrange(0, 32) == m.auth_key_pub@,
        mb@.subrange(32, 64) == m.client_ntor_x@,
        m.enc_payload@.len() < 0x1_0000 ==> mb@[64] * 256 + mb@[65] == m.enc_payload@.len(),
        mb@.subrange(66, 66 + m.enc_payload@.len() as int) == m.enc_payload@,
        mb@.skip(66 + m.enc_payload@.len() as int) == m.mac@,
{
    reveal_with_fuel(bytes::be_bytes, 5);
    assert(bytes::be_bytes(32, 2) =~= seq![0u8, 32]);
    assert(bytes::be_bytes(0, 4) =~= seq![0u8, 0, 0, 0]);
    assert(ab@.subrange(0, 3) =~= seq![2u8, 0, 32]);
    assert(ab@.subrange(3, 35) =~= a.auth_key_pub@);
    assert(ab@.subrange(35, 41) =~= seq![0u8, 0, 0, 0, 0, 32]);
    assert(ab@.subrange(41, 73) =~= a.sig@);
    let n = m.enc_payload@.len();
    bytes::lemma_be_bytes_len(n, 2);
    assert(mb@.subrange(0, 32) =~= m.auth_key_pub@);
    assert(mb@.subrange(32, 64) =~= m.client_ntor_x@);
    assert(mb@.subrange(66, 66 + n as int) =~= m.enc_payload@);
    assert(mb@.skip(66 + n as int) =~= m.mac@);
    if n < 0x1_0000 {
        let l = bytes::be_bytes(n, 2);
        assert(mb@[64] == l[0] && mb@[65] == l[1]);
        assert(l[1] == (n % 256) as u8);
        assert(l[0] == ((n / 256) % 256) as u8);
    }
}

/// The text of an introduction names the rendezvous point, the cookie and the address, in
/// 74 bytes: a host that is longer than its field is cut.
pub proof fn law_how_an_introduction_is_laid_out(p: &IntroducePlaintext, r: Vec<u8>)
    requires
        call_ensures(encode_intro_plaintext, (p,), r),
    ensures
        r@.len() == 74,
        r@.subrange(0, 32) == p.rp_node_id@,
        r@.subrange(32, 52) == p.cookie@,
        forall|i: int|
            0 <= i < 20 ==> #[trigger] r@[52 + i] == if i < encode_utf8(p.rp_host@).len() {
                encode_utf8(p.rp_host@)[i]
            } else {
                0
            },
        r@[72] * 256 + r@[73] == p.rp_port,
{
    bytes::lemma_be_bytes_len(p.rp_port as nat, 2);
    assert(r@.subrange(0, 32) =~= p.rp_node_id@);
    assert(r@.subrange(32, 52) =~= p.cookie@);
    reveal_with_fuel(bytes::be_bytes, 3);
    let l = bytes::be_bytes(p.rp_port as nat, 2);
    assert(r@[72] == l[0] && r@[73] == l[1]);
    assert(l[1] == (p.rp_port % 256) as u8);
    assert(l[0] == ((p.rp_port / 256) % 256) as u8);
}

/// The text of an introduction reads back as it was written, where the host fits its field.
pub proof fn law_introduction_texts_read_back(p: &IntroducePlaintext, written: Vec<u8>, buf: &[u8], r: Result<IntroducePlaintext, Error>)
    requires
        encode_utf8(p.rp_host@).len() <= 20,
        forall|i: int| 0 <= i < encode_utf8(p.rp_host@).len() ==> encode_utf8(p.rp_host@)[i] != 0,
        call_ensures(encode_intro_plaintext, (p,), written),
        buf@ == written@,
        call_ensures(decode_intro_plaintext, (buf,), r),
    ensures
        r is Ok && r->Ok_0.rp_node_id@ == p.rp_node_id@ && r->Ok_0.cookie@ == p.cookie@ && r->Ok_0.rp_host@ == p.rp_host@
            && r->Ok_0.rp_port == p.rp_port,
{
    law_intro_plaintext_roundtrip(*p, r->Ok_0);
}

/// A service that answers with a given secret agrees with the client too, and sends the
/// public half of that secret.
pub proof fn law_given_answers_agree(
    b_secret: &[u8; 32],
    b: &[u8; 32],
    x_secret: &[u8; 32],
    x: &[u8; 32],
    y: [u8; 32],
    k: E2EKeys,
    y_pub: [u8; 32],
    auth: [u8; 32],
    r: Result<E2EKeys, Error>,
)
    requires
        b@ == crypto::x25519_public_of(b_secret@),
        x@ == crypto::x25519_public_of(x_secret@),
        call_ensures(hs_finalize_with, (b_secret, b, x, y), (k, y_pub, auth)),
        call_ensures(client_finalize, (x_secret, x, b, &y_pub, &auth), r),
    ensures
        y_pub@ == crypto::x25519_public_of(y@),
        r is Ok && r->Ok_0.client_to_hs_key@ == k.client_to_hs_key@ && r->Ok_0.hs_to_client_key@
            == k.hs_to_client_key@,
{
}

/// Cookies are twenty random bytes.
pub proof fn law_cookies_are_random(c: [u8; 20])
    requires
        call_ensures(fresh_cookie, (), c),
    ensures
        crypto::is_random(c@),
        c@.len() == 20,
{
}

} // verus!
