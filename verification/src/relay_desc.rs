//! Signed self-declarations of relays.
//!
//! A descriptor proves who said something, to anyone who has pinned the
//! signing key of the relay over an authenticated link. It does not prove that
//! what it says is true.

use crate::bytes;
use crate::bytes::{append, array_32, array_64, push_be};
use crate::crypto;
use crate::crypto::{ed25519_decodes, ed25519_public, ed25519_sign, ed25519_verify};
use crate::text;
use crate::text::{hex_decode, hex_encode, str_eq};
use vstd::prelude::*;
use vstd::string::*;
use vstd::utf8::*;

verus! {

/// Seconds for which a descriptor stays fresh.
pub const DESC_LIFETIME_SECS: u64 = 86_400;

/// Seconds by which a descriptor may be ahead of the reader's clock.
pub const MAX_CLOCK_SKEW_SECS: u64 = 600;

/// What a relay says of itself.
#[derive(Clone, Debug, PartialEq)]
pub struct RelayDescriptor {
    /// The node that this describes.
    pub node_id_hex: String,
    /// The Ed25519 key that signs, in hexadecimal.
    pub signing_pub_hex: String,
    pub host: String,
    pub port: u16,
    /// The X25519 static key for circuit handshakes, in hexadecimal.
    pub static_pub_hex: String,
    /// The operator's label; empty when unaffiliated.
    pub family: String,
    pub exit_policy_summary: String,
    /// When this was published, in Unix seconds.
    pub published: u64,
    /// The signature over `canonical_bytes`, in hexadecimal.
    pub signature_hex: String,
}

impl RelayDescriptor {
    /// A copy.
    pub fn duplicate(&self) -> (r: Self)
        ensures
            r == *self,
    {
        RelayDescriptor {
            node_id_hex: self.node_id_hex.clone(),
            signing_pub_hex: self.signing_pub_hex.clone(),
            host: self.host.clone(),
            port: self.port,
            static_pub_hex: self.static_pub_hex.clone(),
            family: self.family.clone(),
            exit_policy_summary: self.exit_policy_summary.clone(),
            published: self.published,
            signature_hex: self.signature_hex.clone(),
        }
    }
}

/// Why a descriptor is refused.
#[derive(Debug, PartialEq)]
pub enum DescError {
    BadSignature,
    /// The signing key is not the one pinned for the node.
    WrongKey,
    Expired,
    FromTheFuture,
    Malformed(&'static str),
}

/// A text behind its length in four bytes.
pub open spec fn prefixed(s: Seq<char>) -> Seq<u8> {
    bytes::be_bytes(encode_utf8(s).len(), 4) + encode_utf8(s)
}

/// The bytes that a descriptor's signature covers.
pub open spec fn signed_bytes(d: RelayDescriptor) -> Seq<u8> {
    "phinet-relay-desc-v1".spec_bytes() + prefixed(d.node_id_hex@) + prefixed(d.signing_pub_hex@)
        + prefixed(d.host@) + bytes::be_bytes(d.port as nat, 2) + prefixed(d.static_pub_hex@) + prefixed(
        d.family@,
    ) + prefixed(d.exit_policy_summary@) + bytes::be_bytes(d.published as nat, 8)
}

/// The length of a text fits its prefix.
pub open spec fn fits_prefix(s: Seq<char>) -> bool {
    encode_utf8(s).len() < 0x1_0000_0000
}

/// Every text of a descriptor fits its prefix.
pub open spec fn texts_fit(d: RelayDescriptor) -> bool {
    &&& fits_prefix(d.node_id_hex@)
    &&& fits_prefix(d.signing_pub_hex@)
    &&& fits_prefix(d.host@)
    &&& fits_prefix(d.static_pub_hex@)
    &&& fits_prefix(d.family@)
    &&& fits_prefix(d.exit_policy_summary@)
}

/// Two descriptors say the same in everything that is signed.
pub open spec fn same_statement(a: RelayDescriptor, b: RelayDescriptor) -> bool {
    &&& a.node_id_hex@ == b.node_id_hex@
    &&& a.signing_pub_hex@ == b.signing_pub_hex@
    &&& a.host@ == b.host@
    &&& a.port == b.port
    &&& a.static_pub_hex@ == b.static_pub_hex@
    &&& a.family@ == b.family@
    &&& a.exit_policy_summary@ == b.exit_policy_summary@
    &&& a.published == b.published
}

proof fn lemma_prefixed_unambiguous(a: Seq<char>, b: Seq<char>, x: Seq<u8>, y: Seq<u8>)
    requires
        fits_prefix(a),
        fits_prefix(b),
        prefixed(a) + x == prefixed(b) + y,
    ensures
        a == b,
        x == y,
{
    let ea = encode_utf8(a);
    let eb = encode_utf8(b);
    bytes::lemma_be_bytes_len(ea.len(), 4);
    bytes::lemma_be_bytes_len(eb.len(), 4);
    bytes::lemma_pow256();
    let l = prefixed(a) + x;
    let r = prefixed(b) + y;
    assert(l.subrange(0, 4) =~= bytes::be_bytes(ea.len(), 4));
    assert(r.subrange(0, 4) =~= bytes::be_bytes(eb.len(), 4));
    bytes::lemma_be_injective(ea.len(), eb.len(), 4);
    assert(l.subrange(4, 4 + ea.len() as int) =~= ea);
    assert(r.subrange(4, 4 + eb.len() as int) =~= eb);
    encode_utf8_decode_utf8(a);
    encode_utf8_decode_utf8(b);
    assert(x =~= l.skip(4 + ea.len() as int));
    assert(y =~= r.skip(4 + eb.len() as int));
}

proof fn lemma_fixed_unambiguous(a: nat, b: nat, n: nat, x: Seq<u8>, y: Seq<u8>)
    requires
        a < bytes::pow256(n),
        b < bytes::pow256(n),
        bytes::be_bytes(a, n) + x == bytes::be_bytes(b, n) + y,
    ensures
        a == b,
        x == y,
{
    bytes::lemma_be_bytes_len(a, n);
    bytes::lemma_be_bytes_len(b, n);
    let l = bytes::be_bytes(a, n) + x;
    let r = bytes::be_bytes(b, n) + y;
    assert(l.take(n as int) =~= bytes::be_bytes(a, n));
    assert(r.take(n as int) =~= bytes::be_bytes(b, n));
    bytes::lemma_be_injective(a, b, n);
    assert(x =~= l.skip(n as int));
    assert(y =~= r.skip(n as int));
}

proof fn lemma_assoc(x: Seq<u8>, y: Seq<u8>, z: Seq<u8>)
    ensures
        (x + y) + z == x + (y + z),
{
    assert((x + y) + z =~= x + (y + z));
}

proof fn lemma_regroup(
    t: Seq<u8>,
    p0: Seq<u8>,
    p1: Seq<u8>,
    p2: Seq<u8>,
    p3: Seq<u8>,
    p4: Seq<u8>,
    p5: Seq<u8>,
    p6: Seq<u8>,
    p7: Seq<u8>,
)
    ensures
        t + p0 + p1 + p2 + p3 + p4 + p5 + p6 + p7 == t + (p0 + (p1 + (p2 + (p3 + (p4 + (p5 + (p6
            + p7))))))),
{
    lemma_assoc(t + p0 + p1 + p2 + p3 + p4 + p5, p6, p7);
    lemma_assoc(t + p0 + p1 + p2 + p3 + p4, p5, p6 + p7);
    lemma_assoc(t + p0 + p1 + p2 + p3, p4, p5 + (p6 + p7));
    lemma_assoc(t + p0 + p1 + p2, p3, p4 + (p5 + (p6 + p7)));
    lemma_assoc(t + p0 + p1, p2, p3 + (p4 + (p5 + (p6 + p7))));
    lemma_assoc(t + p0, p1, p2 + (p3 + (p4 + (p5 + (p6 + p7)))));
    lemma_assoc(t, p0, p1 + (p2 + (p3 + (p4 + (p5 + (p6 + p7))))));
}

proof fn lemma_common_prefix(t: Seq<u8>, x: Seq<u8>, y: Seq<u8>)
    requires
        t + x == t + y,
    ensures
        x == y,
{
    assert(x =~= (t + x).skip(t.len() as int));
    assert(y =~= (t + y).skip(t.len() as int));
}

/// Field boundaries are unambiguous: two descriptors whose signed bytes are
/// equal make the same statement.
pub proof fn law_signed_bytes_determine_the_statement(a: RelayDescriptor, b: RelayDescriptor)
    requires
        texts_fit(a),
        texts_fit(b),
        signed_bytes(a) == signed_bytes(b),
    ensures
        same_statement(a, b),
{
    let tag = "phinet-relay-desc-v1".spec_bytes();
    bytes::lemma_pow256();
    let a7 = bytes::be_bytes(a.published as nat, 8);
    let b7 = bytes::be_bytes(b.published as nat, 8);
    let a6 = prefixed(a.exit_policy_summary@) + a7;
    let b6 = prefixed(b.exit_policy_summary@) + b7;
    let a5 = prefixed(a.family@) + a6;
    let b5 = prefixed(b.family@) + b6;
    let a4 = prefixed(a.static_pub_hex@) + a5;
    let b4 = prefixed(b.static_pub_hex@) + b5;
    let a3 = bytes::be_bytes(a.port as nat, 2) + a4;
    let b3 = bytes::be_bytes(b.port as nat, 2) + b4;
    let a2 = prefixed(a.host@) + a3;
    let b2 = prefixed(b.host@) + b3;
    let a1 = prefixed(a.signing_pub_hex@) + a2;
    let b1 = prefixed(b.signing_pub_hex@) + b2;
    lemma_regroup(
        tag,
        prefixed(a.node_id_hex@),
        prefixed(a.signing_pub_hex@),
        prefixed(a.host@),
        bytes::be_bytes(a.port as nat, 2),
        prefixed(a.static_pub_hex@),
        prefixed(a.family@),
        prefixed(a.exit_policy_summary@),
        a7,
    );
    lemma_regroup(
        tag,
        prefixed(b.node_id_hex@),
        prefixed(b.signing_pub_hex@),
        prefixed(b.host@),
        bytes::be_bytes(b.port as nat, 2),
        prefixed(b.static_pub_hex@),
        prefixed(b.family@),
        prefixed(b.exit_policy_summary@),
        b7,
    );
    lemma_common_prefix(tag, prefixed(a.node_id_hex@) + a1, prefixed(b.node_id_hex@) + b1);
    lemma_prefixed_unambiguous(a.node_id_hex@, b.node_id_hex@, a1, b1);
    lemma_prefixed_unambiguous(a.signing_pub_hex@, b.signing_pub_hex@, a2, b2);
    lemma_prefixed_unambiguous(a.host@, b.host@, a3, b3);
    lemma_fixed_unambiguous(a.port as nat, b.port as nat, 2, a4, b4);
    lemma_prefixed_unambiguous(a.static_pub_hex@, b.static_pub_hex@, a5, b5);
    lemma_prefixed_unambiguous(a.family@, b.family@, a6, b6);
    lemma_prefixed_unambiguous(a.exit_policy_summary@, b.exit_policy_summary@, a7, b7);
    bytes::lemma_be_injective(a.published as nat, b.published as nat, 8);
}

/// Appends a text behind its length.
fn push_prefixed(out: &mut Vec<u8>, s: &str)
    ensures
        final(out)@ == old(out)@ + prefixed(s@),
{
    let b: &[u8] = s.as_bytes();
    push_be(out, b.len() as u64, 4);
    append(out, b);
    assert(out@ =~= old(out)@ + prefixed(s@));
}

/// Everything that the signature covers, each text behind its length.
pub fn canonical_bytes(d: &RelayDescriptor) -> (r: Vec<u8>)
    ensures
        r@ == signed_bytes(*d),
{
    let mut out: Vec<u8> = Vec::new();
    append(&mut out, "phinet-relay-desc-v1".as_bytes());
    push_prefixed(&mut out, d.node_id_hex.as_str());
    push_prefixed(&mut out, d.signing_pub_hex.as_str());
    push_prefixed(&mut out, d.host.as_str());
    push_be(&mut out, d.port as u64, 2);
    push_prefixed(&mut out, d.static_pub_hex.as_str());
    push_prefixed(&mut out, d.family.as_str());
    push_prefixed(&mut out, d.exit_policy_summary.as_str());
    push_be(&mut out, d.published, 8);
    assert(out@ =~= signed_bytes(*d));
    out
}

/// What becomes of the descriptor `d` at the time `now`, where `pinned` is the
/// signing key pinned for its node.
pub open spec fn verdict(d: RelayDescriptor, pinned: Option<Seq<char>>, now: u64) -> Result<
    (),
    DescError,
> {
    let key = text::unhex(d.signing_pub_hex@);
    let sig = text::unhex(d.signature_hex@);
    if pinned != Some(d.signing_pub_hex@) {
        Err(DescError::WrongKey)
    } else if d.published > now + MAX_CLOCK_SKEW_SECS {
        Err(DescError::FromTheFuture)
    } else if now - d.published > DESC_LIFETIME_SECS {
        Err(DescError::Expired)
    } else if !(text::is_hex(d.signing_pub_hex@) && key.len() == 32) {
        Err(DescError::Malformed("signing_pub"))
    } else if !crypto::ed25519_is_point(key) {
        Err(DescError::Malformed("signing_pub not a point"))
    } else if !(text::is_hex(d.signature_hex@) && sig.len() == 64) {
        Err(DescError::Malformed("signature"))
    } else if !crypto::ed25519_verifies(key, signed_bytes(d), sig) {
        Err(DescError::BadSignature)
    } else {
        Ok(())
    }
}

/// `d` is neither too old nor too far ahead at the time `now`.
pub open spec fn fresh_at(d: RelayDescriptor, now: u64) -> bool {
    d.published <= now + MAX_CLOCK_SKEW_SECS && now - d.published <= DESC_LIFETIME_SECS
}

/// Builds and signs a descriptor. As long as it is fresh it is accepted by
/// everyone who pinned the signing key.
pub fn build(
    signing: &[u8; 32],
    node_id_hex: String,
    host: String,
    port: u16,
    static_pub_hex: String,
    family: String,
    exit_policy_summary: String,
    published: u64,
) -> (r: RelayDescriptor)
    ensures
        r.node_id_hex@ == node_id_hex@,
        r.signing_pub_hex@ == text::hex_of(crypto::ed25519_public_of(signing@)),
        r.host@ == host@,
        r.port == port,
        r.static_pub_hex@ == static_pub_hex@,
        r.family@ == family@,
        r.exit_policy_summary@ == exit_policy_summary@,
        r.published == published,
        r.signature_hex@ == text::hex_of(crypto::ed25519_sign_of(signing@, signed_bytes(r))),
        forall|now: u64|
            fresh_at(r, now) ==> #[trigger] verdict(r, Some(r.signing_pub_hex@), now) == Ok::<
                (),
                DescError,
            >(()),
{
    let public: [u8; 32] = ed25519_public(signing);
    let mut d: RelayDescriptor = RelayDescriptor {
        node_id_hex,
        signing_pub_hex: hex_encode(public.as_slice()),
        host,
        port,
        static_pub_hex,
        family,
        exit_policy_summary,
        published,
        signature_hex: String::new(),
    };
    let bytes: Vec<u8> = canonical_bytes(&d);
    let sig: [u8; 64] = ed25519_sign(signing, &bytes);
    d.signature_hex = hex_encode(sig.as_slice());
    proof {
        text::lemma_hex_roundtrip(public@);
        text::lemma_hex_roundtrip(sig@);
        assert(signed_bytes(d) == bytes@);
    }
    d
}

/// Checks a descriptor against the key pinned for its node, and its freshness.
/// Without a pinned key nothing is accepted: a correct signature of an unknown
/// key proves nothing.
pub fn verify(d: &RelayDescriptor, expect_signing_pub: Option<&str>, now: u64) -> (r: Result<
    (),
    DescError,
>)
    ensures
        r == verdict(
            *d,
            match expect_signing_pub {
                Some(p) => Some(p@),
                None => None,
            },
            now,
        ),
{
    match expect_signing_pub {
        None => {
            return Err(DescError::WrongKey);
        },
        Some(pinned) => {
            if !str_eq(pinned, d.signing_pub_hex.as_str()) {
                return Err(DescError::WrongKey);
            }
        },
    }
    if d.published > now.saturating_add(MAX_CLOCK_SKEW_SECS) {
        return Err(DescError::FromTheFuture);
    }
    if now.saturating_sub(d.published) > DESC_LIFETIME_SECS {
        return Err(DescError::Expired);
    }
    let key: [u8; 32] = match hex_decode(d.signing_pub_hex.as_str()) {
        Ok(v) => {
            if v.len() != 32 {
                return Err(DescError::Malformed("signing_pub"));
            }
            assert(v@.subrange(0, 32) =~= v@);
            array_32(&v, 0)
        },
        Err(_) => {
            return Err(DescError::Malformed("signing_pub"));
        },
    };
    if !ed25519_decodes(&key) {
        return Err(DescError::Malformed("signing_pub not a point"));
    }
    let sig: [u8; 64] = match hex_decode(d.signature_hex.as_str()) {
        Ok(v) => {
            if v.len() != 64 {
                return Err(DescError::Malformed("signature"));
            }
            assert(v@.subrange(0, 64) =~= v@);
            array_64(&v, 0)
        },
        Err(_) => {
            return Err(DescError::Malformed("signature"));
        },
    };
    let bytes: Vec<u8> = canonical_bytes(d);
    if ed25519_verify(&key, &bytes, &sig) {
        Ok(())
    } else {
        Err(DescError::BadSignature)
    }
}

/// A descriptor that a relay built is verified by whoever knows the relay's key, for a day
/// from when it was published and ten minutes before; not by one who knows another key, or
/// none, and not at another time.
pub proof fn law_built_descriptors_are_verified(
    signing: &[u8; 32],
    node_id_hex: String,
    host: String,
    port: u16,
    static_pub_hex: String,
    family: String,
    policy: String,
    published: u64,
    d: RelayDescriptor,
    key: &str,
    now: u64,
    r: Result<(), DescError>,
    other: &str,
    wrong: Result<(), DescError>,
    unknown: Result<(), DescError>,
)
    requires
        call_ensures(
            build,
            (signing, node_id_hex, host, port, static_pub_hex, family, policy, published),
            d,
        ),
        key@ == text::hex_of(crypto::ed25519_public_of(signing@)),
        other@ != key@,
        call_ensures(verify, (&d, Some(key), now), r),
        call_ensures(verify, (&d, Some(other), now), wrong),
        call_ensures(verify, (&d, None, now), unknown),
    ensures
        r is Ok <==> published <= now + 10 * 60 && now <= published + 24 * 60 * 60,
        published > now + 600 ==> r->Err_0 is FromTheFuture,
        now > published + 86_400 ==> r->Err_0 is Expired,
        wrong is Err && wrong->Err_0 is WrongKey,
        unknown is Err && unknown->Err_0 is WrongKey,
{
    if fresh_at(d, now) {
        assert(verdict(d, Some(d.signing_pub_hex@), now) == Ok::<(), DescError>(()));
    }
}

/// What is verified says what was signed: a descriptor that states something else under the
/// same signature is accepted only where the signature fits its own bytes.
pub proof fn law_verified_descriptors_are_signed(d: &RelayDescriptor, key: &str, now: u64, r: Result<(), DescError>)
    requires
        call_ensures(verify, (d, Some(key), now), r),
        r is Ok,
    ensures
        key@ == d.signing_pub_hex@,
        crypto::ed25519_verifies(text::unhex(d.signing_pub_hex@), signed_bytes(*d), text::unhex(d.signature_hex@)),
        text::unhex(d.signing_pub_hex@).len() == 32,
        text::unhex(d.signature_hex@).len() == 64,
{
}

/// Two descriptors with the same signed bytes state the same.
pub proof fn law_the_signed_bytes_hold_every_field(a: &RelayDescriptor, b: &RelayDescriptor, x: Vec<u8>, y: Vec<u8>)
    requires
        texts_fit(*a),
        texts_fit(*b),
        call_ensures(canonical_bytes, (a,), x),
        call_ensures(canonical_bytes, (b,), y),
        x@ == y@,
    ensures
        a.node_id_hex@ == b.node_id_hex@ && a.signing_pub_hex@ == b.signing_pub_hex@ && a.host@ == b.host@ && a.port
            == b.port && a.static_pub_hex@ == b.static_pub_hex@ && a.family@ == b.family@ && a.exit_policy_summary@
            == b.exit_policy_summary@ && a.published == b.published,
{
    law_signed_bytes_determine_the_statement(*a, *b);
}

/// A descriptor is signed with its label before it and the length of every text before the
/// text, in the order of its fields.
pub proof fn law_what_a_descriptor_signs(d: &RelayDescriptor, r: Vec<u8>)
    requires
        call_ensures(canonical_bytes, (d,), r),
    ensures
        ({
            let a = encode_utf8(d.node_id_hex@);
            let b = encode_utf8(d.signing_pub_hex@);
            let c = encode_utf8(d.host@);
            let e = encode_utf8(d.static_pub_hex@);
            let f = encode_utf8(d.family@);
            let g = encode_utf8(d.exit_policy_summary@);
            r@ == "phinet-relay-desc-v1".spec_bytes() + (bytes::be_bytes(a.len(), 4) + a) + (bytes::be_bytes(b.len(), 4)
                + b) + (bytes::be_bytes(c.len(), 4) + c) + bytes::be_bytes(d.port as nat, 2) + (bytes::be_bytes(
                e.len(),
                4,
            ) + e) + (bytes::be_bytes(f.len(), 4) + f) + (bytes::be_bytes(g.len(), 4) + g) + bytes::be_bytes(
                d.published as nat,
                8,
            )
        }),
{
}

} // verus!
