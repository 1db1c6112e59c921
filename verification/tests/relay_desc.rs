use ed25519_dalek::SigningKey;
use phinet_core::relay_desc::{
    build, canonical_bytes, verify, DescError, RelayDescriptor, DESC_LIFETIME_SECS,
    MAX_CLOCK_SKEW_SECS,
};
use rand::rngs::OsRng;


fn key() -> SigningKey {
    SigningKey::generate(&mut OsRng)
}

fn desc(k: &SigningKey, family: &str, published: u64) -> RelayDescriptor {
    build(&k.to_bytes(), "aa".repeat(32), "10.0.0.1".into(), 7700, "bb".repeat(32),
          family.into(), "default".into(), published)
}

fn pin(k: &SigningKey) -> String { hex::encode(k.verifying_key().to_bytes()) }

#[test]
fn a_relays_own_descriptor_verifies() {
    let k = key();
    let d = desc(&k, "acme", 1000);
    assert_eq!(verify(&d, Some(&pin(&k)), 1000), Ok(()));
}

#[test]
fn an_unmet_node_is_not_trusted_just_because_it_signed_correctly() {
    // The whole point of pinning: a valid signature proves someone owns a
    // key, not that the key owns the node id. Anyone can sign their own
    // claim to be someone else.
    let k = key();
    let d = desc(&k, "acme", 1000);
    assert_eq!(verify(&d, None, 1000), Err(DescError::WrongKey));
}

#[test]
fn impersonation_with_a_different_key_is_refused() {
    let real = key();
    let attacker = key();
    // Attacker claims the same node id, signs perfectly with their key.
    let forged = desc(&attacker, "attacker", 1000);
    assert_eq!(verify(&forged, Some(&pin(&real)), 1000), Err(DescError::WrongKey));
}

#[test]
fn tampering_with_family_breaks_the_signature() {
    // Family is the field with an attack behind it: tag every relay into
    // one family and path selection refuses to build anything.
    let k = key();
    let mut d = desc(&k, "", 1000);
    d.family = "everyone".into();
    assert_eq!(verify(&d, Some(&pin(&k)), 1000), Err(DescError::BadSignature));
}

#[test]
fn tampering_with_the_address_breaks_the_signature() {
    let k = key();
    let mut d = desc(&k, "", 1000);
    d.host = "evil.example".into();
    assert_eq!(verify(&d, Some(&pin(&k)), 1000), Err(DescError::BadSignature));
}

#[test]
fn tampering_with_the_static_key_breaks_the_signature() {
    // Swapping `B` would let an attacker terminate ntor handshakes meant
    // for this relay.
    let k = key();
    let mut d = desc(&k, "", 1000);
    d.static_pub_hex = "cc".repeat(32);
    assert_eq!(verify(&d, Some(&pin(&k)), 1000), Err(DescError::BadSignature));
}

#[test]
fn an_old_descriptor_expires() {
    // Otherwise a replayed descriptor could undo a policy change the
    // operator made deliberately.
    let k = key();
    let d = desc(&k, "", 1000);
    assert_eq!(verify(&d, Some(&pin(&k)), 1000 + DESC_LIFETIME_SECS + 1),
               Err(DescError::Expired));
}

#[test]
fn small_clock_skew_is_tolerated() {
    let k = key();
    let d = desc(&k, "", 1000);
    assert_eq!(verify(&d, Some(&pin(&k)), 999), Ok(()), "clocks disagree; that's normal");
}

#[test]
fn a_descriptor_from_next_week_is_refused() {
    let k = key();
    let d = desc(&k, "", 100_000);
    assert_eq!(verify(&d, Some(&pin(&k)), 1000), Err(DescError::FromTheFuture));
}

#[test]
fn field_boundaries_are_unambiguous() {
    // Without length prefixes, ("ab","c") and ("a","bc") hash the same,
    // and a signature over one verifies the other.
    let k = key();
    let a = build(&k.to_bytes(), "n".into(), "h".into(), 1, "s".into(),
                  "ab".into(), "c".into(), 1);
    let b = build(&k.to_bytes(), "n".into(), "h".into(), 1, "s".into(),
                  "a".into(), "bc".into(), 1);
    assert_ne!(canonical_bytes(&a), canonical_bytes(&b));
}

#[test]
fn the_limits_of_freshness_are_exact() {
    let k = key();
    let d = desc(&k, "", 100_000);
    let pinned = pin(&k);
    assert_eq!(verify(&d, Some(&pinned), 100_000 - MAX_CLOCK_SKEW_SECS), Ok(()));
    assert_eq!(verify(&d, Some(&pinned), 100_000 - MAX_CLOCK_SKEW_SECS - 1),
               Err(DescError::FromTheFuture));
    assert_eq!(verify(&d, Some(&pinned), 100_000 + DESC_LIFETIME_SECS), Ok(()));
}

#[test]
fn broken_hexadecimal_is_malformed() {
    let k = key();
    let mut d = desc(&k, "", 1000);
    d.signing_pub_hex = "zz".into();
    assert_eq!(verify(&d, Some("zz"), 1000), Err(DescError::Malformed("signing_pub")));
    let mut d = desc(&k, "", 1000);
    d.signature_hex = "aabb".into();
    assert_eq!(verify(&d, Some(&pin(&k)), 1000), Err(DescError::Malformed("signature")));
    // About half of all byte strings are no point of the curve.
    let mut refused = false;
    for b in 0..64u8 {
        let mut d = desc(&k, "", 1000);
        d.signing_pub_hex = hex::encode([b; 32]);
        let named = d.signing_pub_hex.clone();
        let r = verify(&d, Some(&named), 1000);
        if r == Err(DescError::Malformed("signing_pub not a point")) {
            refused = true;
        } else {
            assert_eq!(r, Err(DescError::BadSignature));
        }
    }
    assert!(refused);
}

#[test]
fn a_descriptor_states_what_it_was_built_from() {
    let k = key();
    let d = desc(&k, "acme", 1000);
    assert_eq!(d.signing_pub_hex, pin(&k));
    assert_eq!(d.port, 7700);
    assert_eq!(d.signature_hex.len(), 128);
    assert_eq!(d.duplicate(), d);
    let sig = ed25519_dalek::Signature::from_slice(&hex::decode(&d.signature_hex).unwrap()).unwrap();
    assert!(k.verifying_key().verify_strict(&canonical_bytes(&d), &sig).is_ok());
}
