use chacha20poly1305::aead::{Aead, Payload};
use chacha20poly1305::{ChaCha20Poly1305, KeyInit};
use phinet_core::bytes::{push_le, read_le64};
use phinet_core::crypto::{
    aead_decrypt, aead_encrypt, derive_hop_key, hkdf_derive, nonce96, random_32, random_u64,
};
use phinet_core::errors::Error;
use phinet_core::session::{EphemeralKeypair, Session, TrafficPadder, CELL_SIZE};

#[test]
fn session_encrypt_decrypt() {
    let s = [0x42u8; 64];
    let mut alice = Session::new(&s, true);
    let mut bob = Session::new(&s, false);
    let ct = alice.encrypt(b"hello");
    assert_eq!(bob.decrypt(&ct).unwrap(), b"hello");
}

#[test]
fn session_bidirectional() {
    let s = [0x11u8; 64];
    let mut alice = Session::new(&s, true);
    let mut bob = Session::new(&s, false);
    assert_eq!(bob.decrypt(&alice.encrypt(b"a2b")).unwrap(), b"a2b");
    assert_eq!(alice.decrypt(&bob.encrypt(b"b2a")).unwrap(), b"b2a");
}

#[test]
fn replay_rejected() {
    let s = [0x33u8; 64];
    let mut alice = Session::new(&s, true);
    let mut bob = Session::new(&s, false);
    let ct = alice.encrypt(b"msg");
    assert!(bob.decrypt(&ct).is_ok());
    assert!(bob.decrypt(&ct).is_err()); // the counter advanced
}

#[test]
fn session_id_deterministic_across_peers() {
    let s = [0xAAu8; 64];
    let alice = Session::new(&s, true);
    let bob = Session::new(&s, false);
    assert_eq!(alice.session_id(), bob.session_id(),
        "both peers must derive same session_id from same shared");
}

#[test]
fn session_id_differs_per_shared_secret() {
    let alice1 = Session::new(&[0x11u8; 64], true);
    let alice2 = Session::new(&[0x22u8; 64], true);
    assert_ne!(alice1.session_id(), alice2.session_id(),
        "different shared secrets must produce different session_ids");
}

#[test]
fn ciphertext_from_one_session_rejected_by_another() {
    let mut alice_a = Session::new(&[0x42u8; 64], true);
    let _bob_a = Session::new(&[0x42u8; 64], false);
    let _alice_b = Session::new(&[0x99u8; 64], true);
    let mut bob_b = Session::new(&[0x99u8; 64], false);

    let ct_a = alice_a.encrypt(b"private message session A");
    let r = bob_b.decrypt(&ct_a);
    assert!(r.is_err(), "ciphertext from session A must not decrypt with session B's key");
}

#[test]
fn nonce_direction_byte_separates_send_and_recv() {
    let s = [0x55u8; 64];
    let alice = Session::new(&s, true);
    for n in [0u64, 1, 100, 99_999] {
        assert_ne!(alice.nonce_ctr_send(n), alice.nonce_ctr_recv(n),
            "send/recv nonce must differ at counter {}", n);
    }
    let bob = Session::new(&s, false);
    for n in [0u64, 1, 7] {
        assert_eq!(alice.nonce_ctr_send(n), bob.nonce_ctr_recv(n),
            "alice-send must match bob-recv at counter {}", n);
    }
}

#[test]
fn aad_metadata_tampering_breaks_decrypt() {
    let key = [0x77u8; 32];
    let real_aad = b"real-aad-1234567X";
    let forged_aad = b"forged-aad-12345Y";
    let ct = aead_encrypt(&key, 0, real_aad, b"top secret");
    assert_eq!(aead_decrypt(&key, 0, real_aad, &ct).unwrap(), b"top secret");
    assert!(aead_decrypt(&key, 0, forged_aad, &ct).is_err(),
        "AAD tampering must cause AEAD failure");
}

#[test]
fn dummy_cell_marker() {
    let d = TrafficPadder::dummy_cell();
    assert_eq!(d.len(), CELL_SIZE);
    assert!(TrafficPadder::is_dummy(&d));
    assert!(!TrafficPadder::is_dummy(&[0x00u8, 0x01]));
}

#[test]
fn ephemeral_keypair_dh() {
    let a = EphemeralKeypair::generate();
    let b = EphemeralKeypair::generate();
    assert_eq!(a.dh(&b.public), b.dh(&a.public));
    assert_eq!(a.public_bytes(), a.public);
    assert_ne!(a.dh(&b.public), b.public);
}

#[test]
fn sealing_is_the_cipher_of_the_standard() {
    let key = [0x31u8; 32];
    let ct = aead_encrypt(&key, 258, b"aad", b"attack at dawn");
    let mut nonce = [0u8; 12];
    nonce[4] = 2;
    nonce[5] = 1;
    assert_eq!(nonce96(258), nonce);
    let cipher = ChaCha20Poly1305::new_from_slice(&key).unwrap();
    let expected = cipher
        .encrypt(&nonce.into(), Payload { msg: b"attack at dawn", aad: b"aad" })
        .unwrap();
    assert_eq!(ct, expected);
    assert_eq!(ct.len(), 14 + 16);
}

#[test]
fn an_altered_message_fails_authentication() {
    let key = [1u8; 32];
    let mut ct = aead_encrypt(&key, 0, b"", b"x");
    ct[0] ^= 1;
    assert!(matches!(aead_decrypt(&key, 0, b"", &ct), Err(Error::AuthFailed)));
    assert!(matches!(aead_decrypt(&key, 1, b"", &ct), Err(Error::AuthFailed)));
    assert!(matches!(aead_decrypt(&key, 0, b"", &[1, 2, 3]), Err(Error::AuthFailed)));
}

#[test]
fn a_refused_message_counts_too() {
    let s = [0x66u8; 64];
    let mut alice = Session::new(&s, true);
    let mut bob = Session::new(&s, false);
    let mut first = alice.encrypt(b"one");
    let second = alice.encrypt(b"two");
    first[0] ^= 1;
    assert!(matches!(bob.decrypt(&first), Err(Error::AuthFailed)));
    assert_eq!(bob.decrypt(&second).unwrap(), b"two");
}

#[test]
fn both_ends_derive_the_link_key_of_rotations() {
    let s = [0x77u8; 64];
    let alice = Session::new(&s, true);
    let bob = Session::new(&s, false);
    assert_eq!(alice.rotation_link_key(), bob.rotation_link_key());
    let other = Session::new(&[0x78u8; 64], true);
    assert_ne!(alice.rotation_link_key(), other.rotation_link_key());
}

#[test]
fn key_derivation_is_hkdf() {
    let out = hkdf_derive(b"ikm", b"salt", b"info", 42);
    let hk = hkdf::Hkdf::<sha2::Sha256>::new(Some(b"salt"), b"ikm");
    let mut expected = [0u8; 42];
    hk.expand(b"info", &mut expected).unwrap();
    assert_eq!(out, expected);
}

#[test]
fn hop_keys_are_shared() {
    let a = EphemeralKeypair::generate();
    let secret = x25519_dalek::StaticSecret::from([3u8; 32]);
    let public = *x25519_dalek::PublicKey::from(&secret).as_bytes();
    let k1 = derive_hop_key(&[3u8; 32], &a.public);
    let k2 = derive_hop_key(&[3u8; 32], &public);
    assert_ne!(k1, k2);
    assert_ne!(k1, [3u8; 32]);
}

#[test]
fn random_values_are_not_repeated() {
    assert_ne!(random_32(), random_32());
    assert_ne!(random_u64(), random_u64());
}

#[test]
fn numbers_are_read_from_the_low_byte() {
    let s = [9u8, 1, 2, 3, 4, 5, 6, 7, 0xf8, 9];
    assert_eq!(read_le64(&s, 1), 0xf807_0605_0403_0201);
    assert_eq!(read_le64(&[0xff; 8], 0), u64::MAX);
    let mut back = Vec::new();
    push_le(&mut back, 0xf807_0605_0403_0201, 8);
    assert_eq!(back, s[1..9].to_vec());
}

#[test]
fn a_run_of_messages_arrives_in_order() {
    let s = [0x21u8; 64];
    let mut alice = Session::new(&s, true);
    let mut bob = Session::new(&s, false);
    let there: Vec<Vec<u8>> = (0..20u8).map(|i| vec![i; i as usize]).collect();
    let sealed: Vec<Vec<u8>> = there.iter().map(|t| alice.encrypt(t)).collect();
    for (i, c) in sealed.iter().enumerate() {
        // What goes the other way meanwhile is of no account.
        let back = bob.encrypt(&[0xb0, i as u8]);
        assert_eq!(alice.decrypt(&back).unwrap(), vec![0xb0, i as u8]);
        assert_eq!(bob.decrypt(c).unwrap(), there[i]);
    }
    assert!(bob.decrypt(&sealed[3]).is_err());
    let mut stranger = Session::new(&[0x22u8; 64], false);
    assert!(stranger.decrypt(&sealed[0]).is_err());
}
