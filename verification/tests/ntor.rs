use phinet_core::errors::Error;
use phinet_core::ntor::{
    client_handshake_finish, client_handshake_start, client_handshake_with, server_handshake,
    server_handshake_with, CLIENT_HANDSHAKE_LEN, NTOR_KEYS_BYTES, SERVER_HANDSHAKE_LEN,
};
use phinet_core::timing::ct_eq_32;
use rand::rngs::OsRng;
use x25519_dalek::{PublicKey, StaticSecret};

fn server_keypair() -> ([u8; 32], [u8; 32], [u8; 32]) {
    let sk = StaticSecret::random_from_rng(OsRng);
    let pk = *PublicKey::from(&sk).as_bytes();
    let mut id = [0u8; 32];
    id.copy_from_slice(&pk);
    id[0] ^= 0xAA;
    (id, pk, sk.to_bytes())
}

#[test]
fn ntor_full_roundtrip() {
    let (sid, spub, ssec) = server_keypair();
    let (cs, cmsg) = client_handshake_start(&sid, &spub);
    let (srv_keys, smsg) = server_handshake(&sid, &spub, &ssec, &cmsg).unwrap();
    let cli_keys = client_handshake_finish(cs, &smsg).unwrap();

    assert_eq!(cli_keys.forward_key.as_slice(), srv_keys.forward_key.as_slice());
    assert_eq!(cli_keys.backward_key.as_slice(), srv_keys.backward_key.as_slice());
    assert_eq!(cli_keys.forward_digest_seed, srv_keys.forward_digest_seed);
    assert_eq!(cli_keys.backward_digest_seed, srv_keys.backward_digest_seed);
}

#[test]
fn ntor_wrong_server_id_fails() {
    let (sid, spub, ssec) = server_keypair();
    let (_, cmsg) = client_handshake_start(&sid, &spub);

    let mut bad_sid = sid;
    bad_sid[0] ^= 0x01;
    assert!(server_handshake(&bad_sid, &spub, &ssec, &cmsg).is_err());
}

#[test]
fn ntor_wrong_server_b_fails() {
    let (sid, spub, ssec) = server_keypair();
    let (_, cmsg) = client_handshake_start(&sid, &spub);

    let mut bad_b = spub;
    bad_b[0] ^= 0x01;
    assert!(server_handshake(&sid, &bad_b, &ssec, &cmsg).is_err());
}

#[test]
fn ntor_tampered_auth_fails() {
    let (sid, spub, ssec) = server_keypair();
    let (cs, cmsg) = client_handshake_start(&sid, &spub);
    let (_, mut smsg) = server_handshake(&sid, &spub, &ssec, &cmsg).unwrap();

    // Flip one bit in AUTH.
    smsg[50] ^= 0x08;
    assert!(matches!(client_handshake_finish(cs, &smsg), Err(Error::AuthFailed)));
}

#[test]
fn ntor_wrong_static_key_fails() {
    let (sid, spub, _ssec) = server_keypair();
    let evil_sec = StaticSecret::random_from_rng(OsRng).to_bytes();
    let (cs, cmsg) = client_handshake_start(&sid, &spub);

    // Somebody answers for the server with a secret of their own.
    let (_, evil_reply) = server_handshake(&sid, &spub, &evil_sec, &cmsg).unwrap();

    assert!(matches!(client_handshake_finish(cs, &evil_reply), Err(Error::AuthFailed)));
}

#[test]
fn ntor_forward_secret_across_runs() {
    let (sid, spub, ssec) = server_keypair();

    let (cs1, m1) = client_handshake_start(&sid, &spub);
    let (_, r1) = server_handshake(&sid, &spub, &ssec, &m1).unwrap();
    let k1 = client_handshake_finish(cs1, &r1).unwrap();

    let (cs2, m2) = client_handshake_start(&sid, &spub);
    let (_, r2) = server_handshake(&sid, &spub, &ssec, &m2).unwrap();
    let k2 = client_handshake_finish(cs2, &r2).unwrap();

    assert_ne!(k1.forward_key.as_slice(), k2.forward_key.as_slice());
    assert_ne!(k1.backward_key.as_slice(), k2.backward_key.as_slice());
}

#[test]
fn ct_eq_constant_time() {
    let a = [0x42u8; 32];
    let mut b = a;
    assert!(ct_eq_32(&a, &b));
    b[17] ^= 1;
    assert!(!ct_eq_32(&a, &b));
}

#[test]
fn the_client_message_names_the_server_and_the_ephemeral_key() {
    let x = [7u8; 32];
    let x_pub = *PublicKey::from(&StaticSecret::from(x)).as_bytes();
    let (_, msg) = client_handshake_with(&[1u8; 32], &[2u8; 32], x);
    assert_eq!(msg.len(), CLIENT_HANDSHAKE_LEN);
    assert_eq!(&msg[0..32], &[1u8; 32]);
    assert_eq!(&msg[32..64], &[2u8; 32]);
    assert_eq!(&msg[64..96], &x_pub);
    assert_ne!(x_pub, x);
}

#[test]
fn a_handshake_is_a_function_of_its_keys() {
    let b = [9u8; 32];
    let b_pub = *PublicKey::from(&StaticSecret::from(b)).as_bytes();
    let id = [5u8; 32];
    let (hs, msg) = client_handshake_with(&id, &b_pub, [7u8; 32]);
    let (k1, r1) = server_handshake_with(&id, &b_pub, &b, &msg, [8u8; 32]).unwrap();
    let (k2, r2) = server_handshake_with(&id, &b_pub, &b, &msg, [8u8; 32]).unwrap();
    assert_eq!(r1, r2);
    assert_eq!(r1.len(), SERVER_HANDSHAKE_LEN);
    assert_eq!(k1.forward_key, k2.forward_key);
    let keys = client_handshake_finish(hs, &r1).unwrap();
    assert_eq!(keys.forward_key, k1.forward_key);
    assert_eq!(keys.backward_digest_seed, k1.backward_digest_seed);
    assert_ne!(keys.forward_key, keys.backward_key);
    assert_eq!(NTOR_KEYS_BYTES, 2 * 20 + 2 * 32);
}

#[test]
fn a_wrong_server_is_named_in_the_error() {
    let (sid, spub, ssec) = server_keypair();
    let (_, cmsg) = client_handshake_start(&[3u8; 32], &spub);
    match server_handshake(&sid, &spub, &ssec, &cmsg) {
        Err(Error::Handshake(why)) => assert_eq!(why, "ntor: wrong server_id or B"),
        _ => panic!("a handshake for somebody else was accepted"),
    }
}

#[test]
fn no_byte_of_a_reply_can_be_changed() {
    let (sid, spub, ssec) = server_keypair();
    for i in 0..SERVER_HANDSHAKE_LEN {
        let (cs, cmsg) = client_handshake_with(&sid, &spub, [7; 32]);
        let (_, mut smsg) = server_handshake_with(&sid, &spub, &ssec, &cmsg, [9; 32]).unwrap();
        smsg[i] ^= 0x80;
        assert!(matches!(client_handshake_finish(cs, &smsg), Err(Error::AuthFailed)));
    }
}
