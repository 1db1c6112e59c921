use phinet_core::errors::Error;
use phinet_core::rendezvous::{
    client_finalize, decode_intro_plaintext, encode_intro_plaintext, fresh_cookie, hs_finalize,
    hs_finalize_with, EstablishIntro, EstablishRendezvous, Introduce, IntroducePlaintext,
    Rendezvous1, Rendezvous2, COOKIE_LEN, HS_AUTH_LEN,
};
use rand::rngs::OsRng;
use x25519_dalek::{PublicKey, StaticSecret};

fn secret() -> [u8; 32] {
    StaticSecret::random_from_rng(OsRng).to_bytes()
}

fn public(secret: &[u8; 32]) -> [u8; 32] {
    *PublicKey::from(&StaticSecret::from(*secret)).as_bytes()
}

#[test]
fn establish_intro_roundtrip() {
    let msg = EstablishIntro { auth_key_pub: [0xAA; 32], sig: [0xBB; 32] };
    let enc = msg.encode();
    let dec = EstablishIntro::decode(&enc).unwrap();
    assert_eq!(dec.auth_key_pub, msg.auth_key_pub);
    assert_eq!(dec.sig,          msg.sig);
}

#[test]
fn establish_rendezvous_roundtrip() {
    let msg = EstablishRendezvous { cookie: [0x42; COOKIE_LEN] };
    let enc = msg.encode();
    let dec = EstablishRendezvous::decode(&enc).unwrap();
    assert_eq!(dec.cookie, msg.cookie);
}

#[test]
fn intro_plaintext_roundtrip() {
    let pt = IntroducePlaintext {
        rp_node_id: [0xCC; 32],
        rp_host:    "192.168.1.42".into(),
        rp_port:    7700,
        cookie:     [0xDD; COOKIE_LEN],
    };
    let enc = encode_intro_plaintext(&pt);
    let dec = decode_intro_plaintext(&enc).unwrap();
    assert_eq!(dec.rp_node_id, pt.rp_node_id);
    assert_eq!(dec.rp_host,    pt.rp_host);
    assert_eq!(dec.rp_port,    pt.rp_port);
    assert_eq!(dec.cookie,     pt.cookie);
}

#[test]
fn introduce_encrypt_decrypt() {
    // HS has static key
    let hs_sec = secret();
    let hs_pub = public(&hs_sec);

    let auth_key_pub = [0x11u8; 32];
    let plaintext = IntroducePlaintext {
        rp_node_id: [0x22; 32],
        rp_host:    "10.0.0.1".into(),
        rp_port:    9001,
        cookie:     fresh_cookie(),
    };

    let (intro, _client_sk) = Introduce::build_for_hs(&hs_pub, &auth_key_pub, &plaintext);
    // Round trip via encode/decode
    let enc = intro.encode();
    let dec = Introduce::decode(&enc).unwrap();
    assert_eq!(dec.auth_key_pub,  auth_key_pub);
    assert_eq!(dec.client_ntor_x, intro.client_ntor_x);

    // HS opens
    let opened = dec.open_at_hs(&hs_sec, &hs_pub).unwrap();
    assert_eq!(opened.rp_node_id, plaintext.rp_node_id);
    assert_eq!(opened.rp_host,    plaintext.rp_host);
    assert_eq!(opened.rp_port,    plaintext.rp_port);
    assert_eq!(opened.cookie,     plaintext.cookie);
}

#[test]
fn introduce_rejects_tampered_mac() {
    let hs_sec = secret();
    let hs_pub = public(&hs_sec);
    let (mut intro, _) = Introduce::build_for_hs(
        &hs_pub, &[0u8; 32],
        &IntroducePlaintext {
            rp_node_id: [0; 32],
            rp_host:    "1.1.1.1".into(),
            rp_port:    1,
            cookie:     [0; COOKIE_LEN],
        });
    // Flip a bit in the ciphertext
    intro.enc_payload[0] ^= 1;
    let res = intro.open_at_hs(&hs_sec, &hs_pub);
    assert!(matches!(res, Err(Error::AuthFailed)));
}

#[test]
fn introduce_rejects_wrong_hs_key() {
    let hs_sec = secret();
    let hs_pub = public(&hs_sec);

    let wrong_sec = secret();
    let wrong_pub = public(&wrong_sec);

    let (intro, _) = Introduce::build_for_hs(
        &hs_pub, &[0u8; 32],
        &IntroducePlaintext {
            rp_node_id: [0; 32],
            rp_host:    "1.1.1.1".into(),
            rp_port:    1,
            cookie:     [0; COOKIE_LEN],
        });
    // Wrong HS tries to open
    let res = intro.open_at_hs(&wrong_sec, &wrong_pub);
    assert!(matches!(res, Err(Error::AuthFailed)));
}

#[test]
fn rendezvous1_roundtrip() {
    let m = Rendezvous1 {
        cookie:   [0x11; COOKIE_LEN],
        server_y: [0x22; 32],
        auth:     [0x33; HS_AUTH_LEN],
    };
    let enc = m.encode();
    let d   = Rendezvous1::decode(&enc).unwrap();
    assert_eq!(d.cookie,   m.cookie);
    assert_eq!(d.server_y, m.server_y);
    assert_eq!(d.auth,     m.auth);
}

#[test]
fn rendezvous2_roundtrip() {
    let m = Rendezvous2 { server_y: [0x77; 32], auth: [0x99; HS_AUTH_LEN] };
    let d = Rendezvous2::decode(&m.encode()).unwrap();
    assert_eq!(d.server_y, m.server_y);
    assert_eq!(d.auth,     m.auth);
}

#[test]
fn e2e_handshake_symmetric() {
    // HS static key
    let hs_sec = secret();
    let hs_pub = public(&hs_sec);

    // Client ephemeral
    let client_sk  = secret();
    let client_pub = public(&client_sk);

    // HS finalizes
    let (hs_keys, y_pub, auth) = hs_finalize(&hs_sec, &hs_pub, &client_pub);

    // Client verifies
    let client_keys = client_finalize(&client_sk, &client_pub, &hs_pub, &y_pub, &auth).unwrap();

    // Both sides agree on keys
    assert_eq!(hs_keys.client_to_hs_key, client_keys.client_to_hs_key);
    assert_eq!(hs_keys.hs_to_client_key, client_keys.hs_to_client_key);
    assert_eq!(hs_keys.c2h_digest_seed,   client_keys.c2h_digest_seed);
    assert_eq!(hs_keys.h2c_digest_seed,   client_keys.h2c_digest_seed);
}

#[test]
fn e2e_rejects_tampered_auth() {
    let hs_sec = secret();
    let hs_pub = public(&hs_sec);
    let client_sk  = secret();
    let client_pub = public(&client_sk);

    let (_keys, y_pub, mut auth) = hs_finalize(&hs_sec, &hs_pub, &client_pub);
    auth[0] ^= 1; // tamper

    let res = client_finalize(&client_sk, &client_pub, &hs_pub, &y_pub, &auth);
    assert!(matches!(res, Err(Error::AuthFailed)));
}

#[test]
fn e2e_rejects_wrong_hs_pub() {
    let hs_sec = secret();
    let hs_pub = public(&hs_sec);
    let client_sk  = secret();
    let client_pub = public(&client_sk);

    let (_keys, y_pub, auth) = hs_finalize(&hs_sec, &hs_pub, &client_pub);

    // Client is told a DIFFERENT hs_pub — must fail
    let wrong_pub = [0xABu8; 32];
    let res = client_finalize(&client_sk, &client_pub, &wrong_pub, &y_pub, &auth);
    assert!(matches!(res, Err(Error::AuthFailed)));
}

#[test]
fn cookie_is_random() {
    let c1 = fresh_cookie();
    let c2 = fresh_cookie();
    assert_ne!(c1, c2);
}

#[test]
fn full_roundtrip_e2e_through_intro() {
    // Simulate the full INTRODUCE → RENDEZVOUS flow, cryptographically.
    // (Wire/circuit forwarding is tested in the circuit_mgr module.)
    let hs_sec = secret();
    let hs_pub = public(&hs_sec);

    let cookie = fresh_cookie();
    let plaintext = IntroducePlaintext {
        rp_node_id: [0xF0; 32],
        rp_host:    "203.0.113.5".into(),
        rp_port:    443,
        cookie,
    };

    // Client builds INTRODUCE1
    let (intro, client_sk) = Introduce::build_for_hs(&hs_pub, &[0xAA; 32], &plaintext);
    let client_x = intro.client_ntor_x;

    // Intro forwards (no decryption)
    let forwarded = Introduce::decode(&intro.encode()).unwrap();

    // HS decrypts
    let opened = forwarded.open_at_hs(&hs_sec, &hs_pub).unwrap();
    assert_eq!(opened.cookie, cookie);

    // HS runs end-to-end handshake, producing RENDEZVOUS1
    let (hs_keys, y_pub, auth) = hs_finalize(&hs_sec, &hs_pub, &client_x);
    let r1 = Rendezvous1 { cookie, server_y: y_pub, auth };

    // RP receives RENDEZVOUS1, matches cookie, strips to RENDEZVOUS2
    assert_eq!(r1.cookie, cookie);
    let r2 = Rendezvous2 { server_y: r1.server_y, auth: r1.auth };

    // Client verifies and derives keys
    let client_keys = client_finalize(&client_sk, &client_x, &hs_pub, &r2.server_y, &r2.auth).unwrap();

    assert_eq!(hs_keys.client_to_hs_key, client_keys.client_to_hs_key);
}

#[test]
fn short_messages_are_refused() {
    assert!(matches!(EstablishIntro::decode(&[2, 0, 32]), Err(Error::Crypto(_))));
    assert!(matches!(EstablishRendezvous::decode(&[0; 19]), Err(Error::Crypto(_))));
    assert!(matches!(Introduce::decode(&[0; 10]), Err(Error::Crypto(_))));
    assert!(matches!(decode_intro_plaintext(&[0; 73]), Err(Error::Crypto(_))));
    assert!(matches!(Rendezvous1::decode(&[0; 83]), Err(Error::Crypto(_))));
    assert!(matches!(Rendezvous2::decode(&[0; 63]), Err(Error::Crypto(_))));
}

#[test]
fn an_unknown_key_type_is_refused() {
    let mut enc = EstablishIntro { auth_key_pub: [1; 32], sig: [2; 32] }.encode();
    assert_eq!(enc[0], 2);
    enc[0] = 1;
    match EstablishIntro::decode(&enc) {
        Err(Error::Crypto(why)) => assert_eq!(why, "establish_intro: unsupported auth type"),
        _ => panic!("an unknown key type was accepted"),
    }
}

#[test]
fn long_hosts_are_cut_to_their_field() {
    let pt = IntroducePlaintext {
        rp_node_id: [1; 32],
        rp_host: "a-very-long-host-name.example".into(),
        rp_port: 258,
        cookie: [2; COOKIE_LEN],
    };
    let enc = encode_intro_plaintext(&pt);
    assert_eq!(enc.len(), 74);
    assert_eq!(&enc[72..74], &[1, 2]);
    assert_eq!(decode_intro_plaintext(&enc).unwrap().rp_host, "a-very-long-host-nam");
}

#[test]
fn the_service_answers_with_its_ephemeral_key() {
    let hs = secret();
    let client = secret();
    let y = secret();
    let (_, y_pub, auth) = hs_finalize_with(&hs, &public(&hs), &public(&client), y);
    assert_eq!(y_pub, public(&y));
    let (_, _, again) = hs_finalize_with(&hs, &public(&hs), &public(&client), y);
    assert_eq!(auth, again);
}

#[test]
fn the_introduction_is_sealed() {
    let hs = secret();
    let pt = IntroducePlaintext {
        rp_node_id: [0x22; 32],
        rp_host: "10.0.0.1".into(),
        rp_port: 9001,
        cookie: [0x33; COOKIE_LEN],
    };
    let (intro, sk) = Introduce::build_for_hs(&public(&hs), &[1; 32], &pt);
    assert_eq!(intro.client_ntor_x, public(&sk));
    assert_ne!(intro.enc_payload, encode_intro_plaintext(&pt));
    let (again, _) =
        Introduce::build_for_hs_with_ephemeral(&public(&hs), &[1; 32], &pt, sk);
    assert_eq!(again.enc_payload, intro.enc_payload);
    assert_eq!(again.mac, intro.mac);
}

#[test]
fn no_field_of_an_introduction_can_be_changed() {
    let hs_sec = secret();
    let hs_pub = public(&hs_sec);
    let p = IntroducePlaintext {
        rp_node_id: [3; 32],
        rp_host: "10.20.30.40".into(),
        rp_port: 7700,
        cookie: [5; COOKIE_LEN],
    };
    let (intro, _) = Introduce::build_for_hs(&hs_pub, &[1u8; 32], &p);
    let q = intro.open_at_hs(&hs_sec, &hs_pub).unwrap();
    assert_eq!((q.rp_node_id, q.cookie), ([3; 32], [5; COOKIE_LEN]));
    assert_eq!((q.rp_host.as_str(), q.rp_port), ("10.20.30.40", 7700));
    for i in 0..4 {
        let mut changed = intro.clone();
        match i {
            0 => changed.auth_key_pub[31] ^= 1,
            1 => changed.client_ntor_x[0] ^= 1,
            2 => *changed.enc_payload.last_mut().unwrap() ^= 1,
            _ => changed.mac[31] ^= 1,
        }
        assert!(matches!(changed.open_at_hs(&hs_sec, &hs_pub), Err(Error::AuthFailed)));
    }
}
