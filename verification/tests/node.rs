use hmac::{Hmac, Mac};
use phinet_core::building::com_circuit_path;
use phinet_core::cells::rendezvous2_data;
use phinet_core::cert::{CertBits, PhiCert};
use phinet_core::descriptor::{
    descriptor_targets, published_endpoint, republish_plan, ring_inputs, ring_key, HsDescriptor,
    IntroSecret, Republish,
};
use phinet_core::dht::PeerInfo;
use phinet_core::directory::{ConsensusDocument, PeerEntry, PeerFlags};
use phinet_core::errors::Error;
use phinet_core::fetch::{
    answer_request, cut, frame_response, gather, parse_hs_response, read_reply, request_for,
    request_path, Reply,
};
use phinet_core::handshake::{
    accept_challenge, accept_hello, answers_as_itself, client_hello, introduce_self,
    judge_initiator, judge_responder, open_challenge, Presented, Received,
};
use phinet_core::meeting::{rendezvous1_data, MeetStep, Met, DIAL_MILLIS};
use phinet_core::messages::{
    dht_found, dht_target, may_inject, opened_step, ComStep, DhtPeerInfo, OnionStep, OpenedStep,
};
use phinet_core::node::{PhiNode, StaticKeypair, MAX_PENDING_RENDEZVOUS};
use phinet_core::onion::{build, Hop};
use phinet_core::peers::STALE_PEER_SECS;
use phinet_core::pow::AdmissionPoW;
use phinet_core::registry::Registered;
use phinet_core::relay_desc;
use phinet_core::rotation::{
    announce_rotation, compute_rotation_sig, parse_id, verify_rotation, CertFinding, CertRotate,
};
use phinet_core::session::{EphemeralKeypair, Session};
use phinet_core::upkeep::{
    exempt_addresses, guard_upkeep, stock_step, GuardStep, StockStep, GUARD_COUNT,
};
use sha2::{Digest, Sha256};

const NOW: u64 = 1_700_000_000;

fn cert(tag: u8) -> PhiCert {
    PhiCert { bits: CertBits::B256, j: vec![tag; 32], phi: vec![7; 32], mu: 1, dr: 1 }
}

fn node(tag: u8) -> PhiNode {
    PhiNode::new("127.0.0.1", 7000 + tag as u16, cert(tag), [tag; 32]).unwrap()
}

/// Links `a` to `b` through the handshake of the two, and registers each at the
/// other.
fn link(a: &mut PhiNode, b: &mut PhiNode) {
    let ea = EphemeralKeypair::generate();
    let eb = EphemeralKeypair::generate();
    let challenge = open_challenge(&[9; 32], &eb);
    let hello = client_hello(&ea);
    let mut sa = accept_challenge(&ea, Received::Message(challenge)).unwrap();
    let mut sb = accept_hello(&eb, Received::Message(hello)).unwrap();
    let sealed = sa.encrypt(b"hello");
    assert_eq!(sb.decrypt(&sealed).unwrap(), b"hello");

    let from_a = introduce_self("cert-a", &copy(&a.pow), &a.static_pub(), a.port);
    let from_b = introduce_self("cert-b", &copy(&b.pow), &b.static_pub(), b.port);
    let at_b = judge_initiator(
        Received::Message(from_a),
        Presented::Sound(a.cert.clone(), a.node_id()),
        "127.0.0.1",
    );
    let at_b = match at_b {
        Ok(info) => info,
        Err(r) => panic!("refused: {:?}", r),
    };
    let at_a = judge_responder(Received::Message(from_b), Ok(b.node_id()), "127.0.0.1", b.port)
        .unwrap();
    assert!(matches!(a.register_peer(at_a, sa, None, NOW), Ok(Registered::Linked)));
    assert!(matches!(
        b.register_peer(at_b, sb, Some("127.0.0.1".into()), NOW),
        Ok(Registered::Linked)
    ));
}

fn copy(p: &AdmissionPoW) -> AdmissionPoW {
    p.clone()
}

// ── Rotation of certificates ──────────────────────────────────────────

fn make_rotation(old: [u8; 32], new: [u8; 32], key: &[u8; 32], seq: u64, ts: u64) -> CertRotate {
    let json = format!("{{\"cert\":\"{}\"}}", hex::encode(new));
    let sig = compute_rotation_sig(key, &old, &new, &json, seq, ts);
    CertRotate {
        old_node_id: hex::encode(old),
        new_node_id: hex::encode(new),
        new_cert_json: json,
        seq,
        ts,
        link_sig: hex::encode(sig),
    }
}

#[test]
fn valid_rotation_accepted() {
    let new_id = [0x22u8; 32];
    let key = [0x42u8; 32];
    let msg = make_rotation([0x11; 32], new_id, &key, 1, 1700000000);

    let verified = verify_rotation(&key, &msg, CertFinding::Sound(new_id)).expect("should verify");
    assert_eq!(verified, new_id);
}

#[test]
fn tampered_hmac_rejected() {
    let new_id = [0x22u8; 32];
    let key = [0x42u8; 32];
    let mut msg = make_rotation([0x11; 32], new_id, &key, 1, 1700000000);

    // Flip one bit in the hex sig
    let mut bytes = hex::decode(&msg.link_sig).unwrap();
    bytes[17] ^= 1;
    msg.link_sig = hex::encode(bytes);

    assert!(matches!(
        verify_rotation(&key, &msg, CertFinding::Sound(new_id)),
        Err(Error::AuthFailed)
    ));
}

#[test]
fn wrong_link_key_rejected() {
    let new_id = [0x22u8; 32];
    let key = [0x42u8; 32];
    let msg = make_rotation([0x11; 32], new_id, &key, 1, 1700000000);

    let wrong_key = [0x43u8; 32];
    assert!(matches!(
        verify_rotation(&wrong_key, &msg, CertFinding::Sound(new_id)),
        Err(Error::AuthFailed)
    ));
}

#[test]
fn node_id_binding_enforced() {
    let key = [0x42u8; 32];
    let real_id = [0x22u8; 32];
    let fake_id = [0x33u8; 32];
    // The announcement names one identifier, the certificate in it another.
    let msg = make_rotation([0x11; 32], fake_id, &key, 1, 0);
    let err = verify_rotation(&key, &msg, CertFinding::Sound(real_id));
    assert!(err.is_err());
    let err_str = format!("{:?}", err.unwrap_err());
    assert!(err_str.contains("binding") || err_str.contains("node_id"),
        "expected binding error, got: {}", err_str);
}

#[test]
fn corrupt_cert_json_rejected() {
    let key = [0x42u8; 32];
    let mut msg = make_rotation([0x11; 32], [0x22; 32], &key, 1, 0);

    msg.new_cert_json = "{not valid json".to_string();
    // The signature was over the other text, so it fails first.
    let finding = CertFinding::Unreadable(Error::Crypto("json".into()));
    assert!(matches!(verify_rotation(&key, &msg, finding), Err(Error::AuthFailed)));
}

#[test]
fn sig_binds_to_seq_and_ts() {
    let new_id = [0x22u8; 32];
    let key = [0x42u8; 32];
    let mut msg = make_rotation([0x11; 32], new_id, &key, 5, 1700000000);

    msg.seq = 6;
    assert!(matches!(
        verify_rotation(&key, &msg, CertFinding::Sound(new_id)),
        Err(Error::AuthFailed)
    ));

    let mut msg2 = make_rotation([0x11; 32], new_id, &key, 5, 1700000000);
    msg2.ts = 1700001000;
    assert!(matches!(
        verify_rotation(&key, &msg2, CertFinding::Sound(new_id)),
        Err(Error::AuthFailed)
    ));
}

#[test]
fn compute_rotation_sig_is_deterministic() {
    let key = [0x11u8; 32];
    let old_id = [0xAAu8; 32];
    let new_id = [0xBBu8; 32];
    let json = r#"{"fake":"cert"}"#;

    let s1 = compute_rotation_sig(&key, &old_id, &new_id, json, 42, 1000);
    let s2 = compute_rotation_sig(&key, &old_id, &new_id, json, 42, 1000);
    assert_eq!(s1, s2);

    // Changing any field produces a different sig
    let s_diff_key = compute_rotation_sig(&[0x12u8; 32], &old_id, &new_id, json, 42, 1000);
    assert_ne!(s1, s_diff_key);
    let s_diff_seq = compute_rotation_sig(&key, &old_id, &new_id, json, 43, 1000);
    assert_ne!(s1, s_diff_seq);
}

#[test]
fn the_tag_is_keyed_over_the_whole_step() {
    let key = [0x42u8; 32];
    let mut mac = <Hmac<Sha256> as Mac>::new_from_slice(&key).unwrap();
    mac.update(b"phinet-cert-rotate-v1:");
    mac.update(&[1; 32]);
    mac.update(&[2; 32]);
    mac.update(b"{}");
    mac.update(&3u64.to_be_bytes());
    mac.update(&4u64.to_be_bytes());
    let expected: [u8; 32] = mac.finalize().into_bytes().into();
    assert_eq!(compute_rotation_sig(&key, &[1; 32], &[2; 32], "{}", 3, 4), expected);
}

#[test]
fn an_unsound_certificate_is_refused() {
    let key = [0x42u8; 32];
    let msg = make_rotation([0x11; 32], [0x22; 32], &key, 1, 0);
    assert!(verify_rotation(&key, &msg, CertFinding::Unsound).is_err());
    let why = Error::Crypto("bad json".into());
    assert!(verify_rotation(&key, &msg, CertFinding::Unreadable(why)).is_err());
}

#[test]
fn an_announcement_is_accepted_at_the_other_end() {
    let key = [0x42u8; 32];
    let msg = announce_rotation(&key, &[1; 32], &[2; 32], "{}", 3, 4);
    assert_eq!(msg.old_node_id, "01".repeat(32));
    assert_eq!(msg.seq, 3);
    assert_eq!(verify_rotation(&key, &msg, CertFinding::Sound([2; 32])).unwrap(), [2; 32]);
    assert_eq!(parse_id(&msg.new_node_id), Some([2; 32]));
    assert_eq!(parse_id("0202"), None);
}

#[test]
fn rotations_move_a_peer_once() {
    let mut a = node(1);
    let mut b = node(2);
    link(&mut a, &mut b);
    let seq = b.next_rotation_seq();
    let msg = b
        .rotation_for(&[1; 32], &[2; 32], &[22; 32], "{}", seq, NOW)
        .expect("linked");
    assert!(a.handle_cert_rotate(&msg, &[2; 32], CertFinding::Sound([22; 32]), NOW));
    assert!(a.peers.contains(&[22; 32]));
    assert!(!a.peers.contains(&[2; 32]));
    // The same announcement again changes nothing.
    assert!(!a.handle_cert_rotate(&msg, &[22; 32], CertFinding::Sound([22; 32]), NOW));
    // Nobody is told who is not linked.
    assert!(b.rotation_for(&[9; 32], &[2; 32], &[22; 32], "{}", seq, NOW).is_none());
}

#[test]
fn nobody_rotates_for_another() {
    let mut a = node(1);
    let mut b = node(2);
    link(&mut a, &mut b);
    let msg = b.rotation_for(&[1; 32], &[3; 32], &[33; 32], "{}", 1, NOW).unwrap();
    assert!(!a.handle_cert_rotate(&msg, &[2; 32], CertFinding::Sound([33; 32]), NOW));
    assert!(a.peers.contains(&[2; 32]));
}

// ── Descriptors of hidden services ────────────────────────────────────

fn public_descriptor(port: u16) -> HsDescriptor {
    HsDescriptor {
        hs_id: "aabb".into(),
        intro_pub: "5a".repeat(32),
        intro_host: Some("intro.host".into()),
        intro_port: Some(port),
        intro_node_id: "6b".repeat(32),
        client_auth: false,
    }
}

fn authed_descriptor() -> HsDescriptor {
    HsDescriptor {
        hs_id: "aabb".into(),
        intro_pub: String::new(),
        intro_host: None,
        intro_port: None,
        intro_node_id: String::new(),
        client_auth: true,
    }
}

fn intro_secret() -> IntroSecret {
    IntroSecret {
        intro_pub: "5a".repeat(32),
        intro_host: Some("intro.host".into()),
        intro_port: Some(8800),
        intro_node_id: "6b".repeat(32),
    }
}

#[test]
fn resolve_public_descriptor_returns_plaintext_intro() {
    let d = public_descriptor(7700);
    // No client secrets needed for a public descriptor
    let resolved = PhiNode::resolve_hs_descriptor(&d, Ok(()), vec![])
        .expect("resolve should succeed")
        .expect("public descriptor should resolve");
    assert_eq!(resolved.intro_host.as_deref(), Some("intro.host"));
    assert_eq!(resolved.intro_port, Some(7700));
    assert_eq!(resolved.intro_pub, [0x5a; 32]);
    assert_eq!(resolved.intro_node_id, [0x6b; 32]);
}

#[test]
fn resolve_authed_descriptor_with_correct_secret() {
    let resolved =
        PhiNode::resolve_hs_descriptor(&authed_descriptor(), Ok(()), vec![Ok(Some(intro_secret()))])
            .expect("resolve")
            .expect("alice should be authorized");
    assert_eq!(resolved.intro_host.as_deref(), Some("intro.host"));
    assert_eq!(resolved.intro_port, Some(8800));
    assert_eq!(resolved.intro_pub, [0x5a; 32]);
}

#[test]
fn resolve_authed_descriptor_unauthorized_client() {
    // The secret opens nothing: None, not an error.
    let r = PhiNode::resolve_hs_descriptor(&authed_descriptor(), Ok(()), vec![Ok(None)])
        .expect("resolve should not error on unauthorized");
    assert!(r.is_none(), "unauthorized client should get None, not an error");
}

#[test]
fn resolve_authed_descriptor_tries_multiple_secrets() {
    let resolved = PhiNode::resolve_hs_descriptor(
        &authed_descriptor(),
        Ok(()),
        vec![Ok(None), Ok(None), Ok(Some(intro_secret()))],
    )
    .expect("resolve")
    .expect("alice authorized");
    assert_eq!(resolved.intro_pub, [0x5a; 32]);
}

#[test]
fn resolve_rejects_unsigned_descriptor() {
    let r = PhiNode::resolve_hs_descriptor(
        &public_descriptor(1),
        Err(Error::Crypto("descriptor: no signature".into())),
        vec![],
    );
    assert!(r.is_err(), "unsigned descriptor must fail signature check");
}

#[test]
fn resolve_rejects_tampered_descriptor() {
    let mut d = public_descriptor(1);
    d.intro_host = Some("attacker.example".into());
    let r = PhiNode::resolve_hs_descriptor(&d, Err(Error::AuthFailed), vec![]);
    assert!(r.is_err(), "tampered descriptor must fail signature");
}

#[test]
fn a_descriptor_without_a_key_does_not_resolve() {
    let mut d = public_descriptor(1);
    d.intro_pub = "zz".into();
    assert!(PhiNode::resolve_hs_descriptor(&d, Ok(()), vec![]).is_err());
}

#[test]
fn lookups_fall_back_to_every_peer() {
    let peers = [[1; 32], [2; 32], [3; 32]];
    assert_eq!(descriptor_targets(&peers, None), peers.to_vec());
    let ring = ["02".repeat(32), "09".repeat(32)];
    assert_eq!(descriptor_targets(&peers, Some(&ring)), vec![[2; 32]]);
    let nobody = ["09".repeat(32)];
    assert_eq!(descriptor_targets(&peers, Some(&nobody)), peers.to_vec());
}

#[test]
fn the_ring_is_made_of_the_consensus() {
    assert!(ring_inputs(&consensus(vec![])).is_none());
    let mut c = consensus(vec![entry("aa", "10.0.0.1", 1)]);
    assert_eq!(ring_inputs(&c).unwrap().1, "phinet-mainnet");
    c.shared_random = "77".into();
    let (ids, srv) = ring_inputs(&c).unwrap();
    assert_eq!(ids, vec!["aa".to_string()]);
    assert_eq!(srv, "77");
    assert_eq!(ring_key("svc", None), "svc");
    assert_eq!(ring_key("svc", Some([0xcc; 32])), "cc".repeat(32));
}

#[test]
fn private_services_are_republished_to_their_clients() {
    let at = Some(("h".to_string(), 80));
    match republish_plan(&at, &[]) {
        Republish::Public { host, port } => {
            assert_eq!(host.as_deref(), Some("h"));
            assert_eq!(port, Some(80));
        }
        other => panic!("not public: {:?}", other),
    }
    match republish_plan(&at, &["0c".repeat(32)]) {
        Republish::Authorized { clients, .. } => assert_eq!(clients, vec![[0x0c; 32]]),
        other => panic!("not private: {:?}", other),
    }
    let d = public_descriptor(99);
    assert_eq!(published_endpoint(&d), ("intro.host".to_string(), 99));
}

// ── Handshakes ────────────────────────────────────────────────────────

#[test]
fn encrypted_handshake_two_nodes_register_each_other() {
    let mut a = node(1);
    let mut b = node(2);
    assert_ne!(a.node_id(), b.node_id());
    link(&mut a, &mut b);
    assert!(a.peers.contains(&b.node_id()), "initiator should have registered the responder");
    assert!(b.peers.contains(&a.node_id()), "responder should have registered the initiator");
    assert_eq!(a.peers_snapshot()[0].static_pub, hex::encode(b.static_pub()));
    assert_eq!(b.linked(), vec![[1; 32]]);
}

#[test]
fn a_second_link_changes_nothing() {
    let mut a = node(1);
    let info = || PeerInfo { node_id: [5; 32], host: "h".into(), port: 1, ..Default::default() };
    let s = || Session::new(&[3; 64], true);
    assert!(matches!(a.register_peer(info(), s(), None, 10), Ok(Registered::Linked)));
    assert!(matches!(a.register_peer(info(), s(), None, 20), Ok(Registered::Already)));
    assert_eq!(a.all_peers().len(), 1);
    a.unlink(&[5; 32]);
    assert!(a.linked().is_empty());
}

#[test]
fn nobody_is_let_in_without_a_proof_of_work() {
    let a = node(1);
    let mut bad = copy(&a.pow);
    bad.hash = "nonsense".into();
    let m = introduce_self("c", &bad, &a.static_pub(), 1);
    let r = judge_initiator(Received::Message(m), Presented::Sound(cert(1), [1; 32]), "h");
    match r {
        Err(refusal) => assert_eq!(refusal.reason, Some("invalid pow")),
        Ok(_) => panic!("let in"),
    }
    let m = introduce_self("c", &copy(&a.pow), &a.static_pub(), 1);
    let r = judge_initiator(Received::Message(m), Presented::Unsound(cert(1)), "h");
    assert_eq!(r.unwrap_err().reason, Some("invalid cert"));
    let r = judge_initiator(Received::TimedOut, Presented::Unsound(cert(1)), "h");
    assert!(matches!(r.unwrap_err().error, Error::Handshake(_)));
}

#[test]
fn broken_handshakes_are_refused() {
    let e = EphemeralKeypair::generate();
    assert!(accept_hello(&e, Received::TimedOut).is_err());
    assert!(accept_hello(&e, Received::Other).is_err());
    assert!(accept_challenge(&e, Received::Rejected("busy".into())).is_err());
    let mut hello = client_hello(&e);
    hello.ephem_pub = "0102".into();
    assert!(accept_hello(&e, Received::Message(hello)).is_err());
    let info = PeerInfo { node_id: [5; 32], ..Default::default() };
    assert!(answers_as_itself(&info, Some([5; 32])));
    assert!(!answers_as_itself(&info, Some([6; 32])));
    let mut a = node(1);
    for id in [7u8, 5, 8] {
        let info = PeerInfo { node_id: [id; 32], ..Default::default() };
        a.register_peer(info, Session::new(&[id; 64], true), None, NOW).unwrap();
    }
    let kept = a.verified_relays(&[Some([9; 32]), Some([5; 32]), None]);
    assert_eq!(kept.len(), 1);
    assert_eq!(kept[0].node_id, [5; 32]);
}

// ── Peers ─────────────────────────────────────────────────────────────

#[test]
fn reaps_a_silent_peer() {
    let mut a = node(1);
    let mut b = node(2);
    link(&mut a, &mut b);
    let b_id = b.node_id();
    assert!(a.peers.contains(&b_id), "linked");

    // Freshly linked → not stale → kept.
    assert!(a.reap_dead_peers(NOW).is_empty());
    assert!(a.peers.contains(&b_id), "fresh peer kept");

    // Past the stale window → silent → reaped.
    let evicted = a.reap_dead_peers(NOW + STALE_PEER_SECS + 100);
    assert!(evicted.contains(&b_id), "silent peer reaped");
    assert!(!a.peers.contains(&b_id), "removed from peer table");
    assert!(a.all_peers().iter().all(|p| p.node_id != b_id), "removed from routing");
}

#[test]
fn a_peer_that_speaks_is_kept() {
    let mut a = node(1);
    let mut b = node(2);
    link(&mut a, &mut b);
    a.heard_from(&[2; 32], NOW + 500);
    assert!(a.reap_dead_peers(NOW + 500 + STALE_PEER_SECS).is_empty());
    assert_eq!(a.reap_dead_peers(NOW + 501 + STALE_PEER_SECS), vec![[2; 32]]);
}

#[test]
fn com_messages_only_known_contacts() {
    let mut a = node(1);
    let b = node(2);
    let b_id = b.node_id();
    let b_pub = b.static_pub();

    // Unknown recipient: no resolution, no roster to fall back to.
    assert_eq!(a.com_resolve_pub(&b_id), None, "an unknown node must not resolve");
    assert!(a.com_recipient(&b_id).is_err());

    // B shares its address out of band; A adds it.
    a.com_add_contact(b_id, b_pub);

    // Now, and only now, A can resolve B.
    assert_eq!(a.com_resolve_pub(&b_id), Some(b_pub),
        "after adding by address, the contact resolves");
    assert_eq!(a.com_recipient(&b_id).unwrap(), b_pub);
}

#[test]
fn a_linked_peer_is_known_by_its_key() {
    let mut a = node(1);
    let mut b = node(2);
    link(&mut a, &mut b);
    assert_eq!(a.com_resolve_pub(&[2; 32]), Some(b.static_pub()));
}

#[test]
fn signing_keys_are_pinned_once() {
    let mut a = node(1);
    assert!(a.pin_signing_key([5; 32], "k1".into()));
    assert!(!a.pin_signing_key([5; 32], "k2".into()));
    assert_eq!(a.pinned_signing_key(&[5; 32]).as_deref(), Some("k1"));
    assert_eq!(a.pinned_signing_key(&[6; 32]), None);
}

#[test]
fn only_pinned_relays_are_believed() {
    let mut a = node(1);
    let key = [0x51u8; 32];
    let d = relay_desc::build(
        &key,
        "05".repeat(32),
        "h".into(),
        1,
        "06".repeat(32),
        "fam".into(),
        "default".into(),
        NOW,
    );
    let public = d.signing_pub_hex.clone();
    assert!(!a.accept_descriptor(d.duplicate(), NOW));
    a.pin_signing_key([5; 32], public);
    assert!(a.accept_descriptor(d.duplicate(), NOW));
    // A later one takes its place.
    let later = relay_desc::build(
        &key,
        "05".repeat(32),
        "h".into(),
        1,
        "06".repeat(32),
        "other".into(),
        "default".into(),
        NOW + 1,
    );
    assert!(a.accept_descriptor(later, NOW));
    assert_eq!(a.known_descriptors().len(), 1);
    assert_eq!(a.known_descriptors()[0].family, "other");
}

#[test]
fn a_node_describes_itself_once_it_can_sign() {
    let mut a = node(1);
    assert!(a.my_descriptor(NOW).is_none());
    a.set_signing_key([0x51; 32]);
    a.set_family("fam".into());
    let d = a.my_descriptor(NOW).unwrap();
    assert_eq!(d.family, "fam");
    assert_eq!(d.node_id_hex, a.node_id_hex());
    assert_eq!(relay_desc::verify(&d, Some(&d.signing_pub_hex.clone()), NOW), Ok(()));
}

#[test]
fn news_is_passed_on_to_the_others() {
    let mut a = node(1);
    for id in [5u8, 6, 7] {
        let info = PeerInfo { node_id: [id; 32], ..Default::default() };
        a.register_peer(info, Session::new(&[id; 64], true), None, NOW).unwrap();
    }
    assert_eq!(a.gossip_targets(&[6; 32]), vec![[5; 32], [7; 32]]);
}

// ── Consensus upkeep ──────────────────────────────────────────────────

fn entry(id: &str, host: &str, bw: u32) -> PeerEntry {
    PeerEntry {
        node_id_hex: id.into(),
        host: host.into(),
        port: 7700,
        static_pub_hex: "09".repeat(32),
        flags: PeerFlags::STABLE | PeerFlags::FAST | PeerFlags::GUARD | PeerFlags::EXIT
            | PeerFlags::RUNNING | PeerFlags::VALID,
        bandwidth_kbs: bw,
        exit_policy_summary: "default".into(),
        family: String::new(),
    }
}

fn consensus(peers: Vec<PeerEntry>) -> ConsensusDocument {
    ConsensusDocument {
        network_id: "phinet-mainnet".into(),
        shared_random: String::new(),
        valid_after: 1,
        valid_until: 4_102_444_800,
        peers,
    }
}

#[test]
fn dials_a_guard_from_the_consensus() {
    let a = node(1);
    let b_hex = "02".repeat(32);
    let doc = consensus(vec![entry(&b_hex, "10.0.0.2", 1000)]);
    assert!(a.linked().is_empty(), "A starts with no peers");

    // Guard maintenance offers B and, not being linked to it, dials it.
    let offered = a.guards_to_offer(&doc, &[b_hex]);
    assert_eq!(offered.len(), 1);
    assert_eq!(offered[0].node_id, [2; 32]);
    assert_eq!(guard_upkeep(false, true, None), GuardStep::Dial);
    assert_eq!(guard_upkeep(false, true, Some(true)), GuardStep::MarkSuccess);
    assert_eq!(guard_upkeep(false, true, Some(false)), GuardStep::MarkFailure);
    assert_eq!(guard_upkeep(true, true, None), GuardStep::MarkSuccess);
    assert_eq!(guard_upkeep(false, false, None), GuardStep::Skip);
    assert_eq!(GUARD_COUNT, 3);
}

#[test]
fn retires_guards_not_in_consensus() {
    let a = node(1);
    // A guard of an earlier session, and the relay that the consensus lists now.
    let ghost = [0xABu8; 32];
    let real = [0xCDu8; 32];
    let doc = consensus(vec![entry(&hex::encode(real), "127.0.0.1", 1000)]);
    // Guards stay where they are among these.
    let stay = a.consensus_relays(&doc);
    assert!(stay.iter().any(|r| r.node_id == real));
    assert!(!stay.iter().any(|r| r.node_id == ghost),
        "stale guard not in consensus should be retired");
}

#[test]
fn a_node_is_not_its_own_relay() {
    let a = node(1);
    let doc = consensus(vec![
        entry(&"01".repeat(32), "10.0.0.1", 1),
        entry(&"02".repeat(32), "10.0.0.2", 1),
        entry("zz", "10.0.0.3", 1),
    ]);
    let relays = a.consensus_relays(&doc);
    assert_eq!(relays.len(), 1);
    assert_eq!(relays[0].host, "10.0.0.2");
    assert_eq!(a.links_to_restore(&doc).len(), 1);
    assert!(!a.sample_candidates(&doc).contains(&"01".repeat(32)));
    assert!(exempt_addresses(&doc).contains(&"10.0.0.2".to_string()));
}

#[test]
fn circuits_are_stocked_while_wanted() {
    assert_eq!(stock_step(true, false, true), StockStep::Build);
    assert_eq!(stock_step(false, false, true), StockStep::Rest);
    assert_eq!(stock_step(true, true, true), StockStep::Rest);
    assert_eq!(stock_step(true, false, false), StockStep::Rest);
}

// ── Rendezvous with a hidden service ──────────────────────────────────

/// Client and service meet, and the client fetches a page over the channel. Returns
/// what the client read.
fn fetch(path: &str, file: Option<(u16, String, Vec<u8>)>, piece: usize) -> (u16, Vec<u8>) {
    let mut client = node(1);
    let mut hs = node(2);
    let hs_pub = hs.static_pub();
    let rp = [0x77u8; 32];

    let cookie = client.await_service(40, hs_pub);
    let intro = client
        .introduce1_data(&hs_pub, &[0xAA; 32], rp, "10.0.0.7".into(), 7777, cookie)
        .unwrap();
    assert!(hs.handle_introduce2(&intro));
    assert_eq!(hs.hs_rendezvous_pending_len(), 1);
    let intent = hs.next_rendezvous().unwrap();
    assert_eq!(intent.rp_node_id, rp);
    assert_eq!(intent.rp_port, 7777);
    assert_eq!(intent.cookie, cookie);
    assert!(hs.next_rendezvous().is_none());

    let r1 = phinet_core::rendezvous::Rendezvous1::decode(&rendezvous1_data(&intent)).unwrap();
    assert_eq!(r1.cookie, cookie);
    let keys = match client.handle_rendezvous2(40, &rendezvous2_data(&r1)) {
        Met::Ready(k) => k,
        Met::Refused(e) => panic!("refused: {:?}", e),
        Met::Ignored => panic!("nobody was waiting"),
    };
    assert_eq!(keys.client_to_hs_key, intent.e2e_keys.client_to_hs_key);
    assert_eq!(keys.hs_to_client_key, intent.e2e_keys.hs_to_client_key);

    let asked = request_path(&request_for(path));
    assert_eq!(asked, path);
    let (status, kind, body) = answer_request(true, file);
    let pieces = cut(&frame_response(status, &kind, &body), piece);
    let resp = read_reply(&Reply::Pieces(pieces)).expect("a reply");
    assert_eq!(resp.content_type, kind);
    (resp.status, resp.body)
}

#[test]
fn hs_fetch_end_to_end_get() {
    let (status, body) = fetch(
        "/",
        Some((200, "text/html".into(), b"hello from phinet HS".to_vec())),
        496,
    );
    assert_eq!(status, 200, "expected 200 OK from HS");
    assert_eq!(body, b"hello from phinet HS",
        "client must recover the exact bytes the HS served");
}

#[test]
fn hs_fetch_end_to_end_large_body_chunked() {
    let big: Vec<u8> = (0..5000u32).map(|i| (i % 251) as u8).collect();
    let (status, body) = fetch(
        "/big.bin",
        Some((200, "application/octet-stream".into(), big.clone())),
        496,
    );
    assert_eq!(status, 200, "large fetch should be 200");
    assert_eq!(body.len(), big.len(),
        "reassembled body length must match ({} vs {})", body.len(), big.len());
    assert_eq!(body, big, "every chunk must reassemble in order, byte-for-byte");
}

#[test]
fn a_cookie_is_good_for_one_answer() {
    let mut client = node(1);
    let hs = StaticKeypair::from_secret([8; 32]);
    let cookie = client.await_service(40, hs.public_bytes());
    assert_eq!(cookie.len(), 20);
    // An answer that does not prove the service's key is refused, and the wait ends.
    assert!(matches!(client.handle_rendezvous2(40, &[0; 64]), Met::Refused(_)));
    assert!(matches!(client.handle_rendezvous2(40, &[0; 64]), Met::Ignored));
    assert!(matches!(client.handle_rendezvous2(41, &[0; 64]), Met::Ignored));
}

#[test]
fn introductions_for_others_are_not_taken() {
    let mut client = node(1);
    let mut hs = node(2);
    let other = StaticKeypair::from_secret([8; 32]).public_bytes();
    let cookie = client.await_service(1, other);
    let intro = client
        .introduce1_data(&other, &[0xAA; 32], [7; 32], "h".into(), 1, cookie)
        .unwrap();
    assert!(!hs.handle_introduce2(&intro));
    assert!(!hs.handle_introduce2(&[1, 2, 3]));
    assert_eq!(hs.hs_rendezvous_pending_len(), 0);
    assert_eq!(MAX_PENDING_RENDEZVOUS, 64);
}

#[test]
fn a_service_dials_the_meeting_point_before_it_builds() {
    let mut client = node(1);
    let mut hs = node(2);
    let hs_pub = hs.static_pub();
    let cookie = client.await_service(1, hs_pub);
    let intro = client
        .introduce1_data(&hs_pub, &[0xAA; 32], [3; 32], "10.0.0.3".into(), 1, cookie)
        .unwrap();
    assert!(hs.handle_introduce2(&intro));
    let intent = hs.next_rendezvous().unwrap();
    assert!(matches!(hs.meet_step(&intent, None), MeetStep::Dial));
    assert!(matches!(hs.meet_step(&intent, Some(false)), MeetStep::GiveUp(_)));
    assert_eq!(DIAL_MILLIS, 500);
    let info = PeerInfo {
        node_id: [3; 32],
        host: "10.0.0.3".into(),
        port: 1,
        static_pub: "0d".repeat(32),
        ..Default::default()
    };
    hs.register_peer(info, Session::new(&[1; 64], true), None, NOW).unwrap();
    match hs.meet_step(&intent, None) {
        MeetStep::Build(spec) => {
            assert_eq!(spec.node_id, [3; 32]);
            assert_eq!(spec.static_pub, [0x0d; 32]);
        }
        other => panic!("{:?}", other),
    }
}

// ── Messages ──────────────────────────────────────────────────────────

#[test]
fn an_onion_is_forwarded_or_delivered() {
    let mut a = node(1);
    let b = node(2);
    let info = PeerInfo {
        node_id: [2; 32],
        host: b.host.clone(),
        port: b.port,
        ..Default::default()
    };
    a.register_peer(info, Session::new(&[1; 64], true), None, NOW).unwrap();
    let hop = |n: &PhiNode| Hop {
        host: n.host.clone(),
        port: n.port,
        static_pub: hex::encode(n.static_pub()),
    };
    let cell = build(&[hop(&a), hop(&b)], b"payload").unwrap();
    let inner = match a.handle_onion(&cell.cell) {
        OnionStep::Forward(id, inner) => {
            assert_eq!(id, [2; 32]);
            inner
        }
        other => panic!("{:?}", other),
    };
    match b.handle_onion(&inner) {
        OnionStep::Deliver(data) => assert_eq!(data, b"payload"),
        other => panic!("{:?}", other),
    }
    assert!(matches!(b.handle_onion("zz"), OnionStep::Discard));
}

#[test]
fn cells_go_to_linked_peers_only() {
    let mut a = node(1);
    assert!(a.send_circuit_cell(&[5; 32], &[0; 512]).is_err());
    let info = PeerInfo { node_id: [5; 32], ..Default::default() };
    a.register_peer(info, Session::new(&[1; 64], true), None, NOW).unwrap();
    assert!(a.send_circuit_cell(&[5; 32], &[0; 512]).is_ok());
}

#[test]
fn announcements_spread_once() {
    let mut a = node(1);
    assert!(a.on_dht_store(b"key"));
    assert!(!a.on_dht_store(b"key"));
    assert!(!a.on_hs_register("svc", false));
    assert!(a.on_hs_register("svc2", true));
    assert!(!a.on_hs_register("svc2", true));
}

#[test]
fn found_nodes_keep_their_order() {
    let n = |id: &str, host: &str| DhtPeerInfo {
        node_id: id.into(),
        host: host.into(),
        port: 1,
        cert: String::new(),
        static_pub: String::new(),
    };
    let found = dht_found(vec![n(&"01".repeat(32), "a"), n("zz", "b"), n(&"02".repeat(32), "c")]);
    let hosts: Vec<&str> = found.iter().map(|p| p.host.as_str()).collect();
    assert_eq!(hosts[0], "a");
    assert_eq!(*hosts.last().unwrap(), "c");
    assert_eq!(dht_target(&"0a".repeat(32)), [0x0a; 32]);
    assert_eq!(dht_target("zz"), [0; 32]);
}

#[test]
fn mail_is_opened_passed_on_or_dropped() {
    let mut a = node(1);
    for id in [5u8, 6] {
        let info = PeerInfo { node_id: [id; 32], ..Default::default() };
        a.register_peer(info, Session::new(&[id; 64], true), None, NOW).unwrap();
    }
    assert!(matches!(a.com_store_step(true, true, Some([5; 32])), ComStep::Open));
    match a.com_store_step(false, true, Some([5; 32])) {
        ComStep::PassOn(to) => assert_eq!(to, vec![[6; 32]]),
        other => panic!("{:?}", other),
    }
    assert!(matches!(a.com_store_step(false, false, Some([5; 32])), ComStep::Drop));
    assert_eq!(opened_step(Some([1; 16]), true), OpenedStep::Unsend([1; 16]));
    assert_eq!(opened_step(None, true), OpenedStep::Join);
    assert_eq!(opened_step(None, false), OpenedStep::Record);
    assert!(may_inject(Some(496), 496, 2));
    assert!(!may_inject(Some(497), 496, 2));
    assert!(!may_inject(None, 496, 2));
    assert!(!may_inject(Some(1), 496, 0));
    let mut h = Sha256::new();
    h.update(b"com-group");
    h.update([4; 16]);
    assert_eq!(PhiNode::group_thread_id(&[4; 16]).as_slice(), h.finalize().as_slice());
}

#[test]
fn com_circuit_injection_reaches_exit() {
    let mut a = node(1);
    let mut b = node(2);
    link(&mut a, &mut b);
    let path = com_circuit_path(&a.all_peers(), &a.node_id(), 1);
    assert_eq!(path.len(), 1, "A should have exactly B as a peer");
    assert_eq!(path[0].node_id, b.node_id());
    assert_eq!(path[0].static_pub, b.static_pub());
}

#[test]
fn a_node_starts_as_told() {
    let mut a = node(1);
    assert_eq!(a.node_id_hex(), "01".repeat(32));
    assert_eq!(a.start_plan(None).listen_on.as_deref(), Some("127.0.0.1:7001"));
    a.client_only = true;
    assert!(a.start_plan(None).listen_on.is_none());
    assert!(!a.is_shutting_down());
    a.shutdown();
    assert!(a.is_shutting_down());
    assert!(a.suspicious_guards().is_empty());
    assert!(a.guard_stats().is_empty());
}

#[test]
fn static_keys_belong_together() {
    let k = StaticKeypair::generate();
    let again = StaticKeypair::from_secret(k.secret);
    assert_eq!(k.public_bytes(), again.public_bytes());
    let dalek = x25519_dalek::PublicKey::from(&x25519_dalek::StaticSecret::from(k.secret));
    assert_eq!(k.public_bytes(), *dalek.as_bytes());
}

#[test]
fn pieces_make_up_the_whole() {
    let v: Vec<u8> = (0..100).collect();
    let pieces = cut(&v, 33);
    assert_eq!(pieces.len(), 4);
    assert_eq!(pieces[3], vec![99]);
    assert_eq!(gather(&pieces), v);
    assert!(read_reply(&Reply::TimedOut).is_err());
}

#[test]
fn an_answer_has_two_header_lines_and_an_empty_one() {
    let a = parse_hs_response(b"200\ntext/html\n\nhi\n\nyo").unwrap();
    assert_eq!((a.status, a.content_type.as_str()), (200, "text/html"));
    assert_eq!(a.body, b"hi\n\nyo");
    assert!(parse_hs_response(b"200\ntext/html\nhi").is_none());
    assert!(parse_hs_response(b"200\n\nbody").is_none());
    assert!(parse_hs_response(b"\n\nbody").is_none());
    assert!(parse_hs_response(b"ok\ntext/html\n\n").is_none());
    assert!(parse_hs_response(b"200\n\xff\n\nbody").is_none());
    assert!(parse_hs_response(b"").is_none());
}
