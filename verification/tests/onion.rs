use phinet_core::dht::PeerInfo;
use phinet_core::errors::Error;
use phinet_core::onion::{
    build, peel, select_guards, subnet16, trim_json_padding, Hop, DEFAULT_HOPS, HIGH_SECURITY_HOPS,
};
use rand::rngs::OsRng;
use x25519_dalek::{PublicKey, StaticSecret};

fn make_hop(priv_key: &StaticSecret, host: &str, port: u16) -> Hop {
    Hop {
        host: host.into(),
        port,
        static_pub: hex::encode(PublicKey::from(priv_key).as_bytes()),
    }
}

fn p(b0: u8, b1: u8, idx: u8) -> PeerInfo {
    let mut id = [0u8; 32];
    id[0] = idx;
    PeerInfo { node_id: id, host: format!("{}.{}.1.1", b0, b1), port: 7700, ..Default::default() }
}

#[test]
fn three_hop_roundtrip() {
    let k1 = StaticSecret::random_from_rng(OsRng);
    let k2 = StaticSecret::random_from_rng(OsRng);
    let k3 = StaticSecret::random_from_rng(OsRng);
    let hops = vec![
        make_hop(&k1, "10.0.0.1", 7700),
        make_hop(&k2, "10.0.0.2", 7701),
        make_hop(&k3, "10.0.0.3", 7702),
    ];

    let payload = b"secret payload for exit";
    let cell = build(&hops, payload).unwrap();

    let (nh, np, i1) = peel(&cell.cell, &k1.to_bytes(), "10.0.0.1", 7700).unwrap();
    assert_eq!(nh.as_deref(), Some("10.0.0.2"));
    assert_eq!(np, Some(7701));

    let (nh, np, i2) = peel(&hex::encode(&i1), &k2.to_bytes(), "10.0.0.2", 7701).unwrap();
    assert_eq!(nh.as_deref(), Some("10.0.0.3"));
    assert_eq!(np, Some(7702));

    let (nh, np, data) = peel(&hex::encode(&i2), &k3.to_bytes(), "10.0.0.3", 7702).unwrap();
    assert!(nh.is_none());
    assert!(np.is_none());
    assert_eq!(data, payload);
}

#[test]
fn wrong_key_fails() {
    let k1 = StaticSecret::random_from_rng(OsRng);
    let wrong = StaticSecret::random_from_rng(OsRng);
    let cell = build(&[make_hop(&k1, "127.0.0.1", 7700)], b"x").unwrap();
    assert!(peel(&cell.cell, &wrong.to_bytes(), "127.0.0.1", 7700).is_err());
}

#[test]
fn wrong_aad_fails() {
    let k1 = StaticSecret::random_from_rng(OsRng);
    let cell = build(&[make_hop(&k1, "127.0.0.1", 7700)], b"x").unwrap();
    assert!(peel(&cell.cell, &k1.to_bytes(), "127.0.0.2", 7700).is_err());
}

#[test]
fn guard_diversity() {
    let peers = vec![p(10, 1, 0), p(10, 1, 1), p(10, 2, 2), p(10, 3, 3)];
    let g = select_guards(&peers, 2, &[]);
    assert_eq!(g.len(), 2);
    // Both must have different /16
    assert_ne!(subnet16(&g[0].host), subnet16(&g[1].host));
}

#[test]
fn guards_keep_out_of_excluded_subnets() {
    let peers = vec![p(10, 1, 0), p(10, 2, 1), p(10, 3, 2)];
    let g = select_guards(&peers, 5, &[[10, 2]]);
    assert_eq!(g.len(), 2);
    assert_eq!(g[0].node_id[0], 0);
    assert_eq!(g[1].node_id[0], 2);
}

#[test]
fn subnets_come_from_the_first_two_octets() {
    assert_eq!(subnet16("10.20.30.40"), [10, 20]);
    assert_eq!(subnet16("example.com"), [0, 0]);
}

#[test]
fn an_onion_needs_a_hop_and_its_key() {
    assert!(matches!(build(&[], b"x"), Err(Error::Onion(_))));
    let bad = Hop { host: "h".into(), port: 1, static_pub: "zz".into() };
    assert!(build(&[bad], b"x").is_err());
    let short = Hop { host: "h".into(), port: 1, static_pub: "aabb".into() };
    assert!(short.static_pub_bytes().is_err());
    let good = Hop { host: "h".into(), port: 1, static_pub: "ab".repeat(32) };
    assert_eq!(good.static_pub_bytes().unwrap(), [0xab; 32]);
}

#[test]
fn a_cell_that_is_no_hex_or_too_short_is_refused() {
    assert!(peel("zz", &[1; 32], "h", 1).is_err());
    assert!(peel("aabb", &[1; 32], "h", 1).is_err());
}

#[test]
fn padding_is_cut_after_the_last_brace() {
    assert_eq!(trim_json_padding(b"{\"a\":1}\x00\x01\x02"), b"{\"a\":1}");
    assert_eq!(DEFAULT_HOPS, 3);
    assert_eq!(HIGH_SECURITY_HOPS, 5);
}

#[test]
fn five_layers_peel_in_order() {
    let keys: Vec<StaticSecret> = (0..HIGH_SECURITY_HOPS)
        .map(|_| StaticSecret::random_from_rng(OsRng))
        .collect();
    let hops: Vec<Hop> = keys
        .iter()
        .enumerate()
        .map(|(i, k)| make_hop(k, &format!("10.0.{}.1", i), 7700 + i as u16))
        .collect();
    let mut cell = build(&hops, b"deep").unwrap().cell;
    for (i, k) in keys.iter().enumerate() {
        let (next, port, inner) = peel(&cell, &k.to_bytes(), &hops[i].host, hops[i].port).unwrap();
        if i + 1 < hops.len() {
            assert_eq!(next.unwrap(), hops[i + 1].host);
            assert_eq!(port.unwrap(), hops[i + 1].port);
            cell = hex::encode(&inner);
        } else {
            assert!(next.is_none() && port.is_none());
            assert_eq!(inner, b"deep");
        }
    }
}

#[test]
fn a_layer_is_a_record_with_four_fields() {
    let k = StaticSecret::random_from_rng(OsRng);
    let cell = build(&[make_hop(&k, "127.0.0.1", 7700)], b"x").unwrap();
    let bytes = hex::decode(&cell.cell).unwrap();
    let v: serde_json::Value = serde_json::from_slice(&bytes).unwrap();
    assert_eq!(v["aad"], "127.0.0.1:7700");
    assert_eq!(v["ephem_pub"].as_str().unwrap().len(), 64);
    assert!(v["nonce"].is_u64());
    // One cell of 512 bytes and a tag of 16, in hexadecimal.
    assert_eq!(v["ct"].as_str().unwrap().len(), 2 * (512 + 16));
}

#[test]
fn a_layer_for_another_address_names_both() {
    let k = StaticSecret::random_from_rng(OsRng);
    let cell = build(&[make_hop(&k, "10.0.0.1", 7700)], b"x").unwrap().cell;
    for (host, port) in [("10.0.0.2", 7700), ("10.0.0.1", 7701)] {
        match peel(&cell, &k.to_bytes(), host, port) {
            Err(Error::Onion(t)) => assert_eq!(
                t,
                format!("AAD mismatch: got '10.0.0.1:7700', expected '{}:{}'", host, port)
            ),
            other => panic!("{:?}", other),
        }
    }
}

#[test]
fn a_layer_may_be_an_array() {
    let k = StaticSecret::random_from_rng(OsRng);
    let cell = build(&[make_hop(&k, "h", 1)], b"x").unwrap().cell;
    let bytes = hex::decode(&cell).unwrap();
    let v: serde_json::Value = serde_json::from_slice(&bytes).unwrap();
    let fields = [v["ephem_pub"].clone(), v["nonce"].clone(), v["aad"].clone(), v["ct"].clone()];
    let array = serde_json::to_vec(&fields.to_vec()).unwrap();
    let (next, port, data) = peel(&hex::encode(&array), &k.to_bytes(), "h", 1).unwrap();
    assert!(next.is_none() && port.is_none());
    assert_eq!(data, b"x");
    let short = serde_json::to_vec(&fields[..3].to_vec()).unwrap();
    assert!(matches!(peel(&hex::encode(&short), &k.to_bytes(), "h", 1), Err(Error::Onion(_))));
}
