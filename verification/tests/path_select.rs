use phinet_core::directory::{ConsensusDocument, PeerEntry, PeerFlags};
use phinet_core::path_select::{
    eligible_for_position, hex_to_32, pick_by_target, same_family, select_path, subnet_key,
    weighted_random_pick, PathError, Position, SelectedHop, NO_EXIT, NO_GUARD, NO_MIDDLE,
};
use rand::rngs::StdRng;
use rand::SeedableRng;

fn peer(id: &str, host: &str, bw: u32, flags: u32) -> PeerEntry {
    peer_fam(id, host, bw, flags, "")
}

fn peer_fam(id: &str, host: &str, bw: u32, flags: u32, family: &str) -> PeerEntry {
    PeerEntry {
        node_id_hex: id.into(),
        host: host.into(),
        port: 7700,
        static_pub_hex: format!("{:0<64}", id),
        flags: flags,
        bandwidth_kbs: bw,
        exit_policy_summary: String::new(),
        family: family.into(),
    }
}

fn all_flags() -> u32 {
    PeerFlags::STABLE | PeerFlags::FAST | PeerFlags::GUARD | PeerFlags::EXIT
    | PeerFlags::RUNNING | PeerFlags::VALID
}

fn build_consensus(peers: Vec<PeerEntry>) -> ConsensusDocument {
    ConsensusDocument {
        network_id: "test".into(),
        shared_random: String::new(),
        valid_after: 0,
        valid_until: u64::MAX,
        peers,
    }
}

#[test]
fn select_path_with_minimum_diverse_relays() {
    // 3 relays on different /16s, all flags. Must succeed.
    let consensus = build_consensus(vec![
        peer("aa", "10.0.0.1", 1000, all_flags()),
        peer("bb", "11.0.0.1", 1000, all_flags()),
        peer("cc", "12.0.0.1", 1000, all_flags()),
    ]);
    let mut rng = StdRng::seed_from_u64(42);
    let path = select_path(&mut rng, &consensus, &[], None).unwrap();
    assert_eq!(path.hops.len(), 3);
    // All three are distinct
    let mut ids = vec![&path.hops[0].node_id_hex, &path.hops[1].node_id_hex, &path.hops[2].node_id_hex];
    ids.sort();
    ids.dedup();
    assert_eq!(ids.len(), 3, "all hops must be distinct");
}

#[test]
fn select_path_avoids_same_subnet() {
    // 4 relays: 3 on the same /16, 1 elsewhere. The guard slot
    // takes one of the same-/16 peers; the rest must avoid it.
    // With only 1 peer on a different /16, we cannot fill all 3
    // slots without a /16 collision — this should fail.
    let consensus = build_consensus(vec![
        peer("aa", "10.0.0.1", 1000, all_flags()),
        peer("bb", "10.0.0.2", 1000, all_flags()),
        peer("cc", "10.0.0.3", 1000, all_flags()),
        peer("dd", "11.0.0.1", 1000, all_flags()),
    ]);
    let mut had_failure = false;
    for seed in 0..20 {
        let mut rng = StdRng::seed_from_u64(seed);
        let result = select_path(&mut rng, &consensus, &[], None);
        if result.is_err() { had_failure = true; }
        if let Ok(path) = result {
            // If it succeeded, /16s must all be distinct
            let s0 = subnet_key(&path.hops[0].host);
            let s1 = subnet_key(&path.hops[1].host);
            let s2 = subnet_key(&path.hops[2].host);
            assert_ne!(s0, s1);
            assert_ne!(s1, s2);
            assert_ne!(s0, s2);
        }
    }
    // Stronger constraint: with only 4 relays distributed 3+1
    // across two /16s, no path should ever satisfy all three
    // slots being on different /16s. Verify by checking a
    // narrower 3-relay topology.
    let _ = had_failure;
    let consensus2 = build_consensus(vec![
        peer("aa", "10.0.0.1", 1000, all_flags()),
        peer("bb", "10.0.0.2", 1000, all_flags()),
        peer("cc", "10.0.0.3", 1000, all_flags()),
    ]);
    let mut rng2 = StdRng::seed_from_u64(0);
    let result = select_path(&mut rng2, &consensus2, &[], None);
    assert!(result.is_err(), "3 relays all on same /16 cannot satisfy path");
}

#[test]
fn select_path_excludes_self() {
    // Exclude one of the relays; selected hops must not include it.
    let consensus = build_consensus(vec![
        peer("aa", "10.0.0.1", 1000, all_flags()),
        peer("bb", "11.0.0.1", 1000, all_flags()),
        peer("cc", "12.0.0.1", 1000, all_flags()),
        peer("dd", "13.0.0.1", 1000, all_flags()),
    ]);
    let mut rng = StdRng::seed_from_u64(7);
    let path = select_path(&mut rng, &consensus, &["aa".into()], None).unwrap();
    for hop in &path.hops {
        assert_ne!(hop.node_id_hex, "aa", "excluded id must not appear");
    }
}

#[test]
fn select_path_respects_pinned_guard() {
    let consensus = build_consensus(vec![
        peer("aa", "10.0.0.1", 100, all_flags()),
        peer("bb", "11.0.0.1", 1000, all_flags()),
        peer("cc", "12.0.0.1", 1000, all_flags()),
    ]);
    let pinned = peer("aa", "10.0.0.1", 100, all_flags());
    let mut rng = StdRng::seed_from_u64(99);
    let path = select_path(&mut rng, &consensus, &[], Some(&pinned)).unwrap();
    // Pinned guard must be hop 0 even though its bw is much lower
    assert_eq!(path.hops[0].node_id_hex, "aa");
}

#[test]
fn select_path_requires_exit_flag() {
    // 4 relays, none with EXIT flag — selection must fail.
    let no_exit = PeerFlags::STABLE | PeerFlags::FAST | PeerFlags::GUARD
                | PeerFlags::RUNNING | PeerFlags::VALID;
    let consensus = build_consensus(vec![
        peer("aa", "10.0.0.1", 1000, no_exit),
        peer("bb", "11.0.0.1", 1000, no_exit),
        peer("cc", "12.0.0.1", 1000, no_exit),
        peer("dd", "13.0.0.1", 1000, no_exit),
    ]);
    let mut rng = StdRng::seed_from_u64(1);
    let result = select_path(&mut rng, &consensus, &[], None);
    assert!(result.is_err());
}

#[test]
fn select_path_empty_consensus_fails() {
    let consensus = build_consensus(vec![]);
    let mut rng = StdRng::seed_from_u64(0);
    let result = select_path(&mut rng, &consensus, &[], None);
    assert!(result.is_err());
}

#[test]
fn weighted_pick_zero_bandwidth_fallback() {
    // All relays with bw=0 must still produce a pick (uniform fallback).
    let p1 = peer("aa", "h1", 0, all_flags());
    let p2 = peer("bb", "h2", 0, all_flags());
    let candidates = vec![&p1, &p2];
    let mut rng = StdRng::seed_from_u64(0);
    let pick = weighted_random_pick(&mut rng, &candidates);
    assert!(pick.is_some());
}

#[test]
fn weighted_pick_proportional_distribution() {
    // 1000 picks across two relays with 9:1 bandwidth ratio
    // should produce ~90% / ~10% distribution. Tolerance is
    // wide because 1000 trials with binomial variance.
    let p1 = peer("aa", "h1", 900, all_flags());
    let p2 = peer("bb", "h2", 100, all_flags());
    let candidates = vec![&p1, &p2];

    let mut rng = StdRng::seed_from_u64(424242);
    let mut count_aa = 0;
    let n = 1000;
    for _ in 0..n {
        let pick = weighted_random_pick(&mut rng, &candidates).unwrap();
        if pick.node_id_hex == "aa" { count_aa += 1; }
    }
    // Expect ~900. Tolerance: ±50 covers >99% confidence interval.
    assert!(count_aa > 850 && count_aa < 950,
        "weighted pick produced {} of {} for 9:1 ratio (expected ~900)",
        count_aa, n);
}

#[test]
fn weighted_pick_empty_returns_none() {
    let candidates: Vec<&PeerEntry> = vec![];
    let mut rng = StdRng::seed_from_u64(0);
    assert!(weighted_random_pick(&mut rng, &candidates).is_none());
}

#[test]
fn subnet_key_ipv4_groups_by_16() {
    assert_eq!(subnet_key("10.0.0.1"), subnet_key("10.0.255.255"));
    assert_ne!(subnet_key("10.0.0.1"), subnet_key("10.1.0.1"));
    assert_ne!(subnet_key("10.0.0.1"), subnet_key("11.0.0.1"));
}

#[test]
fn other_hosts_are_their_own_subnet() {
    assert_ne!(subnet_key("2001:db8:1::1"), subnet_key("2001:db8:1::2"));
    assert_eq!(subnet_key("2001:db8:1::1"), subnet_key("2001:db8:1::1"));
    assert_ne!(subnet_key("::1"), subnet_key("0:0:0:0:0:0:0:1"));
    assert_ne!(subnet_key("a.example.com"), subnet_key("b.example.com"));
    assert_ne!(subnet_key("ipv4-10.0"), subnet_key("10.0.0.1"));
}

#[test]
fn subnet_key_distinguishes_address_families() {
    assert_ne!(subnet_key("10.0.0.1"), subnet_key("::1"));
    assert_ne!(subnet_key("10.0.0.1"), subnet_key("example.com"));
}

#[test]
fn eligible_for_position_filters_correctly() {
    let consensus = build_consensus(vec![
        peer("aa", "10.0.0.1", 100, all_flags()),                    // all
        peer("bb", "10.0.0.2", 100, PeerFlags::STABLE | PeerFlags::FAST | PeerFlags::RUNNING | PeerFlags::VALID),
        peer("cc", "10.0.0.3", 100, PeerFlags::STABLE | PeerFlags::FAST | PeerFlags::EXIT | PeerFlags::RUNNING | PeerFlags::VALID),
        peer("dd", "10.0.0.4", 0,   all_flags()),                    // bw=0 excluded
    ]);

    let guards = eligible_for_position(&consensus, Position::Guard);
    assert_eq!(guards.iter().map(|p| p.node_id_hex.as_str()).collect::<Vec<_>>(),
               vec!["aa"]);  // only aa has GUARD with bw>0

    let exits = eligible_for_position(&consensus, Position::Exit);
    let exit_ids: Vec<_> = exits.iter().map(|p| p.node_id_hex.as_str()).collect();
    assert!(exit_ids.contains(&"aa"));
    assert!(exit_ids.contains(&"cc"));
    assert!(!exit_ids.contains(&"bb"));
    assert!(!exit_ids.contains(&"dd"));

    let middles = eligible_for_position(&consensus, Position::Middle);
    // bb, aa, cc all qualify as middle (need only STABLE+FAST+RUNNING+VALID)
    let middle_ids: Vec<_> = middles.iter().map(|p| p.node_id_hex.as_str()).collect();
    assert!(middle_ids.contains(&"aa"));
    assert!(middle_ids.contains(&"bb"));
    assert!(middle_ids.contains(&"cc"));
    assert!(!middle_ids.contains(&"dd"));
}

#[test]
fn selected_hop_to_link_spec_roundtrip() {
    // 32-byte hex strings (64 hex chars) decode cleanly.
    let hop = SelectedHop {
        node_id_hex:    "aa".repeat(32),
        host:           "10.0.0.1".into(),
        port:           7700,
        static_pub_hex: "bb".repeat(32),
    };
    let ls = hop.to_link_spec().expect("conversion");
    assert_eq!(ls.host, "10.0.0.1");
    assert_eq!(ls.port, 7700);
    assert_eq!(ls.node_id, [0xaau8; 32]);
    assert_eq!(ls.static_pub, [0xbbu8; 32]);
}

#[test]
fn selected_hop_to_link_spec_rejects_short_hex() {
    let hop = SelectedHop {
        node_id_hex:    "aa".into(),  // too short
        host:           "10.0.0.1".into(),
        port:           7700,
        static_pub_hex: "bb".repeat(32),
    };
    assert!(hop.to_link_spec().is_err());
}

#[test]
fn selected_path_to_link_specs_collects_all() {
    let consensus = build_consensus(vec![
        peer("aa".repeat(32).as_str(), "10.0.0.1", 1000, all_flags()),
        peer("bb".repeat(32).as_str(), "11.0.0.1", 1000, all_flags()),
        peer("cc".repeat(32).as_str(), "12.0.0.1", 1000, all_flags()),
    ]);
    // Override static_pub_hex to be 64-char so the conversion test
    // sees real hex (peer() uses the id padded with 0s — for these
    // test ids it's already 64 chars).
    let mut rng = StdRng::seed_from_u64(42);
    let path = select_path(&mut rng, &consensus, &[], None).unwrap();
    let specs = path.to_link_specs().expect("convert");
    assert_eq!(specs.len(), 3);
}

#[test]
fn select_path_runs_with_realistic_consensus() {
    // Simulate a small but realistic network: 20 relays, mixed
    // flag distributions, mixed /16s, mixed bandwidths. Selection
    // should succeed reliably across many seeds.
    let mut peers = Vec::new();
    for i in 0..20u32 {
        let mut flags = PeerFlags::STABLE | PeerFlags::FAST
                      | PeerFlags::RUNNING | PeerFlags::VALID;
        if i % 3 == 0 { flags |= PeerFlags::GUARD; }
        if i % 4 == 0 { flags |= PeerFlags::EXIT; }
        let host = format!("{}.0.0.1", 10 + i);  // distinct /16 each
        let bw = 100 + (i * 50);
        peers.push(peer(&format!("{:02x}", i), &host, bw, flags));
    }
    let consensus = build_consensus(peers);
    let mut success = 0;
    for seed in 0..50 {
        let mut rng = StdRng::seed_from_u64(seed);
        if select_path(&mut rng, &consensus, &[], None).is_ok() {
            success += 1;
        }
    }
    assert_eq!(success, 50,
        "every selection should succeed on this realistic topology");
}

#[test]
fn unaffiliated_relays_never_conflict() {
    // The common case: nobody declares a family. Empty must not be read
    // as "everyone is related", or no path could ever be built.
    assert!(!same_family("", ""));
}

#[test]
fn same_declared_family_conflicts() {
    assert!(same_family("acme", "acme"));
    assert!(!same_family("acme", "other"));
    assert!(!same_family("", "acme"));
}

#[test]
fn path_avoids_two_relays_from_one_operator() {
    // Six relays, but four belong to one operator across two subnets —
    // exactly the case /16 diversity misses. A path must not contain two
    // of theirs.
    let mut rng = StdRng::seed_from_u64(7);
    let c = build_consensus(vec![
        peer_fam("aa", "10.0.0.1",  1000, all_flags(), "bigco"),
        peer_fam("bb", "11.0.0.1",  1000, all_flags(), "bigco"),
        peer_fam("cc", "12.0.0.1",  1000, all_flags(), "bigco"),
        peer_fam("dd", "13.0.0.1",  1000, all_flags(), "bigco"),
        peer_fam("ee", "14.0.0.1",  1000, all_flags(), ""),
        peer_fam("ff", "15.0.0.1",  1000, all_flags(), ""),
    ]);
    for _ in 0..50 {
        let p = select_path(&mut rng, &c, &[], None).expect("a path exists");
        let fams: Vec<String> = p.hops.iter()
            .map(|h| c.peers.iter()
                .find(|e| e.node_id_hex == h.node_id_hex)
                .map(|e| e.family.clone()).unwrap_or_default())
            .collect();
        let bigco = fams.iter().filter(|f| *f == "bigco").count();
        assert!(bigco <= 1,
                "path used {} relays from one operator: {:?}", bigco, fams);
    }
}

#[test]
fn one_operator_declaring_everything_cannot_build_a_path() {
    // Not a bug — the point. If every relay is run by the same person,
    // there is no diverse path to build, and saying so is more honest
    // than quietly handing back a circuit that isn't one.
    let mut rng = StdRng::seed_from_u64(3);
    let c = build_consensus(vec![
        peer_fam("aa", "10.0.0.1", 1000, all_flags(), "solo"),
        peer_fam("bb", "11.0.0.1", 1000, all_flags(), "solo"),
        peer_fam("cc", "12.0.0.1", 1000, all_flags(), "solo"),
    ]);
    let r = select_path(&mut rng, &c, &[], None);
    assert!(r.is_err(), "three relays from one operator is not a path");
}

#[test]
fn a_target_below_the_total_picks_by_bandwidth() {
    let p1 = peer("aa", "h1", 3, all_flags());
    let p2 = peer("bb", "h2", 0, all_flags());
    let p3 = peer("cc", "h3", 2, all_flags());
    let c = vec![&p1, &p2, &p3];
    assert_eq!(pick_by_target(&c, 0), 0);
    assert_eq!(pick_by_target(&c, 2), 0);
    assert_eq!(pick_by_target(&c, 3), 2);
    assert_eq!(pick_by_target(&c, 4), 2);
}

#[test]
fn each_missing_position_has_its_own_error() {
    let mut rng = StdRng::seed_from_u64(5);
    let middle = PeerFlags::STABLE | PeerFlags::FAST | PeerFlags::RUNNING | PeerFlags::VALID;
    let no_guard = build_consensus(vec![peer("aa", "10.0.0.1", 10, middle)]);
    assert_eq!(why(select_path(&mut rng, &no_guard, &[], None)), NO_GUARD);
    let no_exit = build_consensus(vec![peer("aa", "10.0.0.1", 10, all_flags())]);
    assert_eq!(why(select_path(&mut rng, &no_exit, &[], None)), NO_EXIT);
    let no_middle = build_consensus(vec![
        peer("aa", "10.0.0.1", 10, all_flags()),
        peer("bb", "11.0.0.1", 10, all_flags()),
    ]);
    assert_eq!(why(select_path(&mut rng, &no_middle, &[], None)), NO_MIDDLE);
}

fn why<T>(r: Result<T, PathError>) -> String {
    match r {
        Ok(_) => panic!("a path was found"),
        Err(PathError::InsufficientRelays(text)) => text,
    }
}

#[test]
fn a_path_error_says_what_is_missing() {
    let e = PathError::InsufficientRelays("no exits".into());
    assert!(e.message().contains("no exits"));
}

#[test]
fn identifiers_are_32_bytes_of_hexadecimal() {
    assert_eq!(hex_to_32(&"0f".repeat(32)), Some([0x0f; 32]));
    assert_eq!(hex_to_32("0f"), None);
    assert_eq!(hex_to_32(&"zz".repeat(32)), None);
}

#[test]
fn a_hop_is_a_copy_of_its_relay() {
    let p = peer("aa", "10.0.0.1", 5, all_flags());
    let h = SelectedHop::from(&p);
    assert_eq!(h.node_id_hex, "aa");
    assert_eq!(h.host, "10.0.0.1");
    assert_eq!(h.port, 7700);
    assert_eq!(h.static_pub_hex, p.static_pub_hex);
}
