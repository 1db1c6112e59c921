use phinet_core::vanguards::{
    VanguardEntry, Vanguards, LAYER2_LIFETIME, LAYER2_MIN_LIFETIME, MAX_LAYER2, UNREACHABLE_GRACE,
};
use std::time::{SystemTime, UNIX_EPOCH};

fn now_unix() -> u64 {
    SystemTime::now().duration_since(UNIX_EPOCH).unwrap().as_secs()
}

fn entry(id: &str) -> (String, String, u16, String) {
    (id.to_string(), format!("host-{id}"), 7700, format!("{:0<64}", id))
}

#[test]
fn add_until_full() {
    let mut v = Vanguards::new_test();
    for i in 0..MAX_LAYER2 {
        let (id, h, p, sp) = entry(&format!("aa{:02}", i));
        assert!(v.add_candidate(&id, &h, p, &sp));
    }
    // Next one rejected
    let (id, h, p, sp) = entry("ff");
    assert!(!v.add_candidate(&id, &h, p, &sp));
    assert_eq!(v.active_count(), MAX_LAYER2);
}

#[test]
fn add_duplicate_rejected() {
    let mut v = Vanguards::new_test();
    let (id, h, p, sp) = entry("aa");
    assert!(v.add_candidate(&id, &h, p, &sp));
    assert!(!v.add_candidate(&id, &h, p, &sp), "duplicate must be rejected");
}

#[test]
fn pick_returns_none_when_empty() {
    let v = Vanguards::new_test();
    assert!(v.pick_layer2().is_none());
}

#[test]
fn pick_returns_active_entry() {
    let mut v = Vanguards::new_test();
    let (id, h, p, sp) = entry("aa");
    v.add_candidate(&id, &h, p, &sp);
    let picked = v.pick_layer2().expect("should pick");
    assert_eq!(picked.node_id_hex, id);
}

#[test]
fn pick_skips_unreachable() {
    let mut v = Vanguards::new_test();
    let (id_a, h_a, p_a, sp_a) = entry("aa");
    let (id_b, h_b, p_b, sp_b) = entry("bb");
    v.add_candidate(&id_a, &h_a, p_a, &sp_a);
    v.add_candidate(&id_b, &h_b, p_b, &sp_b);

    // Mark aa unreachable
    v.mark_unreachable(&id_a);

    // Pick must return bb, not aa
    let picked = v.pick_layer2().expect("at least one available");
    assert_eq!(picked.node_id_hex, id_b);
}

#[test]
fn pick_prefers_recently_used() {
    let mut v = Vanguards::new_test();
    for tag in ["aa", "bb", "cc"] {
        let (id, h, p, sp) = entry(tag);
        v.add_candidate(&id, &h, p, &sp);
    }
    // Mark bb as recently used
    v.mark_used("bb");
    let picked = v.pick_layer2().expect("pick");
    assert_eq!(picked.node_id_hex, "bb",
        "pick should prefer recently-used vanguard");
}

#[test]
fn mark_used_clears_unreachable_flag() {
    let mut v = Vanguards::new_test();
    let (id, h, p, sp) = entry("aa");
    v.add_candidate(&id, &h, p, &sp);
    v.mark_unreachable(&id);
    assert_eq!(v.active_count(), 0);

    // Used successfully — flag should clear
    v.mark_used(&id);
    assert_eq!(v.active_count(), 1);
}

#[test]
fn rotation_eligibility() {
    let now = now_unix();
    let fresh = VanguardEntry {
        node_id_hex: "x".into(), host: "h".into(), port: 1,
        static_pub_hex: "p".into(),
        added_at: now, last_used: 0, unreachable_since: 0,
    };
    assert!(!fresh.should_rotate(now));
    assert!(!fresh.should_remove_unreachable(now));

    // Past LAYER2_LIFETIME → rotate
    let aged = VanguardEntry {
        added_at: now.saturating_sub(LAYER2_LIFETIME + 1),
        ..fresh.clone()
    };
    assert!(aged.should_rotate(now));

    // Unreachable but within MIN_LIFETIME → keep
    let recent_unreach = VanguardEntry {
        added_at: now.saturating_sub(LAYER2_MIN_LIFETIME / 2),
        unreachable_since: now.saturating_sub(7200),
        ..fresh.clone()
    };
    assert!(!recent_unreach.should_remove_unreachable(now));

    // Old AND long-unreachable → remove
    let stale_unreach = VanguardEntry {
        added_at: now.saturating_sub(LAYER2_MIN_LIFETIME + 100),
        unreachable_since: now.saturating_sub(7200),
        ..fresh.clone()
    };
    assert!(stale_unreach.should_remove_unreachable(now));
}

#[test]
fn persistence_roundtrip() {
    let mut v1 = Vanguards::new_test();
    let (id, h, p, sp) = entry("aa");
    assert!(v1.add_candidate(&id, &h, p, &sp));
    v1.mark_used(&id);

    // Started again from what was saved: the entry is there with last_used set.
    let v2 = Vanguards::from_entries(v1.list());
    let entries = v2.list();
    assert_eq!(entries.len(), 1);
    assert_eq!(entries[0].node_id_hex, id);
    assert!(entries[0].last_used > 0);
}

#[test]
fn maintain_drops_rotated_entries() {
    let mut v = Vanguards::new_test();
    // Insert two entries. Age the first one beyond LAYER2_LIFETIME.
    let (id1, h1, p1, sp1) = entry("old");
    v.add_candidate(&id1, &h1, p1, &sp1);
    let (id2, h2, p2, sp2) = entry("new");
    v.add_candidate(&id2, &h2, p2, &sp2);
    v.entries[0].added_at = now_unix().saturating_sub(LAYER2_LIFETIME + 100);

    // Now maintain() should drop the aged entry.
    let removed = v.maintain();
    assert_eq!(removed, 1, "should remove the aged entry");
    let remaining = v.list();
    assert_eq!(remaining.len(), 1);
    assert_eq!(remaining[0].node_id_hex, "new");
}

#[test]
fn an_unreachable_relay_makes_room_after_its_grace() {
    let mut v = Vanguards::new_test();
    for i in 0..MAX_LAYER2 {
        let (id, h, p, sp) = entry(&format!("r{}", i));
        assert!(v.add_candidate_at(&id, &h, p, &sp, 1_000_000));
    }
    let later = 1_000_000 + LAYER2_MIN_LIFETIME + 1;
    v.mark_unreachable_at("r0", later);
    let (id, h, p, sp) = entry("new");
    assert!(!v.add_candidate_at(&id, &h, p, &sp, later + UNREACHABLE_GRACE - 1));
    assert!(v.add_candidate_at(&id, &h, p, &sp, later + UNREACHABLE_GRACE));
    assert_eq!(v.list().len(), MAX_LAYER2);
    assert!(v.list().iter().all(|e| e.node_id_hex != "r0"));
}

#[test]
fn the_last_of_the_equally_recent_is_picked() {
    let mut v = Vanguards::new_test();
    for tag in ["aa", "bb", "cc"] {
        let (id, h, p, sp) = entry(tag);
        v.add_candidate_at(&id, &h, p, &sp, 10);
    }
    assert_eq!(v.pick_layer2_at(20).unwrap().node_id_hex, "cc");
    v.mark_used_at("aa", 15);
    assert_eq!(v.pick_layer2_at(20).unwrap().node_id_hex, "aa");
    assert_eq!(v.active_count_at(20), 3);
    assert_eq!(v.maintain_at(20), 0);
}
