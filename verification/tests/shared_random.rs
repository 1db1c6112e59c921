use phinet_core::shared_random::{check_reveal, commit, compute_srv, fresh_contribution, Reveal, CONTRIBUTION_LEN};

fn val(b: u8) -> [u8; 32] { [b; 32] }

fn revealed(id: &str, b: u8) -> Reveal {
    Reveal { authority_id: id.into(), value: val(b) }
}

#[test]
fn a_commitment_binds_its_value() {
    let c = commit("a1", &val(7), 100);
    assert!(check_reveal("a1", &val(7), 100, &c));
    assert!(!check_reveal("a1", &val(8), 100, &c),
            "if another value matched, committing would mean nothing");
}

#[test]
fn a_commitment_is_bound_to_its_author() {
    // Otherwise an authority could replay someone else's commitment and
    // reveal their value as its own.
    let c = commit("a1", &val(7), 100);
    assert!(!check_reveal("a2", &val(7), 100, &c));
}

#[test]
fn a_commitment_is_bound_to_its_period() {
    // Reusing last period's commitment would let an authority contribute
    // a value it already knows the effect of.
    let c = commit("a1", &val(7), 100);
    assert!(!check_reveal("a1", &val(7), 101, &c));
}

#[test]
fn a_commitment_hides_its_value() {
    // Not a proof, but the obvious failure — a commitment that's just the
    // value in a hat — would show up here.
    let c = commit("a1", &val(7), 100);
    assert!(!c.contains("0707"));
}

#[test]
fn every_authority_computes_the_same_value() {
    // The whole point: one ring, agreed by all, in any arrival order.
    let a = vec![revealed("a1", 1), revealed("a2", 2), revealed("a3", 3)];
    let b = vec![revealed("a3", 3), revealed("a1", 1), revealed("a2", 2)];
    assert_eq!(compute_srv(&a, 1, 2), compute_srv(&b, 1, 2));
}

#[test]
fn every_contribution_changes_the_result() {
    // If one authority's value could be ignored, that authority has been
    // silently excluded from a protocol whose only purpose is that nobody
    // is in sole control.
    let base = vec![revealed("a1", 1), revealed("a2", 2)];
    let diff = vec![revealed("a1", 1), revealed("a2", 9)];
    assert_ne!(compute_srv(&base, 1, 2), compute_srv(&diff, 1, 2));
}

#[test]
fn the_value_changes_every_period() {
    // A ring that never moves lets a directory sit beside a service
    // forever, which is what all of this is trying to prevent.
    let r = vec![revealed("a1", 1), revealed("a2", 2)];
    assert_ne!(compute_srv(&r, 1, 2), compute_srv(&r, 2, 2));
}

#[test]
fn one_authority_cannot_flood_the_input() {
    // Many reveals from one authority must count once, or it can drown
    // out everyone else and choose the outcome alone.
    let honest = vec![revealed("a1", 1), revealed("a2", 2)];
    let flooded = vec![
        revealed("a1", 1), revealed("a1", 1), revealed("a1", 1), revealed("a2", 2),
    ];
    assert_eq!(compute_srv(&honest, 1, 2), compute_srv(&flooded, 1, 2));
}

#[test]
fn too_few_reveals_produce_nothing() {
    // A value from a single contributor is that contributor's choice.
    // Better to have no shared randomness than to have something that
    // looks like it but isn't.
    assert!(compute_srv(&[revealed("a1", 1)], 1, 2).is_none());
    assert!(compute_srv(&[], 1, 2).is_none());
}

#[test]
fn a_missing_authority_still_yields_a_value() {
    // An authority that commits and then withholds its reveal shouldn't
    // be able to stop the network by sulking.
    let r = vec![revealed("a1", 1), revealed("a2", 2)];
    assert!(compute_srv(&r, 1, 2).is_some());
}

#[test]
fn fresh_contributions_are_not_all_the_same() {
    assert_ne!(fresh_contribution(), fresh_contribution());
}

#[test]
fn a_commitment_is_a_digest_in_hexadecimal() {
    let c = commit("a1", &val(7), 100);
    assert_eq!(c.len(), 64);
    assert!(c.chars().all(|ch| ch.is_ascii_hexdigit()));
    assert_eq!(CONTRIBUTION_LEN, 32);
}

#[test]
fn two_values_of_one_authority_count_alike_in_any_order() {
    let x = [revealed("a1", 1), revealed("a1", 9), revealed("a2", 2)];
    let y = [revealed("a1", 9), revealed("a1", 1), revealed("a2", 2)];
    let z = [revealed("a2", 2), revealed("a1", 9), revealed("a2", 2), revealed("a1", 1)];
    assert_eq!(compute_srv(&x, 1, 2), compute_srv(&y, 1, 2));
    assert_eq!(compute_srv(&x, 1, 2), compute_srv(&z, 1, 2));
    // The least of the two values is the one that counts.
    let least = [revealed("a1", 1), revealed("a2", 2)];
    assert_eq!(compute_srv(&x, 1, 2), compute_srv(&least, 1, 2));
    assert_eq!(compute_srv(&x, 1, 3), None);
}

#[test]
fn no_contribution_is_ignored() {
    let base = compute_srv(&[revealed("a1", 1), revealed("a2", 2)], 1, 2);
    // Identifiers and values cannot run into each other.
    assert_ne!(base, compute_srv(&[revealed("a", 1), revealed("1a2", 2)], 1, 2));
    assert_ne!(base, compute_srv(&[revealed("a1", 1), revealed("a2", 3)], 1, 2));
    assert_ne!(base, compute_srv(&[revealed("a1", 1), revealed("a3", 2)], 1, 2));
    assert_ne!(base, compute_srv(&[revealed("a1", 1), revealed("a2", 2)], 2, 2));
}
