use phinet_core::path_bias::{GuardStats, PathBias, MIN_ATTEMPTS};

fn run(pb: &mut PathBias, guard: &str, attempts: u32, successes: u32) {
    for i in 0..attempts {
        pb.note_attempt(guard);
        if i < successes {
            pb.note_success(guard);
        }
    }
}

#[test]
fn no_evidence_is_not_evidence_of_guilt() {
    let pb = PathBias::new();
    let s = pb.stats("never-seen");
    // Nothing tried, so nothing failed.
    assert_eq!(s, GuardStats { attempts: 0, successes: 0 });
    assert_eq!(s.failures(), 0);
    assert!(!s.is_suspicious());
}

#[test]
fn a_short_unlucky_streak_is_not_an_accusation() {
    let mut pb = PathBias::new();
    run(&mut pb, "aa", 3, 0); // 0%, but from three attempts
    assert!(pb.suspicious().is_empty(), "three failures is a bad afternoon, not an attack");
}

#[test]
fn a_healthy_guard_is_left_alone() {
    let mut pb = PathBias::new();
    run(&mut pb, "aa", 100, 92);
    assert!(pb.suspicious().is_empty());
}

#[test]
fn a_flaky_but_plausible_guard_is_left_alone() {
    let mut pb = PathBias::new();
    run(&mut pb, "aa", 100, 55);
    assert!(pb.suspicious().is_empty(), "55% is a poor guard, not evidence of steering");
}

#[test]
fn a_guard_failing_almost_everything_is_flagged() {
    let mut pb = PathBias::new();
    run(&mut pb, "aa", 100, 8); // 8%: not luck
    let sus = pb.suspicious();
    assert_eq!(sus.len(), 1);
    assert_eq!(sus[0].0, "aa");
    assert_eq!(sus[0].1.failures(), 92);
}

#[test]
fn guards_are_judged_separately() {
    let mut pb = PathBias::new();
    run(&mut pb, "good", 100, 95);
    run(&mut pb, "bad", 100, 5);
    let sus = pb.suspicious();
    assert_eq!(sus.len(), 1, "a healthy guard mustn't be tarred by a bad one");
    assert_eq!(sus[0].0, "bad");
}

#[test]
fn all_lists_worst_first() {
    let mut pb = PathBias::new();
    run(&mut pb, "good", 50, 48);
    run(&mut pb, "bad", 50, 2);
    let all = pb.all();
    assert_eq!(all[0].0, "bad", "a status display should lead with the problem");
}

#[test]
fn the_threshold_is_exact() {
    // 6 of 20 is 30%, which is not below the threshold; 5 of 20 is.
    assert_eq!(MIN_ATTEMPTS, 20);
    assert!(!GuardStats { attempts: 20, successes: 6 }.is_suspicious());
    assert!(GuardStats { attempts: 20, successes: 5 }.is_suspicious());
    assert!(!GuardStats { attempts: 19, successes: 0 }.is_suspicious());
    // More successes than attempts never counts as failures.
    assert_eq!(GuardStats { attempts: 3, successes: 5 }.failures(), 0);
}

#[test]
fn every_guard_is_listed_once() {
    let mut pb = PathBias::new();
    run(&mut pb, "a", 4, 1);
    run(&mut pb, "b", 4, 4);
    run(&mut pb, "c", 4, 2);
    let all = pb.all();
    assert_eq!(all.len(), 3);
    assert_eq!(all[0].0, "a");
    assert_eq!(all[1].0, "c");
    assert_eq!(all[2].0, "b");
    assert_eq!(pb.stats("c"), GuardStats { attempts: 4, successes: 2 });
}
