use phinet_core::timing::{ct_eq_16, ct_eq_20, ct_eq_32, ct_eq_64, ct_eq_bytes};
use std::time::Instant;

const ITERS: usize = 50_000;

#[test]
fn ct_eq_32_equal() {
    let a = [0x42u8; 32];
    let b = [0x42u8; 32];
    assert!(ct_eq_32(&a, &b));
}

#[test]
fn ct_eq_32_differ_first_byte() {
    let a = [0x42u8; 32];
    let mut b = a;
    b[0] ^= 1;
    assert!(!ct_eq_32(&a, &b));
}

#[test]
fn ct_eq_32_differ_last_byte() {
    let a = [0x42u8; 32];
    let mut b = a;
    b[31] ^= 1;
    assert!(!ct_eq_32(&a, &b));
}

#[test]
fn ct_eq_bytes_length_mismatch() {
    assert!(!ct_eq_bytes(&[0u8; 8], &[0u8; 7]));
    assert!(!ct_eq_bytes(&[0u8; 7], &[0u8; 8]));
    assert!(ct_eq_bytes(&[0u8; 8], &[0u8; 8]));
}

#[test]
fn ct_eq_bytes_different_content() {
    let a = b"hello_world_1234";
    let b = b"hello_world_1234";
    assert!(ct_eq_bytes(a, b));

    let c = b"Hello_world_1234"; // case diff in first byte
    assert!(!ct_eq_bytes(a, c));
}

#[test]
fn ct_eq_16_equal() {
    assert!(ct_eq_16(&[0xABu8; 16], &[0xABu8; 16]));
}

#[test]
fn ct_eq_16_differ() {
    let a = [0xABu8; 16];
    let mut b = a;
    b[15] ^= 0xFF;
    assert!(!ct_eq_16(&a, &b));
}

#[test]
fn ct_eq_20_cookies() {
    let cookie_a = [0x11u8; 20];
    let cookie_b = [0x11u8; 20];
    assert!(ct_eq_20(&cookie_a, &cookie_b));

    let mut cookie_c = cookie_a;
    cookie_c[10] = 0x22;
    assert!(!ct_eq_20(&cookie_a, &cookie_c));
}

#[test]
fn ct_eq_64_equal_and_differ() {
    let a = [0x7Fu8; 64];
    let b = [0x7Fu8; 64];
    assert!(ct_eq_64(&a, &b));
    let mut c = a;
    c[32] ^= 1;
    assert!(!ct_eq_64(&a, &c));
}

#[test]
fn empty_slices_equal() {
    assert!(ct_eq_bytes(&[], &[]));
}

#[test]
fn all_zeros_vs_all_ones() {
    let zeros = [0u8; 32];
    let ones = [0xFFu8; 32];
    assert!(!ct_eq_32(&zeros, &ones));
}

// A comparison that stops at the first mismatch is an order of magnitude
// faster when the mismatch is at the front; the two timings stay close here.
#[test]
fn timing_variance_ct_eq_32_no_early_exit() {
    let reference = [0xAAu8; 32];
    let mut diff_first = reference;
    diff_first[0] ^= 0xFF;
    let mut diff_last = reference;
    diff_last[31] ^= 0xFF;

    // Warm up the cache and the branch predictor.
    for _ in 0..ITERS / 10 {
        let _ = ct_eq_32(&reference, &diff_first);
        let _ = ct_eq_32(&reference, &diff_last);
    }

    let start_first = Instant::now();
    for _ in 0..ITERS {
        let r = ct_eq_32(&reference, &diff_first);
        std::hint::black_box(r);
    }
    let elapsed_first = start_first.elapsed();

    let start_last = Instant::now();
    for _ in 0..ITERS {
        let r = ct_eq_32(&reference, &diff_last);
        std::hint::black_box(r);
    }
    let elapsed_last = start_last.elapsed();

    let ns_first = elapsed_first.as_nanos() as f64;
    let ns_last = elapsed_last.as_nanos() as f64;
    let ratio = (ns_first.max(ns_last)) / (ns_first.min(ns_last));

    assert!(
        ratio < 5.0,
        "timing ratio {:.2} suggests short-circuit behavior \
         (first-byte-diff: {}ns, last-byte-diff: {}ns over {} iters)",
        ratio, ns_first as u64, ns_last as u64, ITERS
    );
}
