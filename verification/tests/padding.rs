use phinet_core::padding::{
    AdaptiveBurst, ConstantRate, NoPadding, PadDecision, PaddingScheduler,
};

const MILLI: u64 = 1_000_000;
const SEC: u64 = 1_000_000_000;

fn check<T: Send + Sync + ?Sized>() {}

#[test]
fn no_padding_never_emits() {
    let s = NoPadding;
    for i in 0..10 {
        assert_eq!(s.should_pad_now(i * SEC), PadDecision::Never);
    }
}

#[test]
fn constant_rate_emits_at_interval() {
    let interval = 100 * MILLI;
    let t0 = 77 * SEC;
    let mut s = ConstantRate::new(interval, t0);

    // Just after creation, no cell yet: sleep.
    let d = s.should_pad_now(t0);
    assert!(matches!(d, PadDecision::SleepFor(_)));

    // After the interval has elapsed: pad.
    let t1 = t0 + interval + MILLI;
    s.last_padding = t0;
    assert_eq!(s.should_pad_now(t1), PadDecision::Now);

    // Once the padding is recorded: sleep again.
    s.on_padding_cell(t1);
    assert!(matches!(s.should_pad_now(t1), PadDecision::SleepFor(_)));
}

#[test]
fn constant_rate_ignores_real_cells() {
    let t0 = 5 * SEC;
    let mut s = ConstantRate::new(100 * MILLI, t0);
    s.last_padding = t0;

    s.on_real_cell(t0 + 50 * MILLI);

    let t_later = t0 + 150 * MILLI;
    assert_eq!(s.should_pad_now(t_later), PadDecision::Now);
}

#[test]
fn adaptive_burst_skips_padding_when_busy() {
    let t0 = 100 * SEC;
    let mut s = AdaptiveBurst::new(5 * SEC, SEC, t0);

    s.on_real_cell(t0);

    let result = s.should_pad_now(t0 + SEC);
    assert!(matches!(result, PadDecision::SleepFor(_)));
}

#[test]
fn adaptive_burst_emits_when_idle() {
    let t0 = 100 * SEC;
    let mut s = AdaptiveBurst::new(5 * SEC, SEC, t0);
    s.last_real = t0;
    s.last_padding = t0;

    let t_idle = t0 + 6 * SEC;
    assert_eq!(s.should_pad_now(t_idle), PadDecision::Now);
}

#[test]
fn adaptive_burst_resumes_quiet_after_real_traffic() {
    let t0 = 100 * SEC;
    let mut s = AdaptiveBurst::new(5 * SEC, SEC, t0);
    s.last_real = t0;
    s.last_padding = t0;

    let t_idle = t0 + 6 * SEC;
    assert_eq!(s.should_pad_now(t_idle), PadDecision::Now);
    s.on_padding_cell(t_idle);

    let t_real = t_idle + 100 * MILLI;
    s.on_real_cell(t_real);

    let result = s.should_pad_now(t_real + SEC);
    assert!(matches!(result, PadDecision::SleepFor(_)));
}

#[test]
fn schedulers_are_send_sync() {
    check::<Box<dyn PaddingScheduler>>();
    check::<NoPadding>();
    check::<ConstantRate>();
    check::<AdaptiveBurst>();
}

#[test]
fn name_distinguishes_implementations() {
    assert_eq!(NoPadding.name(), "none");
    assert_eq!(ConstantRate::new(SEC, 0).name(), "constant-rate");
    assert_eq!(AdaptiveBurst::new(SEC, SEC, 0).name(), "adaptive-burst");
}

#[test]
fn the_sleep_ends_when_padding_is_due() {
    let s = ConstantRate::new(10 * SEC, 100 * SEC);
    assert_eq!(s.should_pad_now(103 * SEC), PadDecision::SleepFor(7 * SEC));
    assert_eq!(s.should_pad_now(110 * SEC), PadDecision::Now);
    // A clock that ran backwards reads as no time at all.
    assert_eq!(s.should_pad_now(99 * SEC), PadDecision::SleepFor(10 * SEC));
}

#[test]
fn an_idle_circuit_is_paced_too() {
    let mut s = AdaptiveBurst::new(5 * SEC, 2 * SEC, 0);
    assert_eq!(s.should_pad_now(3 * SEC), PadDecision::SleepFor(2 * SEC));
    s.on_padding_cell(6 * SEC);
    assert_eq!(s.should_pad_now(7 * SEC), PadDecision::SleepFor(SEC));
    assert_eq!(s.should_pad_now(8 * SEC), PadDecision::Now);
}
