use books_live::backoff::{next_delay, next_delay_jittered, BASE_DELAY_MS, MAX_DELAY_MS};
use books_live::clock::Clock;

#[test]
fn delay_sequence_is_nondecreasing_up_to_cap() {
    let expected: Vec<u64> = vec![250, 500, 1000, 2000, 4000, 8000, 16000, 30000, 30000, 30000];
    let mut prev = 0;
    for a in 0..10u64 {
        let d = next_delay(a);
        assert_eq!(d, expected[a as usize]);
        assert!(d >= prev);
        assert!(d <= MAX_DELAY_MS);
        prev = d;
    }
    assert_eq!(next_delay(0), BASE_DELAY_MS);
    assert_eq!(next_delay(63), MAX_DELAY_MS);
    assert_eq!(next_delay(u64::MAX), MAX_DELAY_MS);
}

#[test]
fn jittered_delay_stays_near_base_delay() {
    for a in 0..10u64 {
        let base = next_delay(a);
        for entropy in [0u64, 1, 17, u64::MAX] {
            let d = next_delay_jittered(a, entropy);
            assert!(d >= base);
            assert!(d <= base + base / 4);
        }
    }
    assert_eq!(next_delay_jittered(0, 0), 250);
}

#[test]
fn clock_starts_at_midnight() {
    let c = Clock::new();
    assert_eq!(c.get_time(), String::from("00:00:00"));
}

#[test]
fn clock_set_time_ms_formats_parts() {
    let mut c = Clock::new();
    // one hour, two minutes, three seconds
    c.set_time_ms(3_723_000);
    assert_eq!(c.get_time(), String::from("01:02:03"));
    c.set_time_ms(0);
    assert_eq!(c.get_time(), String::from("00:00:00"));
    c.set_time_ms(999);
    assert_eq!(c.get_time(), String::from("00:00:00"));
    c.set_time_ms(23 * 3_600_000 + 59 * 60_000 + 59_000);
    assert_eq!(c.get_time(), String::from("23:59:59"));
    // the clock wraps at midnight
    c.set_time_ms(86_400_000);
    assert_eq!(c.get_time(), String::from("00:00:00"));
}

#[test]
fn clock_set_time_secs_matches_ms() {
    let mut a = Clock::new();
    let mut b = Clock::new();
    a.set_time_secs(3723);
    b.set_time_ms(3_723_000);
    assert_eq!(a.get_time(), b.get_time());
    assert_eq!(a.get_time(), String::from("01:02:03"));
}
