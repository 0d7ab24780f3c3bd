use lpm::cpu::{estimate, parse_uptime, Uptime};

fn secs(seconds: u64) -> Uptime {
    Uptime { seconds, nanos: 0 }
}

#[test]
fn estimate_is_lifetime_share_in_percent() {
    // Started at 10 s, now at 20 s, 1.5 s on a processor.
    assert_eq!(estimate(100, 50, 1000, 100, secs(20)), 15);
}

#[test]
fn estimate_agrees_with_floating_point_on_plain_values() {
    let (user, kernel, start, tps, uptime) = (100u64, 50u64, 1000u64, 100u32, 20.0f64);
    let elapsed = uptime - start as f64 / tps as f64;
    let cpu_seconds = (user + kernel) as f64 / tps as f64;
    let expected = (cpu_seconds / elapsed * 100.0).round();
    assert_eq!(expected, 15.0);
    assert_eq!(estimate(user, kernel, start, tps, secs(20)) as f64, expected);
}

#[test]
fn estimate_is_cumulative_and_not_a_rate_between_polls() {
    // Two polls one second apart, with one more tick used in between: the
    // figure is the share of the whole lifetime both times.
    assert_eq!(estimate(500, 0, 0, 100, secs(10)), 50);
    assert_eq!(estimate(501, 0, 0, 100, secs(11)), 46);
}

#[test]
fn estimate_is_zero_where_no_time_has_passed() {
    assert_eq!(estimate(100, 50, 2000, 100, secs(20)), 0);
    assert_eq!(estimate(100, 50, 2001, 100, secs(20)), 0);
    assert_eq!(estimate(u64::MAX, u64::MAX, u64::MAX, 100, secs(20)), 0);
    assert_eq!(estimate(0, 0, 0, 100, secs(0)), 0);
}

#[test]
fn estimate_is_zero_without_a_tick_rate() {
    assert_eq!(estimate(100, 50, 1000, 0, secs(20)), 0);
    assert_eq!(estimate(100, 50, 0, 0, secs(20)), 0);
}

#[test]
fn estimate_rounds_to_nearest_and_halves_up() {
    // 1 tick over 200 ticks: 0.5 %.
    assert_eq!(estimate(1, 0, 0, 100, secs(2)), 1);
    // 1 tick over 201 ticks: just under 0.5 %.
    assert_eq!(estimate(1, 0, 0, 100, Uptime { seconds: 2, nanos: 10_000_000 }), 0);
    // 3 ticks over 200 ticks: 1.5 %.
    assert_eq!(estimate(2, 1, 0, 100, secs(2)), 2);
    // 149 ticks over 10000 ticks: 1.49 %.
    assert_eq!(estimate(149, 0, 0, 100, secs(100)), 1);
}

#[test]
fn estimate_may_exceed_a_hundred() {
    // Four busy threads for the whole lifetime.
    assert_eq!(estimate(4000, 0, 0, 100, secs(10)), 400);
}

#[test]
fn estimate_uses_the_fraction_of_the_uptime() {
    // Started at 10 s, now at 10.5 s, 0.25 s on a processor.
    assert_eq!(estimate(25, 0, 1000, 100, Uptime { seconds: 10, nanos: 500_000_000 }), 50);
}

#[test]
fn estimate_holds_the_largest_inputs() {
    let r = estimate(u64::MAX, u64::MAX, 0, u32::MAX, Uptime { seconds: u64::MAX, nanos: u32::MAX });
    // 100 * (2^65 - 2) / (2^32 - 1) / (2^64 - 1 + (2^32 - 1) / 10^9), to the nearest.
    assert_eq!(r, 0);
    let r = estimate(u64::MAX, u64::MAX, 0, 1, Uptime { seconds: 0, nanos: 1 });
    assert_eq!(r, 100 * (2 * (u64::MAX as u128)) * 1_000_000_000);
}

#[test]
fn uptime_is_the_first_word_of_the_record() {
    assert_eq!(parse_uptime("20.0 5.0\n"), Some(Uptime { seconds: 20, nanos: 0 }));
    assert_eq!(
        parse_uptime("12345.67 54321.89\n"),
        Some(Uptime { seconds: 12345, nanos: 670_000_000 })
    );
    assert_eq!(parse_uptime("  7.5"), Some(Uptime { seconds: 7, nanos: 500_000_000 }));
    assert_eq!(parse_uptime("350735"), Some(Uptime { seconds: 350735, nanos: 0 }));
    assert_eq!(parse_uptime("3."), Some(Uptime { seconds: 3, nanos: 0 }));
    assert_eq!(
        parse_uptime("0.000000001"),
        Some(Uptime { seconds: 0, nanos: 1 })
    );
    assert_eq!(
        parse_uptime("1.999999999"),
        Some(Uptime { seconds: 1, nanos: 999_999_999 })
    );
    assert_eq!(
        parse_uptime("18446744073709551615.05"),
        Some(Uptime { seconds: u64::MAX, nanos: 50_000_000 })
    );
}

#[test]
fn uptime_that_is_no_decimal_number_is_refused() {
    assert_eq!(parse_uptime(""), None);
    assert_eq!(parse_uptime("   \n"), None);
    assert_eq!(parse_uptime("soon"), None);
    assert_eq!(parse_uptime(".5"), None);
    assert_eq!(parse_uptime("-1.0"), None);
    assert_eq!(parse_uptime("1.2.3"), None);
    assert_eq!(parse_uptime("1.+5"), None);
    assert_eq!(parse_uptime("1.5s"), None);
    assert_eq!(parse_uptime("1e3"), None);
    assert_eq!(parse_uptime("1.0000000001"), None);
    assert_eq!(parse_uptime("18446744073709551616.0"), None);
}
