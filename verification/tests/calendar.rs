use tfc_datatypes::calendar::{civil_from_timestamp, days_in_month, CivilDateTime};
use tfc_datatypes::iso::parse_date_or_datetime;
use tfc_datatypes::duration::Duration;
use tfc_datatypes::endpoints::{
    add_months, compute_duration_from_endpoints, compute_end_from_start_and_duration,
    compute_start_from_duration_and_end, f64_bits_of_nat, shift_is_defined,
};

fn dt(year: i32, month: u32, day: u32, hour: u32, minute: u32, second: u32) -> CivilDateTime {
    CivilDateTime { year, month, day, hour, minute, second, nano: 0 }
}

#[test]
fn month_lengths() {
    assert_eq!(days_in_month(2024, 2), 29);
    assert_eq!(days_in_month(2023, 2), 28);
    assert_eq!(days_in_month(1900, 2), 28);
    assert_eq!(days_in_month(2000, 2), 29);
    assert_eq!(days_in_month(-4, 2), 29);
    assert_eq!(days_in_month(-100, 2), 28);
    assert_eq!(days_in_month(2023, 4), 30);
    assert_eq!(days_in_month(2023, 12), 31);
    assert_eq!(days_in_month(2023, 13), 30);
}

#[test]
fn unix_time_of_dates() {
    let secs = |t: &str| parse_date_or_datetime(t).unwrap().seconds;
    assert_eq!(secs("1970-01-01"), 0);
    assert_eq!(secs("2025-01-01"), 1735689600);
    assert_eq!(secs("2025-01-01T10:30:00Z"), 1735727400);
    assert_eq!(secs("1969-12-31T23:59:59Z"), -1);
    assert_eq!(secs("1600-03-01"), -11670912000);
    assert_eq!(secs("-0001-01-01"), -62198755200);
}

#[test]
fn timestamps_to_dates() {
    assert_eq!(civil_from_timestamp(0, 0), Some(dt(1970, 1, 1, 0, 0, 0)));
    assert_eq!(civil_from_timestamp(1735727400, 0), Some(dt(2025, 1, 1, 10, 30, 0)));
    assert_eq!(civil_from_timestamp(-1, 5), Some(CivilDateTime { nano: 5, ..dt(1969, 12, 31, 23, 59, 59) }));
    assert_eq!(civil_from_timestamp(0, 1_500_000_000), None);
    assert_eq!(civil_from_timestamp(59, 1_500_000_000).map(|c| c.second), Some(59));
    assert_eq!(civil_from_timestamp(i64::MAX, 0), None);
    // 262143-01-01 is past chrono's last date.
    assert_eq!(civil_from_timestamp(8210266876800, 0), None);
    assert_eq!(civil_from_timestamp(8210266876800 - 1, 0), Some(dt(262142, 12, 31, 23, 59, 59)));
    assert_eq!(civil_from_timestamp(-62198755200, 0), Some(dt(-1, 1, 1, 0, 0, 0)));
    assert_eq!(civil_from_timestamp(-11670912000, 0), Some(dt(1600, 3, 1, 0, 0, 0)));
    assert_eq!(civil_from_timestamp(951782400, 0), Some(dt(2000, 2, 29, 0, 0, 0)));
    assert_eq!(civil_from_timestamp(4102444800, 0), Some(dt(2100, 1, 1, 0, 0, 0)));
}

#[test]
fn adding_months() {
    assert_eq!(add_months(dt(2024, 1, 31, 1, 2, 3), 1), dt(2024, 2, 29, 1, 2, 3));
    assert_eq!(add_months(dt(2025, 1, 31, 0, 0, 0), 1), dt(2025, 2, 28, 0, 0, 0));
    assert_eq!(add_months(dt(2025, 1, 15, 0, 0, 0), -1), dt(2024, 12, 15, 0, 0, 0));
    assert_eq!(add_months(dt(2025, 3, 31, 0, 0, 0), -13), dt(2024, 2, 29, 0, 0, 0));
    assert_eq!(add_months(dt(2025, 5, 1, 0, 0, 0), 24), dt(2027, 5, 1, 0, 0, 0));
}

fn duration(sign: i8, year: i64, month: u8, day: u8, hour: u8, minute: u8) -> Duration {
    Duration { sign, year, month, day, hour, minute, second_bits: 0 }
}

#[test]
fn moving_by_durations() {
    let start = 1735689600; // 2025-01-01
    assert_eq!(compute_end_from_start_and_duration(&duration(1, 0, 3, 0, 0, 0), 0, 0, start, 0), (1743465600, 0));
    assert_eq!(compute_end_from_start_and_duration(&duration(1, 0, 0, 1, 1, 1), 1, 0, start, 0), (start + 90061, 0));
    assert_eq!(compute_end_from_start_and_duration(&duration(-1, 0, 0, 1, 0, 0), 0, 0, start, 0), (start - 86400, 0));
    assert_eq!(compute_end_from_start_and_duration(&duration(1, 0, 0, 0, 0, 0), 0, 250_000_000, start, 100), (start, 250_000_100));
    assert_eq!(compute_start_from_duration_and_end(&duration(1, 0, 3, 0, 0, 0), 0, 0, 1743465600, 0), (start, 0));
    assert_eq!(compute_start_from_duration_and_end(&duration(1, 1, 0, 0, 0, 0), 0, 0, start, 0), (1704067200, 0));
    // Out of chrono's range the start falls back to 1970-01-01.
    assert_eq!(compute_end_from_start_and_duration(&duration(1, 0, 1, 0, 0, 0), 0, 0, i64::MAX - 10, 0), (2678400, 0));
    assert!(shift_is_defined(&duration(1, 0, 3, 0, 0, 0), 0, 0, false, start, 0));
    assert!(!shift_is_defined(&duration(1, 0, 0, 0, 0, 0), i64::MAX, 0, false, start, 0));
    assert!(!shift_is_defined(&duration(1, 300000, 0, 0, 0, 0), 0, 0, false, start, 0));
    // Year 262142 is chrono's last year.
    let last_year = 8210266876800 - 365 * 86400; // 262142-01-01
    assert!(shift_is_defined(&duration(1, 0, 11, 0, 0, 0), 0, 0, false, last_year, 0));
    assert!(!shift_is_defined(&duration(1, 0, 12, 0, 0, 0), 0, 0, false, last_year, 0));
    // The nanoseconds of the fraction carry into the seconds.
    assert_eq!(
        compute_end_from_start_and_duration(&duration(1, 0, 0, 0, 0, 0), 0, 500_000_000, start, 700_000_000),
        (start + 1, 200_000_000)
    );
    assert_eq!(
        compute_start_from_duration_and_end(&duration(1, 0, 0, 0, 0, 0), 0, 500_000_000, start, 200_000_000),
        (start - 1, 700_000_000)
    );
}

#[test]
fn durations_between_endpoints() {
    let d = compute_duration_from_endpoints(1735689600, 0, 1743465600, 0);
    assert_eq!((d.sign, d.year, d.month, d.day, d.hour, d.minute), (1, 0, 0, 90, 0, 0));
    assert_eq!(d.second_bits, 0);
    let d = compute_duration_from_endpoints(100, 0, 0, 0);
    assert_eq!((d.sign, d.day, d.hour, d.minute), (-1, 0, 0, 1));
    assert_eq!(f64::from_bits(d.second_bits), 40.0);
    let d = compute_duration_from_endpoints(0, 0, 255 * 86400 + 86399, 0);
    assert_eq!((d.day, d.hour, d.minute), (255, 23, 59));
    // Days are kept modulo 256, as `as u8` does.
    let d = compute_duration_from_endpoints(0, 0, 300 * 86400, 0);
    assert_eq!(d.day, 44);
}

#[test]
fn small_integers_as_floats() {
    for n in [0u64, 1, 2, 3, 7, 40, 59, 1 << 20, (1 << 53) - 1] {
        assert_eq!(f64_bits_of_nat(n), (n as f64).to_bits());
    }
}

#[test]
fn moving_forward_then_back_returns() {
    let start = 1735689600; // 2025-01-01
    let d = Duration { sign: 1, year: 0, month: 0, day: 2, hour: 1, minute: 30, second_bits: 0 };
    for (whole, frac, nanos) in [(0i64, 0u32, 0u32), (5, 500_000_000, 700_000_000), (59, 999_999_999, 1)] {
        let (es, en) = compute_end_from_start_and_duration(&d, whole, frac, start, nanos);
        assert!(en < 1_000_000_000);
        assert_eq!(compute_start_from_duration_and_end(&d, whole, frac, es, en), (start, nanos));
    }
}
