use tfc_datatypes::duration::{duration_string, Duration};
use tfc_datatypes::endpoints::SecondsValue;
use tfc_datatypes::interval_text::interval_string_from_lexical;
use tfc_datatypes::interval::{
    DateTimeInterval, INTERVAL_COMPONENT_DATE, INTERVAL_COMPONENT_DATETIME,
    INTERVAL_FLAG_DURATION_END, INTERVAL_FLAG_EXPLICIT, INTERVAL_FLAG_START_DURATION,
};
use tfc_datatypes::iso::{
    complete_interval, complete_interval_is_defined, parse_interval_form, parse_iso_duration, IntervalForm,
    IntervalParseError,
};

fn seconds_value(text: &str) -> SecondsValue {
    let f: f64 = text.parse().unwrap();
    SecondsValue { bits: f.to_bits(), whole: f as i64, frac_nanos: (f.fract() * 1_000_000_000.0) as u32 }
}

fn parse_iso_interval(s: &str) -> Result<DateTimeInterval, IntervalParseError> {
    let form = parse_interval_form(s)?;
    let text = match &form {
        IntervalForm::StartDuration { duration, .. } => duration.seconds.clone(),
        IntervalForm::DurationEnd { duration, .. } => duration.seconds.clone(),
        IntervalForm::Explicit { .. } => None,
    };
    let seconds = match text {
        Some(t) => seconds_value(&t),
        None => SecondsValue::zero(),
    };
    assert!(complete_interval_is_defined(&form, seconds));
    Ok(complete_interval(&form, seconds))
}

#[test]
fn parse_explicit_dates() {
    let iv = parse_iso_interval("2025-01-01/2025-04-01").unwrap();
    assert_eq!(iv.flag, INTERVAL_FLAG_EXPLICIT);
    assert_eq!(iv.start_type, INTERVAL_COMPONENT_DATE);
    assert_eq!(iv.end_type, INTERVAL_COMPONENT_DATE);
    assert_eq!(iv.start_seconds, 1735689600);
    assert_eq!(iv.end_seconds, 1743465600);
    assert_eq!(iv.start_nanos, 0);
    assert_eq!(iv.end_nanos, 0);
}

#[test]
fn parse_explicit_datetimes() {
    let iv = parse_iso_interval("2025-01-01T10:30:00Z/2025-04-01T15:45:00Z").unwrap();
    assert_eq!(iv.flag, INTERVAL_FLAG_EXPLICIT);
    assert_eq!(iv.start_type, INTERVAL_COMPONENT_DATETIME);
    assert_eq!(iv.end_type, INTERVAL_COMPONENT_DATETIME);
    assert_eq!(iv.start_seconds, 1735727400);
    assert_eq!(iv.end_seconds, 1743522300);
}

#[test]
fn parse_explicit_datetime_with_nanos() {
    let iv = parse_iso_interval("2025-01-01T00:00:00.500Z/2025-04-01T00:00:00Z").unwrap();
    assert_eq!(iv.start_nanos, 500_000_000);
    assert_eq!(iv.end_nanos, 0);
}

#[test]
fn parse_start_duration() {
    let iv = parse_iso_interval("2025-01-01/P3M").unwrap();
    assert_eq!(iv.flag, INTERVAL_FLAG_START_DURATION);
    assert_eq!(iv.start_seconds, 1735689600);
    assert_eq!(iv.duration.month, 3);
    assert_eq!(iv.duration.sign, 1);
    assert_eq!(iv.end_seconds, 1743465600);
}

#[test]
fn parse_duration_end() {
    let iv = parse_iso_interval("P3M/2025-04-01").unwrap();
    assert_eq!(iv.flag, INTERVAL_FLAG_DURATION_END);
    assert_eq!(iv.end_seconds, 1743465600);
    assert_eq!(iv.duration.month, 3);
    assert_eq!(iv.start_seconds, 1735689600);
}

#[test]
fn parse_duration_with_time_parts() {
    let iv = parse_iso_interval("2025-01-01/PT1H").unwrap();
    assert_eq!(iv.flag, INTERVAL_FLAG_START_DURATION);
    assert_eq!(iv.duration.hour, 1);
    assert_eq!(iv.duration.day, 0);
    assert_eq!(iv.end_seconds, iv.start_seconds + 3600);
}

#[test]
fn parse_complex_duration() {
    let iv = parse_iso_interval("2025-01-01/P1Y2M3DT4H5M6S").unwrap();
    assert_eq!(iv.duration.year, 1);
    assert_eq!(iv.duration.month, 2);
    assert_eq!(iv.duration.day, 3);
    assert_eq!(iv.duration.hour, 4);
    assert_eq!(iv.duration.minute, 5);
    assert_eq!(f64::from_bits(iv.duration.second_bits), 6.0);
}

#[test]
fn parse_negative_duration() {
    let iv = parse_iso_interval("-P1D/2025-01-02").unwrap();
    assert_eq!(iv.duration.sign, -1);
    assert_eq!(iv.duration.day, 1);
}

#[test]
fn parse_error_empty() {
    assert!(parse_iso_interval("").is_err());
}

#[test]
fn parse_error_no_separator() {
    assert!(parse_iso_interval("2025-01-01").is_err());
}

#[test]
fn parse_error_two_durations() {
    assert!(parse_iso_interval("P1M/P2M").is_err());
}

#[test]
fn parse_error_invalid_date() {
    assert!(parse_iso_interval("not-a-date/2025-01-01").is_err());
}

#[test]
fn roundtrip_parse_to_lexical_to_struct() {
    let iv = parse_iso_interval("2025-01-01/2025-04-01").unwrap();
    let bytes = iv.to_lexical();
    let iv2 = DateTimeInterval::from_lexical(&bytes);
    let bytes2 = iv2.to_lexical();
    assert_eq!(bytes, bytes2);
}

#[test]
fn roundtrip_parse_to_lexical_to_struct_start_duration() {
    let iv = parse_iso_interval("2025-01-01/P3M").unwrap();
    let bytes = iv.to_lexical();
    let iv2 = DateTimeInterval::from_lexical(&bytes);
    assert_eq!(iv.start_seconds, iv2.start_seconds);
    assert_eq!(iv.end_seconds, iv2.end_seconds);
    assert_eq!(iv.duration.month, iv2.duration.month);
    assert_eq!(iv.flag, iv2.flag);
}

#[test]
fn lexical_ordering_chronological() {
    let iv_early = parse_iso_interval("2024-01-01/2024-06-01").unwrap();
    let iv_late = parse_iso_interval("2025-01-01/2025-06-01").unwrap();
    assert!(iv_early.to_lexical() < iv_late.to_lexical());
}

#[test]
fn lexical_ordering_same_start_different_end() {
    let iv_short = parse_iso_interval("2025-01-01/2025-02-01").unwrap();
    let iv_long = parse_iso_interval("2025-01-01/2025-06-01").unwrap();
    assert!(iv_short.to_lexical() < iv_long.to_lexical());
}

#[test]
fn lexical_ordering_mixed_formats() {
    let iv_explicit = parse_iso_interval("2025-01-01/2025-04-01").unwrap();
    let iv_duration = parse_iso_interval("2025-01-01/P3M").unwrap();
    assert_eq!(iv_explicit.start_seconds, iv_duration.start_seconds);
    assert_eq!(iv_explicit.end_seconds, iv_duration.end_seconds);
    let bytes_e = iv_explicit.to_lexical();
    let bytes_d = iv_duration.to_lexical();
    assert_eq!(&bytes_e[..24], &bytes_d[..24]);
}

#[test]
fn parse_duration_days_only() {
    let iv = parse_iso_interval("2025-01-01/P90D").unwrap();
    assert_eq!(iv.duration.day, 90);
    assert_eq!(iv.duration.month, 0);
}

#[test]
fn parse_duration_fractional_seconds() {
    let iv = parse_iso_interval("2025-01-01/PT0.5S").unwrap();
    assert_eq!(f64::from_bits(iv.duration.second_bits), 0.5);
}

// Further cases.

#[test]
fn parse_error_variants() {
    assert!(matches!(parse_interval_form(""), Err(IntervalParseError::Empty)));
    match parse_interval_form("2025-01-01") {
        Err(IntervalParseError::MissingSeparator(s)) => assert_eq!(s, "2025-01-01"),
        other => panic!("{:?}", other),
    }
    match parse_interval_form("P1M/-P2M") {
        Err(IntervalParseError::TwoDurations(s)) => assert_eq!(s, "P1M/-P2M"),
        other => panic!("{:?}", other),
    }
    match parse_interval_form("not-a-date/2025-01-01") {
        Err(IntervalParseError::InvalidDate(s)) => assert_eq!(s, "not-a-date"),
        other => panic!("{:?}", other),
    }
    match parse_interval_form("2025-01-01/2025-13-01T00:00:00Z") {
        Err(IntervalParseError::InvalidDateTime(s)) => assert_eq!(s, "2025-13-01T00:00:00Z"),
        other => panic!("{:?}", other),
    }
    match parse_interval_form("P1X/2025-01-01") {
        Err(IntervalParseError::InvalidDuration(s)) => assert_eq!(s, "P1X"),
        other => panic!("{:?}", other),
    }
    // The duration is read before the end it comes with.
    match parse_interval_form("P1X/nope") {
        Err(IntervalParseError::InvalidDuration(s)) => assert_eq!(s, "P1X"),
        other => panic!("{:?}", other),
    }
    // The start is read before the duration it comes with.
    match parse_interval_form("nope/P1X") {
        Err(IntervalParseError::InvalidDate(s)) => assert_eq!(s, "nope"),
        other => panic!("{:?}", other),
    }
}

#[test]
fn parse_duration_texts() {
    assert!(parse_iso_duration("P").is_err());
    assert!(parse_iso_duration("-P").is_err());
    assert!(parse_iso_duration("P0D").is_ok());
    assert!(parse_iso_duration("P1").is_err());
    assert!(parse_iso_duration("PT").is_err());
    assert!(parse_iso_duration("P1.5Y").is_err());
    assert!(parse_iso_duration("PT1.2.3S").is_err());
    assert!(parse_iso_duration("PT.S").is_err());
    assert!(parse_iso_duration("P256D").is_err());
    assert!(parse_iso_duration("1D").is_err());
    let d = parse_iso_duration("PT.5S").unwrap();
    assert_eq!(d.seconds.as_deref(), Some(".5"));
    let d = parse_iso_duration("P1Y2Y").unwrap();
    assert_eq!(d.year, 2);
    let d = parse_iso_duration("-P9223372036854775807Y").unwrap();
    assert_eq!(d.sign, -1);
    assert_eq!(d.year, i64::MAX);
    assert!(parse_iso_duration("P9223372036854775808Y").is_err());
    let d = parse_iso_duration("P1DT2H3M4.25S").unwrap();
    assert_eq!((d.day, d.hour, d.minute), (1, 2, 3));
    assert_eq!(d.seconds.as_deref(), Some("4.25"));
}

#[test]
fn parse_datetime_variants() {
    let iv = parse_iso_interval("2025-01-01T10:30:00Z/2025-01-01T10:30:00.250Z").unwrap();
    assert_eq!(iv.start_seconds, 1735727400);
    assert_eq!(iv.end_nanos, 250_000_000);
    assert_eq!(iv.duration.day, 0);
    // A date-time ends in exactly one `Z`.
    match parse_interval_form("2025-01-01T10:30:00/2025-04-01T15:45:00Z") {
        Err(IntervalParseError::InvalidDateTime(s)) => assert_eq!(s, "2025-01-01T10:30:00"),
        other => panic!("{:?}", other),
    }
    match parse_interval_form("2025-01-01/2025-04-01T15:45:00ZZ") {
        Err(IntervalParseError::InvalidDateTime(s)) => assert_eq!(s, "2025-04-01T15:45:00ZZ"),
        other => panic!("{:?}", other),
    }
}

#[test]
fn parse_long_explicit_span() {
    // 366 days: the stored day count keeps them modulo 256.
    let iv = parse_iso_interval("2024-01-01/2025-01-01").unwrap();
    assert_eq!(iv.start_seconds, 1704067200);
    assert_eq!(iv.end_seconds, 1735689600);
    assert_eq!(iv.duration.day, 110);
    let iv = parse_iso_interval("2024-01-01/2024-09-12").unwrap();
    assert_eq!(iv.duration.day, 255);
}

#[test]
fn parse_month_end_clamping() {
    let iv = parse_iso_interval("2024-01-31/P1M").unwrap();
    // 2024-02-29
    assert_eq!(iv.end_seconds, 1709164800);
    let iv = parse_iso_interval("P1M/2024-03-31").unwrap();
    assert_eq!(iv.start_seconds, 1709164800);
}

#[test]
fn parse_negative_duration_moves_back() {
    let iv = parse_iso_interval("2025-01-02/-P1D").unwrap();
    assert_eq!(iv.end_seconds, iv.start_seconds - 86400);
    let iv = parse_iso_interval("-P1D/2025-01-02").unwrap();
    assert_eq!(iv.start_seconds, iv.end_seconds + 86400);
}

#[test]
fn parse_fraction_carries_nanos() {
    let iv = parse_iso_interval("PT0.5S/2025-01-01T00:00:00Z").unwrap();
    assert_eq!(iv.start_nanos, 500_000_000);
    assert_eq!(iv.start_seconds, 1735689599);
    let iv = parse_iso_interval("2025-01-01T00:00:00.700Z/PT0.5S").unwrap();
    assert_eq!(iv.end_nanos, 200_000_000);
    assert_eq!(iv.end_seconds, 1735689601);
}

#[test]
fn explicit_interval_duration() {
    let iv = parse_iso_interval("2025-01-01T00:00:00Z/2025-01-02T01:02:03Z").unwrap();
    assert_eq!(iv.duration.sign, 1);
    assert_eq!((iv.duration.day, iv.duration.hour, iv.duration.minute), (1, 1, 2));
    assert_eq!(f64::from_bits(iv.duration.second_bits), 3.0);
    let back = parse_iso_interval("2025-01-02/2025-01-01").unwrap();
    assert_eq!(back.duration.sign, -1);
    assert_eq!(back.duration.day, 1);
}

#[test]
fn overflowing_completion_is_reported() {
    let form = parse_interval_form("2025-01-01/P9223372036854775807Y").unwrap();
    assert!(!complete_interval_is_defined(&form, SecondsValue::zero()));
}

fn interval_string(bytes: &[u8]) -> String {
    let iv = DateTimeInterval::from_lexical(bytes);
    let second_text = format!("{}", f64::from_bits(iv.duration.second_bits));
    interval_string_from_lexical(bytes, &second_text).unwrap()
}

#[test]
fn roundtrip_parse_to_lexical_to_string_explicit() {
    let iv = parse_iso_interval("2025-01-01/2025-04-01").unwrap();
    let bytes = iv.to_lexical();
    let s = interval_string(&bytes);
    assert_eq!("2025-01-01/2025-04-01", s);
}

#[test]
fn roundtrip_parse_to_lexical_to_string_start_duration() {
    let iv = parse_iso_interval("2025-01-01/P3M").unwrap();
    let bytes = iv.to_lexical();
    let s = interval_string(&bytes);
    assert_eq!("2025-01-01/P3M", s);
}

#[test]
fn roundtrip_parse_to_lexical_to_string_duration_end() {
    let iv = parse_iso_interval("P3M/2025-04-01").unwrap();
    let bytes = iv.to_lexical();
    let s = interval_string(&bytes);
    assert_eq!("P3M/2025-04-01", s);
}

#[test]
fn roundtrip_datetime_with_fractional_seconds() {
    let iv = parse_iso_interval("2025-01-01T10:30:00.500Z/2025-04-01T15:45:00Z").unwrap();
    let bytes = iv.to_lexical();
    let s = interval_string(&bytes);
    assert_eq!("2025-01-01T10:30:00.500Z/2025-04-01T15:45:00Z", s);
}

#[test]
fn interval_text_of_other_forms() {
    for text in ["-P1DT2H0.5S/2025-01-02T00:00:00Z", "2025-01-01T00:00:00Z/PT0.25S", "P1Y/2025-04-01"] {
        let iv = parse_iso_interval(text).unwrap();
        assert_eq!(interval_string(&iv.to_lexical()), text);
    }
    let mut iv = parse_iso_interval("2025-01-01/2025-04-01").unwrap();
    iv.start_seconds = i64::MAX;
    assert_eq!(interval_string_from_lexical(&iv.to_lexical(), "0"), None);
}

#[test]
fn duration_text_reads_back() {
    let d = Duration { sign: 1, year: 1, month: 2, day: 3, hour: 4, minute: 5, second_bits: 6.5f64.to_bits() };
    let text = duration_string(&d, "6.5");
    assert_eq!(text, "P1Y2M3DT4H5M6.5S");
    let p = parse_iso_duration(&text).unwrap();
    assert_eq!((p.sign, p.year, p.month, p.day, p.hour, p.minute), (1, 1, 2, 3, 4, 5));
    assert_eq!(p.seconds.as_deref(), Some("6.5"));
    let d = Duration { sign: 1, year: 0, month: 0, day: 7, hour: 0, minute: 0, second_bits: 0 };
    let p = parse_iso_duration(&duration_string(&d, "0")).unwrap();
    assert_eq!((p.day, p.hour, p.seconds), (7, 0, None));
}

#[test]
fn printed_interval_reads_back() {
    for text in [
        "2024-01-01/2025-01-01",
        "2025-01-01T10:30:00.500Z/P1Y2M3DT4H5M6.25S",
        "-P1DT2H0.5S/2025-01-02T23:59:59.000001Z",
        "2025-03-31/P1M",
    ] {
        let iv = parse_iso_interval(text).unwrap();
        let printed = interval_string(&iv.to_lexical());
        let again = parse_iso_interval(&printed).unwrap();
        assert_eq!(again, iv);
    }
}
