use tfc_datatypes::duration::Duration;
use tfc_datatypes::interval::{
    DateTimeInterval, INTERVAL_COMPONENT_DATE, INTERVAL_COMPONENT_DATETIME,
    INTERVAL_FLAG_DURATION_END, INTERVAL_FLAG_EXPLICIT, INTERVAL_FLAG_START_DURATION,
};

fn make_duration(sign: i8, year: i64, month: u8, day: u8, hour: u8, minute: u8, second: f64) -> Duration {
    Duration { sign, year, month, day, hour, minute, second_bits: second.to_bits() }
}

fn make_interval(
    start_seconds: i64,
    start_nanos: u32,
    end_seconds: i64,
    end_nanos: u32,
    start_type: u8,
    end_type: u8,
    flag: u8,
    duration: Duration,
) -> DateTimeInterval {
    DateTimeInterval { start_seconds, start_nanos, end_seconds, end_nanos, start_type, end_type, flag, duration }
}

#[test]
fn date_time_interval_round_trip_explicit() {
    let iv = make_interval(
        1735689600, 0,
        1743465600, 0,
        INTERVAL_COMPONENT_DATE, INTERVAL_COMPONENT_DATE,
        INTERVAL_FLAG_EXPLICIT,
        make_duration(1, 0, 0, 90, 0, 0, 0.0),
    );
    let bytes = iv.to_lexical();
    let iv2 = DateTimeInterval::from_lexical(&bytes);
    assert_eq!(iv, iv2);
}

#[test]
fn date_time_interval_round_trip_start_duration() {
    let iv = make_interval(
        1735689600, 0,
        1743465600, 0,
        INTERVAL_COMPONENT_DATE, INTERVAL_COMPONENT_DATE,
        INTERVAL_FLAG_START_DURATION,
        make_duration(1, 0, 3, 0, 0, 0, 0.0),
    );
    let bytes = iv.to_lexical();
    let iv2 = DateTimeInterval::from_lexical(&bytes);
    assert_eq!(iv, iv2);
}

#[test]
fn date_time_interval_round_trip_duration_end() {
    let iv = make_interval(
        1735689600, 0,
        1743465600, 0,
        INTERVAL_COMPONENT_DATETIME, INTERVAL_COMPONENT_DATETIME,
        INTERVAL_FLAG_DURATION_END,
        make_duration(1, 0, 3, 0, 0, 0, 0.0),
    );
    let bytes = iv.to_lexical();
    let iv2 = DateTimeInterval::from_lexical(&bytes);
    assert_eq!(iv, iv2);
}

#[test]
fn date_time_interval_round_trip_with_nanos() {
    let iv = make_interval(
        1735689600, 500_000_000,
        1743465600, 999_999_999,
        INTERVAL_COMPONENT_DATETIME, INTERVAL_COMPONENT_DATETIME,
        INTERVAL_FLAG_EXPLICIT,
        make_duration(1, 0, 0, 90, 0, 0, 0.5),
    );
    let bytes = iv.to_lexical();
    let iv2 = DateTimeInterval::from_lexical(&bytes);
    assert_eq!(iv, iv2);
}

#[test]
fn date_time_interval_round_trip_negative_timestamps() {
    let iv = make_interval(
        -16070400, 0,
        -8035200, 0,
        INTERVAL_COMPONENT_DATE, INTERVAL_COMPONENT_DATE,
        INTERVAL_FLAG_EXPLICIT,
        make_duration(1, 0, 0, 93, 0, 0, 0.0),
    );
    let bytes = iv.to_lexical();
    let iv2 = DateTimeInterval::from_lexical(&bytes);
    assert_eq!(iv, iv2);
}

#[test]
fn date_time_interval_preserves_duration_granularity() {
    let iv_3m = make_interval(
        1735689600, 0, 1743465600, 0,
        INTERVAL_COMPONENT_DATE, INTERVAL_COMPONENT_DATE,
        INTERVAL_FLAG_START_DURATION,
        make_duration(1, 0, 3, 0, 0, 0, 0.0),
    );
    let iv_90d = make_interval(
        1735689600, 0, 1743465600, 0,
        INTERVAL_COMPONENT_DATE, INTERVAL_COMPONENT_DATE,
        INTERVAL_FLAG_START_DURATION,
        make_duration(1, 0, 0, 90, 0, 0, 0.0),
    );
    let bytes_3m = iv_3m.to_lexical();
    let bytes_90d = iv_90d.to_lexical();
    let rt_3m = DateTimeInterval::from_lexical(&bytes_3m);
    let rt_90d = DateTimeInterval::from_lexical(&bytes_90d);
    assert_eq!(rt_3m.duration.month, 3);
    assert_eq!(rt_3m.duration.day, 0);
    assert_eq!(rt_90d.duration.month, 0);
    assert_eq!(rt_90d.duration.day, 90);
    assert_ne!(rt_3m, rt_90d);
}

#[test]
fn date_time_interval_sorting_by_start_then_end() {
    let iv_early = make_interval(
        1000000, 0, 2000000, 0,
        INTERVAL_COMPONENT_DATE, INTERVAL_COMPONENT_DATE,
        INTERVAL_FLAG_EXPLICIT,
        make_duration(1, 0, 0, 11, 0, 0, 0.0),
    );
    let iv_late = make_interval(
        1500000, 0, 2000000, 0,
        INTERVAL_COMPONENT_DATE, INTERVAL_COMPONENT_DATE,
        INTERVAL_FLAG_EXPLICIT,
        make_duration(1, 0, 0, 5, 0, 0, 0.0),
    );
    assert!(iv_early.to_lexical() < iv_late.to_lexical());

    let iv_short = make_interval(
        1000000, 0, 1500000, 0,
        INTERVAL_COMPONENT_DATE, INTERVAL_COMPONENT_DATE,
        INTERVAL_FLAG_EXPLICIT,
        make_duration(1, 0, 0, 5, 0, 0, 0.0),
    );
    let iv_long = make_interval(
        1000000, 0, 2000000, 0,
        INTERVAL_COMPONENT_DATE, INTERVAL_COMPONENT_DATE,
        INTERVAL_FLAG_EXPLICIT,
        make_duration(1, 0, 0, 11, 0, 0, 0.0),
    );
    assert!(iv_short.to_lexical() < iv_long.to_lexical());
}

#[test]
fn date_time_interval_sorting_nanos_tiebreaker() {
    let iv_a = make_interval(
        1000000, 100, 2000000, 0,
        INTERVAL_COMPONENT_DATETIME, INTERVAL_COMPONENT_DATETIME,
        INTERVAL_FLAG_EXPLICIT,
        make_duration(1, 0, 0, 11, 0, 0, 0.0),
    );
    let iv_b = make_interval(
        1000000, 200, 2000000, 0,
        INTERVAL_COMPONENT_DATETIME, INTERVAL_COMPONENT_DATETIME,
        INTERVAL_FLAG_EXPLICIT,
        make_duration(1, 0, 0, 11, 0, 0, 0.0),
    );
    assert!(iv_a.to_lexical() < iv_b.to_lexical());
}

#[test]
fn date_time_interval_sorting_negative_before_positive() {
    let iv_neg = make_interval(
        -1000000, 0, 0, 0,
        INTERVAL_COMPONENT_DATE, INTERVAL_COMPONENT_DATE,
        INTERVAL_FLAG_EXPLICIT,
        make_duration(1, 0, 0, 11, 0, 0, 0.0),
    );
    let iv_pos = make_interval(
        1000000, 0, 2000000, 0,
        INTERVAL_COMPONENT_DATE, INTERVAL_COMPONENT_DATE,
        INTERVAL_FLAG_EXPLICIT,
        make_duration(1, 0, 0, 11, 0, 0, 0.0),
    );
    assert!(iv_neg.to_lexical() < iv_pos.to_lexical());
}

#[test]
fn date_time_interval_flag_values_preserved() {
    for flag in [INTERVAL_FLAG_EXPLICIT, INTERVAL_FLAG_START_DURATION, INTERVAL_FLAG_DURATION_END] {
        let iv = make_interval(
            1735689600, 0, 1743465600, 0,
            INTERVAL_COMPONENT_DATE, INTERVAL_COMPONENT_DATE,
            flag,
            make_duration(1, 0, 3, 0, 0, 0, 0.0),
        );
        let rt = DateTimeInterval::from_lexical(&iv.to_lexical());
        assert_eq!(flag, rt.flag, "flag {flag} not preserved in round-trip");
    }
}

#[test]
fn date_time_interval_component_types_preserved() {
    let iv = make_interval(
        1735689600, 0, 1743465600, 500_000,
        INTERVAL_COMPONENT_DATE, INTERVAL_COMPONENT_DATETIME,
        INTERVAL_FLAG_EXPLICIT,
        make_duration(1, 0, 0, 90, 0, 0, 0.0),
    );
    let rt = DateTimeInterval::from_lexical(&iv.to_lexical());
    assert_eq!(INTERVAL_COMPONENT_DATE, rt.start_type);
    assert_eq!(INTERVAL_COMPONENT_DATETIME, rt.end_type);
}

#[test]
fn date_time_interval_mixed_in_typed_dict_sort() {
    let mut entries: Vec<Vec<u8>> = vec![
        make_interval(
            2000000, 0, 3000000, 0,
            INTERVAL_COMPONENT_DATE, INTERVAL_COMPONENT_DATE,
            INTERVAL_FLAG_EXPLICIT,
            make_duration(1, 0, 0, 11, 0, 0, 0.0),
        ).to_lexical(),
        make_interval(
            1000000, 0, 3000000, 0,
            INTERVAL_COMPONENT_DATE, INTERVAL_COMPONENT_DATE,
            INTERVAL_FLAG_EXPLICIT,
            make_duration(1, 0, 0, 23, 0, 0, 0.0),
        ).to_lexical(),
        make_interval(
            1000000, 0, 2000000, 0,
            INTERVAL_COMPONENT_DATE, INTERVAL_COMPONENT_DATE,
            INTERVAL_FLAG_START_DURATION,
            make_duration(1, 0, 0, 11, 0, 0, 0.0),
        ).to_lexical(),
    ];
    entries.sort();
    let iv0 = DateTimeInterval::from_lexical(&entries[0]);
    let iv1 = DateTimeInterval::from_lexical(&entries[1]);
    let iv2 = DateTimeInterval::from_lexical(&entries[2]);
    assert_eq!(1000000, iv0.start_seconds);
    assert_eq!(2000000, iv0.end_seconds);
    assert_eq!(1000000, iv1.start_seconds);
    assert_eq!(3000000, iv1.end_seconds);
    assert_eq!(2000000, iv2.start_seconds);
    assert_eq!(3000000, iv2.end_seconds);
}

#[test]
fn date_time_interval_encoding_is_48_bytes() {
    let iv = make_interval(
        1735689600, 0, 1743465600, 0,
        INTERVAL_COMPONENT_DATE, INTERVAL_COMPONENT_DATE,
        INTERVAL_FLAG_EXPLICIT,
        make_duration(1, 0, 3, 0, 0, 0, 0.0),
    );
    let bytes = iv.to_lexical();
    assert_eq!(48, bytes.len());
}

#[test]
fn interval_encoding_layout() {
    let iv = make_interval(
        0, 7, -1, 1,
        INTERVAL_COMPONENT_DATE, INTERVAL_COMPONENT_DATETIME,
        INTERVAL_FLAG_DURATION_END,
        make_duration(-1, 1, 2, 3, 4, 5, 0.0),
    );
    let b = iv.to_lexical();
    assert_eq!(&b[0..8], &[0x80, 0, 0, 0, 0, 0, 0, 0]);
    assert_eq!(&b[8..12], &[0, 0, 0, 7]);
    assert_eq!(&b[12..20], &[0x7f, 0xff, 0xff, 0xff, 0xff, 0xff, 0xff, 0xff]);
    assert_eq!(&b[20..24], &[0, 0, 0, 1]);
    assert_eq!(&b[24..27], &[0, 1, 2]);
    // duration: sign -1 flipped is 0x7f
    assert_eq!(b[27], 0x7f);
}

#[test]
fn interval_negative_nan_seconds_do_not_round_trip() {
    let neg_nan = f64::NAN.to_bits() | 0x8000_0000_0000_0000;
    let mut d = make_duration(1, 0, 0, 1, 0, 0, 0.0);
    d.second_bits = neg_nan;
    let iv = make_interval(0, 0, 86400, 0, 0, 0, 0, d);
    let rt = DateTimeInterval::from_lexical(&iv.to_lexical());
    assert_ne!(rt.duration.second_bits, neg_nan);
}

#[test]
fn stored_bytes_read_and_stored_again() {
    let mut bytes: Vec<u8> = (0..48u8).map(|i| i.wrapping_mul(37).wrapping_add(11)).collect();
    bytes[40] = 0x80; // a positive float key for the seconds
    let iv = DateTimeInterval::from_lexical(&bytes);
    assert_eq!(iv.to_lexical(), bytes);
    let mut longer = bytes.clone();
    longer.extend_from_slice(&[1, 2, 3]);
    assert_eq!(DateTimeInterval::from_lexical(&longer).to_lexical(), bytes);
}
