use tfc_datatypes::binary::{string_from_lexical, string_to_lexical, Base64Binary, HexBinary};
use tfc_datatypes::dates::{offset_string, Date, GDay, GMonth, GMonthDay, GYear, GYearMonth};
use tfc_datatypes::datatype::Datatype;
use tfc_datatypes::duration::{duration_string, DayTimeDuration, Duration, YearMonthDuration};
use tfc_datatypes::lexical::{
    bool_from_lexical, bool_to_lexical, f32_bits_from_lexical, f32_bits_to_lexical,
    f64_bits_from_lexical, f64_bits_to_lexical, i16_from_lexical, i16_to_lexical,
    i32_from_i16_lexical, i32_from_lexical, i32_from_u16_lexical, i32_to_lexical,
    i64_from_lexical, i64_to_lexical, i8_from_lexical, i8_to_lexical, u16_from_lexical,
    u16_to_lexical, u32_from_lexical, u32_from_u16_lexical, u32_to_lexical, u64_from_lexical,
    u64_to_lexical, u8_from_lexical, u8_to_lexical,
};

#[test]
fn record_size_of_each_type() {
    assert_eq!(Datatype::UInt32.record_size(), Some(4));
    assert_eq!(Datatype::Int32.record_size(), Some(4));
    assert_eq!(Datatype::Float32.record_size(), Some(4));
    assert_eq!(Datatype::UInt64.record_size(), Some(8));
    assert_eq!(Datatype::Int64.record_size(), Some(8));
    assert_eq!(Datatype::Float64.record_size(), Some(8));
    assert_eq!(Datatype::String.record_size(), None);
    assert_eq!(Datatype::Boolean.record_size(), None);
    assert_eq!(Datatype::UInt8.record_size(), None);
    assert_eq!(Datatype::DateTimeInterval.record_size(), None);
}

#[test]
fn unsigned_forms_are_big_endian() {
    assert_eq!(u8_to_lexical(0xab), vec![0xab]);
    assert_eq!(u16_to_lexical(0x1234), vec![0x12, 0x34]);
    assert_eq!(u32_to_lexical(0x0102_0304), vec![1, 2, 3, 4]);
    assert_eq!(u64_to_lexical(0x0102_0304_0506_0708), vec![1, 2, 3, 4, 5, 6, 7, 8]);
    assert_eq!(u8_from_lexical(&[0xab, 9]), 0xab);
    assert_eq!(u16_from_lexical(&[0x12, 0x34, 9]), 0x1234);
    assert_eq!(u32_from_lexical(&[1, 2, 3, 4]), 0x0102_0304);
    assert_eq!(u64_from_lexical(&[1, 2, 3, 4, 5, 6, 7, 8]), 0x0102_0304_0506_0708);
    assert_eq!(u32_from_u16_lexical(&[0xff, 0xfe]), 0xfffe);
}

#[test]
fn signed_forms_flip_the_sign_bit() {
    assert_eq!(i8_to_lexical(-128), vec![0]);
    assert_eq!(i8_to_lexical(0), vec![0x80]);
    assert_eq!(i8_to_lexical(127), vec![0xff]);
    assert_eq!(i16_to_lexical(-1), vec![0x7f, 0xff]);
    assert_eq!(i32_to_lexical(1), vec![0x80, 0, 0, 1]);
    assert_eq!(i64_to_lexical(i64::MIN), vec![0; 8]);
    assert_eq!(i64_to_lexical(-1), vec![0x7f, 0xff, 0xff, 0xff, 0xff, 0xff, 0xff, 0xff]);
    for v in [i64::MIN, -5, -1, 0, 1, 42, i64::MAX] {
        assert_eq!(i64_from_lexical(&i64_to_lexical(v)), v);
    }
    for v in [i32::MIN, -70000, 0, 70000, i32::MAX] {
        assert_eq!(i32_from_lexical(&i32_to_lexical(v)), v);
    }
    for v in [i16::MIN, -2, 0, 300, i16::MAX] {
        assert_eq!(i16_from_lexical(&i16_to_lexical(v)), v);
    }
    for v in [i8::MIN, -1, 0, 1, i8::MAX] {
        assert_eq!(i8_from_lexical(&i8_to_lexical(v)), v);
    }
}

#[test]
fn signed_forms_sort_numerically() {
    let values = [i64::MIN, -1_000_000, -1, 0, 1, 1_000_000, i64::MAX];
    for w in values.windows(2) {
        assert!(i64_to_lexical(w[0]) < i64_to_lexical(w[1]));
    }
    assert!(i32_to_lexical(-3) < i32_to_lexical(2));
    assert!(i16_to_lexical(-3) < i16_to_lexical(-2));
    assert!(i8_to_lexical(-1) < i8_to_lexical(0));
}

#[test]
fn narrow_readings_of_i32() {
    assert_eq!(i32_from_i16_lexical(&[0xff, 0xfe]), -2);
    assert_eq!(i32_from_i16_lexical(&[0x00, 0x05]), 5);
    assert_eq!(i32_from_u16_lexical(&[0xff, 0xfe]), 65534);
}

#[test]
fn booleans() {
    assert_eq!(bool_to_lexical(true), vec![1]);
    assert_eq!(bool_to_lexical(false), vec![0]);
    assert!(bool_from_lexical(&[7]));
    assert!(!bool_from_lexical(&[0]));
}

#[test]
fn float_forms_round_trip_and_sort() {
    let values = [f64::NEG_INFINITY, -2.5, -1.0, -0.0, 0.0, 1e-300, 1.0, 2.5, f64::INFINITY];
    for v in values {
        let bytes = f64_bits_to_lexical(v.to_bits());
        assert_eq!(bytes.len(), 8);
        assert_eq!(f64_bits_from_lexical(&bytes), v.to_bits());
    }
    for w in values.windows(2) {
        assert!(f64_bits_to_lexical(w[0].to_bits()) < f64_bits_to_lexical(w[1].to_bits()));
    }
    assert_eq!(f64_bits_to_lexical(1.0f64.to_bits()), vec![0xbf, 0xf0, 0, 0, 0, 0, 0, 0]);
    let nan = f64::NAN.to_bits() & 0x7fff_ffff_ffff_ffff;
    assert_eq!(f64_bits_from_lexical(&f64_bits_to_lexical(nan)), nan);
    let values32 = [f32::NEG_INFINITY, -1.5f32, -0.0, 0.0, 0.25, f32::MAX];
    for v in values32 {
        assert_eq!(f32_bits_from_lexical(&f32_bits_to_lexical(v.to_bits())), v.to_bits());
    }
    for w in values32.windows(2) {
        assert!(f32_bits_to_lexical(w[0].to_bits()) < f32_bits_to_lexical(w[1].to_bits()));
    }
}

#[test]
fn negative_nan_float_does_not_round_trip() {
    let neg_nan = f64::NAN.to_bits() | 0x8000_0000_0000_0000;
    assert_ne!(f64_bits_from_lexical(&f64_bits_to_lexical(neg_nan)), neg_nan);
    let neg_nan32 = f32::NAN.to_bits() | 0x8000_0000;
    assert_ne!(f32_bits_from_lexical(&f32_bits_to_lexical(neg_nan32)), neg_nan32);
}

#[test]
fn offsets_as_text() {
    assert_eq!(offset_string(0), "");
    assert_eq!(offset_string(90), "+01:30");
    assert_eq!(offset_string(-120), "--2:00");
    assert_eq!(offset_string(-330), "--5:-30");
    assert_eq!(offset_string(-30), "+00:-30");
    assert_eq!(offset_string(600), "+10:00");
}

#[test]
fn dates_round_trip_and_print() {
    let d = Date { year: 2025, month: 3, day: 7, offset: 60 };
    let bytes = d.to_lexical();
    assert_eq!(bytes.len(), 12);
    assert_eq!(Date::from_lexical(&bytes), d);
    assert_eq!(Date::string_from_lexical(&bytes), "2025-03-07+01:00");
    let early = Date { year: -5, month: 12, day: 31, offset: 0 };
    assert!(early.to_lexical() < d.to_lexical());
    assert_eq!(Date::string_from_lexical(&early.to_lexical()), "-005-12-31");
    let y = GYear { year: 99, offset: 0 };
    assert_eq!(GYear::from_lexical(&y.to_lexical()), y);
    assert_eq!(GYear::string_from_lexical(&y.to_lexical()), "0099");
    let m = GMonth { month: 3, offset: -60 };
    assert_eq!(GMonth::from_lexical(&m.to_lexical()), m);
    assert_eq!(GMonth::string_from_lexical(&m.to_lexical()), "--03--1:00");
    let day = GDay { day: 7, offset: 0 };
    assert_eq!(GDay::string_from_lexical(&day.to_lexical()), "---07");
    let ym = GYearMonth { year: 2025, month: 11, offset: 0 };
    assert_eq!(GYearMonth::from_lexical(&ym.to_lexical()), ym);
    assert_eq!(GYearMonth::string_from_lexical(&ym.to_lexical()), "2025-11");
    let md = GMonthDay { month: 2, day: 29, offset: 0 };
    assert_eq!(GMonthDay::from_lexical(&md.to_lexical()), md);
    assert_eq!(GMonthDay::string_from_lexical(&md.to_lexical()), "--02-29");
    assert!(GMonthDay { month: 2, day: 28, offset: 0 }.to_lexical() < md.to_lexical());
}

#[test]
fn durations_round_trip_and_print() {
    let d = Duration { sign: -1, year: 1, month: 2, day: 3, hour: 4, minute: 5, second_bits: 6.0f64.to_bits() };
    let bytes = d.to_lexical();
    assert_eq!(bytes.len(), 21);
    assert_eq!(Duration::from_lexical(&bytes), d);
    assert_eq!(duration_string(&d, &format!("{}", 6.0f64)), "P1Y2M3DT4H5M6S");
    let ym = Duration { sign: 1, year: 1, month: 0, day: 0, hour: 0, minute: 0, second_bits: 0 };
    assert_eq!(duration_string(&ym, "0"), "P1Y");
    let half = Duration { sign: 1, year: 0, month: 0, day: 0, hour: 0, minute: 0, second_bits: 0.5f64.to_bits() };
    assert_eq!(duration_string(&half, &format!("{}", 0.5f64)), "PT0.5S");
    let hours = Duration { sign: 1, year: 0, month: 0, day: 1, hour: 2, minute: 0, second_bits: (-0.0f64).to_bits() };
    assert_eq!(duration_string(&hours, "-0"), "P1DT2H");
    let zero = Duration { sign: 1, year: 0, month: 0, day: 0, hour: 0, minute: 0, second_bits: 0 };
    assert_eq!(duration_string(&zero, "0"), "P");
    let ymd = YearMonthDuration(ym);
    assert_eq!(YearMonthDuration::from_lexical(&ymd.to_lexical()), ymd);
    let dtd = DayTimeDuration(hours);
    assert_eq!(DayTimeDuration::from_lexical(&dtd.to_lexical()), dtd);
}

#[test]
fn binary_values() {
    let b = Base64Binary(vec![1, 2, 3]);
    assert_eq!(b.to_lexical(), vec![1, 2, 3]);
    assert_eq!(Base64Binary::from_lexical(&[1, 2, 3]).0, vec![1, 2, 3]);
    assert_eq!(Base64Binary::string_from_lexical(&[1, 2, 3]), "AQID");
    assert_eq!(Base64Binary::string_from_lexical(b"ab"), "YWI=");
    assert_eq!(Base64Binary::string_from_lexical(b"a"), "YQ==");
    assert_eq!(Base64Binary::string_from_lexical(b"hello world!?"), "aGVsbG8gd29ybGQhPw==");
    assert_eq!(Base64Binary::string_from_lexical(&[0xfb, 0xff]), "+/8=");
    assert_eq!(Base64Binary::string_from_lexical(&[]), "");
    let h = HexBinary(vec![0xde, 0xad]);
    assert_eq!(h.to_lexical(), vec![0xde, 0xad]);
    assert_eq!(HexBinary::from_lexical(&[0xde, 0xad]).0, vec![0xde, 0xad]);
    assert_eq!(HexBinary::string_from_lexical(&[0xde, 0xad, 0x01]), "dead01");
}

#[test]
fn strings_round_trip() {
    let bytes = string_to_lexical("héllo");
    assert_eq!(bytes, "héllo".as_bytes().to_vec());
    assert_eq!(string_from_lexical(&bytes), "héllo");
    assert!(string_to_lexical("a") < string_to_lexical("b"));
}

#[test]
fn datatype_numbers_round_trip() {
    assert_eq!(Datatype::String.code(), 0);
    assert_eq!(Datatype::UInt32.code(), 1);
    assert_eq!(Datatype::Date.code(), 27);
    assert_eq!(Datatype::DateTimeInterval.code(), 46);
    assert_eq!(Datatype::from_code(0), Some(Datatype::String));
    assert_eq!(Datatype::from_code(46), Some(Datatype::DateTimeInterval));
    assert_eq!(Datatype::from_code(47), None);
    for n in 0..47u64 {
        let d = Datatype::from_code(n).unwrap();
        assert_eq!(d.code() as u64, n);
    }
}
