use tfc_datatypes::time::TimeOfDay;

fn t(hour: u32, minute: u32, second: u32, nano: u32) -> TimeOfDay {
    TimeOfDay { hour, minute, second, nano }
}

#[test]
fn time_stored_as_its_text() {
    assert_eq!(t(10, 30, 0, 0).to_lexical(), b"10:30:00".to_vec());
    assert_eq!(t(10, 30, 0, 500_000_000).to_lexical(), b"10:30:00.500".to_vec());
    assert_eq!(t(1, 2, 3, 4_000).to_lexical(), b"01:02:03.000004".to_vec());
    assert_eq!(t(23, 59, 59, 123_456_789).to_lexical(), b"23:59:59.123456789".to_vec());
    assert_eq!(t(23, 59, 59, 1_000_000_000).to_lexical(), b"23:59:60".to_vec());
}

#[test]
fn time_round_trips() {
    for x in [t(0, 0, 0, 0), t(10, 30, 0, 500_000_000), t(7, 8, 9, 1), t(12, 0, 1, 250_000)] {
        assert_eq!(TimeOfDay::from_lexical(&x.to_lexical()), x);
    }
}

#[test]
fn time_text_ends_in_z() {
    let b = t(10, 30, 0, 500_000_000).to_lexical();
    assert_eq!(TimeOfDay::string_from_lexical(&b), "10:30:00.500Z");
    let b = t(8, 5, 0, 0).to_lexical();
    assert_eq!(TimeOfDay::string_from_lexical(&b), "08:05:00Z");
}

#[test]
fn time_refuses_what_is_not_a_time() {
    assert_eq!(TimeOfDay::try_from_lexical(b"not a time"), None);
    assert_eq!(TimeOfDay::try_from_lexical(&[0xff, 0xfe]), None);
    assert_eq!(TimeOfDay::try_from_lexical(b"25:00:00"), None);
    assert_eq!(TimeOfDay::try_from_lexical(b"10:30:00"), Some(t(10, 30, 0, 0)));
}
