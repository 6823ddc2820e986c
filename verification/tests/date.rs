use pgnpg::date::{date_from_text, parse_date_map, parse_optional_date, Date, DateError, Timestamp};

#[test]
fn dates_are_written_as_iso_text() {
    assert_eq!(Date { days: 0 }.format(), Some("1970-01-01".to_string()));
    assert_eq!(Date { days: 19823 }.format(), Some("2024-04-10".to_string()));
    assert_eq!(Date { days: 19796 }.format(), Some("2024-03-14".to_string()));
    assert_eq!(Date { days: -1 }.format(), Some("1969-12-31".to_string()));
    assert_eq!(Date { days: 19782 }.format(), Some("2024-02-29".to_string()));
}

#[test]
fn days_out_of_the_calendar_have_no_text() {
    assert_eq!(Date { days: i64::MAX }.format(), None);
    assert_eq!(Date { days: i64::MIN }.format(), None);
    assert_eq!(Date { days: 2147483648 }.format(), None);
    assert_eq!(Date { days: -2147483649 }.format(), None);
    assert_eq!(Date { days: 2147483647 }.format(), None);
    assert_eq!(Date { days: 100_000_000 }.format(), None);
}

#[test]
fn iso_text_is_read_as_a_date() {
    assert_eq!(Date::parse("2024-04-10"), Some(Date { days: 19823 }));
    assert_eq!(Date::parse("1970-01-01"), Some(Date { days: 0 }));
    assert_eq!(Date::parse("2024-02-30"), None);
    assert_eq!(Date::parse("2024-13-01"), None);
    assert_eq!(Date::parse("hello"), None);
    assert_eq!(Date::parse(""), None);
    for days in [-719_162i64, -1, 0, 1, 365, 19823, 30_000] {
        let text = Date { days }.format().unwrap();
        assert_eq!(Date::parse(&text), Some(Date { days }));
    }
}

#[test]
fn date_arithmetic() {
    let d = Date { days: 19823 };
    assert_eq!(d.succ(), Date { days: 19824 });
    assert_eq!(d.minus_days(27), Date { days: 19796 });
    assert_eq!(d.minus_days(-3), Date { days: 19826 });
    assert_eq!(d.min(Date { days: 5 }), Date { days: 5 });
    assert_eq!(Date { days: 5 }.min(d), Date { days: 5 });
    assert_eq!(d.min(d), d);
}

#[test]
fn an_instant_falls_on_its_utc_day() {
    assert_eq!(Timestamp { millis: 0 }.date(), Date { days: 0 });
    assert_eq!(Timestamp { millis: 86_399_999 }.date(), Date { days: 0 });
    assert_eq!(Timestamp { millis: 86_400_000 }.date(), Date { days: 1 });
    assert_eq!(Timestamp { millis: -1 }.date(), Date { days: -1 });
    assert_eq!(Timestamp { millis: -86_400_000 }.date(), Date { days: -1 });
    assert_eq!(Timestamp { millis: -86_400_001 }.date(), Date { days: -2 });
    assert_eq!(Timestamp { millis: 1_712_750_000_000 }.date(), Date { days: 19823 });
    assert_eq!(Timestamp { millis: i64::MAX }.date(), Date { days: 106_751_991_167 });
    assert_eq!(Timestamp { millis: i64::MIN }.date(), Date { days: -106_751_991_168 });
}

#[test]
fn time_between_instants() {
    let a = Timestamp { millis: 1_000 };
    let b = Timestamp { millis: 250 };
    assert_eq!(a.millis_since(b), 750);
    assert_eq!(b.millis_since(a), -750);
    assert_eq!(
        Timestamp { millis: i64::MAX }.millis_since(Timestamp { millis: i64::MIN }),
        i64::MAX as i128 - i64::MIN as i128
    );
}

#[test]
fn a_text_that_begins_with_a_date_is_that_date() {
    assert_eq!(date_from_text("2024-04-10", None), Ok(Some(Date { days: 19823 })));
    assert_eq!(date_from_text("2024-04-10 and more", None), Ok(Some(Date { days: 19823 })));
    assert_eq!(date_from_text("2024-04-10T12:00:00", None), Ok(Some(Date { days: 19823 })));
}

#[test]
fn a_text_without_the_shape_of_a_date_is_refused() {
    for text in ["2024/04/10", "2024-4-10", "24-04-10", "2024-04-1", "x", "あああああああああああ", "2024-04_10", "abcd-ef-gh"] {
        assert_eq!(date_from_text(text, None), Err(DateError::InvalidFormat));
    }
    assert_eq!(DateError::InvalidFormat.to_string(), "invalid date format");
}

#[test]
fn a_text_with_the_shape_of_a_date_that_is_no_day_is_refused() {
    assert_eq!(date_from_text("2024-02-30", None), Err(DateError::InvalidDate));
    assert_eq!(date_from_text("2024-13-01", None), Err(DateError::InvalidDate));
    assert_eq!(date_from_text("2024-00-10", None), Err(DateError::InvalidDate));
    assert_eq!(DateError::InvalidDate.to_string(), "invalid date");
}

#[test]
fn a_full_instant_stands_for_the_day_given_with_it() {
    let day = Date { days: 7 };
    assert_eq!(date_from_text("2024-04-10T23:30:00+09:00", Some(day)), Ok(Some(day)));
    assert_eq!(date_from_text("anything", Some(day)), Ok(Some(day)));
}

#[test]
fn optional_dates() {
    assert_eq!(parse_optional_date(None), Ok(None));
    assert_eq!(parse_optional_date(Some("")), Ok(None));
    assert_eq!(parse_optional_date(Some("2024-04-10")), Ok(Some(Date { days: 19823 })));
    assert_eq!(parse_optional_date(Some("2024-02-30")), Err(DateError::InvalidDate));
    assert_eq!(parse_optional_date(Some("tomorrow")), Err(DateError::InvalidFormat));
    let noon = parse_optional_date(Some("2024-04-10T12:00:00+00:00")).unwrap().unwrap();
    assert!((19822..=19824).contains(&noon.days));
    let late = parse_optional_date(Some("2024-04-10T23:30:00-05:00")).unwrap().unwrap();
    assert!((19823..=19825).contains(&late.days));
    let epoch = parse_optional_date(Some("1970-01-01T00:00:00Z")).unwrap().unwrap();
    assert!((-1..=1).contains(&epoch.days));
}

#[test]
fn a_map_of_days_keeps_amounts_beside_dates() {
    let entries = vec![
        ("2024-04-10".to_string(), 5u32),
        ("2024-04-09".to_string(), 0),
        ("1970-01-01".to_string(), u32::MAX),
    ];
    assert_eq!(
        parse_date_map(&entries),
        Ok(vec![(Date { days: 19823 }, 5), (Date { days: 19822 }, 0), (Date { days: 0 }, u32::MAX)])
    );
    assert_eq!(parse_date_map(&vec![]), Ok(vec![]));
}

#[test]
fn a_map_with_a_key_that_is_no_date_is_refused() {
    let entries = vec![("2024-04-10".to_string(), 5u32), ("total_bonus".to_string(), 1)];
    assert_eq!(parse_date_map(&entries), Err(DateError::InvalidDate));
    assert_eq!(parse_date_map(&vec![("2024-02-30".to_string(), 1)]), Err(DateError::InvalidDate));
}
