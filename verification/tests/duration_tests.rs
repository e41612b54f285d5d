use monb::duration::{parse_duration, Duration, DurationErrorKind, Unit};

#[test]
fn missing_duration_defaults_to_two_seconds() {
    let d = parse_duration(None).unwrap();
    assert_eq!(d, Duration { value: 2, unit: Some(Unit::Seconds) });
}

#[test]
fn bare_number_means_seconds() {
    let d = parse_duration(Some("10".to_string())).unwrap();
    assert_eq!(d, Duration { value: 10, unit: Some(Unit::Seconds) });
}

#[test]
fn each_unit_suffix_parses() {
    assert_eq!(
        parse_duration(Some("10s".to_string())).unwrap(),
        Duration { value: 10, unit: Some(Unit::Seconds) }
    );
    assert_eq!(
        parse_duration(Some("5sec".to_string())).unwrap(),
        Duration { value: 5, unit: Some(Unit::Seconds) }
    );
    assert_eq!(
        parse_duration(Some("3m".to_string())).unwrap(),
        Duration { value: 3, unit: Some(Unit::Minutes) }
    );
    assert_eq!(
        parse_duration(Some("7min".to_string())).unwrap(),
        Duration { value: 7, unit: Some(Unit::Minutes) }
    );
    assert_eq!(
        parse_duration(Some("2h".to_string())).unwrap(),
        Duration { value: 2, unit: Some(Unit::Hours) }
    );
}

#[test]
fn zero_duration_is_accepted() {
    let d = parse_duration(Some("0".to_string())).unwrap();
    assert_eq!(d.value, 0);
}

#[test]
fn malformed_durations_are_grammar_errors() {
    let e = parse_duration(Some("x".to_string())).unwrap_err();
    assert_eq!(e.kind, DurationErrorKind::GrammarMismatch);
    assert_eq!(e.message(), "Input `x` is not a valid duration argument");
    assert!(parse_duration(Some("10x".to_string())).is_err());
    assert!(parse_duration(Some("10S".to_string())).is_err());
    assert!(parse_duration(Some("s".to_string())).is_err());
    assert!(parse_duration(Some("".to_string())).is_err());
}

#[test]
fn oversized_duration_value_is_an_error() {
    let e = parse_duration(Some("99999999999999999999999999s".to_string())).unwrap_err();
    assert_eq!(e.kind, DurationErrorKind::ValueTooBig);
}

#[test]
fn total_seconds_multiplies_by_the_unit() {
    let d = Duration { value: 2, unit: Some(Unit::Hours) };
    assert_eq!(d.total_seconds(), Some(7200));
    let d = Duration { value: 90, unit: Some(Unit::Minutes) };
    assert_eq!(d.total_seconds(), Some(5400));
    let d = Duration { value: 30, unit: None };
    assert_eq!(d.total_seconds(), Some(30));
}

#[test]
fn total_seconds_reports_overflow() {
    let d = Duration { value: usize::MAX, unit: Some(Unit::Hours) };
    assert_eq!(d.total_seconds(), None);
}

#[test]
fn sleep_announcement_text() {
    let d = Duration { value: 5, unit: Some(Unit::Minutes) };
    assert_eq!(d.to_message(), "Sleeping starts in 5 minute(s)");
    let d = Duration { value: 1, unit: None };
    assert_eq!(d.to_message(), "Sleeping starts in 1 second(s)");
}

#[test]
fn unit_names_parse_loosely() {
    assert_eq!(Unit::from_text(" SEC ").unwrap(), Unit::Seconds);
    assert_eq!(Unit::from_text("h").unwrap(), Unit::Hours);
    assert_eq!(Unit::from_text("Min").unwrap(), Unit::Minutes);
    let e = Unit::from_text("days").unwrap_err();
    assert_eq!(e.kind, DurationErrorKind::UnitInvalid);
    assert_eq!(e.message(), "Invalid duration unit: `days`");
}
