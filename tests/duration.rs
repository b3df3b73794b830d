use cloud_logs::{parse_duration, parse_interval, ArgError};

#[test]
fn duration_seconds_unit() {
    assert_eq!(parse_duration("300s"), Ok(300));
    assert_eq!(parse_duration("0s"), Ok(0));
}

#[test]
fn duration_minutes_unit() {
    assert_eq!(parse_duration("5m"), Ok(300));
    assert_eq!(parse_duration("30m"), Ok(1800));
}

#[test]
fn duration_hours_unit() {
    assert_eq!(parse_duration("4h"), Ok(4 * 3600));
}

#[test]
fn duration_days_unit() {
    assert_eq!(parse_duration("1d"), Ok(86400));
    assert_eq!(parse_duration("7d"), Ok(7 * 86400));
}

#[test]
fn duration_plus_sign_accepted() {
    assert_eq!(parse_duration("+5s"), Ok(5));
}

#[test]
fn duration_compound_refused() {
    assert_eq!(parse_duration("1h30m"), Err(ArgError::InvalidNumber));
}

#[test]
fn duration_without_unit_refused() {
    assert_eq!(parse_duration("abc"), Err(ArgError::UnsupportedUnit));
    assert_eq!(parse_duration("10"), Err(ArgError::UnsupportedUnit));
    assert_eq!(parse_duration("30min"), Err(ArgError::UnsupportedUnit));
    assert_eq!(parse_duration(""), Err(ArgError::UnsupportedUnit));
}

#[test]
fn duration_bad_number_refused() {
    assert_eq!(parse_duration("s"), Err(ArgError::InvalidNumber));
    assert_eq!(parse_duration("-5m"), Err(ArgError::InvalidNumber));
    assert_eq!(parse_duration("+h"), Err(ArgError::InvalidNumber));
    assert_eq!(parse_duration(" 5s"), Err(ArgError::InvalidNumber));
}

#[test]
fn duration_largest_values() {
    assert_eq!(parse_duration("18446744073709551615s"), Ok(u64::MAX));
    assert_eq!(parse_duration("18446744073709551616s"), Err(ArgError::TooLarge));
    assert_eq!(parse_duration("213503982334601d"), Ok(213503982334601 * 86400));
    assert_eq!(parse_duration("213503982334602d"), Err(ArgError::TooLarge));
}

#[test]
fn interval_below_floor_refused() {
    assert_eq!(parse_interval("1"), Err(ArgError::IntervalTooShort));
    assert_eq!(parse_interval("0"), Err(ArgError::IntervalTooShort));
}

#[test]
fn interval_accepted() {
    assert_eq!(parse_interval("2"), Ok(2));
    assert_eq!(parse_interval("100"), Ok(100));
}

#[test]
fn interval_not_a_number() {
    assert_eq!(parse_interval("2s"), Err(ArgError::InvalidNumber));
    assert_eq!(parse_interval(""), Err(ArgError::InvalidNumber));
    assert_eq!(parse_interval("99999999999999999999"), Err(ArgError::TooLarge));
}
