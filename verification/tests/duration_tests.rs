use via_core::duration::parse_duration;

#[test]
fn duration_units() {
    assert_eq!(parse_duration("5m", 60), Some(300));
    assert_eq!(parse_duration("1h", 60), Some(3600));
    assert_eq!(parse_duration("30s", 60), Some(30));
    assert_eq!(parse_duration("45", 60), Some(45));
    assert_eq!(parse_duration("  2m \n", 60), Some(120));
    assert_eq!(parse_duration("+7s", 60), Some(7));
    assert_eq!(parse_duration("0m", 60), Some(0));
}

#[test]
fn duration_fallbacks() {
    // An unparsable count of minutes or hours counts as one.
    assert_eq!(parse_duration("xm", 60), Some(60));
    assert_eq!(parse_duration("h", 60), Some(3600));
    assert_eq!(parse_duration("-5m", 60), Some(60));
    // An unparsable count of seconds falls back to the default.
    assert_eq!(parse_duration("abc", 60), Some(60));
    assert_eq!(parse_duration("abc", 30), Some(30));
    assert_eq!(parse_duration("s", 30), Some(30));
    assert_eq!(parse_duration("", 30), Some(30));
    assert_eq!(parse_duration("1.5m", 60), Some(60));
    // A count beyond u64 does not parse either.
    assert_eq!(parse_duration("99999999999999999999m", 60), Some(60));
    assert_eq!(parse_duration("18446744073709551615", 60), Some(u64::MAX));
    assert_eq!(parse_duration("18446744073709551616", 60), Some(60));
}

#[test]
fn duration_overflow_is_reported() {
    assert_eq!(parse_duration("307445734561825860m", 60), Some(307445734561825860 * 60));
    assert_eq!(parse_duration("307445734561825861m", 60), None);
    assert_eq!(parse_duration("18446744073709551615h", 60), None);
}
