use dailyq::{parse_week, week_name};

#[test]
fn week_names_are_plain_decimals() {
    assert_eq!(week_name(0), "0");
    assert_eq!(week_name(7), "7");
    assert_eq!(week_name(42), "42");
    assert_eq!(week_name(100), "100");
    assert_eq!(week_name(255), "255");
}

#[test]
fn week_names_parse_as_their_weeks() {
    for w in 0..=255u8 {
        assert_eq!(parse_week(&week_name(w)), Some(w));
    }
}

#[test]
fn parse_week_follows_unsigned_integer_syntax() {
    assert_eq!(parse_week("3"), Some(3));
    assert_eq!(parse_week("+7"), Some(7));
    assert_eq!(parse_week("007"), Some(7));
    assert_eq!(parse_week("255"), Some(255));
    assert_eq!(parse_week("256"), None);
    assert_eq!(parse_week("99999999999"), None);
    assert_eq!(parse_week(""), None);
    assert_eq!(parse_week("+"), None);
    assert_eq!(parse_week("-1"), None);
    assert_eq!(parse_week("++1"), None);
    assert_eq!(parse_week("1a"), None);
    assert_eq!(parse_week(" 1"), None);
    assert_eq!(parse_week("٣"), None);
}
