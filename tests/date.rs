use hoi4save::Date;

#[test]
fn new_accepts_valid_components() {
    let d = Date::new(1936, 1, 1, 12).unwrap();
    assert_eq!(d.year(), 1936);
    assert_eq!(d.month(), 1);
    assert_eq!(d.day(), 1);
    assert_eq!(d.hour(), 12);
    assert!(Date::new(-99, 12, 31, 24).is_some());
    assert!(Date::new(1444, 2, 28, 1).is_some());
}

#[test]
fn new_rejects_out_of_bounds_components() {
    assert!(Date::new(0, 1, 1, 1).is_none());
    assert!(Date::new(-100, 1, 1, 1).is_none());
    assert!(Date::new(1936, 0, 1, 1).is_none());
    assert!(Date::new(1936, 13, 1, 1).is_none());
    assert!(Date::new(1936, 1, 0, 1).is_none());
    assert!(Date::new(1936, 2, 29, 1).is_none());
    assert!(Date::new(1936, 4, 31, 1).is_none());
    assert!(Date::new(1936, 1, 1, 0).is_none());
    assert!(Date::new(1936, 1, 1, 25).is_none());
}

#[test]
fn game_and_iso_formats() {
    let d = Date::new(1936, 1, 1, 12).unwrap();
    assert_eq!(d.game_fmt(), "1936.1.1.12");
    assert_eq!(d.iso_8601(), "1936-01-01T12");
    let early = Date::new(5, 11, 30, 3).unwrap();
    assert_eq!(early.game_fmt(), "5.11.30.3");
    assert_eq!(early.iso_8601(), "0005-11-30T03");
    let negative = Date::new(-5, 3, 2, 1).unwrap();
    assert_eq!(negative.game_fmt(), "-5.3.2.1");
    assert_eq!(negative.iso_8601(), "-005-03-02T01");
}

#[test]
fn parse_round_trips_game_format() {
    for d in [
        Date::new(1936, 1, 1, 12).unwrap(),
        Date::new(-99, 12, 31, 24).unwrap(),
        Date::new(32767, 6, 15, 7).unwrap(),
    ] {
        assert_eq!(Date::parse_from_str(&d.game_fmt()), Some(d));
    }
}

#[test]
fn parse_rejects_malformed_dates() {
    assert_eq!(Date::parse_from_str(""), None);
    assert_eq!(Date::parse_from_str("a.1.1.1"), None);
    assert_eq!(Date::parse_from_str("1936.1.1"), None);
    assert_eq!(Date::parse_from_str("1936.1.1.1.1"), None);
    assert_eq!(Date::parse_from_str("1936.13.1.1"), None);
    assert_eq!(Date::parse_from_str("1936.1.1.x"), None);
    assert_eq!(Date::parse_from_str("99999.1.1.1"), None);
    assert_eq!(Date::parse_from_str("1936.1.1.300"), None);
}

#[test]
fn parse_accepts_signs() {
    assert_eq!(Date::parse_from_str("+1936.+1.1.12"), Date::new(1936, 1, 1, 12));
    assert_eq!(Date::parse_from_str("-5.1.1.1"), Date::new(-5, 1, 1, 1));
    assert_eq!(Date::parse_from_str("1936.-1.1.1"), None);
}

#[test]
fn from_binary_decodes_hours_since_epoch() {
    let d = Date::from_binary(60759371).unwrap();
    assert_eq!(d.game_fmt(), "1936.1.1.12");
    assert_eq!(Date::from_binary(-1), None);
    assert_eq!(Date::from_binary(100), None);
}

#[test]
fn from_binary_heuristic_filters_like_the_constructor() {
    assert_eq!(Date::from_binary_heuristic(60759371), Date::new(1936, 1, 1, 12));
    // 59454024 counts whole days since the epoch: the first hour of 1786.12.28
    assert_eq!(Date::from_binary_heuristic(59454024), Date::new(1786, 12, 28, 1));
    assert_eq!(Date::from_binary_heuristic(-5), None);
    assert_eq!(Date::from_binary_heuristic(i32::MIN), None);
    assert_eq!(Date::from_binary_heuristic(1000), None);
}

#[test]
fn days_until_and_add_days() {
    let a = Date::new(1936, 1, 1, 12).unwrap();
    let b = Date::new(1937, 1, 1, 12).unwrap();
    assert_eq!(a.days_until(&b), 365);
    assert_eq!(b.days_until(&a), -365);
    let c = Date::new(1936, 3, 1, 1).unwrap();
    assert_eq!(a.days_until(&c), 59);
    assert_eq!(a.add_days(59), Date::new(1936, 3, 1, 12).unwrap());
    assert_eq!(a.add_days(365), b);
    assert_eq!(c.add_days(-59), Date::new(1936, 1, 1, 1).unwrap());
}
