use transitfeed::parse::{
    parse_bool, parse_dropoff_type, parse_float, parse_int, parse_location_type,
    parse_pickup_type, parse_timeoffset, parse_wheelchair_boarding,
};
use transitfeed::{
    DropoffType, LocationType, ParseError, PickupType, TimeOffset, WheelchairBoarding,
};

#[test]
fn test_parse_int_values() {
    assert_eq!(Ok(0), parse_int("0"));
    assert_eq!(Ok(42), parse_int("42"));
    assert_eq!(Ok(18446744073709551615), parse_int("18446744073709551615"));
    assert_eq!(Err(ParseError::ParseInt("".to_string())), parse_int(""));
    assert_eq!(Err(ParseError::ParseInt("4x".to_string())), parse_int("4x"));
    assert_eq!(Err(ParseError::ParseInt("-3".to_string())), parse_int("-3"));
    // one past the largest value
    assert_eq!(
        Err(ParseError::ParseInt("18446744073709551616".to_string())),
        parse_int("18446744073709551616")
    );
}

#[test]
fn test_parse_float_keeps_validated_text() {
    assert_eq!(Ok("1".to_string()), parse_float("1"));
    assert_eq!(Ok("-2.25".to_string()), parse_float("-2.25"));
    assert_eq!(Ok("+0.5".to_string()), parse_float("+0.5"));
    assert_eq!(
        Err(ParseError::ParseFloat("1.2.3".to_string())),
        parse_float("1.2.3")
    );
    assert_eq!(
        Err(ParseError::ParseFloat(".5".to_string())),
        parse_float(".5")
    );
    assert_eq!(
        Err(ParseError::ParseFloat("".to_string())),
        parse_float("")
    );
}

#[test]
fn test_time_decoding_keeps_service_day_hours() {
    // hours past 23 mean a time past midnight of the same service day:
    // 25:30:00 is twenty-five hours and thirty minutes, not 1:30
    assert_eq!(
        Ok(TimeOffset::from_hms(25, 30, 0)),
        parse_timeoffset("25:30:00")
    );
    assert_eq!(91800, TimeOffset::from_hms(25, 30, 0).total_seconds());
}

#[test]
fn test_time_decoding_accepts_both_hour_widths() {
    assert_eq!(
        Ok(TimeOffset::from_hms(1, 30, 0)),
        parse_timeoffset("1:30:00")
    );
    assert_eq!(
        Ok(TimeOffset::from_hms(1, 30, 0)),
        parse_timeoffset("01:30:00")
    );
    assert_eq!(
        Ok(TimeOffset::from_hms(23, 59, 59)),
        parse_timeoffset("23:59:59")
    );
}

#[test]
fn test_time_decoding_rejects_malformed_cells() {
    assert_eq!(
        Err(ParseError::ParseTime("24:0:00".to_string())),
        parse_timeoffset("24:0:00")
    );
    assert_eq!(
        Err(ParseError::ParseTime("12:60:00".to_string())),
        parse_timeoffset("12:60:00")
    );
    assert_eq!(
        Err(ParseError::ParseTime("12:00:61".to_string())),
        parse_timeoffset("12:00:61")
    );
    assert_eq!(
        Err(ParseError::ParseTime("120:00:00".to_string())),
        parse_timeoffset("120:00:00")
    );
    assert_eq!(
        Err(ParseError::ParseTime("".to_string())),
        parse_timeoffset("")
    );
}

#[test]
fn test_enumeration_decoders_accept_only_their_codes() {
    assert_eq!(Ok(PickupType::RegularlyScheduled), parse_pickup_type("0"));
    assert_eq!(Ok(PickupType::NoPickupAvailable), parse_pickup_type("1"));
    assert_eq!(Ok(PickupType::MustPhoneAgency), parse_pickup_type("2"));
    assert_eq!(
        Ok(PickupType::MustCoordinateWithDriver),
        parse_pickup_type("3")
    );
    assert_eq!(
        Err(ParseError::ParseEnum("4".to_string())),
        parse_pickup_type("4")
    );
    assert_eq!(Ok(DropoffType::NoDropoffAvailable), parse_dropoff_type("1"));
    assert_eq!(Ok(LocationType::Station), parse_location_type("1"));
    assert_eq!(
        Ok(WheelchairBoarding::NoAccessibility),
        parse_wheelchair_boarding("2")
    );
    assert_eq!(Ok(true), parse_bool("1"));
    assert_eq!(Ok(false), parse_bool("0"));
    assert_eq!(
        Err(ParseError::ParseEnum("yes".to_string())),
        parse_bool("yes")
    );
}

#[test]
fn test_duration_counts_the_offset_seconds() {
    let d = TimeOffset::from_hms(25, 30, 0).duration();
    assert_eq!(91800, d.num_seconds());
    let z = TimeOffset::from_hms(0, 0, 5).duration();
    assert_eq!(5, z.num_seconds());
}

#[test]
fn test_date_from_ymd_checks_the_calendar() {
    assert!(transitfeed::transit::date_from_ymd(2024, 2, 29).is_some());
    assert!(transitfeed::transit::date_from_ymd(2023, 2, 30).is_none());
}
