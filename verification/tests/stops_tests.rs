use transitfeed::stops::parse_row;
use transitfeed::{LocationType, ParseError, Stop, WheelchairBoarding};

fn strings(v: Vec<&str>) -> Vec<String> {
    v.into_iter().map(|s| s.to_string()).collect()
}

#[test]
fn test_parses_basic_row() {
    let headers = strings(vec!["stop_id", "stop_name", "stop_lat", "stop_lon"]);
    let columns = strings(vec!["1", "foo", "1", "1"]);
    let expected = Stop {
        stop_id: "1".to_string(),
        stop_name: "foo".to_string(),
        stop_lat: "1".to_string(),
        stop_lon: "1".to_string(),
        stop_code: None,
        stop_desc: None,
        zone_id: None,
        stop_url: None,
        location_type: LocationType::Stop,
        parent_station: None,
        stop_timezone: None,
        wheelchair_boarding: WheelchairBoarding::NoInformation,
        extended_fields: None,
    };
    let result = parse_row(&headers, &columns);
    assert_eq!(expected, result.unwrap());
}

#[test]
fn test_parses_extended_columns() {
    let headers = strings(vec![
        "stop_id",
        "stop_name",
        "stop_lat",
        "stop_lon",
        "platform_code",
    ]);
    let columns = strings(vec!["1", "foo", "1", "1", "A"]);
    let expected_extended = vec![(String::from("platform_code"), String::from("A"))];
    let expected = Stop {
        stop_id: "1".to_string(),
        stop_name: "foo".to_string(),
        stop_lat: "1".to_string(),
        stop_lon: "1".to_string(),
        stop_code: None,
        stop_desc: None,
        zone_id: None,
        stop_url: None,
        location_type: LocationType::Stop,
        parent_station: None,
        stop_timezone: None,
        wheelchair_boarding: WheelchairBoarding::NoInformation,
        extended_fields: Some(expected_extended),
    };
    let result = parse_row(&headers, &columns);
    assert_eq!(expected, result.unwrap());
}

#[test]
fn test_preserves_unknown_columns_verbatim() {
    // unknown columns never fail a decode and are kept as written,
    // empty cells included, in header order
    let headers = strings(vec![
        "stop_id",
        "level_id",
        "stop_name",
        "stop_lat",
        "stop_lon",
        "platform_code",
    ]);
    let columns = strings(vec!["s7", " l 9 ", "foo", "1.5", "-2.25", ""]);
    let stop = parse_row(&headers, &columns).unwrap();
    assert_eq!(
        Some(vec![
            (String::from("level_id"), String::from(" l 9 ")),
            (String::from("platform_code"), String::from("")),
        ]),
        stop.extended_fields
    );
}

#[test]
fn test_blank_mandatory_field_is_reported() {
    // stop_name left blank in an otherwise well-formed row: a field error
    // naming stop_name, not a silent default
    let headers = strings(vec!["stop_id", "stop_name", "stop_lat", "stop_lon"]);
    let columns = strings(vec!["1", "", "1", "1"]);
    let result = parse_row(&headers, &columns);
    assert_eq!(
        Err(ParseError::MissingField("stop_name".to_string())),
        result
    );
}

#[test]
fn test_malformed_coordinate_is_a_field_error() {
    let headers = strings(vec!["stop_id", "stop_name", "stop_lat", "stop_lon"]);
    let columns = strings(vec!["1", "foo", "north", "1"]);
    let result = parse_row(&headers, &columns);
    assert_eq!(Err(ParseError::ParseFloat("north".to_string())), result);
}

#[test]
fn test_unrecognized_location_type_is_a_field_error() {
    let headers = strings(vec![
        "stop_id",
        "stop_name",
        "stop_lat",
        "stop_lon",
        "location_type",
    ]);
    let columns = strings(vec!["1", "foo", "1", "1", "7"]);
    let result = parse_row(&headers, &columns);
    assert_eq!(Err(ParseError::ParseEnum("7".to_string())), result);
}
