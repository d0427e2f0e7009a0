use transitfeed::stop_times::parse_row;
use transitfeed::{DropoffType, ParseError, PickupType, StopTime, TimeOffset, Timepoint};

fn strings(v: Vec<&str>) -> Vec<String> {
    v.into_iter().map(|s| s.to_string()).collect()
}

#[test]
fn test_round_trip_from_record_fields() {
    // a row written from a record's own field values decodes back to an
    // equivalent record
    let original = StopTime {
        trip_id: "T1".to_string(),
        arrival_time: TimeOffset::from_hms(25, 30, 0),
        departure_time: TimeOffset::from_hms(26, 0, 30),
        stop_id: "S9".to_string(),
        stop_sequence: 5,
        stop_headsign: Some("To Town".to_string()),
        pickup_type: PickupType::MustPhoneAgency,
        dropoff_type: DropoffType::MustCoordinateWithDriver,
        shape_dist_traveled: Some("3.14".to_string()),
        timepoint: Timepoint::Exact,
    };
    let headers = strings(vec![
        "trip_id",
        "arrival_time",
        "departure_time",
        "stop_id",
        "stop_sequence",
        "stop_headsign",
        "pickup_type",
        "dropoff_type",
        "shape_dist_traveled",
    ]);
    let row = strings(vec![
        "T1",
        "25:30:00",
        "26:00:30",
        "S9",
        "5",
        "To Town",
        "2",
        "3",
        "3.14",
    ]);
    let decoded = parse_row(&headers, &row).unwrap();
    assert_eq!(original, decoded);
}

#[test]
fn test_absent_columns_take_defaults() {
    let headers = strings(vec!["trip_id", "stop_id", "stop_sequence"]);
    let row = strings(vec!["t1", "s1", "3"]);
    let st = parse_row(&headers, &row).unwrap();
    assert_eq!(TimeOffset::from_hms(0, 0, 0), st.arrival_time);
    assert_eq!(TimeOffset::from_hms(0, 0, 0), st.departure_time);
    assert_eq!(PickupType::RegularlyScheduled, st.pickup_type);
    assert_eq!(DropoffType::RegularlyScheduled, st.dropoff_type);
    assert_eq!(None, st.stop_headsign);
    assert_eq!(None, st.shape_dist_traveled);
    assert_eq!(Timepoint::Exact, st.timepoint);
}

#[test]
fn test_column_order_does_not_matter() {
    let headers = strings(vec!["stop_sequence", "trip_id", "stop_id"]);
    let row = strings(vec!["3", "t1", "s1"]);
    let st = parse_row(&headers, &row).unwrap();
    assert_eq!("t1", st.trip_id);
    assert_eq!("s1", st.stop_id);
    assert_eq!(3, st.stop_sequence);
}

#[test]
fn test_blank_mandatory_stop_sequence_is_reported() {
    let headers = strings(vec!["trip_id", "stop_id", "stop_sequence"]);
    let row = strings(vec!["t1", "s1", ""]);
    assert_eq!(
        Err(ParseError::MissingField("stop_sequence".to_string())),
        parse_row(&headers, &row)
    );
}

#[test]
fn test_missing_trip_id_column_is_reported() {
    let headers = strings(vec!["stop_id", "stop_sequence"]);
    let row = strings(vec!["s1", "3"]);
    assert_eq!(
        Err(ParseError::MissingField("trip_id".to_string())),
        parse_row(&headers, &row)
    );
}

#[test]
fn test_malformed_time_is_reported() {
    let headers = strings(vec!["trip_id", "arrival_time", "stop_id", "stop_sequence"]);
    let row = strings(vec!["t1", "25h30", "s1", "3"]);
    assert_eq!(
        Err(ParseError::ParseTime("25h30".to_string())),
        parse_row(&headers, &row)
    );
}

#[test]
fn test_malformed_sequence_is_reported() {
    let headers = strings(vec!["trip_id", "stop_id", "stop_sequence"]);
    let row = strings(vec!["t1", "s1", "three"]);
    assert_eq!(
        Err(ParseError::ParseInt("three".to_string())),
        parse_row(&headers, &row)
    );
}

#[test]
fn test_unknown_columns_are_ignored() {
    let headers = strings(vec!["trip_id", "note", "stop_id", "stop_sequence"]);
    let row = strings(vec!["t1", "whatever, even :: garbage", "s1", "3"]);
    let st = parse_row(&headers, &row).unwrap();
    assert_eq!("t1", st.trip_id);
}

#[test]
fn test_error_messages_carry_field_and_cell() {
    assert_eq!(
        "MissingField(\"trip_id\")",
        ParseError::MissingField("trip_id".to_string()).message()
    );
    assert_eq!(
        "ParseTime(\"25h30\")",
        ParseError::ParseTime("25h30".to_string()).message()
    );
}
