use transitfeed::{decode_table, CsvError, Error, GTFSIterator, StopTime};

fn csv_reader_from_string(text: &str) -> csv::Reader<&[u8]> {
    csv::ReaderBuilder::new()
        .flexible(true)
        .from_reader(text.as_bytes())
}

#[test]
fn test_returns_parsed_entry() {
    let csv = csv_reader_from_string(
        "trip_id,stop_id,stop_sequence
t1,s1,1",
    );
    let mut iterator: GTFSIterator<_, StopTime> =
        GTFSIterator::new(csv, "example.txt").unwrap();
    let entry = iterator.next().unwrap().unwrap();
    assert_eq!("t1", entry.trip_id);
    assert_eq!("s1", entry.stop_id);
    assert_eq!(1, entry.stop_sequence);
    assert!(iterator.next().is_none());
}

#[test]
fn test_wraps_parse_failures() {
    let csv = csv_reader_from_string(
        "trip_id,stop_id,stop_sequence,shape_dist_traveled
t1,s1,1,uphill",
    );
    let mut iterator: GTFSIterator<_, StopTime> =
        GTFSIterator::new(csv, "example.txt").unwrap();
    let entry = iterator.next().unwrap().err().unwrap();
    assert_eq!(
        "GtfsError: error reading line (example.txt:2) - Some(ParseFloat(\"uphill\"))",
        entry.message()
    );
}

#[test]
fn test_wraps_row_failures() {
    // column count mismatch
    let csv = csv_reader_from_string(
        "foo,bar,baz
                                ,",
    );
    let mut iterator: GTFSIterator<_, StopTime> =
        GTFSIterator::new(csv, "example.txt").unwrap();
    let entry = iterator.next().unwrap().err().unwrap();
    assert_eq!(
        "GtfsError: Current column count mismatch with previous rows (example.txt:2) - Some(ColumnMismatch(3, 2))",
        entry.message()
    );
}

#[test]
fn test_empty_header_fails_construction() {
    // no header row at all: construction is refused before any row is read
    let csv = csv_reader_from_string("");
    let r: Result<GTFSIterator<_, StopTime>, Error> = GTFSIterator::new(csv, "empty.txt");
    match r {
        Err(e) => assert_eq!(Error::CsvHeader("empty.txt".to_string()), e),
        Ok(_) => panic!("an empty header must refuse construction"),
    }
}

#[test]
fn test_empty_header_fails_before_rows_are_read() {
    // however many data rows follow, an empty header refuses construction
    let csv = csv_reader_from_string("a,b\n1,2\n3,4");
    let r: Result<GTFSIterator<_, StopTime>, Error> =
        GTFSIterator::with_header(csv, "empty.txt", Vec::new());
    match r {
        Err(e) => assert_eq!(Error::CsvHeader("empty.txt".to_string()), e),
        Ok(_) => panic!("an empty header must refuse construction"),
    }
}

#[test]
fn test_bad_row_does_not_disturb_the_next() {
    // one structural error at its own line; the rows around it decode
    let csv = csv_reader_from_string(
        "trip_id,stop_id,stop_sequence
t1,s1,1
t1,s2
t1,s3,3",
    );
    let mut iterator: GTFSIterator<_, StopTime> =
        GTFSIterator::new(csv, "stop_times.txt").unwrap();
    assert_eq!(1, iterator.next().unwrap().unwrap().stop_sequence);
    match iterator.next().unwrap().err().unwrap() {
        Error::Csv(CsvError::ColumnMismatch(expected, actual), filename, line) => {
            assert_eq!(3, expected);
            assert_eq!(2, actual);
            assert_eq!("stop_times.txt", filename);
            assert_eq!(3, line);
        },
        other => panic!("expected a column mismatch, got {:?}", other),
    }
    assert_eq!(3, iterator.next().unwrap().unwrap().stop_sequence);
    assert!(iterator.next().is_none());
}

#[test]
fn test_decode_table_yields_one_outcome_per_row() {
    // a well-formed table: as many records as data rows, no errors
    let header: Vec<String> = vec!["trip_id".into(), "stop_id".into(), "stop_sequence".into()];
    let rows: Vec<Vec<String>> = vec![
        vec!["t1".into(), "s1".into(), "1".into()],
        vec!["t1".into(), "s2".into(), "2".into()],
        vec!["t2".into(), "s1".into(), "7".into()],
    ];
    let out: Vec<Result<StopTime, Error>> =
        decode_table(&header, &rows, &"stop_times.txt".to_string());
    assert_eq!(3, out.len());
    for r in &out {
        assert!(r.is_ok());
    }
}

#[test]
fn test_decode_table_reports_one_based_lines() {
    // the header is line 1, so the bad second data row reports line 3
    let header: Vec<String> = vec!["trip_id".into(), "stop_id".into(), "stop_sequence".into()];
    let rows: Vec<Vec<String>> = vec![
        vec!["t1".into(), "s1".into(), "1".into()],
        vec!["t1".into(), "s2".into(), "oops".into()],
    ];
    let out: Vec<Result<StopTime, Error>> =
        decode_table(&header, &rows, &"stop_times.txt".to_string());
    assert_eq!(2, out.len());
    assert!(out[0].is_ok());
    match out[1].as_ref().err().unwrap() {
        Error::LineError(_, filename, line) => {
            assert_eq!("stop_times.txt", filename);
            assert_eq!(&3, line);
        },
        other => panic!("expected a field error, got {:?}", other),
    }
}
