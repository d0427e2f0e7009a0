use transitfeed::run::Runs;
use transitfeed::{DropoffType, PickupType, Run, StopTime, TimeOffset, Timepoint};

fn stop_time(
    trip: &str,
    sequence: u64,
    arrival: Option<[u32; 3]>,
    departure: Option<[u32; 3]>,
) -> StopTime {
    StopTime {
        trip_id: String::from(trip),
        departure_time: match departure {
            None => TimeOffset::from_hms(0, 0, 0),
            Some(hms) => TimeOffset::from_hms(hms[0], hms[1], hms[2]),
        },
        arrival_time: match arrival {
            None => TimeOffset::from_hms(0, 0, 0),
            Some(hms) => TimeOffset::from_hms(hms[0], hms[1], hms[2]),
        },
        stop_id: format!("{}.{}", trip, sequence),
        stop_sequence: sequence,
        stop_headsign: None,
        pickup_type: PickupType::RegularlyScheduled,
        dropoff_type: DropoffType::RegularlyScheduled,
        timepoint: Timepoint::Exact,
        shape_dist_traveled: None,
    }
}

#[test]
fn test_form_runs_from_sorted_sequences() {
    let times = vec![
        stop_time("A", 1, None, None),
        stop_time("A", 2, None, None),
        stop_time("A", 3, None, None),
        stop_time("B", 10, None, None),
        stop_time("B", 20, None, None),
        stop_time("B", 30, None, None),
    ];
    let mut runs = Runs::from_sorted(times.clone());
    assert_eq!(
        Some(Run {
            trip: String::from("A"),
            sequence: vec![times[0].clone(), times[1].clone(), times[2].clone()],
        }),
        runs.next()
    );
    assert_eq!(
        Some(Run {
            trip: String::from("B"),
            sequence: vec![times[3].clone(), times[4].clone(), times[5].clone()],
        }),
        runs.next()
    );
    assert_eq!(None, runs.next());
}

#[test]
fn test_form_bad_runs_from_unsorted_sequences() {
    // an input that is not grouped by trip, fed to the mode that trusts
    // grouping: each reappearance of a trip starts a new run
    let times = vec![
        stop_time("A", 1, None, None),
        stop_time("A", 2, None, None),
        stop_time("B", 10, None, None),
        stop_time("B", 20, None, None),
        stop_time("A", 3, None, None),
        stop_time("B", 30, None, None),
    ];
    let mut runs = Runs::from_sorted(times.clone());
    assert_eq!(
        Some(Run {
            trip: String::from("A"),
            sequence: vec![times[0].clone(), times[1].clone()],
        }),
        runs.next()
    );
    assert_eq!(
        Some(Run {
            trip: String::from("B"),
            sequence: vec![times[2].clone(), times[3].clone()],
        }),
        runs.next()
    );
    assert_eq!(
        Some(Run {
            trip: String::from("A"),
            sequence: vec![times[4].clone()],
        }),
        runs.next()
    );
    assert_eq!(
        Some(Run {
            trip: String::from("B"),
            sequence: vec![times[5].clone()],
        }),
        runs.next()
    );
    assert_eq!(None, runs.next());
}

#[test]
fn test_form_single_run() {
    let times = vec![stop_time("A", 1, None, None)];
    let mut runs = Runs::from_sorted(times);
    assert_eq!(
        Some(Run {
            trip: String::from("A"),
            sequence: vec![stop_time("A", 1, None, None)],
        }),
        runs.next()
    );
    assert_eq!(None, runs.next());
}

#[test]
fn test_no_runs_from_empty_iter() {
    let mut runs = Runs::from_sorted(Vec::new());
    assert_eq!(None, runs.next());
    assert_eq!(None, runs.next());
}

#[test]
fn test_form_runs_from_unsorted_sequences() {
    let times = vec![
        stop_time("A", 3, None, None),
        stop_time("A", 2, None, None),
        stop_time("B", 1, None, None),
        stop_time("B", 2, None, None),
        stop_time("A", 1, None, None),
        stop_time("B", 3, None, None),
    ];
    let mut runs = Runs::from_unsorted(times.clone());
    let mut result: Vec<Run> = Vec::new();
    while let Some(run) = runs.next() {
        result.push(run);
    }
    result.sort_by(|a, b| a.sequence[0].trip_id.cmp(&b.sequence[0].trip_id));

    let expected = vec![
        Run {
            trip: String::from("A"),
            sequence: vec![times[4].clone(), times[1].clone(), times[0].clone()],
        },
        Run {
            trip: String::from("B"),
            sequence: vec![times[2].clone(), times[3].clone(), times[5].clone()],
        },
    ];
    assert_eq!(expected, result);
}

#[test]
fn test_unsorted_runs_sorted_and_complete() {
    // records for two trips interleaved in arbitrary order: every emitted
    // run is sorted by ascending stop-sequence number, and together the
    // runs hold exactly the input records
    let times = vec![
        stop_time("X", 5, None, None),
        stop_time("Y", 2, None, None),
        stop_time("X", 1, None, None),
        stop_time("Y", 9, None, None),
        stop_time("X", 3, None, None),
    ];
    let mut runs = Runs::from_unsorted(times.clone());
    let mut emitted: Vec<StopTime> = Vec::new();
    let mut n_runs = 0;
    while let Some(run) = runs.next() {
        n_runs += 1;
        assert!(!run.sequence.is_empty());
        for w in run.sequence.windows(2) {
            assert!(w[0].stop_sequence <= w[1].stop_sequence);
        }
        for st in &run.sequence {
            assert_eq!(st.trip_id, run.trip);
        }
        emitted.extend(run.sequence.into_iter());
    }
    assert_eq!(2, n_runs);
    assert_eq!(5, emitted.len());
    // multiset equality: same records on both sides
    let mut input = times;
    let key = |st: &StopTime| (st.trip_id.clone(), st.stop_sequence);
    input.sort_by_key(key);
    emitted.sort_by_key(key);
    assert_eq!(input, emitted);
}

use transitfeed::GTFSIterator;

fn csv_reader_from_string(text: &str) -> csv::Reader<&[u8]> {
    csv::ReaderBuilder::new()
        .flexible(true)
        .from_reader(text.as_bytes())
}

const GOOD_FEED_STOP_TIMES: &str = "trip_id,arrival_time,departure_time,stop_id,stop_sequence
STBA,6:00:00,6:00:00,STAGECOACH,1
STBA,6:20:00,6:20:00,BEATTY_AIRPORT,2
CITY1,6:00:00,6:00:00,STAGECOACH,1
CITY1,6:07:00,6:07:00,NANAA,2
CITY2,6:28:00,6:30:00,STAGECOACH,1
CITY2,6:35:00,6:37:00,NADAV,2
AB1,8:00:00,8:00:00,BEATTY_AIRPORT,1
AB1,8:10:00,8:15:00,BULLFROG,2
AB2,12:05:00,12:05:00,BULLFROG,1
AB2,12:15:00,12:15:00,BEATTY_AIRPORT,2
BFC1,8:20:00,8:20:00,BULLFROG,1
BFC1,9:20:00,9:20:00,FUR_CREEK_RES,2
BFC2,11:00:00,11:00:00,FUR_CREEK_RES,1
BFC2,12:00:00,12:00:00,BULLFROG,2
AAMV1,8:00:00,8:00:00,BEATTY_AIRPORT,1
AAMV1,9:00:00,9:00:00,AMV,2
AAMV2,10:00:00,10:00:00,AMV,1
AAMV2,11:00:00,11:00:00,BEATTY_AIRPORT,2
AAMV3,13:00:00,13:00:00,BEATTY_AIRPORT,1
AAMV3,14:00:00,14:00:00,AMV,2
AAMV4,15:00:00,15:00:00,AMV,1
AAMV4,16:00:00,16:00:00,BEATTY_AIRPORT,2
";

fn read_stop_times() -> Vec<StopTime> {
    let csv = csv_reader_from_string(GOOD_FEED_STOP_TIMES);
    let mut iter: GTFSIterator<_, StopTime> =
        GTFSIterator::new(csv, "stop_times.txt").unwrap();
    let mut out: Vec<StopTime> = Vec::new();
    while let Some(r) = iter.next() {
        if let Ok(st) = r {
            out.push(st);
        }
    }
    out
}

#[test]
fn test_read_sorted_runs() {
    let stop_times = read_stop_times();
    let mut runs = Runs::from_sorted(stop_times);
    let run = runs.next().expect("no run was found");
    assert_eq!("STBA".to_string(), run.trip);
    // just check run length for now since stoptime is big
    assert_eq!(2, run.sequence.len());
    assert_eq!("CITY1", &runs.next().expect("no run was found").trip);
    assert_eq!("CITY2", &runs.next().expect("no run was found").trip);
    assert_eq!("AB1", &runs.next().expect("no run was found").trip);
    assert_eq!("AB2", &runs.next().expect("no run was found").trip);
    assert_eq!("BFC1", &runs.next().expect("no run was found").trip);
    assert_eq!("BFC2", &runs.next().expect("no run was found").trip);
    assert_eq!("AAMV1", &runs.next().expect("no run was found").trip);
    assert_eq!("AAMV2", &runs.next().expect("no run was found").trip);
    assert_eq!("AAMV3", &runs.next().expect("no run was found").trip);
    assert_eq!("AAMV4", &runs.next().expect("no run was found").trip);
    assert_eq!(None, runs.next());
}

#[test]
fn test_read_unsorted_runs() {
    let stop_times = read_stop_times();
    let mut runs = Runs::from_unsorted(stop_times);
    // grouping makes run order indeterminate
    let mut trips: Vec<String> = Vec::new();
    while let Some(run) = runs.next() {
        trips.push(run.trip);
    }
    assert!(trips.as_slice().contains(&"STBA".to_string()));
}

#[test]
fn test_equal_sequence_numbers_keep_input_order() {
    // two visits of one trip share a sequence number: the unsorted mode's
    // sort is stable, so they keep their input order
    let mut a = stop_time("T", 2, None, None);
    a.stop_id = "first".to_string();
    let mut b = stop_time("T", 2, None, None);
    b.stop_id = "second".to_string();
    let times = vec![stop_time("T", 3, None, None), a.clone(), b.clone()];
    let mut runs = Runs::from_unsorted(times);
    let run = runs.next().expect("no run was found");
    assert_eq!(vec![a, b, stop_time("T", 3, None, None)], run.sequence);
    assert!(runs.next().is_none());
}
