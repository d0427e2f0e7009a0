//! The row decoder for the stop-visit table.
//!
//! Schema: `trip_id`, `stop_id` and `stop_sequence` are mandatory; the
//! arrival and departure times default to `0:00:00` when their column is
//! absent or its cell empty; the pickup and dropoff policies default to
//! regularly scheduled; the headsign and the distance travelled stay unset
//! when absent or empty; the timepoint flag is not read from any column
//! and is always exact. Columns the schema does not know are ignored.

use vstd::prelude::*;

use crate::error::{dec_str, ParseError, ParseErrorV};
use crate::gtfs::RowDecode;
use crate::parse::{
    is_decimal_string, is_time_string, is_uint_string, lemma_dec_str_uint,
    lemma_time_text_round_trip, parse_dropoff_type, parse_float, parse_int, parse_pickup_type,
    parse_timeoffset, spec_dropoff, spec_pickup, time_hours, time_minutes, time_seconds, str_eq,
    time_text, uint_val,
};
use crate::transit::{DropoffType, PickupType, StopTime, StopTimeV, TimeOffset, Timepoint};

verus! {

/// The time offset written in the time string `s`.
pub open spec fn time_offset_of(s: Seq<char>) -> TimeOffset {
    TimeOffset {
        hours: time_hours(s) as u32,
        minutes: time_minutes(s) as u32,
        seconds: time_seconds(s) as u32,
    }
}

/// The partial record built up while one stop-visit row is scanned: each
/// field is set once its column has carried a non-empty, well-formed cell.
pub struct StopTimeAcc {
    pub trip_id: Option<Seq<char>>,
    pub arrival_time: Option<TimeOffset>,
    pub departure_time: Option<TimeOffset>,
    pub stop_id: Option<Seq<char>>,
    pub stop_sequence: Option<u64>,
    pub stop_headsign: Option<Seq<char>>,
    pub pickup_type: Option<PickupType>,
    pub dropoff_type: Option<DropoffType>,
    pub shape_dist_traveled: Option<Seq<char>>,
}

/// The scan's starting state: nothing set.
pub open spec fn st_empty() -> StopTimeAcc {
    StopTimeAcc {
        trip_id: None,
        arrival_time: None,
        departure_time: None,
        stop_id: None,
        stop_sequence: None,
        stop_headsign: None,
        pickup_type: None,
        dropoff_type: None,
        shape_dist_traveled: None,
    }
}

/// One scan step: dispatch the cell on its column name. An empty cell
/// leaves its field unset; a non-empty malformed cell is a field error; a
/// column the schema does not know changes nothing.
pub open spec fn st_step(acc: StopTimeAcc, name: Seq<char>, cell: Seq<char>) -> Result<
    StopTimeAcc,
    ParseErrorV,
> {
    if name == "trip_id"@ {
        if cell.len() == 0 {
            Ok(acc)
        } else {
            Ok(StopTimeAcc { trip_id: Some(cell), ..acc })
        }
    } else if name == "departure_time"@ {
        if cell.len() == 0 {
            Ok(acc)
        } else if is_time_string(cell) {
            Ok(StopTimeAcc { departure_time: Some(time_offset_of(cell)), ..acc })
        } else {
            Err(ParseErrorV::ParseTime(cell))
        }
    } else if name == "arrival_time"@ {
        if cell.len() == 0 {
            Ok(acc)
        } else if is_time_string(cell) {
            Ok(StopTimeAcc { arrival_time: Some(time_offset_of(cell)), ..acc })
        } else {
            Err(ParseErrorV::ParseTime(cell))
        }
    } else if name == "stop_id"@ {
        if cell.len() == 0 {
            Ok(acc)
        } else {
            Ok(StopTimeAcc { stop_id: Some(cell), ..acc })
        }
    } else if name == "stop_sequence"@ {
        if cell.len() == 0 {
            Ok(acc)
        } else if is_uint_string(cell) && uint_val(cell) <= u64::MAX {
            Ok(StopTimeAcc { stop_sequence: Some(uint_val(cell) as u64), ..acc })
        } else {
            Err(ParseErrorV::ParseInt(cell))
        }
    } else if name == "stop_headsign"@ {
        if cell.len() == 0 {
            Ok(acc)
        } else {
            Ok(StopTimeAcc { stop_headsign: Some(cell), ..acc })
        }
    } else if name == "pickup_type"@ {
        if cell.len() == 0 {
            Ok(acc)
        } else if spec_pickup(cell) is Some {
            Ok(StopTimeAcc { pickup_type: spec_pickup(cell), ..acc })
        } else {
            Err(ParseErrorV::ParseEnum(cell))
        }
    } else if name == "dropoff_type"@ {
        if cell.len() == 0 {
            Ok(acc)
        } else if spec_dropoff(cell) is Some {
            Ok(StopTimeAcc { dropoff_type: spec_dropoff(cell), ..acc })
        } else {
            Err(ParseErrorV::ParseEnum(cell))
        }
    } else if name == "shape_dist_traveled"@ {
        if cell.len() == 0 {
            Ok(acc)
        } else if is_decimal_string(cell) {
            Ok(StopTimeAcc { shape_dist_traveled: Some(cell), ..acc })
        } else {
            Err(ParseErrorV::ParseFloat(cell))
        }
    } else {
        Ok(acc)
    }
}

/// The scan state after the first `n` header/cell pairs, or the first
/// field error among them.
pub open spec fn st_fold(header: Seq<Seq<char>>, row: Seq<Seq<char>>, n: int) -> Result<
    StopTimeAcc,
    ParseErrorV,
>
    decreases n,
{
    if n <= 0 {
        Ok(st_empty())
    } else {
        match st_fold(header, row, n - 1) {
            Ok(acc) => st_step(acc, header[n - 1], row[n - 1]),
            Err(e) => Err(e),
        }
    }
}

/// Once the scan has failed, every longer scan reports the same error.
pub proof fn lemma_st_fold_err(header: Seq<Seq<char>>, row: Seq<Seq<char>>, i: int, j: int)
    requires
        0 <= i <= j,
        st_fold(header, row, i) is Err,
    ensures
        st_fold(header, row, j) == st_fold(header, row, i),
    decreases j - i,
{
    if i < j {
        lemma_st_fold_err(header, row, i, j - 1);
    }
}

/// After the full row: mandatory fields must have a value; the rest take
/// their documented defaults.
pub open spec fn st_finish(acc: StopTimeAcc) -> Result<StopTimeV, ParseErrorV> {
    if acc.trip_id is None {
        Err(ParseErrorV::MissingField("trip_id"@))
    } else if acc.stop_id is None {
        Err(ParseErrorV::MissingField("stop_id"@))
    } else if acc.stop_sequence is None {
        Err(ParseErrorV::MissingField("stop_sequence"@))
    } else {
        Ok(
            StopTimeV {
                trip_id: acc.trip_id->Some_0,
                arrival_time: match acc.arrival_time {
                    Some(t) => t,
                    None => TimeOffset { hours: 0, minutes: 0, seconds: 0 },
                },
                departure_time: match acc.departure_time {
                    Some(t) => t,
                    None => TimeOffset { hours: 0, minutes: 0, seconds: 0 },
                },
                stop_id: acc.stop_id->Some_0,
                stop_sequence: acc.stop_sequence->Some_0,
                stop_headsign: acc.stop_headsign,
                pickup_type: match acc.pickup_type {
                    Some(p) => p,
                    None => PickupType::RegularlyScheduled,
                },
                dropoff_type: match acc.dropoff_type {
                    Some(d) => d,
                    None => DropoffType::RegularlyScheduled,
                },
                shape_dist_traveled: acc.shape_dist_traveled,
                timepoint: Timepoint::Exact,
            },
        )
    }
}

/// The stop-visit record (or field error) that the header and the row
/// decode to.
pub open spec fn spec_decode_stop_time(header: Seq<Seq<char>>, row: Seq<Seq<char>>) -> Result<
    StopTimeV,
    ParseErrorV,
> {
    match st_fold(header, row, header.len() as int) {
        Ok(acc) => st_finish(acc),
        Err(e) => Err(e),
    }
}

/// Decode one stop-visit row against the header, positionally zipped.
pub fn parse_row(header: &Vec<String>, row: &Vec<String>) -> (r: Result<StopTime, ParseError>)
    requires
        header@.len() == row@.len(),
    ensures
        match r {
            Ok(rec) => spec_decode_stop_time(header.deep_view(), row.deep_view()) == Ok::<
                StopTimeV,
                ParseErrorV,
            >(rec@),
            Err(e) => spec_decode_stop_time(header.deep_view(), row.deep_view()) == Err::<
                StopTimeV,
                ParseErrorV,
            >(e@),
        },
{
    let ghost h = header.deep_view();
    let ghost rw = row.deep_view();
    let mut trip_id: Option<String> = None;
    let mut arrival_time: Option<TimeOffset> = None;
    let mut departure_time: Option<TimeOffset> = None;
    let mut stop_id: Option<String> = None;
    let mut stop_sequence: Option<u64> = None;
    let mut stop_headsign: Option<String> = None;
    let mut pickup_type: Option<PickupType> = None;
    let mut dropoff_type: Option<DropoffType> = None;
    let mut shape_dist_traveled: Option<String> = None;
    let mut i: usize = 0;
    while i < header.len()
        invariant
            header@.len() == row@.len(),
            h == header.deep_view(),
            rw == row.deep_view(),
            0 <= i <= header@.len(),
            st_fold(h, rw, i as int) == Ok::<StopTimeAcc, ParseErrorV>(
                StopTimeAcc {
                    trip_id: trip_id.deep_view(),
                    arrival_time,
                    departure_time,
                    stop_id: stop_id.deep_view(),
                    stop_sequence,
                    stop_headsign: stop_headsign.deep_view(),
                    pickup_type,
                    dropoff_type,
                    shape_dist_traveled: shape_dist_traveled.deep_view(),
                },
            ),
        decreases header@.len() - i,
    {
        let ghost acc = StopTimeAcc {
            trip_id: trip_id.deep_view(),
            arrival_time,
            departure_time,
            stop_id: stop_id.deep_view(),
            stop_sequence,
            stop_headsign: stop_headsign.deep_view(),
            pickup_type,
            dropoff_type,
            shape_dist_traveled: shape_dist_traveled.deep_view(),
        };
        proof {
            assert(st_fold(h, rw, i + 1) == st_step(acc, h[i as int], rw[i as int]));
        }
        let name = &header[i];
        let cell = &row[i];
        if str_eq(name.as_str(), "trip_id") {
            if !cell.as_str().is_empty() {
                trip_id = Some(cell.clone());
            }
        } else if str_eq(name.as_str(), "departure_time") {
            if !cell.as_str().is_empty() {
                match parse_timeoffset(cell.as_str()) {
                    Ok(t) => {
                        departure_time = Some(t);
                    },
                    Err(e) => {
                        proof {
                            lemma_st_fold_err(h, rw, i + 1, h.len() as int);
                        }
                        return Err(e);
                    },
                }
            }
        } else if str_eq(name.as_str(), "arrival_time") {
            if !cell.as_str().is_empty() {
                match parse_timeoffset(cell.as_str()) {
                    Ok(t) => {
                        arrival_time = Some(t);
                    },
                    Err(e) => {
                        proof {
                            lemma_st_fold_err(h, rw, i + 1, h.len() as int);
                        }
                        return Err(e);
                    },
                }
            }
        } else if str_eq(name.as_str(), "stop_id") {
            if !cell.as_str().is_empty() {
                stop_id = Some(cell.clone());
            }
        } else if str_eq(name.as_str(), "stop_sequence") {
            if !cell.as_str().is_empty() {
                match parse_int(cell.as_str()) {
                    Ok(v) => {
                        stop_sequence = Some(v);
                    },
                    Err(e) => {
                        proof {
                            lemma_st_fold_err(h, rw, i + 1, h.len() as int);
                        }
                        return Err(e);
                    },
                }
            }
        } else if str_eq(name.as_str(), "stop_headsign") {
            if !cell.as_str().is_empty() {
                stop_headsign = Some(cell.clone());
            }
        } else if str_eq(name.as_str(), "pickup_type") {
            if !cell.as_str().is_empty() {
                match parse_pickup_type(cell.as_str()) {
                    Ok(v) => {
                        pickup_type = Some(v);
                    },
                    Err(e) => {
                        proof {
                            lemma_st_fold_err(h, rw, i + 1, h.len() as int);
                        }
                        return Err(e);
                    },
                }
            }
        } else if str_eq(name.as_str(), "dropoff_type") {
            if !cell.as_str().is_empty() {
                match parse_dropoff_type(cell.as_str()) {
                    Ok(v) => {
                        dropoff_type = Some(v);
                    },
                    Err(e) => {
                        proof {
                            lemma_st_fold_err(h, rw, i + 1, h.len() as int);
                        }
                        return Err(e);
                    },
                }
            }
        } else if str_eq(name.as_str(), "shape_dist_traveled") {
            if !cell.as_str().is_empty() {
                match parse_float(cell.as_str()) {
                    Ok(v) => {
                        shape_dist_traveled = Some(v);
                    },
                    Err(e) => {
                        proof {
                            lemma_st_fold_err(h, rw, i + 1, h.len() as int);
                        }
                        return Err(e);
                    },
                }
            }
        }
        i += 1;
    }
    let trip_id_v: String = match trip_id {
        Some(t) => t,
        None => {
            return Err(ParseError::MissingField("trip_id".to_owned()));
        },
    };
    let stop_id_v: String = match stop_id {
        Some(s) => s,
        None => {
            return Err(ParseError::MissingField("stop_id".to_owned()));
        },
    };
    let stop_sequence_v: u64 = match stop_sequence {
        Some(s) => s,
        None => {
            return Err(ParseError::MissingField("stop_sequence".to_owned()));
        },
    };
    Ok(
        StopTime {
            trip_id: trip_id_v,
            arrival_time: match arrival_time {
                Some(t) => t,
                None => TimeOffset { hours: 0, minutes: 0, seconds: 0 },
            },
            departure_time: match departure_time {
                Some(t) => t,
                None => TimeOffset { hours: 0, minutes: 0, seconds: 0 },
            },
            stop_id: stop_id_v,
            stop_sequence: stop_sequence_v,
            stop_headsign,
            pickup_type: match pickup_type {
                Some(p) => p,
                None => PickupType::RegularlyScheduled,
            },
            dropoff_type: match dropoff_type {
                Some(d) => d,
                None => DropoffType::RegularlyScheduled,
            },
            shape_dist_traveled,
            timepoint: Timepoint::Exact,
        },
    )
}

impl RowDecode for StopTime {
    open spec fn spec_decode(header: Seq<Seq<char>>, row: Seq<Seq<char>>) -> Result<
        StopTimeV,
        ParseErrorV,
    > {
        spec_decode_stop_time(header, row)
    }

    fn decode_row(header: &Vec<String>, row: &Vec<String>) -> (r: Result<StopTime, ParseError>) {
        parse_row(header, row)
    }
}

/// The single-digit code that writes a pickup policy.
pub open spec fn pickup_code(p: PickupType) -> Seq<char> {
    match p {
        PickupType::RegularlyScheduled => seq!['0'],
        PickupType::NoPickupAvailable => seq!['1'],
        PickupType::MustPhoneAgency => seq!['2'],
        PickupType::MustCoordinateWithDriver => seq!['3'],
    }
}

/// The single-digit code that writes a dropoff policy.
pub open spec fn dropoff_code(d: DropoffType) -> Seq<char> {
    match d {
        DropoffType::RegularlyScheduled => seq!['0'],
        DropoffType::NoDropoffAvailable => seq!['1'],
        DropoffType::MustPhoneAgency => seq!['2'],
        DropoffType::MustCoordinateWithDriver => seq!['3'],
    }
}

/// The header of the stop-visit table's canonical textual form.
pub open spec fn canonical_header() -> Seq<Seq<char>> {
    seq![
        "trip_id"@,
        "arrival_time"@,
        "departure_time"@,
        "stop_id"@,
        "stop_sequence"@,
        "stop_headsign"@,
        "pickup_type"@,
        "dropoff_type"@,
        "shape_dist_traveled"@,
    ]
}

/// The row built from a record's own field values, under
/// [`canonical_header`]: unset optional fields write empty cells.
pub open spec fn canonical_row(st: StopTimeV) -> Seq<Seq<char>> {
    seq![
        st.trip_id,
        time_text(st.arrival_time),
        time_text(st.departure_time),
        st.stop_id,
        dec_str(st.stop_sequence as nat),
        match st.stop_headsign {
            Some(h) => h,
            None => Seq::<char>::empty(),
        },
        pickup_code(st.pickup_type),
        dropoff_code(st.dropoff_type),
        match st.shape_dist_traveled {
            Some(d) => d,
            None => Seq::<char>::empty(),
        },
    ]
}

/// Whether a stop-visit record has a canonical textual form at all: its
/// mandatory identifiers are non-empty, its times fit the two-digit hour
/// grammar, a headsign, when present, is non-empty, a distance, when
/// present, is decimal text, and its timepoint flag is the exact one that
/// decoding always assigns.
pub open spec fn canonical(st: StopTimeV) -> bool {
    &&& st.trip_id.len() > 0
    &&& st.stop_id.len() > 0
    &&& st.arrival_time.hours < 100 && st.arrival_time.minutes < 60 && st.arrival_time.seconds
        < 60
    &&& st.departure_time.hours < 100 && st.departure_time.minutes < 60
        && st.departure_time.seconds < 60
    &&& (st.stop_headsign matches Some(h) ==> h.len() > 0)
    &&& (st.shape_dist_traveled matches Some(d) ==> is_decimal_string(d))
    &&& st.timepoint == Timepoint::Exact
}

/// Round trip: decoding the row built from a record's own field values
/// reproduces the record, for every record that has a canonical textual
/// form.
pub proof fn lemma_stop_time_round_trip(st: StopTimeV)
    requires
        canonical(st),
    ensures
        spec_decode_stop_time(canonical_header(), canonical_row(st)) == Ok::<
            StopTimeV,
            ParseErrorV,
        >(st),
{
    reveal_strlit("trip_id");
    reveal_strlit("arrival_time");
    reveal_strlit("departure_time");
    reveal_strlit("stop_id");
    reveal_strlit("stop_sequence");
    reveal_strlit("stop_headsign");
    reveal_strlit("pickup_type");
    reveal_strlit("dropoff_type");
    reveal_strlit("shape_dist_traveled");
    let h = canonical_header();
    let r = canonical_row(st);
    assert(("trip_id"@).len() == 7);
    assert(("arrival_time"@).len() == 12);
    assert(("departure_time"@).len() == 14);
    assert(("stop_id"@).len() == 7);
    assert(("stop_sequence"@).len() == 13);
    assert(("stop_headsign"@).len() == 13);
    assert(("pickup_type"@).len() == 11);
    assert(("dropoff_type"@).len() == 12);
    assert(("shape_dist_traveled"@).len() == 19);
    assert(("stop_id"@) != ("trip_id"@)) by {
        assert(("stop_id"@)[0] == 's');
        assert(("trip_id"@)[0] == 't');
    }
    assert(("stop_headsign"@) != ("stop_sequence"@)) by {
        assert(("stop_headsign"@)[5] == 'h');
        assert(("stop_sequence"@)[5] == 's');
    }
    assert(("dropoff_type"@) != ("arrival_time"@)) by {
        assert(("dropoff_type"@)[0] == 'd');
        assert(("arrival_time"@)[0] == 'a');
    }
    lemma_time_text_round_trip(st.arrival_time);
    lemma_time_text_round_trip(st.departure_time);
    lemma_dec_str_uint(st.stop_sequence as nat);
    let a0 = st_empty();
    assert(st_fold(h, r, 0) == Ok::<StopTimeAcc, ParseErrorV>(a0));
    let a1 = StopTimeAcc { trip_id: Some(st.trip_id), ..a0 };
    assert(st_fold(h, r, 1) == Ok::<StopTimeAcc, ParseErrorV>(a1));
    let a2 = StopTimeAcc { arrival_time: Some(st.arrival_time), ..a1 };
    assert(st_step(a1, h[1], r[1]) == Ok::<StopTimeAcc, ParseErrorV>(a2)) by {
        assert(h[1] == "arrival_time"@);
        assert(r[1] == time_text(st.arrival_time));
        assert(("arrival_time"@).len() == 12);
        assert(("trip_id"@).len() == 7);
        assert(("departure_time"@).len() == 14);
        assert(h[1] != "trip_id"@);
        assert(h[1] != "departure_time"@);
        assert(is_time_string(r[1]));
        assert(r[1].len() != 0);
        assert(time_offset_of(time_text(st.arrival_time)) == st.arrival_time);
    }
    assert(st_fold(h, r, 2) == Ok::<StopTimeAcc, ParseErrorV>(a2));
    let a3 = StopTimeAcc { departure_time: Some(st.departure_time), ..a2 };
    assert(st_step(a2, h[2], r[2]) == Ok::<StopTimeAcc, ParseErrorV>(a3)) by {
        assert(h[2] == "departure_time"@);
        assert(r[2] == time_text(st.departure_time));
        assert(("departure_time"@).len() == 14);
        assert(("trip_id"@).len() == 7);
        assert(h[2] != "trip_id"@);
        assert(is_time_string(r[2]));
        assert(r[2].len() != 0);
        assert(time_offset_of(time_text(st.departure_time)) == st.departure_time);
    }
    assert(st_fold(h, r, 3) == Ok::<StopTimeAcc, ParseErrorV>(a3));
    let a4 = StopTimeAcc { stop_id: Some(st.stop_id), ..a3 };
    assert(st_step(a3, h[3], r[3]) == Ok::<StopTimeAcc, ParseErrorV>(a4)) by {
        assert(h[3] == "stop_id"@);
        assert(r[3] == st.stop_id);
        assert(r[3].len() != 0);
    }
    assert(st_fold(h, r, 4) == Ok::<StopTimeAcc, ParseErrorV>(a4));
    let a5 = StopTimeAcc { stop_sequence: Some(st.stop_sequence), ..a4 };
    assert(st_step(a4, h[4], r[4]) == Ok::<StopTimeAcc, ParseErrorV>(a5)) by {
        assert(h[4] == "stop_sequence"@);
        assert(r[4] == dec_str(st.stop_sequence as nat));
        assert(r[4].len() != 0);
        assert(is_uint_string(r[4]));
        assert(uint_val(dec_str(st.stop_sequence as nat)) == st.stop_sequence as nat);
    }
    assert(st_fold(h, r, 5) == Ok::<StopTimeAcc, ParseErrorV>(a5));
    let a6 = StopTimeAcc { stop_headsign: st.stop_headsign, ..a5 };
    assert(st_step(a5, h[5], r[5]) == Ok::<StopTimeAcc, ParseErrorV>(a6)) by {
        assert(h[5] == "stop_headsign"@);
        match st.stop_headsign {
            Some(hs) => {
                assert(r[5] == hs);
                assert(r[5].len() != 0);
            },
            None => {
                assert(r[5].len() == 0);
            },
        }
    }
    assert(st_fold(h, r, 6) == Ok::<StopTimeAcc, ParseErrorV>(a6));
    let a7 = StopTimeAcc { pickup_type: Some(st.pickup_type), ..a6 };
    assert(st_step(a6, h[6], r[6]) == Ok::<StopTimeAcc, ParseErrorV>(a7)) by {
        assert(h[6] == "pickup_type"@);
        assert(r[6] == pickup_code(st.pickup_type));
        assert(r[6].len() == 1);
        assert(spec_pickup(pickup_code(st.pickup_type)) == Some(st.pickup_type));
    }
    assert(st_fold(h, r, 7) == Ok::<StopTimeAcc, ParseErrorV>(a7));
    let a8 = StopTimeAcc { dropoff_type: Some(st.dropoff_type), ..a7 };
    assert(st_step(a7, h[7], r[7]) == Ok::<StopTimeAcc, ParseErrorV>(a8)) by {
        assert(h[7] == "dropoff_type"@);
        assert(r[7] == dropoff_code(st.dropoff_type));
        assert(r[7].len() == 1);
        assert(spec_dropoff(dropoff_code(st.dropoff_type)) == Some(st.dropoff_type));
    }
    assert(st_fold(h, r, 8) == Ok::<StopTimeAcc, ParseErrorV>(a8));
    let a9 = StopTimeAcc { shape_dist_traveled: st.shape_dist_traveled, ..a8 };
    assert(st_step(a8, h[8], r[8]) == Ok::<StopTimeAcc, ParseErrorV>(a9)) by {
        assert(h[8] == "shape_dist_traveled"@);
        if st.shape_dist_traveled is Some {
            assert(is_decimal_string(r[8]));
            assert(r[8].len() > 0) by {
                if r[8].len() == 0 {
                    assert(!is_uint_string(r[8].skip(crate::parse::sign_start(r[8]))));
                }
            }
        }
    }
    assert(st_fold(h, r, 9) == Ok::<StopTimeAcc, ParseErrorV>(a9));
    assert(st_finish(a9) == Ok::<StopTimeV, ParseErrorV>(st));
}

} // verus!
