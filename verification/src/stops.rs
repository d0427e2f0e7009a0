//! The row decoder for the stops table.
//!
//! Schema: `stop_id`, `stop_name`, `stop_lat` and `stop_lon` are
//! mandatory; the plain text fields stay unset when absent or empty; the
//! location type defaults to a plain stop and the wheelchair-boarding
//! level to no information. Columns the schema does not know are kept
//! verbatim in the extension bag, in header order, empty cells included.

use vstd::prelude::*;

use crate::error::{ParseError, ParseErrorV};
use crate::gtfs::RowDecode;
use crate::parse::{
    is_decimal_string, parse_float, parse_location_type, parse_wheelchair_boarding,
    spec_location_type, spec_wheelchair_boarding, str_eq,
};
use crate::transit::{LocationType, Stop, StopV, WheelchairBoarding};

verus! {

/// The partial record built up while one stop row is scanned.
pub struct StopAcc {
    pub stop_id: Option<Seq<char>>,
    pub stop_code: Option<Seq<char>>,
    pub stop_name: Option<Seq<char>>,
    pub stop_desc: Option<Seq<char>>,
    pub stop_lat: Option<Seq<char>>,
    pub stop_lon: Option<Seq<char>>,
    pub zone_id: Option<Seq<char>>,
    pub stop_url: Option<Seq<char>>,
    pub location_type: Option<LocationType>,
    pub parent_station: Option<Seq<char>>,
    pub stop_timezone: Option<Seq<char>>,
    pub wheelchair_boarding: Option<WheelchairBoarding>,
    pub extended_fields: Option<Seq<(Seq<char>, Seq<char>)>>,
}

/// The scan's starting state: nothing set, no extension bag yet.
pub open spec fn stop_empty() -> StopAcc {
    StopAcc {
        stop_id: None,
        stop_code: None,
        stop_name: None,
        stop_desc: None,
        stop_lat: None,
        stop_lon: None,
        zone_id: None,
        stop_url: None,
        location_type: None,
        parent_station: None,
        stop_timezone: None,
        wheelchair_boarding: None,
        extended_fields: None,
    }
}

/// One scan step: dispatch the cell on its column name. An empty cell of a
/// known column leaves its field unset; a non-empty malformed cell is a
/// field error; a column the schema does not know goes into the extension
/// bag verbatim.
pub open spec fn stop_step(acc: StopAcc, name: Seq<char>, cell: Seq<char>) -> Result<
    StopAcc,
    ParseErrorV,
> {
    if name == "stop_id"@ {
        if cell.len() == 0 {
            Ok(acc)
        } else {
            Ok(StopAcc { stop_id: Some(cell), ..acc })
        }
    } else if name == "stop_code"@ {
        if cell.len() == 0 {
            Ok(acc)
        } else {
            Ok(StopAcc { stop_code: Some(cell), ..acc })
        }
    } else if name == "stop_name"@ {
        if cell.len() == 0 {
            Ok(acc)
        } else {
            Ok(StopAcc { stop_name: Some(cell), ..acc })
        }
    } else if name == "stop_desc"@ {
        if cell.len() == 0 {
            Ok(acc)
        } else {
            Ok(StopAcc { stop_desc: Some(cell), ..acc })
        }
    } else if name == "stop_lat"@ {
        if cell.len() == 0 {
            Ok(acc)
        } else if is_decimal_string(cell) {
            Ok(StopAcc { stop_lat: Some(cell), ..acc })
        } else {
            Err(ParseErrorV::ParseFloat(cell))
        }
    } else if name == "stop_lon"@ {
        if cell.len() == 0 {
            Ok(acc)
        } else if is_decimal_string(cell) {
            Ok(StopAcc { stop_lon: Some(cell), ..acc })
        } else {
            Err(ParseErrorV::ParseFloat(cell))
        }
    } else if name == "zone_id"@ {
        if cell.len() == 0 {
            Ok(acc)
        } else {
            Ok(StopAcc { zone_id: Some(cell), ..acc })
        }
    } else if name == "stop_url"@ {
        if cell.len() == 0 {
            Ok(acc)
        } else {
            Ok(StopAcc { stop_url: Some(cell), ..acc })
        }
    } else if name == "location_type"@ {
        if cell.len() == 0 {
            Ok(acc)
        } else if spec_location_type(cell) is Some {
            Ok(StopAcc { location_type: spec_location_type(cell), ..acc })
        } else {
            Err(ParseErrorV::ParseEnum(cell))
        }
    } else if name == "parent_station"@ {
        if cell.len() == 0 {
            Ok(acc)
        } else {
            Ok(StopAcc { parent_station: Some(cell), ..acc })
        }
    } else if name == "stop_timezone"@ {
        if cell.len() == 0 {
            Ok(acc)
        } else {
            Ok(StopAcc { stop_timezone: Some(cell), ..acc })
        }
    } else if name == "wheelchair_boarding"@ {
        if cell.len() == 0 {
            Ok(acc)
        } else if spec_wheelchair_boarding(cell) is Some {
            Ok(StopAcc { wheelchair_boarding: spec_wheelchair_boarding(cell), ..acc })
        } else {
            Err(ParseErrorV::ParseEnum(cell))
        }
    } else {
        Ok(
            StopAcc {
                extended_fields: match acc.extended_fields {
                    Some(bag) => Some(bag.push((name, cell))),
                    None => Some(seq![(name, cell)]),
                },
                ..acc
            },
        )
    }
}

/// The scan state after the first `n` header/cell pairs, or the first
/// field error among them.
pub open spec fn stop_fold(header: Seq<Seq<char>>, row: Seq<Seq<char>>, n: int) -> Result<
    StopAcc,
    ParseErrorV,
>
    decreases n,
{
    if n <= 0 {
        Ok(stop_empty())
    } else {
        match stop_fold(header, row, n - 1) {
            Ok(acc) => stop_step(acc, header[n - 1], row[n - 1]),
            Err(e) => Err(e),
        }
    }
}

/// Once the scan has failed, every longer scan reports the same error.
pub proof fn lemma_stop_fold_err(header: Seq<Seq<char>>, row: Seq<Seq<char>>, i: int, j: int)
    requires
        0 <= i <= j,
        stop_fold(header, row, i) is Err,
    ensures
        stop_fold(header, row, j) == stop_fold(header, row, i),
    decreases j - i,
{
    if i < j {
        lemma_stop_fold_err(header, row, i, j - 1);
    }
}

/// After the full row: mandatory fields must have a value; the rest take
/// their documented defaults.
pub open spec fn stop_finish(acc: StopAcc) -> Result<StopV, ParseErrorV> {
    if acc.stop_id is None {
        Err(ParseErrorV::MissingField("stop_id"@))
    } else if acc.stop_name is None {
        Err(ParseErrorV::MissingField("stop_name"@))
    } else if acc.stop_lat is None {
        Err(ParseErrorV::MissingField("stop_lat"@))
    } else if acc.stop_lon is None {
        Err(ParseErrorV::MissingField("stop_lon"@))
    } else {
        Ok(
            StopV {
                stop_id: acc.stop_id->Some_0,
                stop_code: acc.stop_code,
                stop_name: acc.stop_name->Some_0,
                stop_desc: acc.stop_desc,
                stop_lat: acc.stop_lat->Some_0,
                stop_lon: acc.stop_lon->Some_0,
                zone_id: acc.zone_id,
                stop_url: acc.stop_url,
                location_type: match acc.location_type {
                    Some(l) => l,
                    None => LocationType::Stop,
                },
                parent_station: acc.parent_station,
                stop_timezone: acc.stop_timezone,
                wheelchair_boarding: match acc.wheelchair_boarding {
                    Some(w) => w,
                    None => WheelchairBoarding::NoInformation,
                },
                extended_fields: acc.extended_fields,
            },
        )
    }
}

/// The stop record (or field error) that the header and the row decode to.
pub open spec fn spec_decode_stop(header: Seq<Seq<char>>, row: Seq<Seq<char>>) -> Result<
    StopV,
    ParseErrorV,
> {
    match stop_fold(header, row, header.len() as int) {
        Ok(acc) => stop_finish(acc),
        Err(e) => Err(e),
    }
}

/// Decode one stop row against the header, positionally zipped.
pub fn parse_row(header: &Vec<String>, row: &Vec<String>) -> (r: Result<Stop, ParseError>)
    requires
        header@.len() == row@.len(),
    ensures
        match r {
            Ok(rec) => spec_decode_stop(header.deep_view(), row.deep_view()) == Ok::<
                StopV,
                ParseErrorV,
            >(rec@),
            Err(e) => spec_decode_stop(header.deep_view(), row.deep_view()) == Err::<
                StopV,
                ParseErrorV,
            >(e@),
        },
{
    let ghost h = header.deep_view();
    let ghost rw = row.deep_view();
    let mut stop_id: Option<String> = None;
    let mut stop_code: Option<String> = None;
    let mut stop_name: Option<String> = None;
    let mut stop_desc: Option<String> = None;
    let mut stop_lat: Option<String> = None;
    let mut stop_lon: Option<String> = None;
    let mut zone_id: Option<String> = None;
    let mut stop_url: Option<String> = None;
    let mut location_type: Option<LocationType> = None;
    let mut parent_station: Option<String> = None;
    let mut stop_timezone: Option<String> = None;
    let mut wheelchair_boarding: Option<WheelchairBoarding> = None;
    let mut has_bag: bool = false;
    let mut bag: Vec<(String, String)> = Vec::new();
    let mut i: usize = 0;
    while i < header.len()
        invariant
            header@.len() == row@.len(),
            h == header.deep_view(),
            rw == row.deep_view(),
            0 <= i <= header@.len(),
            !has_bag ==> bag@.len() == 0,
            stop_fold(h, rw, i as int) == Ok::<StopAcc, ParseErrorV>(
                StopAcc {
                    stop_id: stop_id.deep_view(),
                    stop_code: stop_code.deep_view(),
                    stop_name: stop_name.deep_view(),
                    stop_desc: stop_desc.deep_view(),
                    stop_lat: stop_lat.deep_view(),
                    stop_lon: stop_lon.deep_view(),
                    zone_id: zone_id.deep_view(),
                    stop_url: stop_url.deep_view(),
                    location_type,
                    parent_station: parent_station.deep_view(),
                    stop_timezone: stop_timezone.deep_view(),
                    wheelchair_boarding,
                    extended_fields: if has_bag {
                        Some(bag.deep_view())
                    } else {
                        None
                    },
                },
            ),
        decreases header@.len() - i,
    {
        let ghost acc = StopAcc {
            stop_id: stop_id.deep_view(),
            stop_code: stop_code.deep_view(),
            stop_name: stop_name.deep_view(),
            stop_desc: stop_desc.deep_view(),
            stop_lat: stop_lat.deep_view(),
            stop_lon: stop_lon.deep_view(),
            zone_id: zone_id.deep_view(),
            stop_url: stop_url.deep_view(),
            location_type,
            parent_station: parent_station.deep_view(),
            stop_timezone: stop_timezone.deep_view(),
            wheelchair_boarding,
            extended_fields: if has_bag {
                Some(bag.deep_view())
            } else {
                None
            },
        };
        proof {
            assert(stop_fold(h, rw, i + 1) == stop_step(acc, h[i as int], rw[i as int]));
        }
        let name = &header[i];
        let cell = &row[i];
        if str_eq(name.as_str(), "stop_id") {
            if !cell.as_str().is_empty() {
                stop_id = Some(cell.clone());
            }
        } else if str_eq(name.as_str(), "stop_code") {
            if !cell.as_str().is_empty() {
                stop_code = Some(cell.clone());
            }
        } else if str_eq(name.as_str(), "stop_name") {
            if !cell.as_str().is_empty() {
                stop_name = Some(cell.clone());
            }
        } else if str_eq(name.as_str(), "stop_desc") {
            if !cell.as_str().is_empty() {
                stop_desc = Some(cell.clone());
            }
        } else if str_eq(name.as_str(), "stop_lat") {
            if !cell.as_str().is_empty() {
                match parse_float(cell.as_str()) {
                    Ok(v) => {
                        stop_lat = Some(v);
                    },
                    Err(e) => {
                        proof {
                            lemma_stop_fold_err(h, rw, i + 1, h.len() as int);
                        }
                        return Err(e);
                    },
                }
            }
        } else if str_eq(name.as_str(), "stop_lon") {
            if !cell.as_str().is_empty() {
                match parse_float(cell.as_str()) {
                    Ok(v) => {
                        stop_lon = Some(v);
                    },
                    Err(e) => {
                        proof {
                            lemma_stop_fold_err(h, rw, i + 1, h.len() as int);
                        }
                        return Err(e);
                    },
                }
            }
        } else if str_eq(name.as_str(), "zone_id") {
            if !cell.as_str().is_empty() {
                zone_id = Some(cell.clone());
            }
        } else if str_eq(name.as_str(), "stop_url") {
            if !cell.as_str().is_empty() {
                stop_url = Some(cell.clone());
            }
        } else if str_eq(name.as_str(), "location_type") {
            if !cell.as_str().is_empty() {
                match parse_location_type(cell.as_str()) {
                    Ok(v) => {
                        location_type = Some(v);
                    },
                    Err(e) => {
                        proof {
                            lemma_stop_fold_err(h, rw, i + 1, h.len() as int);
                        }
                        return Err(e);
                    },
                }
            }
        } else if str_eq(name.as_str(), "parent_station") {
            if !cell.as_str().is_empty() {
                parent_station = Some(cell.clone());
            }
        } else if str_eq(name.as_str(), "stop_timezone") {
            if !cell.as_str().is_empty() {
                stop_timezone = Some(cell.clone());
            }
        } else if str_eq(name.as_str(), "wheelchair_boarding") {
            if !cell.as_str().is_empty() {
                match parse_wheelchair_boarding(cell.as_str()) {
                    Ok(v) => {
                        wheelchair_boarding = Some(v);
                    },
                    Err(e) => {
                        proof {
                            lemma_stop_fold_err(h, rw, i + 1, h.len() as int);
                        }
                        return Err(e);
                    },
                }
            }
        } else {
            let ghost old_bag = bag.deep_view();
            bag.push((name.clone(), cell.clone()));
            has_bag = true;
            proof {
                assert(bag.deep_view() =~= old_bag.push((name@, cell@)));
                if old_bag.len() == 0 && acc.extended_fields is None {
                    assert(bag.deep_view() =~= seq![(name@, cell@)]);
                }
            }
        }
        i += 1;
    }
    let stop_id_v: String = match stop_id {
        Some(s) => s,
        None => {
            return Err(ParseError::MissingField("stop_id".to_owned()));
        },
    };
    let stop_name_v: String = match stop_name {
        Some(s) => s,
        None => {
            return Err(ParseError::MissingField("stop_name".to_owned()));
        },
    };
    let stop_lat_v: String = match stop_lat {
        Some(s) => s,
        None => {
            return Err(ParseError::MissingField("stop_lat".to_owned()));
        },
    };
    let stop_lon_v: String = match stop_lon {
        Some(s) => s,
        None => {
            return Err(ParseError::MissingField("stop_lon".to_owned()));
        },
    };
    Ok(
        Stop {
            stop_id: stop_id_v,
            stop_code,
            stop_name: stop_name_v,
            stop_desc,
            stop_lat: stop_lat_v,
            stop_lon: stop_lon_v,
            zone_id,
            stop_url,
            location_type: match location_type {
                Some(l) => l,
                None => LocationType::Stop,
            },
            parent_station,
            stop_timezone,
            wheelchair_boarding: match wheelchair_boarding {
                Some(w) => w,
                None => WheelchairBoarding::NoInformation,
            },
            extended_fields: if has_bag {
                Some(bag)
            } else {
                None
            },
        },
    )
}

impl RowDecode for Stop {
    open spec fn spec_decode(header: Seq<Seq<char>>, row: Seq<Seq<char>>) -> Result<
        StopV,
        ParseErrorV,
    > {
        spec_decode_stop(header, row)
    }

    fn decode_row(header: &Vec<String>, row: &Vec<String>) -> (r: Result<Stop, ParseError>) {
        parse_row(header, row)
    }
}

/// Whether the stop schema declares the column named `name`.
pub open spec fn known_stop_column(name: Seq<char>) -> bool {
    ||| name == "stop_id"@
    ||| name == "stop_code"@
    ||| name == "stop_name"@
    ||| name == "stop_desc"@
    ||| name == "stop_lat"@
    ||| name == "stop_lon"@
    ||| name == "zone_id"@
    ||| name == "stop_url"@
    ||| name == "location_type"@
    ||| name == "parent_station"@
    ||| name == "stop_timezone"@
    ||| name == "wheelchair_boarding"@
}

/// A column the stop schema does not declare never fails a decode, touches
/// no declared field, and is kept verbatim — name and cell exactly as
/// written — at the end of the extension bag.
pub proof fn lemma_unknown_column_preserved(acc: StopAcc, name: Seq<char>, cell: Seq<char>)
    requires
        !known_stop_column(name),
    ensures
        stop_step(acc, name, cell) == Ok::<StopAcc, ParseErrorV>(
            StopAcc {
                extended_fields: match acc.extended_fields {
                    Some(bag) => Some(bag.push((name, cell))),
                    None => Some(seq![(name, cell)]),
                },
                ..acc
            },
        ),
{
}

} // verus!
