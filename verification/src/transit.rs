//! Core transit record types shared by every table parser.
//!
//! Numeric fields that the tables write as decimal fractions (latitudes,
//! longitudes, distances, prices) are kept in their validated textual form:
//! the core never computes with them, it only checks that they are
//! well-formed decimal numbers and passes them through.

use vstd::prelude::*;

verus! {

/// Relies on `chrono::TimeDelta` (also exported as `chrono::Duration`):
/// declared here so that record fields and signatures may carry it.
#[verifier::external_type_specification]
#[verifier::external_body]
pub struct ExTimeDelta(chrono::TimeDelta);

/// Relies on `chrono::NaiveDate`: declared here so that calendar records
/// may carry it.
#[verifier::external_type_specification]
#[verifier::external_body]
pub struct ExNaiveDate(chrono::NaiveDate);

/// Relies on `chrono::TimeDelta`'s derived `Clone`: the type is `Copy`, so
/// cloning returns the same value.
pub assume_specification[ <chrono::TimeDelta as Clone>::clone ](d: &chrono::TimeDelta) -> (r:
    chrono::TimeDelta)
    ensures
        r == *d,
;

/// Relies on `chrono::NaiveDate`'s derived `Clone`: the type is `Copy`, so
/// cloning returns the same value.
pub assume_specification[ <chrono::NaiveDate as Clone>::clone ](d: &chrono::NaiveDate) -> (r:
    chrono::NaiveDate)
    ensures
        r == *d,
;

/// The whole number of seconds that a `chrono::TimeDelta` spans; the value
/// is a function of the delta alone.
pub uninterp spec fn duration_secs(d: chrono::TimeDelta) -> int;

/// The (year, month, day) triple that a `chrono::NaiveDate` denotes; the
/// triple is a function of the date alone.
pub uninterp spec fn date_ymd(d: chrono::NaiveDate) -> (int, int, int);

/// Relies on `chrono::TimeDelta::seconds`: builds a delta of exactly the
/// given number of whole seconds; it panics only beyond `i64::MAX / 1000`
/// seconds, which the precondition rules out.
#[verifier::external_body]
fn duration_from_seconds(secs: u64) -> (r: chrono::TimeDelta)
    requires
        secs <= 9_223_372_036_854_775,
    ensures
        duration_secs(r) == secs as int,
{
    chrono::TimeDelta::seconds(secs as i64)
}

/// Relies on `chrono::NaiveDate::from_ymd_opt`: returns the calendar date
/// with the given year, month and day, or `None` when no such date exists.
#[verifier::external_body]
pub fn date_from_ymd(year: i32, month: u32, day: u32) -> (r: Option<chrono::NaiveDate>)
    ensures
        r matches Some(d) ==> date_ymd(d) == (year as int, month as int, day as int),
{
    chrono::NaiveDate::from_ymd_opt(year, month, day)
}

/// Agency
#[derive(Debug, Clone)]
pub struct Agency {
    pub agency_id: Option<String>,
    pub agency_name: String,
    pub agency_url: String,
    pub agency_timezone: String,
    pub agency_lang: Option<String>,
    pub agency_phone: Option<String>,
    pub agency_fare_url: Option<String>,
    pub agency_email: Option<String>,
}

/// Calendar
#[derive(Debug, Clone)]
pub struct Calendar {
    pub service_id: String,
    pub monday: bool,
    pub tuesday: bool,
    pub wednesday: bool,
    pub thursday: bool,
    pub friday: bool,
    pub saturday: bool,
    pub sunday: bool,
    pub start_date: chrono::NaiveDate,
    pub end_date: chrono::NaiveDate,
}

/// ExceptionType for `CalendarDate`
#[derive(Debug, PartialEq, Eq, Structural, Clone, Copy)]
pub enum ExceptionType {
    ServiceAdded,
    ServiceRemoved,
}

/// CalendarDate
#[derive(Debug, Clone)]
pub struct CalendarDate {
    pub service_id: String,
    pub date: chrono::NaiveDate,
    pub exception_type: ExceptionType,
}

/// PaymentMethod for `FareAttribute`
#[derive(Debug, PartialEq, Eq, Structural, Clone, Copy)]
pub enum PaymentMethod {
    PaidOnboard,
    PaidBefore,
}

/// Transfers for `FareAttribute`: how many transfers the fare permits.
#[derive(Debug, PartialEq, Eq, Structural, Clone, Copy)]
pub enum Transfers {
    NoTransfers,
    TransferOnce,
    TransferTwice,
    Unlimited,
}

/// FareAttribute
///
/// `price` keeps the validated decimal text of the fare's price.
#[derive(Debug, Clone)]
pub struct FareAttribute {
    pub fare_id: String,
    pub price: String,
    pub currency_type: String,
    pub payment_method: PaymentMethod,
    pub transfers: Transfers,
    pub transfer_duration: chrono::TimeDelta,
}

/// FareRule
/// origin, destination, and contains reference a zone_id from stops
#[derive(Debug, Clone)]
pub struct FareRule {
    pub fare_id: String,
    pub route_id: Option<String>,
    pub origin_id: Option<String>,
    pub destination_id: Option<String>,
    pub contains_id: Option<String>,
}

/// A time-of-day offset measured from midnight of the service day.
///
/// Hours are deliberately unbounded above 23: a trip scheduled past
/// midnight belongs to the previous service day and is written with hour
/// values of 24 and above (for example `25:30:00`).
#[derive(Debug, PartialEq, Eq, Structural, Clone, Copy)]
pub struct TimeOffset {
    pub hours: u32,
    pub minutes: u32,
    pub seconds: u32,
}

impl TimeOffset {
    /// The offset as a whole number of seconds since midnight of the
    /// service day.
    pub open spec fn spec_total_seconds(self) -> int {
        self.hours * 3600 + self.minutes * 60 + self.seconds
    }

    pub fn from_hms(hours: u32, minutes: u32, seconds: u32) -> (r: TimeOffset)
        ensures
            r == (TimeOffset { hours, minutes, seconds }),
    {
        TimeOffset { hours, minutes, seconds }
    }

    /// The offset in seconds, as an executable value.
    pub fn total_seconds(&self) -> (r: u64)
        ensures
            r == self.spec_total_seconds(),
    {
        (self.hours as u64) * 3600 + (self.minutes as u64) * 60 + (self.seconds as u64)
    }

    /// The offset as a `chrono` duration of exactly the same number of
    /// seconds.
    pub fn duration(&self) -> (r: chrono::TimeDelta)
        ensures
            duration_secs(r) == self.spec_total_seconds(),
    {
        duration_from_seconds(self.total_seconds())
    }
}

/// exact_times for Frequency
#[derive(Debug, PartialEq, Eq, Structural, Clone, Copy)]
pub enum FrequencyAccuracy {
    Approximate,
    Exact,
}

/// Frequency
#[derive(Debug, Clone)]
pub struct Frequency {
    pub trip_id: String,
    pub start_time: TimeOffset,
    pub end_time: TimeOffset,
    pub headway_secs: u64,
    pub exact_times: FrequencyAccuracy,
}

/// RouteType
#[derive(Debug, PartialEq, Eq, Structural, Clone, Copy)]
pub enum RouteType {
    LightRail,
    Subway,
    Rail,
    Bus,
    Ferry,
    CableCar,
    Gondola,
    Funicular,
}

/// Route
#[derive(Debug, Clone)]
pub struct Route {
    pub route_id: String,
    pub agency_id: Option<String>,
    pub route_short_name: String,
    pub route_long_name: String,
    pub route_desc: Option<String>,
    pub route_type: RouteType,
    pub route_url: Option<String>,
    pub route_color: Option<String>,
    pub route_text_color: Option<String>,
}

/// Shape
///
/// The latitude, longitude and distance fields keep the validated decimal
/// text of their cells.
#[derive(Debug, Clone)]
pub struct Shape {
    pub shape_id: String,
    pub shape_pt_lat: String,
    pub shape_pt_lon: String,
    pub shape_pt_sequence: u64,
    pub shape_dist_traveled: String,
}

/// Location Type
#[derive(Debug, PartialEq, Eq, Structural, Clone, Copy)]
pub enum LocationType {
    Stop,
    Station,
}

/// Wheelchair Boarding
#[derive(Debug, PartialEq, Eq, Structural, Clone, Copy)]
pub enum WheelchairBoarding {
    NoInformation,
    SomeAccessibility,
    NoAccessibility,
}

/// Stop
///
/// `stop_lat` and `stop_lon` keep the validated decimal text of the
/// coordinates. Columns that the stop schema does not declare are kept
/// verbatim in `extended_fields`, in header order; header names are unique
/// by format contract.
#[derive(Debug, PartialEq, Clone)]
pub struct Stop {
    pub stop_id: String,
    pub stop_code: Option<String>,
    pub stop_name: String,
    pub stop_desc: Option<String>,
    pub stop_lat: String,
    pub stop_lon: String,
    pub zone_id: Option<String>,
    pub stop_url: Option<String>,
    pub location_type: LocationType,
    pub parent_station: Option<String>,
    pub stop_timezone: Option<String>,
    pub wheelchair_boarding: WheelchairBoarding,
    pub extended_fields: Option<Vec<(String, String)>>,
}

/// The mathematical value of a `Stop`.
pub struct StopV {
    pub stop_id: Seq<char>,
    pub stop_code: Option<Seq<char>>,
    pub stop_name: Seq<char>,
    pub stop_desc: Option<Seq<char>>,
    pub stop_lat: Seq<char>,
    pub stop_lon: Seq<char>,
    pub zone_id: Option<Seq<char>>,
    pub stop_url: Option<Seq<char>>,
    pub location_type: LocationType,
    pub parent_station: Option<Seq<char>>,
    pub stop_timezone: Option<Seq<char>>,
    pub wheelchair_boarding: WheelchairBoarding,
    pub extended_fields: Option<Seq<(Seq<char>, Seq<char>)>>,
}

impl View for Stop {
    type V = StopV;

    open spec fn view(&self) -> StopV {
        StopV {
            stop_id: self.stop_id@,
            stop_code: self.stop_code.deep_view(),
            stop_name: self.stop_name@,
            stop_desc: self.stop_desc.deep_view(),
            stop_lat: self.stop_lat@,
            stop_lon: self.stop_lon@,
            zone_id: self.zone_id.deep_view(),
            stop_url: self.stop_url.deep_view(),
            location_type: self.location_type,
            parent_station: self.parent_station.deep_view(),
            stop_timezone: self.stop_timezone.deep_view(),
            wheelchair_boarding: self.wheelchair_boarding,
            extended_fields: self.extended_fields.deep_view(),
        }
    }
}

/// PickupType for `StopTime`
#[derive(Debug, PartialEq, Eq, Structural, Clone, Copy)]
pub enum PickupType {
    RegularlyScheduled,
    NoPickupAvailable,
    MustPhoneAgency,
    MustCoordinateWithDriver,
}

/// DropoffType for `StopTime`
#[derive(Debug, PartialEq, Eq, Structural, Clone, Copy)]
pub enum DropoffType {
    RegularlyScheduled,
    NoDropoffAvailable,
    MustPhoneAgency,
    MustCoordinateWithDriver,
}

/// Timepoint for `StopTime`
#[derive(Debug, PartialEq, Eq, Structural, Clone, Copy)]
pub enum Timepoint {
    Approximate,
    Exact,
}

/// StopTime: one visit of one trip at one stop.
///
/// `shape_dist_traveled` keeps the validated decimal text of the distance
/// travelled along the trip's path, when the column carries a value.
#[derive(Debug, PartialEq)]
pub struct StopTime {
    pub trip_id: String,
    pub arrival_time: TimeOffset,
    pub departure_time: TimeOffset,
    pub stop_id: String,
    pub stop_sequence: u64,
    pub stop_headsign: Option<String>,
    pub pickup_type: PickupType,
    pub dropoff_type: DropoffType,
    pub shape_dist_traveled: Option<String>,
    pub timepoint: Timepoint,
}

/// The mathematical value of a `StopTime`.
pub struct StopTimeV {
    pub trip_id: Seq<char>,
    pub arrival_time: TimeOffset,
    pub departure_time: TimeOffset,
    pub stop_id: Seq<char>,
    pub stop_sequence: u64,
    pub stop_headsign: Option<Seq<char>>,
    pub pickup_type: PickupType,
    pub dropoff_type: DropoffType,
    pub shape_dist_traveled: Option<Seq<char>>,
    pub timepoint: Timepoint,
}

impl Clone for StopTime {
    /// A clone carries exactly the same values.
    fn clone(&self) -> (r: StopTime)
        ensures
            r == *self,
    {
        StopTime {
            trip_id: self.trip_id.clone(),
            arrival_time: self.arrival_time,
            departure_time: self.departure_time,
            stop_id: self.stop_id.clone(),
            stop_sequence: self.stop_sequence,
            stop_headsign: match &self.stop_headsign {
                Some(s) => Some(s.clone()),
                None => None,
            },
            pickup_type: self.pickup_type,
            dropoff_type: self.dropoff_type,
            shape_dist_traveled: match &self.shape_dist_traveled {
                Some(s) => Some(s.clone()),
                None => None,
            },
            timepoint: self.timepoint,
        }
    }
}

impl View for StopTime {
    type V = StopTimeV;

    open spec fn view(&self) -> StopTimeV {
        StopTimeV {
            trip_id: self.trip_id@,
            arrival_time: self.arrival_time,
            departure_time: self.departure_time,
            stop_id: self.stop_id@,
            stop_sequence: self.stop_sequence,
            stop_headsign: self.stop_headsign.deep_view(),
            pickup_type: self.pickup_type,
            dropoff_type: self.dropoff_type,
            shape_dist_traveled: self.shape_dist_traveled.deep_view(),
            timepoint: self.timepoint,
        }
    }
}

/// Wheelchair Accessible
#[derive(Debug, PartialEq, Eq, Structural, Clone, Copy)]
pub enum WheelchairAccessible {
    NoInformation,
    SomeAccessibility,
    NoAccessibility,
}

/// Bikes Allowed
#[derive(Debug, PartialEq, Eq, Structural, Clone, Copy)]
pub enum BikesAllowed {
    NoInformation,
    SomeBikes,
    NoBikes,
}

/// Trip
#[derive(Debug, Clone)]
pub struct Trip {
    pub route_id: String,
    pub service_id: String,
    pub trip_id: String,
    pub trip_headsign: Option<String>,
    pub trip_short_name: Option<String>,
    pub direction_id: Option<String>,
    pub block_id: Option<String>,
    pub shape_id: Option<String>,
    pub wheelchair_accessible: WheelchairAccessible,
    pub bikes_allowed: BikesAllowed,
}

} // verus!
