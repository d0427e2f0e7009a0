//! Transit feed data structures and parsers: strongly-typed records for
//! agencies, stops, routes, trips and stop times, a streaming header-driven
//! row decoder for delimited table files, and an assembler that groups
//! per-stop visit records into ordered runs per trip.

pub mod error;
pub mod feed;
pub mod gtfs;
pub mod parse;
pub mod run;
pub mod stop_times;
pub mod stops;
pub mod transit;

pub use error::{CsvError, Error, ParseError};
pub use feed::{FeedProvider, LocalFeedProvider};
pub use gtfs::{decode_table, process_row, GTFSIterator, RowDecode};
pub use run::{Run, Runs};
pub use transit::{
    Agency, BikesAllowed, Calendar, CalendarDate, DropoffType, ExceptionType, FareAttribute,
    FareRule, Frequency, FrequencyAccuracy, LocationType, PaymentMethod, PickupType, Route,
    RouteType, Shape, Stop, StopTime, TimeOffset, Timepoint, Transfers, Trip,
    WheelchairAccessible, WheelchairBoarding,
};
