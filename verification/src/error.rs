//! The shared error taxonomy: field-level decode failures, row-level
//! structural failures, construction failures and feed-level failures.

use vstd::prelude::*;
use vstd::string::StringExecFns;

verus! {

/// A field-level decode failure: one cell could not be converted to its
/// target type, or a mandatory field was left without a value after the
/// full row was scanned.
///
/// The first four variants carry the offending cell text; `MissingField`
/// carries the name of the mandatory field that stayed empty or absent.
#[derive(Debug, PartialEq, Clone)]
pub enum ParseError {
    ParseInt(String),
    ParseFloat(String),
    ParseTime(String),
    ParseEnum(String),
    MissingField(String),
}

/// The mathematical value of a `ParseError`.
pub enum ParseErrorV {
    ParseInt(Seq<char>),
    ParseFloat(Seq<char>),
    ParseTime(Seq<char>),
    ParseEnum(Seq<char>),
    MissingField(Seq<char>),
}

impl View for ParseError {
    type V = ParseErrorV;

    open spec fn view(&self) -> ParseErrorV {
        match self {
            ParseError::ParseInt(s) => ParseErrorV::ParseInt(s@),
            ParseError::ParseFloat(s) => ParseErrorV::ParseFloat(s@),
            ParseError::ParseTime(s) => ParseErrorV::ParseTime(s@),
            ParseError::ParseEnum(s) => ParseErrorV::ParseEnum(s@),
            ParseError::MissingField(s) => ParseErrorV::MissingField(s@),
        }
    }
}

/// What went wrong in the underlying delimited-text source for one row.
#[derive(Debug, PartialEq, Clone)]
pub enum CsvError {
    /// The row's cell count differs from the header's column count:
    /// expected count, then actual count.
    ColumnMismatch(usize, usize),
    /// The underlying reader failed to produce the row at all; carries the
    /// reader's message.
    Read(String),
}

/// The mathematical value of a `CsvError`.
pub enum CsvErrorV {
    ColumnMismatch(int, int),
    Read(Seq<char>),
}

impl View for CsvError {
    type V = CsvErrorV;

    open spec fn view(&self) -> CsvErrorV {
        match self {
            CsvError::ColumnMismatch(expected, actual) => CsvErrorV::ColumnMismatch(
                *expected as int,
                *actual as int,
            ),
            CsvError::Read(s) => CsvErrorV::Read(s@),
        }
    }
}

/// An error surfaced by a table iterator or by feed loading.
///
/// Row-local errors (`Csv`, `LineError`) carry the table's file name and
/// the 1-based line number of the offending row, counting the header row
/// as line 1; they never invalidate the stream. `CsvHeader` is a
/// construction failure: the header row was missing or empty. `Feed` is
/// fatal to loading a whole feed.
#[derive(Debug, PartialEq, Clone)]
pub enum Error {
    CsvHeader(String),
    Csv(CsvError, String, usize),
    LineError(ParseError, String, usize),
    Feed(String),
}

/// The mathematical value of an `Error`.
pub enum ErrorV {
    CsvHeader(Seq<char>),
    Csv(CsvErrorV, Seq<char>, int),
    LineError(ParseErrorV, Seq<char>, int),
    Feed(Seq<char>),
}

impl View for Error {
    type V = ErrorV;

    open spec fn view(&self) -> ErrorV {
        match self {
            Error::CsvHeader(f) => ErrorV::CsvHeader(f@),
            Error::Csv(c, f, line) => ErrorV::Csv(c@, f@, *line as int),
            Error::LineError(p, f, line) => ErrorV::LineError(p@, f@, *line as int),
            Error::Feed(m) => ErrorV::Feed(m@),
        }
    }
}

/// The character of one decimal digit value.
pub open spec fn digit_char(d: nat) -> char {
    if d == 0 {
        '0'
    } else if d == 1 {
        '1'
    } else if d == 2 {
        '2'
    } else if d == 3 {
        '3'
    } else if d == 4 {
        '4'
    } else if d == 5 {
        '5'
    } else if d == 6 {
        '6'
    } else if d == 7 {
        '7'
    } else if d == 8 {
        '8'
    } else {
        '9'
    }
}

/// The decimal writing of `n`, most significant digit first, without
/// leading zeroes (a single `0` for zero).
pub open spec fn dec_str(n: nat) -> Seq<char>
    decreases n,
{
    if n < 10 {
        seq![digit_char(n)]
    } else {
        dec_str(n / 10).push(digit_char(n % 10))
    }
}

/// One decimal digit as text.
fn digit_str(d: u64) -> (r: &'static str)
    requires
        d < 10,
    ensures
        r@ == seq![digit_char(d as nat)],
{
    proof {
        reveal_strlit("0");
        reveal_strlit("1");
        reveal_strlit("2");
        reveal_strlit("3");
        reveal_strlit("4");
        reveal_strlit("5");
        reveal_strlit("6");
        reveal_strlit("7");
        reveal_strlit("8");
        reveal_strlit("9");
    }
    if d == 0 {
        "0"
    } else if d == 1 {
        "1"
    } else if d == 2 {
        "2"
    } else if d == 3 {
        "3"
    } else if d == 4 {
        "4"
    } else if d == 5 {
        "5"
    } else if d == 6 {
        "6"
    } else if d == 7 {
        "7"
    } else if d == 8 {
        "8"
    } else {
        "9"
    }
}

/// Write `n` in decimal.
pub fn u64_to_string(n: u64) -> (r: String)
    ensures
        r@ == dec_str(n as nat),
    decreases n,
{
    if n < 10 {
        digit_str(n).to_owned()
    } else {
        let mut s = u64_to_string(n / 10);
        s.append(digit_str(n % 10));
        s
    }
}

/// The one-line rendering of a field-level failure.
pub open spec fn parse_error_text(e: ParseErrorV) -> Seq<char> {
    match e {
        ParseErrorV::ParseInt(s) => "ParseInt(\""@ + s + "\")"@,
        ParseErrorV::ParseFloat(s) => "ParseFloat(\""@ + s + "\")"@,
        ParseErrorV::ParseTime(s) => "ParseTime(\""@ + s + "\")"@,
        ParseErrorV::ParseEnum(s) => "ParseEnum(\""@ + s + "\")"@,
        ParseErrorV::MissingField(s) => "MissingField(\""@ + s + "\")"@,
    }
}

/// The one-line rendering of an `Error`.
pub open spec fn message_of(e: ErrorV) -> Seq<char> {
    match e {
        ErrorV::CsvHeader(f) => "GtfsError: empty or missing header ("@ + f + ")"@,
        ErrorV::Csv(CsvErrorV::ColumnMismatch(expected, actual), f, l) => 
            "GtfsError: Current column count mismatch with previous rows ("@ + f + ":"@ + dec_str(
            l as nat,
        ) + ") - Some(ColumnMismatch("@ + dec_str(expected as nat) + ", "@ + dec_str(actual as nat)
            + "))"@,
        ErrorV::Csv(CsvErrorV::Read(m), f, l) => "GtfsError: error reading line ("@ + f + ":"@
            + dec_str(l as nat) + ") - Some(Read(\""@ + m + "\"))"@,
        ErrorV::LineError(pe, f, l) => "GtfsError: error reading line ("@ + f + ":"@ + dec_str(
            l as nat,
        ) + ") - Some("@ + parse_error_text(pe) + ")"@,
        ErrorV::Feed(m) => "GtfsError: error loading feed - "@ + m,
    }
}

impl ParseError {
    /// Render the failure as one line of text.
    pub fn message(&self) -> (r: String)
        ensures
            r@ == parse_error_text(self@),
    {
        let mut s: String;
        match self {
            ParseError::ParseInt(c) => {
                s = "ParseInt(\"".to_owned();
                s.append(c.as_str());
            },
            ParseError::ParseFloat(c) => {
                s = "ParseFloat(\"".to_owned();
                s.append(c.as_str());
            },
            ParseError::ParseTime(c) => {
                s = "ParseTime(\"".to_owned();
                s.append(c.as_str());
            },
            ParseError::ParseEnum(c) => {
                s = "ParseEnum(\"".to_owned();
                s.append(c.as_str());
            },
            ParseError::MissingField(c) => {
                s = "MissingField(\"".to_owned();
                s.append(c.as_str());
            },
        }
        s.append("\")");
        s
    }
}

impl Error {
    /// Render the error as one line of text, with the table's file name
    /// and, for row-local errors, the 1-based line number.
    pub fn message(&self) -> (r: String)
        ensures
            r@ == message_of(self@),
    {
        match self {
            Error::CsvHeader(f) => {
                let mut s = "GtfsError: empty or missing header (".to_owned();
                s.append(f.as_str());
                s.append(")");
                s
            },
            Error::Csv(CsvError::ColumnMismatch(expected, actual), f, l) => {
                let mut s = "GtfsError: Current column count mismatch with previous rows (".to_owned();
                s.append(f.as_str());
                s.append(":");
                s.append(u64_to_string(*l as u64).as_str());
                s.append(") - Some(ColumnMismatch(");
                s.append(u64_to_string(*expected as u64).as_str());
                s.append(", ");
                s.append(u64_to_string(*actual as u64).as_str());
                s.append("))");
                s
            },
            Error::Csv(CsvError::Read(m), f, l) => {
                let mut s = "GtfsError: error reading line (".to_owned();
                s.append(f.as_str());
                s.append(":");
                s.append(u64_to_string(*l as u64).as_str());
                s.append(") - Some(Read(\"");
                s.append(m.as_str());
                s.append("\"))");
                s
            },
            Error::LineError(pe, f, l) => {
                let mut s = "GtfsError: error reading line (".to_owned();
                s.append(f.as_str());
                s.append(":");
                s.append(u64_to_string(*l as u64).as_str());
                s.append(") - Some(");
                s.append(pe.message().as_str());
                s.append(")");
                s
            },
            Error::Feed(m) => {
                let mut s = "GtfsError: error loading feed - ".to_owned();
                s.append(m.as_str());
                s
            },
        }
    }
}

} // verus!
