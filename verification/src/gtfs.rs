//! The streaming record iterator: wraps a raw delimited-text reader, owns
//! the header row, and decodes exactly one row per pull, translating a
//! column-count mismatch or a field-level failure into a positioned,
//! row-local error.
//!
//! The underlying delimited-text reading is the csv crate's; everything it
//! hands back flows through [`process_row`], a verified function with an
//! exact contract, so one pull yields exactly one outcome per source row
//! and a malformed row never disturbs the rows after it.

use core::marker::PhantomData;
use vstd::prelude::*;

use crate::error::{CsvError, CsvErrorV, Error, ErrorV, ParseError, ParseErrorV};

verus! {

/// An entity type whose records are decoded from one table row, driven by
/// the column headers: each cell is dispatched on its column name, unknown
/// columns never fail, and mandatory fields left without a value are
/// reported after the full row is processed.
pub trait RowDecode: View + Sized {
    /// The decoded record (or field error) as a function of the header and
    /// the row, positionally zipped.
    spec fn spec_decode(header: Seq<Seq<char>>, row: Seq<Seq<char>>) -> Result<
        Self::V,
        ParseErrorV,
    >;

    /// Decode one row against the header.
    fn decode_row(header: &Vec<String>, row: &Vec<String>) -> (r: Result<Self, ParseError>)
        requires
            header@.len() == row@.len(),
        ensures
            match r {
                Ok(rec) => Self::spec_decode(header.deep_view(), row.deep_view()) == Ok::<
                    Self::V,
                    ParseErrorV,
                >(rec@),
                Err(e) => Self::spec_decode(header.deep_view(), row.deep_view()) == Err::<
                    Self::V,
                    ParseErrorV,
                >(e@),
            },
    ;
}

/// Relies on `csv::Reader`: declared here so that the iterator may hold
/// the underlying delimited-text reader.
#[verifier::external_type_specification]
#[verifier::external_body]
#[verifier::reject_recursive_types(R)]
pub struct ExCsvReader<R>(csv::Reader<R>);

/// Relies on `csv::Reader::headers`: the first row of the source, as owned
/// strings (an empty record when the source is empty), or the reader's
/// message when that row cannot be read.
#[verifier::external_body]
fn read_header<R: std::io::Read>(reader: &mut csv::Reader<R>) -> (r: Result<Vec<String>, String>) {
    match reader.headers() {
        Ok(h) => Ok(h.iter().map(|s| s.to_string()).collect()),
        Err(e) => Err(format!("{}", e)),
    }
}

/// Relies on `csv::Reader::read_record`: the next data row as owned
/// strings, `None` at end of input, or the reader's message when the row
/// cannot be read.
#[verifier::external_body]
fn next_raw_row<R: std::io::Read>(reader: &mut csv::Reader<R>) -> (r: Option<
    Result<Vec<String>, String>,
>) {
    let mut record = csv::StringRecord::new();
    match reader.read_record(&mut record) {
        Ok(true) => Some(Ok(record.iter().map(|s| s.to_string()).collect())),
        Ok(false) => None,
        Err(e) => Some(Err(format!("{}", e))),
    }
}

/// The outcome that one raw row decodes to: a structural error when its
/// cell count differs from the header's column count, otherwise the row
/// decoder's record or its field error, wrapped with the table's file name
/// and the row's 1-based line number.
pub open spec fn spec_outcome<T: RowDecode>(
    header: Seq<Seq<char>>,
    row: Seq<Seq<char>>,
    filename: Seq<char>,
    line: int,
) -> Result<T::V, ErrorV> {
    if row.len() != header.len() {
        Err(
            ErrorV::Csv(
                CsvErrorV::ColumnMismatch(header.len() as int, row.len() as int),
                filename,
                line,
            ),
        )
    } else {
        match T::spec_decode(header, row) {
            Ok(v) => Ok(v),
            Err(pe) => Err(ErrorV::LineError(pe, filename, line)),
        }
    }
}

/// The mathematical value of one decode outcome.
pub open spec fn outcome_view<T: RowDecode>(r: Result<T, Error>) -> Result<T::V, ErrorV> {
    match r {
        Ok(rec) => Ok(rec@),
        Err(e) => Err(e@),
    }
}

/// Decode one raw row at the given position: exactly
/// [`spec_outcome`] of the header, the row, the file name and the line.
pub fn process_row<T: RowDecode>(
    header: &Vec<String>,
    row: &Vec<String>,
    filename: &String,
    line: usize,
) -> (r: Result<T, Error>)
    ensures
        outcome_view::<T>(r) == spec_outcome::<T>(
            header.deep_view(),
            row.deep_view(),
            filename@,
            line as int,
        ),
{
    if row.len() != header.len() {
        return Err(
            Error::Csv(
                CsvError::ColumnMismatch(header.len(), row.len()),
                filename.clone(),
                line,
            ),
        );
    }
    match T::decode_row(header, row) {
        Ok(rec) => Ok(rec),
        Err(pe) => Err(Error::LineError(pe, filename.clone(), line)),
    }
}

/// Decode a whole in-memory table: one outcome per data row, each the
/// [`spec_outcome`] of its own row alone, positioned at its 1-based line
/// number counting the header row as line 1.
pub fn decode_table<T: RowDecode>(
    header: &Vec<String>,
    rows: &Vec<Vec<String>>,
    filename: &String,
) -> (out: Vec<Result<T, Error>>)
    requires
        rows@.len() + 2 <= usize::MAX,
    ensures
        out@.len() == rows@.len(),
        forall|i: int|
            0 <= i < rows@.len() ==> #[trigger] outcome_view::<T>(out@[i]) == spec_outcome::<T>(
                header.deep_view(),
                rows@[i].deep_view(),
                filename@,
                i + 2,
            ),
{
    let mut out: Vec<Result<T, Error>> = Vec::new();
    let mut i: usize = 0;
    while i < rows.len()
        invariant
            rows@.len() + 2 <= usize::MAX,
            0 <= i <= rows@.len(),
            out@.len() == i,
            forall|k: int|
                0 <= k < i ==> #[trigger] outcome_view::<T>(out@[k]) == spec_outcome::<T>(
                    header.deep_view(),
                    rows@[k].deep_view(),
                    filename@,
                    k + 2,
                ),
        decreases rows@.len() - i,
    {
        let r = process_row::<T>(header, &rows[i], filename, i + 2);
        out.push(r);
        i += 1;
    }
    out
}

/// In a well-formed table — every row with the header's cell count and
/// every row decoding to a record — every outcome is a record: the number
/// of yielded records equals the number of data rows, and the only line
/// numbers ever reported in errors are 1-based, counting the header as
/// line 1 and the first data row as line 2, as `spec_outcome`'s position
/// argument shows.
pub proof fn lemma_well_formed_table_decodes<T: RowDecode>(
    header: Seq<Seq<char>>,
    rows: Seq<Seq<Seq<char>>>,
    filename: Seq<char>,
)
    requires
        forall|i: int|
            0 <= i < rows.len() ==> (#[trigger] rows[i]).len() == header.len()
                && T::spec_decode(header, rows[i]) is Ok,
    ensures
        forall|i: int|
            0 <= i < rows.len() ==> #[trigger] spec_outcome::<T>(header, rows[i], filename, i + 2)
                == Result::<T::V, ErrorV>::Ok(T::spec_decode(header, rows[i])->Ok_0),
{
}

/// The streaming record iterator over one table.
///
/// It owns the raw-text cursor and the header row; each pull advances the
/// 1-based line counter (the header is line 1, the first data row line 2)
/// and yields exactly one outcome for the next source row: the decoded
/// record, or a positioned row-local error. End of input yields nothing.
/// The sequence is forward-only and non-restartable: one construction is
/// one full pass.
#[verifier::reject_recursive_types(R)]
pub struct GTFSIterator<R, T> {
    reader: csv::Reader<R>,
    filename: String,
    header: Vec<String>,
    line: usize,
    marker: PhantomData<T>,
}

impl<R, T: RowDecode> GTFSIterator<R, T> {
    /// The captured header row.
    pub closed spec fn spec_header(&self) -> Seq<Seq<char>> {
        self.header.deep_view()
    }

    /// The table's file name, carried into every error.
    pub closed spec fn spec_filename(&self) -> Seq<char> {
        self.filename@
    }

    /// The 1-based line number of the most recently read row; 1 before the
    /// first pull, since line 1 is the header.
    pub closed spec fn spec_line(&self) -> int {
        self.line as int
    }

    /// Wrap an already-read header: refused, before any row is read, when
    /// the header is empty; this is the construction's only eager check.
    pub fn with_header(reader: csv::Reader<R>, filename: &str, header: Vec<String>) -> (r: Result<
        GTFSIterator<R, T>,
        Error,
    >)
        ensures
            match r {
                Ok(it) => header@.len() > 0 && it.spec_header() == header.deep_view()
                    && it.spec_filename() == filename@ && it.spec_line() == 1,
                Err(e) => header@.len() == 0 && e@ == ErrorV::CsvHeader(filename@),
            },
    {
        if header.len() == 0 {
            Err(Error::CsvHeader(filename.to_owned()))
        } else {
            Ok(
                GTFSIterator {
                    reader,
                    filename: filename.to_owned(),
                    header,
                    line: 1,
                    marker: PhantomData,
                },
            )
        }
    }

    /// Construct over a reader: read the header row, and refuse an empty
    /// one before any data row is read.
    pub fn new(reader: csv::Reader<R>, filename: &str) -> (r: Result<GTFSIterator<R, T>, Error>)
        where R: std::io::Read,
        ensures
            match r {
                Ok(it) => it.spec_header().len() > 0 && it.spec_filename() == filename@
                    && it.spec_line() == 1,
                Err(e) => (e@ matches ErrorV::CsvHeader(f) && f == filename@) || (e@
                    matches ErrorV::Csv(c, f, l) && c matches CsvErrorV::Read(_) && f == filename@
                    && l == 1),
            },
    {
        let mut reader = reader;
        match read_header(&mut reader) {
            Ok(header) => Self::with_header(reader, filename, header),
            Err(msg) => Err(Error::Csv(CsvError::Read(msg), filename.to_owned(), 1)),
        }
    }

    /// What one yielded outcome may be: the decode of some raw row at the
    /// given position, or a positioned read error with some message.
    pub open spec fn pull_outcome(
        resv: Result<T::V, ErrorV>,
        header: Seq<Seq<char>>,
        filename: Seq<char>,
        line: int,
    ) -> bool {
        (exists|raw: Seq<Seq<char>>| resv == spec_outcome::<T>(header, raw, filename, line))
            || (exists|msg: Seq<char>|
            resv == Err::<T::V, ErrorV>(ErrorV::Csv(CsvErrorV::Read(msg), filename, line)))
    }

    /// Pull the next outcome: the line counter advances by one, the header
    /// and file name never change, and whatever raw row the source hands
    /// back decodes to exactly its [`spec_outcome`] at the new line; a row
    /// the source itself could not read surfaces as a positioned read
    /// error. `None` means the input is exhausted.
    pub fn next(&mut self) -> (r: Option<Result<T, Error>>)
        where R: std::io::Read,
        ensures
            final(self).spec_line() == if old(self).spec_line() < usize::MAX {
                old(self).spec_line() + 1
            } else {
                old(self).spec_line()
            },
            final(self).spec_header() == old(self).spec_header(),
            final(self).spec_filename() == old(self).spec_filename(),
            match r {
                None => true,
                Some(res) => Self::pull_outcome(
                    outcome_view::<T>(res),
                    old(self).spec_header(),
                    old(self).spec_filename(),
                    final(self).spec_line(),
                ),
            },
    {
        if self.line < usize::MAX {
            self.line = self.line + 1;
        }
        match next_raw_row(&mut self.reader) {
            None => None,
            Some(Ok(raw)) => {
                let res = process_row::<T>(&self.header, &raw, &self.filename, self.line);
                proof {
                    assert(outcome_view::<T>(res) == spec_outcome::<T>(
                        self.spec_header(),
                        raw.deep_view(),
                        self.spec_filename(),
                        self.spec_line(),
                    ));
                    assert(Self::pull_outcome(
                        outcome_view::<T>(res),
                        self.spec_header(),
                        self.spec_filename(),
                        self.spec_line(),
                    ));
                }
                Some(res)
            },
            Some(Err(msg)) => {
                let ghost msgv = msg@;
                let e = Error::Csv(CsvError::Read(msg), self.filename.clone(), self.line);
                proof {
                    assert(outcome_view::<T>(Err::<T, Error>(e)) == Err::<T::V, ErrorV>(
                        ErrorV::Csv(CsvErrorV::Read(msgv), self.spec_filename(), self.spec_line()),
                    ));
                    assert(Self::pull_outcome(
                        outcome_view::<T>(Err::<T, Error>(e)),
                        self.spec_header(),
                        self.spec_filename(),
                        self.spec_line(),
                    ));
                }
                Some(Err(e))
            },
        }
    }
}

} // verus!
