//! Reading the delimited input table and parsing its rows into records.
//!
//! The comma-separated framing (quoting, the header row, equal row
//! widths) is done by the `csv` crate behind a trusted wrapper; every
//! step after it — locating the required columns by their exact header
//! text, parsing count cells, validating coordinate cells — is verified.

use vstd::prelude::*;
use vstd::string::StringExecFns;

use crate::float_text::float_text_ok;
use crate::parse_int::int32_of_text;
use crate::parse_int::parse_count;
use crate::record::RawRecord;
use crate::record::RecordView;

verus! {

/// Why a load fails: the input is not well-formed comma-separated text
/// (not UTF-8, or a row wider or narrower than the header row); a
/// required column is absent from the header row; or a latitude or
/// longitude cell does not parse as a floating-point number.
#[derive(Clone, Copy, Debug, PartialEq, Eq, Structural)]
pub enum LoadError {
    MalformedCsv,
    MissingColumn,
    BadCoordinate,
}

impl LoadError {
    /// A short description of the failure, for reporting.
    pub fn describe(&self) -> (r: &'static str)
        ensures
            self is MalformedCsv ==> r@ == "malformed csv input"@,
            self is MissingColumn ==> r@ == "a required column is missing from the header row"@,
            self is BadCoordinate ==> r@ == "a latitude or longitude cell is not a number"@,
    {
        match self {
            LoadError::MalformedCsv => "malformed csv input",
            LoadError::MissingColumn => "a required column is missing from the header row",
            LoadError::BadCoordinate => "a latitude or longitude cell is not a number",
        }
    }
}

/// The parsed table a byte sequence denotes, if it is well-formed
/// comma-separated text: the header row first, then one row of cells per
/// record, every row as wide as the header.
pub uninterp spec fn csv_table(bytes: Seq<u8>) -> Option<Seq<Seq<Seq<char>>>>;

/// Relies on `csv::Reader::from_reader` and its `headers` and `records`
/// methods, with the default configuration: comma-separated, the first
/// row a header, a record whose width differs from the header's an
/// error. The parse is a function of the bytes alone.
#[verifier::external_body]
pub(crate) fn read_csv_table(data: &[u8]) -> (r: Option<(Vec<String>, Vec<Vec<String>>)>)
    ensures
        r is Some <==> csv_table(data@) is Some,
        r matches Some(p) ==> {
            &&& csv_table(data@) matches Some(t)
            &&& t.len() == p.1@.len() + 1
            &&& t[0] == p.0.deep_view()
            &&& t.drop_first() == p.1.deep_view()
            &&& forall|i: int| 0 <= i < p.1@.len() ==> p.1@[i]@.len() == p.0@.len()
        },
{
    let mut rdr = csv::Reader::from_reader(data);
    let headers: Vec<String> = match rdr.headers() {
        Ok(h) => h.iter().map(|f| f.to_string()).collect(),
        Err(_) => return None,
    };
    let mut rows: Vec<Vec<String>> = Vec::new();
    for rec in rdr.records() {
        match rec {
            Ok(r) => rows.push(r.iter().map(|f| f.to_string()).collect()),
            Err(_) => return None,
        }
    }
    Some((headers, rows))
}

/// The index of the first header cell with exactly the given text.
pub open spec fn col_of(hs: Seq<Seq<char>>, name: Seq<char>) -> Option<int>
    decreases hs.len(),
{
    if hs.len() == 0 {
        None
    } else if hs[0] == name {
        Some(0int)
    } else {
        match col_of(hs.drop_first(), name) {
            Some(i) => Some(i + 1),
            None => None,
        }
    }
}

/// `col_of` names the first matching header cell, and `None` means no
/// cell matches.
pub proof fn lemma_col_of_first_match(hs: Seq<Seq<char>>, name: Seq<char>)
    ensures
        match col_of(hs, name) {
            Some(i) => 0 <= i < hs.len() && hs[i] == name && forall|j: int|
                0 <= j < i ==> hs[j] != name,
            None => forall|j: int| 0 <= j < hs.len() ==> hs[j] != name,
        },
    decreases hs.len(),
{
    if hs.len() > 0 && hs[0] != name {
        lemma_col_of_first_match(hs.drop_first(), name);
        match col_of(hs.drop_first(), name) {
            Some(i) => {
                assert(hs.drop_first()[i] == hs[i + 1]);
                assert forall|j: int| 0 <= j < i + 1 implies hs[j] != name by {
                    if j > 0 {
                        assert(hs.drop_first()[j - 1] == hs[j]);
                    }
                }
            },
            None => {
                assert forall|j: int| 0 <= j < hs.len() implies hs[j] != name by {
                    if j > 0 {
                        assert(hs.drop_first()[j - 1] == hs[j]);
                    }
                }
            },
        }
    }
}

/// Whether the header row holds every required column.
pub open spec fn headers_ok(hs: Seq<Seq<char>>) -> bool {
    &&& col_of(hs, "YEAR"@) is Some
    &&& col_of(hs, "STATION"@) is Some
    &&& col_of(hs, "Entries 0600-1000"@) is Some
    &&& col_of(hs, "Exits 0600-1000"@) is Some
    &&& col_of(hs, "Entries 1000-1500"@) is Some
    &&& col_of(hs, "Exits 1000-1500"@) is Some
    &&& col_of(hs, "Entries 1500-1900"@) is Some
    &&& col_of(hs, "Exits 1500-1900"@) is Some
    &&& col_of(hs, "Entries 1900 -0600"@) is Some
    &&& col_of(hs, "Exits 1900 -0600"@) is Some
    &&& col_of(hs, "Entries 0000-2359"@) is Some
    &&& col_of(hs, "Exits 0000-2359"@) is Some
    &&& col_of(hs, "LAT"@) is Some
    &&& col_of(hs, "LONG"@) is Some
}

/// The cell of a row under the first column with the given header text.
pub open spec fn cell(hs: Seq<Seq<char>>, row: Seq<Seq<char>>, name: Seq<char>) -> Seq<char> {
    row[col_of(hs, name)->Some_0]
}

/// Whether both coordinate cells of a row parse as floating-point
/// numbers; they are the row's only mandatory fields.
pub open spec fn coords_ok(hs: Seq<Seq<char>>, row: Seq<Seq<char>>) -> bool {
    &&& float_text_ok(cell(hs, row, "LAT"@))
    &&& float_text_ok(cell(hs, row, "LONG"@))
}

/// The first defect of a row, if any: a width unequal to the header's,
/// else an unparsable coordinate.
pub open spec fn row_error(hs: Seq<Seq<char>>, row: Seq<Seq<char>>) -> Option<LoadError> {
    if row.len() != hs.len() {
        Some(LoadError::MalformedCsv)
    } else if !coords_ok(hs, row) {
        Some(LoadError::BadCoordinate)
    } else {
        None
    }
}

/// The record a well-formed row denotes: the period and station labels,
/// each optional count as its cell's integer value, and the raw
/// coordinate text.
pub open spec fn record_of_row(hs: Seq<Seq<char>>, row: Seq<Seq<char>>) -> RecordView {
    RecordView {
        period: cell(hs, row, "YEAR"@),
        station: cell(hs, row, "STATION"@),
        entries_morning: int32_of_text(cell(hs, row, "Entries 0600-1000"@)),
        exits_morning: int32_of_text(cell(hs, row, "Exits 0600-1000"@)),
        entries_afternoon: int32_of_text(cell(hs, row, "Entries 1000-1500"@)),
        exits_afternoon: int32_of_text(cell(hs, row, "Exits 1000-1500"@)),
        entries_evening: int32_of_text(cell(hs, row, "Entries 1500-1900"@)),
        exits_evening: int32_of_text(cell(hs, row, "Exits 1500-1900"@)),
        entries_night: int32_of_text(cell(hs, row, "Entries 1900 -0600"@)),
        exits_night: int32_of_text(cell(hs, row, "Exits 1900 -0600"@)),
        entries_total: int32_of_text(cell(hs, row, "Entries 0000-2359"@)),
        exits_total: int32_of_text(cell(hs, row, "Exits 0000-2359"@)),
        latitude: cell(hs, row, "LAT"@),
        longitude: cell(hs, row, "LONG"@),
    }
}

/// The outcome of parsing the rows under a header that holds every
/// required column: the records of the rows in order, or the error of
/// the earliest defective row.
pub open spec fn rows_outcome(hs: Seq<Seq<char>>, rows: Seq<Seq<Seq<char>>>) -> Result<
    Seq<RecordView>,
    LoadError,
>
    decreases rows.len(),
{
    if rows.len() == 0 {
        Ok(Seq::empty())
    } else {
        match rows_outcome(hs, rows.drop_last()) {
            Err(e) => Err(e),
            Ok(rs) => match row_error(hs, rows.last()) {
                Some(e) => Err(e),
                None => Ok(rs.push(record_of_row(hs, rows.last()))),
            },
        }
    }
}

/// The outcome of parsing a whole table: a missing required column fails
/// the load, else the rows decide as `rows_outcome` says.
pub open spec fn parse_outcome(hs: Seq<Seq<char>>, rows: Seq<Seq<Seq<char>>>) -> Result<
    Seq<RecordView>,
    LoadError,
> {
    if !headers_ok(hs) {
        Err(LoadError::MissingColumn)
    } else {
        rows_outcome(hs, rows)
    }
}

/// Once a prefix of the rows has failed, every extension fails the same
/// way.
proof fn lemma_rows_outcome_extends(hs: Seq<Seq<char>>, rows: Seq<Seq<Seq<char>>>, k: int)
    requires
        0 <= k <= rows.len(),
        rows_outcome(hs, rows.take(k)) is Err,
    ensures
        rows_outcome(hs, rows) == rows_outcome(hs, rows.take(k)),
    decreases rows.len() - k,
{
    if k < rows.len() {
        assert(rows.take(k + 1).drop_last() =~= rows.take(k));
        lemma_rows_outcome_extends(hs, rows, k + 1);
    } else {
        assert(rows.take(k) =~= rows);
    }
}

/// Finds the first header cell with exactly the given text.
fn find_column(headers: &Vec<String>, name: &String) -> (r: Option<usize>)
    ensures
        match r {
            Some(i) => col_of(headers.deep_view(), name@) == Some(i as int),
            None => col_of(headers.deep_view(), name@) is None,
        },
{
    let ghost hs = headers.deep_view();
    let mut i: usize = 0;
    while i < headers.len()
        invariant
            0 <= i <= headers.len(),
            hs == headers.deep_view(),
            hs.len() == headers.len(),
            forall|j: int| 0 <= j < i ==> hs[j] != name@,
        decreases headers.len() - i,
    {
        if headers[i] == *name {
            proof {
                assert(headers@[i as int]@ == name@);
                assert(hs[i as int] == headers@[i as int]@);
                lemma_col_of_first_match(hs, name@);
            }
            return Some(i);
        }
        i = i + 1;
    }
    proof {
        lemma_col_of_first_match(hs, name@);
    }
    None
}

/// The column indices of the required fields within a header row.
struct Columns {
    year: usize,
    station: usize,
    entries_morning: usize,
    exits_morning: usize,
    entries_afternoon: usize,
    exits_afternoon: usize,
    entries_evening: usize,
    exits_evening: usize,
    entries_night: usize,
    exits_night: usize,
    entries_total: usize,
    exits_total: usize,
    lat: usize,
    long: usize,
}

impl Columns {
    /// Whether these are exactly the first-match columns of the header.
    spec fn matches(&self, hs: Seq<Seq<char>>) -> bool {
        &&& col_of(hs, "YEAR"@) == Some(self.year as int)
        &&& col_of(hs, "STATION"@) == Some(self.station as int)
        &&& col_of(hs, "Entries 0600-1000"@) == Some(self.entries_morning as int)
        &&& col_of(hs, "Exits 0600-1000"@) == Some(self.exits_morning as int)
        &&& col_of(hs, "Entries 1000-1500"@) == Some(self.entries_afternoon as int)
        &&& col_of(hs, "Exits 1000-1500"@) == Some(self.exits_afternoon as int)
        &&& col_of(hs, "Entries 1500-1900"@) == Some(self.entries_evening as int)
        &&& col_of(hs, "Exits 1500-1900"@) == Some(self.exits_evening as int)
        &&& col_of(hs, "Entries 1900 -0600"@) == Some(self.entries_night as int)
        &&& col_of(hs, "Exits 1900 -0600"@) == Some(self.exits_night as int)
        &&& col_of(hs, "Entries 0000-2359"@) == Some(self.entries_total as int)
        &&& col_of(hs, "Exits 0000-2359"@) == Some(self.exits_total as int)
        &&& col_of(hs, "LAT"@) == Some(self.lat as int)
        &&& col_of(hs, "LONG"@) == Some(self.long as int)
    }

    /// Locates every required column, or reports which header is absent
    /// by failing.
    fn locate(headers: &Vec<String>) -> (r: Result<Columns, LoadError>)
        ensures
            match r {
                Ok(c) => headers_ok(headers.deep_view()) && c.matches(headers.deep_view()),
                Err(e) => !headers_ok(headers.deep_view()) && e == LoadError::MissingColumn,
            },
    {
        let year = match find_column(headers, &String::from_str("YEAR")) {
            Some(i) => i,
            None => return Err(LoadError::MissingColumn),
        };
        let station = match find_column(headers, &String::from_str("STATION")) {
            Some(i) => i,
            None => return Err(LoadError::MissingColumn),
        };
        let entries_morning = match find_column(headers, &String::from_str("Entries 0600-1000")) {
            Some(i) => i,
            None => return Err(LoadError::MissingColumn),
        };
        let exits_morning = match find_column(headers, &String::from_str("Exits 0600-1000")) {
            Some(i) => i,
            None => return Err(LoadError::MissingColumn),
        };
        let entries_afternoon = match find_column(headers, &String::from_str("Entries 1000-1500")) {
            Some(i) => i,
            None => return Err(LoadError::MissingColumn),
        };
        let exits_afternoon = match find_column(headers, &String::from_str("Exits 1000-1500")) {
            Some(i) => i,
            None => return Err(LoadError::MissingColumn),
        };
        let entries_evening = match find_column(headers, &String::from_str("Entries 1500-1900")) {
            Some(i) => i,
            None => return Err(LoadError::MissingColumn),
        };
        let exits_evening = match find_column(headers, &String::from_str("Exits 1500-1900")) {
            Some(i) => i,
            None => return Err(LoadError::MissingColumn),
        };
        let entries_night = match find_column(headers, &String::from_str("Entries 1900 -0600")) {
            Some(i) => i,
            None => return Err(LoadError::MissingColumn),
        };
        let exits_night = match find_column(headers, &String::from_str("Exits 1900 -0600")) {
            Some(i) => i,
            None => return Err(LoadError::MissingColumn),
        };
        let entries_total = match find_column(headers, &String::from_str("Entries 0000-2359")) {
            Some(i) => i,
            None => return Err(LoadError::MissingColumn),
        };
        let exits_total = match find_column(headers, &String::from_str("Exits 0000-2359")) {
            Some(i) => i,
            None => return Err(LoadError::MissingColumn),
        };
        let lat = match find_column(headers, &String::from_str("LAT")) {
            Some(i) => i,
            None => return Err(LoadError::MissingColumn),
        };
        let long = match find_column(headers, &String::from_str("LONG")) {
            Some(i) => i,
            None => return Err(LoadError::MissingColumn),
        };
        Ok(
            Columns {
                year,
                station,
                entries_morning,
                exits_morning,
                entries_afternoon,
                exits_afternoon,
                entries_evening,
                exits_evening,
                entries_night,
                exits_night,
                entries_total,
                exits_total,
                lat,
                long,
            },
        )
    }
}

/// Parses the rows of a table whose cells have already been split by
/// header and row: every required column is located by its exact header
/// text, each count cell becomes an optional integer, and each
/// coordinate cell must parse as a floating-point number.
pub fn parse_records(headers: &Vec<String>, rows: &Vec<Vec<String>>) -> (r: Result<
    Vec<RawRecord>,
    LoadError,
>)
    ensures
        match r {
            Ok(recs) => (parse_outcome(headers.deep_view(), rows.deep_view()) matches Ok(v)
                && recs.deep_view() == v),
            Err(e) => parse_outcome(headers.deep_view(), rows.deep_view()) == Err::<
                Seq<RecordView>,
                LoadError,
            >(e),
        },
{
    let ghost hs = headers.deep_view();
    let ghost rows_v = rows.deep_view();
    let cols = match Columns::locate(headers) {
        Ok(c) => c,
        Err(e) => return Err(e),
    };
    proof {
        lemma_col_of_first_match(hs, "YEAR"@);
        lemma_col_of_first_match(hs, "STATION"@);
        lemma_col_of_first_match(hs, "Entries 0600-1000"@);
        lemma_col_of_first_match(hs, "Exits 0600-1000"@);
        lemma_col_of_first_match(hs, "Entries 1000-1500"@);
        lemma_col_of_first_match(hs, "Exits 1000-1500"@);
        lemma_col_of_first_match(hs, "Entries 1500-1900"@);
        lemma_col_of_first_match(hs, "Exits 1500-1900"@);
        lemma_col_of_first_match(hs, "Entries 1900 -0600"@);
        lemma_col_of_first_match(hs, "Exits 1900 -0600"@);
        lemma_col_of_first_match(hs, "Entries 0000-2359"@);
        lemma_col_of_first_match(hs, "Exits 0000-2359"@);
        lemma_col_of_first_match(hs, "LAT"@);
        lemma_col_of_first_match(hs, "LONG"@);
    }
    let mut recs: Vec<RawRecord> = Vec::new();
    let mut i: usize = 0;
    proof {
        assert(rows_v.take(0) =~= Seq::<Seq<Seq<char>>>::empty());
        assert(recs.deep_view() =~= Seq::<RecordView>::empty());
    }
    while i < rows.len()
        invariant
            0 <= i <= rows.len(),
            hs == headers.deep_view(),
            rows_v == rows.deep_view(),
            rows_v.len() == rows.len(),
            headers.len() == hs.len(),
            headers_ok(hs),
            cols.matches(hs),
            cols.year < hs.len(),
            cols.station < hs.len(),
            cols.entries_morning < hs.len(),
            cols.exits_morning < hs.len(),
            cols.entries_afternoon < hs.len(),
            cols.exits_afternoon < hs.len(),
            cols.entries_evening < hs.len(),
            cols.exits_evening < hs.len(),
            cols.entries_night < hs.len(),
            cols.exits_night < hs.len(),
            cols.entries_total < hs.len(),
            cols.exits_total < hs.len(),
            cols.lat < hs.len(),
            cols.long < hs.len(),
            rows_outcome(hs, rows_v.take(i as int)) == Ok::<Seq<RecordView>, LoadError>(
                recs.deep_view(),
            ),
        decreases rows.len() - i,
    {
        let row: &Vec<String> = &rows[i];
        let ghost row_v = rows_v[i as int];
        proof {
            assert(row_v == row.deep_view());
            assert(rows_v.take(i + 1).drop_last() =~= rows_v.take(i as int));
            assert(rows_v.take(i + 1).last() == row_v);
        }
        if row.len() != headers.len() {
            proof {
                assert(row_v.len() != hs.len());
                lemma_rows_outcome_extends(hs, rows_v, i + 1);
            }
            return Err(LoadError::MalformedCsv);
        }
        let lat_ok = crate::float_text::is_float_text(row[cols.lat].as_str());
        let long_ok = crate::float_text::is_float_text(row[cols.long].as_str());
        proof {
            assert(row_v[cols.lat as int] == row@[cols.lat as int]@);
            assert(row_v[cols.long as int] == row@[cols.long as int]@);
        }
        if !(lat_ok && long_ok) {
            proof {
                assert(!coords_ok(hs, row_v));
                lemma_rows_outcome_extends(hs, rows_v, i + 1);
            }
            return Err(LoadError::BadCoordinate);
        }
        let rec = RawRecord {
            period: row[cols.year].clone(),
            station: row[cols.station].clone(),
            entries_morning: parse_count(row[cols.entries_morning].as_str()),
            exits_morning: parse_count(row[cols.exits_morning].as_str()),
            entries_afternoon: parse_count(row[cols.entries_afternoon].as_str()),
            exits_afternoon: parse_count(row[cols.exits_afternoon].as_str()),
            entries_evening: parse_count(row[cols.entries_evening].as_str()),
            exits_evening: parse_count(row[cols.exits_evening].as_str()),
            entries_night: parse_count(row[cols.entries_night].as_str()),
            exits_night: parse_count(row[cols.exits_night].as_str()),
            entries_total: parse_count(row[cols.entries_total].as_str()),
            exits_total: parse_count(row[cols.exits_total].as_str()),
            latitude: row[cols.lat].clone(),
            longitude: row[cols.long].clone(),
        };
        proof {
            assert(row_v[cols.year as int] == row@[cols.year as int]@);
            assert(row_v[cols.station as int] == row@[cols.station as int]@);
            assert(row_v[cols.entries_morning as int] == row@[cols.entries_morning as int]@);
            assert(row_v[cols.exits_morning as int] == row@[cols.exits_morning as int]@);
            assert(row_v[cols.entries_afternoon as int] == row@[cols.entries_afternoon as int]@);
            assert(row_v[cols.exits_afternoon as int] == row@[cols.exits_afternoon as int]@);
            assert(row_v[cols.entries_evening as int] == row@[cols.entries_evening as int]@);
            assert(row_v[cols.exits_evening as int] == row@[cols.exits_evening as int]@);
            assert(row_v[cols.entries_night as int] == row@[cols.entries_night as int]@);
            assert(row_v[cols.exits_night as int] == row@[cols.exits_night as int]@);
            assert(row_v[cols.entries_total as int] == row@[cols.entries_total as int]@);
            assert(row_v[cols.exits_total as int] == row@[cols.exits_total as int]@);
            assert(rec@ == record_of_row(hs, row_v));
        }
        let ghost old_recs = recs.deep_view();
        recs.push(rec);
        proof {
            assert(recs.deep_view() =~= old_recs.push(rec.deep_view()));
        }
        i = i + 1;
    }
    proof {
        assert(rows_v.take(i as int) =~= rows_v);
    }
    Ok(recs)
}

} // verus!
