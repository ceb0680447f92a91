//! Verified aggregation of train-station ridership counts.
//!
//! The library ingests a comma-separated table of per-station, per-period
//! entry/exit counts over four time bands, folds each row into a usage
//! summary, groups the summaries by station, and answers two read-only
//! queries: the busiest time band of a named station, and the stations
//! holding the global minimum and maximum usage in each band.

use vstd::prelude::*;

pub mod band;
pub mod float_text;
pub mod index;
pub mod parse_int;
pub mod record;
pub mod report;
pub mod table;

use crate::index::StationIndex;
use crate::index::index_of_records;
use crate::index::to_station_index;
use crate::record::SummaryView;
use crate::table::LoadError;
use crate::table::csv_table;
use crate::table::parse_outcome;
use crate::table::parse_records;
use crate::table::read_csv_table;

verus! {

/// The outcome of a whole load: the station index of the bytes' table,
/// or the earliest failure — malformed comma-separated text, a missing
/// required column, or an unparsable coordinate cell.
pub open spec fn load_outcome(bytes: Seq<u8>) -> Result<
    Seq<(Seq<char>, Seq<SummaryView>)>,
    LoadError,
> {
    match csv_table(bytes) {
        None => Err(LoadError::MalformedCsv),
        Some(t) => match parse_outcome(t[0], t.drop_first()) {
            Err(e) => Err(e),
            Ok(rs) => Ok(index_of_records(rs)),
        },
    }
}

/// Loads the whole input: frames the comma-separated bytes, parses every
/// row into a record, and groups the derived summaries by station.
pub fn load_station_data(data: &[u8]) -> (r: Result<StationIndex, LoadError>)
    ensures
        match r {
            Ok(ix) => (load_outcome(data@) matches Ok(m) && ix@ == m),
            Err(e) => load_outcome(data@) == Err::<Seq<(Seq<char>, Seq<SummaryView>)>, LoadError>(
                e,
            ),
        },
{
    let (headers, rows) = match read_csv_table(data) {
        Some(p) => p,
        None => return Err(LoadError::MalformedCsv),
    };
    let records = match parse_records(&headers, &rows) {
        Ok(rs) => rs,
        Err(e) => return Err(e),
    };
    Ok(to_station_index(records))
}

} // verus!
