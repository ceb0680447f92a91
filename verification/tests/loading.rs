//! Tests of the whole load path: comma-separated bytes to station index.

use station_usage::band::Band;
use station_usage::load_station_data;
use station_usage::table::LoadError;

const HEADER: &str = "YEAR,STATION,Entries 0600-1000,Exits 0600-1000,Entries 1000-1500,Exits 1000-1500,Entries 1500-1900,Exits 1500-1900,Entries 1900 -0600,Exits 1900 -0600,Entries 0000-2359,Exits 0000-2359,LAT,LONG";

#[test]
fn round_trip_single_row() {
    let data = format!("{}\n2020,Central,10,5,,,,,,,,,51.5,-0.1\n", HEADER);
    let index = load_station_data(data.as_bytes()).unwrap();
    let busiest = index.busiest_time(&String::from("Central")).unwrap();
    assert_eq!(busiest.0, Band::Morning);
    assert_eq!(busiest.1, 15);
}

#[test]
fn missing_column_fails() {
    let data = "YEAR,Entries 0600-1000,LAT,LONG\n2020,10,1.0,2.0\n";
    let r = load_station_data(data.as_bytes());
    assert_eq!(r.unwrap_err(), LoadError::MissingColumn);
}

#[test]
fn night_band_header_must_match_exactly() {
    // The published header has a space before the hyphen; a normalized
    // form is a different column and must not match.
    let normalized = HEADER.replace("Entries 1900 -0600", "Entries 1900-0600");
    let data = format!("{}\n2020,Central,1,1,1,1,1,1,1,1,1,1,1.0,2.0\n", normalized);
    let r = load_station_data(data.as_bytes());
    assert_eq!(r.unwrap_err(), LoadError::MissingColumn);
}

#[test]
fn bad_coordinate_fails() {
    let data = format!("{}\n2020,Central,10,5,,,,,,,,,abc,-0.1\n", HEADER);
    let r = load_station_data(data.as_bytes());
    assert_eq!(r.unwrap_err(), LoadError::BadCoordinate);
}

#[test]
fn ragged_row_fails() {
    let data = format!("{}\n2020,Central,10,5\n", HEADER);
    let r = load_station_data(data.as_bytes());
    assert_eq!(r.unwrap_err(), LoadError::MalformedCsv);
}

#[test]
fn empty_input_fails_for_missing_columns() {
    let r = load_station_data(b"");
    assert_eq!(r.unwrap_err(), LoadError::MissingColumn);
}

#[test]
fn unparsable_count_cells_are_missing() {
    // A non-numeric cell and an overflowing cell both count as zero.
    let data = format!(
        "{}\n2020,Central,xyz,2147483648,4,,,,,,,,51.5,-0.1\n",
        HEADER
    );
    let index = load_station_data(data.as_bytes()).unwrap();
    let busiest = index.busiest_time(&String::from("Central")).unwrap();
    assert_eq!(busiest.0, Band::Afternoon);
    assert_eq!(busiest.1, 4);
}

#[test]
fn columns_match_by_name_not_position() {
    let data = "STATION,LONG,LAT,Exits 0600-1000,Entries 0600-1000,Entries 1000-1500,Exits 1000-1500,Entries 1500-1900,Exits 1500-1900,Entries 1900 -0600,Exits 1900 -0600,Entries 0000-2359,Exits 0000-2359,YEAR\nCentral,-0.1,51.5,5,10,,,,,,,,,2020\n";
    let index = load_station_data(data.as_bytes()).unwrap();
    let busiest = index.busiest_time(&String::from("Central")).unwrap();
    assert_eq!(busiest.0, Band::Morning);
    assert_eq!(busiest.1, 15);
}

#[test]
fn coordinate_forms_accepted() {
    let data = format!(
        "{}\n2020,A,1,,,,,,,,,,1e5,-.5\n2020,B,2,,,,,,,,,,inf,NaN\n",
        HEADER
    );
    let index = load_station_data(data.as_bytes()).unwrap();
    assert_eq!(index.station_count(), 2);
}

#[test]
fn coordinate_with_two_points_rejected() {
    let data = format!("{}\n2020,A,1,,,,,,,,,,1.2.3,0.0\n", HEADER);
    let r = load_station_data(data.as_bytes());
    assert_eq!(r.unwrap_err(), LoadError::BadCoordinate);
}

#[test]
fn quoted_cells_are_unwrapped() {
    // The comma-separated framing, not this library, handles quoting; a
    // quoted station name must come back without its quotes.
    let data = format!("{}\n2020,\"Kings Cross\",3,,,,,,,,,,51.5,-0.1\n", HEADER);
    let index = load_station_data(data.as_bytes()).unwrap();
    assert!(index.busiest_time(&String::from("Kings Cross")).is_some());
}

#[test]
fn error_descriptions_name_the_failure() {
    assert_eq!(LoadError::MalformedCsv.describe(), "malformed csv input");
    assert_eq!(
        LoadError::MissingColumn.describe(),
        "a required column is missing from the header row"
    );
    assert_eq!(
        LoadError::BadCoordinate.describe(),
        "a latitude or longitude cell is not a number"
    );
}

#[test]
fn load_keeps_row_order_per_station() {
    let data = format!(
        "{}\n2019,Central,1,,,,,,,,,,1.0,2.0\n2020,Central,2,,,,,,,,,,1.0,2.0\n",
        HEADER
    );
    let index = load_station_data(data.as_bytes()).unwrap();
    let summaries = index.load_station(&String::from("Central")).unwrap();
    assert_eq!(summaries.len(), 2);
    assert_eq!(summaries[0].period, "2019");
    assert_eq!(summaries[0].morning, 1);
    assert_eq!(summaries[1].period, "2020");
    assert_eq!(summaries[1].morning, 2);
}
