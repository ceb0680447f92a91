//! Tests of aggregation and the two queries on directly built records.

use station_usage::band::Band;
use station_usage::index::to_station_index;
use station_usage::record::RawRecord;
use station_usage::record::UsageSummary;
use station_usage::report::max_min;

fn record(station: &str, counts: [Option<i32>; 8]) -> RawRecord {
    RawRecord {
        period: String::from("2020"),
        station: String::from(station),
        entries_morning: counts[0],
        exits_morning: counts[1],
        entries_afternoon: counts[2],
        exits_afternoon: counts[3],
        entries_evening: counts[4],
        exits_evening: counts[5],
        entries_night: counts[6],
        exits_night: counts[7],
        entries_total: None,
        exits_total: None,
        latitude: String::from("51.5"),
        longitude: String::from("-0.1"),
    }
}

#[test]
fn missing_counts_give_zero_usage() {
    let r = record("A", [None; 8]);
    let s = UsageSummary::of_record(&r);
    assert_eq!(s.morning, 0);
    assert_eq!(s.afternoon, 0);
    assert_eq!(s.evening, 0);
    assert_eq!(s.night, 0);
    assert_eq!(s.total, 0);
}

#[test]
fn usage_sums_entries_and_exits() {
    let r = record("A", [Some(10), Some(5), Some(3), None, None, Some(4), Some(-2), Some(1)]);
    let s = UsageSummary::of_record(&r);
    assert_eq!(s.morning, 15);
    assert_eq!(s.afternoon, 3);
    assert_eq!(s.evening, 4);
    assert_eq!(s.night, -1);
}

#[test]
fn one_key_per_station_with_one_summary_per_row() {
    let rows = vec![
        record("A", [Some(1), None, None, None, None, None, None, None]),
        record("B", [Some(2), None, None, None, None, None, None, None]),
        record("A", [Some(3), None, None, None, None, None, None, None]),
    ];
    let index = to_station_index(rows);
    assert_eq!(index.station_count(), 2);
    assert_eq!(index.load_station(&String::from("A")).unwrap().len(), 2);
    assert_eq!(index.load_station(&String::from("B")).unwrap().len(), 1);
}

#[test]
fn absent_station_reports_no_data() {
    let rows = vec![record("A", [Some(1), None, None, None, None, None, None, None])];
    let index = to_station_index(rows);
    assert!(index.busiest_time(&String::from("Nowhere")).is_none());
    assert!(index.load_station(&String::from("Nowhere")).is_none());
}

#[test]
fn busiest_time_insensitive_to_row_order_under_dominance() {
    // The first summary strictly dominates every band of the others.
    let big = record("A", [Some(50), Some(50), Some(90), Some(9), Some(7), Some(7), Some(1), None]);
    let small1 = record("A", [Some(5), None, Some(2), Some(1), None, None, Some(3), None]);
    let small2 = record("A", [None, Some(8), Some(4), Some(4), Some(6), None, None, Some(2)]);
    let one_order = to_station_index(vec![
        record("A", [Some(50), Some(50), Some(90), Some(9), Some(7), Some(7), Some(1), None]),
        record("A", [Some(5), None, Some(2), Some(1), None, None, Some(3), None]),
        record("A", [None, Some(8), Some(4), Some(4), Some(6), None, None, Some(2)]),
    ]);
    let other_order = to_station_index(vec![small2, small1, big]);
    let a = one_order.busiest_time(&String::from("A")).unwrap();
    let b = other_order.busiest_time(&String::from("A")).unwrap();
    assert_eq!(a, b);
    assert_eq!(a.0, Band::Morning);
    assert_eq!(a.1, 100);
}

#[test]
fn two_station_min_max_in_morning_band() {
    let rows = vec![
        record("A", [Some(100), None, None, None, None, None, None, None]),
        record("B", [Some(5), None, None, None, None, None, None, None]),
    ];
    let index = to_station_index(rows);
    let extremes = max_min(&index);
    assert_eq!(extremes.max_morning_station, "A");
    assert_eq!(extremes.max_morning, 100);
    assert_eq!(extremes.min_morning_station, "B");
    assert_eq!(extremes.min_morning, 5);
}

#[test]
fn min_max_ties_keep_first_seen_station() {
    let rows = vec![
        record("A", [Some(7), None, None, None, None, None, None, None]),
        record("B", [Some(7), None, None, None, None, None, None, None]),
    ];
    let index = to_station_index(rows);
    let extremes = max_min(&index);
    assert_eq!(extremes.max_morning_station, "A");
    assert_eq!(extremes.min_morning_station, "A");
}

#[test]
fn min_max_bands_are_independent() {
    let rows = vec![
        record("A", [Some(9), None, Some(1), None, None, None, None, None]),
        record("B", [Some(2), None, Some(8), None, None, None, None, None]),
    ];
    let index = to_station_index(rows);
    let extremes = max_min(&index);
    assert_eq!(extremes.max_morning_station, "A");
    assert_eq!(extremes.min_morning_station, "B");
    assert_eq!(extremes.max_afternoon_station, "B");
    assert_eq!(extremes.min_afternoon_station, "A");
}

#[test]
fn min_max_of_empty_index_reports_nobody() {
    let index = to_station_index(vec![]);
    let extremes = max_min(&index);
    assert_eq!(extremes.max_morning_station, "");
    assert_eq!(extremes.max_morning, 0);
    assert_eq!(extremes.min_morning_station, "");
    assert_eq!(extremes.min_morning, i64::MAX);
}

#[test]
fn all_missing_station_reports_morning_zero() {
    let rows = vec![record("A", [None; 8]), record("A", [None; 8])];
    let index = to_station_index(rows);
    let busiest = index.busiest_time(&String::from("A")).unwrap();
    assert_eq!(busiest.0, Band::Morning);
    assert_eq!(busiest.1, 0);
}

#[test]
fn get_usages_lists_bands_in_order() {
    let r = record("A", [Some(1), None, Some(2), None, Some(3), None, Some(4), None]);
    let s = UsageSummary::of_record(&r);
    let usages = s.get_usages();
    assert_eq!(
        usages,
        vec![
            (Band::Morning, 1),
            (Band::Afternoon, 2),
            (Band::Evening, 3),
            (Band::Night, 4)
        ]
    );
}

#[test]
fn local_busiest_ties_go_to_the_earlier_band() {
    let r = record("A", [Some(4), None, Some(4), None, Some(4), None, None, None]);
    let s = UsageSummary::of_record(&r);
    let b = s.get_busiest_time();
    assert_eq!(b.0, Band::Morning);
    assert_eq!(b.1, 4);
}

#[test]
fn later_summary_needs_strictly_greater_usage() {
    let rows = vec![
        record("A", [Some(6), None, None, None, None, None, None, None]),
        record("A", [None, None, Some(6), None, None, None, None, None]),
    ];
    let index = to_station_index(rows);
    let b = index.busiest_time(&String::from("A")).unwrap();
    assert_eq!(b.0, Band::Morning);
    assert_eq!(b.1, 6);
}
