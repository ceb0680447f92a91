//! Raw input rows and the per-period usage summaries derived from them.

use vstd::prelude::*;

use crate::band::Band;

verus! {

/// One row of the input table: a reporting-period label, a station name,
/// the optional entry/exit counts of the four time bands and of the whole
/// day, and the station's coordinate as the raw text of the two cells.
///
/// A count is `None` where the cell was empty or did not parse as an
/// integer; the aggregation treats such a count as zero.
#[derive(Debug)]
pub struct RawRecord {
    pub period: String,
    pub station: String,
    pub entries_morning: Option<i32>,
    pub exits_morning: Option<i32>,
    pub entries_afternoon: Option<i32>,
    pub exits_afternoon: Option<i32>,
    pub entries_evening: Option<i32>,
    pub exits_evening: Option<i32>,
    pub entries_night: Option<i32>,
    pub exits_night: Option<i32>,
    pub entries_total: Option<i32>,
    pub exits_total: Option<i32>,
    pub latitude: String,
    pub longitude: String,
}

/// Mathematical image of a `RawRecord`.
pub ghost struct RecordView {
    pub period: Seq<char>,
    pub station: Seq<char>,
    pub entries_morning: Option<int>,
    pub exits_morning: Option<int>,
    pub entries_afternoon: Option<int>,
    pub exits_afternoon: Option<int>,
    pub entries_evening: Option<int>,
    pub exits_evening: Option<int>,
    pub entries_night: Option<int>,
    pub exits_night: Option<int>,
    pub entries_total: Option<int>,
    pub exits_total: Option<int>,
    pub latitude: Seq<char>,
    pub longitude: Seq<char>,
}

/// Widens an optional machine integer to an optional mathematical one.
pub open spec fn opt_int(o: Option<i32>) -> Option<int> {
    match o {
        Some(v) => Some(v as int),
        None => None,
    }
}

impl View for RawRecord {
    type V = RecordView;

    open spec fn view(&self) -> RecordView {
        RecordView {
            period: self.period@,
            station: self.station@,
            entries_morning: opt_int(self.entries_morning),
            exits_morning: opt_int(self.exits_morning),
            entries_afternoon: opt_int(self.entries_afternoon),
            exits_afternoon: opt_int(self.exits_afternoon),
            entries_evening: opt_int(self.entries_evening),
            exits_evening: opt_int(self.exits_evening),
            entries_night: opt_int(self.entries_night),
            exits_night: opt_int(self.exits_night),
            entries_total: opt_int(self.entries_total),
            exits_total: opt_int(self.exits_total),
            latitude: self.latitude@,
            longitude: self.longitude@,
        }
    }
}

impl DeepView for RawRecord {
    type V = RecordView;

    open spec fn deep_view(&self) -> RecordView {
        self.view()
    }
}

/// One station-period usage summary: the period label, the usage of each
/// time band (entries plus exits, a missing count contributing zero), the
/// whole-day usage, and the coordinate text carried over from the row.
///
/// Immutable after construction; usages are 64-bit so that the sum of two
/// 32-bit counts can never overflow.
#[derive(Debug)]
pub struct UsageSummary {
    pub period: String,
    pub morning: i64,
    pub afternoon: i64,
    pub evening: i64,
    pub night: i64,
    pub total: i64,
    pub latitude: String,
    pub longitude: String,
}

/// Mathematical image of a `UsageSummary`.
pub ghost struct SummaryView {
    pub period: Seq<char>,
    pub morning: int,
    pub afternoon: int,
    pub evening: int,
    pub night: int,
    pub total: int,
    pub latitude: Seq<char>,
    pub longitude: Seq<char>,
}

impl Clone for UsageSummary {
    fn clone(&self) -> (r: Self)
        ensures
            r == *self,
    {
        UsageSummary {
            period: self.period.clone(),
            morning: self.morning,
            afternoon: self.afternoon,
            evening: self.evening,
            night: self.night,
            total: self.total,
            latitude: self.latitude.clone(),
            longitude: self.longitude.clone(),
        }
    }
}

impl View for UsageSummary {
    type V = SummaryView;

    open spec fn view(&self) -> SummaryView {
        SummaryView {
            period: self.period@,
            morning: self.morning as int,
            afternoon: self.afternoon as int,
            evening: self.evening as int,
            night: self.night as int,
            total: self.total as int,
            latitude: self.latitude@,
            longitude: self.longitude@,
        }
    }
}

impl DeepView for UsageSummary {
    type V = SummaryView;

    open spec fn deep_view(&self) -> SummaryView {
        self.view()
    }
}

/// A missing count contributes zero.
pub open spec fn count_or_zero(o: Option<int>) -> int {
    match o {
        Some(v) => v,
        None => 0,
    }
}

/// The usage of one band: entries plus exits, missing counts as zero.
pub open spec fn band_usage(entries: Option<int>, exits: Option<int>) -> int {
    count_or_zero(entries) + count_or_zero(exits)
}

/// The summary that the aggregation derives from one row.
pub open spec fn summary_of_record(r: RecordView) -> SummaryView {
    SummaryView {
        period: r.period,
        morning: band_usage(r.entries_morning, r.exits_morning),
        afternoon: band_usage(r.entries_afternoon, r.exits_afternoon),
        evening: band_usage(r.entries_evening, r.exits_evening),
        night: band_usage(r.entries_night, r.exits_night),
        total: band_usage(r.entries_total, r.exits_total),
        latitude: r.latitude,
        longitude: r.longitude,
    }
}

/// The usage a summary assigns to one time band.
pub open spec fn band_value(s: SummaryView, b: Band) -> int {
    match b {
        Band::Morning => s.morning,
        Band::Afternoon => s.afternoon,
        Band::Evening => s.evening,
        Band::Night => s.night,
    }
}

/// A record's entry count for one time band.
pub open spec fn band_entries(r: RecordView, b: Band) -> Option<int> {
    match b {
        Band::Morning => r.entries_morning,
        Band::Afternoon => r.entries_afternoon,
        Band::Evening => r.entries_evening,
        Band::Night => r.entries_night,
    }
}

/// A record's exit count for one time band.
pub open spec fn band_exits(r: RecordView, b: Band) -> Option<int> {
    match b {
        Band::Morning => r.exits_morning,
        Band::Afternoon => r.exits_afternoon,
        Band::Evening => r.exits_evening,
        Band::Night => r.exits_night,
    }
}

/// The busiest band of a single summary: the band with the largest usage,
/// an earlier band winning ties (Morning, Afternoon, Evening, Night).
pub open spec fn local_busiest(s: SummaryView) -> (Band, int) {
    let best = (Band::Morning, s.morning);
    let best = if s.afternoon > best.1 {
        (Band::Afternoon, s.afternoon)
    } else {
        best
    };
    let best = if s.evening > best.1 {
        (Band::Evening, s.evening)
    } else {
        best
    };
    if s.night > best.1 {
        (Band::Night, s.night)
    } else {
        best
    }
}

/// Entries plus exits of one band, a missing count contributing zero.
fn usage_of_counts(entries: Option<i32>, exits: Option<i32>) -> (u: i64)
    ensures
        u as int == band_usage(opt_int(entries), opt_int(exits)),
{
    let e: i64 = match entries {
        Some(v) => v as i64,
        None => 0,
    };
    let x: i64 = match exits {
        Some(v) => v as i64,
        None => 0,
    };
    e + x
}

impl UsageSummary {
    /// Derives the usage summary of one input row.
    pub fn of_record(r: &RawRecord) -> (s: UsageSummary)
        ensures
            s@ == summary_of_record(r@),
    {
        UsageSummary {
            period: r.period.clone(),
            morning: usage_of_counts(r.entries_morning, r.exits_morning),
            afternoon: usage_of_counts(r.entries_afternoon, r.exits_afternoon),
            evening: usage_of_counts(r.entries_evening, r.exits_evening),
            night: usage_of_counts(r.entries_night, r.exits_night),
            total: usage_of_counts(r.entries_total, r.exits_total),
            latitude: r.latitude.clone(),
            longitude: r.longitude.clone(),
        }
    }

    /// The usage of each band, in enumeration order.
    pub fn get_usages(&self) -> (u: Vec<(Band, i64)>)
        ensures
            u@ == seq![
                (Band::Morning, self.morning),
                (Band::Afternoon, self.afternoon),
                (Band::Evening, self.evening),
                (Band::Night, self.night),
            ],
    {
        let mut u: Vec<(Band, i64)> = Vec::new();
        u.push((Band::Morning, self.morning));
        u.push((Band::Afternoon, self.afternoon));
        u.push((Band::Evening, self.evening));
        u.push((Band::Night, self.night));
        proof {
            assert(u@ =~= seq![
                (Band::Morning, self.morning),
                (Band::Afternoon, self.afternoon),
                (Band::Evening, self.evening),
                (Band::Night, self.night),
            ]);
        }
        u
    }

    /// The busiest band of this summary and its usage, ties won by the
    /// earlier band.
    pub fn get_busiest_time(&self) -> (r: (Band, i64))
        ensures
            (r.0, r.1 as int) == local_busiest(self@),
    {
        let mut best: (Band, i64) = (Band::Morning, self.morning);
        if self.afternoon > best.1 {
            best = (Band::Afternoon, self.afternoon);
        }
        if self.evening > best.1 {
            best = (Band::Evening, self.evening);
        }
        if self.night > best.1 {
            best = (Band::Night, self.night);
        }
        best
    }
}

/// A band whose entries and exits are both missing has a usage of exactly
/// zero in the derived summary.
pub proof fn lemma_missing_counts_zero_usage(r: RecordView, b: Band)
    requires
        band_entries(r, b) is None,
        band_exits(r, b) is None,
    ensures
        band_value(summary_of_record(r), b) == 0,
{
}

} // verus!
