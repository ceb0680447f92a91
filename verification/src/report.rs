//! The two read-only queries over the station index.
//!
//! The busiest-time query names the band with the highest usage among a
//! station's summaries; the global query names, for each band, the
//! stations holding the minimum and the maximum usage across every
//! summary of every station.

use vstd::prelude::*;

use crate::band::Band;
use crate::index::StationIndex;
use crate::index::has_station;
use crate::index::index_of_records;
use crate::index::key_at;
use crate::index::lemma_key_at_first_match;
use crate::index::station_row_count;
use crate::index::station_summaries;
use crate::index::summaries_of;
use crate::record::RecordView;
use crate::record::SummaryView;
use crate::record::UsageSummary;
use crate::record::band_entries;
use crate::record::band_exits;
use crate::record::band_value;
use crate::record::local_busiest;

verus! {

/// The busiest band over a sequence of summaries: a running best pair
/// starting at `(Morning, 0)`, replaced by a summary's busiest band only
/// when its usage is strictly greater.
pub open spec fn busiest_over(ss: Seq<SummaryView>) -> (Band, int)
    decreases ss.len(),
{
    if ss.len() == 0 {
        (Band::Morning, 0int)
    } else {
        let prev = busiest_over(ss.drop_last());
        let cur = local_busiest(ss.last());
        if cur.1 > prev.1 {
            cur
        } else {
            prev
        }
    }
}

/// A summary's busiest band carries its largest usage: the pair is one
/// of the summary's own bands, and no band exceeds it.
pub proof fn lemma_local_busiest_is_max(s: SummaryView)
    ensures
        band_value(s, local_busiest(s).0) == local_busiest(s).1,
        forall|b: Band| #[trigger] band_value(s, b) <= local_busiest(s).1,
{
    assert forall|b: Band| #[trigger] band_value(s, b) <= local_busiest(s).1 by {
        if b is Morning {
        } else if b is Afternoon {
        } else if b is Evening {
        } else {
        }
    }
}

/// The busiest pair of a station never has a negative usage and is never
/// beaten by any summary's busiest band.
proof fn lemma_busiest_over_lower_bound(ss: Seq<SummaryView>)
    ensures
        busiest_over(ss).1 >= 0,
        forall|j: int|
            0 <= j < ss.len() ==> local_busiest(#[trigger] ss[j]).1 <= busiest_over(ss).1,
    decreases ss.len(),
{
    if ss.len() > 0 {
        lemma_busiest_over_lower_bound(ss.drop_last());
        assert forall|j: int|
            0 <= j < ss.len() implies local_busiest(#[trigger] ss[j]).1 <= busiest_over(ss).1 by {
            if j < ss.len() - 1 {
                assert(ss.drop_last()[j] == ss[j]);
            }
        }
    }
}

/// The busiest pair is the initial `(Morning, 0)` or some summary's own
/// busiest band.
proof fn lemma_busiest_over_cases(ss: Seq<SummaryView>)
    ensures
        busiest_over(ss) == (Band::Morning, 0int) || exists|j: int|
            0 <= j < ss.len() && busiest_over(ss) == local_busiest(#[trigger] ss[j]),
    decreases ss.len(),
{
    if ss.len() > 0 {
        lemma_busiest_over_cases(ss.drop_last());
        let prev = busiest_over(ss.drop_last());
        let cur = local_busiest(ss.last());
        if cur.1 > prev.1 {
            assert(busiest_over(ss) == local_busiest(ss[ss.len() - 1]));
        } else if prev != (Band::Morning, 0int) {
            let j = choose|j: int|
                0 <= j < ss.drop_last().len() && prev == local_busiest(#[trigger] ss.drop_last()[j]);
            assert(ss.drop_last()[j] == ss[j]);
            assert(busiest_over(ss) == local_busiest(ss[j]));
        }
    }
}

/// When one summary's busiest usage is positive and strictly exceeds
/// every band of every other summary, the station's busiest pair is that
/// summary's own.
pub proof fn lemma_busiest_dominant(ss: Seq<SummaryView>, i: int)
    requires
        0 <= i < ss.len(),
        local_busiest(ss[i]).1 > 0,
        forall|j: int, b: Band|
            0 <= j < ss.len() && j != i ==> #[trigger] band_value(ss[j], b)
                < local_busiest(ss[i]).1,
    ensures
        busiest_over(ss) == local_busiest(ss[i]),
{
    lemma_busiest_over_lower_bound(ss);
    lemma_busiest_over_cases(ss);
    assert(busiest_over(ss).1 >= local_busiest(ss[i]).1);
    if busiest_over(ss) != local_busiest(ss[i]) {
        let j = choose|j: int|
            0 <= j < ss.len() && busiest_over(ss) == local_busiest(#[trigger] ss[j]);
        assert(j != i);
        lemma_local_busiest_is_max(ss[j]);
        assert(local_busiest(ss[j]).1 == band_value(ss[j], local_busiest(ss[j]).0));
        assert(local_busiest(ss[j]).1 < local_busiest(ss[i]).1);
        assert(false);
    }
}

/// Two equal values at distinct positions give the multiset of the
/// sequence a count of at least two.
proof fn lemma_two_positions_count_two(s: Seq<SummaryView>, a: int, b: int)
    requires
        0 <= a < b < s.len(),
        s[a] == s[b],
    ensures
        s.to_multiset().count(s[a]) >= 2,
{
    broadcast use vstd::seq_lib::group_to_multiset_ensures;
    broadcast use vstd::multiset::group_multiset_axioms;

    let s0 = s.subrange(0, b);
    let s1 = s.subrange(b, s.len() as int);
    assert(s =~= s0 + s1);
    vstd::seq_lib::lemma_multiset_commutative(s0, s1);
    assert(s0[a] == s[a]);
    assert(s0.contains(s[a]));
    assert(s1[0] == s[b]);
    assert(s1.contains(s[a]));
}

/// The busiest-time result is insensitive to the order of a station's
/// summaries whenever one summary's busiest usage is positive and
/// strictly exceeds every band of every other summary: any reordering
/// reports that summary's busiest pair.
pub proof fn lemma_busiest_order_insensitive(ss: Seq<SummaryView>, tt: Seq<SummaryView>, i: int)
    requires
        0 <= i < ss.len(),
        tt.to_multiset() == ss.to_multiset(),
        local_busiest(ss[i]).1 > 0,
        forall|j: int, b: Band|
            0 <= j < ss.len() && j != i ==> #[trigger] band_value(ss[j], b)
                < local_busiest(ss[i]).1,
    ensures
        busiest_over(ss) == local_busiest(ss[i]),
        busiest_over(tt) == busiest_over(ss),
{
    broadcast use vstd::seq_lib::group_to_multiset_ensures;
    broadcast use vstd::multiset::group_multiset_axioms;

    let d = ss[i];
    lemma_busiest_dominant(ss, i);
    lemma_local_busiest_is_max(d);
    // The dominant summary occurs in the reordering as well.
    assert(ss.contains(d));
    assert(tt.to_multiset().count(d) > 0);
    assert(tt.contains(d));
    let k = choose|k: int| 0 <= k < tt.len() && tt[k] == d;
    // No other position of the reordering can hold it: two positions
    // would put two copies in the shared multiset, yet a second copy in
    // the original would contradict strict dominance.
    assert forall|j: int| 0 <= j < tt.len() && j != k implies tt[j] != d by {
        if tt[j] == d {
            if j < k {
                lemma_two_positions_count_two(tt, j, k);
            } else {
                lemma_two_positions_count_two(tt, k, j);
            }
            assert(ss.to_multiset().count(d) >= 2);
            assert(ss.remove(i).to_multiset() =~= ss.to_multiset().remove(d));
            assert(ss.remove(i).to_multiset().count(d) >= 1);
            assert(ss.remove(i).contains(d));
            let l = choose|l: int| 0 <= l < ss.remove(i).len() && ss.remove(i)[l] == d;
            let l2 = if l < i {
                l
            } else {
                l + 1
            };
            assert(ss[l2] == d);
            assert(band_value(ss[l2], local_busiest(d).0) < local_busiest(d).1);
            assert(false);
        }
    }
    // Every other element of the reordering is some non-dominant element
    // of the original, so strict dominance carries over.
    assert forall|j: int, b: Band|
        0 <= j < tt.len() && j != k implies #[trigger] band_value(tt[j], b)
        < local_busiest(tt[k]).1 by {
        assert(tt.contains(tt[j]));
        assert(ss.to_multiset().count(tt[j]) > 0);
        assert(ss.contains(tt[j]));
        let l = choose|l: int| 0 <= l < ss.len() && ss[l] == tt[j];
        assert(l != i);
    }
    lemma_busiest_dominant(tt, k);
}

/// A station whose every summary carries zero usage in every band
/// reports the degenerate pair `(Morning, 0)`.
pub proof fn lemma_busiest_all_zero(ss: Seq<SummaryView>)
    requires
        forall|j: int, b: Band| 0 <= j < ss.len() ==> #[trigger] band_value(ss[j], b) == 0,
    ensures
        busiest_over(ss) == (Band::Morning, 0int),
    decreases ss.len(),
{
    if ss.len() > 0 {
        assert forall|j: int, b: Band|
            0 <= j < ss.len() - 1 implies #[trigger] band_value(ss.drop_last()[j], b) == 0 by {
            assert(ss.drop_last()[j] == ss[j]);
        }
        lemma_busiest_all_zero(ss.drop_last());
        assert(band_value(ss.last(), Band::Morning) == 0);
        assert(band_value(ss.last(), Band::Afternoon) == 0);
        assert(band_value(ss.last(), Band::Evening) == 0);
        assert(band_value(ss.last(), Band::Night) == 0);
        assert(local_busiest(ss.last()) == (Band::Morning, 0int));
    }
}

/// A station all of whose rows have every band count missing reports the
/// degenerate pair `(Morning, 0)` from the busiest-time query.
pub proof fn lemma_all_missing_reports_morning_zero(rs: Seq<RecordView>, k: Seq<char>)
    requires
        station_row_count(rs, k) > 0,
        forall|j: int, b: Band|
            0 <= j < rs.len() && rs[j].station == k ==> #[trigger] band_entries(rs[j], b) is None
                && band_exits(rs[j], b) is None,
    ensures
        has_station(index_of_records(rs), k),
        busiest_over(summaries_of(index_of_records(rs), k)) == (Band::Morning, 0int),
{
    crate::index::lemma_index_of_records_complete(rs, k);
    lemma_station_summaries_zero(rs, k);
    lemma_busiest_all_zero(station_summaries(rs, k));
}

/// Each summary of a station whose rows all miss every band count
/// carries zero usage in every band.
proof fn lemma_station_summaries_zero(rs: Seq<RecordView>, k: Seq<char>)
    requires
        forall|j: int, b: Band|
            0 <= j < rs.len() && rs[j].station == k ==> #[trigger] band_entries(rs[j], b) is None
                && band_exits(rs[j], b) is None,
    ensures
        forall|j: int, b: Band|
            0 <= j < station_summaries(rs, k).len() ==> #[trigger] band_value(
                station_summaries(rs, k)[j],
                b,
            ) == 0,
    decreases rs.len(),
{
    if rs.len() > 0 {
        assert forall|j: int, b: Band|
            0 <= j < rs.len() - 1 && rs.drop_last()[j].station == k implies #[trigger] band_entries(
            rs.drop_last()[j],
            b,
        ) is None && band_exits(rs.drop_last()[j], b) is None by {
            assert(rs.drop_last()[j] == rs[j]);
        }
        lemma_station_summaries_zero(rs.drop_last(), k);
        let prev = station_summaries(rs.drop_last(), k);
        if rs.last().station == k {
            assert forall|b: Band|
                #[trigger] band_value(summary_of_record_at(rs, rs.len() - 1), b) == 0 by {
                assert(rs[rs.len() - 1].station == k);
                crate::record::lemma_missing_counts_zero_usage(rs[rs.len() - 1], b);
            }
            assert forall|j: int, b: Band|
                0 <= j < station_summaries(rs, k).len() implies #[trigger] band_value(
                station_summaries(rs, k)[j],
                b,
            ) == 0 by {
                if j < prev.len() {
                    assert(station_summaries(rs, k)[j] == prev[j]);
                } else {
                    assert(station_summaries(rs, k)[j] == summary_of_record_at(rs, rs.len() - 1));
                }
            }
        }
    }
}

/// The summary derived from the record at one position.
spec fn summary_of_record_at(rs: Seq<RecordView>, j: int) -> SummaryView {
    crate::record::summary_of_record(rs[j])
}

/// The running state of the global min/max scan: for each band, the
/// largest usage seen and its station, and the smallest usage seen and
/// its station.
///
/// Maxima start at zero and minima at the largest 64-bit value, each
/// with an empty station name; a later summary takes a slot only by a
/// strictly greater (for max) or strictly smaller (for min) usage, so
/// ties keep the first-seen station.
#[derive(Debug)]
pub struct Extremes {
    pub max_morning: i64,
    pub max_morning_station: String,
    pub max_afternoon: i64,
    pub max_afternoon_station: String,
    pub max_evening: i64,
    pub max_evening_station: String,
    pub max_night: i64,
    pub max_night_station: String,
    pub min_morning: i64,
    pub min_morning_station: String,
    pub min_afternoon: i64,
    pub min_afternoon_station: String,
    pub min_evening: i64,
    pub min_evening_station: String,
    pub min_night: i64,
    pub min_night_station: String,
}

/// Mathematical image of `Extremes`.
pub ghost struct ExtremesView {
    pub max_morning: int,
    pub max_morning_station: Seq<char>,
    pub max_afternoon: int,
    pub max_afternoon_station: Seq<char>,
    pub max_evening: int,
    pub max_evening_station: Seq<char>,
    pub max_night: int,
    pub max_night_station: Seq<char>,
    pub min_morning: int,
    pub min_morning_station: Seq<char>,
    pub min_afternoon: int,
    pub min_afternoon_station: Seq<char>,
    pub min_evening: int,
    pub min_evening_station: Seq<char>,
    pub min_night: int,
    pub min_night_station: Seq<char>,
}

impl View for Extremes {
    type V = ExtremesView;

    open spec fn view(&self) -> ExtremesView {
        ExtremesView {
            max_morning: self.max_morning as int,
            max_morning_station: self.max_morning_station@,
            max_afternoon: self.max_afternoon as int,
            max_afternoon_station: self.max_afternoon_station@,
            max_evening: self.max_evening as int,
            max_evening_station: self.max_evening_station@,
            max_night: self.max_night as int,
            max_night_station: self.max_night_station@,
            min_morning: self.min_morning as int,
            min_morning_station: self.min_morning_station@,
            min_afternoon: self.min_afternoon as int,
            min_afternoon_station: self.min_afternoon_station@,
            min_evening: self.min_evening as int,
            min_evening_station: self.min_evening_station@,
            min_night: self.min_night as int,
            min_night_station: self.min_night_station@,
        }
    }
}

/// The scan's starting state: maxima at zero, minima at the largest
/// 64-bit value, no stations.
pub open spec fn initial_extremes() -> ExtremesView {
    ExtremesView {
        max_morning: 0,
        max_morning_station: Seq::empty(),
        max_afternoon: 0,
        max_afternoon_station: Seq::empty(),
        max_evening: 0,
        max_evening_station: Seq::empty(),
        max_night: 0,
        max_night_station: Seq::empty(),
        min_morning: 0x7fff_ffff_ffff_ffff,
        min_morning_station: Seq::empty(),
        min_afternoon: 0x7fff_ffff_ffff_ffff,
        min_afternoon_station: Seq::empty(),
        min_evening: 0x7fff_ffff_ffff_ffff,
        min_evening_station: Seq::empty(),
        min_night: 0x7fff_ffff_ffff_ffff,
        min_night_station: Seq::empty(),
    }
}

/// One scan step: each band's maximum and minimum are updated
/// independently, under strict inequality only.
pub open spec fn step_extremes(e: ExtremesView, name: Seq<char>, s: SummaryView) -> ExtremesView {
    ExtremesView {
        max_morning: if s.morning > e.max_morning {
            s.morning
        } else {
            e.max_morning
        },
        max_morning_station: if s.morning > e.max_morning {
            name
        } else {
            e.max_morning_station
        },
        max_afternoon: if s.afternoon > e.max_afternoon {
            s.afternoon
        } else {
            e.max_afternoon
        },
        max_afternoon_station: if s.afternoon > e.max_afternoon {
            name
        } else {
            e.max_afternoon_station
        },
        max_evening: if s.evening > e.max_evening {
            s.evening
        } else {
            e.max_evening
        },
        max_evening_station: if s.evening > e.max_evening {
            name
        } else {
            e.max_evening_station
        },
        max_night: if s.night > e.max_night {
            s.night
        } else {
            e.max_night
        },
        max_night_station: if s.night > e.max_night {
            name
        } else {
            e.max_night_station
        },
        min_morning: if s.morning < e.min_morning {
            s.morning
        } else {
            e.min_morning
        },
        min_morning_station: if s.morning < e.min_morning {
            name
        } else {
            e.min_morning_station
        },
        min_afternoon: if s.afternoon < e.min_afternoon {
            s.afternoon
        } else {
            e.min_afternoon
        },
        min_afternoon_station: if s.afternoon < e.min_afternoon {
            name
        } else {
            e.min_afternoon_station
        },
        min_evening: if s.evening < e.min_evening {
            s.evening
        } else {
            e.min_evening
        },
        min_evening_station: if s.evening < e.min_evening {
            name
        } else {
            e.min_evening_station
        },
        min_night: if s.night < e.min_night {
            s.night
        } else {
            e.min_night
        },
        min_night_station: if s.night < e.min_night {
            name
        } else {
            e.min_night_station
        },
    }
}

/// The scan folded over one station's summaries, in order.
pub open spec fn fold_station(e: ExtremesView, name: Seq<char>, ss: Seq<SummaryView>) -> ExtremesView
    decreases ss.len(),
{
    if ss.len() == 0 {
        e
    } else {
        step_extremes(fold_station(e, name, ss.drop_last()), name, ss.last())
    }
}

/// The scan folded over the whole index, station entries in order.
pub open spec fn fold_index(e: ExtremesView, m: Seq<(Seq<char>, Seq<SummaryView>)>) -> ExtremesView
    decreases m.len(),
{
    if m.len() == 0 {
        e
    } else {
        fold_station(fold_index(e, m.drop_last()), m.last().0, m.last().1)
    }
}

/// The global extremes of an index: the scan from the starting state
/// over every summary of every station.
pub open spec fn extremes_of(m: Seq<(Seq<char>, Seq<SummaryView>)>) -> ExtremesView {
    fold_index(initial_extremes(), m)
}

/// Whether every maximum of `b` is at least the matching maximum of `a`,
/// and every minimum of `b` at most the matching minimum of `a`.
pub open spec fn extremes_widen(a: ExtremesView, b: ExtremesView) -> bool {
    &&& b.max_morning >= a.max_morning
    &&& b.max_afternoon >= a.max_afternoon
    &&& b.max_evening >= a.max_evening
    &&& b.max_night >= a.max_night
    &&& b.min_morning <= a.min_morning
    &&& b.min_afternoon <= a.min_afternoon
    &&& b.min_evening <= a.min_evening
    &&& b.min_night <= a.min_night
}

/// Whether the extremes cover a summary: each band's usage lies between
/// the band's minimum and maximum.
pub open spec fn extremes_cover(e: ExtremesView, s: SummaryView) -> bool {
    &&& e.min_morning <= s.morning <= e.max_morning
    &&& e.min_afternoon <= s.afternoon <= e.max_afternoon
    &&& e.min_evening <= s.evening <= e.max_evening
    &&& e.min_night <= s.night <= e.max_night
}

/// Folding a station's summaries only widens the extremes, and covers
/// every summary folded in.
proof fn lemma_fold_station_widens(e: ExtremesView, name: Seq<char>, ss: Seq<SummaryView>)
    ensures
        extremes_widen(e, fold_station(e, name, ss)),
        forall|j: int|
            0 <= j < ss.len() ==> extremes_cover(fold_station(e, name, ss), #[trigger] ss[j]),
    decreases ss.len(),
{
    if ss.len() > 0 {
        lemma_fold_station_widens(e, name, ss.drop_last());
        assert forall|j: int|
            0 <= j < ss.len() implies extremes_cover(fold_station(e, name, ss), #[trigger] ss[j]) by {
            if j < ss.len() - 1 {
                assert(ss.drop_last()[j] == ss[j]);
            }
        }
    }
}

/// Folding the whole index only widens the extremes, and covers every
/// summary of every station.
proof fn lemma_fold_index_widens(e: ExtremesView, m: Seq<(Seq<char>, Seq<SummaryView>)>)
    ensures
        extremes_widen(e, fold_index(e, m)),
        forall|i: int, j: int|
            0 <= i < m.len() && 0 <= j < m[i].1.len() ==> extremes_cover(
                fold_index(e, m),
                #[trigger] m[i].1[j],
            ),
    decreases m.len(),
{
    if m.len() > 0 {
        lemma_fold_index_widens(e, m.drop_last());
        let mid = fold_index(e, m.drop_last());
        lemma_fold_station_widens(mid, m.last().0, m.last().1);
        assert forall|i: int, j: int|
            0 <= i < m.len() && 0 <= j < m[i].1.len() implies extremes_cover(
            fold_index(e, m),
            #[trigger] m[i].1[j],
        ) by {
            if i < m.len() - 1 {
                assert(m.drop_last()[i] == m[i]);
            }
        }
    }
}

/// The reported extremes bound every usage in the index: for each band,
/// no summary's usage exceeds the band's maximum or undercuts its
/// minimum.
pub proof fn lemma_extremes_cover_index(m: Seq<(Seq<char>, Seq<SummaryView>)>)
    ensures
        forall|i: int, j: int|
            0 <= i < m.len() && 0 <= j < m[i].1.len() ==> extremes_cover(
                extremes_of(m),
                #[trigger] m[i].1[j],
            ),
{
    lemma_fold_index_widens(initial_extremes(), m);
}

/// One band's maximum usage in the scan state.
pub open spec fn max_of(e: ExtremesView, b: Band) -> int {
    match b {
        Band::Morning => e.max_morning,
        Band::Afternoon => e.max_afternoon,
        Band::Evening => e.max_evening,
        Band::Night => e.max_night,
    }
}

/// One band's maximum-holding station in the scan state.
pub open spec fn max_station_of(e: ExtremesView, b: Band) -> Seq<char> {
    match b {
        Band::Morning => e.max_morning_station,
        Band::Afternoon => e.max_afternoon_station,
        Band::Evening => e.max_evening_station,
        Band::Night => e.max_night_station,
    }
}

/// One band's minimum usage in the scan state.
pub open spec fn min_of(e: ExtremesView, b: Band) -> int {
    match b {
        Band::Morning => e.min_morning,
        Band::Afternoon => e.min_afternoon,
        Band::Evening => e.min_evening,
        Band::Night => e.min_night,
    }
}

/// One band's minimum-holding station in the scan state.
pub open spec fn min_station_of(e: ExtremesView, b: Band) -> Seq<char> {
    match b {
        Band::Morning => e.min_morning_station,
        Band::Afternoon => e.min_afternoon_station,
        Band::Evening => e.min_evening_station,
        Band::Night => e.min_night_station,
    }
}

/// Whether some summary of the named station in the index gives the band
/// exactly this usage.
pub open spec fn attains(
    m: Seq<(Seq<char>, Seq<SummaryView>)>,
    name: Seq<char>,
    v: int,
    b: Band,
) -> bool {
    exists|i: int, j: int|
        0 <= i < m.len() && 0 <= j < m[i].1.len() && m[i].0 == name && #[trigger] band_value(
            m[i].1[j],
            b,
        ) == v
}

/// After folding one station, each band's maximum slot is either
/// untouched or attained by one of the station's own summaries; likewise
/// each minimum slot.
proof fn lemma_fold_station_attains(e: ExtremesView, name: Seq<char>, ss: Seq<SummaryView>, b: Band)
    ensures
        ({
            let f = fold_station(e, name, ss);
            &&& ((max_of(f, b) == max_of(e, b) && max_station_of(f, b) == max_station_of(e, b))
                || (max_station_of(f, b) == name && exists|j: int|
                0 <= j < ss.len() && #[trigger] band_value(ss[j], b) == max_of(f, b)))
            &&& ((min_of(f, b) == min_of(e, b) && min_station_of(f, b) == min_station_of(e, b))
                || (min_station_of(f, b) == name && exists|j: int|
                0 <= j < ss.len() && #[trigger] band_value(ss[j], b) == min_of(f, b)))
        }),
    decreases ss.len(),
{
    if ss.len() > 0 {
        lemma_fold_station_attains(e, name, ss.drop_last(), b);
        let mid = fold_station(e, name, ss.drop_last());
        let f = fold_station(e, name, ss);
        let s = ss.last();
        if b is Morning {
            assert(band_value(s, b) == s.morning);
        } else if b is Afternoon {
            assert(band_value(s, b) == s.afternoon);
        } else if b is Evening {
            assert(band_value(s, b) == s.evening);
        } else {
            assert(band_value(s, b) == s.night);
        }
        if band_value(s, b) > max_of(mid, b) {
            assert(band_value(ss[ss.len() - 1], b) == max_of(f, b));
        } else {
            if max_station_of(mid, b) == name && exists|j: int|
                0 <= j < ss.drop_last().len() && #[trigger] band_value(ss.drop_last()[j], b)
                    == max_of(mid, b) {
                let j = choose|j: int|
                    0 <= j < ss.drop_last().len() && #[trigger] band_value(ss.drop_last()[j], b)
                        == max_of(mid, b);
                assert(ss.drop_last()[j] == ss[j]);
                assert(band_value(ss[j], b) == max_of(f, b));
            }
        }
        if band_value(s, b) < min_of(mid, b) {
            assert(band_value(ss[ss.len() - 1], b) == min_of(f, b));
        } else {
            if min_station_of(mid, b) == name && exists|j: int|
                0 <= j < ss.drop_last().len() && #[trigger] band_value(ss.drop_last()[j], b)
                    == min_of(mid, b) {
                let j = choose|j: int|
                    0 <= j < ss.drop_last().len() && #[trigger] band_value(ss.drop_last()[j], b)
                        == min_of(mid, b);
                assert(ss.drop_last()[j] == ss[j]);
                assert(band_value(ss[j], b) == min_of(f, b));
            }
        }
    }
}

/// After folding the whole index, each band's maximum slot is either
/// still the starting one or attained by a summary of the station it
/// names; likewise each minimum slot.
proof fn lemma_fold_index_attains(e: ExtremesView, m: Seq<(Seq<char>, Seq<SummaryView>)>, b: Band)
    ensures
        ({
            let f = fold_index(e, m);
            &&& ((max_of(f, b) == max_of(e, b) && max_station_of(f, b) == max_station_of(e, b))
                || attains(m, max_station_of(f, b), max_of(f, b), b))
            &&& ((min_of(f, b) == min_of(e, b) && min_station_of(f, b) == min_station_of(e, b))
                || attains(m, min_station_of(f, b), min_of(f, b), b))
        }),
    decreases m.len(),
{
    if m.len() > 0 {
        lemma_fold_index_attains(e, m.drop_last(), b);
        let mid = fold_index(e, m.drop_last());
        let f = fold_index(e, m);
        lemma_fold_station_attains(mid, m.last().0, m.last().1, b);
        if attains(m.drop_last(), max_station_of(mid, b), max_of(mid, b), b) {
            let (i, j) = choose|i: int, j: int|
                0 <= i < m.drop_last().len() && 0 <= j < m.drop_last()[i].1.len()
                    && m.drop_last()[i].0 == max_station_of(mid, b) && #[trigger] band_value(
                    m.drop_last()[i].1[j],
                    b,
                ) == max_of(mid, b);
            assert(m.drop_last()[i] == m[i]);
            assert(band_value(m[i].1[j], b) == max_of(mid, b));
        }
        if attains(m.drop_last(), min_station_of(mid, b), min_of(mid, b), b) {
            let (i, j) = choose|i: int, j: int|
                0 <= i < m.drop_last().len() && 0 <= j < m.drop_last()[i].1.len()
                    && m.drop_last()[i].0 == min_station_of(mid, b) && #[trigger] band_value(
                    m.drop_last()[i].1[j],
                    b,
                ) == min_of(mid, b);
            assert(m.drop_last()[i] == m[i]);
            assert(band_value(m[i].1[j], b) == min_of(mid, b));
        }
        if max_of(f, b) != max_of(mid, b) || max_station_of(f, b) != max_station_of(mid, b) {
            let j = choose|j: int|
                0 <= j < m.last().1.len() && #[trigger] band_value(m.last().1[j], b) == max_of(
                    f,
                    b,
                );
            assert(band_value(m[m.len() - 1].1[j], b) == max_of(f, b));
        }
        if min_of(f, b) != min_of(mid, b) || min_station_of(f, b) != min_station_of(mid, b) {
            let j = choose|j: int|
                0 <= j < m.last().1.len() && #[trigger] band_value(m.last().1[j], b) == min_of(
                    f,
                    b,
                );
            assert(band_value(m[m.len() - 1].1[j], b) == min_of(f, b));
        }
    }
}

/// The reported holders attain their reported values: whenever a band's
/// maximum has moved off its starting zero, some summary of the
/// max-holding station gives the band exactly that usage, and whenever a
/// band's minimum has moved below its starting value, some summary of
/// the min-holding station gives the band exactly that usage.
pub proof fn lemma_extremes_attained(m: Seq<(Seq<char>, Seq<SummaryView>)>, b: Band)
    ensures
        max_of(extremes_of(m), b) != 0 ==> attains(
            m,
            max_station_of(extremes_of(m), b),
            max_of(extremes_of(m), b),
            b,
        ),
        min_of(extremes_of(m), b) != 0x7fff_ffff_ffff_ffff ==> attains(
            m,
            min_station_of(extremes_of(m), b),
            min_of(extremes_of(m), b),
            b,
        ),
{
    lemma_fold_index_attains(initial_extremes(), m, b);
}

/// Applies one summary to the running extremes.
fn apply_summary(acc: &mut Extremes, name: &String, s: &UsageSummary)
    ensures
        final(acc)@ == step_extremes(old(acc)@, name@, s@),
{
    if s.morning > acc.max_morning {
        acc.max_morning = s.morning;
        acc.max_morning_station = name.clone();
    }
    if s.afternoon > acc.max_afternoon {
        acc.max_afternoon = s.afternoon;
        acc.max_afternoon_station = name.clone();
    }
    if s.evening > acc.max_evening {
        acc.max_evening = s.evening;
        acc.max_evening_station = name.clone();
    }
    if s.night > acc.max_night {
        acc.max_night = s.night;
        acc.max_night_station = name.clone();
    }
    if s.morning < acc.min_morning {
        acc.min_morning = s.morning;
        acc.min_morning_station = name.clone();
    }
    if s.afternoon < acc.min_afternoon {
        acc.min_afternoon = s.afternoon;
        acc.min_afternoon_station = name.clone();
    }
    if s.evening < acc.min_evening {
        acc.min_evening = s.evening;
        acc.min_evening_station = name.clone();
    }
    if s.night < acc.min_night {
        acc.min_night = s.night;
        acc.min_night_station = name.clone();
    }
}

/// Scans every summary of every station and reports, for each band, the
/// station holding the maximum usage and the station holding the
/// minimum.
pub fn max_min(index: &StationIndex) -> (r: Extremes)
    ensures
        r@ == extremes_of(index@),
{
    let ghost m = index@;
    let mut acc = Extremes {
        max_morning: 0,
        max_morning_station: String::new(),
        max_afternoon: 0,
        max_afternoon_station: String::new(),
        max_evening: 0,
        max_evening_station: String::new(),
        max_night: 0,
        max_night_station: String::new(),
        min_morning: i64::MAX,
        min_morning_station: String::new(),
        min_afternoon: i64::MAX,
        min_afternoon_station: String::new(),
        min_evening: i64::MAX,
        min_evening_station: String::new(),
        min_night: i64::MAX,
        min_night_station: String::new(),
    };
    proof {
        assert(acc@ == initial_extremes());
        assert(m.take(0) =~= Seq::<(Seq<char>, Seq<SummaryView>)>::empty());
    }
    let mut i: usize = 0;
    while i < index.entries.len()
        invariant
            0 <= i <= index.entries.len(),
            m == index@,
            m.len() == index.entries.len(),
            acc@ == fold_index(initial_extremes(), m.take(i as int)),
        decreases index.entries.len() - i,
    {
        let entry = &index.entries[i];
        let ghost name_v = m[i as int].0;
        let ghost ss_v = m[i as int].1;
        proof {
            assert(entry@ == m[i as int]);
            assert(ss_v.take(0) =~= Seq::<SummaryView>::empty());
        }
        let mut j: usize = 0;
        while j < entry.summaries.len()
            invariant
                0 <= j <= entry.summaries.len(),
                entry@ == m[i as int],
                name_v == entry.name@,
                ss_v == entry.summaries.deep_view(),
                ss_v.len() == entry.summaries.len(),
                acc@ == fold_station(
                    fold_index(initial_extremes(), m.take(i as int)),
                    name_v,
                    ss_v.take(j as int),
                ),
            decreases entry.summaries.len() - j,
        {
            proof {
                assert(ss_v.take(j + 1).drop_last() =~= ss_v.take(j as int));
                assert(ss_v.take(j + 1).last() == ss_v[j as int]);
                assert(entry.summaries@[j as int]@ == ss_v[j as int]);
            }
            apply_summary(&mut acc, &entry.name, &entry.summaries[j]);
            j = j + 1;
        }
        proof {
            assert(ss_v.take(entry.summaries@.len() as int) =~= ss_v);
            assert(m.take(i + 1).drop_last() =~= m.take(i as int));
            assert(m.take(i + 1).last() == m[i as int]);
        }
        i = i + 1;
    }
    proof {
        assert(m.take(i as int) =~= m);
    }
    acc
}

impl StationIndex {
    /// The busiest band of the named station and its usage, or `None`
    /// where the input never named the station.
    pub fn busiest_time(&self, name: &String) -> (r: Option<(Band, i64)>)
        ensures
            match key_at(self@, name@) {
                Some(i) => (r matches Some(p) && (p.0, p.1 as int) == busiest_over(
                    summaries_of(self@, name@),
                )),
                None => r is None,
            },
    {
        match self.position_of(name) {
            None => None,
            Some(i) => {
                proof {
                    lemma_key_at_first_match(self@, name@);
                }
                let ss: &Vec<UsageSummary> = &self.entries[i].summaries;
                let ghost sv = ss.deep_view();
                proof {
                    assert(sv == summaries_of(self@, name@));
                    assert(sv.take(0) =~= Seq::<SummaryView>::empty());
                }
                let mut best: (Band, i64) = (Band::Morning, 0);
                let mut j: usize = 0;
                while j < ss.len()
                    invariant
                        0 <= j <= ss.len(),
                        sv == ss.deep_view(),
                        sv.len() == ss.len(),
                        (best.0, best.1 as int) == busiest_over(sv.take(j as int)),
                    decreases ss.len() - j,
                {
                    let cur: (Band, i64) = ss[j].get_busiest_time();
                    proof {
                        assert(sv.take(j + 1).drop_last() =~= sv.take(j as int));
                        assert(sv.take(j + 1).last() == sv[j as int]);
                        assert(ss@[j as int]@ == sv[j as int]);
                    }
                    if cur.1 > best.1 {
                        best = cur;
                    }
                    j = j + 1;
                }
                proof {
                    assert(sv.take(j as int) =~= sv);
                }
                Some(best)
            },
        }
    }
}

} // verus!
