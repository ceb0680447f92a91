//! Grouping usage summaries by station.
//!
//! The aggregator folds the records in input order: each row's summary is
//! appended to the sequence of the row's station, a station first seen
//! getting a fresh one-element sequence. The index therefore keeps one
//! entry per distinct station name, in order of first appearance, and
//! each entry's summaries in input order.

use vstd::prelude::*;

use crate::record::RawRecord;
use crate::record::RecordView;
use crate::record::SummaryView;
use crate::record::UsageSummary;
use crate::record::summary_of_record;

verus! {

/// The position of the first entry with the given station name.
pub open spec fn key_at(m: Seq<(Seq<char>, Seq<SummaryView>)>, k: Seq<char>) -> Option<int>
    decreases m.len(),
{
    if m.len() == 0 {
        None
    } else if m[0].0 == k {
        Some(0int)
    } else {
        match key_at(m.drop_first(), k) {
            Some(i) => Some(i + 1),
            None => None,
        }
    }
}

/// Whether some entry carries the given station name.
pub open spec fn has_station(m: Seq<(Seq<char>, Seq<SummaryView>)>, k: Seq<char>) -> bool {
    key_at(m, k) is Some
}

/// The summaries of the first entry with the given station name.
pub open spec fn summaries_of(m: Seq<(Seq<char>, Seq<SummaryView>)>, k: Seq<char>) -> Seq<
    SummaryView,
> {
    m[key_at(m, k)->Some_0].1
}

/// `key_at` names the first entry with the given name, and `None` means
/// no entry has it.
pub proof fn lemma_key_at_first_match(m: Seq<(Seq<char>, Seq<SummaryView>)>, k: Seq<char>)
    ensures
        match key_at(m, k) {
            Some(i) => 0 <= i < m.len() && m[i].0 == k && forall|j: int|
                0 <= j < i ==> m[j].0 != k,
            None => forall|j: int| 0 <= j < m.len() ==> m[j].0 != k,
        },
    decreases m.len(),
{
    if m.len() > 0 && m[0].0 != k {
        lemma_key_at_first_match(m.drop_first(), k);
        match key_at(m.drop_first(), k) {
            Some(i) => {
                assert(m.drop_first()[i] == m[i + 1]);
                assert forall|j: int| 0 <= j < i + 1 implies m[j].0 != k by {
                    if j > 0 {
                        assert(m.drop_first()[j - 1] == m[j]);
                    }
                }
            },
            None => {
                assert forall|j: int| 0 <= j < m.len() implies m[j].0 != k by {
                    if j > 0 {
                        assert(m.drop_first()[j - 1] == m[j]);
                    }
                }
            },
        }
    }
}

/// One grouping step: the summary is appended to its station's entry, a
/// new station getting a fresh entry at the end.
pub open spec fn insert_summary(
    m: Seq<(Seq<char>, Seq<SummaryView>)>,
    k: Seq<char>,
    s: SummaryView,
) -> Seq<(Seq<char>, Seq<SummaryView>)> {
    match key_at(m, k) {
        Some(i) => m.update(i, (k, m[i].1.push(s))),
        None => m.push((k, seq![s])),
    }
}

/// The station index the aggregation derives from a sequence of records,
/// folding them in input order.
pub open spec fn index_of_records(rs: Seq<RecordView>) -> Seq<(Seq<char>, Seq<SummaryView>)>
    decreases rs.len(),
{
    if rs.len() == 0 {
        Seq::empty()
    } else {
        insert_summary(
            index_of_records(rs.drop_last()),
            rs.last().station,
            summary_of_record(rs.last()),
        )
    }
}

/// How many records name the given station.
pub open spec fn station_row_count(rs: Seq<RecordView>, k: Seq<char>) -> int
    decreases rs.len(),
{
    if rs.len() == 0 {
        0
    } else {
        station_row_count(rs.drop_last(), k) + if rs.last().station == k {
            1int
        } else {
            0int
        }
    }
}

/// The summaries of the records naming a station, in input order.
pub open spec fn station_summaries(rs: Seq<RecordView>, k: Seq<char>) -> Seq<SummaryView>
    decreases rs.len(),
{
    if rs.len() == 0 {
        Seq::empty()
    } else {
        let prev = station_summaries(rs.drop_last(), k);
        if rs.last().station == k {
            prev.push(summary_of_record(rs.last()))
        } else {
            prev
        }
    }
}

/// A station is named by a non-negative number of records, and its
/// summaries are as many as the records naming it.
proof fn lemma_station_row_count_nonneg(rs: Seq<RecordView>, k: Seq<char>)
    ensures
        station_row_count(rs, k) >= 0,
        station_summaries(rs, k).len() == station_row_count(rs, k),
    decreases rs.len(),
{
    if rs.len() > 0 {
        lemma_station_row_count_nonneg(rs.drop_last(), k);
    }
}

/// Whether no two entries share a station name.
pub open spec fn distinct_stations(m: Seq<(Seq<char>, Seq<SummaryView>)>) -> bool {
    forall|i: int, j: int| 0 <= i < j < m.len() ==> (#[trigger] m[i].0) != (#[trigger] m[j].0)
}

/// One grouping step keeps station names distinct, adds the summary to
/// exactly its station, and leaves every other entry alone.
proof fn lemma_insert_summary(m: Seq<(Seq<char>, Seq<SummaryView>)>, k: Seq<char>, s: SummaryView)
    requires
        distinct_stations(m),
    ensures
        distinct_stations(insert_summary(m, k, s)),
        has_station(insert_summary(m, k, s), k),
        summaries_of(insert_summary(m, k, s), k) == if has_station(m, k) {
            summaries_of(m, k).push(s)
        } else {
            seq![s]
        },
        forall|k2: Seq<char>|
            k2 != k ==> #[trigger] has_station(insert_summary(m, k, s), k2) == has_station(m, k2),
        forall|k2: Seq<char>|
            k2 != k && has_station(m, k2) ==> #[trigger] summaries_of(insert_summary(m, k, s), k2)
                == summaries_of(m, k2),
{
    lemma_key_at_first_match(m, k);
    let m2 = insert_summary(m, k, s);
    match key_at(m, k) {
        Some(i) => {
            assert forall|k2: Seq<char>| true implies #[trigger] key_at(m2, k2) == key_at(m, k2) by {
                lemma_key_at_update(m, i, (k, m[i].1.push(s)), k2);
            }
            assert(summaries_of(m2, k) == m[i].1.push(s));
            assert forall|i2: int, j2: int| 0 <= i2 < j2 < m2.len() implies (#[trigger] m2[i2].0)
                != (#[trigger] m2[j2].0) by {
                assert(m2[i2].0 == m[i2].0);
                assert(m2[j2].0 == m[j2].0);
            }
            assert forall|k2: Seq<char>|
                k2 != k && has_station(m, k2) implies #[trigger] summaries_of(m2, k2)
                == summaries_of(m, k2) by {
                lemma_key_at_first_match(m, k2);
                assert(key_at(m, k2)->Some_0 != i);
                assert(m2[key_at(m, k2)->Some_0] == m[key_at(m, k2)->Some_0]);
            }
        },
        None => {
            assert forall|k2: Seq<char>| true implies #[trigger] key_at(m2, k2) == (if k2 == k {
                Some(m.len() as int)
            } else {
                key_at(m, k2)
            }) by {
                lemma_key_at_push(m, (k, seq![s]), k2);
            }
            assert(m2[m.len() as int].1 == seq![s]);
            assert forall|i2: int, j2: int| 0 <= i2 < j2 < m2.len() implies (#[trigger] m2[i2].0)
                != (#[trigger] m2[j2].0) by {
                lemma_key_at_first_match(m, k);
                if j2 == m.len() {
                    assert(m2[i2].0 == m[i2].0);
                }
            }
            assert forall|k2: Seq<char>|
                k2 != k && has_station(m, k2) implies #[trigger] summaries_of(m2, k2)
                == summaries_of(m, k2) by {
                lemma_key_at_first_match(m, k2);
                assert(m2[key_at(m, k2)->Some_0] == m[key_at(m, k2)->Some_0]);
            }
        },
    }
}

/// Looking a name up is unaffected by replacing an entry, provided the
/// replacement keeps the entry's name.
proof fn lemma_key_at_update(
    m: Seq<(Seq<char>, Seq<SummaryView>)>,
    i: int,
    p: (Seq<char>, Seq<SummaryView>),
    k2: Seq<char>,
)
    requires
        0 <= i < m.len(),
        p.0 == m[i].0,
    ensures
        key_at(m.update(i, p), k2) == key_at(m, k2),
    decreases m.len(),
{
    if m.len() > 0 {
        if i == 0 {
            assert(m.update(i, p)[0].0 == m[0].0);
            if m[0].0 != k2 {
                assert(m.update(i, p).drop_first() =~= m.drop_first());
            }
        } else {
            assert(m.update(i, p)[0] == m[0]);
            if m[0].0 != k2 {
                assert(m.update(i, p).drop_first() =~= m.drop_first().update(i - 1, p));
                lemma_key_at_update(m.drop_first(), i - 1, p, k2);
            }
        }
    }
}

/// Looking a name up after appending an entry: the new entry is found
/// only where no earlier entry has its name.
proof fn lemma_key_at_push(
    m: Seq<(Seq<char>, Seq<SummaryView>)>,
    p: (Seq<char>, Seq<SummaryView>),
    k2: Seq<char>,
)
    ensures
        key_at(m.push(p), k2) == (match key_at(m, k2) {
            Some(i) => Some(i),
            None => if p.0 == k2 {
                Some(m.len() as int)
            } else {
                None
            },
        }),
    decreases m.len(),
{
    if m.len() == 0 {
        assert(m.push(p)[0] == p);
        if p.0 != k2 {
            assert(m.push(p).drop_first() =~= Seq::<(Seq<char>, Seq<SummaryView>)>::empty());
        }
    } else {
        assert(m.push(p)[0] == m[0]);
        if m[0].0 != k2 {
            assert(m.push(p).drop_first() =~= m.drop_first().push(p));
            lemma_key_at_push(m.drop_first(), p, k2);
        }
    }
}

/// The index of a record sequence has one entry for a station exactly
/// when some record names it, no two entries share a name, and a present
/// station's entry holds the summaries of the records naming it, in
/// input order — in particular one summary per such record.
pub proof fn lemma_index_of_records_complete(rs: Seq<RecordView>, k: Seq<char>)
    ensures
        distinct_stations(index_of_records(rs)),
        has_station(index_of_records(rs), k) <==> station_row_count(rs, k) > 0,
        has_station(index_of_records(rs), k) ==> summaries_of(index_of_records(rs), k)
            == station_summaries(rs, k),
        has_station(index_of_records(rs), k) ==> summaries_of(index_of_records(rs), k).len()
            == station_row_count(rs, k),
    decreases rs.len(),
{
    if rs.len() > 0 {
        let prev = index_of_records(rs.drop_last());
        let last = rs.last();
        lemma_index_of_records_complete(rs.drop_last(), k);
        lemma_insert_summary(prev, last.station, summary_of_record(last));
        assert(index_of_records(rs) == insert_summary(
            prev,
            last.station,
            summary_of_record(last),
        ));
        if k == last.station {
            assert(has_station(index_of_records(rs), k));
            assert(station_row_count(rs, k) == station_row_count(rs.drop_last(), k) + 1);
            if has_station(prev, k) {
                assert(summaries_of(index_of_records(rs), k) == summaries_of(prev, k).push(
                    summary_of_record(last),
                ));
            } else {
                assert(summaries_of(index_of_records(rs), k) == seq![summary_of_record(last)]);
                lemma_station_row_count_nonneg(rs.drop_last(), k);
                assert(station_row_count(rs.drop_last(), k) == 0);
                assert(station_summaries(rs.drop_last(), k) =~= Seq::<SummaryView>::empty());
                assert(station_summaries(rs, k) =~= seq![summary_of_record(last)]);
            }
        } else {
            assert(has_station(index_of_records(rs), k) == has_station(prev, k));
            assert(station_row_count(rs, k) == station_row_count(rs.drop_last(), k));
        }
    }
}

/// One station's entry: its name and its summaries, one per input row
/// naming the station, in input order.
#[derive(Debug)]
pub struct StationEntry {
    pub name: String,
    pub summaries: Vec<UsageSummary>,
}

impl View for StationEntry {
    type V = (Seq<char>, Seq<SummaryView>);

    open spec fn view(&self) -> (Seq<char>, Seq<SummaryView>) {
        (self.name@, self.summaries.deep_view())
    }
}

impl DeepView for StationEntry {
    type V = (Seq<char>, Seq<SummaryView>);

    open spec fn deep_view(&self) -> (Seq<char>, Seq<SummaryView>) {
        self.view()
    }
}

/// The mapping from station name to that station's usage summaries,
/// entries in order of first appearance in the input.
#[derive(Debug)]
pub struct StationIndex {
    pub entries: Vec<StationEntry>,
}

impl View for StationIndex {
    type V = Seq<(Seq<char>, Seq<SummaryView>)>;

    open spec fn view(&self) -> Seq<(Seq<char>, Seq<SummaryView>)> {
        self.entries.deep_view()
    }
}

impl StationIndex {
    /// How many distinct stations the index holds.
    pub fn station_count(&self) -> (r: usize)
        ensures
            r == self@.len(),
    {
        self.entries.len()
    }

    /// The position of the first entry named `name`.
    pub(crate) fn position_of(&self, name: &String) -> (r: Option<usize>)
        ensures
            match r {
                Some(i) => key_at(self@, name@) == Some(i as int),
                None => key_at(self@, name@) is None,
            },
    {
        let ghost m = self@;
        let mut i: usize = 0;
        while i < self.entries.len()
            invariant
                0 <= i <= self.entries.len(),
                m == self@,
                m.len() == self.entries.len(),
                forall|j: int| 0 <= j < i ==> (#[trigger] m[j]).0 != name@,
            decreases self.entries.len() - i,
        {
            if self.entries[i].name == *name {
                proof {
                    assert(m[i as int].0 == self.entries@[i as int].name@);
                    lemma_key_at_first_match(m, name@);
                }
                return Some(i);
            }
            i = i + 1;
        }
        proof {
            lemma_key_at_first_match(m, name@);
        }
        None
    }

    /// The summaries recorded for a station, or `None` for a station the
    /// input never named.
    pub fn load_station(&self, name: &String) -> (r: Option<Vec<UsageSummary>>)
        ensures
            match key_at(self@, name@) {
                Some(i) => (r matches Some(v) && v.deep_view() == summaries_of(self@, name@)),
                None => r is None,
            },
    {
        match self.position_of(name) {
            Some(i) => {
                proof {
                    lemma_key_at_first_match(self@, name@);
                }
                let src: &Vec<UsageSummary> = &self.entries[i].summaries;
                let mut out: Vec<UsageSummary> = Vec::new();
                let mut j: usize = 0;
                while j < src.len()
                    invariant
                        0 <= j <= src.len(),
                        out.deep_view() =~= src.deep_view().take(j as int),
                    decreases src.len() - j,
                {
                    let ghost out_before = out.deep_view();
                    let item = src[j].clone();
                    out.push(item);
                    proof {
                        assert(out.deep_view() =~= out_before.push(item.deep_view()));
                        assert(item.deep_view() == src.deep_view()[j as int]);
                        assert(out_before.push(item.deep_view()) =~= src.deep_view().take(j + 1));
                    }
                    j = j + 1;
                }
                proof {
                    assert(src.deep_view().take(src@.len() as int) =~= src.deep_view());
                    assert(src.deep_view() == summaries_of(self@, name@));
                }
                Some(out)
            },
            None => None,
        }
    }
}

/// Groups the records' summaries by station, in input order.
pub fn to_station_index(records: Vec<RawRecord>) -> (r: StationIndex)
    ensures
        r@ == index_of_records(records.deep_view()),
{
    let ghost rvs = records.deep_view();
    let mut ix = StationIndex { entries: Vec::new() };
    proof {
        assert(ix@ =~= index_of_records(rvs.take(0)));
        assert(rvs.take(0) =~= Seq::<RecordView>::empty());
    }
    let mut i: usize = 0;
    while i < records.len()
        invariant
            0 <= i <= records.len(),
            rvs == records.deep_view(),
            rvs.len() == records.len(),
            ix@ == index_of_records(rvs.take(i as int)),
        decreases records.len() - i,
    {
        let rec = &records[i];
        let summary = UsageSummary::of_record(rec);
        proof {
            assert(rvs.take(i + 1).drop_last() =~= rvs.take(i as int));
            assert(rvs.take(i + 1).last() == rec@);
        }
        let ghost before = ix@;
        match ix.position_of(&rec.station) {
            Some(p) => {
                proof {
                    lemma_key_at_first_match(before, rec.station@);
                }
                ix.entries[p].summaries.push(summary);
                proof {
                    assert(ix.entries@[p as int].summaries.deep_view() =~= before[p as int].1.push(
                        summary@,
                    ));
                    assert(ix@ =~= before.update(
                        p as int,
                        (rec.station@, before[p as int].1.push(summary@)),
                    ));
                    assert(before[p as int].0 == rec.station@) by {
                        lemma_key_at_first_match(before, rec.station@);
                    }
                }
            },
            None => {
                let entry = StationEntry { name: rec.station.clone(), summaries: vec![summary] };
                proof {
                    assert(entry@.1 =~= seq![summary@]);
                }
                ix.entries.push(entry);
                proof {
                    assert(ix@ =~= before.push((rec.station@, seq![summary@])));
                }
            },
        }
        i = i + 1;
    }
    proof {
        assert(rvs.take(i as int) =~= rvs);
    }
    ix
}

} // verus!
