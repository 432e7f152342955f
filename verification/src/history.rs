use vstd::prelude::*;

use crate::http::{HttpRecord, RecordImage};
use crate::views::{lemma_vec_deep_view_index, lemma_vec_deep_view_len};

verus! {

broadcast use lemma_vec_deep_view_index, lemma_vec_deep_view_len;

/// A calendar date, as plain numbers; what the log groups by.
#[derive(Clone, Copy, Debug, PartialEq, Eq, Structural)]
pub struct HistoryDate {
    pub year: i32,
    pub month: u32,
    pub day: u32,
}

impl DeepView for HistoryDate {
    type V = HistoryDate;

    open spec fn deep_view(&self) -> HistoryDate {
        *self
    }
}

/// Relies on chrono's `Local::now`, `DateTime::date_naive` and the
/// `Datelike` accessors: the local calendar date now, with the month in
/// 1..=12 and the day in 1..=31 as chrono documents them.
#[verifier::external_body]
fn today_date() -> (r: HistoryDate)
    ensures
        1 <= r.month <= 12,
        1 <= r.day <= 31,
{
    let now = chrono::Local::now().date_naive();
    HistoryDate {
        year: chrono::Datelike::year(&now),
        month: chrono::Datelike::month(&now),
        day: chrono::Datelike::day(&now),
    }
}

/// The append-only log of sent requests, each under the date it was sent.
#[derive(Clone, Debug, Default)]
pub struct HistoryDataList {
    pub records: Vec<(HistoryDate, HttpRecord)>,
}

impl DeepView for HistoryDataList {
    type V = Seq<(HistoryDate, RecordImage)>;

    open spec fn deep_view(&self) -> Seq<(HistoryDate, RecordImage)> {
        self.records.deep_view()
    }
}

/// The position of the first group under this date, if any.
pub open spec fn date_index(gs: Seq<(HistoryDate, Seq<RecordImage>)>, d: HistoryDate) -> Option<
    int,
>
    decreases gs.len(),
{
    if gs.len() == 0 {
        None
    } else if gs[0].0 == d {
        Some(0)
    } else {
        match date_index(gs.drop_first(), d) {
            None => None,
            Some(j) => Some(j + 1),
        }
    }
}

/// What [`date_index`] finds is the first group of the date.
pub proof fn lemma_date_index(gs: Seq<(HistoryDate, Seq<RecordImage>)>, d: HistoryDate)
    ensures
        match date_index(gs, d) {
            None => forall|i: int| 0 <= i < gs.len() ==> (#[trigger] gs[i]).0 != d,
            Some(j) => 0 <= j < gs.len() && gs[j].0 == d && forall|i: int|
                0 <= i < j ==> (#[trigger] gs[i]).0 != d,
        },
    decreases gs.len(),
{
    if gs.len() > 0 {
        let t = gs.drop_first();
        lemma_date_index(t, d);
        assert(forall|i: int| 0 <= i < t.len() ==> t[i] == gs[i + 1]);
        if gs[0].0 != d {
            match date_index(t, d) {
                None => {
                    assert forall|i: int| 0 <= i < gs.len() implies (#[trigger] gs[i]).0 != d by {
                        if i > 0 {
                            assert(t[i - 1] == gs[i]);
                        }
                    }
                },
                Some(j) => {
                    assert(t[j] == gs[j + 1]);
                    assert forall|i: int| 0 <= i < j + 1 implies (#[trigger] gs[i]).0 != d by {
                        if i > 0 {
                            assert(t[i - 1] == gs[i]);
                        }
                    }
                },
            }
        }
    }
}

/// The derived date-grouped view of the flat log: dates in order of first
/// appearance, each with its records in send order.
pub open spec fn group_of(rs: Seq<(HistoryDate, RecordImage)>) -> Seq<
    (HistoryDate, Seq<RecordImage>),
>
    decreases rs.len(),
{
    if rs.len() == 0 {
        Seq::empty()
    } else {
        let m = group_of(rs.drop_last());
        let d = rs.last().0;
        let rec = rs.last().1;
        match date_index(m, d) {
            Some(j) => m.update(j, (d, m[j].1.push(rec))),
            None => m.push((d, seq![rec])),
        }
    }
}

impl HistoryDataList {
    /// An empty log.
    pub fn new() -> (r: HistoryDataList)
        ensures
            r.deep_view() == Seq::<(HistoryDate, RecordImage)>::empty(),
    {
        let r = HistoryDataList { records: Vec::new() };
        assert(r.deep_view() =~= Seq::<(HistoryDate, RecordImage)>::empty());
        r
    }

    /// Appends a sent request under the given date.
    pub fn record_on(&mut self, date: HistoryDate, record: HttpRecord)
        ensures
            final(self).deep_view() == old(self).deep_view().push((date, record.deep_view())),
    {
        let ghost self0 = *self;
        let ghost rv = (date, record.deep_view());
        self.records.push((date, record));
        proof {
            assert forall|k: int| 0 <= k < self.records@.len() implies #[trigger] self
                .records
                .deep_view()[k] == self0.records.deep_view().push(rv)[k] by {
                lemma_vec_deep_view_index(self.records, k);
                if k < self0.records@.len() {
                    lemma_vec_deep_view_index(self0.records, k);
                }
            }
            assert(self.deep_view() =~= self0.deep_view().push(rv));
        }
    }

    /// Appends a sent request under the date the clock gives now.
    pub fn record(&mut self, record: HttpRecord)
        ensures
            exists|d: HistoryDate|
                final(self).deep_view() == old(self).deep_view().push((d, record.deep_view())),
    {
        let d = today_date();
        self.record_on(d, record);
    }

    /// An exact copy of the whole log.
    pub fn deep_copy(&self) -> (r: HistoryDataList)
        ensures
            r.deep_view() == self.deep_view(),
    {
        let mut records: Vec<(HistoryDate, HttpRecord)> = Vec::new();
        let mut i: usize = 0;
        while i < self.records.len()
            invariant
                i <= self.records@.len(),
                records@.len() == i,
                forall|k: int| 0 <= k < i ==> #[trigger] records.deep_view()[k]
                    == self.records.deep_view()[k],
            decreases self.records@.len() - i,
        {
            let d = self.records[i].0;
            let rec = self.records[i].1.deep_copy();
            let ghost r0 = records;
            records.push((d, rec));
            proof {
                assert forall|k: int| 0 <= k < i + 1 implies #[trigger] records.deep_view()[k]
                    == self.records.deep_view()[k] by {
                    lemma_vec_deep_view_index(records, k);
                    lemma_vec_deep_view_index(self.records, k);
                    if k < i {
                        lemma_vec_deep_view_index(r0, k);
                    }
                }
            }
            i = i + 1;
        }
        let r = HistoryDataList { records };
        proof {
            assert(r.deep_view() =~= self.deep_view());
        }
        r
    }

    /// The log grouped by date: dates in order of first appearance, each
    /// with its records in send order.
    pub fn get_group(&self) -> (r: Vec<(HistoryDate, Vec<HttpRecord>)>)
        ensures
            groups_image(r@) == group_of(self.deep_view()),
    {
        let ghost rv = self.deep_view();
        let mut r: Vec<(HistoryDate, Vec<HttpRecord>)> = Vec::new();
        let mut i: usize = 0;
        proof {
            assert(rv.subrange(0, 0) =~= Seq::<(HistoryDate, RecordImage)>::empty());
            assert(groups_image(r@) =~= group_of(rv.subrange(0, 0)));
        }
        while i < self.records.len()
            invariant
                i <= self.records@.len(),
                rv == self.deep_view(),
                groups_image(r@) == group_of(rv.subrange(0, i as int)),
            decreases self.records@.len() - i,
        {
            let ghost pre = rv.subrange(0, i as int);
            let ghost cur = rv.subrange(0, i as int + 1);
            proof {
                assert(cur.drop_last() =~= pre);
                assert(cur.last() == rv[i as int]);
                lemma_vec_deep_view_index(self.records, i as int);
            }
            let d = self.records[i].0;
            let rec = self.records[i].1.deep_copy();
            let ghost g0 = r@;
            match find_group(&r, d) {
                Some(j) => {
                    proof {
                        assert(groups_image(r@)[j as int].1 == r@[j as int].1.deep_view());
                    }
                    let entry = &mut r[j];
                    let ghost e0 = entry.1;
                    entry.1.push(rec);
                    proof {
                        assert forall|k: int| 0 <= k < entry.1@.len() implies #[trigger] entry
                            .1
                            .deep_view()[k] == e0.deep_view().push(cur.last().1)[k] by {
                            lemma_vec_deep_view_index(entry.1, k);
                            if k < e0@.len() {
                                lemma_vec_deep_view_index(e0, k);
                            }
                        }
                        assert(entry.1.deep_view() =~= e0.deep_view().push(cur.last().1));
                        lemma_date_index(groups_image(g0), d);
                        assert(groups_image(g0)[j as int].0 == d);
                        assert(g0[j as int].0 == d);
                        assert(groups_image(r@) =~= groups_image(g0).update(
                            j as int,
                            (d, g0[j as int].1.deep_view().push(cur.last().1)),
                        ));
                        assert(groups_image(r@) =~= group_of(cur));
                    }
                },
                None => {
                    let mut row: Vec<HttpRecord> = Vec::new();
                    row.push(rec);
                    proof {
                        assert(row.deep_view() =~= seq![cur.last().1]);
                    }
                    r.push((d, row));
                    proof {
                        assert(groups_image(r@) =~= groups_image(g0).push(
                            (d, seq![cur.last().1]),
                        ));
                        assert(groups_image(r@) =~= group_of(cur));
                    }
                },
            }
            i = i + 1;
        }
        proof {
            assert(rv.subrange(0, self.records@.len() as int) =~= rv);
        }
        r
    }
}

/// The image of an already-grouped table.
pub open spec fn groups_image(gs: Seq<(HistoryDate, Vec<HttpRecord>)>) -> Seq<
    (HistoryDate, Seq<RecordImage>),
> {
    Seq::new(gs.len(), |i: int| (gs[i].0, gs[i].1.deep_view()))
}

/// Finds the group row of this date.
fn find_group(gs: &Vec<(HistoryDate, Vec<HttpRecord>)>, d: HistoryDate) -> (r: Option<usize>)
    ensures
        match r {
            Some(j) => j < gs@.len() && date_index(groups_image(gs@), d) == Some(j as int),
            None => date_index(groups_image(gs@), d) is None,
        },
{
    proof {
        lemma_date_index(groups_image(gs@), d);
    }
    let mut i: usize = 0;
    while i < gs.len()
        invariant
            i <= gs@.len(),
            forall|k: int| 0 <= k < i ==> (#[trigger] groups_image(gs@)[k]).0 != d,
        decreases gs@.len() - i,
    {
        if gs[i].0 == d {
            proof {
                assert(groups_image(gs@)[i as int].0 == d);
                lemma_date_index(groups_image(gs@), d);
            }
            return Some(i);
        }
        proof {
            assert(groups_image(gs@)[i as int].0 == gs@[i as int].0);
        }
        i = i + 1;
    }
    None
}

} // verus!
