//! Rate series: what a source observed, and the same filled in day by day.
//!
//! A [`RawSeries`] holds the observations of one currency against the base
//! currency, one per day at most and in the order of their dates; a source
//! leaves gaps (weekends, holidays). An [`ExpandedSeries`] covers every day
//! from the first observation to the last, or to a later "today", and gives a
//! day without an observation the rate of the nearest earlier one.

use crate::calendar::{Date, MAX_DAY};
use crate::money::{QuotedRate, Ratio};
use vstd::prelude::*;

verus! {

/// Which end of a range of dates is asked for.
#[derive(Clone, Copy, Debug, PartialEq, Eq, Structural)]
pub enum Extremum {
    MIN,
    MAX,
}

/// What an [`Observation`] stands for: the number of a day and a fraction.
pub struct Reading {
    pub day: int,
    pub rate: Ratio,
}

/// One observed rate: on `date`, one unit of the currency was worth `rate`
/// units of the base currency.
#[derive(Clone, Copy, Debug, PartialEq, Eq, Structural)]
pub struct Observation {
    pub date: Date,
    pub rate: QuotedRate,
}

impl View for Observation {
    type V = Reading;

    open spec fn view(&self) -> Reading {
        Reading { day: self.date.day_number(), rate: self.rate@ }
    }
}

/// The readings that a sequence of observations stands for.
pub open spec fn readings(observations: Seq<Observation>) -> Seq<Reading> {
    Seq::new(observations.len(), |i: int| observations[i]@)
}

/// The readings come in the order of their days, no day twice.
pub open spec fn is_series(series: Seq<Reading>) -> bool {
    forall|i: int, j: int| 0 <= i < j < series.len() ==> (#[trigger] series[i]).day < (
    #[trigger] series[j]).day
}

/// Each reading is dated one day after the one before it.
pub open spec fn is_dense(series: Seq<Reading>) -> bool {
    forall|i: int| 0 <= i < series.len() ==> (#[trigger] series[i]).day == series[0].day + i
}

/// `series` with `records` appended in their order, a record being kept only
/// where it is dated after everything that the series holds by then.
pub open spec fn appended(series: Seq<Reading>, records: Seq<Reading>) -> Seq<Reading>
    decreases records.len(),
{
    if records.len() == 0 {
        series
    } else {
        let before = appended(series, records.drop_last());
        let record = records.last();
        if before.len() == 0 || before.last().day < record.day {
            before.push(record)
        } else {
            before
        }
    }
}

/// The rate that holds on `day`: that of the last reading dated on or before
/// it. Before the first reading no rate holds, and the value is of no meaning.
pub open spec fn filled_rate(series: Seq<Reading>, day: int) -> Ratio
    decreases series.len(),
{
    if series.len() == 0 {
        Ratio::one()
    } else if series.last().day <= day {
        series.last().rate
    } else {
        filled_rate(series.drop_last(), day)
    }
}

/// What an [`ExpandedSeries`] stands for: the rates of the consecutive days
/// from `start` on. Where `rates` is empty, `start` is 0.
pub struct DailyRates {
    pub start: int,
    pub rates: Seq<Ratio>,
}

impl DailyRates {
    /// The series holds a rate for `day`.
    pub open spec fn covers(self, day: int) -> bool {
        self.start <= day < self.start + self.rates.len()
    }

    /// The rate of `day`, where the series covers it.
    pub open spec fn rate_on(self, day: int) -> Ratio {
        self.rates[day - self.start]
    }

    /// The last day that the series covers, where it is not empty.
    pub open spec fn end(self) -> int {
        self.start + self.rates.len() - 1
    }

    /// The series as readings, one for each day.
    pub open spec fn readings(self) -> Seq<Reading> {
        Seq::new(self.rates.len(), |i: int| Reading { day: self.start + i, rate: self.rates[i] })
    }
}

/// The last day of the expansion of a series that is not empty: the day of its
/// last reading, or `today` where that is later.
pub open spec fn expansion_end(series: Seq<Reading>, today: Option<int>) -> int {
    match today {
        Some(day) => if series.last().day < day {
            day
        } else {
            series.last().day
        },
        None => series.last().day,
    }
}

/// The expansion of a series: one rate for each day from its first reading to
/// [`expansion_end`], each the rate that holds on that day.
pub open spec fn expanded(series: Seq<Reading>, today: Option<int>) -> DailyRates {
    if series.len() == 0 {
        DailyRates { start: 0, rates: Seq::empty() }
    } else {
        DailyRates {
            start: series[0].day,
            rates: Seq::new(
                (expansion_end(series, today) - series[0].day + 1) as nat,
                |i: int| filled_rate(series, series[0].day + i),
            ),
        }
    }
}

/// The number of the day of an optional date.
pub open spec fn day_number_of(date: Option<Date>) -> Option<int> {
    match date {
        Some(d) => Some(d.day_number()),
        None => None,
    }
}

/// On a day between reading `j` and the next, the rate of reading `j` holds.
pub proof fn lemma_filled_rate_between(series: Seq<Reading>, j: int, day: int)
    requires
        is_series(series),
        0 <= j < series.len(),
        series[j].day <= day,
        j + 1 == series.len() || day < series[j + 1].day,
    ensures
        filled_rate(series, day) == series[j].rate,
    decreases series.len(),
{
    if series.last().day <= day {
        if j + 1 < series.len() {
            assert(series[j + 1].day <= series[series.len() - 1].day);
        }
    } else {
        let shorter = series.drop_last();
        assert(is_series(shorter)) by {
            assert forall|a: int, b: int| 0 <= a < b < shorter.len() implies (#[trigger] shorter[a]).day
                < (#[trigger] shorter[b]).day by {
                assert(shorter[a] == series[a]);
                assert(shorter[b] == series[b]);
            }
        }
        lemma_filled_rate_between(shorter, j, day);
    }
}

/// On the day of a reading, the rate of that reading holds.
pub proof fn lemma_filled_rate_on_reading(series: Seq<Reading>, j: int)
    requires
        is_series(series),
        0 <= j < series.len(),
    ensures
        filled_rate(series, series[j].day) == series[j].rate,
{
    lemma_filled_rate_between(series, j, series[j].day);
}

/// Expanding never leaves the span of the series, extended to `today`, and
/// never changes the rate of a day that was observed.
pub proof fn lemma_expansion_keeps_observations(series: Seq<Reading>, today: Option<int>)
    requires
        is_series(series),
        series.len() > 0,
    ensures
        expanded(series, today).start == series[0].day,
        expanded(series, today).end() == expansion_end(series, today),
        forall|day: int| #[trigger]
            expanded(series, today).covers(day) <==> series[0].day <= day <= expansion_end(
                series,
                today,
            ),
        forall|j: int|
            0 <= j < series.len() ==> expanded(series, today).covers((#[trigger] series[j]).day)
                && expanded(series, today).rate_on(series[j].day) == series[j].rate,
{
    let e = expanded(series, today);
    assert(series[0].day <= series[series.len() - 1].day);
    assert forall|j: int| 0 <= j < series.len() implies e.covers((#[trigger] series[j]).day)
        && e.rate_on(series[j].day) == series[j].rate by {
        assert(series[0].day <= series[j].day);
        assert(series[j].day <= series[series.len() - 1].day);
        lemma_filled_rate_on_reading(series, j);
    }
}

/// The expansion of a series, read as a series, is dense.
pub proof fn lemma_expansion_is_dense(series: Seq<Reading>, today: Option<int>)
    ensures
        is_series(expanded(series, today).readings()),
        is_dense(expanded(series, today).readings()),
{
}

/// Expanding a series that is already dense changes nothing: the expansion,
/// read as a series, is the series itself.
pub proof fn lemma_expanding_dense_series_is_identity(series: Seq<Reading>)
    requires
        is_dense(series),
    ensures
        expanded(series, None).readings() == series,
{
    if series.len() > 0 {
        assert(is_series(series)) by {
            assert forall|a: int, b: int| 0 <= a < b < series.len() implies (#[trigger] series[a]).day
                < (#[trigger] series[b]).day by {
                assert(series[a].day == series[0].day + a);
                assert(series[b].day == series[0].day + b);
            }
        }
        let e = expanded(series, None);
        assert(series[series.len() - 1].day == series[0].day + series.len() - 1);
        assert(e.rates.len() == series.len());
        assert forall|i: int| 0 <= i < series.len() implies e.readings()[i] == series[i] by {
            assert(series[i].day == series[0].day + i);
            lemma_filled_rate_on_reading(series, i);
        }
        assert(e.readings() =~= series);
    } else {
        assert(expanded(series, None).readings() =~= series);
    }
}

/// Expanding is idempotent: the expansion of an expansion is that expansion.
pub proof fn lemma_expansion_is_idempotent(series: Seq<Reading>, today: Option<int>)
    requires
        is_series(series),
    ensures
        expanded(expanded(series, today).readings(), None) == expanded(series, today),
{
    let e = expanded(series, today);
    if series.len() > 0 {
        assert(series[0].day <= series[series.len() - 1].day);
    }
    lemma_expansion_is_dense(series, today);
    lemma_expanding_dense_series_is_identity(e.readings());
    let again = expanded(e.readings(), None);
    assert(again.readings() == e.readings());
    if e.rates.len() > 0 {
        assert(again.start == e.readings()[0].day);
        assert(again.rates.len() == e.rates.len());
        assert forall|i: int| 0 <= i < e.rates.len() implies again.rates[i] == e.rates[i] by {
            assert(again.readings()[i].rate == e.readings()[i].rate);
        }
        assert(again.rates =~= e.rates);
    } else {
        assert(e.readings().len() == 0);
    }
}

/// A series with a reading added that is dated after its last is a series.
pub proof fn lemma_series_with_later(series: Seq<Reading>, record: Reading)
    requires
        is_series(series),
        series.len() == 0 || series.last().day < record.day,
    ensures
        is_series(series.push(record)),
{
    let longer = series.push(record);
    assert forall|a: int, b: int| 0 <= a < b < longer.len() implies (#[trigger] longer[a]).day < (
    #[trigger] longer[b]).day by {
        if b < series.len() {
            assert(longer[a] == series[a]);
            assert(longer[b] == series[b]);
        } else {
            assert(longer[a] == series[a]);
            if a < series.len() - 1 {
                assert(series[a].day < series[series.len() - 1].day);
            }
        }
    }
}

/// Appending to a series gives a series that starts with the old one and is
/// not empty where there was something to append.
pub proof fn lemma_appended_is_series(series: Seq<Reading>, records: Seq<Reading>)
    requires
        is_series(series),
    ensures
        is_series(appended(series, records)),
        appended(series, records).len() >= series.len(),
        appended(series, records).take(series.len() as int) == series,
        records.len() > 0 ==> appended(series, records).len() > 0,
    decreases records.len(),
{
    if records.len() > 0 {
        let before = appended(series, records.drop_last());
        lemma_appended_is_series(series, records.drop_last());
        if before.len() == 0 || before.last().day < records.last().day {
            lemma_series_with_later(before, records.last());
            assert(before.push(records.last()).take(series.len() as int) =~= before.take(
                series.len() as int,
            ));
        }
    } else {
        assert(series.take(series.len() as int) =~= series);
    }
}

/// No record is dated after the last reading of what it was appended to.
pub proof fn lemma_appended_ends_late(series: Seq<Reading>, records: Seq<Reading>, i: int)
    requires
        0 <= i < records.len(),
    ensures
        appended(series, records).len() > 0,
        records[i].day <= appended(series, records).last().day,
        series.len() > 0 ==> series.last().day <= appended(series, records).last().day,
    decreases records.len(),
{
    let before = appended(series, records.drop_last());
    if i < records.len() - 1 {
        lemma_appended_ends_late(series, records.drop_last(), i);
        assert(records.drop_last()[i] == records[i]);
    } else if records.len() > 1 {
        lemma_appended_ends_late(series, records.drop_last(), 0);
    }
}

/// Appending records dated no later than the last reading changes nothing.
pub proof fn lemma_appending_old_records(series: Seq<Reading>, records: Seq<Reading>)
    requires
        series.len() > 0,
        forall|i: int| 0 <= i < records.len() ==> (#[trigger] records[i]).day <= series.last().day,
    ensures
        appended(series, records) == series,
    decreases records.len(),
{
    if records.len() > 0 {
        let shorter = records.drop_last();
        assert forall|i: int| 0 <= i < shorter.len() implies (#[trigger] shorter[i]).day
            <= series.last().day by {
            assert(shorter[i] == records[i]);
        }
        lemma_appending_old_records(series, shorter);
        assert(records.last() == records[records.len() - 1]);
    }
}

/// Appending by date is idempotent: appending the same records a second time
/// changes nothing.
pub proof fn lemma_append_is_idempotent(series: Seq<Reading>, records: Seq<Reading>)
    ensures
        appended(appended(series, records), records) == appended(series, records),
{
    let once = appended(series, records);
    if records.len() > 0 {
        assert forall|i: int| 0 <= i < records.len() implies (#[trigger] records[i]).day
            <= once.last().day by {
            lemma_appended_ends_late(series, records, i);
        }
        lemma_appended_ends_late(series, records, 0);
        lemma_appending_old_records(once, records);
    }
}

/// Appending a record whose date the series already holds does not add it.
pub proof fn lemma_append_skips_present_date(series: Seq<Reading>, record: Reading, j: int)
    requires
        is_series(series),
        0 <= j < series.len(),
        series[j].day == record.day,
    ensures
        appended(series, seq![record]) == series,
{
    let records = seq![record];
    assert(series[j].day <= series[series.len() - 1].day);
    assert forall|i: int| 0 <= i < records.len() implies (#[trigger] records[i]).day
        <= series.last().day by {}
    lemma_appending_old_records(series, records);
}

/// The earliest or the latest of the dates of `observations`, which hold at
/// least one. The observations may come in any order.
pub fn extreme_date(observations: &Vec<Observation>, extremum: &Extremum) -> (r: Date)
    requires
        observations.len() > 0,
    ensures
        exists|i: int| 0 <= i < observations.len() && (#[trigger] observations[i]).date == r,
        *extremum == Extremum::MIN ==> forall|i: int|
            0 <= i < observations.len() ==> r.day_number() <= (
            #[trigger] observations[i]).date.day_number(),
        *extremum == Extremum::MAX ==> forall|i: int|
            0 <= i < observations.len() ==> (#[trigger] observations[i]).date.day_number()
                <= r.day_number(),
{
    let mut best: Date = observations[0].date;
    let mut i: usize = 1;
    while i < observations.len()
        invariant
            1 <= i <= observations.len(),
            exists|k: int| 0 <= k < i && (#[trigger] observations[k]).date == best,
            *extremum == Extremum::MIN ==> forall|k: int|
                0 <= k < i ==> best.day_number() <= (#[trigger] observations[k]).date.day_number(),
            *extremum == Extremum::MAX ==> forall|k: int|
                0 <= k < i ==> (#[trigger] observations[k]).date.day_number()
                    <= best.day_number(),
        decreases observations.len() - i,
    {
        let candidate: Date = observations[i].date;
        let better: bool = match extremum {
            Extremum::MIN => candidate.is_before(&best),
            Extremum::MAX => best.is_before(&candidate),
        };
        if better {
            best = candidate;
        }
        i = i + 1;
    }
    best
}

/// The observations of one currency against the base currency, in the order
/// of their dates and with no date twice.
pub struct RawSeries {
    observations: Vec<Observation>,
}

impl View for RawSeries {
    type V = Seq<Reading>;

    closed spec fn view(&self) -> Seq<Reading> {
        readings(self.observations@)
    }
}

impl RawSeries {
    #[verifier::type_invariant]
    spec fn ordered(self) -> bool {
        is_series(readings(self.observations@))
    }

    /// A series without observations.
    pub fn new() -> (r: RawSeries)
        ensures
            r@.len() == 0,
    {
        RawSeries { observations: Vec::new() }
    }

    /// The series of the given observations, or `None` where their dates do
    /// not strictly increase.
    pub fn from_observations(observations: Vec<Observation>) -> (r: Option<RawSeries>)
        ensures
            r.is_some() <==> is_series(readings(observations@)),
            r matches Some(series) ==> series@ == readings(observations@),
    {
        let ghost all = readings(observations@);
        let mut i: usize = 1;
        while i < observations.len()
            invariant
                1 <= i,
                observations.len() > 0 ==> i <= observations.len(),
                all == readings(observations@),
                i <= observations.len() ==> is_series(all.take(i as int)),
                observations.len() == 0 ==> is_series(all),
            decreases observations.len() - i,
        {
            if !observations[i - 1].date.is_before(&observations[i].date) {
                proof {
                    assert(all[i - 1].day >= all[i as int].day);
                }
                return None;
            }
            proof {
                assert(all.take(i as int + 1) =~= all.take(i as int).push(all[i as int]));
                assert(all.take(i as int).last() == all[i - 1]);
                lemma_series_with_later(all.take(i as int), all[i as int]);
            }
            i = i + 1;
        }
        proof {
            if observations.len() > 0 {
                assert(all.take(observations.len() as int) =~= all);
            }
        }
        Some(RawSeries { observations })
    }

    /// The observations of this series, in the order of their dates.
    pub fn observations(&self) -> (r: &Vec<Observation>)
        ensures
            readings(r@) == self@,
            is_series(self@),
    {
        proof {
            use_type_invariant(self);
        }
        &self.observations
    }

    /// A second series with the same observations.
    pub fn duplicate(&self) -> (r: RawSeries)
        ensures
            r@ == self@,
    {
        proof {
            use_type_invariant(self);
        }
        let mut copy: Vec<Observation> = Vec::new();
        let mut k: usize = 0;
        while k < self.observations.len()
            invariant
                k <= self.observations.len(),
                copy@ == self.observations@.take(k as int),
            decreases self.observations.len() - k,
        {
            copy.push(self.observations[k]);
            proof {
                assert(copy@ =~= self.observations@.take(k as int + 1));
            }
            k = k + 1;
        }
        proof {
            assert(copy@ =~= self.observations@);
        }
        RawSeries { observations: copy }
    }

    /// The number of observations.
    pub fn len(&self) -> (r: usize)
        ensures
            r == self@.len(),
    {
        self.observations.len()
    }

    /// True where the series holds no observation.
    pub fn is_empty(&self) -> (r: bool)
        ensures
            r == (self@.len() == 0),
    {
        self.observations.len() == 0
    }

    /// The date of the first observation, if there is one.
    pub fn first_date(&self) -> (r: Option<Date>)
        ensures
            r.is_some() <==> self@.len() > 0,
            r matches Some(date) ==> date.day_number() == self@[0].day,
    {
        if self.observations.len() == 0 {
            None
        } else {
            Some(self.observations[0].date)
        }
    }

    /// The date of the last observation, if there is one.
    pub fn last_date(&self) -> (r: Option<Date>)
        ensures
            r.is_some() <==> self@.len() > 0,
            r matches Some(date) ==> date.day_number() == self@.last().day,
    {
        if self.observations.len() == 0 {
            None
        } else {
            Some(self.observations[self.observations.len() - 1].date)
        }
    }

    /// Appends `records` in their order. A record is kept only where it is
    /// dated after everything that the series holds by then, so a date that
    /// the series already has is never added a second time, and nothing that
    /// the series held before is changed.
    pub fn append(&mut self, records: &Vec<Observation>)
        ensures
            final(self)@ == appended(old(self)@, readings(records@)),
    {
        proof {
            use_type_invariant(&*self);
        }
        let ghost start = self@;
        let ghost all = readings(records@);
        let mut merged: Vec<Observation> = Vec::new();
        let mut k: usize = 0;
        while k < self.observations.len()
            invariant
                k <= self.observations.len(),
                merged@ == self.observations@.take(k as int),
            decreases self.observations.len() - k,
        {
            merged.push(self.observations[k]);
            proof {
                assert(merged@ =~= self.observations@.take(k as int + 1));
            }
            k = k + 1;
        }
        proof {
            assert(merged@ =~= self.observations@);
        }
        let mut i: usize = 0;
        while i < records.len()
            invariant
                i <= records.len(),
                all == readings(records@),
                is_series(readings(merged@)),
                readings(merged@) == appended(start, all.take(i as int)),
            decreases records.len() - i,
        {
            let record: Observation = records[i];
            let n: usize = merged.len();
            let ghost before = readings(merged@);
            let keep: bool = n == 0 || merged[n - 1].date.is_before(&record.date);
            proof {
                assert(all.take(i as int + 1).drop_last() =~= all.take(i as int));
                assert(all.take(i as int + 1).last() == record@);
                if n > 0 {
                    assert(before.last() == merged@[n - 1]@);
                }
            }
            if keep {
                proof {
                    lemma_series_with_later(before, record@);
                    assert(readings(merged@.push(record)) =~= before.push(record@));
                }
                merged.push(record);
            }
            i = i + 1;
        }
        proof {
            assert(all.take(i as int) =~= all);
        }
        self.observations = merged;
    }
}

/// One rate for each day of a span of consecutive days.
pub struct ExpandedSeries {
    start: Date,
    rates: Vec<QuotedRate>,
}

impl View for ExpandedSeries {
    type V = DailyRates;

    closed spec fn view(&self) -> DailyRates {
        DailyRates {
            start: if self.rates@.len() == 0 {
                0
            } else {
                self.start.day_number()
            },
            rates: Seq::new(self.rates@.len(), |i: int| self.rates@[i]@),
        }
    }
}

impl ExpandedSeries {
    #[verifier::type_invariant]
    spec fn within_calendar(self) -> bool {
        self.start.day_number() + self.rates@.len() <= MAX_DAY + 1
    }

    /// The expansion of `raw`: a rate for each day from its first observation
    /// to its last, or to `today` where that is given and later; each day has
    /// the rate of the last observation on or before it. The expansion of an
    /// empty series is empty.
    pub fn of(raw: &RawSeries, today: Option<Date>) -> (r: ExpandedSeries)
        ensures
            r@ == expanded(raw@, day_number_of(today)),
            raw@.len() > 0 ==> r@.start == raw@[0].day && r@.end() == expansion_end(
                raw@,
                day_number_of(today),
            ),
            forall|j: int|
                0 <= j < raw@.len() ==> r@.covers((#[trigger] raw@[j]).day) && r@.rate_on(
                    raw@[j].day,
                ) == raw@[j].rate,
    {
        let observations: &Vec<Observation> = raw.observations();
        let n: usize = observations.len();
        let ghost series = raw@;
        let ghost now = day_number_of(today);
        if n == 0 {
            let start: Date = match today {
                Some(day) => day,
                None => match Date::from_days(1) {
                    Some(day) => day,
                    None => Date::today(),
                },
            };
            let _: i32 = start.days();
            let r = ExpandedSeries { start, rates: Vec::new() };
            proof {
                assert(r@.rates =~= expanded(series, now).rates);
            }
            return r;
        }
        let start: Date = observations[0].date;
        let last: Date = observations[n - 1].date;
        let end: Date = match today {
            Some(day) => if last.is_before(&day) {
                day
            } else {
                last
            },
            None => last,
        };
        let start_days: i32 = start.days();
        let end_days: i32 = end.days();
        proof {
            assert(series[0] == observations@[0]@);
            assert(series[n - 1] == observations@[n - 1]@);
            assert(series[0].day <= series[n - 1].day);
            assert(end_days == expansion_end(series, now));
        }
        let mut rates: Vec<QuotedRate> = Vec::new();
        let mut day: i32 = start_days;
        let mut j: usize = 0;
        while day <= end_days
            invariant
                n == observations.len(),
                n > 0,
                series == readings(observations@),
                is_series(series),
                start_days == series[0].day,
                start_days <= day <= end_days + 1,
                end_days <= MAX_DAY,
                rates.len() == day - start_days,
                j < n,
                series[j as int].day <= day,
                forall|k: int|
                    0 <= k < rates.len() ==> (#[trigger] rates@[k])@ == filled_rate(
                        series,
                        start_days + k,
                    ),
            decreases end_days + 1 - day,
        {
            while j + 1 < n && observations[j + 1].date.days() <= day
                invariant
                    n == observations.len(),
                    series == readings(observations@),
                    j < n,
                    series[j as int].day <= day,
                decreases n - j,
            {
                proof {
                    assert(series[j + 1] == observations@[j + 1]@);
                }
                j = j + 1;
            }
            proof {
                if j + 1 < n {
                    assert(series[j + 1] == observations@[j + 1]@);
                }
                lemma_filled_rate_between(series, j as int, day as int);
                assert(series[j as int] == observations@[j as int]@);
            }
            rates.push(observations[j].rate);
            day = day + 1;
        }
        let r = ExpandedSeries { start, rates };
        proof {
            assert(r@.rates =~= expanded(series, now).rates);
            lemma_expansion_keeps_observations(series, now);
        }
        r
    }

    /// True where the series covers no day.
    pub fn is_empty(&self) -> (r: bool)
        ensures
            r == (self@.rates.len() == 0),
    {
        self.rates.len() == 0
    }

    /// The number of days that the series covers.
    pub fn len(&self) -> (r: usize)
        ensures
            r == self@.rates.len(),
    {
        self.rates.len()
    }

    /// The first day that the series covers, if it covers any.
    pub fn min_date(&self) -> (r: Option<Date>)
        ensures
            r.is_some() <==> self@.rates.len() > 0,
            r matches Some(date) ==> date.day_number() == self@.start,
    {
        if self.rates.len() == 0 {
            None
        } else {
            Some(self.start)
        }
    }

    /// The last day that the series covers, if it covers any.
    pub fn max_date(&self) -> (r: Option<Date>)
        ensures
            r.is_some() <==> self@.rates.len() > 0,
            r matches Some(date) ==> date.day_number() == self@.end(),
    {
        proof {
            use_type_invariant(self);
        }
        if self.rates.len() == 0 {
            None
        } else {
            let _: i32 = self.start.days();
            let span: u32 = (self.rates.len() - 1) as u32;
            Some(self.start.plus_days(span))
        }
    }

    /// The rate of `date`, or `None` where the series does not cover that day:
    /// a rate is never carried beyond either end.
    pub fn rate_on(&self, date: &Date) -> (r: Option<QuotedRate>)
        ensures
            r.is_some() <==> self@.covers(date.day_number()),
            r matches Some(rate) ==> rate@ == self@.rate_on(date.day_number()),
    {
        proof {
            use_type_invariant(self);
        }
        let day: i32 = date.days();
        let start: i32 = self.start.days();
        if self.rates.len() == 0 || day < start {
            return None;
        }
        let offset: i64 = day as i64 - start as i64;
        if offset >= self.rates.len() as i64 {
            return None;
        }
        Some(self.rates[offset as usize])
    }
}

} // verus!
