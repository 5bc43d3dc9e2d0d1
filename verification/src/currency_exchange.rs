//! The rate cache: one series for each currency other than the base currency,
//! and the rate between any two currencies on any day that the series cover.
//!
//! A rate is looked up in at most three ways and never guessed: directly, where
//! the target is the base currency; as the inverse of a series, where the
//! source is the base currency; or as one series divided by another, through
//! the base currency. A day outside what a series covers is an error, and so
//! is a currency without a series.

use crate::calendar::Date;
use crate::financial::{Currency, BASE_CURRENCY, CURRENCY_COUNT};
use crate::money::{fits_i64, QuotedRate, Rate, Ratio};
use crate::series::{
    day_number_of, expanded, readings, DailyRates, ExpandedSeries, Observation, RawSeries, Reading,
};
use vstd::prelude::*;

verus! {

/// Why a rate, or an amount converted at it, cannot be given.
#[derive(Clone, Copy, Debug, PartialEq, Eq, Structural)]
pub enum ExchangeError {
    /// The day lies before the first or after the last day that the series of
    /// a currency covers.
    OutOfRange,
    /// A currency has no series against the base currency.
    UnresolvablePair,
    /// An amount of money does not fit the 64 bits in which amounts are held.
    AmountOverflow,
}

/// What a [`CurrencyExchange`] stands for: the raw series of each currency that
/// has one, and the day up to which they were expanded.
pub struct RateTable {
    pub as_of: int,
    pub raw: Map<Currency, Seq<Reading>>,
}

impl RateTable {
    /// `currency` has a series.
    pub open spec fn has(self, currency: Currency) -> bool {
        self.raw.dom().contains(currency)
    }

    /// The daily rates of a currency that has a series.
    pub open spec fn daily(self, currency: Currency) -> DailyRates {
        expanded(self.raw[currency], Some(self.as_of))
    }

    /// The rate from `currency` to the base currency on `day`.
    pub open spec fn to_base(self, currency: Currency, day: int) -> Result<Ratio, ExchangeError> {
        if !self.has(currency) {
            Err(ExchangeError::UnresolvablePair)
        } else if !self.daily(currency).covers(day) {
            Err(ExchangeError::OutOfRange)
        } else {
            Ok(self.daily(currency).rate_on(day))
        }
    }

    /// The rate from `from` to `to` on `day`: 1 between a currency and itself;
    /// else the series of `from` where `to` is the base currency; else the
    /// inverse of the series of `to` where `from` is the base currency; else
    /// the series of `from` divided by that of `to`. Of two failures, that of
    /// the source currency is reported.
    pub open spec fn resolve(self, from: Currency, to: Currency, day: int) -> Result<
        Ratio,
        ExchangeError,
    > {
        if from == to {
            Ok(Ratio::one())
        } else if to == BASE_CURRENCY {
            self.to_base(from, day)
        } else if from == BASE_CURRENCY {
            match self.to_base(to, day) {
                Ok(rate) => Ok(rate.inverse()),
                Err(error) => Err(error),
            }
        } else {
            match self.to_base(from, day) {
                Ok(first) => match self.to_base(to, day) {
                    Ok(second) => Ok(first.times(second.inverse())),
                    Err(error) => Err(error),
                },
                Err(error) => Err(error),
            }
        }
    }

    /// `value` minor units of `from`, converted to `to` at the rate of `day`.
    pub open spec fn convert(self, from: Currency, to: Currency, day: int, value: int) -> Result<
        int,
        ExchangeError,
    > {
        match self.resolve(from, to, day) {
            Ok(rate) => if fits_i64(rate.applied_to(value)) {
                Ok(rate.applied_to(value))
            } else {
                Err(ExchangeError::AmountOverflow)
            },
            Err(error) => Err(error),
        }
    }
}

/// The rates of a pair of currencies in the two directions multiply to 1, and
/// one direction has a rate exactly where the other has.
pub proof fn lemma_opposite_rates_cancel(table: RateTable, a: Currency, b: Currency, day: int)
    ensures
        table.resolve(a, b, day).is_ok() == table.resolve(b, a, day).is_ok(),
        table.resolve(a, b, day) matches Ok(there) ==> (table.resolve(b, a, day) matches Ok(back)
            && there.times(back).same_value(Ratio::one())),
{
    if let Ok(there) = table.resolve(a, b, day) {
        let back = table.resolve(b, a, day)->Ok_0;
        if a != b && a != BASE_CURRENCY && b != BASE_CURRENCY {
            let first = table.to_base(a, day)->Ok_0;
            let second = table.to_base(b, day)->Ok_0;
            assert((first.num * second.den) * (second.num * first.den) == (first.den * second.num)
                * (second.den * first.num)) by (nonlinear_arith);
        } else {
            assert(there.num * back.num == there.den * back.den) by (nonlinear_arith)
                requires
                    there.num == back.den,
                    there.den == back.num,
            ;
        }
    }
}

/// Going from `a` to the base currency and on to `b` gives the rate from `a`
/// to `b`.
pub proof fn lemma_bridge_through_base(table: RateTable, a: Currency, b: Currency, day: int)
    requires
        table.resolve(a, BASE_CURRENCY, day).is_ok(),
        table.resolve(BASE_CURRENCY, b, day).is_ok(),
    ensures
        table.resolve(a, b, day) matches Ok(direct) && direct.same_value(
            table.resolve(a, BASE_CURRENCY, day)->Ok_0.times(
                table.resolve(BASE_CURRENCY, b, day)->Ok_0,
            ),
        ),
{
    let first = table.resolve(a, BASE_CURRENCY, day)->Ok_0;
    let second = table.resolve(BASE_CURRENCY, b, day)->Ok_0;
    let direct = table.resolve(a, b, day)->Ok_0;
    if a == b && a != BASE_CURRENCY {
        assert(1 * (first.den * second.den) == (first.num * second.num) * 1) by (nonlinear_arith)
            requires
                first.num == second.den,
                first.den == second.num,
        ;
    } else {
        assert(direct.num * (first.den * second.den) == (first.num * second.num) * direct.den)
            by (nonlinear_arith)
            requires
                direct.num == first.num * second.num,
                direct.den == first.den * second.den,
        ;
    }
}

/// A dated amount of money in some currency: what the exchange is asked to
/// convert.
#[derive(Clone, Copy, Debug, PartialEq, Eq, Structural)]
pub struct DatedAmount {
    pub date: Date,
    pub currency: Currency,
    pub value: i64,
}

/// A dated amount of money in the currency that a report is made in.
#[derive(Clone, Copy, Debug, PartialEq, Eq, Structural)]
pub struct NormalizedPoint {
    pub date: Date,
    pub value: i64,
}

/// The values of a sequence of points.
pub open spec fn point_values(points: Seq<NormalizedPoint>) -> Seq<int> {
    Seq::new(points.len(), |i: int| points[i].value as int)
}

/// Each record converted to `to` at the rate of its own date, in the order of
/// the records; the failure of the first record that cannot be converted.
pub open spec fn converted_all(table: RateTable, to: Currency, records: Seq<DatedAmount>) -> Result<
    Seq<int>,
    ExchangeError,
>
    decreases records.len(),
{
    if records.len() == 0 {
        Ok(Seq::empty())
    } else {
        match converted_all(table, to, records.drop_last()) {
            Err(error) => Err(error),
            Ok(values) => {
                let last = records.last();
                match table.convert(last.currency, to, last.date.day_number(), last.value as int) {
                    Ok(value) => Ok(values.push(value)),
                    Err(error) => Err(error),
                }
            },
        }
    }
}

/// The raw series that a list of entries leaves for each currency: a later
/// entry replaces an earlier one for the same currency, and an entry for the
/// base currency is never consulted and so not kept.
pub open spec fn table_of(entries: Seq<(Currency, Seq<Reading>)>) -> Map<Currency, Seq<Reading>>
    decreases entries.len(),
{
    if entries.len() == 0 {
        Map::empty()
    } else {
        let before = table_of(entries.drop_last());
        let last = entries.last();
        if last.0 == BASE_CURRENCY {
            before
        } else {
            before.insert(last.0, last.1)
        }
    }
}

/// What a list of entries stands for.
pub open spec fn entry_views(entries: Seq<(Currency, RawSeries)>) -> Seq<(Currency, Seq<Reading>)> {
    Seq::new(entries.len(), |i: int| (entries[i].0, entries[i].1@))
}

/// What a looked-up rate stands for.
pub open spec fn rate_view(outcome: Result<Rate, ExchangeError>) -> Result<Ratio, ExchangeError> {
    match outcome {
        Ok(rate) => Ok(rate@),
        Err(error) => Err(error),
    }
}

/// What a converted amount stands for.
pub open spec fn amount_view(outcome: Result<i64, ExchangeError>) -> Result<int, ExchangeError> {
    match outcome {
        Ok(value) => Ok(value as int),
        Err(error) => Err(error),
    }
}

struct CacheEntry {
    raw: RawSeries,
    expanded: ExpandedSeries,
}

spec fn slot_table(slots: Seq<Option<CacheEntry>>) -> Map<Currency, Seq<Reading>> {
    Map::new(
        |currency: Currency| slots[currency.position()] is Some,
        |currency: Currency| slots[currency.position()]->Some_0.raw@,
    )
}

/// The rate cache. It holds, for each currency that was given a series, the
/// series as observed and its expansion up to the day the cache was built.
pub struct CurrencyExchange {
    as_of: Date,
    slots: Vec<Option<CacheEntry>>,
}

impl View for CurrencyExchange {
    type V = RateTable;

    closed spec fn view(&self) -> RateTable {
        RateTable { as_of: self.as_of.day_number(), raw: slot_table(self.slots@) }
    }
}

impl CurrencyExchange {
    #[verifier::type_invariant]
    spec fn consistent(self) -> bool {
        &&& self.slots@.len() == CURRENCY_COUNT
        &&& self.slots@[BASE_CURRENCY.position()] is None
        &&& forall|i: int|
            0 <= i < self.slots@.len() ==> ((#[trigger] self.slots@[i]) matches Some(entry)
                ==> entry.expanded@ == expanded(entry.raw@, Some(self.as_of.day_number())))
    }

    /// The cache of the given series, each expanded up to `today`. A later
    /// entry replaces an earlier one for the same currency; an entry for the
    /// base currency is left out.
    pub fn as_of(entries: &Vec<(Currency, RawSeries)>, today: Date) -> (r: CurrencyExchange)
        ensures
            r@.as_of == today.day_number(),
            r@.raw == table_of(entry_views(entries@)),
            !r@.has(BASE_CURRENCY),
    {
        let ghost views = entry_views(entries@);
        let mut slots: Vec<Option<CacheEntry>> = Vec::new();
        slots.push(None);
        slots.push(None);
        slots.push(None);
        proof {
            assert(slot_table(slots@) =~= table_of(views.take(0)));
        }
        let mut i: usize = 0;
        while i < entries.len()
            invariant
                i <= entries.len(),
                views == entry_views(entries@),
                slots@.len() == CURRENCY_COUNT,
                slots@[BASE_CURRENCY.position()] is None,
                forall|k: int|
                    0 <= k < slots@.len() ==> ((#[trigger] slots@[k]) matches Some(entry)
                        ==> entry.expanded@ == expanded(entry.raw@, Some(today.day_number()))),
                slot_table(slots@) == table_of(views.take(i as int)),
            decreases entries.len() - i,
        {
            let currency: Currency = entries[i].0;
            proof {
                assert(views.take(i as int + 1).drop_last() =~= views.take(i as int));
                assert(views.take(i as int + 1).last() == (currency, entries@[i as int].1@));
            }
            if currency != BASE_CURRENCY {
                let raw: RawSeries = entries[i].1.duplicate();
                let expansion: ExpandedSeries = ExpandedSeries::of(&raw, Some(today));
                let ghost before = slots@;
                let position: usize = currency.index();
                slots.set(position, Some(CacheEntry { raw, expanded: expansion }));
                proof {
                    assert forall|other: Currency| other != currency implies other.position()
                        != currency.position() by {}
                    assert(slot_table(slots@) =~= slot_table(before).insert(
                        currency,
                        entries@[i as int].1@,
                    ));
                }
            }
            i = i + 1;
        }
        proof {
            assert(views.take(i as int) =~= views);
        }
        CurrencyExchange { as_of: today, slots }
    }

    /// The cache of the given series, each expanded up to today.
    pub fn new(entries: &Vec<(Currency, RawSeries)>) -> (r: CurrencyExchange)
        ensures
            r@.raw == table_of(entry_views(entries@)),
            !r@.has(BASE_CURRENCY),
    {
        CurrencyExchange::as_of(entries, Date::today())
    }

    /// The expansion of `raw`: a rate for every day from its first observation
    /// to its last, and on to today where `add_today` is set and today is
    /// later.
    pub fn expand(raw: &RawSeries, add_today: bool) -> (r: ExpandedSeries)
        ensures
            !add_today ==> r@ == expanded(raw@, None),
            add_today ==> exists|today: Date| r@ == #[trigger] expanded(
                raw@,
                day_number_of(Some(today)),
            ),
            raw@.len() > 0 ==> r@.start == raw@[0].day && r@.end() >= raw@.last().day,
            forall|j: int|
                0 <= j < raw@.len() ==> r@.covers((#[trigger] raw@[j]).day) && r@.rate_on(
                    raw@[j].day,
                ) == raw@[j].rate,
    {
        if add_today {
            let today: Date = Date::today();
            let r = ExpandedSeries::of(raw, Some(today));
            proof {
                assert(r@ == expanded(raw@, day_number_of(Some(today))));
            }
            r
        } else {
            ExpandedSeries::of(raw, None)
        }
    }

    /// The earliest or the latest of the dates of `observations`, which hold
    /// at least one.
    pub fn extreme_date(observations: &Vec<Observation>, extremum: &crate::series::Extremum) -> (r:
        Date)
        requires
            observations.len() > 0,
        ensures
            exists|i: int| 0 <= i < observations.len() && (#[trigger] observations[i]).date == r,
            *extremum == crate::series::Extremum::MIN ==> forall|i: int|
                0 <= i < observations.len() ==> r.day_number() <= (
                #[trigger] observations[i]).date.day_number(),
            *extremum == crate::series::Extremum::MAX ==> forall|i: int|
                0 <= i < observations.len() ==> (#[trigger] observations[i]).date.day_number()
                    <= r.day_number(),
    {
        crate::series::extreme_date(observations, extremum)
    }

    /// The day up to which the series of this cache were expanded.
    pub fn built_on(&self) -> (r: Date)
        ensures
            r.day_number() == self@.as_of,
    {
        self.as_of
    }

    /// True where `currency` has a series in this cache. The base currency
    /// never has one.
    pub fn has_series(&self, currency: &Currency) -> (r: bool)
        ensures
            r == self@.has(*currency),
            !self@.has(BASE_CURRENCY),
    {
        proof {
            use_type_invariant(self);
        }
        self.slots[currency.index()].is_some()
    }

    /// The series of `currency` as observed, if it has one.
    pub fn raw_series(&self, currency: &Currency) -> (r: Option<&RawSeries>)
        ensures
            r.is_some() == self@.has(*currency),
            r matches Some(series) ==> series@ == self@.raw[*currency],
    {
        proof {
            use_type_invariant(self);
        }
        match &self.slots[currency.index()] {
            Some(entry) => Some(&entry.raw),
            None => None,
        }
    }

    /// The expansion of the series of `currency`, if it has one.
    pub fn expanded_series(&self, currency: &Currency) -> (r: Option<&ExpandedSeries>)
        ensures
            r.is_some() == self@.has(*currency),
            r matches Some(series) ==> series@ == self@.daily(*currency),
    {
        proof {
            use_type_invariant(self);
        }
        match &self.slots[currency.index()] {
            Some(entry) => Some(&entry.expanded),
            None => None,
        }
    }

    /// The rate from `currency` to the base currency on `date`, as quoted.
    fn quoted_to_base(&self, currency: &Currency, date: &Date) -> (r: Result<
        QuotedRate,
        ExchangeError,
    >)
        ensures
            match r {
                Ok(rate) => self@.to_base(*currency, date.day_number()) == Ok::<
                    Ratio,
                    ExchangeError,
                >(rate@),
                Err(error) => self@.to_base(*currency, date.day_number()) == Err::<
                    Ratio,
                    ExchangeError,
                >(error),
            },
    {
        proof {
            use_type_invariant(self);
        }
        match &self.slots[currency.index()] {
            None => Err(ExchangeError::UnresolvablePair),
            Some(entry) => match entry.expanded.rate_on(date) {
                Some(rate) => Ok(rate),
                None => Err(ExchangeError::OutOfRange),
            },
        }
    }

    /// The rate from `currency_from` to `currency_to` on `date`.
    ///
    /// Between a currency and itself the rate is 1 and the cache is not
    /// consulted. Otherwise the rate comes from the series of the two
    /// currencies against the base currency: `OutOfRange` where `date` lies
    /// outside what a needed series covers, `UnresolvablePair` where a needed
    /// series is missing. No rate is ever carried beyond the days of a series,
    /// and none is made up.
    pub fn exchange_currency(
        &self,
        currency_from: &Currency,
        currency_to: &Currency,
        date: Date,
    ) -> (r: Result<Rate, ExchangeError>)
        ensures
            rate_view(r) == self@.resolve(*currency_from, *currency_to, date.day_number()),
    {
        if *currency_from == *currency_to {
            Ok(Rate::one())
        } else if *currency_to == BASE_CURRENCY {
            match self.quoted_to_base(currency_from, &date) {
                Ok(rate) => Ok(rate.to_rate()),
                Err(error) => Err(error),
            }
        } else if *currency_from == BASE_CURRENCY {
            match self.quoted_to_base(currency_to, &date) {
                Ok(rate) => Ok(rate.inverse().to_rate()),
                Err(error) => Err(error),
            }
        } else {
            match self.quoted_to_base(currency_from, &date) {
                Ok(first) => match self.quoted_to_base(currency_to, &date) {
                    Ok(second) => Ok(first.over(&second)),
                    Err(error) => Err(error),
                },
                Err(error) => Err(error),
            }
        }
    }

    /// `value` minor units of `currency_from` in `currency_to`, at the rate of
    /// `date` and rounded to the nearest minor unit; the failure of the lookup,
    /// or `AmountOverflow` where the result does not fit.
    pub fn convert(
        &self,
        currency_from: &Currency,
        currency_to: &Currency,
        date: Date,
        value: i64,
    ) -> (r: Result<i64, ExchangeError>)
        ensures
            amount_view(r) == self@.convert(
                *currency_from,
                *currency_to,
                date.day_number(),
                value as int,
            ),
    {
        match self.exchange_currency(currency_from, currency_to, date) {
            Ok(rate) => match rate.apply(value) {
                Some(converted) => Ok(converted),
                None => Err(ExchangeError::AmountOverflow),
            },
            Err(error) => Err(error),
        }
    }

    /// Converts each record to `currency_to` at the rate of the record's own
    /// date, and keeps the dates and the order. Fails as the first record that
    /// cannot be converted fails.
    pub fn exchange_currencies(&self, currency_to: &Currency, records: &Vec<DatedAmount>) -> (r:
        Result<Vec<NormalizedPoint>, ExchangeError>)
        ensures
            match r {
                Ok(points) => converted_all(self@, *currency_to, records@) == Ok::<
                    Seq<int>,
                    ExchangeError,
                >(point_values(points@)) && points@.len() == records@.len() && forall|i: int|
                    0 <= i < points@.len() ==> (#[trigger] points@[i]).date == records@[i].date,
                Err(error) => converted_all(self@, *currency_to, records@) == Err::<
                    Seq<int>,
                    ExchangeError,
                >(error),
            },
    {
        let mut points: Vec<NormalizedPoint> = Vec::new();
        let mut i: usize = 0;
        proof {
            assert(point_values(points@) =~= Seq::<int>::empty());
        }
        while i < records.len()
            invariant
                i <= records.len(),
                points@.len() == i,
                converted_all(self@, *currency_to, records@.take(i as int)) == Ok::<
                    Seq<int>,
                    ExchangeError,
                >(point_values(points@)),
                forall|k: int| 0 <= k < i ==> (#[trigger] points@[k]).date == records@[k].date,
            decreases records.len() - i,
        {
            let record: DatedAmount = records[i];
            proof {
                assert(records@.take(i as int + 1).drop_last() =~= records@.take(i as int));
                assert(records@.take(i as int + 1).last() == record);
            }
            match self.convert(&record.currency, currency_to, record.date, record.value) {
                Ok(value) => {
                    let ghost before = points@;
                    points.push(NormalizedPoint { date: record.date, value });
                    proof {
                        assert(point_values(points@) =~= point_values(before).push(value as int));
                    }
                },
                Err(error) => {
                    proof {
                        lemma_failure_stays(self@, *currency_to, records@, i as int + 1);
                    }
                    return Err(error);
                },
            }
            i = i + 1;
        }
        proof {
            assert(records@.take(i as int) =~= records@);
        }
        Ok(points)
    }
}

/// Once the first `n` records fail to convert, so do all of them, and with the
/// same failure.
pub proof fn lemma_failure_stays(table: RateTable, to: Currency, records: Seq<DatedAmount>, n: int)
    requires
        0 <= n <= records.len(),
        converted_all(table, to, records.take(n)) is Err,
    ensures
        converted_all(table, to, records) == converted_all(table, to, records.take(n)),
    decreases records.len() - n,
{
    if n < records.len() {
        assert(records.take(n + 1).drop_last() =~= records.take(n));
        lemma_failure_stays(table, to, records, n + 1);
    } else {
        assert(records.take(n) =~= records);
    }
}

} // verus!
