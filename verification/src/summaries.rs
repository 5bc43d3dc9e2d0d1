//! Reports over the ledger: totals of a period, the evolution of the funds
//! day by day, the expenses of each month, the expenses of a period by
//! category, and the present stand of each account.
//!
//! Every amount is first converted to the currency of the report. Amounts of
//! a period are converted at the rate of their own date, so that a report
//! shows what the money was worth when it moved; the stand of the accounts is
//! converted at the rate of the day it is asked for. A report that cannot be
//! priced in full is not made at all.

use crate::calendar::{Date, MAX_DAY, MIN_DAY};
use crate::currency_exchange::{
    amount_view, converted_all, point_values, CurrencyExchange, DatedAmount, ExchangeError,
    NormalizedPoint, RateTable,
};
use crate::financial::{AccountType, Currency};
use crate::money::{as_ints, checked_total, fits_i64, sum_of, Ratio};
use crate::ranking::{in_rank_order, insert_in_rank, sort_by_rank, Ranked};
use crate::tables::{AccountRecord, ExpenseRecord, FundMovementRecord, IncomeRecord};
use crate::text::{lemma_bytes_precede_irreflexive, lemma_bytes_precede_transitive, text_precedes};
use vstd::prelude::*;
use vstd::string::StringExecFns;

verus! {

/// The sum of `amounts`, each converted to `to` at the rate of its own date:
/// the failure of the first amount that cannot be converted, or
/// `AmountOverflow` where the sum does not fit.
pub open spec fn total_of(table: RateTable, to: Currency, amounts: Seq<DatedAmount>) -> Result<
    int,
    ExchangeError,
> {
    match converted_all(table, to, amounts) {
        Err(error) => Err(error),
        Ok(values) => if fits_i64(sum_of(values)) {
            Ok(sum_of(values))
        } else {
            Err(ExchangeError::AmountOverflow)
        },
    }
}

/// The values of `points`, in their order.
pub fn values_of(points: &Vec<NormalizedPoint>) -> (r: Vec<i64>)
    ensures
        as_ints(r@) == point_values(points@),
{
    let mut r: Vec<i64> = Vec::new();
    let mut i: usize = 0;
    while i < points.len()
        invariant
            i <= points.len(),
            r@.len() == i,
            forall|k: int| 0 <= k < i ==> (#[trigger] r@[k]) == points@[k].value,
        decreases points.len() - i,
    {
        r.push(points[i].value);
        i = i + 1;
    }
    proof {
        assert(as_ints(r@) =~= point_values(points@));
    }
    r
}

/// The sum of `amounts` in `currency_to`, each converted at the rate of its
/// own date.
pub fn total_in(exchange: &CurrencyExchange, currency_to: &Currency, amounts: &Vec<DatedAmount>) -> (r:
    Result<i64, ExchangeError>)
    ensures
        amount_view(r) == total_of(exchange@, *currency_to, amounts@),
{
    match exchange.exchange_currencies(currency_to, amounts) {
        Err(error) => Err(error),
        Ok(points) => {
            let values: Vec<i64> = values_of(&points);
            match checked_total(&values) {
                Some(total) => Ok(total),
                None => Err(ExchangeError::AmountOverflow),
            }
        },
    }
}

/// The amounts of the incomes dated from `from` to `until`, both days
/// included, in the order of the table.
pub open spec fn incomes_between(rows: Seq<IncomeRecord>, from: int, until: int) -> Seq<DatedAmount>
    decreases rows.len(),
{
    if rows.len() == 0 {
        Seq::empty()
    } else {
        let before = incomes_between(rows.drop_last(), from, until);
        if from <= rows.last().date.day_number() <= until {
            before.push(rows.last().amount_of())
        } else {
            before
        }
    }
}

/// The sum of the incomes dated from `date_from` to `date_to`, both days
/// included, in `currency_to`; each income is converted at the rate of its
/// own date.
pub fn total_income(
    incomes: &Vec<IncomeRecord>,
    exchange: &CurrencyExchange,
    date_from: Date,
    date_to: Date,
    currency_to: &Currency,
) -> (r: Result<i64, ExchangeError>)
    ensures
        amount_view(r) == total_of(
            exchange@,
            *currency_to,
            incomes_between(incomes@, date_from.day_number(), date_to.day_number()),
        ),
{
    let from: i32 = date_from.days();
    let until: i32 = date_to.days();
    let mut amounts: Vec<DatedAmount> = Vec::new();
    let mut i: usize = 0;
    while i < incomes.len()
        invariant
            i <= incomes.len(),
            from == date_from.day_number(),
            until == date_to.day_number(),
            amounts@ == incomes_between(incomes@.take(i as int), from as int, until as int),
        decreases incomes.len() - i,
    {
        proof {
            assert(incomes@.take(i as int + 1).drop_last() =~= incomes@.take(i as int));
        }
        let day: i32 = incomes[i].date.days();
        if from <= day && day <= until {
            amounts.push(incomes[i].amount());
        }
        i = i + 1;
    }
    proof {
        assert(incomes@.take(i as int) =~= incomes@);
    }
    total_in(exchange, currency_to, &amounts)
}

/// A value on a day: what a [`NormalizedPoint`] stands for.
pub struct DayValue {
    pub day: int,
    pub value: int,
}

/// What a sequence of points stands for.
pub open spec fn entries(points: Seq<NormalizedPoint>) -> Seq<DayValue> {
    Seq::new(
        points.len(),
        |i: int| DayValue { day: points[i].date.day_number(), value: points[i].value as int },
    )
}

/// The values `values`, each on the day of the amount it was converted from.
pub open spec fn entries_of(amounts: Seq<DatedAmount>, values: Seq<int>) -> Seq<DayValue> {
    Seq::new(
        amounts.len(),
        |i: int| DayValue { day: amounts[i].date.day_number(), value: values[i] },
    )
}

/// What a report of dated values stands for.
pub open spec fn points_view(outcome: Result<Vec<NormalizedPoint>, ExchangeError>) -> Result<
    Seq<DayValue>,
    ExchangeError,
> {
    match outcome {
        Ok(points) => Ok(entries(points@)),
        Err(error) => Err(error),
    }
}

/// The net activity of a day: the sum of the values dated on it.
pub open spec fn net_on(all: Seq<DayValue>, day: int) -> int
    decreases all.len(),
{
    if all.len() == 0 {
        0
    } else {
        net_on(all.drop_last(), day) + if all.last().day == day {
            all.last().value
        } else {
            0
        }
    }
}

/// The balance at the end of `day`: the net activity of every day from
/// `first` to `day`, added up. A day without activity leaves the balance of
/// the day before.
pub open spec fn balance_on(all: Seq<DayValue>, first: int, day: int) -> int
    decreases day - first + 1,
{
    if day < first {
        0
    } else {
        balance_on(all, first, day - 1) + net_on(all, day)
    }
}

/// The sum of the values dated on or before `day`.
pub open spec fn total_until(all: Seq<DayValue>, day: int) -> int
    decreases all.len(),
{
    if all.len() == 0 {
        0
    } else {
        total_until(all.drop_last(), day) + if all.last().day <= day {
            all.last().value
        } else {
            0
        }
    }
}

/// The earliest day of a sequence that is not empty.
pub open spec fn earliest(all: Seq<DayValue>) -> int
    decreases all.len(),
{
    if all.len() <= 1 {
        all[0].day
    } else if all.last().day < earliest(all.drop_last()) {
        all.last().day
    } else {
        earliest(all.drop_last())
    }
}

/// The latest day of a sequence that is not empty.
pub open spec fn latest(all: Seq<DayValue>) -> int
    decreases all.len(),
{
    if all.len() <= 1 {
        all[0].day
    } else if all.last().day > latest(all.drop_last()) {
        all.last().day
    } else {
        latest(all.drop_last())
    }
}

/// The balance at the end of each day from the earliest to the latest day of
/// `all`, no day left out; `AmountOverflow` where the balance of some day does
/// not fit. Nothing dated gives an empty curve.
pub open spec fn evolution_of(all: Seq<DayValue>) -> Result<Seq<DayValue>, ExchangeError> {
    if all.len() == 0 {
        Ok(Seq::empty())
    } else {
        let first = earliest(all);
        let curve = Seq::new(
            (latest(all) - first + 1) as nat,
            |i: int| DayValue { day: first + i, value: balance_on(all, first, first + i) },
        );
        if forall|i: int| 0 <= i < curve.len() ==> fits_i64((#[trigger] curve[i]).value) {
            Ok(curve)
        } else {
            Err(ExchangeError::AmountOverflow)
        }
    }
}

/// The evolution of `amounts`, each converted to `to` at the rate of its own
/// date.
pub open spec fn converted_evolution(table: RateTable, to: Currency, amounts: Seq<DatedAmount>) -> Result<
    Seq<DayValue>,
    ExchangeError,
> {
    match converted_all(table, to, amounts) {
        Err(error) => Err(error),
        Ok(values) => evolution_of(entries_of(amounts, values)),
    }
}

/// The earliest and the latest day are days of the sequence, and every day of
/// it lies between them.
pub proof fn lemma_earliest_latest(all: Seq<DayValue>)
    requires
        all.len() > 0,
    ensures
        forall|i: int| 0 <= i < all.len() ==> earliest(all) <= (#[trigger] all[i]).day <= latest(all),
        exists|i: int| 0 <= i < all.len() && (#[trigger] all[i]).day == earliest(all),
        exists|i: int| 0 <= i < all.len() && (#[trigger] all[i]).day == latest(all),
    decreases all.len(),
{
    if all.len() > 1 {
        let shorter = all.drop_last();
        lemma_earliest_latest(shorter);
        assert forall|i: int| 0 <= i < all.len() implies earliest(all) <= (#[trigger] all[i]).day
            <= latest(all) by {
            if i < shorter.len() {
                assert(shorter[i] == all[i]);
            }
        }
        let a = choose|i: int| 0 <= i < shorter.len() && (#[trigger] shorter[i]).day == earliest(
            shorter,
        );
        let b = choose|i: int| 0 <= i < shorter.len() && (#[trigger] shorter[i]).day == latest(
            shorter,
        );
        assert(all[a] == shorter[a]);
        assert(all[b] == shorter[b]);
        assert(all[all.len() - 1] == all.last());
    } else {
        assert(all[0].day == earliest(all));
    }
}

/// The net activity of a day is at most the number of values times 2^63 in
/// size, where each value fits an `i64`.
pub proof fn lemma_net_bounded(all: Seq<DayValue>, day: int)
    requires
        forall|i: int| 0 <= i < all.len() ==> fits_i64((#[trigger] all[i]).value),
    ensures
        -(all.len() * 0x8000_0000_0000_0000) <= net_on(all, day) <= all.len()
            * 0x8000_0000_0000_0000,
    decreases all.len(),
{
    if all.len() > 0 {
        let shorter = all.drop_last();
        assert forall|i: int| 0 <= i < shorter.len() implies fits_i64(
            (#[trigger] shorter[i]).value,
        ) by {
            assert(shorter[i] == all[i]);
        }
        lemma_net_bounded(shorter, day);
        assert(fits_i64(all[all.len() - 1].value));
    }
}

/// From one day to the next the balance changes by the net activity of the
/// day: it rises exactly on a day of positive net activity, falls exactly on a
/// day of negative net activity, and stays on a day without any.
pub proof fn lemma_balance_changes_by_net(all: Seq<DayValue>, first: int, day: int)
    requires
        first <= day,
    ensures
        balance_on(all, first, day) - balance_on(all, first, day - 1) == net_on(all, day),
        balance_on(all, first, day) > balance_on(all, first, day - 1) <==> net_on(all, day) > 0,
        balance_on(all, first, day) >= balance_on(all, first, day - 1) <==> net_on(all, day) >= 0,
{
}

/// A value dated from `first` on is counted in the balance of its day and of
/// every later day, and in no other.
pub proof fn lemma_balance_with_one_more(
    all: Seq<DayValue>,
    entry: DayValue,
    first: int,
    day: int,
)
    ensures
        balance_on(all.push(entry), first, day) == balance_on(all, first, day) + if first
            <= entry.day <= day {
            entry.value
        } else {
            0
        },
    decreases day - first + 1,
{
    if day >= first {
        lemma_balance_with_one_more(all, entry, first, day - 1);
        assert(all.push(entry).drop_last() =~= all);
    }
}

/// The balance of a day is the sum of everything dated on or before it, where
/// nothing is dated before `first`.
pub proof fn lemma_balance_counts_everything(all: Seq<DayValue>, first: int, day: int)
    requires
        forall|i: int| 0 <= i < all.len() ==> first <= (#[trigger] all[i]).day,
    ensures
        balance_on(all, first, day) == total_until(all, day),
    decreases all.len(), day - first + 1,
{
    if all.len() == 0 {
        if day >= first {
            lemma_balance_counts_everything(all, first, day - 1);
        }
    } else {
        let shorter = all.drop_last();
        assert forall|i: int| 0 <= i < shorter.len() implies first <= (#[trigger] shorter[i]).day by {
            assert(shorter[i] == all[i]);
        }
        lemma_balance_counts_everything(shorter, first, day);
        lemma_balance_with_one_more(shorter, all.last(), first, day);
        assert(shorter.push(all.last()) =~= all);
        assert(first <= all[all.len() - 1].day);
    }
}

/// The sum of everything dated on or before a day is at most the number of
/// values times 2^63 in size, where each value fits an `i64`.
pub proof fn lemma_total_until_bounded(all: Seq<DayValue>, day: int)
    requires
        forall|i: int| 0 <= i < all.len() ==> fits_i64((#[trigger] all[i]).value),
    ensures
        -(all.len() * 0x8000_0000_0000_0000) <= total_until(all, day) <= all.len()
            * 0x8000_0000_0000_0000,
    decreases all.len(),
{
    if all.len() > 0 {
        let shorter = all.drop_last();
        assert forall|i: int| 0 <= i < shorter.len() implies fits_i64(
            (#[trigger] shorter[i]).value,
        ) by {
            assert(shorter[i] == all[i]);
        }
        lemma_total_until_bounded(shorter, day);
        assert(fits_i64(all[all.len() - 1].value));
    }
}

/// The balance at the end of each day from the earliest to the latest day of
/// `points`: one point for every day, each holding the sum of everything
/// dated on or before it. Fails where the balance of some day does not fit.
pub fn evolution(points: &Vec<NormalizedPoint>) -> (r: Result<Vec<NormalizedPoint>, ExchangeError>)
    ensures
        points_view(r) == evolution_of(entries(points@)),
{
    let ghost all = entries(points@);
    if points.len() == 0 {
        let curve: Vec<NormalizedPoint> = Vec::new();
        proof {
            assert(entries(curve@) =~= Seq::<DayValue>::empty());
        }
        return Ok(curve);
    }
    let mut first: Date = points[0].date;
    let mut last: Date = points[0].date;
    let mut i: usize = 1;
    while i < points.len()
        invariant
            1 <= i <= points.len(),
            all == entries(points@),
            first.day_number() == earliest(all.take(i as int)),
            last.day_number() == latest(all.take(i as int)),
        decreases points.len() - i,
    {
        proof {
            assert(all.take(i as int + 1).drop_last() =~= all.take(i as int));
        }
        let date: Date = points[i].date;
        if date.is_before(&first) {
            first = date;
        }
        if last.is_before(&date) {
            last = date;
        }
        i = i + 1;
    }
    let first_day: i32 = first.days();
    let last_day: i32 = last.days();
    proof {
        assert(all.take(i as int) =~= all);
        lemma_earliest_latest(all);
    }
    let span: usize = (last_day as i64 - first_day as i64 + 1) as usize;
    let mut nets: Vec<i128> = Vec::new();
    let mut k: usize = 0;
    while k < span
        invariant
            k <= span,
            nets@.len() == k,
            forall|j: int| 0 <= j < k ==> nets@[j] == 0,
        decreases span - k,
    {
        nets.push(0);
        k = k + 1;
    }
    let mut i: usize = 0;
    while i < points.len()
        invariant
            i <= points.len(),
            all == entries(points@),
            nets@.len() == span,
            span == last_day - first_day + 1,
            forall|n: int| 0 <= n < all.len() ==> first_day <= (#[trigger] all[n]).day <= last_day,
            forall|j: int|
                0 <= j < span ==> #[trigger] nets@[j] == net_on(all.take(i as int), first_day + j),
        decreases points.len() - i,
    {
        let point: NormalizedPoint = points[i];
        let ghost entry = all[i as int];
        let offset: usize = (point.date.days() as i64 - first_day as i64) as usize;
        proof {
            assert(all.take(i as int + 1).drop_last() =~= all.take(i as int));
            assert(all.take(i as int + 1).last() == entry);
            assert forall|n: int| 0 <= n < all.take(i as int).len() implies fits_i64(
                (#[trigger] all.take(i as int)[n]).value,
            ) by {}
            lemma_net_bounded(all.take(i as int), first_day + offset);
        }
        let updated: i128 = nets[offset] + point.value as i128;
        nets.set(offset, updated);
        i = i + 1;
    }
    proof {
        assert(all.take(i as int) =~= all);
    }
    let ghost expected = Seq::new(
        (latest(all) - earliest(all) + 1) as nat,
        |n: int| DayValue { day: first_day + n, value: balance_on(all, first_day as int, first_day + n) },
    );
    let mut curve: Vec<NormalizedPoint> = Vec::new();
    let mut running: i128 = 0;
    let mut k: usize = 0;
    while k < span
        invariant
            k <= span,
            all == entries(points@),
            nets@.len() == span,
            span == last_day - first_day + 1,
            first_day == first.day_number(),
            last_day <= MAX_DAY,
            forall|j: int| 0 <= j < span ==> #[trigger] nets@[j] == net_on(all, first_day + j),
            running == balance_on(all, first_day as int, first_day + k - 1),
            fits_i64(running as int),
            first_day == earliest(all),
            last_day == latest(all),
            all.len() > 0,
            all.len() <= usize::MAX,
            forall|n: int| 0 <= n < all.len() ==> first_day <= (#[trigger] all[n]).day,
            expected == Seq::new(
                (latest(all) - earliest(all) + 1) as nat,
                |n: int|
                    DayValue {
                        day: first_day + n,
                        value: balance_on(all, first_day as int, first_day + n),
                    },
            ),
            expected.len() == span,
            forall|n: int|
                0 <= n < span ==> (#[trigger] expected[n]).value == balance_on(
                    all,
                    first_day as int,
                    first_day + n,
                ),
            curve@.len() == k,
            forall|j: int|
                0 <= j < k ==> (#[trigger] curve@[j]).date.day_number() == first_day + j
                    && curve@[j].value == balance_on(all, first_day as int, first_day + j),
        decreases span - k,
    {
        proof {
            assert forall|n: int| 0 <= n < all.len() implies fits_i64((#[trigger] all[n]).value) by {
                assert(all[n].value == points@[n].value);
            }
            lemma_balance_counts_everything(all, first_day as int, first_day + k);
            lemma_total_until_bounded(all, first_day + k);
            assert(nets@[k as int] == net_on(all, first_day + k));
            assert(balance_on(all, first_day as int, first_day + k) == running + nets@[k as int]);
            assert(all.len() == points@.len());
            assert(all.len() * 0x8000_0000_0000_0000 <= 0xFFFF_FFFF_FFFF_FFFF
                * 0x8000_0000_0000_0000);
        }
        let next: i128 = running + nets[k];
        if next < i64::MIN as i128 || next > i64::MAX as i128 {
            proof {
                assert(expected[k as int].value == next);
                assert(!fits_i64(expected[k as int].value));
            }
            return Err(ExchangeError::AmountOverflow);
        }
        curve.push(NormalizedPoint { date: first.plus_days(k as u32), value: next as i64 });
        running = next;
        k = k + 1;
    }
    proof {
        assert(entries(curve@) =~= expected);
        assert forall|j: int| 0 <= j < expected.len() implies fits_i64(
            (#[trigger] expected[j]).value,
        ) by {
            assert(curve@[j].value == expected[j].value);
        }
    }
    Ok(curve)
}

/// The days of a window of dates.
pub open spec fn window_days(window: Option<(Date, Date)>) -> Option<(int, int)> {
    match window {
        Some((from, until)) => Some((from.day_number(), until.day_number())),
        None => None,
    }
}

/// The amounts dated within the window, both of its days included, in their
/// order; all of them where there is no window.
pub open spec fn amounts_within(amounts: Seq<DatedAmount>, window: Option<(int, int)>) -> Seq<
    DatedAmount,
>
    decreases amounts.len(),
{
    if amounts.len() == 0 {
        Seq::empty()
    } else {
        let before = amounts_within(amounts.drop_last(), window);
        let day = amounts.last().date.day_number();
        if window matches Some((from, until)) && !(from <= day <= until) {
            before
        } else {
            before.push(amounts.last())
        }
    }
}

/// The amounts dated within the window, both of its days included; all of
/// them where there is no window.
pub fn within(amounts: &Vec<DatedAmount>, window: Option<(Date, Date)>) -> (r: Vec<DatedAmount>)
    ensures
        r@ == amounts_within(amounts@, window_days(window)),
{
    let mut r: Vec<DatedAmount> = Vec::new();
    let mut i: usize = 0;
    while i < amounts.len()
        invariant
            i <= amounts.len(),
            r@ == amounts_within(amounts@.take(i as int), window_days(window)),
        decreases amounts.len() - i,
    {
        proof {
            assert(amounts@.take(i as int + 1).drop_last() =~= amounts@.take(i as int));
        }
        let amount: DatedAmount = amounts[i];
        let keep: bool = match window {
            Some((from, until)) => {
                let day: i32 = amount.date.days();
                from.days() <= day && day <= until.days()
            },
            None => true,
        };
        if keep {
            r.push(amount);
        }
        i = i + 1;
    }
    proof {
        assert(amounts@.take(i as int) =~= amounts@);
    }
    r
}

/// The amounts that the evolution of the funds is made of: every movement of
/// funds, and the opening balance of every account on the day the account was
/// entered.
pub open spec fn fund_amounts(
    movements: Seq<FundMovementRecord>,
    accounts: Seq<AccountRecord>,
) -> Seq<DatedAmount> {
    Seq::new(movements.len(), |i: int| movements[i].amount_of()) + Seq::new(
        accounts.len(),
        |i: int| accounts[i].opening_of(),
    )
}

/// The total of all funds, in `currency_to`, at the end of each day from the
/// first day on which anything moved to the last: every movement and every
/// opening balance is converted at the rate of its own date, the amounts of a
/// day are added up, and each day shows the sum of all days so far. A day on
/// which nothing moved shows the total of the day before. With a window, only
/// what is dated within it counts.
pub fn funds_evolution(
    movements: &Vec<FundMovementRecord>,
    accounts: &Vec<AccountRecord>,
    exchange: &CurrencyExchange,
    currency_to: &Currency,
    window: Option<(Date, Date)>,
) -> (r: Result<Vec<NormalizedPoint>, ExchangeError>)
    ensures
        points_view(r) == converted_evolution(
            exchange@,
            *currency_to,
            amounts_within(fund_amounts(movements@, accounts@), window_days(window)),
        ),
{
    let mut amounts: Vec<DatedAmount> = Vec::new();
    let mut i: usize = 0;
    while i < movements.len()
        invariant
            i <= movements.len(),
            amounts@ == Seq::new(i as nat, |n: int| movements@[n].amount_of()),
        decreases movements.len() - i,
    {
        amounts.push(movements[i].amount());
        proof {
            assert(amounts@ =~= Seq::new((i + 1) as nat, |n: int| movements@[n].amount_of()));
        }
        i = i + 1;
    }
    let ghost moved = amounts@;
    let mut j: usize = 0;
    while j < accounts.len()
        invariant
            j <= accounts.len(),
            amounts@ == moved + Seq::new(j as nat, |n: int| accounts@[n].opening_of()),
        decreases accounts.len() - j,
    {
        amounts.push(accounts[j].opening());
        proof {
            assert(amounts@ =~= moved + Seq::new(
                (j + 1) as nat,
                |n: int| accounts@[n].opening_of(),
            ));
        }
        j = j + 1;
    }
    proof {
        assert(amounts@ =~= fund_amounts(movements@, accounts@));
    }
    let chosen: Vec<DatedAmount> = within(&amounts, window);
    evolution_in(exchange, currency_to, &chosen)
}

/// The evolution of `amounts`, each converted to `currency_to` at the rate of
/// its own date.
pub fn evolution_in(
    exchange: &CurrencyExchange,
    currency_to: &Currency,
    amounts: &Vec<DatedAmount>,
) -> (r: Result<Vec<NormalizedPoint>, ExchangeError>)
    ensures
        points_view(r) == converted_evolution(exchange@, *currency_to, amounts@),
{
    match exchange.exchange_currencies(currency_to, amounts) {
        Err(error) => Err(error),
        Ok(points) => {
            proof {
                assert(entries(points@) =~= entries_of(amounts@, point_values(points@)));
            }
            evolution(&points)
        },
    }
}

/// Something in `all` is dated on `day`.
pub open spec fn occurs(all: Seq<DayValue>, day: int) -> bool {
    exists|k: int| 0 <= k < all.len() && (#[trigger] all[k]).day == day
}

/// `rows` holds, for each day on which something in `all` is dated and for no
/// other, the net activity of that day, the days in increasing order.
pub open spec fn is_bucketing_of(rows: Seq<DayValue>, all: Seq<DayValue>) -> bool {
    &&& forall|i: int, j: int|
        0 <= i < j < rows.len() ==> (#[trigger] rows[i]).day < (#[trigger] rows[j]).day
    &&& forall|i: int|
        0 <= i < rows.len() ==> occurs(all, (#[trigger] rows[i]).day) && rows[i].value == net_on(
            all,
            rows[i].day,
        )
    &&& forall|k: int|
        0 <= k < all.len() ==> occurs(rows, (#[trigger] all[k]).day)
}

/// The net activity of every day fits an `i64`.
pub open spec fn every_net_fits(all: Seq<DayValue>) -> bool {
    forall|day: int| fits_i64(#[trigger] net_on(all, day))
}

/// Nothing is dated on a day that does not occur, so its net activity is 0.
pub proof fn lemma_net_of_absent_day(all: Seq<DayValue>, day: int)
    requires
        !occurs(all, day),
    ensures
        net_on(all, day) == 0,
    decreases all.len(),
{
    if all.len() > 0 {
        let shorter = all.drop_last();
        assert(all[all.len() - 1].day != day);
        if occurs(shorter, day) {
            let k = choose|k: int| 0 <= k < shorter.len() && (#[trigger] shorter[k]).day == day;
            assert(all[k] == shorter[k]);
        }
        lemma_net_of_absent_day(shorter, day);
    }
}

/// The net activity of each day on which a point is dated, the days in
/// increasing order and none twice. Fails where the net activity of some day
/// does not fit.
pub fn bucket_totals(points: &Vec<NormalizedPoint>) -> (r: Result<Vec<NormalizedPoint>, ExchangeError>)
    ensures
        r.is_ok() <==> every_net_fits(entries(points@)),
        r matches Ok(rows) ==> is_bucketing_of(entries(rows@), entries(points@)),
        r matches Err(error) ==> error == ExchangeError::AmountOverflow,
{
    let ghost all = entries(points@);
    let mut days: Vec<Date> = Vec::new();
    let mut totals: Vec<i128> = Vec::new();
    let mut i: usize = 0;
    while i < points.len()
        invariant
            i <= points.len(),
            all == entries(points@),
            days@.len() == totals@.len(),
            forall|a: int, b: int|
                0 <= a < b < days@.len() ==> (#[trigger] days@[a]).day_number() < (
                #[trigger] days@[b]).day_number(),
            forall|a: int|
                0 <= a < days@.len() ==> #[trigger] totals@[a] == net_on(
                    all.take(i as int),
                    days@[a].day_number(),
                ),
            forall|a: int|
                0 <= a < days@.len() ==> occurs(
                    all.take(i as int),
                    (#[trigger] days@[a]).day_number(),
                ),
            forall|k: int|
                0 <= k < i ==> exists|a: int|
                    0 <= a < days@.len() && (#[trigger] days@[a]).day_number() == (
                    #[trigger] all[k]).day,
        decreases points.len() - i,
    {
        let point: NormalizedPoint = points[i];
        let key: i32 = point.date.days();
        let ghost prefix = all.take(i as int);
        let ghost longer = all.take(i as int + 1);
        let ghost old_days = days@;
        let ghost old_totals = totals@;
        proof {
            assert(longer.drop_last() =~= prefix);
            assert(longer.last() == all[i as int]);
            assert(all[i as int].day == key);
            assert(all[i as int].value == point.value);
        }
        let mut position: usize = 0;
        while position < days.len() && days[position].days() < key
            invariant
                position <= days@.len(),
                days@ == old_days,
                forall|a: int| 0 <= a < position ==> (#[trigger] days@[a]).day_number() < key,
            decreases days@.len() - position,
        {
            position = position + 1;
        }
        let found: bool = position < days.len() && days[position].days() == key;
        if found {
            proof {
                assert forall|n: int| 0 <= n < prefix.len() implies fits_i64(
                    (#[trigger] prefix[n]).value,
                ) by {
                    assert(prefix[n].value == points@[n].value);
                }
                lemma_net_bounded(prefix, key as int);
                assert(prefix.len() <= usize::MAX);
            }
            let updated: i128 = totals[position] + point.value as i128;
            totals.set(position, updated);
            proof {
                assert forall|a: int| 0 <= a < days@.len() implies occurs(
                    longer,
                    (#[trigger] days@[a]).day_number(),
                ) by {
                    let k = choose|k: int|
                        0 <= k < prefix.len() && (#[trigger] prefix[k]).day
                            == days@[a].day_number();
                    assert(longer[k] == prefix[k]);
                }
                assert forall|k: int| 0 <= k < i + 1 implies exists|a: int|
                    0 <= a < days@.len() && (#[trigger] days@[a]).day_number() == (
                    #[trigger] all[k]).day by {
                    if k == i {
                        assert(days@[position as int].day_number() == all[k].day);
                    }
                }
            }
        } else {
            days.insert(position, point.date);
            totals.insert(position, point.value as i128);
            proof {
                old_days.insert_ensures(position as int, point.date);
                old_totals.insert_ensures(position as int, point.value as i128);
                assert forall|a: int, b: int| 0 <= a < b < days@.len() implies (
                #[trigger] days@[a]).day_number() < (#[trigger] days@[b]).day_number() by {
                    if b < position {
                        assert(days@[a] == old_days[a] && days@[b] == old_days[b]);
                    } else if b == position {
                        assert(days@[a] == old_days[a]);
                    } else if a < position {
                        assert(days@[a] == old_days[a] && days@[b] == old_days[b - 1]);
                    } else if a == position {
                        assert(days@[b] == old_days[b - 1]);
                        if b - 1 > position {
                            assert(old_days[position as int].day_number() < old_days[b
                                - 1].day_number());
                        }
                    } else {
                        assert(days@[a] == old_days[a - 1] && days@[b] == old_days[b - 1]);
                    }
                }
                assert(!occurs(prefix, key as int)) by {
                    if occurs(prefix, key as int) {
                        let k = choose|k: int|
                            0 <= k < prefix.len() && (#[trigger] prefix[k]).day == key;
                        assert(all[k] == prefix[k]);
                        let a = choose|a: int|
                            0 <= a < old_days.len() && (#[trigger] old_days[a]).day_number() == (
                            #[trigger] all[k]).day;
                        if a < position {
                        } else if a > position {
                            assert(old_days[position as int].day_number() < old_days[a].day_number());
                        }
                    }
                }
                lemma_net_of_absent_day(prefix, key as int);
                assert forall|a: int| 0 <= a < days@.len() implies #[trigger] totals@[a] == net_on(
                    longer,
                    days@[a].day_number(),
                ) by {
                    if a < position {
                        assert(days@[a] == old_days[a] && totals@[a] == old_totals[a]);
                    } else if a > position {
                        assert(days@[a] == old_days[a - 1] && totals@[a] == old_totals[a - 1]);
                        assert(old_days[a - 1].day_number() >= key);
                        if a - 1 > position {
                            assert(old_days[position as int].day_number() < old_days[a
                                - 1].day_number());
                        }
                    }
                }
                assert forall|a: int| 0 <= a < days@.len() implies occurs(
                    longer,
                    (#[trigger] days@[a]).day_number(),
                ) by {
                    if a == position {
                        assert(longer[i as int].day == key);
                    } else {
                        let before = if a < position {
                            a
                        } else {
                            a - 1
                        };
                        assert(days@[a] == old_days[before]);
                        let k = choose|k: int|
                            0 <= k < prefix.len() && (#[trigger] prefix[k]).day
                                == old_days[before].day_number();
                        assert(longer[k] == prefix[k]);
                    }
                }
                assert forall|k: int| 0 <= k < i + 1 implies exists|a: int|
                    0 <= a < days@.len() && (#[trigger] days@[a]).day_number() == (
                    #[trigger] all[k]).day by {
                    if k == i {
                        assert(days@[position as int].day_number() == all[k].day);
                    } else {
                        let a = choose|a: int|
                            0 <= a < old_days.len() && (#[trigger] old_days[a]).day_number() == (
                            #[trigger] all[k]).day;
                        if a < position {
                            assert(days@[a] == old_days[a]);
                        } else {
                            assert(days@[a + 1] == old_days[a]);
                        }
                    }
                }
            }
        }
        i = i + 1;
    }
    proof {
        assert(all.take(i as int) =~= all);
    }
    let mut rows: Vec<NormalizedPoint> = Vec::new();
    let mut a: usize = 0;
    while a < days.len()
        invariant
            a <= days@.len(),
            all == entries(points@),
            days@.len() == totals@.len(),
            rows@.len() == a,
            forall|n: int|
                0 <= n < a ==> (#[trigger] rows@[n]).date == days@[n] && rows@[n].value
                    == totals@[n],
            forall|n: int| 0 <= n < days@.len() ==> #[trigger] totals@[n] == net_on(
                all,
                days@[n].day_number(),
            ),
        decreases days@.len() - a,
    {
        let total: i128 = totals[a];
        if total < i64::MIN as i128 || total > i64::MAX as i128 {
            proof {
                assert(!fits_i64(net_on(all, days@[a as int].day_number())));
            }
            return Err(ExchangeError::AmountOverflow);
        }
        rows.push(NormalizedPoint { date: days[a], value: total as i64 });
        a = a + 1;
    }
    proof {
        let listed = entries(rows@);
        assert forall|m: int, n: int| 0 <= m < n < listed.len() implies (#[trigger] listed[m]).day < (
        #[trigger] listed[n]).day by {
            assert(rows@[m].date == days@[m] && rows@[n].date == days@[n]);
        }
        assert forall|n: int| 0 <= n < listed.len() implies occurs(all, (#[trigger] listed[n]).day)
            && listed[n].value == net_on(all, listed[n].day) by {
            assert(rows@[n].date == days@[n]);
            assert(totals@[n] == net_on(all, days@[n].day_number()));
        }
        assert forall|k: int| 0 <= k < all.len() implies occurs(listed, (#[trigger] all[k]).day) by {
            let n = choose|n: int|
                0 <= n < days@.len() && (#[trigger] days@[n]).day_number() == (#[trigger] all[k]).day;
            assert(rows@[n].date == days@[n]);
            assert(listed[n].day == all[k].day);
        }
        assert forall|day: int| fits_i64(#[trigger] net_on(all, day)) by {
            if occurs(all, day) {
                let k = choose|k: int| 0 <= k < all.len() && (#[trigger] all[k]).day == day;
                let n = choose|n: int|
                    0 <= n < days@.len() && (#[trigger] days@[n]).day_number() == (
                    #[trigger] all[k]).day;
                assert(rows@[n].value == totals@[n]);
                assert(totals@[n] == net_on(all, days@[n].day_number()));
            } else {
                lemma_net_of_absent_day(all, day);
            }
        }
    }
    Ok(rows)
}

/// The points of `all`, each moved to the first day of its month.
pub open spec fn by_month(all: Seq<DayValue>) -> Seq<DayValue> {
    Seq::new(
        all.len(),
        |i: int| DayValue { day: Date::month_start_number(all[i].day), value: all[i].value },
    )
}

/// The amounts `amounts`, each converted to `to` at the rate of its own date
/// and moved to the first day of its month; the failure of the first amount
/// that cannot be converted.
pub open spec fn monthly_entries(table: RateTable, to: Currency, amounts: Seq<DatedAmount>) -> Result<
    Seq<DayValue>,
    ExchangeError,
> {
    match converted_all(table, to, amounts) {
        Err(error) => Err(error),
        Ok(values) => Ok(by_month(entries_of(amounts, values))),
    }
}

/// The amounts of the expenses, in the order of the table.
pub open spec fn expense_amounts(rows: Seq<ExpenseRecord>) -> Seq<DatedAmount> {
    Seq::new(rows.len(), |i: int| rows[i].amount_of())
}

/// The amounts of each month, in `currency_to`: every amount is converted at
/// the rate of its own date and counted in the month that holds its date. A
/// month is given by its first day; the months come in their order, and a
/// month without amounts is not listed.
pub fn monthly_in(exchange: &CurrencyExchange, currency_to: &Currency, amounts: &Vec<DatedAmount>) -> (r:
    Result<Vec<NormalizedPoint>, ExchangeError>)
    ensures
        monthly_entries(exchange@, *currency_to, amounts@) matches Err(error) ==> r == Err::<
            Vec<NormalizedPoint>,
            ExchangeError,
        >(error),
        monthly_entries(exchange@, *currency_to, amounts@) matches Ok(monthly) ==> (r.is_ok()
            <==> every_net_fits(monthly)),
        monthly_entries(exchange@, *currency_to, amounts@) matches Ok(monthly) ==> (
        r matches Ok(rows) ==> is_bucketing_of(entries(rows@), monthly)),
        monthly_entries(exchange@, *currency_to, amounts@) is Ok ==> (r matches Err(error)
            ==> error == ExchangeError::AmountOverflow),
{
    match exchange.exchange_currencies(currency_to, amounts) {
        Err(error) => Err(error),
        Ok(points) => {
            let ghost monthly = by_month(entries_of(amounts@, point_values(points@)));
            let mut moved: Vec<NormalizedPoint> = Vec::new();
            let mut k: usize = 0;
            while k < points.len()
                invariant
                    k <= points.len(),
                    moved@.len() == k,
                    forall|n: int|
                        0 <= n < k ==> (#[trigger] moved@[n]).date.day_number()
                            == Date::month_start_number(points@[n].date.day_number())
                            && moved@[n].value == points@[n].value,
                decreases points.len() - k,
            {
                let point: NormalizedPoint = points[k];
                moved.push(NormalizedPoint { date: point.date.first_day_of_month(), value: point.value });
                k = k + 1;
            }
            proof {
                assert(points@.len() == amounts@.len());
                assert forall|n: int| 0 <= n < monthly.len() implies entries(moved@)[n]
                    == monthly[n] by {
                    assert(points@[n].date == amounts@[n].date);
                }
                assert(entries(moved@) =~= monthly);
                assert(converted_all(exchange@, *currency_to, amounts@) == Ok::<
                    Seq<int>,
                    ExchangeError,
                >(point_values(points@)));
            }
            bucket_totals(&moved)
        },
    }
}

/// The expenses of each month, in `currency_to`: every expense is converted
/// at the rate of its own date and counted in the month that holds its date.
/// A month is given by its first day; the months come in their order, and a
/// month without expenses is not listed. With a window, only the expenses
/// dated within it count.
pub fn monthly_expenses(
    expenses: &Vec<ExpenseRecord>,
    exchange: &CurrencyExchange,
    currency_to: &Currency,
    window: Option<(Date, Date)>,
) -> (r: Result<Vec<NormalizedPoint>, ExchangeError>)
    ensures
        monthly_entries(
            exchange@,
            *currency_to,
            amounts_within(expense_amounts(expenses@), window_days(window)),
        ) matches Err(error) ==> r == Err::<Vec<NormalizedPoint>, ExchangeError>(error),
        monthly_entries(
            exchange@,
            *currency_to,
            amounts_within(expense_amounts(expenses@), window_days(window)),
        ) matches Ok(monthly) ==> (r.is_ok() <==> every_net_fits(monthly)),
        monthly_entries(
            exchange@,
            *currency_to,
            amounts_within(expense_amounts(expenses@), window_days(window)),
        ) matches Ok(monthly) ==> (r matches Ok(rows) ==> is_bucketing_of(
            entries(rows@),
            monthly,
        )),
        monthly_entries(
            exchange@,
            *currency_to,
            amounts_within(expense_amounts(expenses@), window_days(window)),
        ) is Ok ==> (r matches Err(error) ==> error == ExchangeError::AmountOverflow),
{
    let mut amounts: Vec<DatedAmount> = Vec::new();
    let mut i: usize = 0;
    while i < expenses.len()
        invariant
            i <= expenses.len(),
            amounts@ == Seq::new(i as nat, |n: int| expenses@[n].amount_of()),
        decreases expenses.len() - i,
    {
        amounts.push(expenses[i].amount());
        proof {
            assert(amounts@ =~= Seq::new((i + 1) as nat, |n: int| expenses@[n].amount_of()));
        }
        i = i + 1;
    }
    proof {
        assert(amounts@ =~= expense_amounts(expenses@));
    }
    let chosen: Vec<DatedAmount> = within(&amounts, window);
    monthly_in(exchange, currency_to, &chosen)
}

/// `part` as a share of `whole`, in hundredths of a percent and rounded to the
/// nearest, a half away from zero; `None` where `whole` is zero.
pub open spec fn percent_of(part: int, whole: int) -> Option<int> {
    if whole == 0 {
        None
    } else if whole > 0 {
        Some((Ratio { num: 10000, den: whole }).applied_to(part))
    } else {
        Some(-(Ratio { num: 10000, den: -whole }).applied_to(part))
    }
}

/// What a computed share stands for.
pub open spec fn percent_view(percent: Option<i128>) -> Option<int> {
    match percent {
        Some(value) => Some(value as int),
        None => None,
    }
}

/// `part` as a share of `whole`, in hundredths of a percent and rounded to the
/// nearest, a half away from zero; `None` where `whole` is zero.
pub fn percent(part: i64, whole: i64) -> (r: Option<i128>)
    ensures
        percent_view(r) == percent_of(part as int, whole as int),
{
    if whole == 0 {
        return None;
    }
    let numerator: u128 = if part < 0 {
        (-(part as i128)) as u128
    } else {
        part as u128
    };
    let denominator: u128 = if whole < 0 {
        (-(whole as i128)) as u128
    } else {
        whole as u128
    };
    let scaled: u128 = (numerator * 10000 + denominator / 2) / denominator;
    proof {
        let n: int = numerator as int * 10000 + denominator as int / 2;
        let d: int = denominator as int;
        assert(n / d <= n) by (nonlinear_arith)
            requires
                d >= 1,
                n >= 0,
        ;
    }
    let share: i128 = scaled as i128;
    if (part < 0) != (whole < 0) {
        Some(-share)
    } else {
        Some(share)
    }
}

/// A converted expense with the category and subcategory it counts under.
pub struct Labelled {
    pub category: Seq<char>,
    pub subcategory: Seq<char>,
    pub value: int,
}

/// The expenses dated from `from` to `until`, both days included, in the
/// order of the table.
pub open spec fn expenses_between(rows: Seq<ExpenseRecord>, from: int, until: int) -> Seq<
    ExpenseRecord,
>
    decreases rows.len(),
{
    if rows.len() == 0 {
        Seq::empty()
    } else {
        let before = expenses_between(rows.drop_last(), from, until);
        if from <= rows.last().date.day_number() <= until {
            before.push(rows.last())
        } else {
            before
        }
    }
}

/// The values `values`, each under the category and subcategory of the
/// expense it was converted from.
pub open spec fn labelled(rows: Seq<ExpenseRecord>, values: Seq<int>) -> Seq<Labelled> {
    Seq::new(
        rows.len(),
        |i: int|
            Labelled {
                category: rows[i].category@,
                subcategory: rows[i].subcategory@,
                value: values[i],
            },
    )
}

/// The sum of the values that count under a category and subcategory.
pub open spec fn group_sum(all: Seq<Labelled>, category: Seq<char>, subcategory: Seq<char>) -> int
    decreases all.len(),
{
    if all.len() == 0 {
        0
    } else {
        group_sum(all.drop_last(), category, subcategory) + if all.last().category == category
            && all.last().subcategory == subcategory {
            all.last().value
        } else {
            0
        }
    }
}

/// Some value counts under the category and subcategory.
pub open spec fn has_group(all: Seq<Labelled>, category: Seq<char>, subcategory: Seq<char>) -> bool {
    exists|k: int|
        0 <= k < all.len() && (#[trigger] all[k]).category == category && all[k].subcategory
            == subcategory
}

/// The sum of all values.
pub open spec fn sum_of_all(all: Seq<Labelled>) -> int {
    sum_of(Seq::new(all.len(), |i: int| all[i].value))
}

/// A group without values sums to 0.
pub proof fn lemma_sum_of_absent_group(
    all: Seq<Labelled>,
    category: Seq<char>,
    subcategory: Seq<char>,
)
    requires
        !has_group(all, category, subcategory),
    ensures
        group_sum(all, category, subcategory) == 0,
    decreases all.len(),
{
    if all.len() > 0 {
        let shorter = all.drop_last();
        assert(!(all[all.len() - 1].category == category && all[all.len() - 1].subcategory
            == subcategory));
        if has_group(shorter, category, subcategory) {
            let k = choose|k: int|
                0 <= k < shorter.len() && (#[trigger] shorter[k]).category == category
                    && shorter[k].subcategory == subcategory;
            assert(all[k] == shorter[k]);
        }
        lemma_sum_of_absent_group(shorter, category, subcategory);
    }
}

/// The sum of a group is at most the number of values times 2^63 in size,
/// where each value fits an `i64`.
pub proof fn lemma_group_sum_bounded(
    all: Seq<Labelled>,
    category: Seq<char>,
    subcategory: Seq<char>,
)
    requires
        forall|i: int| 0 <= i < all.len() ==> fits_i64((#[trigger] all[i]).value),
    ensures
        -(all.len() * 0x8000_0000_0000_0000) <= group_sum(all, category, subcategory) <= all.len()
            * 0x8000_0000_0000_0000,
    decreases all.len(),
{
    if all.len() > 0 {
        let shorter = all.drop_last();
        assert forall|i: int| 0 <= i < shorter.len() implies fits_i64(
            (#[trigger] shorter[i]).value,
        ) by {
            assert(shorter[i] == all[i]);
        }
        lemma_group_sum_bounded(shorter, category, subcategory);
        assert(fits_i64(all[all.len() - 1].value));
    }
}

/// One line of the summary of expenses: the expenses of a category and
/// subcategory, and what share they are of all expenses and of all incomes of
/// the period. The shares are in hundredths of a percent; one is `None` where
/// the whole it refers to is zero.
pub struct SummaryRow {
    pub category: String,
    pub subcategory: String,
    pub amount: i64,
    pub percent_of_expenses: Option<i128>,
    pub percent_of_income: Option<i128>,
}

impl Ranked for SummaryRow {
    /// By category, and within a category by subcategory, in the order of
    /// texts.
    open spec fn ranks_before(&self, other: &Self) -> bool {
        text_precedes(self.category@, other.category@) || (self.category@ == other.category@
            && text_precedes(self.subcategory@, other.subcategory@))
    }

    proof fn lemma_rank_is_irreflexive(a: &Self) {
        lemma_bytes_precede_irreflexive(vstd::utf8::encode_utf8(a.category@));
        lemma_bytes_precede_irreflexive(vstd::utf8::encode_utf8(a.subcategory@));
    }

    proof fn lemma_rank_is_transitive(a: &Self, b: &Self, c: &Self) {
        if text_precedes(a.category@, b.category@) && text_precedes(b.category@, c.category@) {
            lemma_bytes_precede_transitive(
                vstd::utf8::encode_utf8(a.category@),
                vstd::utf8::encode_utf8(b.category@),
                vstd::utf8::encode_utf8(c.category@),
            );
        }
        if text_precedes(a.subcategory@, b.subcategory@) && text_precedes(
            b.subcategory@,
            c.subcategory@,
        ) {
            lemma_bytes_precede_transitive(
                vstd::utf8::encode_utf8(a.subcategory@),
                vstd::utf8::encode_utf8(b.subcategory@),
                vstd::utf8::encode_utf8(c.subcategory@),
            );
        }
    }

    fn is_ranked_before(&self, other: &Self) -> (r: bool) {
        if crate::text::precedes(self.category.as_str(), other.category.as_str()) {
            true
        } else if self.category == other.category {
            crate::text::precedes(self.subcategory.as_str(), other.subcategory.as_str())
        } else {
            false
        }
    }
}

/// The summary of the expenses of a period: one line for each category and
/// subcategory, and a last line for all of them together.
pub struct ExpenseSummary {
    pub rows: Vec<SummaryRow>,
    pub total: SummaryRow,
}

/// `row` is the line of the values of `all` under its category and
/// subcategory, with `income` as the sum of all incomes.
pub open spec fn is_group_line(row: SummaryRow, all: Seq<Labelled>, income: int) -> bool {
    &&& has_group(all, row.category@, row.subcategory@)
    &&& row.amount == group_sum(all, row.category@, row.subcategory@)
    &&& percent_view(row.percent_of_expenses) == percent_of(row.amount as int, sum_of_all(all))
    &&& percent_view(row.percent_of_income) == percent_of(row.amount as int, income)
}

/// `summary` is the summary of the values `all`, with `income` as the sum of
/// all incomes: one line for each category and subcategory that has a value
/// and for no other, the lines in the order of category and subcategory and
/// none twice; and the line `Total` with the sum of all values, which is the
/// whole of the expenses by definition and the share of the incomes that it
/// is.
pub open spec fn is_summary_of(summary: ExpenseSummary, all: Seq<Labelled>, income: int) -> bool {
    &&& in_rank_order(summary.rows@)
    &&& distinct_labels(summary.rows@)
    &&& forall|i: int|
        0 <= i < summary.rows@.len() ==> is_group_line(#[trigger] summary.rows@[i], all, income)
    &&& covers_all(summary.rows@, all)
    &&& summary.total.category@ == "Total"@
    &&& summary.total.subcategory@ == "Total"@
    &&& summary.total.amount == sum_of_all(all)
    &&& summary.total.percent_of_expenses == Some(10000i128)
    &&& percent_view(summary.total.percent_of_income) == percent_of(sum_of_all(all), income)
}

/// Every group of `all`, and all of it together, sums to what fits an `i64`.
pub open spec fn every_group_fits(all: Seq<Labelled>) -> bool {
    fits_i64(sum_of_all(all)) && forall|category: Seq<char>, subcategory: Seq<char>|
        fits_i64(#[trigger] group_sum(all, category, subcategory))
}

/// What the summary of expenses is made from: the sum of the incomes of the
/// period and the converted expenses of the period under their categories; or
/// the failure that stands in the way. The incomes are looked at first, then
/// the expenses, and sums that do not fit last.
pub open spec fn summary_source(
    table: RateTable,
    to: Currency,
    incomes: Seq<IncomeRecord>,
    expenses: Seq<ExpenseRecord>,
    from: int,
    until: int,
) -> Result<(int, Seq<Labelled>), ExchangeError> {
    match total_of(table, to, incomes_between(incomes, from, until)) {
        Err(error) => Err(error),
        Ok(income) => {
            let chosen = expenses_between(expenses, from, until);
            match converted_all(table, to, expense_amounts(chosen)) {
                Err(error) => Err(error),
                Ok(values) => if every_group_fits(labelled(chosen, values)) {
                    Ok((income, labelled(chosen, values)))
                } else {
                    Err(ExchangeError::AmountOverflow)
                },
            }
        },
    }
}

/// The records of `rows` at the places `picked`.
pub open spec fn picked_from(rows: Seq<ExpenseRecord>, picked: Seq<usize>) -> Seq<ExpenseRecord> {
    Seq::new(picked.len(), |n: int| rows[picked[n] as int])
}

/// `row` stands for the category and subcategory of `entry`.
pub open spec fn same_label(row: SummaryRow, entry: Labelled) -> bool {
    row.category@ == entry.category && row.subcategory@ == entry.subcategory
}

/// No two lines stand for the same category and subcategory.
pub open spec fn distinct_labels(groups: Seq<SummaryRow>) -> bool {
    forall|i: int, j: int|
        #![trigger groups[i], groups[j]]
        0 <= i < j < groups.len() ==> !(groups[i].category@ == groups[j].category@
            && groups[i].subcategory@ == groups[j].subcategory@)
}

/// Each line stands for a group that has a value, and `totals` holds the sum
/// of each.
pub open spec fn totals_match(groups: Seq<SummaryRow>, totals: Seq<i128>, all: Seq<Labelled>) -> bool {
    forall|i: int|
        0 <= i < groups.len() ==> has_group(
            all,
            (#[trigger] groups[i]).category@,
            groups[i].subcategory@,
        ) && totals[i] == group_sum(all, groups[i].category@, groups[i].subcategory@)
}

/// Each value has its line.
pub open spec fn covers_all(groups: Seq<SummaryRow>, all: Seq<Labelled>) -> bool {
    forall|k: int|
        0 <= k < all.len() ==> exists|i: int|
            0 <= i < groups.len() && same_label(#[trigger] groups[i], #[trigger] all[k])
}

/// `groups` holds one line for each category and subcategory that has a value
/// in `all` and for no other, in the order of category and subcategory and
/// none twice, and `totals` holds the sum of each.
pub open spec fn is_grouping_of(groups: Seq<SummaryRow>, totals: Seq<i128>, all: Seq<Labelled>) -> bool {
    &&& groups.len() == totals.len()
    &&& in_rank_order(groups)
    &&& distinct_labels(groups)
    &&& totals_match(groups, totals, all)
    &&& covers_all(groups, all)
}

proof fn lemma_has_group_grows(all: Seq<Labelled>, entry: Labelled, category: Seq<char>, subcategory: Seq<char>)
    requires
        has_group(all, category, subcategory),
    ensures
        has_group(all.push(entry), category, subcategory),
{
    let k = choose|k: int|
        0 <= k < all.len() && (#[trigger] all[k]).category == category && all[k].subcategory
            == subcategory;
    assert(all.push(entry)[k] == all[k]);
}

proof fn lemma_group_sum_grows(all: Seq<Labelled>, entry: Labelled, category: Seq<char>, subcategory: Seq<char>)
    ensures
        group_sum(all.push(entry), category, subcategory) == group_sum(all, category, subcategory)
            + if entry.category == category && entry.subcategory == subcategory {
            entry.value
        } else {
            0
        },
{
    assert(all.push(entry).drop_last() =~= all);
}

proof fn lemma_totals_after_update(
    groups: Seq<SummaryRow>,
    totals: Seq<i128>,
    all: Seq<Labelled>,
    entry: Labelled,
    at: int,
    updated: i128,
)
    requires
        groups.len() == totals.len(),
        distinct_labels(groups),
        totals_match(groups, totals, all),
        0 <= at < groups.len(),
        same_label(groups[at], entry),
        updated == totals[at] + entry.value,
    ensures
        totals_match(groups, totals.update(at, updated), all.push(entry)),
{
    let longer = all.push(entry);
    let after = totals.update(at, updated);
    assert forall|i: int| 0 <= i < groups.len() implies has_group(
        longer,
        (#[trigger] groups[i]).category@,
        groups[i].subcategory@,
    ) && after[i] == group_sum(longer, groups[i].category@, groups[i].subcategory@) by {
        lemma_has_group_grows(all, entry, groups[i].category@, groups[i].subcategory@);
        lemma_group_sum_grows(all, entry, groups[i].category@, groups[i].subcategory@);
        if i < at {
            assert(!(groups[i].category@ == groups[at].category@ && groups[i].subcategory@
                == groups[at].subcategory@));
        } else if i > at {
            assert(!(groups[at].category@ == groups[i].category@ && groups[at].subcategory@
                == groups[i].subcategory@));
        }
    }
}

proof fn lemma_covers_after_update(groups: Seq<SummaryRow>, all: Seq<Labelled>, entry: Labelled, at: int)
    requires
        covers_all(groups, all),
        0 <= at < groups.len(),
        same_label(groups[at], entry),
    ensures
        covers_all(groups, all.push(entry)),
{
    let longer = all.push(entry);
    assert forall|k: int| 0 <= k < longer.len() implies exists|i: int|
        0 <= i < groups.len() && same_label(#[trigger] groups[i], #[trigger] longer[k]) by {
        if k == all.len() {
            assert(same_label(groups[at], longer[k]));
        } else {
            assert(longer[k] == all[k]);
        }
    }
}

proof fn lemma_absent_label(groups: Seq<SummaryRow>, all: Seq<Labelled>, entry: Labelled)
    requires
        covers_all(groups, all),
        forall|a: int| 0 <= a < groups.len() ==> !same_label(#[trigger] groups[a], entry),
    ensures
        !has_group(all, entry.category, entry.subcategory),
{
    if has_group(all, entry.category, entry.subcategory) {
        let k = choose|k: int|
            0 <= k < all.len() && (#[trigger] all[k]).category == entry.category
                && all[k].subcategory == entry.subcategory;
        let i = choose|i: int| 0 <= i < groups.len() && same_label(#[trigger] groups[i], all[k]);
        assert(same_label(groups[i], entry));
    }
}

proof fn lemma_distinct_after_insert(
    groups: Seq<SummaryRow>,
    entry: Labelled,
    position: int,
    line: SummaryRow,
)
    requires
        distinct_labels(groups),
        forall|a: int| 0 <= a < groups.len() ==> !same_label(#[trigger] groups[a], entry),
        0 <= position <= groups.len(),
        same_label(line, entry),
    ensures
        distinct_labels(groups.insert(position, line)),
{
    let after = groups.insert(position, line);
    groups.insert_ensures(position, line);
    assert forall|i: int, j: int|
        #![trigger after[i], after[j]]
        0 <= i < j < after.len() implies !(after[i].category@ == after[j].category@
        && after[i].subcategory@ == after[j].subcategory@) by {
        let a = if i < position {
            i
        } else {
            i - 1
        };
        let b = if j < position {
            j
        } else {
            j - 1
        };
        if i == position {
            assert(after[j] == groups[b]);
            assert(!same_label(groups[b], entry));
        } else if j == position {
            assert(after[i] == groups[a]);
            assert(!same_label(groups[a], entry));
        } else {
            assert(after[i] == groups[a] && after[j] == groups[b]);
        }
    }
}

proof fn lemma_totals_after_insert(
    groups: Seq<SummaryRow>,
    totals: Seq<i128>,
    all: Seq<Labelled>,
    entry: Labelled,
    position: int,
    line: SummaryRow,
)
    requires
        groups.len() == totals.len(),
        totals_match(groups, totals, all),
        covers_all(groups, all),
        forall|a: int| 0 <= a < groups.len() ==> !same_label(#[trigger] groups[a], entry),
        0 <= position <= groups.len(),
        same_label(line, entry),
        fits_i64(entry.value),
    ensures
        totals_match(
            groups.insert(position, line),
            totals.insert(position, entry.value as i128),
            all.push(entry),
        ),
{
    let longer = all.push(entry);
    let after = groups.insert(position, line);
    let sums = totals.insert(position, entry.value as i128);
    groups.insert_ensures(position, line);
    totals.insert_ensures(position, entry.value as i128);
    lemma_absent_label(groups, all, entry);
    lemma_sum_of_absent_group(all, entry.category, entry.subcategory);
    assert forall|i: int| 0 <= i < after.len() implies has_group(
        longer,
        (#[trigger] after[i]).category@,
        after[i].subcategory@,
    ) && sums[i] == group_sum(longer, after[i].category@, after[i].subcategory@) by {
        lemma_group_sum_grows(all, entry, after[i].category@, after[i].subcategory@);
        if i == position {
            assert(longer[all.len() as int] == entry);
        } else {
            let a = if i < position {
                i
            } else {
                i - 1
            };
            assert(after[i] == groups[a] && sums[i] == totals[a]);
            assert(!same_label(groups[a], entry));
            lemma_has_group_grows(all, entry, groups[a].category@, groups[a].subcategory@);
        }
    }
}

proof fn lemma_covers_after_insert(
    groups: Seq<SummaryRow>,
    all: Seq<Labelled>,
    entry: Labelled,
    position: int,
    line: SummaryRow,
)
    requires
        covers_all(groups, all),
        0 <= position <= groups.len(),
        same_label(line, entry),
    ensures
        covers_all(groups.insert(position, line), all.push(entry)),
{
    let longer = all.push(entry);
    let after = groups.insert(position, line);
    groups.insert_ensures(position, line);
    assert forall|k: int| 0 <= k < longer.len() implies exists|i: int|
        0 <= i < after.len() && same_label(#[trigger] after[i], #[trigger] longer[k]) by {
        if k == all.len() {
            assert(same_label(after[position], longer[k]));
        } else {
            assert(longer[k] == all[k]);
            let a = choose|a: int| 0 <= a < groups.len() && same_label(#[trigger] groups[a], all[k]);
            if a < position {
                assert(after[a] == groups[a]);
                assert(same_label(after[a], longer[k]));
            } else {
                assert(after[a + 1] == groups[a]);
                assert(same_label(after[a + 1], longer[k]));
            }
        }
    }
}

/// Adding a value to a grouping: the sum of its group grows by it, or a new
/// line is put in its place.
fn add_to_grouping(
    groups: &mut Vec<SummaryRow>,
    totals: &mut Vec<i128>,
    record: &ExpenseRecord,
    value: i64,
    Ghost(all): Ghost<Seq<Labelled>>,
)
    requires
        is_grouping_of(old(groups)@, old(totals)@, all),
        all.len() < usize::MAX,
        forall|i: int| 0 <= i < all.len() ==> fits_i64((#[trigger] all[i]).value),
    ensures
        is_grouping_of(
            final(groups)@,
            final(totals)@,
            all.push(
                Labelled {
                    category: record.category@,
                    subcategory: record.subcategory@,
                    value: value as int,
                },
            ),
        ),
{
    let ghost entry = Labelled {
        category: record.category@,
        subcategory: record.subcategory@,
        value: value as int,
    };
    let ghost old_groups = groups@;
    let ghost old_totals = totals@;
    let mut at: usize = 0;
    while at < groups.len() && !(groups[at].category == record.category && groups[at].subcategory
        == record.subcategory)
        invariant
            at <= groups@.len(),
            groups@ == old_groups,
            entry.category == record.category@,
            entry.subcategory == record.subcategory@,
            forall|a: int| 0 <= a < at ==> !same_label(#[trigger] groups@[a], entry),
        decreases groups@.len() - at,
    {
        at = at + 1;
    }
    if at < groups.len() {
        proof {
            lemma_group_sum_bounded(all, record.category@, record.subcategory@);
        }
        let updated: i128 = totals[at] + value as i128;
        totals.set(at, updated);
        proof {
            lemma_totals_after_update(old_groups, old_totals, all, entry, at as int, updated);
            lemma_covers_after_update(old_groups, all, entry, at as int);
        }
    } else {
        let line = SummaryRow {
            category: record.category.clone(),
            subcategory: record.subcategory.clone(),
            amount: 0,
            percent_of_expenses: None,
            percent_of_income: None,
        };
        let position: usize = insert_in_rank(groups, line);
        totals.insert(position, value as i128);
        proof {
            lemma_distinct_after_insert(old_groups, entry, position as int, line);
            lemma_totals_after_insert(old_groups, old_totals, all, entry, position as int, line);
            lemma_covers_after_insert(old_groups, all, entry, position as int, line);
        }
    }
}

/// The places in `expenses` of the expenses dated from `from` to `until`, in
/// their order, and the amount of each.
fn select_expenses(expenses: &Vec<ExpenseRecord>, from: i32, until: i32) -> (r: (
    Vec<usize>,
    Vec<DatedAmount>,
))
    ensures
        forall|n: int| 0 <= n < r.0@.len() ==> (#[trigger] r.0@[n]) < expenses@.len(),
        picked_from(expenses@, r.0@) == expenses_between(expenses@, from as int, until as int),
        r.1@ == expense_amounts(picked_from(expenses@, r.0@)),
{
    let mut picked: Vec<usize> = Vec::new();
    let mut amounts: Vec<DatedAmount> = Vec::new();
    let mut i: usize = 0;
    while i < expenses.len()
        invariant
            i <= expenses.len(),
            forall|n: int| 0 <= n < picked@.len() ==> (#[trigger] picked@[n]) < i,
            picked_from(expenses@, picked@) == expenses_between(
                expenses@.take(i as int),
                from as int,
                until as int,
            ),
            amounts@ == expense_amounts(picked_from(expenses@, picked@)),
        decreases expenses.len() - i,
    {
        proof {
            assert(expenses@.take(i as int + 1).drop_last() =~= expenses@.take(i as int));
        }
        let day: i32 = expenses[i].date.days();
        if from <= day && day <= until {
            let ghost before = picked@;
            picked.push(i);
            amounts.push(expenses[i].amount());
            proof {
                assert(picked_from(expenses@, picked@) =~= picked_from(expenses@, before).push(
                    expenses@[i as int],
                ));
                assert(amounts@ =~= expense_amounts(picked_from(expenses@, picked@)));
            }
        }
        i = i + 1;
    }
    proof {
        assert(expenses@.take(i as int) =~= expenses@);
    }
    (picked, amounts)
}

/// The grouping of the converted expenses at the places `picked`.
fn group_expenses(
    expenses: &Vec<ExpenseRecord>,
    picked: &Vec<usize>,
    points: &Vec<NormalizedPoint>,
) -> (r: (Vec<SummaryRow>, Vec<i128>))
    requires
        picked@.len() == points@.len(),
        forall|n: int| 0 <= n < picked@.len() ==> (#[trigger] picked@[n]) < expenses@.len(),
    ensures
        is_grouping_of(
            r.0@,
            r.1@,
            labelled(picked_from(expenses@, picked@), point_values(points@)),
        ),
{
    let ghost all = labelled(picked_from(expenses@, picked@), point_values(points@));
    let mut groups: Vec<SummaryRow> = Vec::new();
    let mut totals: Vec<i128> = Vec::new();
    let mut k: usize = 0;
    proof {
        assert(all.take(0) =~= Seq::<Labelled>::empty());
    }
    while k < picked.len()
        invariant
            k <= picked@.len(),
            picked@.len() == points@.len(),
            forall|n: int| 0 <= n < picked@.len() ==> (#[trigger] picked@[n]) < expenses@.len(),
            all == labelled(picked_from(expenses@, picked@), point_values(points@)),
            is_grouping_of(groups@, totals@, all.take(k as int)),
        decreases picked@.len() - k,
    {
        let record: &ExpenseRecord = &expenses[picked[k]];
        let value: i64 = points[k].value;
        proof {
            assert(all.take(k as int + 1) =~= all.take(k as int).push(
                Labelled {
                    category: record.category@,
                    subcategory: record.subcategory@,
                    value: value as int,
                },
            ));
            assert forall|i: int| 0 <= i < all.take(k as int).len() implies fits_i64(
                (#[trigger] all.take(k as int)[i]).value,
            ) by {
                assert(all.take(k as int)[i].value == points@[i].value);
            }
        }
        add_to_grouping(&mut groups, &mut totals, record, value, Ghost(all.take(k as int)));
        k = k + 1;
    }
    proof {
        assert(all.take(k as int) =~= all);
    }
    (groups, totals)
}

/// The lines of a summary from a grouping: each sum with its shares of
/// `total` and of `income`; `None` where a sum does not fit.
fn summary_lines(
    groups: &Vec<SummaryRow>,
    totals: &Vec<i128>,
    total: i64,
    income: i64,
    Ghost(all): Ghost<Seq<Labelled>>,
) -> (r: Option<Vec<SummaryRow>>)
    requires
        is_grouping_of(groups@, totals@, all),
        total == sum_of_all(all),
    ensures
        r.is_some() <==> forall|i: int| 0 <= i < totals@.len() ==> fits_i64(#[trigger] totals@[i] as int),
        r matches Some(rows) ==> {
            &&& in_rank_order(rows@)
            &&& distinct_labels(rows@)
            &&& covers_all(rows@, all)
            &&& forall|i: int|
                0 <= i < rows@.len() ==> is_group_line(#[trigger] rows@[i], all, income as int)
        },
{
    let mut rows: Vec<SummaryRow> = Vec::new();
    let mut a: usize = 0;
    while a < groups.len()
        invariant
            a <= groups@.len(),
            groups@.len() == totals@.len(),
            totals_match(groups@, totals@, all),
            total == sum_of_all(all),
            rows@.len() == a,
            forall|n: int| 0 <= n < a ==> fits_i64(#[trigger] totals@[n] as int),
            forall|n: int|
                0 <= n < a ==> (#[trigger] rows@[n]).category@ == groups@[n].category@
                    && rows@[n].subcategory@ == groups@[n].subcategory@ && is_group_line(
                    rows@[n],
                    all,
                    income as int,
                ),
        decreases groups@.len() - a,
    {
        let sum: i128 = totals[a];
        if sum < i64::MIN as i128 || sum > i64::MAX as i128 {
            return None;
        }
        let amount: i64 = sum as i64;
        let line = SummaryRow {
            category: groups[a].category.clone(),
            subcategory: groups[a].subcategory.clone(),
            amount,
            percent_of_expenses: percent(amount, total),
            percent_of_income: percent(amount, income),
        };
        proof {
            assert(has_group(all, groups@[a as int].category@, groups@[a as int].subcategory@));
        }
        rows.push(line);
        a = a + 1;
    }
    proof {
        assert forall|i: int, j: int|
            #![trigger rows@[i], rows@[j]]
            0 <= i < j < rows@.len() implies !rows@[j].ranks_before(&rows@[i]) by {
            assert(!groups@[j].ranks_before(&groups@[i]));
        }
        assert forall|i: int, j: int|
            #![trigger rows@[i], rows@[j]]
            0 <= i < j < rows@.len() implies !(rows@[i].category@ == rows@[j].category@
            && rows@[i].subcategory@ == rows@[j].subcategory@) by {
            assert(!(groups@[i].category@ == groups@[j].category@ && groups@[i].subcategory@
                == groups@[j].subcategory@));
        }
        assert forall|k: int| 0 <= k < all.len() implies exists|i: int|
            0 <= i < rows@.len() && same_label(#[trigger] rows@[i], #[trigger] all[k]) by {
            let i = choose|i: int|
                0 <= i < groups@.len() && same_label(#[trigger] groups@[i], all[k]);
            assert(same_label(rows@[i], all[k]));
        }
    }
    Some(rows)
}

/// Where every line of a grouping fits, every group of the values does.
proof fn lemma_groups_fit(groups: Seq<SummaryRow>, totals: Seq<i128>, all: Seq<Labelled>)
    requires
        is_grouping_of(groups, totals, all),
        forall|i: int| 0 <= i < totals.len() ==> fits_i64(#[trigger] totals[i] as int),
    ensures
        forall|category: Seq<char>, subcategory: Seq<char>|
            fits_i64(#[trigger] group_sum(all, category, subcategory)),
{
    assert forall|category: Seq<char>, subcategory: Seq<char>|
        fits_i64(#[trigger] group_sum(all, category, subcategory)) by {
        if has_group(all, category, subcategory) {
            let k = choose|k: int|
                0 <= k < all.len() && (#[trigger] all[k]).category == category
                    && all[k].subcategory == subcategory;
            let i = choose|i: int| 0 <= i < groups.len() && same_label(#[trigger] groups[i], all[k]);
            assert(totals[i] == group_sum(all, groups[i].category@, groups[i].subcategory@));
        } else {
            lemma_sum_of_absent_group(all, category, subcategory);
        }
    }
}

/// The summary from a grouping of `all`, the values of `all` and the sum of
/// the incomes; `AmountOverflow` where a sum does not fit.
fn summary_from(
    groups: &Vec<SummaryRow>,
    totals: &Vec<i128>,
    values: &Vec<i64>,
    income: i64,
    Ghost(all): Ghost<Seq<Labelled>>,
) -> (r: Result<ExpenseSummary, ExchangeError>)
    requires
        is_grouping_of(groups@, totals@, all),
        sum_of_all(all) == sum_of(as_ints(values@)),
    ensures
        every_group_fits(all) ==> r is Ok && is_summary_of(r->Ok_0, all, income as int),
        !every_group_fits(all) ==> r is Err && r->Err_0 == ExchangeError::AmountOverflow,
{
    let total: i64 = match checked_total(values) {
        Some(total) => total,
        None => {
            return Err(ExchangeError::AmountOverflow);
        },
    };
    match summary_lines(groups, totals, total, income, Ghost(all)) {
        None => {
            proof {
                let i = choose|i: int| 0 <= i < totals@.len() && !fits_i64(#[trigger] totals@[i] as int);
                assert(totals@[i] == group_sum(
                    all,
                    groups@[i].category@,
                    groups@[i].subcategory@,
                ));
            }
            Err(ExchangeError::AmountOverflow)
        },
        Some(rows) => {
            proof {
                lemma_groups_fit(groups@, totals@, all);
            }
            let total_line = SummaryRow {
                category: String::from_str("Total"),
                subcategory: String::from_str("Total"),
                amount: total,
                percent_of_expenses: Some(10000),
                percent_of_income: percent(total, income),
            };
            Ok(ExpenseSummary { rows, total: total_line })
        },
    }
}

/// The expenses dated from `date_from` to `date_to`, both days included, by
/// category and subcategory and in `currency_to`.
///
/// Every expense is converted at the rate of its own date. There is one line
/// for each category and subcategory, in their order, with the sum of its
/// expenses and the share that this sum is of all expenses and of all incomes
/// of the period; and a last line, `Total`, for all expenses together. A
/// share is given in hundredths of a percent.
pub fn expenses_summary(
    expenses: &Vec<ExpenseRecord>,
    incomes: &Vec<IncomeRecord>,
    exchange: &CurrencyExchange,
    date_from: Date,
    date_to: Date,
    currency_to: &Currency,
) -> (r: Result<ExpenseSummary, ExchangeError>)
    ensures
        summary_source(
            exchange@,
            *currency_to,
            incomes@,
            expenses@,
            date_from.day_number(),
            date_to.day_number(),
        ) matches Err(error) ==> r is Err && r->Err_0 == error,
        summary_source(
            exchange@,
            *currency_to,
            incomes@,
            expenses@,
            date_from.day_number(),
            date_to.day_number(),
        ) matches Ok(source) ==> r is Ok && is_summary_of(r->Ok_0, source.1, source.0),
{
    let income: i64 = match total_income(incomes, exchange, date_from, date_to, currency_to) {
        Ok(income) => income,
        Err(error) => {
            return Err(error);
        },
    };
    let from: i32 = date_from.days();
    let until: i32 = date_to.days();
    let (picked, amounts) = select_expenses(expenses, from, until);
    let points: Vec<NormalizedPoint> = match exchange.exchange_currencies(currency_to, &amounts) {
        Ok(points) => points,
        Err(error) => {
            return Err(error);
        },
    };
    let ghost all = labelled(picked_from(expenses@, picked@), point_values(points@));
    let (groups, totals) = group_expenses(expenses, &picked, &points);
    let values: Vec<i64> = values_of(&points);
    proof {
        assert(Seq::new(all.len(), |i: int| all[i].value) =~= point_values(points@));
    }
    summary_from(&groups, &totals, &values, income, Ghost(all))
}

/// The place of a currency in the alphabetical order of the codes.
pub open spec fn code_order(currency: Currency) -> int {
    match currency {
        Currency::CHF => 0,
        Currency::EUR => 1,
        Currency::SEK => 2,
    }
}

/// One line of the stand of the funds: an account and what it holds, in
/// minor units of `currency`.
pub struct FundStandRow {
    pub name: String,
    pub country: String,
    pub currency: Currency,
    pub account_type: AccountType,
    pub value: i64,
}

impl Ranked for FundStandRow {
    /// By currency, in the alphabetical order of the codes, and within a
    /// currency the larger value first.
    open spec fn ranks_before(&self, other: &Self) -> bool {
        code_order(self.currency) < code_order(other.currency) || (self.currency == other.currency
            && self.value > other.value)
    }

    proof fn lemma_rank_is_irreflexive(a: &Self) {
    }

    proof fn lemma_rank_is_transitive(a: &Self, b: &Self, c: &Self) {
    }

    fn is_ranked_before(&self, other: &Self) -> (r: bool) {
        let mine: u8 = match self.currency {
            Currency::CHF => 0,
            Currency::EUR => 1,
            Currency::SEK => 2,
        };
        let theirs: u8 = match other.currency {
            Currency::CHF => 0,
            Currency::EUR => 1,
            Currency::SEK => 2,
        };
        mine < theirs || (mine == theirs && self.value > other.value)
    }
}

/// What counts for an account: its opening balance, and every movement of
/// funds that names the account. Where the stand is shown in the currency of
/// the account itself, a movement in another currency cannot be added and
/// does not count; where a target currency is given, every movement counts,
/// each in its own currency. Each term is dated `on`, the day for which the
/// stand is asked.
pub open spec fn account_terms(
    account: AccountRecord,
    movements: Seq<FundMovementRecord>,
    target: Option<Currency>,
    on: Date,
) -> Seq<DatedAmount>
    decreases movements.len(),
{
    if movements.len() == 0 {
        seq![DatedAmount { date: on, currency: account.currency, value: account.initial_balance }]
    } else {
        let before = account_terms(account, movements.drop_last(), target, on);
        let last = movements.last();
        if last.account_id == account.account_id && (target is Some || last.currency
            == account.currency) {
            before.push(DatedAmount { date: on, currency: last.currency, value: last.value })
        } else {
            before
        }
    }
}

/// The currency in which the stand of an account is shown: the one asked for,
/// or the account's own.
pub open spec fn shown_currency(target: Option<Currency>, account: AccountRecord) -> Currency {
    match target {
        Some(currency) => currency,
        None => account.currency,
    }
}

/// What an account holds on the day `on`, in the currency shown: each term
/// converted at the rate of `on`, and the results added up.
pub open spec fn stand_of(
    table: RateTable,
    target: Option<Currency>,
    account: AccountRecord,
    movements: Seq<FundMovementRecord>,
    on: Date,
) -> Result<int, ExchangeError> {
    total_of(table, shown_currency(target, account), account_terms(account, movements, target, on))
}

/// The lines of the stand in the order of the accounts: one for each account
/// that holds at least one minor unit; the failure of the first account whose
/// stand cannot be given.
pub open spec fn stand_rows(
    table: RateTable,
    target: Option<Currency>,
    accounts: Seq<AccountRecord>,
    movements: Seq<FundMovementRecord>,
    on: Date,
) -> Result<Seq<FundStandRow>, ExchangeError>
    decreases accounts.len(),
{
    if accounts.len() == 0 {
        Ok(Seq::empty())
    } else {
        match stand_rows(table, target, accounts.drop_last(), movements, on) {
            Err(error) => Err(error),
            Ok(rows) => {
                let account = accounts.last();
                match stand_of(table, target, account, movements, on) {
                    Err(error) => Err(error),
                    Ok(value) => if value >= 1 {
                        Ok(
                            rows.push(
                                FundStandRow {
                                    name: account.name,
                                    country: account.country,
                                    currency: shown_currency(target, account),
                                    account_type: account.account_type,
                                    value: value as i64,
                                },
                            ),
                        )
                    } else {
                        Ok(rows)
                    },
                }
            },
        }
    }
}

/// Once the stand of the first `n` accounts fails, so does that of all, and
/// with the same failure.
pub proof fn lemma_stand_failure_stays(
    table: RateTable,
    target: Option<Currency>,
    accounts: Seq<AccountRecord>,
    movements: Seq<FundMovementRecord>,
    on: Date,
    n: int,
)
    requires
        0 <= n <= accounts.len(),
        stand_rows(table, target, accounts.take(n), movements, on) is Err,
    ensures
        stand_rows(table, target, accounts, movements, on) == stand_rows(
            table,
            target,
            accounts.take(n),
            movements,
            on,
        ),
    decreases accounts.len() - n,
{
    if n < accounts.len() {
        assert(accounts.take(n + 1).drop_last() =~= accounts.take(n));
        lemma_stand_failure_stays(table, target, accounts, movements, on, n + 1);
    } else {
        assert(accounts.take(n) =~= accounts);
    }
}

/// What `account` holds on the day `on`, in the currency shown.
fn account_stand(
    account: &AccountRecord,
    movements: &Vec<FundMovementRecord>,
    exchange: &CurrencyExchange,
    currency_to: Option<&Currency>,
    on: Date,
) -> (r: Result<i64, ExchangeError>)
    ensures
        amount_view(r) == stand_of(exchange@, target_of(currency_to), *account, movements@, on),
{
    let ghost target = target_of(currency_to);
    let converted: bool = currency_to.is_some();
    let mut terms: Vec<DatedAmount> = Vec::new();
    terms.push(DatedAmount { date: on, currency: account.currency, value: account.initial_balance });
    let mut j: usize = 0;
    proof {
        assert(terms@ =~= account_terms(*account, movements@.take(0), target, on));
    }
    while j < movements.len()
        invariant
            j <= movements.len(),
            target == target_of(currency_to),
            converted == (target is Some),
            terms@ == account_terms(*account, movements@.take(j as int), target, on),
        decreases movements.len() - j,
    {
        proof {
            assert(movements@.take(j as int + 1).drop_last() =~= movements@.take(j as int));
        }
        let movement: FundMovementRecord = movements[j];
        if movement.account_id == account.account_id && (converted || movement.currency
            == account.currency) {
            terms.push(DatedAmount { date: on, currency: movement.currency, value: movement.value });
        }
        j = j + 1;
    }
    proof {
        assert(movements@.take(j as int) =~= movements@);
    }
    let shown: Currency = match currency_to {
        Some(currency) => *currency,
        None => account.currency,
    };
    total_in(exchange, &shown, &terms)
}

/// The target currency of a stand, as a value.
pub open spec fn target_of(currency_to: Option<&Currency>) -> Option<Currency> {
    match currency_to {
        Some(currency) => Some(*currency),
        None => None,
    }
}

/// `outcome` gives the lines `expected` in rank order, each line once for each
/// time it is expected; or it fails as `expected` does.
pub open spec fn is_stand(
    outcome: Result<Vec<FundStandRow>, ExchangeError>,
    expected: Result<Seq<FundStandRow>, ExchangeError>,
) -> bool {
    match expected {
        Err(error) => outcome is Err && outcome->Err_0 == error,
        Ok(lines) => outcome is Ok && in_rank_order(outcome->Ok_0@) && outcome->Ok_0@.to_multiset()
            == lines.to_multiset(),
    }
}

/// What each account holds on the day `on`.
///
/// An account holds its opening balance and the movements of funds that name
/// it. With a target currency every term is converted at the rate of `on`
/// and the results are added up; without one the accounts are shown each in
/// its own currency, and only the movements in that currency count. Accounts
/// that hold less than one minor unit are left out. The lines come by
/// currency, and within a currency the largest first.
pub fn fund_stand_on(
    accounts: &Vec<AccountRecord>,
    movements: &Vec<FundMovementRecord>,
    exchange: &CurrencyExchange,
    currency_to: Option<&Currency>,
    on: Date,
) -> (r: Result<Vec<FundStandRow>, ExchangeError>)
    ensures
        is_stand(r, stand_rows(exchange@, target_of(currency_to), accounts@, movements@, on)),
{
    let ghost target = target_of(currency_to);
    let mut listed: Vec<FundStandRow> = Vec::new();
    let mut i: usize = 0;
    while i < accounts.len()
        invariant
            i <= accounts.len(),
            target == target_of(currency_to),
            stand_rows(exchange@, target, accounts@.take(i as int), movements@, on) == Ok::<
                Seq<FundStandRow>,
                ExchangeError,
            >(listed@),
        decreases accounts.len() - i,
    {
        proof {
            assert(accounts@.take(i as int + 1).drop_last() =~= accounts@.take(i as int));
        }
        let account: &AccountRecord = &accounts[i];
        let shown: Currency = match currency_to {
            Some(currency) => *currency,
            None => account.currency,
        };
        match account_stand(account, movements, exchange, currency_to, on) {
            Err(error) => {
                proof {
                    lemma_stand_failure_stays(
                        exchange@,
                        target,
                        accounts@,
                        movements@,
                        on,
                        i as int + 1,
                    );
                }
                return Err(error);
            },
            Ok(value) => {
                if value >= 1 {
                    listed.push(
                        FundStandRow {
                            name: account.name.clone(),
                            country: account.country.clone(),
                            currency: shown,
                            account_type: account.account_type,
                            value,
                        },
                    );
                }
            },
        }
        i = i + 1;
    }
    proof {
        assert(accounts@.take(i as int) =~= accounts@);
    }
    Ok(sort_by_rank(listed))
}

/// What each account holds today; see [`fund_stand_on`].
pub fn current_fund_stand(
    accounts: &Vec<AccountRecord>,
    movements: &Vec<FundMovementRecord>,
    exchange: &CurrencyExchange,
    currency_to: Option<&Currency>,
) -> (r: Result<Vec<FundStandRow>, ExchangeError>)
    ensures
        exists|on: Date|
            is_stand(
                r,
                #[trigger] stand_rows(
                    exchange@,
                    target_of(currency_to),
                    accounts@,
                    movements@,
                    on,
                ),
            ),
{
    let today: Date = Date::today();
    let r = fund_stand_on(accounts, movements, exchange, currency_to, today);
    proof {
        assert(is_stand(
            r,
            stand_rows(exchange@, target_of(currency_to), accounts@, movements@, today),
        ));
    }
    r
}

} // verus!
