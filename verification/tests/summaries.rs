use delphis_nap::calendar::Date;
use delphis_nap::currency_exchange::{CurrencyExchange, ExchangeError, NormalizedPoint};
use delphis_nap::financial::{AccountType, Currency};
use delphis_nap::money::QuotedRate;
use delphis_nap::series::{Observation, RawSeries};
use delphis_nap::currency_exchange::DatedAmount;
use delphis_nap::summaries::{
    bucket_totals, current_fund_stand, evolution, expenses_summary, fund_stand_on,
    funds_evolution, monthly_expenses, percent, total_in, total_income, within,
};
use delphis_nap::tables::{
    AccountRecord, ExpenseRecord, FundMovementRecord, FundMovementType, IncomeRecord,
};

fn day(year: i32, month: u32, day: u32) -> Date {
    Date::from_ymd(year, month, day).unwrap()
}

fn obs(date: Date, num: u32, den: u32) -> Observation {
    Observation { date, rate: QuotedRate::new(num, den).unwrap() }
}

/// CHF is worth 0.5, 1.0, 1.5 EUR and SEK 1.5, 1.0, 0.5 EUR on the first three
/// days of 2020; the series are carried on to 2020-03-31.
fn exchange() -> CurrencyExchange {
    let chf = RawSeries::from_observations(vec![
        obs(day(2020, 1, 1), 1, 2),
        obs(day(2020, 1, 2), 1, 1),
        obs(day(2020, 1, 3), 3, 2),
    ])
    .unwrap();
    let sek = RawSeries::from_observations(vec![
        obs(day(2020, 1, 1), 3, 2),
        obs(day(2020, 1, 2), 1, 1),
        obs(day(2020, 1, 3), 1, 2),
    ])
    .unwrap();
    CurrencyExchange::as_of(&vec![(Currency::CHF, chf), (Currency::SEK, sek)], day(2020, 3, 31))
}

fn income(id: i64, value: i64, currency: Currency, date: Date) -> IncomeRecord {
    IncomeRecord {
        income_id: id,
        value,
        currency,
        date,
        category: "Salary".to_string(),
        subcategory: "Regular salary".to_string(),
        description: String::new(),
        entity_id: 0,
        party_id: id,
    }
}

fn expense(
    id: i64,
    value: i64,
    currency: Currency,
    date: Date,
    category: &str,
    subcategory: &str,
) -> ExpenseRecord {
    ExpenseRecord {
        expense_id: id,
        value,
        currency,
        date,
        category: category.to_string(),
        subcategory: subcategory.to_string(),
        description: String::new(),
        entity_id: 0,
        party_id: id,
    }
}

fn movement(id: i64, value: i64, currency: Currency, date: Date, account_id: i64) -> FundMovementRecord {
    FundMovementRecord {
        fund_movement_id: id,
        fund_movement_type: if value >= 0 { FundMovementType::Credit } else { FundMovementType::Debit },
        value,
        currency,
        date,
        account_id,
        party_id: id,
    }
}

fn account(id: i64, name: &str, currency: Currency, initial_balance: i64, date: Date) -> AccountRecord {
    AccountRecord {
        account_id: id,
        name: name.to_string(),
        country: "Switzerland".to_string(),
        currency,
        account_type: AccountType::Deposit,
        initial_balance,
        creation_date: date,
    }
}

fn point(date: Date, value: i64) -> NormalizedPoint {
    NormalizedPoint { date, value }
}

#[test]
fn total_income_counts_the_window_at_each_own_rate() {
    let incomes = vec![
        income(0, 10000, Currency::EUR, day(2020, 1, 1)),
        income(1, 10000, Currency::CHF, day(2020, 1, 1)), // 0.5 -> 5000
        income(2, 10000, Currency::CHF, day(2020, 1, 3)), // 1.5 -> 15000
        income(3, 10000, Currency::SEK, day(2020, 1, 4)), // outside
        income(4, 77, Currency::EUR, day(2019, 12, 31)), // outside, and not priced
    ];
    let total = total_income(&incomes, &exchange(), day(2020, 1, 1), day(2020, 1, 3), &Currency::EUR);
    assert_eq!(total, Ok(30000));
    let one_day = total_income(&incomes, &exchange(), day(2020, 1, 3), day(2020, 1, 3), &Currency::EUR);
    assert_eq!(one_day, Ok(15000));
    let nothing = total_income(&incomes, &exchange(), day(2020, 2, 1), day(2020, 2, 3), &Currency::EUR);
    assert_eq!(nothing, Ok(0));
}

#[test]
fn total_income_fails_rather_than_leave_a_record_out() {
    let incomes = vec![
        income(0, 10000, Currency::EUR, day(2019, 12, 31)),
        income(1, 10000, Currency::CHF, day(2019, 12, 31)),
    ];
    let total = total_income(&incomes, &exchange(), day(2019, 12, 1), day(2020, 1, 3), &Currency::EUR);
    assert_eq!(total, Err(ExchangeError::OutOfRange));
    let only_chf = CurrencyExchange::as_of(
        &vec![(Currency::CHF, RawSeries::from_observations(vec![obs(day(2019, 1, 1), 1, 1)]).unwrap())],
        day(2020, 3, 31),
    );
    let sek = vec![income(0, 1, Currency::SEK, day(2020, 1, 1))];
    assert_eq!(
        total_income(&sek, &only_chf, day(2020, 1, 1), day(2020, 1, 1), &Currency::EUR),
        Err(ExchangeError::UnresolvablePair)
    );
    let huge = vec![
        income(0, i64::MAX, Currency::EUR, day(2020, 1, 1)),
        income(1, 1, Currency::EUR, day(2020, 1, 1)),
    ];
    assert_eq!(
        total_income(&huge, &exchange(), day(2020, 1, 1), day(2020, 1, 1), &Currency::EUR),
        Err(ExchangeError::AmountOverflow)
    );
    let cancels = vec![
        income(0, i64::MAX, Currency::EUR, day(2020, 1, 1)),
        income(1, 1, Currency::EUR, day(2020, 1, 1)),
        income(2, -5, Currency::EUR, day(2020, 1, 1)),
    ];
    assert_eq!(
        total_income(&cancels, &exchange(), day(2020, 1, 1), day(2020, 1, 1), &Currency::EUR),
        Ok(i64::MAX - 4)
    );
}

#[test]
fn evolution_fills_every_day_with_the_running_total() {
    let points = vec![
        point(day(2020, 1, 5), -30),
        point(day(2020, 1, 1), 100),
        point(day(2020, 1, 3), 20),
        point(day(2020, 1, 3), 5),
        point(day(2020, 1, 6), 0),
    ];
    let curve = evolution(&points).unwrap();
    let expected = vec![
        point(day(2020, 1, 1), 100),
        point(day(2020, 1, 2), 100),
        point(day(2020, 1, 3), 125),
        point(day(2020, 1, 4), 125),
        point(day(2020, 1, 5), 95),
        point(day(2020, 1, 6), 95),
    ];
    assert_eq!(curve, expected);
    // the curve rises exactly on the days of positive net activity
    let rises: Vec<bool> = curve.windows(2).map(|w| w[1].value > w[0].value).collect();
    assert_eq!(rises, vec![false, true, false, false, false]);
    let falls: Vec<bool> = curve.windows(2).map(|w| w[1].value < w[0].value).collect();
    assert_eq!(falls, vec![false, false, false, true, false]);
}

#[test]
fn evolution_of_nothing_is_empty_and_of_one_day_is_one_point() {
    assert_eq!(evolution(&vec![]), Ok(vec![]));
    assert_eq!(
        evolution(&vec![point(day(2020, 1, 1), 3), point(day(2020, 1, 1), 4)]),
        Ok(vec![point(day(2020, 1, 1), 7)])
    );
}

#[test]
fn evolution_reports_a_total_that_does_not_fit() {
    let points = vec![point(day(2020, 1, 1), i64::MAX), point(day(2020, 1, 2), 1)];
    assert_eq!(evolution(&points), Err(ExchangeError::AmountOverflow));
    let fine = vec![
        point(day(2020, 1, 1), i64::MAX),
        point(day(2020, 1, 1), 1),
        point(day(2020, 1, 1), -1),
    ];
    assert_eq!(evolution(&fine), Ok(vec![point(day(2020, 1, 1), i64::MAX)]));
}

#[test]
fn funds_evolution_converts_at_the_date_of_each_record() {
    let accounts = vec![
        account(0, "Main", Currency::EUR, 10000, day(2020, 1, 1)),
        account(1, "Swiss", Currency::CHF, 10000, day(2020, 1, 2)), // 1.0 -> 10000
    ];
    let movements = vec![
        movement(0, 2000, Currency::CHF, day(2020, 1, 1), 1), // 0.5 -> 1000
        movement(1, -3000, Currency::SEK, day(2020, 1, 3), 0), // 0.5 -> -1500
        movement(2, 2000, Currency::CHF, day(2020, 1, 5), 1), // 1.5 carried -> 3000
    ];
    let curve = funds_evolution(&movements, &accounts, &exchange(), &Currency::EUR, None).unwrap();
    let expected = vec![
        point(day(2020, 1, 1), 11000),
        point(day(2020, 1, 2), 21000),
        point(day(2020, 1, 3), 19500),
        point(day(2020, 1, 4), 19500),
        point(day(2020, 1, 5), 22500),
    ];
    assert_eq!(curve, expected);
}

#[test]
fn funds_evolution_fails_on_a_date_without_rate() {
    let accounts = vec![account(1, "Swiss", Currency::CHF, 10000, day(2019, 12, 31))];
    assert_eq!(
        funds_evolution(&vec![], &accounts, &exchange(), &Currency::EUR, None),
        Err(ExchangeError::OutOfRange)
    );
    // in its own currency nothing has to be looked up
    assert_eq!(
        funds_evolution(&vec![], &accounts, &exchange(), &Currency::CHF, None),
        Ok(vec![point(day(2019, 12, 31), 10000)])
    );
}

#[test]
fn bucket_totals_adds_up_each_day_in_order() {
    let points = vec![
        point(day(2020, 3, 1), 5),
        point(day(2020, 1, 1), 1),
        point(day(2020, 2, 1), 7),
        point(day(2020, 1, 1), 2),
        point(day(2020, 3, 1), -5),
    ];
    assert_eq!(
        bucket_totals(&points),
        Ok(vec![
            point(day(2020, 1, 1), 3),
            point(day(2020, 2, 1), 7),
            point(day(2020, 3, 1), 0),
        ])
    );
    assert_eq!(bucket_totals(&vec![]), Ok(vec![]));
    assert_eq!(
        bucket_totals(&vec![point(day(2020, 1, 1), i64::MIN), point(day(2020, 1, 1), -1)]),
        Err(ExchangeError::AmountOverflow)
    );
}

#[test]
fn monthly_expenses_are_counted_in_the_month_of_their_date() {
    let expenses = vec![
        expense(0, 1000, Currency::EUR, day(2020, 2, 29), "Food", "Groceries"),
        expense(1, 1000, Currency::CHF, day(2020, 1, 1), "Food", "Groceries"), // 500
        expense(2, 1000, Currency::CHF, day(2020, 1, 31), "Rent", "Flat"), // 1500
        expense(3, 200, Currency::EUR, day(2020, 2, 1), "Rent", "Flat"),
        expense(4, 1000, Currency::SEK, day(2020, 3, 15), "Rent", "Flat"), // 500
    ];
    let monthly = monthly_expenses(&expenses, &exchange(), &Currency::EUR, None).unwrap();
    assert_eq!(
        monthly,
        vec![
            point(day(2020, 1, 1), 2000),
            point(day(2020, 2, 1), 1200),
            point(day(2020, 3, 1), 500),
        ]
    );
    let late = vec![expense(0, 1, Currency::CHF, day(2020, 4, 1), "Food", "Groceries")];
    assert_eq!(
        monthly_expenses(&late, &exchange(), &Currency::EUR, None),
        Err(ExchangeError::OutOfRange)
    );
}

#[test]
fn percent_rounds_to_hundredths() {
    assert_eq!(percent(300, 1000), Some(3000));
    assert_eq!(percent(1, 3), Some(3333));
    assert_eq!(percent(2, 3), Some(6667));
    assert_eq!(percent(-1, 3), Some(-3333));
    assert_eq!(percent(1, -3), Some(-3333));
    assert_eq!(percent(-2, -3), Some(6667));
    assert_eq!(percent(1, 20000), Some(1)); // 0.005 % rounds away from zero
    assert_eq!(percent(1, 20001), Some(0));
    assert_eq!(percent(5, 0), None);
    assert_eq!(percent(0, 7), Some(0));
    assert_eq!(percent(i64::MIN, 1), Some(-(1i128 << 63) * 10000));
}

#[test]
fn expense_summary_total_row_shows_share_of_income() {
    // total expenses 300, total income 1000
    let incomes = vec![
        income(0, 60000, Currency::EUR, day(2020, 1, 1)),
        income(1, 40000, Currency::EUR, day(2020, 1, 31)),
        income(2, 99999, Currency::EUR, day(2020, 2, 1)),
    ];
    let expenses = vec![
        expense(0, 10000, Currency::EUR, day(2020, 1, 2), "Utilities", "Gas"),
        expense(1, 5000, Currency::EUR, day(2020, 1, 2), "Food", "Restaurant"),
        expense(2, 7500, Currency::EUR, day(2020, 1, 3), "Utilities", "Electricity"),
        expense(3, 2500, Currency::EUR, day(2020, 1, 4), "Utilities", "Gas"),
        expense(4, 5000, Currency::EUR, day(2020, 1, 5), "Food", "Groceries"),
        expense(5, 12345, Currency::EUR, day(2020, 2, 1), "Food", "Groceries"),
    ];
    let summary = expenses_summary(
        &expenses,
        &incomes,
        &exchange(),
        day(2020, 1, 1),
        day(2020, 1, 31),
        &Currency::EUR,
    )
    .unwrap();

    assert_eq!(summary.total.category, "Total");
    assert_eq!(summary.total.subcategory, "Total");
    assert_eq!(summary.total.amount, 30000);
    assert_eq!(summary.total.percent_of_expenses, Some(10000));
    assert_eq!(summary.total.percent_of_income.unwrap() as f64 / 100.0, 30.0);

    let lines: Vec<(&str, &str, i64, Option<i128>, Option<i128>)> = summary
        .rows
        .iter()
        .map(|r| {
            (
                r.category.as_str(),
                r.subcategory.as_str(),
                r.amount,
                r.percent_of_expenses,
                r.percent_of_income,
            )
        })
        .collect();
    assert_eq!(
        lines,
        vec![
            ("Food", "Groceries", 5000, Some(1667), Some(500)),
            ("Food", "Restaurant", 5000, Some(1667), Some(500)),
            ("Utilities", "Electricity", 7500, Some(2500), Some(750)),
            ("Utilities", "Gas", 12500, Some(4167), Some(1250)),
        ]
    );
}

#[test]
fn expense_summary_converts_each_expense_at_its_own_date() {
    let incomes = vec![income(0, 10000, Currency::SEK, day(2020, 1, 1))]; // 1.5 -> 15000
    let expenses = vec![
        expense(0, 1000, Currency::CHF, day(2020, 1, 1), "Food", "Groceries"), // 500
        expense(1, 1000, Currency::CHF, day(2020, 1, 3), "Food", "Groceries"), // 1500
    ];
    let summary = expenses_summary(
        &expenses,
        &incomes,
        &exchange(),
        day(2020, 1, 1),
        day(2020, 1, 3),
        &Currency::EUR,
    )
    .unwrap();
    assert_eq!(summary.rows.len(), 1);
    assert_eq!(summary.rows[0].amount, 2000);
    assert_eq!(summary.rows[0].percent_of_expenses, Some(10000));
    assert_eq!(summary.rows[0].percent_of_income, Some(1333));
    assert_eq!(summary.total.amount, 2000);
}

#[test]
fn expense_summary_without_records_has_only_the_total() {
    let summary = expenses_summary(
        &vec![],
        &vec![],
        &exchange(),
        day(2020, 1, 1),
        day(2020, 1, 31),
        &Currency::EUR,
    )
    .unwrap();
    assert!(summary.rows.is_empty());
    assert_eq!(summary.total.amount, 0);
    assert_eq!(summary.total.percent_of_expenses, Some(10000));
    assert_eq!(summary.total.percent_of_income, None);
}

#[test]
fn expense_summary_looks_at_incomes_first() {
    let incomes = vec![income(0, 1, Currency::CHF, day(2019, 12, 31))];
    let expenses = vec![expense(0, i64::MAX, Currency::CHF, day(2020, 1, 3), "Food", "Groceries")];
    let failed = expenses_summary(
        &expenses,
        &incomes,
        &exchange(),
        day(2019, 1, 1),
        day(2020, 1, 31),
        &Currency::EUR,
    );
    assert!(matches!(failed, Err(ExchangeError::OutOfRange)));
    let overflow = expenses_summary(
        &expenses,
        &vec![],
        &exchange(),
        day(2019, 1, 1),
        day(2020, 1, 31),
        &Currency::EUR,
    );
    assert!(matches!(overflow, Err(ExchangeError::AmountOverflow)));
}

#[test]
fn expense_summary_orders_texts_by_their_bytes() {
    let expenses = vec![
        expense(0, 1, Currency::EUR, day(2020, 1, 1), "b", "x"),
        expense(1, 2, Currency::EUR, day(2020, 1, 1), "B", "x"),
        expense(2, 3, Currency::EUR, day(2020, 1, 1), "a", "y"),
        expense(3, 4, Currency::EUR, day(2020, 1, 1), "a", ""),
        expense(4, 5, Currency::EUR, day(2020, 1, 1), "ab", "x"),
        expense(5, 6, Currency::EUR, day(2020, 1, 1), "é", "x"),
        expense(6, 7, Currency::EUR, day(2020, 1, 1), "a", "y"),
    ];
    let summary = expenses_summary(
        &expenses,
        &vec![],
        &exchange(),
        day(2020, 1, 1),
        day(2020, 1, 1),
        &Currency::EUR,
    )
    .unwrap();
    let lines: Vec<(&str, &str, i64)> = summary
        .rows
        .iter()
        .map(|r| (r.category.as_str(), r.subcategory.as_str(), r.amount))
        .collect();
    assert_eq!(
        lines,
        vec![("B", "x", 2), ("a", "", 4), ("a", "y", 10), ("ab", "x", 5), ("b", "x", 1), ("é", "x", 6)]
    );
}

#[test]
fn fund_stand_in_one_currency_sorts_by_value() {
    let accounts = vec![
        account(0, "Main", Currency::EUR, 10000, day(2019, 1, 1)),
        account(1, "Swiss", Currency::CHF, 10000, day(2019, 1, 1)),
        account(2, "Empty", Currency::SEK, 0, day(2019, 1, 1)),
        account(3, "Nordic", Currency::SEK, 100, day(2019, 1, 1)),
    ];
    let movements = vec![
        movement(0, 2000, Currency::CHF, day(2020, 1, 1), 1),
        movement(1, -3000, Currency::EUR, day(2020, 1, 3), 0),
        movement(2, 5000, Currency::EUR, day(2020, 1, 3), 1), // counts in its own currency
        movement(3, -1000, Currency::CHF, day(2020, 1, 3), 1),
    ];
    // on 2020-01-03: CHF 1.5, SEK 0.5
    let stand =
        fund_stand_on(&accounts, &movements, &exchange(), Some(&Currency::EUR), day(2020, 1, 3))
            .unwrap();
    let lines: Vec<(&str, Currency, i64)> =
        stand.iter().map(|r| (r.name.as_str(), r.currency, r.value)).collect();
    assert_eq!(
        lines,
        vec![
            ("Swiss", Currency::EUR, 21500),
            ("Main", Currency::EUR, 7000),
            ("Nordic", Currency::EUR, 50),
        ]
    );
}

#[test]
fn fund_stand_without_target_groups_by_currency() {
    let accounts = vec![
        account(0, "Main", Currency::EUR, 10000, day(2019, 1, 1)),
        account(1, "Second", Currency::EUR, 20000, day(2019, 1, 1)),
        account(2, "Nordic", Currency::SEK, 100, day(2019, 1, 1)),
        account(3, "Swiss", Currency::CHF, 10000, day(2019, 1, 1)),
        account(4, "Overdrawn", Currency::CHF, -5, day(2019, 1, 1)),
    ];
    let movements = vec![
        movement(0, 2000, Currency::CHF, day(2020, 1, 1), 3),
        // in another currency than the account: cannot be added to it
        movement(1, 999, Currency::EUR, day(2020, 1, 1), 3),
    ];
    // no rate is needed, so even an empty exchange will do
    let stand = fund_stand_on(
        &accounts,
        &movements,
        &CurrencyExchange::as_of(&vec![], day(2020, 1, 1)),
        None,
        day(2020, 1, 3),
    )
    .unwrap();
    let lines: Vec<(&str, Currency, i64)> =
        stand.iter().map(|r| (r.name.as_str(), r.currency, r.value)).collect();
    assert_eq!(
        lines,
        vec![
            ("Swiss", Currency::CHF, 12000),
            ("Second", Currency::EUR, 20000),
            ("Main", Currency::EUR, 10000),
            ("Nordic", Currency::SEK, 100),
        ]
    );
}

#[test]
fn fund_stand_fails_where_an_account_cannot_be_priced() {
    let accounts = vec![account(1, "Swiss", Currency::CHF, 10000, day(2019, 1, 1))];
    assert!(matches!(
        fund_stand_on(&accounts, &vec![], &exchange(), Some(&Currency::EUR), day(2020, 4, 1)),
        Err(ExchangeError::OutOfRange)
    ));
    assert!(matches!(
        fund_stand_on(
            &accounts,
            &vec![],
            &CurrencyExchange::as_of(&vec![], day(2020, 1, 1)),
            Some(&Currency::EUR),
            day(2020, 1, 1)
        ),
        Err(ExchangeError::UnresolvablePair)
    ));
}

#[test]
fn current_fund_stand_prices_at_today() {
    let accounts = vec![account(0, "Main", Currency::EUR, 10000, day(2019, 1, 1))];
    let stand = current_fund_stand(&accounts, &vec![], &exchange(), Some(&Currency::EUR)).unwrap();
    assert_eq!(stand.len(), 1);
    assert_eq!(stand[0].value, 10000);
    // the rates of this exchange end in March 2020
    let swiss = vec![account(1, "Swiss", Currency::CHF, 10000, day(2019, 1, 1))];
    assert!(matches!(
        current_fund_stand(&swiss, &vec![], &exchange(), Some(&Currency::EUR)),
        Err(ExchangeError::OutOfRange)
    ));
}

#[test]
fn a_window_keeps_what_is_dated_within_it() {
    let amounts = vec![
        DatedAmount { date: day(2020, 1, 1), currency: Currency::EUR, value: 1 },
        DatedAmount { date: day(2020, 1, 5), currency: Currency::CHF, value: 2 },
        DatedAmount { date: day(2020, 1, 3), currency: Currency::SEK, value: 3 },
        DatedAmount { date: day(2020, 1, 6), currency: Currency::EUR, value: 4 },
    ];
    assert_eq!(within(&amounts, None), amounts);
    assert_eq!(
        within(&amounts, Some((day(2020, 1, 3), day(2020, 1, 5)))),
        vec![amounts[1], amounts[2]]
    );
    assert_eq!(within(&amounts, Some((day(2020, 1, 6), day(2020, 1, 1)))), vec![]);
    assert_eq!(total_in(&exchange(), &Currency::EUR, &amounts[..1].to_vec()), Ok(1));
}

#[test]
fn funds_evolution_within_a_window_starts_anew() {
    let accounts = vec![account(0, "Main", Currency::EUR, 10000, day(2020, 1, 1))];
    let movements = vec![
        movement(0, 500, Currency::EUR, day(2020, 1, 2), 0),
        movement(1, -200, Currency::EUR, day(2020, 1, 4), 0),
        movement(2, 700, Currency::EUR, day(2020, 1, 9), 0),
    ];
    let curve = funds_evolution(
        &movements,
        &accounts,
        &exchange(),
        &Currency::EUR,
        Some((day(2020, 1, 2), day(2020, 1, 5))),
    )
    .unwrap();
    assert_eq!(
        curve,
        vec![
            point(day(2020, 1, 2), 500),
            point(day(2020, 1, 3), 500),
            point(day(2020, 1, 4), 300),
        ]
    );
    // what lies outside the window need not even have a rate
    let unpriced = vec![movement(0, 500, Currency::CHF, day(2019, 1, 2), 0)];
    assert_eq!(
        funds_evolution(
            &unpriced,
            &accounts,
            &exchange(),
            &Currency::EUR,
            Some((day(2020, 1, 1), day(2020, 1, 1)))
        ),
        Ok(vec![point(day(2020, 1, 1), 10000)])
    );
}

#[test]
fn monthly_expenses_within_a_window() {
    let expenses = vec![
        expense(0, 1000, Currency::EUR, day(2020, 2, 29), "Food", "Groceries"),
        expense(1, 1000, Currency::EUR, day(2020, 1, 1), "Food", "Groceries"),
        expense(2, 1000, Currency::EUR, day(2020, 1, 31), "Rent", "Flat"),
        expense(3, 200, Currency::EUR, day(2020, 2, 1), "Rent", "Flat"),
    ];
    assert_eq!(
        monthly_expenses(
            &expenses,
            &exchange(),
            &Currency::EUR,
            Some((day(2020, 1, 15), day(2020, 2, 15)))
        ),
        Ok(vec![point(day(2020, 1, 1), 1000), point(day(2020, 2, 1), 200)])
    );
}
