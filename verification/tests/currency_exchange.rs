use delphis_nap::calendar::Date;
use delphis_nap::currency_exchange::{CurrencyExchange, DatedAmount, ExchangeError, NormalizedPoint};
use delphis_nap::financial::Currency;
use delphis_nap::money::{QuotedRate, Rate};
use delphis_nap::series::{ExpandedSeries, Extremum, Observation, RawSeries};

fn ymd(year: i32, month: u32, day: u32) -> Date {
    Date::from_ymd(year, month, day).unwrap()
}

fn observation(date: Date, num: u32, den: u32) -> Observation {
    Observation { date, rate: QuotedRate::new(num, den).unwrap() }
}

fn as_float(rate: Rate) -> f64 {
    rate.num() as f64 / rate.den() as f64
}

fn quoted_as_float(rate: QuotedRate) -> f64 {
    rate.num() as f64 / rate.den() as f64
}

fn init_testing_currency_exchange() -> CurrencyExchange {
    // CHF -> EUR: 0.5, 1.0, 1.5
    let chfeur = RawSeries::from_observations(vec![
        observation(ymd(2020, 1, 1), 1, 2),
        observation(ymd(2020, 1, 2), 1, 1),
        observation(ymd(2020, 1, 3), 3, 2),
    ])
    .unwrap();
    // SEK -> EUR: 1.5, 1.0, 0.5
    let sekeur = RawSeries::from_observations(vec![
        observation(ymd(2020, 1, 1), 3, 2),
        observation(ymd(2020, 1, 2), 1, 1),
        observation(ymd(2020, 1, 3), 1, 2),
    ])
    .unwrap();
    CurrencyExchange::new(&vec![(Currency::CHF, chfeur), (Currency::SEK, sekeur)])
}

#[test]
fn correct_max_date() {
    let extremum: Extremum = Extremum::MAX;
    let max_date: Date = ymd(1997, 1, 10);
    // 57.9, 72.5, 53.6, 83.1
    let observations = vec![
        observation(ymd(1985, 2, 15), 579, 10),
        observation(max_date, 725, 10),
        observation(ymd(1983, 3, 22), 536, 10),
        observation(ymd(1981, 4, 30), 831, 10),
    ];
    assert_eq!(CurrencyExchange::extreme_date(&observations, &extremum), max_date)
}

#[test]
fn correct_min_date() {
    let observations = vec![
        observation(ymd(1985, 2, 15), 579, 10),
        observation(ymd(1997, 1, 10), 725, 10),
        observation(ymd(1981, 4, 30), 831, 10),
        observation(ymd(1983, 3, 22), 536, 10),
    ];
    assert_eq!(
        CurrencyExchange::extreme_date(&observations, &Extremum::MIN),
        ymd(1981, 4, 30)
    )
}

#[test]
fn correct_expand() {
    // 57.9, 72.5, 83.1
    let raw = RawSeries::from_observations(vec![
        observation(ymd(1985, 2, 15), 579, 10),
        observation(ymd(1985, 2, 17), 725, 10),
        observation(ymd(1985, 2, 18), 831, 10),
    ])
    .unwrap();
    let expanded: ExpandedSeries = CurrencyExchange::expand(&raw, false);

    let expected = vec![
        (ymd(1985, 2, 15), 57.9),
        (ymd(1985, 2, 16), 57.9),
        (ymd(1985, 2, 17), 72.5),
        (ymd(1985, 2, 18), 83.1),
    ];
    assert_eq!(expanded.len(), expected.len());
    assert_eq!(expanded.min_date(), Some(ymd(1985, 2, 15)));
    assert_eq!(expanded.max_date(), Some(ymd(1985, 2, 18)));
    for (date, value) in expected {
        assert_eq!(quoted_as_float(expanded.rate_on(&date).unwrap()), value);
    }
}

#[test]
fn correct_direct_exchange() {
    let currency_exchange: CurrencyExchange = init_testing_currency_exchange();

    let currency_from: Currency = Currency::CHF;
    let currency_to: Currency = Currency::EUR;
    let date: Date = ymd(2020, 1, 1);

    assert_eq!(
        as_float(currency_exchange.exchange_currency(&currency_from, &currency_to, date).unwrap()),
        0.5
    );
}

#[test]
fn correct_inverse_exchange() {
    let currency_exchange: CurrencyExchange = init_testing_currency_exchange();

    let currency_from: Currency = Currency::EUR;
    let currency_to: Currency = Currency::CHF;
    let date: Date = ymd(2020, 1, 1);

    assert_eq!(
        as_float(currency_exchange.exchange_currency(&currency_from, &currency_to, date).unwrap()),
        1.0 / 0.5
    );
}

#[test]
fn correct_bridged_exchange() {
    let currency_exchange: CurrencyExchange = init_testing_currency_exchange();

    let currency_from: Currency = Currency::CHF;
    let currency_to: Currency = Currency::SEK;
    let date: Date = ymd(2020, 1, 1);

    assert_eq!(
        as_float(currency_exchange.exchange_currency(&currency_from, &currency_to, date).unwrap()),
        0.5 / 1.5
    );
}

#[test]
fn correct_dataframe_exchange() {
    let currency_exchange: CurrencyExchange = init_testing_currency_exchange();

    let currency_to: Currency = Currency::EUR;
    let initial = vec![
        DatedAmount { date: ymd(2020, 1, 1), currency: Currency::EUR, value: 100 },
        DatedAmount { date: ymd(2020, 1, 2), currency: Currency::CHF, value: 100 },
        DatedAmount { date: ymd(2020, 1, 3), currency: Currency::SEK, value: 100 },
    ];

    let expected = vec![
        NormalizedPoint { date: ymd(2020, 1, 1), value: 100 },
        NormalizedPoint { date: ymd(2020, 1, 2), value: 100 },
        NormalizedPoint { date: ymd(2020, 1, 3), value: 50 },
    ];

    let actual = currency_exchange.exchange_currencies(&currency_to, &initial);

    assert_eq!(actual, Ok(expected))
}

#[test]
fn same_currency_needs_no_series() {
    let empty = CurrencyExchange::new(&vec![]);
    let rate = empty.exchange_currency(&Currency::SEK, &Currency::SEK, ymd(1900, 1, 1)).unwrap();
    assert_eq!((rate.num(), rate.den()), (1, 1));
}

#[test]
fn date_before_first_observation_is_out_of_range() {
    let currency_exchange = init_testing_currency_exchange();
    let early = ymd(2019, 12, 31);
    assert_eq!(
        currency_exchange.exchange_currency(&Currency::CHF, &Currency::EUR, early),
        Err(ExchangeError::OutOfRange)
    );
    assert_eq!(
        currency_exchange.exchange_currency(&Currency::EUR, &Currency::CHF, early),
        Err(ExchangeError::OutOfRange)
    );
    assert_eq!(
        currency_exchange.exchange_currency(&Currency::CHF, &Currency::SEK, early),
        Err(ExchangeError::OutOfRange)
    );
}

#[test]
fn date_after_the_build_day_is_out_of_range() {
    let table = vec![(
        Currency::CHF,
        RawSeries::from_observations(vec![observation(ymd(2020, 1, 1), 1, 2)]).unwrap(),
    )];
    let currency_exchange = CurrencyExchange::as_of(&table, ymd(2020, 1, 10));
    assert_eq!(
        as_float(
            currency_exchange
                .exchange_currency(&Currency::CHF, &Currency::EUR, ymd(2020, 1, 10))
                .unwrap()
        ),
        0.5
    );
    assert_eq!(
        currency_exchange.exchange_currency(&Currency::CHF, &Currency::EUR, ymd(2020, 1, 11)),
        Err(ExchangeError::OutOfRange)
    );
}

#[test]
fn missing_series_is_unresolvable() {
    let table = vec![(
        Currency::CHF,
        RawSeries::from_observations(vec![observation(ymd(2020, 1, 1), 1, 2)]).unwrap(),
    )];
    let currency_exchange = CurrencyExchange::as_of(&table, ymd(2020, 1, 1));
    let day = ymd(2020, 1, 1);
    assert_eq!(
        currency_exchange.exchange_currency(&Currency::SEK, &Currency::EUR, day),
        Err(ExchangeError::UnresolvablePair)
    );
    assert_eq!(
        currency_exchange.exchange_currency(&Currency::EUR, &Currency::SEK, day),
        Err(ExchangeError::UnresolvablePair)
    );
    assert_eq!(
        currency_exchange.exchange_currency(&Currency::CHF, &Currency::SEK, day),
        Err(ExchangeError::UnresolvablePair)
    );
    assert_eq!(
        currency_exchange.exchange_currency(&Currency::SEK, &Currency::CHF, day),
        Err(ExchangeError::UnresolvablePair)
    );
}

#[test]
fn opposite_rates_multiply_to_one() {
    let currency_exchange = init_testing_currency_exchange();
    let day = ymd(2020, 1, 3);
    let all = Currency::all();
    for a in all.iter() {
        for b in all.iter() {
            let there = currency_exchange.exchange_currency(a, b, day).unwrap();
            let back = currency_exchange.exchange_currency(b, a, day).unwrap();
            assert_eq!(
                there.num() as u128 * back.num() as u128,
                there.den() as u128 * back.den() as u128
            );
        }
    }
}

#[test]
fn bridging_through_the_base_gives_the_rate() {
    let currency_exchange = init_testing_currency_exchange();
    let day = ymd(2020, 1, 2);
    let all = Currency::all();
    for a in all.iter() {
        for b in all.iter() {
            let first = currency_exchange.exchange_currency(a, &Currency::EUR, day).unwrap();
            let second = currency_exchange.exchange_currency(&Currency::EUR, b, day).unwrap();
            let direct = currency_exchange.exchange_currency(a, b, day).unwrap();
            assert!(direct.same_value(&first.times(&second).unwrap()));
        }
    }
}

#[test]
fn sparse_series_is_filled_forward() {
    let raw = RawSeries::from_observations(vec![
        observation(ymd(2020, 1, 1), 1, 2),
        observation(ymd(2020, 1, 3), 3, 2),
    ])
    .unwrap();
    let expanded = ExpandedSeries::of(&raw, None);
    assert_eq!(expanded.len(), 3);
    assert_eq!(quoted_as_float(expanded.rate_on(&ymd(2020, 1, 1)).unwrap()), 0.5);
    assert_eq!(quoted_as_float(expanded.rate_on(&ymd(2020, 1, 2)).unwrap()), 0.5);
    assert_eq!(quoted_as_float(expanded.rate_on(&ymd(2020, 1, 3)).unwrap()), 1.5);
    assert_eq!(expanded.rate_on(&ymd(2019, 12, 31)), None);
    assert_eq!(expanded.rate_on(&ymd(2020, 1, 4)), None);
}

#[test]
fn expanding_up_to_today_carries_the_last_rate() {
    let raw = RawSeries::from_observations(vec![
        observation(ymd(2020, 1, 1), 1, 2),
        observation(ymd(2020, 1, 3), 3, 2),
    ])
    .unwrap();
    let expanded = ExpandedSeries::of(&raw, Some(ymd(2020, 1, 6)));
    assert_eq!(expanded.len(), 6);
    assert_eq!(expanded.max_date(), Some(ymd(2020, 1, 6)));
    assert_eq!(quoted_as_float(expanded.rate_on(&ymd(2020, 1, 6)).unwrap()), 1.5);
    // a "today" before the last observation adds nothing
    let unchanged = ExpandedSeries::of(&raw, Some(ymd(2020, 1, 2)));
    assert_eq!(unchanged.len(), 3);
}

#[test]
fn expanding_a_dense_series_changes_nothing() {
    let observations = vec![
        observation(ymd(2020, 2, 28), 1, 2),
        observation(ymd(2020, 2, 29), 2, 3),
        observation(ymd(2020, 3, 1), 3, 4),
    ];
    let raw = RawSeries::from_observations(observations.clone()).unwrap();
    let expanded = ExpandedSeries::of(&raw, None);
    assert_eq!(expanded.len(), observations.len());
    for o in observations {
        assert_eq!(expanded.rate_on(&o.date), Some(o.rate));
    }
}

#[test]
fn expanding_an_empty_series_gives_nothing() {
    let expanded = ExpandedSeries::of(&RawSeries::new(), Some(ymd(2020, 1, 1)));
    assert!(expanded.is_empty());
    assert_eq!(expanded.min_date(), None);
    assert_eq!(expanded.rate_on(&ymd(2020, 1, 1)), None);
}

#[test]
fn append_skips_dates_already_held() {
    let mut raw = RawSeries::from_observations(vec![
        observation(ymd(2020, 1, 1), 1, 2),
        observation(ymd(2020, 1, 3), 3, 2),
    ])
    .unwrap();
    let tail = vec![
        observation(ymd(2020, 1, 3), 7, 2),
        observation(ymd(2020, 1, 6), 5, 2),
        observation(ymd(2020, 1, 2), 9, 2),
        observation(ymd(2020, 1, 7), 4, 2),
    ];
    raw.append(&tail);
    let expected = vec![
        observation(ymd(2020, 1, 1), 1, 2),
        observation(ymd(2020, 1, 3), 3, 2),
        observation(ymd(2020, 1, 6), 5, 2),
        observation(ymd(2020, 1, 7), 4, 2),
    ];
    assert_eq!(raw.observations(), &expected);
    raw.append(&tail);
    assert_eq!(raw.observations(), &expected);
}

#[test]
fn unordered_observations_make_no_series() {
    assert!(RawSeries::from_observations(vec![
        observation(ymd(2020, 1, 2), 1, 2),
        observation(ymd(2020, 1, 1), 3, 2),
    ])
    .is_none());
    assert!(RawSeries::from_observations(vec![
        observation(ymd(2020, 1, 2), 1, 2),
        observation(ymd(2020, 1, 2), 1, 2),
    ])
    .is_none());
    assert!(RawSeries::from_observations(vec![]).is_some());
}

#[test]
fn later_entry_replaces_earlier_and_base_is_left_out() {
    let one = RawSeries::from_observations(vec![observation(ymd(2020, 1, 1), 1, 2)]).unwrap();
    let two = RawSeries::from_observations(vec![observation(ymd(2020, 1, 1), 1, 4)]).unwrap();
    let base = RawSeries::from_observations(vec![observation(ymd(2020, 1, 1), 1, 8)]).unwrap();
    let exchange = CurrencyExchange::as_of(
        &vec![(Currency::CHF, one), (Currency::EUR, base), (Currency::CHF, two)],
        ymd(2020, 1, 1),
    );
    assert!(!exchange.has_series(&Currency::EUR));
    assert!(exchange.has_series(&Currency::CHF));
    assert!(!exchange.has_series(&Currency::SEK));
    assert_eq!(
        as_float(exchange.exchange_currency(&Currency::CHF, &Currency::EUR, ymd(2020, 1, 1)).unwrap()),
        0.25
    );
}

#[test]
fn conversion_rounds_half_away_from_zero() {
    let third = Rate::new(1, 3).unwrap();
    assert_eq!(third.apply(100), Some(33));
    assert_eq!(third.apply(-100), Some(-33));
    let half = Rate::new(1, 2).unwrap();
    assert_eq!(half.apply(1), Some(1));
    assert_eq!(half.apply(-1), Some(-1));
    assert_eq!(half.apply(3), Some(2));
    assert_eq!(half.apply(0), Some(0));
    let big = Rate::new(3, 1).unwrap();
    assert_eq!(big.apply(i64::MAX), None);
    assert_eq!(big.apply(i64::MIN), None);
    assert_eq!(Rate::new(1, 1).unwrap().apply(i64::MIN), Some(i64::MIN));
}

#[test]
fn conversion_overflow_is_reported() {
    let table = vec![(
        Currency::CHF,
        RawSeries::from_observations(vec![observation(ymd(2020, 1, 1), 3, 1)]).unwrap(),
    )];
    let exchange = CurrencyExchange::as_of(&table, ymd(2020, 1, 1));
    assert_eq!(
        exchange.convert(&Currency::CHF, &Currency::EUR, ymd(2020, 1, 1), i64::MAX),
        Err(ExchangeError::AmountOverflow)
    );
    assert_eq!(
        exchange.convert(&Currency::CHF, &Currency::EUR, ymd(2020, 1, 1), 7),
        Ok(21)
    );
}

#[test]
fn rates_need_positive_parts() {
    assert!(Rate::new(0, 1).is_none());
    assert!(Rate::new(1, 0).is_none());
    assert!(QuotedRate::new(0, 1).is_none());
    assert!(QuotedRate::new(1, 0).is_none());
    let q = QuotedRate::new(2, 3).unwrap();
    assert_eq!((q.inverse().num(), q.inverse().den()), (3, 2));
    assert_eq!((q.to_rate().num(), q.to_rate().den()), (2, 3));
    let r = q.over(&QuotedRate::new(5, 7).unwrap());
    assert_eq!((r.num(), r.den()), (14, 15));
    assert_eq!(
        Rate::new(u64::MAX, 1).unwrap().times(&Rate::new(2, 1).unwrap()),
        None
    );
}
