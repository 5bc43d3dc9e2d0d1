use delphis_nap::calendar::Date;
use delphis_nap::currency_exchange::{CurrencyExchange, NormalizedPoint};
use delphis_nap::database::DataBase;
use delphis_nap::financial::{AccountType, Currency, Party, Transaction, TransactionType};
use delphis_nap::palettes::{fetch_palette, Colour};
use delphis_nap::reports::{
    hundredths, points_table, share, stand_table, summary_table, ReportTable,
};
use delphis_nap::summaries::{ExpenseSummary, FundStandRow, SummaryRow};
use delphis_nap::tables::{
    AccountRecord, EntityRecord, ExpenseRecord, FundMovementRecord, FundMovementType,
    IncomeRecord,
};
use delphis_nap::text::{distinct_texts, integer, precedes};
use delphis_nap::views::{
    fund_movements_table, last_fund_movements, last_transactions, transactions_table,
};
use delphis_nap::financial::EntityType;

fn day(year: i32, month: u32, day: u32) -> Date {
    Date::from_ymd(year, month, day).unwrap()
}

fn strings(cells: &[&str]) -> Vec<String> {
    cells.iter().map(|c| c.to_string()).collect()
}

#[test]
fn numbers_are_written_with_two_places() {
    assert_eq!(hundredths(0), "0.00");
    assert_eq!(hundredths(5), "0.05");
    assert_eq!(hundredths(-5), "-0.05");
    assert_eq!(hundredths(12050), "120.50");
    assert_eq!(hundredths(-100), "-1.00");
    assert_eq!(hundredths(3000), "30.00");
    assert_eq!(hundredths(i64::MAX as i128), "92233720368547758.07");
    assert_eq!(
        hundredths(i128::MIN),
        "-1701411834604692317316873037158841057.28"
    );
    assert_eq!(share(Some(3333)), "33.33");
    assert_eq!(share(None), "");
    assert_eq!(integer(0), "0");
    assert_eq!(integer(-17), "-17");
    assert_eq!(integer(i64::MIN), "-9223372036854775808");
    assert_eq!(integer(1234567890), "1234567890");
}

#[test]
fn texts_are_ordered_by_their_bytes() {
    assert!(precedes("a", "b"));
    assert!(!precedes("b", "a"));
    assert!(!precedes("a", "a"));
    assert!(precedes("", "a"));
    assert!(!precedes("a", ""));
    assert!(!precedes("", ""));
    assert!(precedes("a", "ab"));
    assert!(precedes("B", "a"));
    assert!(precedes("z", "é"));
    for (a, b) in [("Food", "Rent"), ("abc", "abd"), ("é", "ê"), ("x", "xy"), ("", "")] {
        assert_eq!(precedes(a, b), a < b);
        assert_eq!(precedes(b, a), b < a);
    }
    assert_eq!(
        distinct_texts(&strings(&["pear", "apple", "pear", "", "fig", "apple"])),
        strings(&["", "apple", "fig", "pear"])
    );
}

#[test]
fn a_table_is_written_line_by_line() {
    let table = ReportTable {
        columns: strings(&["a", "b"]),
        rows: vec![strings(&["1", "2"]), strings(&["", "x y"]), strings(&["3", ""])],
    };
    assert_eq!(table.to_csv(), "a,b\n1,2\n,x y\n3,\n");
    let empty = ReportTable { columns: vec![], rows: vec![] };
    assert_eq!(empty.to_csv(), "\n");
    let one = ReportTable { columns: strings(&["only"]), rows: vec![vec![]] };
    assert_eq!(one.to_csv(), "only\n\n");
}

#[test]
fn summary_table_ends_with_the_total() {
    let summary = ExpenseSummary {
        rows: vec![SummaryRow {
            category: "Rent".to_string(),
            subcategory: "Flat".to_string(),
            amount: 30000,
            percent_of_expenses: Some(10000),
            percent_of_income: Some(3000),
        }],
        total: SummaryRow {
            category: "Total".to_string(),
            subcategory: "Total".to_string(),
            amount: 30000,
            percent_of_expenses: Some(10000),
            percent_of_income: None,
        },
    };
    let table = summary_table(&summary, &Currency::CHF);
    assert_eq!(
        table.to_csv(),
        "Category,Subcategory,CHF,% Total Expenses,% Total Income\n\
         Rent,Flat,300.00,100.00,30.00\n\
         Total,Total,300.00,100.00,\n"
    );
}

#[test]
fn stand_table_has_a_currency_column_without_target() {
    let stand = vec![FundStandRow {
        name: "Main".to_string(),
        country: "Spain".to_string(),
        currency: Currency::SEK,
        account_type: AccountType::Cash,
        value: 1234,
    }];
    assert_eq!(
        stand_table(&stand, Some(&Currency::SEK)).to_csv(),
        "NAME,COUNTRY,ACCOUNT TYPE,SEK\nMain,Spain,Cash,12.34\n"
    );
    assert_eq!(
        stand_table(&stand, None).to_csv(),
        "NAME,COUNTRY,CURRENCY,ACCOUNT TYPE,TOTAL VALUE\nMain,Spain,SEK,Cash,12.34\n"
    );
}

#[test]
fn points_table_has_date_and_value() {
    let points = vec![
        NormalizedPoint { date: day(2020, 1, 1), value: 100 },
        NormalizedPoint { date: day(2020, 1, 2), value: -250 },
    ];
    assert_eq!(points_table(&points).to_csv(), "date,value\n2020-01-01,1.00\n2020-01-02,-2.50\n");
}

fn income(id: i64, date: Date, entity_id: i64, party_id: i64) -> IncomeRecord {
    IncomeRecord {
        income_id: id,
        value: 100 * (id + 1),
        currency: Currency::EUR,
        date,
        category: "Salary".to_string(),
        subcategory: "Regular".to_string(),
        description: "pay".to_string(),
        entity_id,
        party_id,
    }
}

fn expense(id: i64, date: Date, entity_id: i64, party_id: i64) -> ExpenseRecord {
    ExpenseRecord {
        expense_id: id,
        value: 10 * (id + 1),
        currency: Currency::CHF,
        date,
        category: "Food".to_string(),
        subcategory: "Groceries".to_string(),
        description: "shop".to_string(),
        entity_id,
        party_id,
    }
}

fn entity(id: i64, name: &str) -> EntityRecord {
    EntityRecord {
        entity_id: id,
        name: name.to_string(),
        country: "Spain".to_string(),
        entity_type: EntityType::Firm,
        entity_subtype: String::new(),
        creation_date: day(2020, 1, 1),
    }
}

#[test]
fn last_transactions_come_latest_first() {
    let incomes = vec![income(0, day(2024, 1, 1), 0, 0), income(1, day(2024, 1, 3), 1, 2)];
    let expenses = vec![
        expense(0, day(2024, 1, 3), 1, 3),
        expense(1, day(2024, 1, 2), 0, 1),
        expense(2, day(2024, 1, 9), 7, 4), // no such entity
    ];
    let entities = vec![entity(0, "Employer"), entity(1, "Shop")];
    let lines = last_transactions(&incomes, &expenses, &entities, 3);
    let seen: Vec<(TransactionType, Date, i64, &str)> =
        lines.iter().map(|l| (l.kind, l.date, l.party_id, l.entity_name.as_str())).collect();
    assert_eq!(
        seen,
        vec![
            (TransactionType::Expense, day(2024, 1, 3), 3, "Shop"),
            (TransactionType::Income, day(2024, 1, 3), 2, "Shop"),
            (TransactionType::Expense, day(2024, 1, 2), 1, "Employer"),
        ]
    );
    assert_eq!(last_transactions(&incomes, &expenses, &entities, 10).len(), 4);
    assert_eq!(last_transactions(&incomes, &expenses, &entities, 0).len(), 0);
    assert_eq!(
        transactions_table(&lines[..1].iter().map(|l| delphis_nap::views::TransactionLine {
            kind: l.kind,
            date: l.date,
            value: l.value,
            currency: l.currency,
            entity_name: l.entity_name.clone(),
            category: l.category.clone(),
            subcategory: l.subcategory.clone(),
            description: l.description.clone(),
            party_id: l.party_id,
        }).collect())
        .to_csv(),
        "Type,Date,Value,Currency,Entity Name,Category,Subcategory,Description,Party Id\n\
         Expense,2024-01-03,0.10,CHF,Shop,Food,Groceries,shop,3\n"
    );
}

#[test]
fn last_fund_movements_come_latest_first() {
    let movements = vec![
        FundMovementRecord {
            fund_movement_id: 0,
            fund_movement_type: FundMovementType::Credit,
            value: 130923,
            currency: Currency::EUR,
            date: day(1997, 1, 10),
            account_id: 0,
            party_id: 0,
        },
        FundMovementRecord {
            fund_movement_id: 1,
            fund_movement_type: FundMovementType::Debit,
            value: -8900,
            currency: Currency::EUR,
            date: day(1997, 1, 10),
            account_id: 0,
            party_id: 1,
        },
        FundMovementRecord {
            fund_movement_id: 2,
            fund_movement_type: FundMovementType::Debit,
            value: -1,
            currency: Currency::EUR,
            date: day(1985, 2, 15),
            account_id: 5,
            party_id: 2,
        },
    ];
    let accounts = vec![AccountRecord {
        account_id: 0,
        name: "Main".to_string(),
        country: "Spain".to_string(),
        currency: Currency::EUR,
        account_type: AccountType::Deposit,
        initial_balance: 0,
        creation_date: day(1980, 1, 1),
    }];
    let lines = last_fund_movements(&movements, &accounts, 5);
    assert_eq!(
        fund_movements_table(&lines).to_csv(),
        "Fund Movement Type,Date,Value,Currency,Account Name,Party Id\n\
         Debit,1997-01-10,-89.00,EUR,Main,1\n\
         Credit,1997-01-10,1309.23,EUR,Main,0\n"
    );
    assert_eq!(last_fund_movements(&movements, &accounts, 1).len(), 1);
}

#[test]
fn database_writes_its_latest_entries() {
    let mut data_base = DataBase::new();
    let mut party = Party::dated(
        vec![
            Transaction::Income {
                value: 100000,
                currency: Currency::EUR,
                date: day(2024, 12, 1),
                category: "Salary".to_string(),
                subcategory: "Regular salary".to_string(),
                description: "December".to_string(),
                entity_id: 0,
            },
            Transaction::Credit {
                value: 100000,
                currency: Currency::EUR,
                date: day(2024, 12, 1),
                account_id: 0,
            },
        ],
        day(2024, 12, 3),
    );
    data_base.insert_party(&mut party);
    assert_eq!(
        data_base.last_transactions(10),
        "Type,Date,Value,Currency,Entity Name,Category,Subcategory,Description,Party Id\n\
         Income,2024-12-01,1000.00,EUR,Unknown,Salary,Regular salary,December,0\n"
    );
    assert_eq!(
        data_base.last_fund_movements(10),
        "Fund Movement Type,Date,Value,Currency,Account Name,Party Id\n\
         Credit,2024-12-01,1000.00,EUR,Unknown,0\n"
    );
    let _ = CurrencyExchange::as_of(&vec![], day(2024, 12, 3));
}

#[test]
fn transactions_have_a_text() {
    let income = Transaction::Income {
        value: 12050,
        currency: Currency::EUR,
        date: day(2024, 12, 1),
        category: "Salary".to_string(),
        subcategory: "Regular salary".to_string(),
        description: "December".to_string(),
        entity_id: 0,
    };
    assert_eq!(
        income.to_string(),
        "Income (Salary, Regular salary): EUR 120.50, at date 2024-12-01"
    );
    let debit = Transaction::Debit {
        value: 300,
        currency: Currency::SEK,
        date: day(2024, 12, 2),
        account_id: 1,
    };
    assert_eq!(debit.to_string(), "Debit: SEK 3.00, at date 2024-12-02");
}

#[test]
fn palettes_grow_with_the_number_of_series() {
    assert_eq!(fetch_palette(0).len(), 8);
    assert_eq!(fetch_palette(8).len(), 8);
    assert_eq!(fetch_palette(9).len(), 12);
    assert_eq!(fetch_palette(12).len(), 12);
    assert_eq!(fetch_palette(13).len(), 14);
    assert_eq!(fetch_palette(1000).len(), 14);
    assert_eq!(fetch_palette(1)[0], Colour { red: 0, green: 184, blue: 170 });
    assert_eq!(fetch_palette(8)[7], Colour { red: 166, green: 105, blue: 153 });
    assert_eq!(fetch_palette(10)[0], Colour { red: 229, green: 134, blue: 6 });
    assert_eq!(fetch_palette(12)[11], Colour { red: 165, green: 170, blue: 153 });
    assert_eq!(fetch_palette(13)[0], Colour { red: 65, green: 123, blue: 161 });
    assert_eq!(fetch_palette(14)[13], Colour { red: 0, green: 0, blue: 0 });
}
