use delphis_nap::calendar::Date;
use delphis_nap::currency_exchange::CurrencyExchange;
use delphis_nap::database::DataBase;
use delphis_nap::financial::{
    Account, AccountType, Currency, Entity, EntityType, Party, Transaction, TransactionType,
};
use delphis_nap::tables::{IncomeRecord, IncomeTable};

fn day(year: i32, month: u32, day: u32) -> Date {
    Date::from_ymd(year, month, day).unwrap()
}

fn init_party() -> Party {
    let t1 = Transaction::Income {
        value: 12000,
        currency: Currency::EUR,
        date: day(2024, 12, 1),
        category: "Salary".to_string(),
        subcategory: "Regular salary".to_string(),
        description: "Finally got the bread".to_string(),
        entity_id: 0,
    };

    let t2 = Transaction::Expense {
        value: 10000,
        currency: Currency::SEK,
        date: day(2024, 12, 1),
        category: "Drugs".to_string(),
        subcategory: "Alcohol".to_string(),
        description: "Bought some beers to celebrate".to_string(),
        entity_id: 1,
    };

    let t3 = Transaction::Credit {
        value: 12000,
        currency: Currency::EUR,
        date: day(2024, 12, 2),
        account_id: 0,
    };

    let t4 = Transaction::Debit {
        value: 10000,
        currency: Currency::SEK,
        date: day(2024, 12, 2),
        account_id: 1,
    };

    Party::new(vec![t1, t2, t3, t4])
}

fn sizes(data_base: &DataBase) -> Vec<(String, usize)> {
    data_base.size().into_iter().map(|s| (s.table, s.records)).collect()
}

fn expected_sizes(records: [usize; 6]) -> Vec<(String, usize)> {
    ["income", "expenses", "funds", "party", "entity", "account"]
        .iter()
        .map(|s| s.to_string())
        .zip(records)
        .collect()
}

#[test]
fn database_correct_insert_party() {
    let mut data_base: DataBase = DataBase::new();
    let mut party: Party = init_party();

    data_base.insert_party(&mut party);

    let expected_result = expected_sizes([1, 1, 2, 1, 1, 1]);

    let actual_result = sizes(&data_base);

    assert_eq!(actual_result, expected_result);
}

#[test]
fn database_correct_insert_entity_account() {
    let mut data_base: DataBase = DataBase::new();
    let entity = Entity::new(
        String::from("Aldi"),
        String::from("Germany"),
        EntityType::Firm,
        String::from("Supermarket"),
    );

    let account = Account::new(
        String::from("Current account"),
        String::from("Credit Suisse"),
        Currency::CHF,
        AccountType::Deposit,
        108000,
    );

    data_base.insert_entity(&entity);
    data_base.insert_account(&account);

    let expected_result = expected_sizes([0, 0, 0, 0, 2, 2]);

    let actual_result = sizes(&data_base);

    assert_eq!(actual_result, expected_result);
}

#[test]
fn parties_share_one_identifier_and_can_be_deleted() {
    let mut data_base = DataBase::new();
    let mut first = init_party();
    let mut second = init_party();
    assert!(data_base.accepts(&first));
    data_base.insert_party(&mut first);
    data_base.insert_party(&mut second);
    assert_eq!(first.transactions.len(), 4);
    assert_eq!(sizes(&data_base), expected_sizes([2, 2, 4, 2, 1, 1]));
    assert_eq!(data_base.incomes_table.rows[1].party_id, 1);
    assert_eq!(data_base.incomes_table.rows[1].income_id, 1);
    assert_eq!(data_base.expenses_table.rows[1].party_id, 1);
    assert_eq!(data_base.funds_table.rows[2].party_id, 1);
    assert_eq!(data_base.funds_table.rows[3].fund_movement_id, 3);
    assert_eq!(data_base.funds_table.rows[3].value, -10000);
    assert_eq!(data_base.funds_table.iter_party(1), vec![2, 3]);
    assert_eq!(data_base.party_table.rows[1].creation_date, second.creation_date);

    data_base.delete_party(0);
    assert_eq!(sizes(&data_base), expected_sizes([1, 1, 2, 1, 1, 1]));
    assert_eq!(data_base.incomes_table.rows[0].party_id, 1);
    assert_eq!(data_base.party_table.rows[0].party_id, 1);
}

#[test]
fn a_party_that_cannot_be_numbered_is_not_accepted() {
    let mut data_base = DataBase::new();
    data_base.incomes_table = *<IncomeTable as delphis_nap::tables::Table>::create(vec![IncomeRecord {
        income_id: i64::MAX - 3,
        value: 1,
        currency: Currency::EUR,
        date: day(2024, 1, 1),
        category: String::new(),
        subcategory: String::new(),
        description: String::new(),
        entity_id: 0,
        party_id: 0,
    }]);
    let four = init_party();
    assert!(!data_base.accepts(&four));
    let mut three = init_party();
    three.transactions.pop();
    assert!(data_base.accepts(&three));
    let mut unopposed = init_party();
    unopposed.transactions[3] = Transaction::Debit {
        value: i64::MIN,
        currency: Currency::SEK,
        date: day(2024, 12, 2),
        account_id: 1,
    };
    assert!(!DataBase::new().accepts(&unopposed));
}

#[test]
fn database_lists_what_is_in_use() {
    let mut data_base = DataBase::new();
    let mut party = init_party();
    data_base.insert_party(&mut party);
    assert_eq!(data_base.transaction_categories(&TransactionType::Income), vec!["Salary"]);
    assert_eq!(data_base.transaction_categories(&TransactionType::Expense), vec!["Drugs"]);
    assert_eq!(data_base.transaction_categories(&TransactionType::Credit), Vec::<String>::new());
    assert_eq!(
        data_base.transaction_subcategories(&TransactionType::Expense, "Drugs".to_string()),
        vec!["Alcohol"]
    );
    assert_eq!(
        data_base.transaction_subcategories(&TransactionType::Debit, "Drugs".to_string()),
        Vec::<String>::new()
    );
    let aldi = Entity::new("Aldi".into(), "Germany".into(), EntityType::Firm, "Supermarket".into());
    let id = data_base.insert_entity(&aldi);
    assert_eq!(id, 1);
    assert_eq!(data_base.iter_entity_ids(), vec![1, 0]);
    assert_eq!(data_base.entity(1).to_string(), "Aldi (Germany)");
    assert_eq!(data_base.entity_countries(), vec!["Germany", "Unknown"]);
    assert_eq!(data_base.entity_subtypes(), vec!["", "Supermarket"]);
    assert_eq!(data_base.iter_account_ids(), vec![0]);
    assert_eq!(data_base.account(0).to_string(), "Unknown (Unknown, EUR)");
    assert_eq!(data_base.account_countries(), vec!["Unknown"]);
}

#[test]
fn database_reports_use_its_tables() {
    let mut data_base = DataBase::new();
    let mut party = Party::dated(
        vec![
            Transaction::Income {
                value: 100000,
                currency: Currency::EUR,
                date: day(2024, 12, 1),
                category: "Salary".to_string(),
                subcategory: "Regular salary".to_string(),
                description: String::new(),
                entity_id: 0,
            },
            Transaction::Expense {
                value: 30000,
                currency: Currency::EUR,
                date: day(2024, 12, 3),
                category: "Rent".to_string(),
                subcategory: "Flat".to_string(),
                description: String::new(),
                entity_id: 0,
            },
            Transaction::Credit {
                value: 100000,
                currency: Currency::EUR,
                date: day(2024, 12, 1),
                account_id: 0,
            },
            Transaction::Debit {
                value: 30000,
                currency: Currency::EUR,
                date: day(2024, 12, 3),
                account_id: 0,
            },
        ],
        day(2024, 12, 3),
    );
    data_base.insert_party(&mut party);
    // move the opening of the one account to a known day
    data_base.account_table.rows[0].creation_date = day(2024, 11, 30);
    let exchange = CurrencyExchange::as_of(&vec![], day(2024, 12, 31));
    let eur = Currency::EUR;

    assert_eq!(
        data_base.total_income(&exchange, day(2024, 12, 1), day(2024, 12, 31), &eur),
        Ok(100000)
    );
    let summary = data_base
        .expenses_summary(&exchange, day(2024, 12, 1), day(2024, 12, 31), &eur)
        .unwrap();
    assert_eq!(summary.total.amount, 30000);
    assert_eq!(summary.total.percent_of_income, Some(3000));
    assert_eq!(summary.rows.len(), 1);

    let monthly = data_base.monthly_expenses(&exchange, &eur, None).unwrap();
    assert_eq!(monthly.len(), 1);
    assert_eq!((monthly[0].date, monthly[0].value), (day(2024, 12, 1), 30000));

    let curve = data_base.funds_evolution(&exchange, &eur, None).unwrap();
    let values: Vec<i64> = curve.iter().map(|p| p.value).collect();
    assert_eq!(values, vec![0, 100000, 100000, 70000]);
    assert_eq!(curve[0].date, day(2024, 11, 30));

    let stand = data_base.current_fund_stand(&exchange, None).unwrap();
    assert_eq!(stand.len(), 1);
    assert_eq!(stand[0].value, 70000);
    assert_eq!(stand[0].name, "Unknown");
}

#[test]
fn a_transaction_must_be_in_the_currency_of_its_account() {
    let mut data_base = DataBase::new();
    let account = Account::new(
        String::from("Current account"),
        String::from("Credit Suisse"),
        Currency::CHF,
        AccountType::Deposit,
        108000,
    );
    let id = data_base.insert_account(&account);
    assert!(data_base.is_valid_transaction_currency(&Currency::CHF, id));
    assert!(!data_base.is_valid_transaction_currency(&Currency::EUR, id));
    assert!(data_base.is_valid_transaction_currency(&Currency::EUR, 0));
}
