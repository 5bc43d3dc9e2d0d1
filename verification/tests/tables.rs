use delphis_nap::calendar::Date;
use delphis_nap::financial::{Account, AccountType, Currency, Entity, EntityType, Party, Transaction};
use delphis_nap::tables::{
    AccountTable, EntityRecord, EntityTable, ExpensesTable, FundMovementRecord, FundMovementType,
    FundsTable, IncomeRecord, IncomeTable, PartyTable, Table,
};

fn day(year: i32, month: u32, day: u32) -> Date {
    Date::from_ymd(year, month, day).unwrap()
}

fn init_funds_table() -> FundsTable {
    FundsTable {
        rows: vec![
            FundMovementRecord {
                fund_movement_id: 0,
                fund_movement_type: FundMovementType::Credit,
                value: 130923,
                currency: Currency::EUR,
                date: day(1997, 1, 10),
                account_id: 0,
                party_id: 0,
            },
            FundMovementRecord {
                fund_movement_id: 1,
                fund_movement_type: FundMovementType::Debit,
                value: -8900,
                currency: Currency::EUR,
                date: day(1985, 2, 15),
                account_id: 0,
                party_id: 1,
            },
        ],
    }
}

fn income_row(id: i64, party_id: i64, category: &str, subcategory: &str) -> IncomeRecord {
    IncomeRecord {
        income_id: id,
        value: 100,
        currency: Currency::EUR,
        date: day(2024, 1, 1),
        category: category.to_string(),
        subcategory: subcategory.to_string(),
        description: String::new(),
        entity_id: 0,
        party_id,
    }
}

fn last_id(ids: Vec<i64>) -> i64 {
    *ids.iter().max().unwrap()
}

#[test]
fn tables_correct_funds_table_init() {
    let funds_table: Box<FundsTable> = FundsTable::new();

    assert!(funds_table.rows.is_empty());
}

#[test]
fn tables_correct_id_empty_funds_table_init() {
    let mut funds_table: FundsTable = *FundsTable::new();

    let transaction = Transaction::Debit {
        value: 30000,
        currency: Currency::EUR,
        date: day(2024, 12, 2),
        account_id: 0i64,
    };

    funds_table.insert_transaction(&transaction, 0);

    let actual_last_id = last_id(funds_table.rows().iter().map(|r| r.fund_movement_id).collect());
    let expected_last_id = 0i64;

    assert_eq!(actual_last_id, expected_last_id)
}

#[test]
fn correct_id_nonempty_funds_table_insertion() {
    let mut funds_table: FundsTable = init_funds_table();
    let transaction = Transaction::Debit {
        value: 30000,
        currency: Currency::EUR,
        date: day(2024, 12, 2),
        account_id: 0i64,
    };

    funds_table.insert_transaction(&transaction, 0);

    let actual_last_id = last_id(funds_table.rows().iter().map(|r| r.fund_movement_id).collect());
    let expected_last_id = 2i64;

    assert_eq!(actual_last_id, expected_last_id)
}

#[test]
fn correct_id_nonempty_funds_table_addition() {
    let mut funds_table: FundsTable = init_funds_table();
    let transaction = Transaction::Debit {
        value: 30000,
        currency: Currency::EUR,
        date: day(2024, 12, 2),
        account_id: 0,
    };

    funds_table.insert_transaction(&transaction, 0);

    let actual_last_id = last_id(funds_table.rows.iter().map(|r| r.fund_movement_id).collect());
    let expected_last_id = 2;

    assert_eq!(actual_last_id, expected_last_id)
}

#[test]
fn tables_correct_entity_table_init() {
    let entity_table: EntityTable = *EntityTable::new();

    assert_eq!(entity_table.rows.len(), 1);
}

#[test]
fn tables_correct_id_empty_entity_table_init() {
    let mut entity_table: EntityTable = *EntityTable::new();

    let entity = Entity::new(
        String::from("Aldi"),
        String::from("Germany"),
        EntityType::Firm,
        String::from("Supermarket"),
    );

    entity_table.insert_entity(&entity);

    let actual_last_id = last_id(entity_table.rows().iter().map(|r| r.entity_id).collect());
    let expected_last_id = 1i64;

    assert_eq!(actual_last_id, expected_last_id)
}

#[test]
fn tables_correct_id_empty_account_table_init() {
    let mut account_table: AccountTable = *AccountTable::new();

    let account = Account::new(
        String::from("Current account"),
        String::from("Credit Suisse"),
        Currency::CHF,
        AccountType::Deposit,
        108000,
    );

    account_table.insert_account(&account);

    let actual_last_id = last_id(account_table.rows().iter().map(|r| r.account_id).collect());
    let expected_last_id = 1i64;

    assert_eq!(actual_last_id, expected_last_id)
}

#[test]
fn correct_income_table_delete() {
    let mut income_table = *IncomeTable::create(vec![
        income_row(0, 0, "Salary", "Regular"),
        income_row(1, 1, "Salary", "Bonus"),
        income_row(2, 0, "Interest", "Savings"),
        income_row(3, 2, "Salary", "Regular"),
    ]);
    let orig_size = income_table.rows.len();
    let party_0_size = income_table.rows.iter().filter(|r| r.party_id == 0).count();
    income_table.delete_party(0);

    assert_eq!(orig_size - party_0_size, income_table.rows.len());
    let left: Vec<i64> = income_table.rows.iter().map(|r| r.income_id).collect();
    assert_eq!(left, vec![1, 3]);
}

#[test]
fn correct_income_table_transaction() {
    let mut income_table = *IncomeTable::new();
    let original_transaction = Transaction::Income {
        value: 0,
        currency: Currency::EUR,
        date: day(1970, 1, 1),
        category: String::from("Test category"),
        subcategory: String::from("Test subcategory"),
        description: String::from("Test description"),
        entity_id: 0,
    };
    income_table.insert_transaction(&original_transaction, 0);
    let returned_transaction = income_table.transaction(0);

    assert!(
        (original_transaction.value() == returned_transaction.value())
            & (original_transaction.currency() == returned_transaction.currency())
            & (original_transaction.date() == returned_transaction.date())
    );
    assert_eq!(returned_transaction.transaction_type(), "Income");
}

#[test]
fn table_names() {
    assert_eq!(IncomeTable::name(), "income");
    assert_eq!(ExpensesTable::name(), "expense");
    assert_eq!(FundsTable::name(), "fund_movement");
    assert_eq!(PartyTable::name(), "party");
    assert_eq!(EntityTable::name(), "entity");
    assert_eq!(AccountTable::name(), "account");
}

#[test]
fn next_id_is_one_more_than_the_largest() {
    assert_eq!(IncomeTable::new().next_id(), 0);
    let table = IncomeTable::create(vec![
        income_row(7, 0, "a", "b"),
        income_row(3, 0, "a", "b"),
        income_row(5, 0, "a", "b"),
    ]);
    assert_eq!(table.next_id(), 8);
    let negative = IncomeTable::create(vec![income_row(-7, 0, "a", "b")]);
    assert_eq!(negative.next_id(), -6);
    assert_eq!(EntityTable::new().next_id(), 1);
}

#[test]
fn funds_table_keeps_the_sign_of_a_movement() {
    let mut funds_table = *FundsTable::new();
    let credit = Transaction::Credit {
        value: 12000,
        currency: Currency::EUR,
        date: day(2024, 12, 2),
        account_id: 3,
    };
    let debit = Transaction::Debit {
        value: 30000,
        currency: Currency::SEK,
        date: day(2024, 12, 3),
        account_id: 4,
    };
    funds_table.insert_transaction(&credit, 9);
    funds_table.insert_transaction(&debit, 9);
    assert_eq!(
        funds_table.rows,
        vec![
            FundMovementRecord {
                fund_movement_id: 0,
                fund_movement_type: FundMovementType::Credit,
                value: 12000,
                currency: Currency::EUR,
                date: day(2024, 12, 2),
                account_id: 3,
                party_id: 9,
            },
            FundMovementRecord {
                fund_movement_id: 1,
                fund_movement_type: FundMovementType::Debit,
                value: -30000,
                currency: Currency::SEK,
                date: day(2024, 12, 3),
                account_id: 4,
                party_id: 9,
            },
        ]
    );
    let back = funds_table.transaction(1);
    assert_eq!(back.transaction_type(), "Debit");
    assert_eq!(back.value(), 30000);
    assert_eq!(funds_table.transaction(0).value(), 12000);
    assert_eq!(funds_table.iter_party(9), vec![0, 1]);
    assert_eq!(funds_table.iter_party(8), Vec::<i64>::new());
    funds_table.delete_party(9);
    assert!(funds_table.rows.is_empty());
}

#[test]
fn categories_are_listed_once_and_in_order() {
    let table = IncomeTable::create(vec![
        income_row(0, 0, "Salary", "Regular"),
        income_row(1, 1, "Interest", "Savings"),
        income_row(2, 2, "Salary", "Bonus"),
        income_row(3, 3, "Salary", "Regular"),
        income_row(4, 4, "Gifts", "Birthday"),
    ]);
    assert_eq!(table.categories(), vec!["Gifts", "Interest", "Salary"]);
    assert_eq!(table.subcategories("Salary".to_string()), vec!["Bonus", "Regular"]);
    assert_eq!(table.subcategories("Rent".to_string()), Vec::<String>::new());
    assert_eq!(table.iter_party(2), vec![2]);
}

#[test]
fn party_table_takes_the_day_of_the_party() {
    let mut table = *PartyTable::new();
    table.insert_party(&Party::dated(vec![], day(2024, 5, 6)));
    table.insert_party(&Party::dated(vec![], day(2024, 5, 7)));
    assert_eq!(table.rows.len(), 2);
    assert_eq!(table.rows[1].party_id, 1);
    assert_eq!(table.rows[1].creation_date, day(2024, 5, 7));
    table.delete_party(0);
    assert_eq!(table.rows.len(), 1);
    assert_eq!(table.rows[0].party_id, 1);
}

#[test]
fn entities_come_by_name_and_by_id() {
    let mut table = EntityTable::starting_on(day(2024, 1, 1));
    let aldi = Entity::new("Aldi".into(), "Germany".into(), EntityType::Firm, "Supermarket".into());
    let zoo = Entity::new("Zoo".into(), "Austria".into(), EntityType::State, "Leisure".into());
    let id_zoo = table.insert_entity_on(&zoo, day(2024, 2, 1));
    let id_aldi = table.insert_entity_on(&aldi, day(2024, 2, 2));
    assert_eq!((id_zoo, id_aldi), (1, 2));
    assert_eq!(table.iter(), vec![2, 0, 1]); // Aldi, Unknown, Zoo
    assert_eq!(table.countries(), vec!["Austria", "Germany", "Unknown"]);
    assert_eq!(table.subtypes(), vec!["", "Leisure", "Supermarket"]);
    let found = table.entity(2);
    assert_eq!(found.name(), "Aldi");
    assert_eq!(found.entity_type(), &EntityType::Firm);
    assert_eq!(table.rows[2].creation_date, day(2024, 2, 2));
    let unknown: &EntityRecord = &table.rows[0];
    assert_eq!(unknown.name, "Unknown");
    assert_eq!(unknown.entity_subtype, "");
}

#[test]
fn accounts_come_by_name_and_by_id() {
    let mut table = AccountTable::starting_on(day(2024, 1, 1));
    let account = Account::new(
        "Current account".into(),
        "Switzerland".into(),
        Currency::CHF,
        AccountType::Cash,
        108000,
    );
    assert_eq!(table.insert_account_on(&account, day(2024, 3, 1)), 1);
    assert_eq!(table.iter(), vec![1, 0]);
    assert_eq!(table.countries(), vec!["Switzerland", "Unknown"]);
    let found = table.account(1);
    assert_eq!(found.initial_balance(), 108000);
    assert_eq!(found.currency(), &Currency::CHF);
    assert_eq!(found.account_type(), &AccountType::Cash);
    assert_eq!(table.account(0).currency(), &Currency::EUR);
}
