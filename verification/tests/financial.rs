use delphis_nap::calendar::Date;
use delphis_nap::financial::{
    Account, AccountType, Currency, Entity, EntityType, Party, Transaction, TransactionType,
};

fn day(year: i32, month: u32, day: u32) -> Date {
    Date::from_ymd(year, month, day).unwrap()
}

fn init_party() -> Party {
    let t1 = Transaction::Income {
        value: 12000,
        currency: Currency::EUR,
        date: day(2024, 12, 1),
        category: "Salary".to_string(),
        subcategory: "Regular salary".to_string(),
        description: "Finally got the bread".to_string(),
        entity_id: 0,
    };

    let t2 = Transaction::Expense {
        value: 10000,
        currency: Currency::SEK,
        date: day(2024, 12, 1),
        category: "Drugs".to_string(),
        subcategory: "Alcohol".to_string(),
        description: "Bought some beers to celebrate".to_string(),
        entity_id: 1,
    };

    let t3 = Transaction::Credit {
        value: 12000,
        currency: Currency::EUR,
        date: day(2024, 12, 2),
        account_id: 0,
    };

    let t4 = Transaction::Debit {
        value: 10000,
        currency: Currency::SEK,
        date: day(2024, 12, 2),
        account_id: 1,
    };

    // Example data
    let items = vec![t1, t2, t3, t4];

    Party::new(items)
}

#[test]
fn financial_correct_party() {
    let party: Party = init_party();

    assert!(party.is_valid());
}

#[test]
fn financial_incorrect_party() {
    let t1 = Transaction::Expense {
        value: 10200,
        currency: Currency::EUR,
        date: day(2024, 12, 1),
        category: "Utilities".to_string(),
        subcategory: "Electricity".to_string(),
        description: "Monthly electricity bill".to_string(),
        entity_id: 1,
    };

    let t2 = Transaction::Debit {
        value: 12000,
        currency: Currency::EUR,
        date: day(2024, 12, 2),
        account_id: 42,
    };

    // Example data
    let items = vec![t1, t2];

    let party: Party = Party::new(items);

    assert!(!party.is_valid());
}

#[test]
fn financial_multicurrency_party() {
    let party: Party = init_party();

    assert!(party.is_valid());
}

#[test]
fn classes_correct_party() {
    let t1 = Transaction::Expense {
        value: 20000,
        currency: Currency::EUR,
        date: day(2024, 12, 1),
        category: "Utilities".to_string(),
        subcategory: "Electricity".to_string(),
        description: "Monthly electricity bill".to_string(),
        entity_id: 1,
    };

    let t2 = Transaction::Expense {
        value: 10000,
        currency: Currency::EUR,
        date: day(2024, 12, 1),
        category: "Utilities".to_string(),
        subcategory: "Gas".to_string(),
        description: "Monthly gas bill".to_string(),
        entity_id: 1,
    };

    let t3 = Transaction::Debit {
        value: 30000,
        currency: Currency::EUR,
        date: day(2024, 12, 2),
        account_id: 42,
    };

    // Example data
    let items = vec![t1, t2, t3];

    let party: Party = Party { transactions: items, creation_date: day(2024, 12, 1) };

    assert!(party.is_valid());
}

#[test]
fn classes_incorrect_party() {
    let t1 = Transaction::Expense {
        value: 10200,
        currency: Currency::EUR,
        date: day(2024, 12, 1),
        category: "Utilities".to_string(),
        subcategory: "Electricity".to_string(),
        description: "Monthly electricity bill".to_string(),
        entity_id: 1,
    };

    let t2 = Transaction::Debit {
        value: 12000,
        currency: Currency::EUR,
        date: day(2024, 12, 2),
        account_id: 42,
    };

    // Example data
    let items = vec![t1, t2];

    let party: Party = Party { transactions: items, creation_date: day(2024, 12, 1) };

    assert!(!party.is_valid());
}

#[test]
fn classes_multicurrency_party() {
    let t1 = Transaction::Income {
        value: 12000,
        currency: Currency::EUR,
        date: day(2024, 12, 1),
        category: "Salary".to_string(),
        subcategory: "Regular salary".to_string(),
        description: "Finally got the bread".to_string(),
        entity_id: 1,
    };

    let t2 = Transaction::Expense {
        value: 10000,
        currency: Currency::SEK,
        date: day(2024, 12, 1),
        category: "Drugs".to_string(),
        subcategory: "Alcohol".to_string(),
        description: "Bought some beers to celebrate".to_string(),
        entity_id: 11,
    };

    let t3 = Transaction::Credit {
        value: 12000,
        currency: Currency::EUR,
        date: day(2024, 12, 2),
        account_id: 2,
    };

    let t4 = Transaction::Debit {
        value: 10000,
        currency: Currency::SEK,
        date: day(2024, 12, 2),
        account_id: 42,
    };

    // Example data
    let items = vec![t1, t2, t3, t4];

    let party: Party = Party { transactions: items, creation_date: day(2024, 12, 1) };

    assert!(party.is_valid());
}

#[test]
fn empty_party_is_not_valid() {
    let party = Party::default();
    assert!(party.is_empty());
    assert!(!party.is_valid());
}

#[test]
fn party_off_by_one_minor_unit_is_not_valid() {
    let mut party = Party::dated(vec![], day(2024, 12, 1));
    party.add_transaction(Transaction::Income {
        value: 12000,
        currency: Currency::CHF,
        date: day(2024, 12, 1),
        category: String::new(),
        subcategory: String::new(),
        description: String::new(),
        entity_id: 0,
    });
    party.add_transaction(Transaction::Credit {
        value: 11999,
        currency: Currency::CHF,
        date: day(2024, 12, 1),
        account_id: 0,
    });
    assert!(!party.is_empty());
    assert!(!party.is_valid());
    assert_eq!(party.balance(Currency::CHF), 1);
    assert_eq!(party.balance(Currency::EUR), 0);
    party.add_transaction(Transaction::Credit {
        value: 1,
        currency: Currency::CHF,
        date: day(2024, 12, 1),
        account_id: 0,
    });
    assert!(party.is_valid());
    assert_eq!(party.creation_date, day(2024, 12, 1));
}

#[test]
fn party_balance_cannot_overflow() {
    let mut transactions = Vec::new();
    for _ in 0..4 {
        transactions.push(Transaction::Expense {
            value: i64::MIN,
            currency: Currency::EUR,
            date: day(2024, 12, 1),
            category: String::new(),
            subcategory: String::new(),
            description: String::new(),
            entity_id: 0,
        });
    }
    let party = Party::dated(transactions, day(2024, 12, 1));
    assert_eq!(party.balance(Currency::EUR), 4 * (1i128 << 63));
    assert!(!party.is_valid());
}

#[test]
fn transaction_getters() {
    let t = Transaction::Debit {
        value: 30000,
        currency: Currency::SEK,
        date: day(2024, 12, 2),
        account_id: 42,
    };
    assert_eq!(t.sign(), 1);
    assert_eq!(t.value(), 30000);
    assert_eq!(t.currency(), &Currency::SEK);
    assert_eq!(t.date(), &day(2024, 12, 2));
    assert_eq!(t.transaction_type(), "Debit");
    let c = Transaction::Credit {
        value: 1,
        currency: Currency::SEK,
        date: day(2024, 12, 2),
        account_id: 42,
    };
    assert_eq!(c.sign(), -1);
    assert_eq!(c.transaction_type(), "Credit");
}

#[test]
fn currency_codes_go_both_ways() {
    for currency in Currency::all() {
        assert_eq!(Currency::from_str(currency.code()), Some(currency));
        assert_eq!(currency.to_string(), currency.code());
        assert_eq!(Currency::all()[currency.index()], currency);
    }
    assert_eq!(Currency::all(), vec![Currency::EUR, Currency::CHF, Currency::SEK]);
    assert_eq!(Currency::from_str("eur"), None);
    assert_eq!(Currency::from_str(""), None);
    assert_eq!(Currency::from_str("EURO"), None);
    assert_eq!(Currency::default(), Currency::EUR);
}

#[test]
fn kinds_have_names_and_defaults() {
    assert_eq!(TransactionType::default(), TransactionType::Income);
    assert_eq!(TransactionType::Expense.to_string(), "Expense");
    assert_eq!(TransactionType::Income.to_string(), "Income");
    assert!(TransactionType::Credit.is_fund_change());
    assert!(TransactionType::Debit.is_fund_change());
    assert!(!TransactionType::Income.is_fund_change());
    assert!(!TransactionType::Expense.is_fund_change());
    assert_eq!(EntityType::default(), EntityType::Firm);
    assert_eq!(EntityType::NGO.to_string(), "NGO");
    assert_eq!(EntityType::from_str("Human"), Some(EntityType::Human));
    assert_eq!(EntityType::from_str("State"), Some(EntityType::State));
    assert_eq!(EntityType::from_str("human"), None);
    assert_eq!(AccountType::default(), AccountType::Deposit);
    assert_eq!(AccountType::Cash.to_string(), "Cash");
    assert_eq!(AccountType::from_str("Investment"), Some(AccountType::Investment));
    assert_eq!(AccountType::from_str("Savings"), None);
}

#[test]
fn entity_and_account_have_labels() {
    let entity = Entity::new(
        String::from("Aldi"),
        String::from("Germany"),
        EntityType::Firm,
        String::from("Supermarket"),
    );
    assert_eq!(entity.name(), "Aldi");
    assert_eq!(entity.country(), "Germany");
    assert_eq!(entity.entity_type(), &EntityType::Firm);
    assert_eq!(entity.entity_subtype(), "Supermarket");
    assert_eq!(entity.to_string(), "Aldi (Germany)");

    let account = Account::new(
        String::from("Current account"),
        String::from("Credit Suisse"),
        Currency::CHF,
        AccountType::Deposit,
        108000,
    );
    assert_eq!(account.name(), "Current account");
    assert_eq!(account.country(), "Credit Suisse");
    assert_eq!(account.currency(), &Currency::CHF);
    assert_eq!(account.account_type(), &AccountType::Deposit);
    assert_eq!(account.initial_balance(), 108000);
    assert_eq!(account.to_string(), "Current account (Credit Suisse, CHF)");
}
