//! The vocabulary of the ledger: currencies, transactions, parties, entities
//! and accounts.

use crate::calendar::Date;
use vstd::prelude::*;
use vstd::string::StringExecFns;

verus! {

/// The currencies that the ledger supports.
#[derive(Clone, Copy, Debug, PartialEq, Eq, Structural, Hash)]
pub enum Currency {
    EUR,
    CHF,
    SEK,
}

/// The currency against which every cached rate series is quoted.
pub const BASE_CURRENCY: Currency = Currency::EUR;

/// How many currencies there are.
pub const CURRENCY_COUNT: usize = 3;

impl Currency {
    /// The three-letter code of a currency.
    pub open spec fn code_text(self) -> Seq<char> {
        match self {
            Currency::EUR => "EUR"@,
            Currency::CHF => "CHF"@,
            Currency::SEK => "SEK"@,
        }
    }

    /// The currency with the given code, if there is one.
    pub open spec fn with_code(code: Seq<char>) -> Option<Currency> {
        if code == "EUR"@ {
            Some(Currency::EUR)
        } else if code == "CHF"@ {
            Some(Currency::CHF)
        } else if code == "SEK"@ {
            Some(Currency::SEK)
        } else {
            None
        }
    }

    /// The position of a currency in the order of declaration.
    pub open spec fn position(self) -> int {
        match self {
            Currency::EUR => 0,
            Currency::CHF => 1,
            Currency::SEK => 2,
        }
    }

    /// All currencies, in the order of declaration.
    pub open spec fn every() -> Seq<Currency> {
        seq![Currency::EUR, Currency::CHF, Currency::SEK]
    }

    /// All currencies, in the order of declaration.
    pub fn all() -> (r: Vec<Currency>)
        ensures
            r@ == Currency::every(),
    {
        let mut r: Vec<Currency> = Vec::new();
        r.push(Currency::EUR);
        r.push(Currency::CHF);
        r.push(Currency::SEK);
        assert(r@ =~= Currency::every());
        r
    }

    /// The position of this currency in [`Currency::all`].
    pub fn index(&self) -> (r: usize)
        ensures
            r == self.position(),
            r < CURRENCY_COUNT,
            Currency::every()[r as int] == *self,
    {
        match self {
            Currency::EUR => 0,
            Currency::CHF => 1,
            Currency::SEK => 2,
        }
    }

    /// The three-letter code of this currency.
    pub fn code(&self) -> (r: &'static str)
        ensures
            r@ == self.code_text(),
    {
        match self {
            Currency::EUR => "EUR",
            Currency::CHF => "CHF",
            Currency::SEK => "SEK",
        }
    }

    /// The code of this currency as an owned string.
    pub fn to_string(&self) -> (r: String)
        ensures
            r@ == self.code_text(),
    {
        String::from_str(self.code())
    }

    /// The currency whose code is `code`, exactly as written; `None` for any
    /// other text.
    pub fn from_str(code: &str) -> (r: Option<Currency>)
        ensures
            r == Currency::with_code(code@),
    {
        let text: String = String::from_str(code);
        if text == String::from_str("EUR") {
            Some(Currency::EUR)
        } else if text == String::from_str("CHF") {
            Some(Currency::CHF)
        } else if text == String::from_str("SEK") {
            Some(Currency::SEK)
        } else {
            None
        }
    }

    /// The code of a currency names that currency and no other.
    pub proof fn lemma_code_names_currency(self)
        ensures
            Currency::with_code(self.code_text()) == Some(self),
    {
        reveal_strlit("EUR");
        reveal_strlit("CHF");
        reveal_strlit("SEK");
        assert("EUR"@[0] != "CHF"@[0]);
        assert("EUR"@[0] != "SEK"@[0]);
        assert("CHF"@[0] != "SEK"@[0]);
    }
}

impl Default for Currency {
    fn default() -> (r: Currency)
        ensures
            r == Currency::EUR,
    {
        Currency::EUR
    }
}

/// The four kinds of transaction.
#[derive(Clone, Copy, Debug, PartialEq, Eq, Structural, Hash)]
pub enum TransactionType {
    Income,
    Expense,
    Credit,
    Debit,
}

impl TransactionType {
    /// The name of a kind.
    pub open spec fn name_text(self) -> Seq<char> {
        match self {
            TransactionType::Income => "Income"@,
            TransactionType::Expense => "Expense"@,
            TransactionType::Credit => "Credit"@,
            TransactionType::Debit => "Debit"@,
        }
    }

    /// The kinds that move funds of an account: credit and debit.
    pub open spec fn is_fund_change_kind(self) -> bool {
        self == TransactionType::Credit || self == TransactionType::Debit
    }

    /// True for the kinds that move funds of an account: credit and debit.
    pub fn is_fund_change(&self) -> (r: bool)
        ensures
            r == self.is_fund_change_kind(),
    {
        match self {
            TransactionType::Income | TransactionType::Expense => false,
            TransactionType::Credit | TransactionType::Debit => true,
        }
    }

    /// The name of this kind.
    pub fn to_string(&self) -> (r: String)
        ensures
            r@ == self.name_text(),
    {
        match self {
            TransactionType::Income => String::from_str("Income"),
            TransactionType::Expense => String::from_str("Expense"),
            TransactionType::Credit => String::from_str("Credit"),
            TransactionType::Debit => String::from_str("Debit"),
        }
    }
}

impl Default for TransactionType {
    fn default() -> (r: TransactionType)
        ensures
            r == TransactionType::Income,
    {
        TransactionType::Income
    }
}

/// One entry of the accounts. Incomes and expenses record what caused a
/// movement of money; credits and debits record which funds moved. `value` is
/// a number of minor units.
pub enum Transaction {
    Income {
        value: i64,
        currency: Currency,
        date: Date,
        category: String,
        subcategory: String,
        description: String,
        entity_id: i64,
    },
    Expense {
        value: i64,
        currency: Currency,
        date: Date,
        category: String,
        subcategory: String,
        description: String,
        entity_id: i64,
    },
    Credit { value: i64, currency: Currency, date: Date, account_id: i64 },
    Debit { value: i64, currency: Currency, date: Date, account_id: i64 },
}

impl Transaction {
    /// The kind of a transaction.
    pub open spec fn kind(self) -> TransactionType {
        match self {
            Transaction::Income { .. } => TransactionType::Income,
            Transaction::Expense { .. } => TransactionType::Expense,
            Transaction::Credit { .. } => TransactionType::Credit,
            Transaction::Debit { .. } => TransactionType::Debit,
        }
    }

    /// The sign with which a transaction enters the balance of its party: an
    /// income and a debit count positive, an expense and a credit negative.
    pub open spec fn sign_of(self) -> int {
        match self {
            Transaction::Income { .. } => 1,
            Transaction::Expense { .. } => -1,
            Transaction::Credit { .. } => -1,
            Transaction::Debit { .. } => 1,
        }
    }

    /// The value of a transaction, in minor units.
    pub open spec fn value_of(self) -> int {
        match self {
            Transaction::Income { value, .. } => value as int,
            Transaction::Expense { value, .. } => value as int,
            Transaction::Credit { value, .. } => value as int,
            Transaction::Debit { value, .. } => value as int,
        }
    }

    /// The currency of a transaction.
    pub open spec fn currency_of(self) -> Currency {
        match self {
            Transaction::Income { currency, .. } => currency,
            Transaction::Expense { currency, .. } => currency,
            Transaction::Credit { currency, .. } => currency,
            Transaction::Debit { currency, .. } => currency,
        }
    }

    /// The date of a transaction.
    pub open spec fn date_of(self) -> Date {
        match self {
            Transaction::Income { date, .. } => date,
            Transaction::Expense { date, .. } => date,
            Transaction::Credit { date, .. } => date,
            Transaction::Debit { date, .. } => date,
        }
    }

    /// What a transaction adds to the balance of its party: sign times value.
    pub open spec fn signed_value(self) -> int {
        self.sign_of() * self.value_of()
    }

    /// The sign of this transaction in the balance of its party, 1 or -1.
    pub fn sign(&self) -> (r: i64)
        ensures
            r == self.sign_of(),
    {
        match self {
            Transaction::Income { .. } => 1,
            Transaction::Expense { .. } => -1,
            Transaction::Credit { .. } => -1,
            Transaction::Debit { .. } => 1,
        }
    }

    /// The value of this transaction, in minor units.
    pub fn value(&self) -> (r: i64)
        ensures
            r == self.value_of(),
    {
        match self {
            Transaction::Income { value, .. } => *value,
            Transaction::Expense { value, .. } => *value,
            Transaction::Credit { value, .. } => *value,
            Transaction::Debit { value, .. } => *value,
        }
    }

    /// The currency of this transaction.
    pub fn currency(&self) -> (r: &Currency)
        ensures
            *r == self.currency_of(),
    {
        match self {
            Transaction::Income { currency, .. } => currency,
            Transaction::Expense { currency, .. } => currency,
            Transaction::Credit { currency, .. } => currency,
            Transaction::Debit { currency, .. } => currency,
        }
    }

    /// The date of this transaction.
    pub fn date(&self) -> (r: &Date)
        ensures
            *r == self.date_of(),
    {
        match self {
            Transaction::Income { date, .. } => date,
            Transaction::Expense { date, .. } => date,
            Transaction::Credit { date, .. } => date,
            Transaction::Debit { date, .. } => date,
        }
    }

    /// The text that stands for a transaction: its kind, for an income or an
    /// expense the category and subcategory in brackets, then the currency,
    /// the value with two places, and the date.
    pub open spec fn label(self) -> Seq<char> {
        let amount = " "@ + crate::text::hundredths_text(self.value_of()) + ", at date "@
            + crate::calendar::iso_text(self.date_of().day_number());
        match self {
            Transaction::Income { category, subcategory, .. } => "Income ("@ + category@ + ", "@
                + subcategory@ + "): "@ + self.currency_of().code_text() + amount,
            Transaction::Expense { category, subcategory, .. } => "Expense ("@ + category@ + ", "@
                + subcategory@ + "): "@ + self.currency_of().code_text() + amount,
            Transaction::Credit { .. } => "Credit: "@ + self.currency_of().code_text() + amount,
            Transaction::Debit { .. } => "Debit: "@ + self.currency_of().code_text() + amount,
        }
    }

    /// The text that stands for this transaction.
    pub fn to_string(&self) -> (r: String)
        ensures
            r@ == self.label(),
    {
        let mut text: String = String::new();
        match self {
            Transaction::Income { category, subcategory, .. } => {
                text.append("Income (");
                text.append(category.as_str());
                text.append(", ");
                text.append(subcategory.as_str());
                text.append("): ");
            },
            Transaction::Expense { category, subcategory, .. } => {
                text.append("Expense (");
                text.append(category.as_str());
                text.append(", ");
                text.append(subcategory.as_str());
                text.append("): ");
            },
            Transaction::Credit { .. } => {
                text.append("Credit: ");
            },
            Transaction::Debit { .. } => {
                text.append("Debit: ");
            },
        }
        text.append(self.currency().code());
        text.append(" ");
        crate::text::append_hundredths(&mut text, self.value() as i128);
        text.append(", at date ");
        let date: String = self.date().to_text();
        text.append(date.as_str());
        proof {
            assert(text@ =~= self.label());
        }
        text
    }

    /// The name of the kind of this transaction.
    pub fn transaction_type(&self) -> (r: String)
        ensures
            r@ == self.kind().name_text(),
    {
        match self {
            Transaction::Income { .. } => String::from_str("Income"),
            Transaction::Expense { .. } => String::from_str("Expense"),
            Transaction::Credit { .. } => String::from_str("Credit"),
            Transaction::Debit { .. } => String::from_str("Debit"),
        }
    }
}

/// What the transactions in `currency` add up to, each with its sign.
pub open spec fn balance_of(transactions: Seq<Transaction>, currency: Currency) -> int
    decreases transactions.len(),
{
    if transactions.len() == 0 {
        0
    } else {
        let last = transactions.last();
        balance_of(transactions.drop_last(), currency) + if last.currency_of() == currency {
            last.signed_value()
        } else {
            0
        }
    }
}

/// A party is balanced where it holds a transaction and, in every currency,
/// what was earned or spent meets an equal movement of funds.
pub open spec fn is_balanced(transactions: Seq<Transaction>) -> bool {
    transactions.len() > 0 && forall|currency: Currency| #[trigger]
        balance_of(transactions, currency) == 0
}

/// A balance of `n` transactions is at most `n` times 2^63 in size.
pub proof fn lemma_balance_bounded(transactions: Seq<Transaction>, currency: Currency)
    ensures
        -(transactions.len() * 0x8000_0000_0000_0000) <= balance_of(transactions, currency)
            <= transactions.len() * 0x8000_0000_0000_0000,
    decreases transactions.len(),
{
    if transactions.len() > 0 {
        lemma_balance_bounded(transactions.drop_last(), currency);
    }
}

/// A set of transactions that happened together, with the day it was entered.
pub struct Party {
    pub transactions: Vec<Transaction>,
    pub creation_date: Date,
}

impl Party {
    /// A party of the given transactions, entered on `creation_date`.
    pub fn dated(transactions: Vec<Transaction>, creation_date: Date) -> (r: Party)
        ensures
            r.transactions == transactions,
            r.creation_date == creation_date,
    {
        Party { transactions, creation_date }
    }

    /// A party of the given transactions, entered today.
    pub fn new(transactions: Vec<Transaction>) -> (r: Party)
        ensures
            r.transactions == transactions,
    {
        Party::dated(transactions, Date::today())
    }

    /// What the transactions of this party in `currency` add up to, each with
    /// its sign; zero where they balance.
    pub fn balance(&self, currency: Currency) -> (r: i128)
        ensures
            r == balance_of(self.transactions@, currency),
    {
        let mut total: i128 = 0;
        let mut i: usize = 0;
        while i < self.transactions.len()
            invariant
                i <= self.transactions.len(),
                total == balance_of(self.transactions@.take(i as int), currency),
            decreases self.transactions.len() - i,
        {
            proof {
                lemma_balance_bounded(self.transactions@.take(i as int), currency);
                assert(self.transactions@.take(i as int + 1).drop_last()
                    =~= self.transactions@.take(i as int));
            }
            let transaction: &Transaction = &self.transactions[i];
            if *transaction.currency() == currency {
                let sign: i128 = transaction.sign() as i128;
                let value: i128 = transaction.value() as i128;
                total = total + sign * value;
            }
            i = i + 1;
        }
        proof {
            assert(self.transactions@.take(i as int) =~= self.transactions@);
        }
        total
    }

    /// True where this party is balanced: it is not empty, and in each currency
    /// its signed values add up to zero.
    pub fn is_valid(&self) -> (r: bool)
        ensures
            r == is_balanced(self.transactions@),
    {
        if self.transactions.len() == 0 {
            return false;
        }
        let eur: i128 = self.balance(Currency::EUR);
        let chf: i128 = self.balance(Currency::CHF);
        let sek: i128 = self.balance(Currency::SEK);
        let r: bool = eur == 0 && chf == 0 && sek == 0;
        proof {
            if r {
                assert forall|currency: Currency| #[trigger]
                    balance_of(self.transactions@, currency) == 0 by {
                    match currency {
                        Currency::EUR => {},
                        Currency::CHF => {},
                        Currency::SEK => {},
                    }
                }
            }
        }
        r
    }

    /// Adds a transaction at the end of this party.
    pub fn add_transaction(&mut self, transaction: Transaction)
        ensures
            final(self).transactions@ == old(self).transactions@.push(transaction),
            final(self).creation_date == old(self).creation_date,
    {
        self.transactions.push(transaction);
    }

    /// True where this party holds no transaction.
    pub fn is_empty(&self) -> (r: bool)
        ensures
            r == (self.transactions@.len() == 0),
    {
        self.transactions.len() == 0
    }
}

impl Default for Party {
    fn default() -> (r: Party)
        ensures
            r.transactions@.len() == 0,
    {
        Party::new(Vec::new())
    }
}

/// The kinds of entity that money is paid to or received from.
#[derive(Clone, Copy, Debug, PartialEq, Eq, Structural, Hash)]
pub enum EntityType {
    Firm,
    Human,
    State,
    NGO,
}

impl EntityType {
    /// The name of a kind of entity.
    pub open spec fn name_text(self) -> Seq<char> {
        match self {
            EntityType::Firm => "Firm"@,
            EntityType::Human => "Human"@,
            EntityType::State => "State"@,
            EntityType::NGO => "NGO"@,
        }
    }

    /// The kind of entity with the given name, if there is one.
    pub open spec fn with_name(name: Seq<char>) -> Option<EntityType> {
        if name == "Firm"@ {
            Some(EntityType::Firm)
        } else if name == "Human"@ {
            Some(EntityType::Human)
        } else if name == "State"@ {
            Some(EntityType::State)
        } else if name == "NGO"@ {
            Some(EntityType::NGO)
        } else {
            None
        }
    }

    /// The name of this kind of entity.
    pub fn to_string(&self) -> (r: String)
        ensures
            r@ == self.name_text(),
    {
        match self {
            EntityType::Firm => String::from_str("Firm"),
            EntityType::Human => String::from_str("Human"),
            EntityType::State => String::from_str("State"),
            EntityType::NGO => String::from_str("NGO"),
        }
    }

    /// The kind of entity whose name is `name`, exactly as written.
    pub fn from_str(name: &str) -> (r: Option<EntityType>)
        ensures
            r == EntityType::with_name(name@),
    {
        let text: String = String::from_str(name);
        if text == String::from_str("Firm") {
            Some(EntityType::Firm)
        } else if text == String::from_str("Human") {
            Some(EntityType::Human)
        } else if text == String::from_str("State") {
            Some(EntityType::State)
        } else if text == String::from_str("NGO") {
            Some(EntityType::NGO)
        } else {
            None
        }
    }
}

impl Default for EntityType {
    fn default() -> (r: EntityType)
        ensures
            r == EntityType::Firm,
    {
        EntityType::Firm
    }
}

/// The kinds of account that funds are kept in.
#[derive(Clone, Copy, Debug, PartialEq, Eq, Structural, Hash)]
pub enum AccountType {
    Deposit,
    Investment,
    Cash,
}

impl AccountType {
    /// The name of a kind of account.
    pub open spec fn name_text(self) -> Seq<char> {
        match self {
            AccountType::Deposit => "Deposit"@,
            AccountType::Investment => "Investment"@,
            AccountType::Cash => "Cash"@,
        }
    }

    /// The kind of account with the given name, if there is one.
    pub open spec fn with_name(name: Seq<char>) -> Option<AccountType> {
        if name == "Deposit"@ {
            Some(AccountType::Deposit)
        } else if name == "Investment"@ {
            Some(AccountType::Investment)
        } else if name == "Cash"@ {
            Some(AccountType::Cash)
        } else {
            None
        }
    }

    /// The name of this kind of account.
    pub fn to_string(&self) -> (r: String)
        ensures
            r@ == self.name_text(),
    {
        match self {
            AccountType::Deposit => String::from_str("Deposit"),
            AccountType::Investment => String::from_str("Investment"),
            AccountType::Cash => String::from_str("Cash"),
        }
    }

    /// The kind of account whose name is `name`, exactly as written.
    pub fn from_str(name: &str) -> (r: Option<AccountType>)
        ensures
            r == AccountType::with_name(name@),
    {
        let text: String = String::from_str(name);
        if text == String::from_str("Deposit") {
            Some(AccountType::Deposit)
        } else if text == String::from_str("Investment") {
            Some(AccountType::Investment)
        } else if text == String::from_str("Cash") {
            Some(AccountType::Cash)
        } else {
            None
        }
    }
}

impl Default for AccountType {
    fn default() -> (r: AccountType)
        ensures
            r == AccountType::Deposit,
    {
        AccountType::Deposit
    }
}

/// Someone to whom an expense is paid or from whom an income comes.
pub struct Entity {
    pub name: String,
    pub country: String,
    pub entity_type: EntityType,
    pub entity_subtype: String,
}

impl Entity {
    /// An entity with the given name, country, kind and finer kind.
    pub fn new(name: String, country: String, entity_type: EntityType, entity_subtype: String) -> (r:
        Entity)
        ensures
            r.name == name,
            r.country == country,
            r.entity_type == entity_type,
            r.entity_subtype == entity_subtype,
    {
        Entity { name, country, entity_type, entity_subtype }
    }

    /// The name of this entity.
    pub fn name(&self) -> (r: String)
        ensures
            r == self.name,
    {
        self.name.clone()
    }

    /// The country of this entity.
    pub fn country(&self) -> (r: String)
        ensures
            r == self.country,
    {
        self.country.clone()
    }

    /// The kind of this entity.
    pub fn entity_type(&self) -> (r: &EntityType)
        ensures
            *r == self.entity_type,
    {
        &self.entity_type
    }

    /// The finer kind of this entity, such as supermarket or pharmacy.
    pub fn entity_subtype(&self) -> (r: String)
        ensures
            r == self.entity_subtype,
    {
        self.entity_subtype.clone()
    }

    /// The text that stands for an entity: its name, and its country in
    /// brackets.
    pub open spec fn label(self) -> Seq<char> {
        self.name@ + " ("@ + self.country@ + ")"@
    }

    /// The text that stands for this entity: its name, and its country in
    /// brackets.
    pub fn to_string(&self) -> (r: String)
        ensures
            r@ == self.label(),
    {
        let mut text: String = self.name.clone();
        text.append(" (");
        text.append(self.country.as_str());
        text.append(")");
        text
    }
}

/// A place where funds are kept. `initial_balance` is a number of minor units
/// of `currency`.
pub struct Account {
    pub name: String,
    pub country: String,
    pub currency: Currency,
    pub account_type: AccountType,
    pub initial_balance: i64,
}

impl Account {
    /// An account with the given name, country, currency, kind and balance at
    /// its beginning.
    pub fn new(
        name: String,
        country: String,
        currency: Currency,
        account_type: AccountType,
        initial_balance: i64,
    ) -> (r: Account)
        ensures
            r.name == name,
            r.country == country,
            r.currency == currency,
            r.account_type == account_type,
            r.initial_balance == initial_balance,
    {
        Account { name, country, currency, account_type, initial_balance }
    }

    /// The name of this account.
    pub fn name(&self) -> (r: String)
        ensures
            r == self.name,
    {
        self.name.clone()
    }

    /// The country of this account.
    pub fn country(&self) -> (r: String)
        ensures
            r == self.country,
    {
        self.country.clone()
    }

    /// The currency of this account.
    pub fn currency(&self) -> (r: &Currency)
        ensures
            *r == self.currency,
    {
        &self.currency
    }

    /// The kind of this account.
    pub fn account_type(&self) -> (r: &AccountType)
        ensures
            *r == self.account_type,
    {
        &self.account_type
    }

    /// The balance of this account at its beginning, in minor units.
    pub fn initial_balance(&self) -> (r: i64)
        ensures
            r == self.initial_balance,
    {
        self.initial_balance
    }

    /// The text that stands for an account: its name, and its country and
    /// currency in brackets.
    pub open spec fn label(self) -> Seq<char> {
        self.name@ + " ("@ + self.country@ + ", "@ + self.currency.code_text() + ")"@
    }

    /// The text that stands for this account: its name, and its country and
    /// currency in brackets.
    pub fn to_string(&self) -> (r: String)
        ensures
            r@ == self.label(),
    {
        let mut text: String = self.name.clone();
        text.append(" (");
        text.append(self.country.as_str());
        text.append(", ");
        text.append(self.currency.code());
        text.append(")");
        text
    }
}

} // verus!
