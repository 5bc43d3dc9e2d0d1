//! The ledger as a whole: its six tables, the entering and removing of
//! parties, and the reports made from it.

use crate::calendar::Date;
use crate::currency_exchange::{amount_view, CurrencyExchange, ExchangeError, NormalizedPoint};
use crate::financial::{Account, Currency, Entity, Party, Transaction, TransactionType};
use crate::summaries::{
    amounts_within, converted_evolution, every_net_fits, expense_amounts, fund_amounts,
    incomes_between, is_bucketing_of, is_stand, is_summary_of, monthly_entries, stand_rows,
    summary_source, target_of, total_of, window_days, ExpenseSummary, FundStandRow,
};
use crate::summaries::{entries, points_view};
use crate::tables::{
    expense_categories, expense_subcategories, has_room, income_categories,
    income_subcategories, is_by_name, is_first_with_id, lemma_room_after_push, next_id_after,
    room_for, room_left, without_party,
    AccountRecord, AccountTable, EntityRecord, EntityTable, ExpenseRecord, ExpensesTable,
    FundMovementRecord, FundsTable, IncomeRecord, IncomeTable, PartyRecord, PartyTable, Record,
    Table,
};
use crate::reports::{csv_text, ReportTable};
use crate::text::lists_texts;
use crate::views::{
    expense_lines, fund_movements_table, income_lines, is_first_of, movement_columns,
    movement_lines, movement_rows, transaction_columns, transaction_rows, transactions_table,
    FundMovementLine, TransactionLine,
};
use vstd::prelude::*;
use vstd::string::StringExecFns;

verus! {

/// The number of records of a table.
pub struct TableSize {
    pub table: String,
    pub records: usize,
}

/// The ledger: incomes, expenses, movements of funds, the parties they were
/// entered in, and the entities and accounts they refer to.
pub struct DataBase {
    pub incomes_table: IncomeTable,
    pub expenses_table: ExpensesTable,
    pub funds_table: FundsTable,
    pub party_table: PartyTable,
    pub entity_table: EntityTable,
    pub account_table: AccountTable,
}

/// The incomes after the incomes among `transactions` were entered, in their
/// order, as part of the party `party_id`.
pub open spec fn with_incomes(
    rows: Seq<IncomeRecord>,
    transactions: Seq<Transaction>,
    party_id: i64,
) -> Seq<IncomeRecord>
    decreases transactions.len(),
{
    if transactions.len() == 0 {
        rows
    } else {
        let before = with_incomes(rows, transactions.drop_last(), party_id);
        if transactions.last() is Income {
            before.push(
                IncomeRecord::of(transactions.last(), next_id_after(before) as i64, party_id),
            )
        } else {
            before
        }
    }
}

/// The expenses after the expenses among `transactions` were entered, in
/// their order, as part of the party `party_id`.
pub open spec fn with_expenses(
    rows: Seq<ExpenseRecord>,
    transactions: Seq<Transaction>,
    party_id: i64,
) -> Seq<ExpenseRecord>
    decreases transactions.len(),
{
    if transactions.len() == 0 {
        rows
    } else {
        let before = with_expenses(rows, transactions.drop_last(), party_id);
        if transactions.last() is Expense {
            before.push(
                ExpenseRecord::of(transactions.last(), next_id_after(before) as i64, party_id),
            )
        } else {
            before
        }
    }
}

/// The movements of funds after the credits and debits among `transactions`
/// were entered, in their order, as part of the party `party_id`.
pub open spec fn with_movements(
    rows: Seq<FundMovementRecord>,
    transactions: Seq<Transaction>,
    party_id: i64,
) -> Seq<FundMovementRecord>
    decreases transactions.len(),
{
    if transactions.len() == 0 {
        rows
    } else {
        let before = with_movements(rows, transactions.drop_last(), party_id);
        if transactions.last() is Credit || transactions.last() is Debit {
            before.push(
                FundMovementRecord::of(transactions.last(), next_id_after(before) as i64, party_id),
            )
        } else {
            before
        }
    }
}

/// No debit among `transactions` has the smallest value that there is, which
/// has no opposite.
pub open spec fn debits_have_opposites(transactions: Seq<Transaction>) -> bool {
    forall|i: int|
        0 <= i < transactions.len() && (#[trigger] transactions[i]) is Debit
            ==> transactions[i].value_of() > i64::MIN
}

impl DataBase {
    /// The ledger holds no transaction and no party, and of entities and
    /// accounts only the one that stands for all that are not known, both
    /// entered on the same day.
    pub open spec fn is_new(self) -> bool {
        &&& self.incomes_table.rows@.len() == 0
        &&& self.expenses_table.rows@.len() == 0
        &&& self.funds_table.rows@.len() == 0
        &&& self.party_table.rows@.len() == 0
        &&& self.entity_table.rows@.len() == 1
        &&& self.entity_table.rows@[0].is_unknown()
        &&& self.account_table.rows@.len() == 1
        &&& self.account_table.rows@[0].is_unknown()
        &&& self.entity_table.rows@[0].creation_date == self.account_table.rows@[0].creation_date
    }

    /// A ledger without transactions, with the entity and the account that
    /// stand for all that are not known, entered today.
    pub fn new() -> (r: DataBase)
        ensures
            r.is_new(),
    {
        let today: Date = Date::today();
        DataBase {
            incomes_table: IncomeTable { rows: Vec::new() },
            expenses_table: ExpensesTable { rows: Vec::new() },
            funds_table: FundsTable { rows: Vec::new() },
            party_table: PartyTable { rows: Vec::new() },
            entity_table: EntityTable::starting_on(today),
            account_table: AccountTable::starting_on(today),
        }
    }

    /// The tables can take the transactions of `party` and the party itself.
    pub open spec fn can_take(self, party: Party) -> bool {
        &&& room_for(self.incomes_table.rows@, party.transactions@.len() as int)
        &&& room_for(self.expenses_table.rows@, party.transactions@.len() as int)
        &&& room_for(self.funds_table.rows@, party.transactions@.len() as int)
        &&& room_for(self.party_table.rows@, 1)
        &&& debits_have_opposites(party.transactions@)
    }

    /// True where the tables can take the transactions of `party` and the
    /// party itself.
    pub fn accepts(&self, party: &Party) -> (r: bool)
        ensures
            r == self.can_take(*party),
    {
        let count: usize = party.transactions.len();
        let mut opposites: bool = true;
        let mut i: usize = 0;
        while i < count
            invariant
                i <= count,
                count == party.transactions@.len(),
                opposites == debits_have_opposites(party.transactions@.take(i as int)),
            decreases count - i,
        {
            let transaction: &Transaction = &party.transactions[i];
            let fine: bool = match transaction {
                Transaction::Debit { value, .. } => *value > i64::MIN,
                _ => true,
            };
            proof {
                let shorter = party.transactions@.take(i as int);
                let longer = party.transactions@.take(i as int + 1);
                assert(longer[i as int] == *transaction);
                if opposites && fine {
                    assert forall|k: int| 0 <= k < longer.len() && (#[trigger] longer[k]) is Debit
                        implies longer[k].value_of() > i64::MIN by {
                        if k < i {
                            assert(shorter[k] == longer[k]);
                        }
                    }
                } else if !opposites {
                    let k = choose|k: int|
                        0 <= k < shorter.len() && (#[trigger] shorter[k]) is Debit && !(
                        shorter[k].value_of() > i64::MIN);
                    assert(longer[k] == shorter[k]);
                }
            }
            opposites = opposites && fine;
            i = i + 1;
        }
        proof {
            assert(party.transactions@.take(i as int) =~= party.transactions@);
        }
        room_left(&self.incomes_table.rows, count) && room_left(&self.expenses_table.rows, count)
            && room_left(&self.funds_table.rows, count) && room_left(&self.party_table.rows, 1)
            && opposites
    }

    /// Enters one transaction into the table of its kind, as part of the
    /// party `party_id`.
    pub fn insert_transaction(&mut self, transaction: &Transaction, party_id: i64)
        requires
            *transaction is Income ==> has_room(old(self).incomes_table.rows@),
            *transaction is Expense ==> has_room(old(self).expenses_table.rows@),
            *transaction is Credit || *transaction is Debit ==> has_room(
                old(self).funds_table.rows@,
            ),
            *transaction is Debit ==> transaction.value_of() > i64::MIN,
        ensures
            final(self).incomes_table.rows@ == with_incomes(
                old(self).incomes_table.rows@,
                seq![*transaction],
                party_id,
            ),
            final(self).expenses_table.rows@ == with_expenses(
                old(self).expenses_table.rows@,
                seq![*transaction],
                party_id,
            ),
            final(self).funds_table.rows@ == with_movements(
                old(self).funds_table.rows@,
                seq![*transaction],
                party_id,
            ),
            final(self).party_table == old(self).party_table,
            final(self).entity_table == old(self).entity_table,
            final(self).account_table == old(self).account_table,
    {
        proof {
            reveal_with_fuel(with_incomes, 2);
            reveal_with_fuel(with_expenses, 2);
            reveal_with_fuel(with_movements, 2);
            assert(seq![*transaction].drop_last() =~= Seq::<Transaction>::empty());
            assert(seq![*transaction].last() == *transaction);
        }
        match transaction {
            Transaction::Expense { .. } => self.expenses_table.insert_transaction(
                transaction,
                party_id,
            ),
            Transaction::Income { .. } => self.incomes_table.insert_transaction(
                transaction,
                party_id,
            ),
            Transaction::Credit { .. } | Transaction::Debit { .. } => {
                self.funds_table.insert_transaction(transaction, party_id)
            },
        }
    }

    /// Enters a party: each of its transactions into the table of its kind,
    /// all under the identifier that the party gets, and the party itself.
    pub fn insert_party(&mut self, party: &mut Party)
        requires
            old(self).can_take(*old(party)),
        ensures
            *final(party) == *old(party),
            final(self).incomes_table.rows@ == with_incomes(
                old(self).incomes_table.rows@,
                old(party).transactions@,
                next_id_after(old(self).party_table.rows@) as i64,
            ),
            final(self).expenses_table.rows@ == with_expenses(
                old(self).expenses_table.rows@,
                old(party).transactions@,
                next_id_after(old(self).party_table.rows@) as i64,
            ),
            final(self).funds_table.rows@ == with_movements(
                old(self).funds_table.rows@,
                old(party).transactions@,
                next_id_after(old(self).party_table.rows@) as i64,
            ),
            final(self).party_table.rows@ == old(self).party_table.rows@.push(
                PartyRecord {
                    party_id: next_id_after(old(self).party_table.rows@) as i64,
                    creation_date: old(party).creation_date,
                },
            ),
            final(self).entity_table == old(self).entity_table,
            final(self).account_table == old(self).account_table,
    {
        proof {
            lemma_room_after_push(self.party_table.rows@, 1);
        }
        let party_id: i64 = self.party_table.next_id();
        let ghost start = *self;
        let ghost all = party.transactions@;
        let n: usize = party.transactions.len();
        let mut i: usize = 0;
        while i < n
            invariant
                i <= n,
                n == all.len(),
                all == party.transactions@,
                debits_have_opposites(all),
                self.incomes_table.rows@ == with_incomes(
                    start.incomes_table.rows@,
                    all.take(i as int),
                    party_id,
                ),
                self.expenses_table.rows@ == with_expenses(
                    start.expenses_table.rows@,
                    all.take(i as int),
                    party_id,
                ),
                self.funds_table.rows@ == with_movements(
                    start.funds_table.rows@,
                    all.take(i as int),
                    party_id,
                ),
                room_for(self.incomes_table.rows@, n - i),
                room_for(self.expenses_table.rows@, n - i),
                room_for(self.funds_table.rows@, n - i),
                self.party_table == start.party_table,
                self.entity_table == start.entity_table,
                self.account_table == start.account_table,
            decreases n - i,
        {
            let transaction: &Transaction = &party.transactions[i];
            let ghost before = *self;
            proof {
                reveal_with_fuel(with_incomes, 2);
                reveal_with_fuel(with_expenses, 2);
                reveal_with_fuel(with_movements, 2);
                assert(all.take(i as int + 1).drop_last() =~= all.take(i as int));
                assert(all.take(i as int + 1).last() == *transaction);
                assert(seq![*transaction].drop_last() =~= Seq::<Transaction>::empty());
                assert(seq![*transaction].last() == *transaction);
                lemma_room_after_push(before.incomes_table.rows@, n - i);
                lemma_room_after_push(before.expenses_table.rows@, n - i);
                lemma_room_after_push(before.funds_table.rows@, n - i);
            }
            self.insert_transaction(transaction, party_id);
            i = i + 1;
        }
        proof {
            assert(all.take(i as int) =~= all);
        }
        self.party_table.insert_party(party);
    }

    /// The number of records of each table.
    pub fn size(&self) -> (r: Vec<TableSize>)
        ensures
            r@.len() == 6,
            r@[0].table@ == "income"@ && r@[0].records == self.incomes_table.rows@.len(),
            r@[1].table@ == "expenses"@ && r@[1].records == self.expenses_table.rows@.len(),
            r@[2].table@ == "funds"@ && r@[2].records == self.funds_table.rows@.len(),
            r@[3].table@ == "party"@ && r@[3].records == self.party_table.rows@.len(),
            r@[4].table@ == "entity"@ && r@[4].records == self.entity_table.rows@.len(),
            r@[5].table@ == "account"@ && r@[5].records == self.account_table.rows@.len(),
    {
        let mut r: Vec<TableSize> = Vec::new();
        r.push(TableSize { table: String::from_str("income"), records: self.incomes_table.rows.len() });
        r.push(
            TableSize { table: String::from_str("expenses"), records: self.expenses_table.rows.len() },
        );
        r.push(TableSize { table: String::from_str("funds"), records: self.funds_table.rows.len() });
        r.push(TableSize { table: String::from_str("party"), records: self.party_table.rows.len() });
        r.push(TableSize { table: String::from_str("entity"), records: self.entity_table.rows.len() });
        r.push(
            TableSize { table: String::from_str("account"), records: self.account_table.rows.len() },
        );
        r
    }

    /// Enters an entity, as of today, and returns its identifier.
    pub fn insert_entity(&mut self, entity: &Entity) -> (r: i64)
        requires
            has_room(old(self).entity_table.rows@),
        ensures
            r == next_id_after(old(self).entity_table.rows@),
            exists|date: Date|
                final(self).entity_table.rows@ == old(self).entity_table.rows@.push(
                    #[trigger] EntityRecord::of(*entity, r, date),
                ),
            final(self).incomes_table == old(self).incomes_table,
            final(self).expenses_table == old(self).expenses_table,
            final(self).funds_table == old(self).funds_table,
            final(self).party_table == old(self).party_table,
            final(self).account_table == old(self).account_table,
    {
        self.entity_table.insert_entity(entity)
    }

    /// Enters an account, as of today, and returns its identifier.
    pub fn insert_account(&mut self, account: &Account) -> (r: i64)
        requires
            has_room(old(self).account_table.rows@),
        ensures
            r == next_id_after(old(self).account_table.rows@),
            exists|date: Date|
                final(self).account_table.rows@ == old(self).account_table.rows@.push(
                    #[trigger] AccountRecord::of(*account, r, date),
                ),
            final(self).incomes_table == old(self).incomes_table,
            final(self).expenses_table == old(self).expenses_table,
            final(self).funds_table == old(self).funds_table,
            final(self).party_table == old(self).party_table,
            final(self).entity_table == old(self).entity_table,
    {
        self.account_table.insert_account(account)
    }

    /// The identifiers of the entities, arranged by name.
    pub fn iter_entity_ids(&self) -> (r: Vec<i64>)
        ensures
            is_by_name(
                r@,
                Seq::new(
                    self.entity_table.rows@.len(),
                    |i: int| self.entity_table.rows@[i].named(),
                ),
            ),
    {
        self.entity_table.iter()
    }

    /// The entity with the identifier `entity_id`, which the ledger holds.
    pub fn entity(&self, entity_id: i64) -> (r: Entity)
        requires
            exists|i: int|
                0 <= i < self.entity_table.rows@.len() && (
                #[trigger] self.entity_table.rows@[i]).id_of() == entity_id,
        ensures
            exists|at: int|
                is_first_with_id(self.entity_table.rows@, entity_id as int, at) && r == (
                #[trigger] self.entity_table.rows@[at]).as_entity(),
    {
        self.entity_table.entity(entity_id)
    }

    /// The identifiers of the accounts, arranged by name.
    pub fn iter_account_ids(&self) -> (r: Vec<i64>)
        ensures
            is_by_name(
                r@,
                Seq::new(
                    self.account_table.rows@.len(),
                    |i: int| self.account_table.rows@[i].named(),
                ),
            ),
    {
        self.account_table.iter()
    }

    /// The account with the identifier `account_id`, which the ledger holds.
    pub fn account(&self, account_id: i64) -> (r: Account)
        requires
            exists|i: int|
                0 <= i < self.account_table.rows@.len() && (
                #[trigger] self.account_table.rows@[i]).id_of() == account_id,
        ensures
            exists|at: int|
                is_first_with_id(self.account_table.rows@, account_id as int, at) && r == (
                #[trigger] self.account_table.rows@[at]).as_account(),
    {
        self.account_table.account(account_id)
    }

    /// True where a transaction in `currency` can move funds of the account
    /// `account_id`, which the ledger holds: where `currency` is the
    /// currency of the account.
    pub fn is_valid_transaction_currency(&self, currency: &Currency, account_id: i64) -> (r: bool)
        requires
            exists|i: int|
                0 <= i < self.account_table.rows@.len() && (
                #[trigger] self.account_table.rows@[i]).id_of() == account_id,
        ensures
            exists|at: int|
                is_first_with_id(self.account_table.rows@, account_id as int, at) && r == ((
                #[trigger] self.account_table.rows@[at]).currency == *currency),
    {
        let account: Account = self.account_table.account(account_id);
        proof {
            let at = choose|at: int|
                is_first_with_id(self.account_table.rows@, account_id as int, at) && account == (
                #[trigger] self.account_table.rows@[at]).as_account();
            assert(self.account_table.rows@[at].currency == account.currency);
        }
        account.currency == *currency
    }

    /// The countries of the entities, each once, in the order of texts.
    pub fn entity_countries(&self) -> (r: Vec<String>)
        ensures
            lists_texts(
                r@,
                Seq::new(
                    self.entity_table.rows@.len(),
                    |i: int| self.entity_table.rows@[i].country@,
                ),
            ),
    {
        self.entity_table.countries()
    }

    /// The countries of the accounts, each once, in the order of texts.
    pub fn account_countries(&self) -> (r: Vec<String>)
        ensures
            lists_texts(
                r@,
                Seq::new(
                    self.account_table.rows@.len(),
                    |i: int| self.account_table.rows@[i].country@,
                ),
            ),
    {
        self.account_table.countries()
    }

    /// The finer kinds of the entities, each once, in the order of texts.
    pub fn entity_subtypes(&self) -> (r: Vec<String>)
        ensures
            lists_texts(
                r@,
                Seq::new(
                    self.entity_table.rows@.len(),
                    |i: int| self.entity_table.rows@[i].entity_subtype@,
                ),
            ),
    {
        self.entity_table.subtypes()
    }

    /// The categories in use for a kind of transaction, each once, in the
    /// order of texts. Credits and debits have none.
    pub fn transaction_categories(&self, transaction_type: &TransactionType) -> (r: Vec<String>)
        ensures
            *transaction_type == TransactionType::Income ==> lists_texts(
                r@,
                income_categories(self.incomes_table.rows@),
            ),
            *transaction_type == TransactionType::Expense ==> lists_texts(
                r@,
                expense_categories(self.expenses_table.rows@),
            ),
            transaction_type.is_fund_change_kind() ==> r@.len() == 0,
    {
        match transaction_type {
            TransactionType::Income => self.incomes_table.categories(),
            TransactionType::Expense => self.expenses_table.categories(),
            _ => Vec::new(),
        }
    }

    /// The subcategories in use under a category for a kind of transaction,
    /// each once, in the order of texts. Credits and debits have none.
    pub fn transaction_subcategories(&self, transaction_type: &TransactionType, category: String) -> (r:
        Vec<String>)
        ensures
            *transaction_type == TransactionType::Income ==> lists_texts(
                r@,
                income_subcategories(self.incomes_table.rows@, category@),
            ),
            *transaction_type == TransactionType::Expense ==> lists_texts(
                r@,
                expense_subcategories(self.expenses_table.rows@, category@),
            ),
            transaction_type.is_fund_change_kind() ==> r@.len() == 0,
    {
        match transaction_type {
            TransactionType::Income => self.incomes_table.subcategories(category),
            TransactionType::Expense => self.expenses_table.subcategories(category),
            _ => Vec::new(),
        }
    }

    /// Takes a party out of the ledger: its incomes, expenses and movements
    /// of funds, and the party itself.
    pub fn delete_party(&mut self, party_id: i64)
        ensures
            final(self).incomes_table.rows@ == without_party(
                old(self).incomes_table.rows@,
                party_id as int,
            ),
            final(self).expenses_table.rows@ == without_party(
                old(self).expenses_table.rows@,
                party_id as int,
            ),
            final(self).funds_table.rows@ == without_party(
                old(self).funds_table.rows@,
                party_id as int,
            ),
            final(self).party_table.rows@ == without_party(
                old(self).party_table.rows@,
                party_id as int,
            ),
            final(self).entity_table == old(self).entity_table,
            final(self).account_table == old(self).account_table,
    {
        self.incomes_table.delete_party(party_id);
        self.expenses_table.delete_party(party_id);
        self.funds_table.delete_party(party_id);
        self.party_table.delete_party(party_id);
    }

    /// The `n` latest incomes and expenses, each with the name of its
    /// entity, as text with commas between the cells; see
    /// [`crate::views::last_transactions`].
    pub fn last_transactions(&self, n: usize) -> (r: String)
        ensures
            exists|lines: Seq<TransactionLine>|
                is_first_of(
                    lines,
                    income_lines(self.incomes_table.rows@, self.entity_table.rows@) + expense_lines(
                        self.expenses_table.rows@,
                        self.entity_table.rows@,
                    ),
                    n as int,
                ) && r@ == csv_text(transaction_columns(), #[trigger] transaction_rows(lines)),
    {
        let lines: Vec<TransactionLine> = crate::views::last_transactions(
            &self.incomes_table.rows,
            &self.expenses_table.rows,
            &self.entity_table.rows,
            n,
        );
        let table: ReportTable = transactions_table(&lines);
        let r: String = table.to_csv();
        proof {
            assert(r@ == csv_text(transaction_columns(), transaction_rows(lines@)));
        }
        r
    }

    /// The `n` latest movements of funds, each with the name of its account,
    /// as text with commas between the cells; see
    /// [`crate::views::last_fund_movements`].
    pub fn last_fund_movements(&self, n: usize) -> (r: String)
        ensures
            exists|lines: Seq<FundMovementLine>|
                is_first_of(
                    lines,
                    movement_lines(self.funds_table.rows@, self.account_table.rows@),
                    n as int,
                ) && r@ == csv_text(movement_columns(), #[trigger] movement_rows(lines)),
    {
        let lines: Vec<FundMovementLine> = crate::views::last_fund_movements(
            &self.funds_table.rows,
            &self.account_table.rows,
            n,
        );
        let table: ReportTable = fund_movements_table(&lines);
        let r: String = table.to_csv();
        proof {
            assert(r@ == csv_text(movement_columns(), movement_rows(lines@)));
        }
        r
    }

    /// The sum of the incomes of a period, in `currency_to`; see
    /// [`crate::summaries::total_income`].
    pub fn total_income(
        &self,
        exchange: &CurrencyExchange,
        date_from: Date,
        date_to: Date,
        currency_to: &Currency,
    ) -> (r: Result<i64, ExchangeError>)
        ensures
            amount_view(r) == total_of(
                exchange@,
                *currency_to,
                incomes_between(
                    self.incomes_table.rows@,
                    date_from.day_number(),
                    date_to.day_number(),
                ),
            ),
    {
        crate::summaries::total_income(
            &self.incomes_table.rows,
            exchange,
            date_from,
            date_to,
            currency_to,
        )
    }

    /// The total of all funds at the end of each day, in `currency_to`; see
    /// [`crate::summaries::funds_evolution`].
    pub fn funds_evolution(
        &self,
        exchange: &CurrencyExchange,
        currency_to: &Currency,
        window: Option<(Date, Date)>,
    ) -> (r: Result<Vec<NormalizedPoint>, ExchangeError>)
        ensures
            points_view(r) == converted_evolution(
                exchange@,
                *currency_to,
                amounts_within(
                    fund_amounts(self.funds_table.rows@, self.account_table.rows@),
                    window_days(window),
                ),
            ),
    {
        crate::summaries::funds_evolution(
            &self.funds_table.rows,
            &self.account_table.rows,
            exchange,
            currency_to,
            window,
        )
    }

    /// The expenses of each month, in `currency_to`; see
    /// [`crate::summaries::monthly_expenses`].
    pub fn monthly_expenses(
        &self,
        exchange: &CurrencyExchange,
        currency_to: &Currency,
        window: Option<(Date, Date)>,
    ) -> (r: Result<Vec<NormalizedPoint>, ExchangeError>)
        ensures
            monthly_entries(
                exchange@,
                *currency_to,
                amounts_within(expense_amounts(self.expenses_table.rows@), window_days(window)),
            ) matches Err(error) ==> r == Err::<Vec<NormalizedPoint>, ExchangeError>(error),
            monthly_entries(
                exchange@,
                *currency_to,
                amounts_within(expense_amounts(self.expenses_table.rows@), window_days(window)),
            ) matches Ok(monthly) ==> (r.is_ok() <==> every_net_fits(monthly)),
            monthly_entries(
                exchange@,
                *currency_to,
                amounts_within(expense_amounts(self.expenses_table.rows@), window_days(window)),
            ) matches Ok(monthly) ==> (r matches Ok(rows) ==> is_bucketing_of(
                entries(rows@),
                monthly,
            )),
            monthly_entries(
                exchange@,
                *currency_to,
                amounts_within(expense_amounts(self.expenses_table.rows@), window_days(window)),
            ) is Ok ==> (r matches Err(error) ==> error == ExchangeError::AmountOverflow),
    {
        crate::summaries::monthly_expenses(
            &self.expenses_table.rows,
            exchange,
            currency_to,
            window,
        )
    }

    /// What each account holds today; see
    /// [`crate::summaries::current_fund_stand`].
    pub fn current_fund_stand(&self, exchange: &CurrencyExchange, currency_to: Option<&Currency>) -> (r:
        Result<Vec<FundStandRow>, ExchangeError>)
        ensures
            exists|on: Date|
                is_stand(
                    r,
                    #[trigger] stand_rows(
                        exchange@,
                        target_of(currency_to),
                        self.account_table.rows@,
                        self.funds_table.rows@,
                        on,
                    ),
                ),
    {
        crate::summaries::current_fund_stand(
            &self.account_table.rows,
            &self.funds_table.rows,
            exchange,
            currency_to,
        )
    }

    /// The expenses of a period by category and subcategory; see
    /// [`crate::summaries::expenses_summary`].
    pub fn expenses_summary(
        &self,
        exchange: &CurrencyExchange,
        date_from: Date,
        date_to: Date,
        currency_to: &Currency,
    ) -> (r: Result<ExpenseSummary, ExchangeError>)
        ensures
            summary_source(
                exchange@,
                *currency_to,
                self.incomes_table.rows@,
                self.expenses_table.rows@,
                date_from.day_number(),
                date_to.day_number(),
            ) matches Err(error) ==> r is Err && r->Err_0 == error,
            summary_source(
                exchange@,
                *currency_to,
                self.incomes_table.rows@,
                self.expenses_table.rows@,
                date_from.day_number(),
                date_to.day_number(),
            ) matches Ok(source) ==> r is Ok && is_summary_of(r->Ok_0, source.1, source.0),
    {
        crate::summaries::expenses_summary(
            &self.expenses_table.rows,
            &self.incomes_table.rows,
            exchange,
            date_from,
            date_to,
            currency_to,
        )
    }
}

impl Default for DataBase {
    fn default() -> (r: DataBase)
        ensures
            r.is_new(),
    {
        DataBase::new()
    }
}

} // verus!
