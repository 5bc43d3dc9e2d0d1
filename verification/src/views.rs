//! The latest entries of the ledger: transactions with the name of their
//! entity, movements of funds with the name of their account.

use crate::calendar::{iso_text, Date};
use crate::financial::{Currency, TransactionType};
use crate::ranking::{in_rank_order, sort_by_rank, Ranked};
use crate::reports::{hundredths, line_views, ReportTable};
use crate::tables::{
    AccountRecord, EntityRecord, ExpenseRecord, FundMovementRecord, FundMovementType,
    IncomeRecord,
};
use crate::text::{hundredths_text, integer, integer_text, views};
use vstd::prelude::*;
use vstd::string::StringExecFns;

verus! {

/// An income or an expense with the name of its entity.
pub struct TransactionLine {
    pub kind: TransactionType,
    pub date: Date,
    pub value: i64,
    pub currency: Currency,
    pub entity_name: String,
    pub category: String,
    pub subcategory: String,
    pub description: String,
    pub party_id: i64,
}

impl Ranked for TransactionLine {
    /// The later date first, and on one day the larger party first.
    open spec fn ranks_before(&self, other: &Self) -> bool {
        self.date.day_number() > other.date.day_number() || (self.date.day_number()
            == other.date.day_number() && self.party_id > other.party_id)
    }

    proof fn lemma_rank_is_irreflexive(a: &Self) {
    }

    proof fn lemma_rank_is_transitive(a: &Self, b: &Self, c: &Self) {
    }

    fn is_ranked_before(&self, other: &Self) -> (r: bool) {
        let mine: i32 = self.date.days();
        let theirs: i32 = other.date.days();
        mine > theirs || (mine == theirs && self.party_id > other.party_id)
    }
}

/// A movement of funds with the name of its account.
pub struct FundMovementLine {
    pub kind: FundMovementType,
    pub date: Date,
    pub value: i64,
    pub currency: Currency,
    pub account_name: String,
    pub party_id: i64,
}

impl Ranked for FundMovementLine {
    /// The later date first, and on one day the larger party first.
    open spec fn ranks_before(&self, other: &Self) -> bool {
        self.date.day_number() > other.date.day_number() || (self.date.day_number()
            == other.date.day_number() && self.party_id > other.party_id)
    }

    proof fn lemma_rank_is_irreflexive(a: &Self) {
    }

    proof fn lemma_rank_is_transitive(a: &Self, b: &Self, c: &Self) {
    }

    fn is_ranked_before(&self, other: &Self) -> (r: bool) {
        let mine: i32 = self.date.days();
        let theirs: i32 = other.date.days();
        mine > theirs || (mine == theirs && self.party_id > other.party_id)
    }
}

/// `shown` are the first `n` of `candidates` in rank order, or all of them
/// where there are fewer.
pub open spec fn is_first_of<T: Ranked>(shown: Seq<T>, candidates: Seq<T>, n: int) -> bool {
    exists|sorted: Seq<T>|
        #![trigger in_rank_order(sorted)]
        in_rank_order(sorted) && sorted.to_multiset() == candidates.to_multiset() && shown
            == sorted.take(
            if n < sorted.len() {
                n
            } else {
                sorted.len() as int
            },
        )
}

/// The first `n` of `candidates` in rank order.
pub fn first_of<T: Ranked>(candidates: Vec<T>, n: usize) -> (r: Vec<T>)
    ensures
        is_first_of(r@, candidates@, n as int),
{
    let mut sorted: Vec<T> = sort_by_rank(candidates);
    let ghost whole = sorted@;
    if n < sorted.len() {
        sorted.truncate(n);
    }
    proof {
        let kept = if (n as int) < whole.len() {
            n as int
        } else {
            whole.len() as int
        };
        assert(sorted@ =~= whole.take(kept));
    }
    sorted
}

/// The line of an income with the name of an entity.
pub open spec fn income_line(row: IncomeRecord, entity: EntityRecord) -> TransactionLine {
    TransactionLine {
        kind: TransactionType::Income,
        date: row.date,
        value: row.value,
        currency: row.currency,
        entity_name: entity.name,
        category: row.category,
        subcategory: row.subcategory,
        description: row.description,
        party_id: row.party_id,
    }
}

/// The line of an expense with the name of an entity.
pub open spec fn expense_line(row: ExpenseRecord, entity: EntityRecord) -> TransactionLine {
    TransactionLine {
        kind: TransactionType::Expense,
        date: row.date,
        value: row.value,
        currency: row.currency,
        entity_name: entity.name,
        category: row.category,
        subcategory: row.subcategory,
        description: row.description,
        party_id: row.party_id,
    }
}

/// The line of a movement with the name of an account.
pub open spec fn movement_line(row: FundMovementRecord, account: AccountRecord) -> FundMovementLine {
    FundMovementLine {
        kind: row.fund_movement_type,
        date: row.date,
        value: row.value,
        currency: row.currency,
        account_name: account.name,
        party_id: row.party_id,
    }
}

/// The lines of one income: one for each entity that has its identifier.
pub open spec fn lines_of_income(row: IncomeRecord, entities: Seq<EntityRecord>) -> Seq<TransactionLine>
    decreases entities.len(),
{
    if entities.len() == 0 {
        Seq::empty()
    } else {
        let before = lines_of_income(row, entities.drop_last());
        if entities.last().entity_id == row.entity_id {
            before.push(income_line(row, entities.last()))
        } else {
            before
        }
    }
}

/// The lines of one expense: one for each entity that has its identifier.
pub open spec fn lines_of_expense(row: ExpenseRecord, entities: Seq<EntityRecord>) -> Seq<
    TransactionLine,
>
    decreases entities.len(),
{
    if entities.len() == 0 {
        Seq::empty()
    } else {
        let before = lines_of_expense(row, entities.drop_last());
        if entities.last().entity_id == row.entity_id {
            before.push(expense_line(row, entities.last()))
        } else {
            before
        }
    }
}

/// The lines of one movement: one for each account that has its identifier.
pub open spec fn lines_of_movement(row: FundMovementRecord, accounts: Seq<AccountRecord>) -> Seq<
    FundMovementLine,
>
    decreases accounts.len(),
{
    if accounts.len() == 0 {
        Seq::empty()
    } else {
        let before = lines_of_movement(row, accounts.drop_last());
        if accounts.last().account_id == row.account_id {
            before.push(movement_line(row, accounts.last()))
        } else {
            before
        }
    }
}

/// The lines of all incomes, in the order of the table.
pub open spec fn income_lines(rows: Seq<IncomeRecord>, entities: Seq<EntityRecord>) -> Seq<
    TransactionLine,
>
    decreases rows.len(),
{
    if rows.len() == 0 {
        Seq::empty()
    } else {
        income_lines(rows.drop_last(), entities) + lines_of_income(rows.last(), entities)
    }
}

/// The lines of all expenses, in the order of the table.
pub open spec fn expense_lines(rows: Seq<ExpenseRecord>, entities: Seq<EntityRecord>) -> Seq<
    TransactionLine,
>
    decreases rows.len(),
{
    if rows.len() == 0 {
        Seq::empty()
    } else {
        expense_lines(rows.drop_last(), entities) + lines_of_expense(rows.last(), entities)
    }
}

/// The lines of all movements, in the order of the table.
pub open spec fn movement_lines(rows: Seq<FundMovementRecord>, accounts: Seq<AccountRecord>) -> Seq<
    FundMovementLine,
>
    decreases rows.len(),
{
    if rows.len() == 0 {
        Seq::empty()
    } else {
        movement_lines(rows.drop_last(), accounts) + lines_of_movement(rows.last(), accounts)
    }
}

/// The `n` latest incomes and expenses, each with the name of its entity. A
/// transaction whose entity the ledger does not hold is not shown.
pub fn last_transactions(
    incomes: &Vec<IncomeRecord>,
    expenses: &Vec<ExpenseRecord>,
    entities: &Vec<EntityRecord>,
    n: usize,
) -> (r: Vec<TransactionLine>)
    ensures
        is_first_of(
            r@,
            income_lines(incomes@, entities@) + expense_lines(expenses@, entities@),
            n as int,
        ),
{
    let mut lines: Vec<TransactionLine> = Vec::new();
    let mut i: usize = 0;
    while i < incomes.len()
        invariant
            i <= incomes.len(),
            lines@ == income_lines(incomes@.take(i as int), entities@),
        decreases incomes.len() - i,
    {
        let row: &IncomeRecord = &incomes[i];
        let ghost before = lines@;
        proof {
            assert(incomes@.take(i as int + 1).drop_last() =~= incomes@.take(i as int));
        }
        let mut j: usize = 0;
        while j < entities.len()
            invariant
                j <= entities.len(),
                lines@ == before + lines_of_income(*row, entities@.take(j as int)),
            decreases entities.len() - j,
        {
            proof {
                assert(entities@.take(j as int + 1).drop_last() =~= entities@.take(j as int));
            }
            if entities[j].entity_id == row.entity_id {
                lines.push(
                    TransactionLine {
                        kind: TransactionType::Income,
                        date: row.date,
                        value: row.value,
                        currency: row.currency,
                        entity_name: entities[j].name.clone(),
                        category: row.category.clone(),
                        subcategory: row.subcategory.clone(),
                        description: row.description.clone(),
                        party_id: row.party_id,
                    },
                );
            }
            j = j + 1;
        }
        proof {
            assert(entities@.take(j as int) =~= entities@);
        }
        i = i + 1;
    }
    proof {
        assert(incomes@.take(i as int) =~= incomes@);
    }
    let ghost earned = lines@;
    let mut k: usize = 0;
    while k < expenses.len()
        invariant
            k <= expenses.len(),
            lines@ == earned + expense_lines(expenses@.take(k as int), entities@),
        decreases expenses.len() - k,
    {
        let row: &ExpenseRecord = &expenses[k];
        let ghost before = lines@;
        proof {
            assert(expenses@.take(k as int + 1).drop_last() =~= expenses@.take(k as int));
        }
        let mut j: usize = 0;
        while j < entities.len()
            invariant
                j <= entities.len(),
                lines@ == before + lines_of_expense(*row, entities@.take(j as int)),
            decreases entities.len() - j,
        {
            proof {
                assert(entities@.take(j as int + 1).drop_last() =~= entities@.take(j as int));
            }
            if entities[j].entity_id == row.entity_id {
                lines.push(
                    TransactionLine {
                        kind: TransactionType::Expense,
                        date: row.date,
                        value: row.value,
                        currency: row.currency,
                        entity_name: entities[j].name.clone(),
                        category: row.category.clone(),
                        subcategory: row.subcategory.clone(),
                        description: row.description.clone(),
                        party_id: row.party_id,
                    },
                );
            }
            j = j + 1;
        }
        proof {
            assert(entities@.take(j as int) =~= entities@);
        }
        k = k + 1;
    }
    proof {
        assert(expenses@.take(k as int) =~= expenses@);
    }
    first_of(lines, n)
}

/// The `n` latest movements of funds, each with the name of its account. A
/// movement whose account the ledger does not hold is not shown.
pub fn last_fund_movements(
    movements: &Vec<FundMovementRecord>,
    accounts: &Vec<AccountRecord>,
    n: usize,
) -> (r: Vec<FundMovementLine>)
    ensures
        is_first_of(r@, movement_lines(movements@, accounts@), n as int),
{
    let mut lines: Vec<FundMovementLine> = Vec::new();
    let mut i: usize = 0;
    while i < movements.len()
        invariant
            i <= movements.len(),
            lines@ == movement_lines(movements@.take(i as int), accounts@),
        decreases movements.len() - i,
    {
        let row: FundMovementRecord = movements[i];
        let ghost before = lines@;
        proof {
            assert(movements@.take(i as int + 1).drop_last() =~= movements@.take(i as int));
        }
        let mut j: usize = 0;
        while j < accounts.len()
            invariant
                j <= accounts.len(),
                lines@ == before + lines_of_movement(row, accounts@.take(j as int)),
            decreases accounts.len() - j,
        {
            proof {
                assert(accounts@.take(j as int + 1).drop_last() =~= accounts@.take(j as int));
            }
            if accounts[j].account_id == row.account_id {
                lines.push(
                    FundMovementLine {
                        kind: row.fund_movement_type,
                        date: row.date,
                        value: row.value,
                        currency: row.currency,
                        account_name: accounts[j].name.clone(),
                        party_id: row.party_id,
                    },
                );
            }
            j = j + 1;
        }
        proof {
            assert(accounts@.take(j as int) =~= accounts@);
        }
        i = i + 1;
    }
    proof {
        assert(movements@.take(i as int) =~= movements@);
    }
    first_of(lines, n)
}

/// The cells of a line of the latest transactions.
pub open spec fn transaction_cells(line: TransactionLine) -> Seq<Seq<char>> {
    seq![
        line.kind.name_text(),
        iso_text(line.date.day_number()),
        hundredths_text(line.value as int),
        line.currency.code_text(),
        line.entity_name@,
        line.category@,
        line.subcategory@,
        line.description@,
        integer_text(line.party_id as int),
    ]
}

/// The names of the columns of the latest transactions.
pub open spec fn transaction_columns() -> Seq<Seq<char>> {
    seq![
        "Type"@,
        "Date"@,
        "Value"@,
        "Currency"@,
        "Entity Name"@,
        "Category"@,
        "Subcategory"@,
        "Description"@,
        "Party Id"@,
    ]
}

/// The cells of the lines of the latest transactions.
pub open spec fn transaction_rows(lines: Seq<TransactionLine>) -> Seq<Seq<Seq<char>>> {
    Seq::new(lines.len(), |i: int| transaction_cells(lines[i]))
}

/// The latest transactions as a table.
pub fn transactions_table(lines: &Vec<TransactionLine>) -> (r: ReportTable)
    ensures
        views(r.columns@) == transaction_columns(),
        line_views(r.rows@) == transaction_rows(lines@),
{
    let mut columns: Vec<String> = Vec::new();
    columns.push(String::from_str("Type"));
    columns.push(String::from_str("Date"));
    columns.push(String::from_str("Value"));
    columns.push(String::from_str("Currency"));
    columns.push(String::from_str("Entity Name"));
    columns.push(String::from_str("Category"));
    columns.push(String::from_str("Subcategory"));
    columns.push(String::from_str("Description"));
    columns.push(String::from_str("Party Id"));
    proof {
        assert(views(columns@) =~= transaction_columns());
    }
    let mut rows: Vec<Vec<String>> = Vec::new();
    let mut i: usize = 0;
    while i < lines.len()
        invariant
            i <= lines.len(),
            rows@.len() == i,
            forall|k: int| 0 <= k < i ==> views((#[trigger] rows@[k])@) == transaction_cells(
                lines@[k],
            ),
        decreases lines.len() - i,
    {
        let line: &TransactionLine = &lines[i];
        let mut cells: Vec<String> = Vec::new();
        cells.push(line.kind.to_string());
        cells.push(line.date.to_text());
        cells.push(hundredths(line.value as i128));
        cells.push(line.currency.to_string());
        cells.push(line.entity_name.clone());
        cells.push(line.category.clone());
        cells.push(line.subcategory.clone());
        cells.push(line.description.clone());
        cells.push(integer(line.party_id));
        proof {
            assert(views(cells@) =~= transaction_cells(*line));
        }
        rows.push(cells);
        i = i + 1;
    }
    proof {
        assert(line_views(rows@) =~= transaction_rows(lines@));
    }
    ReportTable { columns, rows }
}

/// The name of a direction of movement.
pub open spec fn movement_name(kind: FundMovementType) -> Seq<char> {
    match kind {
        FundMovementType::Credit => "Credit"@,
        FundMovementType::Debit => "Debit"@,
    }
}

/// The cells of a line of the latest movements of funds.
pub open spec fn movement_cells(line: FundMovementLine) -> Seq<Seq<char>> {
    seq![
        movement_name(line.kind),
        iso_text(line.date.day_number()),
        hundredths_text(line.value as int),
        line.currency.code_text(),
        line.account_name@,
        integer_text(line.party_id as int),
    ]
}

/// The names of the columns of the latest movements of funds.
pub open spec fn movement_columns() -> Seq<Seq<char>> {
    seq!["Fund Movement Type"@, "Date"@, "Value"@, "Currency"@, "Account Name"@, "Party Id"@]
}

/// The cells of the lines of the latest movements of funds.
pub open spec fn movement_rows(lines: Seq<FundMovementLine>) -> Seq<Seq<Seq<char>>> {
    Seq::new(lines.len(), |i: int| movement_cells(lines[i]))
}

/// The latest movements of funds as a table.
pub fn fund_movements_table(lines: &Vec<FundMovementLine>) -> (r: ReportTable)
    ensures
        views(r.columns@) == movement_columns(),
        line_views(r.rows@) == movement_rows(lines@),
{
    let mut columns: Vec<String> = Vec::new();
    columns.push(String::from_str("Fund Movement Type"));
    columns.push(String::from_str("Date"));
    columns.push(String::from_str("Value"));
    columns.push(String::from_str("Currency"));
    columns.push(String::from_str("Account Name"));
    columns.push(String::from_str("Party Id"));
    proof {
        assert(views(columns@) =~= movement_columns());
    }
    let mut rows: Vec<Vec<String>> = Vec::new();
    let mut i: usize = 0;
    while i < lines.len()
        invariant
            i <= lines.len(),
            rows@.len() == i,
            forall|k: int| 0 <= k < i ==> views((#[trigger] rows@[k])@) == movement_cells(
                lines@[k],
            ),
        decreases lines.len() - i,
    {
        let line: &FundMovementLine = &lines[i];
        let mut cells: Vec<String> = Vec::new();
        cells.push(
            match line.kind {
                FundMovementType::Credit => String::from_str("Credit"),
                FundMovementType::Debit => String::from_str("Debit"),
            },
        );
        cells.push(line.date.to_text());
        cells.push(hundredths(line.value as i128));
        cells.push(line.currency.to_string());
        cells.push(line.account_name.clone());
        cells.push(integer(line.party_id));
        proof {
            assert(views(cells@) =~= movement_cells(*line));
        }
        rows.push(cells);
        i = i + 1;
    }
    proof {
        assert(line_views(rows@) =~= movement_rows(lines@));
    }
    ReportTable { columns, rows }
}

} // verus!
