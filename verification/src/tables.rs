//! The tables of the ledger: incomes, expenses, fund movements, parties,
//! entities and accounts, each a list of records with a running identifier.

use crate::calendar::Date;
use crate::currency_exchange::DatedAmount;
use crate::financial::{Account, AccountType, Currency, Entity, EntityType, Party, Transaction};
use crate::ranking::{in_rank_order, sort_by_rank, Ranked};
use crate::text::{
    distinct_texts, lemma_bytes_precede_irreflexive, lemma_bytes_precede_transitive,
    lists_texts, text_precedes,
};
use vstd::prelude::*;
use vstd::string::StringExecFns;

verus! {

/// An income as the income table holds it. `value` is a number of minor units.
pub struct IncomeRecord {
    pub income_id: i64,
    pub value: i64,
    pub currency: Currency,
    pub date: Date,
    pub category: String,
    pub subcategory: String,
    pub description: String,
    pub entity_id: i64,
    pub party_id: i64,
}

/// An expense as the expense table holds it. `value` is a number of minor
/// units.
pub struct ExpenseRecord {
    pub expense_id: i64,
    pub value: i64,
    pub currency: Currency,
    pub date: Date,
    pub category: String,
    pub subcategory: String,
    pub description: String,
    pub entity_id: i64,
    pub party_id: i64,
}

/// The two directions in which funds move.
#[derive(Clone, Copy, Debug, PartialEq, Eq, Structural, Hash)]
pub enum FundMovementType {
    Credit,
    Debit,
}

/// A movement of funds as the funds table holds it. `value` carries its sign:
/// a credit adds to the account and is positive, a debit takes from it and is
/// negative.
#[derive(Clone, Copy, Debug, PartialEq, Eq, Structural)]
pub struct FundMovementRecord {
    pub fund_movement_id: i64,
    pub fund_movement_type: FundMovementType,
    pub value: i64,
    pub currency: Currency,
    pub date: Date,
    pub account_id: i64,
    pub party_id: i64,
}

/// A party as the party table holds it.
#[derive(Clone, Copy, Debug, PartialEq, Eq, Structural)]
pub struct PartyRecord {
    pub party_id: i64,
    pub creation_date: Date,
}

/// An entity as the entity table holds it.
pub struct EntityRecord {
    pub entity_id: i64,
    pub name: String,
    pub country: String,
    pub entity_type: EntityType,
    pub entity_subtype: String,
    pub creation_date: Date,
}

/// An account as the account table holds it. `initial_balance` is a number of
/// minor units of `currency`, held on `creation_date`.
pub struct AccountRecord {
    pub account_id: i64,
    pub name: String,
    pub country: String,
    pub currency: Currency,
    pub account_type: AccountType,
    pub initial_balance: i64,
    pub creation_date: Date,
}

impl IncomeRecord {
    /// The amount of an income, with its date and currency.
    pub open spec fn amount_of(self) -> DatedAmount {
        DatedAmount { date: self.date, currency: self.currency, value: self.value }
    }

    /// The amount of this income, with its date and currency.
    pub fn amount(&self) -> (r: DatedAmount)
        ensures
            r == self.amount_of(),
    {
        DatedAmount { date: self.date, currency: self.currency, value: self.value }
    }
}

impl ExpenseRecord {
    /// The amount of an expense, with its date and currency.
    pub open spec fn amount_of(self) -> DatedAmount {
        DatedAmount { date: self.date, currency: self.currency, value: self.value }
    }

    /// The amount of this expense, with its date and currency.
    pub fn amount(&self) -> (r: DatedAmount)
        ensures
            r == self.amount_of(),
    {
        DatedAmount { date: self.date, currency: self.currency, value: self.value }
    }
}

impl FundMovementRecord {
    /// The amount of a movement, signed, with its date and currency.
    pub open spec fn amount_of(self) -> DatedAmount {
        DatedAmount { date: self.date, currency: self.currency, value: self.value }
    }

    /// The amount of this movement, signed, with its date and currency.
    pub fn amount(&self) -> (r: DatedAmount)
        ensures
            r == self.amount_of(),
    {
        DatedAmount { date: self.date, currency: self.currency, value: self.value }
    }
}

impl AccountRecord {
    /// The balance of an account at its beginning, dated on the day the
    /// account was entered.
    pub open spec fn opening_of(self) -> DatedAmount {
        DatedAmount { date: self.creation_date, currency: self.currency, value: self.initial_balance }
    }

    /// The balance of this account at its beginning, dated on the day the
    /// account was entered.
    pub fn opening(&self) -> (r: DatedAmount)
        ensures
            r == self.opening_of(),
    {
        DatedAmount { date: self.creation_date, currency: self.currency, value: self.initial_balance }
    }
}

/// A record with an identifier.
pub trait Record: Sized {
    /// The identifier of a record.
    spec fn id_of(&self) -> int;

    /// The identifier of this record.
    fn id(&self) -> (r: i64)
        ensures
            r == self.id_of(),
    ;

    /// A second record with the same content.
    fn duplicate(&self) -> (r: Self)
        ensures
            r == *self,
    ;
}

/// A record that belongs to a party.
pub trait PartyMember: Record {
    /// The identifier of the party of a record.
    spec fn party_of(&self) -> int;

    /// The identifier of the party of this record.
    fn party(&self) -> (r: i64)
        ensures
            r == self.party_of(),
    ;
}

/// The largest identifier of `rows`, which hold at least one record.
pub open spec fn largest_id<R: Record>(rows: Seq<R>) -> int
    decreases rows.len(),
{
    if rows.len() <= 1 {
        rows[0].id_of()
    } else if rows.last().id_of() > largest_id(rows.drop_last()) {
        rows.last().id_of()
    } else {
        largest_id(rows.drop_last())
    }
}

/// The identifier that the next record gets: 0 in an empty table, else one
/// more than the largest identifier in it.
pub open spec fn next_id_after<R: Record>(rows: Seq<R>) -> int {
    if rows.len() == 0 {
        0
    } else {
        largest_id(rows) + 1
    }
}

/// There is an identifier left for one more record: none of `rows` has the
/// largest identifier that there is.
pub open spec fn has_room<R: Record>(rows: Seq<R>) -> bool {
    forall|i: int| 0 <= i < rows.len() ==> (#[trigger] rows[i]).id_of() < i64::MAX
}

/// The largest identifier is that of a record, where there is one, and no
/// record has a larger one.
pub proof fn lemma_largest_id<R: Record>(rows: Seq<R>)
    requires
        rows.len() > 0,
    ensures
        forall|i: int| 0 <= i < rows.len() ==> (#[trigger] rows[i]).id_of() <= largest_id(rows),
        exists|i: int| 0 <= i < rows.len() && (#[trigger] rows[i]).id_of() == largest_id(rows),
    decreases rows.len(),
{
    if rows.len() > 1 {
        let shorter = rows.drop_last();
        lemma_largest_id(shorter);
        assert forall|i: int| 0 <= i < rows.len() implies (#[trigger] rows[i]).id_of() <= largest_id(
            rows,
        ) by {
            if i < shorter.len() {
                assert(shorter[i] == rows[i]);
            }
        }
        if largest_id(rows) == largest_id(shorter) {
            let i = choose|i: int|
                0 <= i < shorter.len() && (#[trigger] shorter[i]).id_of() == largest_id(shorter);
            assert(rows[i] == shorter[i]);
        } else {
            assert(rows[rows.len() - 1].id_of() == largest_id(rows));
        }
    } else {
        assert(rows[0].id_of() == largest_id(rows));
    }
}

/// There are identifiers left for `count` more records: counting on from the
/// next identifier, the last of them still fits.
pub open spec fn room_for<R: Record>(rows: Seq<R>, count: int) -> bool {
    next_id_after(rows) + count <= i64::MAX + 1
}

/// After a record was entered under the next identifier, there is room for
/// one record less.
pub proof fn lemma_room_after_push<R: Record>(rows: Seq<R>, count: int)
    requires
        room_for(rows, count),
        count >= 1,
    ensures
        has_room(rows),
        forall|row: R|
            row.id_of() == next_id_after(rows) ==> room_for(#[trigger] rows.push(row), count - 1),
{
    if rows.len() > 0 {
        lemma_largest_id(rows);
    }
    assert forall|row: R| row.id_of() == next_id_after(rows) implies room_for(
        #[trigger] rows.push(row),
        count - 1,
    ) by {
        let longer = rows.push(row);
        assert(longer.drop_last() =~= rows);
        assert(longer.last() == row);
        assert(longer[0] == if rows.len() == 0 {
            row
        } else {
            rows[0]
        });
        assert(largest_id(longer) == row.id_of());
    }
}

/// True where there are identifiers left for `count` more records.
pub fn room_left<R: Record>(rows: &Vec<R>, count: usize) -> (r: bool)
    ensures
        r == room_for(rows@, count as int),
{
    if rows.len() == 0 {
        return count as u128 <= 0x8000_0000_0000_0000;
    }
    let mut largest: i64 = rows[0].id();
    let mut i: usize = 1;
    while i < rows.len()
        invariant
            1 <= i <= rows.len(),
            largest == largest_id(rows@.take(i as int)),
        decreases rows.len() - i,
    {
        proof {
            assert(rows@.take(i as int + 1).drop_last() =~= rows@.take(i as int));
        }
        let id: i64 = rows[i].id();
        if id > largest {
            largest = id;
        }
        i = i + 1;
    }
    proof {
        assert(rows@.take(i as int) =~= rows@);
    }
    largest as i128 + 1 + count as i128 <= 0x8000_0000_0000_0000
}

/// The identifier for the next record of `rows`.
pub fn next_id_of<R: Record>(rows: &Vec<R>) -> (r: i64)
    requires
        has_room(rows@),
    ensures
        r == next_id_after(rows@),
        forall|i: int| 0 <= i < rows@.len() ==> (#[trigger] rows@[i]).id_of() < r,
{
    if rows.len() == 0 {
        return 0;
    }
    let mut largest: i64 = rows[0].id();
    let mut i: usize = 1;
    while i < rows.len()
        invariant
            1 <= i <= rows.len(),
            has_room(rows@),
            largest == largest_id(rows@.take(i as int)),
            largest < i64::MAX,
        decreases rows.len() - i,
    {
        proof {
            assert(rows@.take(i as int + 1).drop_last() =~= rows@.take(i as int));
        }
        let id: i64 = rows[i].id();
        if id > largest {
            largest = id;
        }
        i = i + 1;
    }
    proof {
        assert(rows@.take(i as int) =~= rows@);
        lemma_largest_id(rows@);
    }
    largest + 1
}

/// The place of the first record of `rows` with the identifier `id`.
pub fn find_by_id<R: Record>(rows: &Vec<R>, id: i64) -> (r: Option<usize>)
    ensures
        r.is_some() <==> exists|i: int| 0 <= i < rows@.len() && (#[trigger] rows@[i]).id_of() == id,
        r matches Some(at) ==> at < rows@.len() && rows@[at as int].id_of() == id && forall|i: int|
            0 <= i < at ==> (#[trigger] rows@[i]).id_of() != id,
{
    let mut i: usize = 0;
    while i < rows.len()
        invariant
            i <= rows.len(),
            forall|k: int| 0 <= k < i ==> (#[trigger] rows@[k]).id_of() != id,
        decreases rows.len() - i,
    {
        if rows[i].id() == id {
            return Some(i);
        }
        i = i + 1;
    }
    None
}

/// The records of `rows` that do not belong to the party `party`, in their
/// order.
pub open spec fn without_party<R: PartyMember>(rows: Seq<R>, party: int) -> Seq<R>
    decreases rows.len(),
{
    if rows.len() == 0 {
        Seq::empty()
    } else {
        let before = without_party(rows.drop_last(), party);
        if rows.last().party_of() != party {
            before.push(rows.last())
        } else {
            before
        }
    }
}

/// The identifiers of the records of `rows` that belong to the party `party`,
/// in their order.
pub open spec fn ids_of_party<R: PartyMember>(rows: Seq<R>, party: int) -> Seq<i64>
    decreases rows.len(),
{
    if rows.len() == 0 {
        Seq::empty()
    } else {
        let before = ids_of_party(rows.drop_last(), party);
        if rows.last().party_of() == party {
            before.push(rows.last().id_of() as i64)
        } else {
            before
        }
    }
}

/// The records of `rows` that do not belong to the party `party_id`.
pub fn rows_without_party<R: PartyMember>(rows: &Vec<R>, party_id: i64) -> (r: Vec<R>)
    ensures
        r@ == without_party(rows@, party_id as int),
{
    let mut r: Vec<R> = Vec::new();
    let mut i: usize = 0;
    while i < rows.len()
        invariant
            i <= rows.len(),
            r@ == without_party(rows@.take(i as int), party_id as int),
        decreases rows.len() - i,
    {
        proof {
            assert(rows@.take(i as int + 1).drop_last() =~= rows@.take(i as int));
        }
        if rows[i].party() != party_id {
            r.push(rows[i].duplicate());
        }
        i = i + 1;
    }
    proof {
        assert(rows@.take(i as int) =~= rows@);
    }
    r
}

/// The identifiers of the records of `rows` that belong to the party
/// `party_id`.
pub fn ids_in_party<R: PartyMember>(rows: &Vec<R>, party_id: i64) -> (r: Vec<i64>)
    ensures
        r@ == ids_of_party(rows@, party_id as int),
{
    let mut r: Vec<i64> = Vec::new();
    let mut i: usize = 0;
    while i < rows.len()
        invariant
            i <= rows.len(),
            r@ == ids_of_party(rows@.take(i as int), party_id as int),
        decreases rows.len() - i,
    {
        proof {
            assert(rows@.take(i as int + 1).drop_last() =~= rows@.take(i as int));
        }
        if rows[i].party() == party_id {
            r.push(rows[i].id());
        }
        i = i + 1;
    }
    proof {
        assert(rows@.take(i as int) =~= rows@);
    }
    r
}

impl Record for IncomeRecord {
    open spec fn id_of(&self) -> int {
        self.income_id as int
    }

    fn id(&self) -> (r: i64) {
        self.income_id
    }

    fn duplicate(&self) -> (r: Self) {
        IncomeRecord {
            income_id: self.income_id,
            value: self.value,
            currency: self.currency,
            date: self.date,
            category: self.category.clone(),
            subcategory: self.subcategory.clone(),
            description: self.description.clone(),
            entity_id: self.entity_id,
            party_id: self.party_id,
        }
    }
}

impl PartyMember for IncomeRecord {
    open spec fn party_of(&self) -> int {
        self.party_id as int
    }

    fn party(&self) -> (r: i64) {
        self.party_id
    }
}

impl Record for ExpenseRecord {
    open spec fn id_of(&self) -> int {
        self.expense_id as int
    }

    fn id(&self) -> (r: i64) {
        self.expense_id
    }

    fn duplicate(&self) -> (r: Self) {
        ExpenseRecord {
            expense_id: self.expense_id,
            value: self.value,
            currency: self.currency,
            date: self.date,
            category: self.category.clone(),
            subcategory: self.subcategory.clone(),
            description: self.description.clone(),
            entity_id: self.entity_id,
            party_id: self.party_id,
        }
    }
}

impl PartyMember for ExpenseRecord {
    open spec fn party_of(&self) -> int {
        self.party_id as int
    }

    fn party(&self) -> (r: i64) {
        self.party_id
    }
}

impl Record for FundMovementRecord {
    open spec fn id_of(&self) -> int {
        self.fund_movement_id as int
    }

    fn id(&self) -> (r: i64) {
        self.fund_movement_id
    }

    fn duplicate(&self) -> (r: Self) {
        *self
    }
}

impl PartyMember for FundMovementRecord {
    open spec fn party_of(&self) -> int {
        self.party_id as int
    }

    fn party(&self) -> (r: i64) {
        self.party_id
    }
}

impl Record for PartyRecord {
    open spec fn id_of(&self) -> int {
        self.party_id as int
    }

    fn id(&self) -> (r: i64) {
        self.party_id
    }

    fn duplicate(&self) -> (r: Self) {
        *self
    }
}

impl PartyMember for PartyRecord {
    open spec fn party_of(&self) -> int {
        self.party_id as int
    }

    fn party(&self) -> (r: i64) {
        self.party_id
    }
}

impl Record for EntityRecord {
    open spec fn id_of(&self) -> int {
        self.entity_id as int
    }

    fn id(&self) -> (r: i64) {
        self.entity_id
    }

    fn duplicate(&self) -> (r: Self) {
        EntityRecord {
            entity_id: self.entity_id,
            name: self.name.clone(),
            country: self.country.clone(),
            entity_type: self.entity_type,
            entity_subtype: self.entity_subtype.clone(),
            creation_date: self.creation_date,
        }
    }
}

impl Record for AccountRecord {
    open spec fn id_of(&self) -> int {
        self.account_id as int
    }

    fn id(&self) -> (r: i64) {
        self.account_id
    }

    fn duplicate(&self) -> (r: Self) {
        AccountRecord {
            account_id: self.account_id,
            name: self.name.clone(),
            country: self.country.clone(),
            currency: self.currency,
            account_type: self.account_type,
            initial_balance: self.initial_balance,
            creation_date: self.creation_date,
        }
    }
}

/// A table of the ledger: a list of records of one kind under a name.
pub trait Table: Sized {
    /// The kind of record that the table holds.
    type Row: Record;

    /// The name of a table, which also names the column of its identifiers.
    spec fn name_text() -> Seq<char>;

    /// The records of a table, in the order in which they were entered.
    spec fn contents(&self) -> Seq<Self::Row>;

    /// The name of the table.
    fn name() -> (r: String)
        ensures
            r@ == Self::name_text(),
    ;

    /// The records of this table.
    fn rows(&self) -> (r: &Vec<Self::Row>)
        ensures
            r@ == self.contents(),
    ;

    /// The table of the given records.
    fn create(rows: Vec<Self::Row>) -> (r: Box<Self>)
        ensures
            r.contents() == rows@,
    ;

    /// The table as it is before anything was entered.
    fn new() -> (r: Box<Self>)
    ;

    /// The identifier for the next record: 0 in an empty table, else one more
    /// than the largest identifier in it.
    fn next_id(&self) -> (r: i64)
        requires
            has_room(self.contents()),
        ensures
            r == next_id_after(self.contents()),
    {
        next_id_of(self.rows())
    }
}

impl IncomeRecord {
    /// The record of an income transaction under the given identifiers.
    pub open spec fn of(transaction: Transaction, id: i64, party_id: i64) -> IncomeRecord {
        match transaction {
            Transaction::Income {
                value,
                currency,
                date,
                category,
                subcategory,
                description,
                entity_id,
            } => IncomeRecord {
                income_id: id,
                value,
                currency,
                date,
                category,
                subcategory,
                description,
                entity_id,
                party_id,
            },
            _ => arbitrary(),
        }
    }

    /// The income transaction that a record stands for.
    pub open spec fn as_transaction(self) -> Transaction {
        Transaction::Income {
            value: self.value,
            currency: self.currency,
            date: self.date,
            category: self.category,
            subcategory: self.subcategory,
            description: self.description,
            entity_id: self.entity_id,
        }
    }
}

impl ExpenseRecord {
    /// The record of an expense transaction under the given identifiers.
    pub open spec fn of(transaction: Transaction, id: i64, party_id: i64) -> ExpenseRecord {
        match transaction {
            Transaction::Expense {
                value,
                currency,
                date,
                category,
                subcategory,
                description,
                entity_id,
            } => ExpenseRecord {
                expense_id: id,
                value,
                currency,
                date,
                category,
                subcategory,
                description,
                entity_id,
                party_id,
            },
            _ => arbitrary(),
        }
    }

    /// The expense transaction that a record stands for.
    pub open spec fn as_transaction(self) -> Transaction {
        Transaction::Expense {
            value: self.value,
            currency: self.currency,
            date: self.date,
            category: self.category,
            subcategory: self.subcategory,
            description: self.description,
            entity_id: self.entity_id,
        }
    }
}

impl FundMovementRecord {
    /// The record of a credit or debit under the given identifiers. A credit
    /// keeps its value; a debit is held with the opposite sign.
    pub open spec fn of(transaction: Transaction, id: i64, party_id: i64) -> FundMovementRecord {
        match transaction {
            Transaction::Credit { value, currency, date, account_id } => FundMovementRecord {
                fund_movement_id: id,
                fund_movement_type: FundMovementType::Credit,
                value,
                currency,
                date,
                account_id,
                party_id,
            },
            Transaction::Debit { value, currency, date, account_id } => FundMovementRecord {
                fund_movement_id: id,
                fund_movement_type: FundMovementType::Debit,
                value: (-value) as i64,
                currency,
                date,
                account_id,
                party_id,
            },
            _ => arbitrary(),
        }
    }

    /// The credit or debit that a record stands for.
    pub open spec fn as_transaction(self) -> Transaction {
        match self.fund_movement_type {
            FundMovementType::Credit => Transaction::Credit {
                value: self.value,
                currency: self.currency,
                date: self.date,
                account_id: self.account_id,
            },
            FundMovementType::Debit => Transaction::Debit {
                value: (-self.value) as i64,
                currency: self.currency,
                date: self.date,
                account_id: self.account_id,
            },
        }
    }
}

/// `transaction` is the transaction of the first record of `rows` with the
/// identifier `id`.
pub open spec fn is_first_with_id<R: Record>(rows: Seq<R>, id: int, at: int) -> bool {
    &&& 0 <= at < rows.len()
    &&& rows[at].id_of() == id
    &&& forall|i: int| 0 <= i < at ==> (#[trigger] rows[i]).id_of() != id
}

/// The texts that stand for the categories of incomes.
pub open spec fn income_categories(rows: Seq<IncomeRecord>) -> Seq<Seq<char>> {
    Seq::new(rows.len(), |i: int| rows[i].category@)
}

/// The subcategories of the incomes of a category, in the order of the table.
pub open spec fn income_subcategories(rows: Seq<IncomeRecord>, category: Seq<char>) -> Seq<Seq<char>>
    decreases rows.len(),
{
    if rows.len() == 0 {
        Seq::empty()
    } else {
        let before = income_subcategories(rows.drop_last(), category);
        if rows.last().category@ == category {
            before.push(rows.last().subcategory@)
        } else {
            before
        }
    }
}

/// The texts that stand for the categories of expenses.
pub open spec fn expense_categories(rows: Seq<ExpenseRecord>) -> Seq<Seq<char>> {
    Seq::new(rows.len(), |i: int| rows[i].category@)
}

/// The subcategories of the expenses of a category, in the order of the
/// table.
pub open spec fn expense_subcategories(rows: Seq<ExpenseRecord>, category: Seq<char>) -> Seq<
    Seq<char>,
>
    decreases rows.len(),
{
    if rows.len() == 0 {
        Seq::empty()
    } else {
        let before = expense_subcategories(rows.drop_last(), category);
        if rows.last().category@ == category {
            before.push(rows.last().subcategory@)
        } else {
            before
        }
    }
}

/// The table of incomes.
pub struct IncomeTable {
    pub rows: Vec<IncomeRecord>,
}

impl Table for IncomeTable {
    type Row = IncomeRecord;

    open spec fn name_text() -> Seq<char> {
        "income"@
    }

    open spec fn contents(&self) -> Seq<IncomeRecord> {
        self.rows@
    }

    fn name() -> (r: String) {
        String::from_str("income")
    }

    fn rows(&self) -> (r: &Vec<IncomeRecord>) {
        &self.rows
    }

    fn create(rows: Vec<IncomeRecord>) -> (r: Box<Self>) {
        Box::new(IncomeTable { rows })
    }

    fn new() -> (r: Box<Self>)
        ensures
            r.rows@.len() == 0,
    {
        Box::new(IncomeTable { rows: Vec::new() })
    }
}

impl IncomeTable {
    /// Enters an income under the next identifier, as part of the party
    /// `party_id`.
    pub fn insert_transaction(&mut self, transaction: &Transaction, party_id: i64)
        requires
            *transaction is Income,
            has_room(old(self).rows@),
        ensures
            final(self).rows@ == old(self).rows@.push(
                IncomeRecord::of(*transaction, next_id_after(old(self).rows@) as i64, party_id),
            ),
    {
        let id: i64 = next_id_of(&self.rows);
        match transaction {
            Transaction::Income {
                value,
                currency,
                date,
                category,
                subcategory,
                description,
                entity_id,
            } => {
                self.rows.push(
                    IncomeRecord {
                        income_id: id,
                        value: *value,
                        currency: *currency,
                        date: *date,
                        category: category.clone(),
                        subcategory: subcategory.clone(),
                        description: description.clone(),
                        entity_id: *entity_id,
                        party_id,
                    },
                );
            },
            _ => {},
        }
    }

    /// The categories of the incomes, each once, in the order of texts.
    pub fn categories(&self) -> (r: Vec<String>)
        ensures
            lists_texts(r@, income_categories(self.rows@)),
    {
        let mut texts: Vec<String> = Vec::new();
        let mut i: usize = 0;
        while i < self.rows.len()
            invariant
                i <= self.rows.len(),
                crate::text::views(texts@) == income_categories(self.rows@.take(i as int)),
            decreases self.rows.len() - i,
        {
            let ghost before = texts@;
            texts.push(self.rows[i].category.clone());
            proof {
                assert(crate::text::views(texts@) =~= crate::text::views(before).push(
                    self.rows@[i as int].category@,
                ));
                assert(income_categories(self.rows@.take(i as int + 1)) =~= income_categories(
                    self.rows@.take(i as int),
                ).push(self.rows@[i as int].category@));
            }
            i = i + 1;
        }
        proof {
            assert(self.rows@.take(i as int) =~= self.rows@);
        }
        distinct_texts(&texts)
    }

    /// The subcategories of the incomes of `category`, each once, in the
    /// order of texts.
    pub fn subcategories(&self, category: String) -> (r: Vec<String>)
        ensures
            lists_texts(r@, income_subcategories(self.rows@, category@)),
    {
        let mut texts: Vec<String> = Vec::new();
        let mut i: usize = 0;
        while i < self.rows.len()
            invariant
                i <= self.rows.len(),
                crate::text::views(texts@) == income_subcategories(
                    self.rows@.take(i as int),
                    category@,
                ),
            decreases self.rows.len() - i,
        {
            proof {
                assert(self.rows@.take(i as int + 1).drop_last() =~= self.rows@.take(i as int));
            }
            if self.rows[i].category == category {
                let ghost before = texts@;
                texts.push(self.rows[i].subcategory.clone());
                proof {
                    assert(crate::text::views(texts@) =~= crate::text::views(before).push(
                        self.rows@[i as int].subcategory@,
                    ));
                }
            }
            i = i + 1;
        }
        proof {
            assert(self.rows@.take(i as int) =~= self.rows@);
        }
        distinct_texts(&texts)
    }

    /// Takes the incomes of the party `party_id` out of the table.
    pub fn delete_party(&mut self, party_id: i64)
        ensures
            final(self).rows@ == without_party(old(self).rows@, party_id as int),
    {
        self.rows = rows_without_party(&self.rows, party_id);
    }

    /// The identifiers of the incomes of the party `party_id`.
    pub fn iter_party(&self, party_id: i64) -> (r: Vec<i64>)
        ensures
            r@ == ids_of_party(self.rows@, party_id as int),
    {
        ids_in_party(&self.rows, party_id)
    }

    /// The income with the identifier `id`, which the table holds.
    pub fn transaction(&self, id: i64) -> (r: Transaction)
        requires
            exists|i: int| 0 <= i < self.rows@.len() && (#[trigger] self.rows@[i]).id_of() == id,
        ensures
            exists|at: int|
                is_first_with_id(self.rows@, id as int, at) && r == (
                #[trigger] self.rows@[at]).as_transaction(),
    {
        match find_by_id(&self.rows, id) {
            Some(at) => {
                let row: &IncomeRecord = &self.rows[at];
                let r = Transaction::Income {
                    value: row.value,
                    currency: row.currency,
                    date: row.date,
                    category: row.category.clone(),
                    subcategory: row.subcategory.clone(),
                    description: row.description.clone(),
                    entity_id: row.entity_id,
                };
                proof {
                    assert(is_first_with_id(self.rows@, id as int, at as int));
                    assert(r == self.rows@[at as int].as_transaction());
                }
                r
            },
            None => vstd::pervasive::unreached(),
        }
    }
}

/// The table of expenses.
pub struct ExpensesTable {
    pub rows: Vec<ExpenseRecord>,
}

impl Table for ExpensesTable {
    type Row = ExpenseRecord;

    open spec fn name_text() -> Seq<char> {
        "expense"@
    }

    open spec fn contents(&self) -> Seq<ExpenseRecord> {
        self.rows@
    }

    fn name() -> (r: String) {
        String::from_str("expense")
    }

    fn rows(&self) -> (r: &Vec<ExpenseRecord>) {
        &self.rows
    }

    fn create(rows: Vec<ExpenseRecord>) -> (r: Box<Self>) {
        Box::new(ExpensesTable { rows })
    }

    fn new() -> (r: Box<Self>)
        ensures
            r.rows@.len() == 0,
    {
        Box::new(ExpensesTable { rows: Vec::new() })
    }
}

impl ExpensesTable {
    /// Enters an expense under the next identifier, as part of the party
    /// `party_id`.
    pub fn insert_transaction(&mut self, transaction: &Transaction, party_id: i64)
        requires
            *transaction is Expense,
            has_room(old(self).rows@),
        ensures
            final(self).rows@ == old(self).rows@.push(
                ExpenseRecord::of(*transaction, next_id_after(old(self).rows@) as i64, party_id),
            ),
    {
        let id: i64 = next_id_of(&self.rows);
        match transaction {
            Transaction::Expense {
                value,
                currency,
                date,
                category,
                subcategory,
                description,
                entity_id,
            } => {
                self.rows.push(
                    ExpenseRecord {
                        expense_id: id,
                        value: *value,
                        currency: *currency,
                        date: *date,
                        category: category.clone(),
                        subcategory: subcategory.clone(),
                        description: description.clone(),
                        entity_id: *entity_id,
                        party_id,
                    },
                );
            },
            _ => {},
        }
    }

    /// The categories of the expenses, each once, in the order of texts.
    pub fn categories(&self) -> (r: Vec<String>)
        ensures
            lists_texts(r@, expense_categories(self.rows@)),
    {
        let mut texts: Vec<String> = Vec::new();
        let mut i: usize = 0;
        while i < self.rows.len()
            invariant
                i <= self.rows.len(),
                crate::text::views(texts@) == expense_categories(self.rows@.take(i as int)),
            decreases self.rows.len() - i,
        {
            let ghost before = texts@;
            texts.push(self.rows[i].category.clone());
            proof {
                assert(crate::text::views(texts@) =~= crate::text::views(before).push(
                    self.rows@[i as int].category@,
                ));
                assert(expense_categories(self.rows@.take(i as int + 1)) =~= expense_categories(
                    self.rows@.take(i as int),
                ).push(self.rows@[i as int].category@));
            }
            i = i + 1;
        }
        proof {
            assert(self.rows@.take(i as int) =~= self.rows@);
        }
        distinct_texts(&texts)
    }

    /// The subcategories of the expenses of `category`, each once, in the
    /// order of texts.
    pub fn subcategories(&self, category: String) -> (r: Vec<String>)
        ensures
            lists_texts(r@, expense_subcategories(self.rows@, category@)),
    {
        let mut texts: Vec<String> = Vec::new();
        let mut i: usize = 0;
        while i < self.rows.len()
            invariant
                i <= self.rows.len(),
                crate::text::views(texts@) == expense_subcategories(
                    self.rows@.take(i as int),
                    category@,
                ),
            decreases self.rows.len() - i,
        {
            proof {
                assert(self.rows@.take(i as int + 1).drop_last() =~= self.rows@.take(i as int));
            }
            if self.rows[i].category == category {
                let ghost before = texts@;
                texts.push(self.rows[i].subcategory.clone());
                proof {
                    assert(crate::text::views(texts@) =~= crate::text::views(before).push(
                        self.rows@[i as int].subcategory@,
                    ));
                }
            }
            i = i + 1;
        }
        proof {
            assert(self.rows@.take(i as int) =~= self.rows@);
        }
        distinct_texts(&texts)
    }

    /// Takes the expenses of the party `party_id` out of the table.
    pub fn delete_party(&mut self, party_id: i64)
        ensures
            final(self).rows@ == without_party(old(self).rows@, party_id as int),
    {
        self.rows = rows_without_party(&self.rows, party_id);
    }

    /// The identifiers of the expenses of the party `party_id`.
    pub fn iter_party(&self, party_id: i64) -> (r: Vec<i64>)
        ensures
            r@ == ids_of_party(self.rows@, party_id as int),
    {
        ids_in_party(&self.rows, party_id)
    }

    /// The expense with the identifier `id`, which the table holds.
    pub fn transaction(&self, id: i64) -> (r: Transaction)
        requires
            exists|i: int| 0 <= i < self.rows@.len() && (#[trigger] self.rows@[i]).id_of() == id,
        ensures
            exists|at: int|
                is_first_with_id(self.rows@, id as int, at) && r == (
                #[trigger] self.rows@[at]).as_transaction(),
    {
        match find_by_id(&self.rows, id) {
            Some(at) => {
                let row: &ExpenseRecord = &self.rows[at];
                let r = Transaction::Expense {
                    value: row.value,
                    currency: row.currency,
                    date: row.date,
                    category: row.category.clone(),
                    subcategory: row.subcategory.clone(),
                    description: row.description.clone(),
                    entity_id: row.entity_id,
                };
                proof {
                    assert(is_first_with_id(self.rows@, id as int, at as int));
                    assert(r == self.rows@[at as int].as_transaction());
                }
                r
            },
            None => vstd::pervasive::unreached(),
        }
    }
}

/// The table of movements of funds.
pub struct FundsTable {
    pub rows: Vec<FundMovementRecord>,
}

impl Table for FundsTable {
    type Row = FundMovementRecord;

    open spec fn name_text() -> Seq<char> {
        "fund_movement"@
    }

    open spec fn contents(&self) -> Seq<FundMovementRecord> {
        self.rows@
    }

    fn name() -> (r: String) {
        String::from_str("fund_movement")
    }

    fn rows(&self) -> (r: &Vec<FundMovementRecord>) {
        &self.rows
    }

    fn create(rows: Vec<FundMovementRecord>) -> (r: Box<Self>) {
        Box::new(FundsTable { rows })
    }

    fn new() -> (r: Box<Self>)
        ensures
            r.rows@.len() == 0,
    {
        Box::new(FundsTable { rows: Vec::new() })
    }
}

impl FundsTable {
    /// Enters a credit or a debit under the next identifier, as part of the
    /// party `party_id`. A credit is held with its value, a debit with the
    /// opposite sign; a debit of the smallest value that there is has no
    /// opposite and cannot be entered.
    pub fn insert_transaction(&mut self, transaction: &Transaction, party_id: i64)
        requires
            *transaction is Credit || *transaction is Debit,
            *transaction is Debit ==> transaction.value_of() > i64::MIN,
            has_room(old(self).rows@),
        ensures
            final(self).rows@ == old(self).rows@.push(
                FundMovementRecord::of(
                    *transaction,
                    next_id_after(old(self).rows@) as i64,
                    party_id,
                ),
            ),
    {
        let id: i64 = next_id_of(&self.rows);
        match transaction {
            Transaction::Credit { value, currency, date, account_id } => {
                self.rows.push(
                    FundMovementRecord {
                        fund_movement_id: id,
                        fund_movement_type: FundMovementType::Credit,
                        value: *value,
                        currency: *currency,
                        date: *date,
                        account_id: *account_id,
                        party_id,
                    },
                );
            },
            Transaction::Debit { value, currency, date, account_id } => {
                self.rows.push(
                    FundMovementRecord {
                        fund_movement_id: id,
                        fund_movement_type: FundMovementType::Debit,
                        value: -*value,
                        currency: *currency,
                        date: *date,
                        account_id: *account_id,
                        party_id,
                    },
                );
            },
            _ => {},
        }
    }

    /// Takes the movements of the party `party_id` out of the table.
    pub fn delete_party(&mut self, party_id: i64)
        ensures
            final(self).rows@ == without_party(old(self).rows@, party_id as int),
    {
        self.rows = rows_without_party(&self.rows, party_id);
    }

    /// The identifiers of the movements of the party `party_id`.
    pub fn iter_party(&self, party_id: i64) -> (r: Vec<i64>)
        ensures
            r@ == ids_of_party(self.rows@, party_id as int),
    {
        ids_in_party(&self.rows, party_id)
    }

    /// The credit or debit with the identifier `id`, which the table holds. A
    /// debit comes back with the value it was entered with.
    pub fn transaction(&self, id: i64) -> (r: Transaction)
        requires
            exists|i: int| 0 <= i < self.rows@.len() && (#[trigger] self.rows@[i]).id_of() == id,
            forall|i: int| 0 <= i < self.rows@.len() ==> (#[trigger] self.rows@[i]).value > i64::MIN,
        ensures
            exists|at: int|
                is_first_with_id(self.rows@, id as int, at) && r == (
                #[trigger] self.rows@[at]).as_transaction(),
    {
        match find_by_id(&self.rows, id) {
            Some(at) => {
                let row: FundMovementRecord = self.rows[at];
                let r = match row.fund_movement_type {
                    FundMovementType::Credit => Transaction::Credit {
                        value: row.value,
                        currency: row.currency,
                        date: row.date,
                        account_id: row.account_id,
                    },
                    FundMovementType::Debit => Transaction::Debit {
                        value: -row.value,
                        currency: row.currency,
                        date: row.date,
                        account_id: row.account_id,
                    },
                };
                proof {
                    assert(is_first_with_id(self.rows@, id as int, at as int));
                    assert(r == self.rows@[at as int].as_transaction());
                }
                r
            },
            None => vstd::pervasive::unreached(),
        }
    }
}

/// The table of parties.
pub struct PartyTable {
    pub rows: Vec<PartyRecord>,
}

impl Table for PartyTable {
    type Row = PartyRecord;

    open spec fn name_text() -> Seq<char> {
        "party"@
    }

    open spec fn contents(&self) -> Seq<PartyRecord> {
        self.rows@
    }

    fn name() -> (r: String) {
        String::from_str("party")
    }

    fn rows(&self) -> (r: &Vec<PartyRecord>) {
        &self.rows
    }

    fn create(rows: Vec<PartyRecord>) -> (r: Box<Self>) {
        Box::new(PartyTable { rows })
    }

    fn new() -> (r: Box<Self>)
        ensures
            r.rows@.len() == 0,
    {
        Box::new(PartyTable { rows: Vec::new() })
    }
}

impl PartyTable {
    /// Enters a party under the next identifier, with the day it was made.
    pub fn insert_party(&mut self, party: &Party)
        requires
            has_room(old(self).rows@),
        ensures
            final(self).rows@ == old(self).rows@.push(
                PartyRecord {
                    party_id: next_id_after(old(self).rows@) as i64,
                    creation_date: party.creation_date,
                },
            ),
    {
        let id: i64 = next_id_of(&self.rows);
        self.rows.push(PartyRecord { party_id: id, creation_date: party.creation_date });
    }

    /// Takes the party `party_id` out of the table.
    pub fn delete_party(&mut self, party_id: i64)
        ensures
            final(self).rows@ == without_party(old(self).rows@, party_id as int),
    {
        self.rows = rows_without_party(&self.rows, party_id);
    }
}

/// A name with the identifier of the record that bears it.
pub struct NamedId {
    pub name: String,
    pub id: i64,
}

impl Ranked for NamedId {
    /// By name, in the order of texts.
    open spec fn ranks_before(&self, other: &Self) -> bool {
        text_precedes(self.name@, other.name@)
    }

    proof fn lemma_rank_is_irreflexive(a: &Self) {
        lemma_bytes_precede_irreflexive(vstd::utf8::encode_utf8(a.name@));
    }

    proof fn lemma_rank_is_transitive(a: &Self, b: &Self, c: &Self) {
        lemma_bytes_precede_transitive(
            vstd::utf8::encode_utf8(a.name@),
            vstd::utf8::encode_utf8(b.name@),
            vstd::utf8::encode_utf8(c.name@),
        );
    }

    fn is_ranked_before(&self, other: &Self) -> (r: bool) {
        crate::text::precedes(self.name.as_str(), other.name.as_str())
    }
}

/// The identifiers of `named`, in the order of `named`.
pub open spec fn ids_of(named: Seq<NamedId>) -> Seq<i64> {
    Seq::new(named.len(), |i: int| named[i].id)
}

/// `ids` are the identifiers of `named`, arranged so that the names do not
/// descend.
pub open spec fn is_by_name(ids: Seq<i64>, named: Seq<NamedId>) -> bool {
    exists|sorted: Seq<NamedId>|
        in_rank_order(sorted) && sorted.to_multiset() == named.to_multiset() && ids
            == #[trigger] ids_of(sorted)
}

/// The identifiers of `named`, arranged by name.
pub fn ids_by_name(named: Vec<NamedId>) -> (r: Vec<i64>)
    ensures
        is_by_name(r@, named@),
{
    let sorted: Vec<NamedId> = sort_by_rank(named);
    let mut r: Vec<i64> = Vec::new();
    let mut i: usize = 0;
    while i < sorted.len()
        invariant
            i <= sorted.len(),
            r@.len() == i,
            forall|k: int| 0 <= k < i ==> #[trigger] r@[k] == sorted@[k].id,
        decreases sorted.len() - i,
    {
        r.push(sorted[i].id);
        i = i + 1;
    }
    proof {
        assert(r@ =~= ids_of(sorted@));
    }
    r
}

impl EntityRecord {
    /// The record of an entity under an identifier, entered on a day.
    pub open spec fn of(entity: Entity, id: i64, on: Date) -> EntityRecord {
        EntityRecord {
            entity_id: id,
            name: entity.name,
            country: entity.country,
            entity_type: entity.entity_type,
            entity_subtype: entity.entity_subtype,
            creation_date: on,
        }
    }

    /// The entity that a record stands for.
    pub open spec fn as_entity(self) -> Entity {
        Entity {
            name: self.name,
            country: self.country,
            entity_type: self.entity_type,
            entity_subtype: self.entity_subtype,
        }
    }

    /// The name of a record with its identifier.
    pub open spec fn named(self) -> NamedId {
        NamedId { name: self.name, id: self.entity_id }
    }

    /// The record stands for all entities that are not known: it has the
    /// identifier 0, the name and country `Unknown`, the first kind and no
    /// finer kind.
    pub open spec fn is_unknown(self) -> bool {
        &&& self.entity_id == 0
        &&& self.name@ == "Unknown"@
        &&& self.country@ == "Unknown"@
        &&& self.entity_type == EntityType::Firm
        &&& self.entity_subtype@ == ""@
    }
}

impl AccountRecord {
    /// The record of an account under an identifier, entered on a day.
    pub open spec fn of(account: Account, id: i64, on: Date) -> AccountRecord {
        AccountRecord {
            account_id: id,
            name: account.name,
            country: account.country,
            currency: account.currency,
            account_type: account.account_type,
            initial_balance: account.initial_balance,
            creation_date: on,
        }
    }

    /// The account that a record stands for.
    pub open spec fn as_account(self) -> Account {
        Account {
            name: self.name,
            country: self.country,
            currency: self.currency,
            account_type: self.account_type,
            initial_balance: self.initial_balance,
        }
    }

    /// The name of a record with its identifier.
    pub open spec fn named(self) -> NamedId {
        NamedId { name: self.name, id: self.account_id }
    }

    /// The record stands for all accounts that are not known: it has the
    /// identifier 0, the name and country `Unknown`, the base currency, the
    /// first kind and nothing in it.
    pub open spec fn is_unknown(self) -> bool {
        &&& self.account_id == 0
        &&& self.name@ == "Unknown"@
        &&& self.country@ == "Unknown"@
        &&& self.currency == Currency::EUR
        &&& self.account_type == AccountType::Deposit
        &&& self.initial_balance == 0
    }
}

/// The table of entities.
pub struct EntityTable {
    pub rows: Vec<EntityRecord>,
}

impl Table for EntityTable {
    type Row = EntityRecord;

    open spec fn name_text() -> Seq<char> {
        "entity"@
    }

    open spec fn contents(&self) -> Seq<EntityRecord> {
        self.rows@
    }

    fn name() -> (r: String) {
        String::from_str("entity")
    }

    fn rows(&self) -> (r: &Vec<EntityRecord>) {
        &self.rows
    }

    fn create(rows: Vec<EntityRecord>) -> (r: Box<Self>) {
        Box::new(EntityTable { rows })
    }

    /// The table with the one entity that stands for all that are not known,
    /// entered today.
    fn new() -> (r: Box<Self>)
        ensures
            r.rows@.len() == 1,
            r.rows@[0].is_unknown(),
    {
        Box::new(EntityTable::starting_on(Date::today()))
    }
}

impl EntityTable {
    /// The table with the one entity that stands for all that are not known,
    /// entered on `date`.
    pub fn starting_on(date: Date) -> (r: EntityTable)
        ensures
            r.rows@.len() == 1,
            r.rows@[0].is_unknown(),
            r.rows@[0].creation_date == date,
    {
        let mut rows: Vec<EntityRecord> = Vec::new();
        rows.push(
            EntityRecord {
                entity_id: 0,
                name: String::from_str("Unknown"),
                country: String::from_str("Unknown"),
                entity_type: EntityType::Firm,
                entity_subtype: String::from_str(""),
                creation_date: date,
            },
        );
        EntityTable { rows }
    }

    /// Enters an entity under the next identifier, as of `date`, and returns
    /// the identifier.
    pub fn insert_entity_on(&mut self, entity: &Entity, date: Date) -> (r: i64)
        requires
            has_room(old(self).rows@),
        ensures
            r == next_id_after(old(self).rows@),
            final(self).rows@ == old(self).rows@.push(EntityRecord::of(*entity, r, date)),
    {
        let id: i64 = next_id_of(&self.rows);
        self.rows.push(
            EntityRecord {
                entity_id: id,
                name: entity.name.clone(),
                country: entity.country.clone(),
                entity_type: entity.entity_type,
                entity_subtype: entity.entity_subtype.clone(),
                creation_date: date,
            },
        );
        id
    }

    /// Enters an entity under the next identifier, as of today, and returns
    /// the identifier.
    pub fn insert_entity(&mut self, entity: &Entity) -> (r: i64)
        requires
            has_room(old(self).rows@),
        ensures
            r == next_id_after(old(self).rows@),
            exists|date: Date|
                final(self).rows@ == old(self).rows@.push(
                    #[trigger] EntityRecord::of(*entity, r, date),
                ),
    {
        let today: Date = Date::today();
        let ghost before = self.rows@;
        let id: i64 = self.insert_entity_on(entity, today);
        proof {
            assert(self.rows@ == before.push(EntityRecord::of(*entity, id, today)));
        }
        id
    }

    /// The identifiers of the entities, arranged by name.
    pub fn iter(&self) -> (r: Vec<i64>)
        ensures
            is_by_name(r@, Seq::new(self.rows@.len(), |i: int| self.rows@[i].named())),
    {
        let mut named: Vec<NamedId> = Vec::new();
        let mut i: usize = 0;
        while i < self.rows.len()
            invariant
                i <= self.rows.len(),
                named@ == Seq::new(i as nat, |k: int| self.rows@[k].named()),
            decreases self.rows.len() - i,
        {
            named.push(NamedId { name: self.rows[i].name.clone(), id: self.rows[i].entity_id });
            proof {
                assert(named@ =~= Seq::new((i + 1) as nat, |k: int| self.rows@[k].named()));
            }
            i = i + 1;
        }
        ids_by_name(named)
    }

    /// The entity with the identifier `id`, which the table holds.
    pub fn entity(&self, id: i64) -> (r: Entity)
        requires
            exists|i: int| 0 <= i < self.rows@.len() && (#[trigger] self.rows@[i]).id_of() == id,
        ensures
            exists|at: int|
                is_first_with_id(self.rows@, id as int, at) && r == (
                #[trigger] self.rows@[at]).as_entity(),
    {
        match find_by_id(&self.rows, id) {
            Some(at) => {
                let row: &EntityRecord = &self.rows[at];
                let r = Entity {
                    name: row.name.clone(),
                    country: row.country.clone(),
                    entity_type: row.entity_type,
                    entity_subtype: row.entity_subtype.clone(),
                };
                proof {
                    assert(is_first_with_id(self.rows@, id as int, at as int));
                    assert(r == self.rows@[at as int].as_entity());
                }
                r
            },
            None => vstd::pervasive::unreached(),
        }
    }

    /// The countries of the entities, each once, in the order of texts.
    pub fn countries(&self) -> (r: Vec<String>)
        ensures
            lists_texts(r@, Seq::new(self.rows@.len(), |i: int| self.rows@[i].country@)),
    {
        let mut texts: Vec<String> = Vec::new();
        let mut i: usize = 0;
        while i < self.rows.len()
            invariant
                i <= self.rows.len(),
                texts@.len() == i,
                forall|k: int| 0 <= k < i ==> (#[trigger] texts@[k])@ == self.rows@[k].country@,
            decreases self.rows.len() - i,
        {
            texts.push(self.rows[i].country.clone());
            i = i + 1;
        }
        proof {
            assert(crate::text::views(texts@) =~= Seq::new(
                self.rows@.len(),
                |i: int| self.rows@[i].country@,
            ));
        }
        distinct_texts(&texts)
    }

    /// The finer kinds of the entities, each once, in the order of texts.
    pub fn subtypes(&self) -> (r: Vec<String>)
        ensures
            lists_texts(r@, Seq::new(self.rows@.len(), |i: int| self.rows@[i].entity_subtype@)),
    {
        let mut texts: Vec<String> = Vec::new();
        let mut i: usize = 0;
        while i < self.rows.len()
            invariant
                i <= self.rows.len(),
                texts@.len() == i,
                forall|k: int|
                    0 <= k < i ==> (#[trigger] texts@[k])@ == self.rows@[k].entity_subtype@,
            decreases self.rows.len() - i,
        {
            texts.push(self.rows[i].entity_subtype.clone());
            i = i + 1;
        }
        proof {
            assert(crate::text::views(texts@) =~= Seq::new(
                self.rows@.len(),
                |i: int| self.rows@[i].entity_subtype@,
            ));
        }
        distinct_texts(&texts)
    }
}

/// The table of accounts.
pub struct AccountTable {
    pub rows: Vec<AccountRecord>,
}

impl Table for AccountTable {
    type Row = AccountRecord;

    open spec fn name_text() -> Seq<char> {
        "account"@
    }

    open spec fn contents(&self) -> Seq<AccountRecord> {
        self.rows@
    }

    fn name() -> (r: String) {
        String::from_str("account")
    }

    fn rows(&self) -> (r: &Vec<AccountRecord>) {
        &self.rows
    }

    fn create(rows: Vec<AccountRecord>) -> (r: Box<Self>) {
        Box::new(AccountTable { rows })
    }

    /// The table with the one account that stands for all that are not known,
    /// entered today.
    fn new() -> (r: Box<Self>)
        ensures
            r.rows@.len() == 1,
            r.rows@[0].is_unknown(),
    {
        Box::new(AccountTable::starting_on(Date::today()))
    }
}

impl AccountTable {
    /// The table with the one account that stands for all that are not known,
    /// entered on `date`.
    pub fn starting_on(date: Date) -> (r: AccountTable)
        ensures
            r.rows@.len() == 1,
            r.rows@[0].is_unknown(),
            r.rows@[0].creation_date == date,
    {
        let mut rows: Vec<AccountRecord> = Vec::new();
        rows.push(
            AccountRecord {
                account_id: 0,
                name: String::from_str("Unknown"),
                country: String::from_str("Unknown"),
                currency: Currency::EUR,
                account_type: AccountType::Deposit,
                initial_balance: 0,
                creation_date: date,
            },
        );
        AccountTable { rows }
    }

    /// Enters an account under the next identifier, as of `date`, and returns
    /// the identifier.
    pub fn insert_account_on(&mut self, account: &Account, date: Date) -> (r: i64)
        requires
            has_room(old(self).rows@),
        ensures
            r == next_id_after(old(self).rows@),
            final(self).rows@ == old(self).rows@.push(AccountRecord::of(*account, r, date)),
    {
        let id: i64 = next_id_of(&self.rows);
        self.rows.push(
            AccountRecord {
                account_id: id,
                name: account.name.clone(),
                country: account.country.clone(),
                currency: account.currency,
                account_type: account.account_type,
                initial_balance: account.initial_balance,
                creation_date: date,
            },
        );
        id
    }

    /// Enters an account under the next identifier, as of today, and returns
    /// the identifier.
    pub fn insert_account(&mut self, account: &Account) -> (r: i64)
        requires
            has_room(old(self).rows@),
        ensures
            r == next_id_after(old(self).rows@),
            exists|date: Date|
                final(self).rows@ == old(self).rows@.push(
                    #[trigger] AccountRecord::of(*account, r, date),
                ),
    {
        let today: Date = Date::today();
        let ghost before = self.rows@;
        let id: i64 = self.insert_account_on(account, today);
        proof {
            assert(self.rows@ == before.push(AccountRecord::of(*account, id, today)));
        }
        id
    }

    /// The identifiers of the accounts, arranged by name.
    pub fn iter(&self) -> (r: Vec<i64>)
        ensures
            is_by_name(r@, Seq::new(self.rows@.len(), |i: int| self.rows@[i].named())),
    {
        let mut named: Vec<NamedId> = Vec::new();
        let mut i: usize = 0;
        while i < self.rows.len()
            invariant
                i <= self.rows.len(),
                named@ == Seq::new(i as nat, |k: int| self.rows@[k].named()),
            decreases self.rows.len() - i,
        {
            named.push(NamedId { name: self.rows[i].name.clone(), id: self.rows[i].account_id });
            proof {
                assert(named@ =~= Seq::new((i + 1) as nat, |k: int| self.rows@[k].named()));
            }
            i = i + 1;
        }
        ids_by_name(named)
    }

    /// The account with the identifier `id`, which the table holds.
    pub fn account(&self, id: i64) -> (r: Account)
        requires
            exists|i: int| 0 <= i < self.rows@.len() && (#[trigger] self.rows@[i]).id_of() == id,
        ensures
            exists|at: int|
                is_first_with_id(self.rows@, id as int, at) && r == (
                #[trigger] self.rows@[at]).as_account(),
    {
        match find_by_id(&self.rows, id) {
            Some(at) => {
                let row: &AccountRecord = &self.rows[at];
                let r = Account {
                    name: row.name.clone(),
                    country: row.country.clone(),
                    currency: row.currency,
                    account_type: row.account_type,
                    initial_balance: row.initial_balance,
                };
                proof {
                    assert(is_first_with_id(self.rows@, id as int, at as int));
                    assert(r == self.rows@[at as int].as_account());
                }
                r
            },
            None => vstd::pervasive::unreached(),
        }
    }

    /// The countries of the accounts, each once, in the order of texts.
    pub fn countries(&self) -> (r: Vec<String>)
        ensures
            lists_texts(r@, Seq::new(self.rows@.len(), |i: int| self.rows@[i].country@)),
    {
        let mut texts: Vec<String> = Vec::new();
        let mut i: usize = 0;
        while i < self.rows.len()
            invariant
                i <= self.rows.len(),
                texts@.len() == i,
                forall|k: int| 0 <= k < i ==> (#[trigger] texts@[k])@ == self.rows@[k].country@,
            decreases self.rows.len() - i,
        {
            texts.push(self.rows[i].country.clone());
            i = i + 1;
        }
        proof {
            assert(crate::text::views(texts@) =~= Seq::new(
                self.rows@.len(),
                |i: int| self.rows@[i].country@,
            ));
        }
        distinct_texts(&texts)
    }
}

} // verus!
