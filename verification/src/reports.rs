//! Reports as tables of text: a line of column names and lines of cells, and
//! the same written out with commas between the cells.
//!
//! Amounts and shares are written as decimal numbers with two places. A cell
//! is written as it is, so a text in a table that is to be read back must
//! hold neither a comma nor a line break.

use crate::calendar::iso_text;
use crate::currency_exchange::NormalizedPoint;
use crate::financial::Currency;
use crate::summaries::{ExpenseSummary, FundStandRow, SummaryRow};
use crate::text::{append_hundredths, hundredths_text, views};
use vstd::prelude::*;
use vstd::string::StringExecFns;

verus! {

/// A table of text: the names of the columns and the lines of cells.
pub struct ReportTable {
    pub columns: Vec<String>,
    pub rows: Vec<Vec<String>>,
}

/// The cells of a sequence of lines.
pub open spec fn line_views(rows: Seq<Vec<String>>) -> Seq<Seq<Seq<char>>> {
    Seq::new(rows.len(), |i: int| views(rows[i]@))
}

/// The cells joined by commas.
pub open spec fn joined(cells: Seq<Seq<char>>) -> Seq<char>
    decreases cells.len(),
{
    if cells.len() == 0 {
        Seq::empty()
    } else if cells.len() == 1 {
        cells[0]
    } else {
        joined(cells.drop_last()) + seq![','] + cells.last()
    }
}

/// The lines, each with its cells joined by commas and ended by a line break.
pub open spec fn lines_text(rows: Seq<Seq<Seq<char>>>) -> Seq<char>
    decreases rows.len(),
{
    if rows.len() == 0 {
        Seq::empty()
    } else {
        lines_text(rows.drop_last()) + joined(rows.last()) + seq!['\n']
    }
}

/// A table as text: the line of column names, then the lines of cells.
pub open spec fn csv_text(columns: Seq<Seq<char>>, rows: Seq<Seq<Seq<char>>>) -> Seq<char> {
    joined(columns) + seq!['\n'] + lines_text(rows)
}

/// Writes the cells, joined by commas, at the end of `text`.
pub fn append_joined(text: &mut String, cells: &Vec<String>)
    ensures
        final(text)@ == old(text)@ + joined(views(cells@)),
{
    proof {
        reveal_strlit(",");
    }
    let ghost before = text@;
    let ghost all = views(cells@);
    let mut i: usize = 0;
    proof {
        assert(text@ =~= before + joined(all.take(0)));
    }
    while i < cells.len()
        invariant
            i <= cells.len(),
            all == views(cells@),
            text@ == before + joined(all.take(i as int)),
        decreases cells.len() - i,
    {
        let ghost so_far = text@;
        proof {
            reveal_strlit(",");
            assert(all.take(i as int + 1).drop_last() =~= all.take(i as int));
            assert(all.take(i as int + 1).last() == cells@[i as int]@);
        }
        if i > 0 {
            text.append(",");
        }
        text.append(cells[i].as_str());
        proof {
            if i == 0 {
                assert(all.take(1)[0] == cells@[0]@);
                assert(text@ =~= before + joined(all.take(1)));
            } else {
                assert(text@ =~= so_far + seq![','] + cells@[i as int]@);
                assert(text@ =~= before + joined(all.take(i as int + 1)));
            }
        }
        i = i + 1;
    }
    proof {
        assert(all.take(i as int) =~= all);
    }
}

impl ReportTable {
    /// The table as text with commas between the cells: the line of column
    /// names, then the lines of cells, each line ended by a line break.
    pub fn to_csv(&self) -> (r: String)
        ensures
            r@ == csv_text(views(self.columns@), line_views(self.rows@)),
    {
        proof {
            reveal_strlit("\n");
        }
        let mut text: String = String::new();
        append_joined(&mut text, &self.columns);
        text.append("\n");
        let ghost head = text@;
        let ghost all = line_views(self.rows@);
        proof {
            assert(head =~= joined(views(self.columns@)) + seq!['\n']);
            assert(text@ =~= head + lines_text(all.take(0)));
        }
        let mut i: usize = 0;
        while i < self.rows.len()
            invariant
                i <= self.rows.len(),
                all == line_views(self.rows@),
                text@ == head + lines_text(all.take(i as int)),
            decreases self.rows.len() - i,
        {
            let ghost so_far = text@;
            proof {
                reveal_strlit("\n");
                assert(all.take(i as int + 1).drop_last() =~= all.take(i as int));
                assert(all.take(i as int + 1).last() == views(self.rows@[i as int]@));
            }
            append_joined(&mut text, &self.rows[i]);
            text.append("\n");
            proof {
                assert(text@ =~= so_far + joined(views(self.rows@[i as int]@)) + seq!['\n']);
                assert(text@ =~= head + lines_text(all.take(i as int + 1)));
            }
            i = i + 1;
        }
        proof {
            assert(all.take(i as int) =~= all);
        }
        text
    }
}

/// A number of hundredths as text.
pub fn hundredths(value: i128) -> (r: String)
    ensures
        r@ == hundredths_text(value as int),
{
    let mut text: String = String::new();
    append_hundredths(&mut text, value);
    proof {
        assert(Seq::<char>::empty() + hundredths_text(value as int) =~= hundredths_text(
            value as int,
        ));
    }
    text
}

/// A share as text: the number of hundredths, or nothing where the share is
/// not defined.
pub open spec fn share_text(share: Option<i128>) -> Seq<char> {
    match share {
        Some(value) => hundredths_text(value as int),
        None => Seq::<char>::empty(),
    }
}

/// A share as text.
pub fn share(value: Option<i128>) -> (r: String)
    ensures
        r@ == share_text(value),
{
    match value {
        Some(number) => hundredths(number),
        None => String::new(),
    }
}

/// The cells of a line of the summary of expenses.
pub open spec fn summary_cells(row: SummaryRow) -> Seq<Seq<char>> {
    seq![
        row.category@,
        row.subcategory@,
        hundredths_text(row.amount as int),
        share_text(row.percent_of_expenses),
        share_text(row.percent_of_income),
    ]
}

/// The names of the columns of the summary of expenses in `currency`.
pub open spec fn summary_columns(currency: Currency) -> Seq<Seq<char>> {
    seq![
        "Category"@,
        "Subcategory"@,
        currency.code_text(),
        "% Total Expenses"@,
        "% Total Income"@,
    ]
}

/// The lines of the summary of expenses: one for each line of the summary,
/// and the total last.
pub open spec fn summary_lines_of(summary: ExpenseSummary) -> Seq<Seq<Seq<char>>> {
    Seq::new(summary.rows@.len(), |i: int| summary_cells(summary.rows@[i])).push(
        summary_cells(summary.total),
    )
}

fn summary_line(row: &SummaryRow) -> (r: Vec<String>)
    ensures
        views(r@) == summary_cells(*row),
{
    let mut cells: Vec<String> = Vec::new();
    cells.push(row.category.clone());
    cells.push(row.subcategory.clone());
    cells.push(hundredths(row.amount as i128));
    cells.push(share(row.percent_of_expenses));
    cells.push(share(row.percent_of_income));
    proof {
        assert(views(cells@) =~= summary_cells(*row));
    }
    cells
}

/// The summary of expenses as a table: category, subcategory, the amount
/// under the code of `currency`, and the two shares; the total in the last
/// line.
pub fn summary_table(summary: &ExpenseSummary, currency: &Currency) -> (r: ReportTable)
    ensures
        views(r.columns@) == summary_columns(*currency),
        line_views(r.rows@) == summary_lines_of(*summary),
{
    let mut columns: Vec<String> = Vec::new();
    columns.push(String::from_str("Category"));
    columns.push(String::from_str("Subcategory"));
    columns.push(String::from_str(currency.code()));
    columns.push(String::from_str("% Total Expenses"));
    columns.push(String::from_str("% Total Income"));
    proof {
        assert(views(columns@) =~= summary_columns(*currency));
    }
    let mut rows: Vec<Vec<String>> = Vec::new();
    let mut i: usize = 0;
    while i < summary.rows.len()
        invariant
            i <= summary.rows.len(),
            rows@.len() == i,
            forall|k: int| 0 <= k < i ==> views((#[trigger] rows@[k])@) == summary_cells(
                summary.rows@[k],
            ),
        decreases summary.rows.len() - i,
    {
        rows.push(summary_line(&summary.rows[i]));
        i = i + 1;
    }
    rows.push(summary_line(&summary.total));
    proof {
        assert(line_views(rows@) =~= summary_lines_of(*summary));
    }
    ReportTable { columns, rows }
}

/// The cells of a line of the stand of the funds; the currency has a cell of
/// its own only where the accounts are shown each in its own.
pub open spec fn stand_cells(row: FundStandRow, with_currency: bool) -> Seq<Seq<char>> {
    if with_currency {
        seq![
            row.name@,
            row.country@,
            row.currency.code_text(),
            row.account_type.name_text(),
            hundredths_text(row.value as int),
        ]
    } else {
        seq![
            row.name@,
            row.country@,
            row.account_type.name_text(),
            hundredths_text(row.value as int),
        ]
    }
}

/// The names of the columns of the stand of the funds: with a target
/// currency the amounts stand under its code, without one under
/// `TOTAL VALUE` beside the currency of each account.
pub open spec fn stand_columns(target: Option<Currency>) -> Seq<Seq<char>> {
    match target {
        Some(currency) => seq!["NAME"@, "COUNTRY"@, "ACCOUNT TYPE"@, currency.code_text()],
        None => seq!["NAME"@, "COUNTRY"@, "CURRENCY"@, "ACCOUNT TYPE"@, "TOTAL VALUE"@],
    }
}

fn stand_line(row: &FundStandRow, with_currency: bool) -> (r: Vec<String>)
    ensures
        views(r@) == stand_cells(*row, with_currency),
{
    let mut cells: Vec<String> = Vec::new();
    cells.push(row.name.clone());
    cells.push(row.country.clone());
    if with_currency {
        cells.push(row.currency.to_string());
    }
    cells.push(row.account_type.to_string());
    cells.push(hundredths(row.value as i128));
    proof {
        assert(views(cells@) =~= stand_cells(*row, with_currency));
    }
    cells
}

/// The stand of the funds as a table.
pub fn stand_table(stand: &Vec<FundStandRow>, currency_to: Option<&Currency>) -> (r: ReportTable)
    ensures
        views(r.columns@) == stand_columns(crate::summaries::target_of(currency_to)),
        line_views(r.rows@) == Seq::new(
            stand@.len(),
            |i: int| stand_cells(stand@[i], currency_to.is_none()),
        ),
{
    let mut columns: Vec<String> = Vec::new();
    columns.push(String::from_str("NAME"));
    columns.push(String::from_str("COUNTRY"));
    let with_currency: bool = currency_to.is_none();
    match currency_to {
        Some(currency) => {
            columns.push(String::from_str("ACCOUNT TYPE"));
            columns.push(String::from_str(currency.code()));
        },
        None => {
            columns.push(String::from_str("CURRENCY"));
            columns.push(String::from_str("ACCOUNT TYPE"));
            columns.push(String::from_str("TOTAL VALUE"));
        },
    }
    proof {
        assert(views(columns@) =~= stand_columns(crate::summaries::target_of(currency_to)));
    }
    let mut rows: Vec<Vec<String>> = Vec::new();
    let mut i: usize = 0;
    while i < stand.len()
        invariant
            i <= stand.len(),
            rows@.len() == i,
            forall|k: int| 0 <= k < i ==> views((#[trigger] rows@[k])@) == stand_cells(
                stand@[k],
                with_currency,
            ),
        decreases stand.len() - i,
    {
        rows.push(stand_line(&stand[i], with_currency));
        i = i + 1;
    }
    proof {
        assert(line_views(rows@) =~= Seq::new(
            stand@.len(),
            |i: int| stand_cells(stand@[i], with_currency),
        ));
    }
    ReportTable { columns, rows }
}

/// The cells of a dated value: the day and the value.
pub open spec fn point_cells(point: NormalizedPoint) -> Seq<Seq<char>> {
    seq![iso_text(point.date.day_number()), hundredths_text(point.value as int)]
}

/// Dated values as a table with the columns `date` and `value`.
pub fn points_table(points: &Vec<NormalizedPoint>) -> (r: ReportTable)
    ensures
        views(r.columns@) == seq!["date"@, "value"@],
        line_views(r.rows@) == Seq::new(points@.len(), |i: int| point_cells(points@[i])),
{
    let mut columns: Vec<String> = Vec::new();
    columns.push(String::from_str("date"));
    columns.push(String::from_str("value"));
    proof {
        assert(views(columns@) =~= seq!["date"@, "value"@]);
    }
    let mut rows: Vec<Vec<String>> = Vec::new();
    let mut i: usize = 0;
    while i < points.len()
        invariant
            i <= points.len(),
            rows@.len() == i,
            forall|k: int| 0 <= k < i ==> views((#[trigger] rows@[k])@) == point_cells(points@[k]),
        decreases points.len() - i,
    {
        let mut cells: Vec<String> = Vec::new();
        cells.push(points[i].date.to_text());
        cells.push(hundredths(points[i].value as i128));
        proof {
            assert(views(cells@) =~= point_cells(points@[i as int]));
        }
        rows.push(cells);
        i = i + 1;
    }
    proof {
        assert(line_views(rows@) =~= Seq::new(points@.len(), |i: int| point_cells(points@[i])));
    }
    ReportTable { columns, rows }
}

} // verus!
