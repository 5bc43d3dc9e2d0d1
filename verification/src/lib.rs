//! Multi-currency personal-finance ledger: an exchange-rate cache that resolves
//! a rate between any two supported currencies on any covered day, and the
//! date-bucketed aggregation of ledger records built on top of it.
//!
//! Money is counted in whole minor units (hundredths) and rates are exact
//! fractions, so every total in a report is an integer that can be proved.
//!
//! - [`calendar`]: days, and what is asked of `chrono` about them.
//! - [`money`]: rates as fractions, conversion with one rounding, sums.
//! - [`financial`]: currencies, transactions, parties, entities, accounts.
//! - [`series`]: observed rate series, appending by date, filling the gaps.
//! - [`currency_exchange`]: the rate cache and the rate of a pair on a day.
//! - [`refresh`]: building the cache from stored and fetched observations.
//! - [`tables`] and [`database`]: the tables of the ledger.
//! - [`summaries`]: totals, evolution, monthly expenses, summary, stand.
//! - [`views`], [`reports`]: the latest entries, and reports as text.
//! - [`ranking`], [`text`], [`palettes`]: order, texts and colours.

pub mod calendar;
pub mod currency_exchange;
pub mod database;
pub mod financial;
pub mod money;
pub mod palettes;
pub mod ranking;
pub mod refresh;
pub mod reports;
pub mod series;
pub mod summaries;
pub mod tables;
pub mod text;
pub mod views;
