//! Calendar days as day numbers of the proleptic Gregorian calendar.
//!
//! A [`Date`] is the number of a day, counted from January 1 of year 1 as day 1.
//! Ordering and day arithmetic are plain integer arithmetic; what depends on the
//! shape of the calendar (year, month, day of month, the ISO text) is asked of
//! `chrono`.

use chrono::Datelike;
use vstd::prelude::*;

verus! {

/// Day number of the earliest day that `chrono::NaiveDate` can hold
/// (January 1 of year -262143).
pub const MIN_DAY: i32 = -95_746_129;

/// Day number of the latest day that `chrono::NaiveDate` can hold
/// (December 31 of year 262142).
pub const MAX_DAY: i32 = 95_745_399;

/// The day number of the calendar day `year`-`month`-`day`, as
/// `chrono::NaiveDate::from_ymd_opt` followed by `Datelike::num_days_from_ce`
/// gives it; `None` where that day does not exist or lies outside chrono's range.
pub uninterp spec fn civil_day_number(year: int, month: int, day: int) -> Option<int>;

/// The day of the month (1 to 31) of the day with this number, as
/// `chrono::Datelike::day` gives it.
pub uninterp spec fn day_of_month(day_number: int) -> int;

/// The number of days of the month that holds the day with this number, as
/// `chrono::Datelike::num_days_in_month` gives it.
pub uninterp spec fn month_length(day_number: int) -> int;

/// The text of the day with this number in the form `YYYY-MM-DD`, as the
/// `Display` impl of `chrono::NaiveDate` writes it.
pub uninterp spec fn iso_text(day_number: int) -> Seq<char>;

/// Trusted: calls `chrono::NaiveDate::from_ymd_opt` and counts the days of what
/// it returns with `Datelike::num_days_from_ce`. The contract names the outcome
/// [`civil_day_number`]; a day that chrono accepts lies within its range.
#[verifier::external_body]
fn chrono_day_number(year: i32, month: u32, day: u32) -> (r: Option<i32>)
    ensures
        r.is_some() <==> civil_day_number(year as int, month as int, day as int).is_some(),
        r matches Some(n) ==> Some(n as int) == civil_day_number(
            year as int,
            month as int,
            day as int,
        ) && MIN_DAY <= n <= MAX_DAY,
{
    match chrono::NaiveDate::from_ymd_opt(year, month, day) {
        Some(date) => Some(date.num_days_from_ce()),
        None => None,
    }
}

/// Trusted: calls `chrono::Local::now` and `DateTime::date_naive`, and counts
/// the days of the result. Nothing is claimed of the outcome but that it is a
/// day of chrono's calendar.
#[verifier::external_body]
fn chrono_today() -> (r: i32)
    ensures
        MIN_DAY <= r <= MAX_DAY,
{
    chrono::Local::now().date_naive().num_days_from_ce()
}

/// Trusted: calls `chrono::Datelike::day` on the `NaiveDate` with this day
/// number. chrono documents the range 1 to 31; the first day of the same month
/// is still a day of the calendar because chrono's earliest day is a January 1.
#[verifier::external_body]
fn chrono_day_of_month(days: i32) -> (r: u32)
    requires
        MIN_DAY <= days <= MAX_DAY,
    ensures
        r == day_of_month(days as int),
        1 <= r <= 31,
        days - (r - 1) >= MIN_DAY,
{
    chrono::NaiveDate::from_num_days_from_ce_opt(days).unwrap().day()
}

/// Trusted: calls `chrono::Datelike::num_days_in_month` on the `NaiveDate` with
/// this day number. A month has 28 to 31 days and holds the day asked about; its
/// last day is still a day of the calendar because chrono's latest day is a
/// December 31.
#[verifier::external_body]
fn chrono_month_length(days: i32) -> (r: u32)
    requires
        MIN_DAY <= days <= MAX_DAY,
    ensures
        r == month_length(days as int),
        28 <= r <= 31,
        day_of_month(days as int) <= r,
        days - day_of_month(days as int) + r <= MAX_DAY,
{
    let length: u8 = chrono::NaiveDate::from_num_days_from_ce_opt(days).unwrap().num_days_in_month();
    length as u32
}

/// Trusted: formats the `NaiveDate` with this day number through its `Display`
/// impl. The contract names the text [`iso_text`] and claims nothing else of it.
#[verifier::external_body]
fn chrono_iso_text(days: i32) -> (r: String)
    requires
        MIN_DAY <= days <= MAX_DAY,
    ensures
        r@ == iso_text(days as int),
{
    chrono::NaiveDate::from_num_days_from_ce_opt(days).unwrap().to_string()
}

/// A calendar day within the range of `chrono::NaiveDate`.
#[derive(Clone, Copy, Debug, PartialEq, Eq, Structural, Hash)]
pub struct Date {
    days: i32,
}

impl Date {
    #[verifier::type_invariant]
    spec fn in_calendar(self) -> bool {
        MIN_DAY <= self.days <= MAX_DAY
    }

    /// The number of this day.
    pub closed spec fn day_number(self) -> int {
        self.days as int
    }

    /// The number of the first day of the month that holds the day `day_number`.
    pub open spec fn month_start_number(day_number: int) -> int {
        day_number - (day_of_month(day_number) - 1)
    }

    /// The number of the last day of the month that holds the day `day_number`.
    pub open spec fn month_end_number(day_number: int) -> int {
        day_number - day_of_month(day_number) + month_length(day_number)
    }

    /// The day with the given number, if chrono's calendar holds it.
    pub fn from_days(days: i32) -> (r: Option<Date>)
        ensures
            r.is_some() <==> MIN_DAY <= days <= MAX_DAY,
            r matches Some(d) ==> d.day_number() == days,
    {
        if MIN_DAY <= days && days <= MAX_DAY {
            Some(Date { days })
        } else {
            None
        }
    }

    /// The calendar day `year`-`month`-`day`, or `None` where the calendar has
    /// no such day.
    pub fn from_ymd(year: i32, month: u32, day: u32) -> (r: Option<Date>)
        ensures
            r.is_some() <==> civil_day_number(year as int, month as int, day as int).is_some(),
            r matches Some(d) ==> Some(d.day_number()) == civil_day_number(
                year as int,
                month as int,
                day as int,
            ),
    {
        match chrono_day_number(year, month, day) {
            Some(days) => Some(Date { days }),
            None => None,
        }
    }

    /// Today's date on this machine's clock, in its local time zone: a day of
    /// chrono's calendar, and which one only the clock says. Two calls may differ.
    pub fn today() -> (r: Date)
        ensures
            MIN_DAY <= r.day_number() <= MAX_DAY,
    {
        Date { days: chrono_today() }
    }

    /// The number of this day; it always lies within chrono's range.
    pub fn days(&self) -> (r: i32)
        ensures
            r == self.day_number(),
            MIN_DAY <= r <= MAX_DAY,
    {
        proof {
            use_type_invariant(self);
        }
        self.days
    }

    /// True where `self` is an earlier day than `other`.
    pub fn is_before(&self, other: &Date) -> (r: bool)
        ensures
            r == (self.day_number() < other.day_number()),
    {
        self.days < other.days
    }

    /// The day after this one, or `None` on the last day of the calendar.
    pub fn succ(&self) -> (r: Option<Date>)
        ensures
            r.is_some() <==> self.day_number() < MAX_DAY,
            r matches Some(d) ==> d.day_number() == self.day_number() + 1,
    {
        proof {
            use_type_invariant(self);
        }
        if self.days < MAX_DAY {
            Some(Date { days: self.days + 1 })
        } else {
            None
        }
    }

    /// The day `offset` days after this one; the caller shows that it exists.
    pub fn plus_days(&self, offset: u32) -> (r: Date)
        requires
            self.day_number() + offset <= MAX_DAY,
        ensures
            r.day_number() == self.day_number() + offset,
    {
        proof {
            use_type_invariant(self);
        }
        let ahead: i32 = offset as i32;
        Date { days: self.days + ahead }
    }

    /// The day of the month of this day, from 1.
    pub fn day(&self) -> (r: u32)
        ensures
            r == day_of_month(self.day_number()),
            1 <= r <= 31,
    {
        proof {
            use_type_invariant(self);
        }
        chrono_day_of_month(self.days)
    }

    /// The first day of the month that holds this day.
    pub fn first_day_of_month(&self) -> (r: Date)
        ensures
            r.day_number() == Date::month_start_number(self.day_number()),
            self.day_number() - 30 <= r.day_number() <= self.day_number(),
    {
        proof {
            use_type_invariant(self);
        }
        let day: u32 = chrono_day_of_month(self.days);
        let back: i32 = (day - 1) as i32;
        Date { days: self.days - back }
    }

    /// The last day of the month that holds this day.
    pub fn last_day_of_month(&self) -> (r: Date)
        ensures
            r.day_number() == Date::month_end_number(self.day_number()),
            self.day_number() <= r.day_number() <= self.day_number() + 30,
    {
        proof {
            use_type_invariant(self);
        }
        let day: u32 = chrono_day_of_month(self.days);
        let length: u32 = chrono_month_length(self.days);
        let ahead: i32 = (length - day) as i32;
        Date { days: self.days + ahead }
    }

    /// This day as text, `YYYY-MM-DD`.
    pub fn to_text(&self) -> (r: String)
        ensures
            r@ == iso_text(self.day_number()),
    {
        proof {
            use_type_invariant(self);
        }
        chrono_iso_text(self.days)
    }
}

} // verus!
