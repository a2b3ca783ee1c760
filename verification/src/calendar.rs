//! Month-grid maths for the panel clock's calendar popover.

use chrono::{Datelike, NaiveDate};
use vstd::prelude::*;

use crate::clock::LocalTime;
use crate::text::number::{signed_decimal, signed_decimal_of};

verus! {

/// One cell of the month grid. `day == 0` is a filler (leading/trailing blank).
#[derive(Debug, Clone, Copy, PartialEq, Eq, Structural)]
pub struct Cell {
    pub day: u32,
    pub today: bool,
}

/// How many cells the grid has: six weeks.
pub const GRID: usize = 42;

/// The first year of the calendar.
pub const MIN_YEAR: i32 = -262_143;

/// The last year of the calendar.
pub const MAX_YEAR: i32 = 262_142;

// ---------------------------------------------------------------------------
// The Gregorian calendar

/// A leap year.
pub open spec fn leap(year: int) -> bool {
    year % 4 == 0 && (year % 100 != 0 || year % 400 == 0)
}

/// How many days a month has.
pub open spec fn month_length(year: int, month: int) -> int {
    if month == 2 {
        if leap(year) {
            29
        } else {
            28
        }
    } else if month == 4 || month == 6 || month == 9 || month == 11 {
        30
    } else {
        31
    }
}

/// How many days of a year come before a month.
pub open spec fn days_before_month(year: int, month: int) -> int
    decreases month,
{
    if month <= 1 {
        0
    } else {
        days_before_month(year, month - 1) + month_length(year, month - 1)
    }
}

/// The number of a day, counted from 1 for the first day of the year 1.
pub open spec fn day_number(year: int, month: int, day: int) -> int {
    let y = year - 1;
    365 * y + y / 4 - y / 100 + y / 400 + days_before_month(year, month) + day
}

/// The weekday of a date: 0 is Monday. The first day of the year 1 is one.
pub open spec fn weekday(year: int, month: int, day: int) -> int {
    (day_number(year, month, day) - 1) % 7
}

/// A date that exists in the calendar.
pub open spec fn valid_date(year: int, month: int, day: int) -> bool {
    &&& MIN_YEAR <= year <= MAX_YEAR
    &&& 1 <= month <= 12
    &&& 1 <= day <= month_length(year, month)
}

/// The date before a date.
pub open spec fn day_before(year: int, month: int, day: int) -> (int, int, int) {
    if day > 1 {
        (year, month, day - 1)
    } else if month > 1 {
        (year, month - 1, month_length(year, month - 1))
    } else {
        (year - 1, 12, 31)
    }
}

/// The weekday of a date (`chrono::NaiveDate::weekday`), as days since Monday.
/// Dates are those of the proleptic Gregorian calendar; one that does not exist
/// has no weekday.
#[verifier::external_body]
fn weekday_of(year: i32, month: u32, day: u32) -> (r: Option<u32>)
    ensures
        match r {
            Some(w) => valid_date(year as int, month as int, day as int) && w == weekday(
                year as int,
                month as int,
                day as int,
            ),
            None => !valid_date(year as int, month as int, day as int),
        },
{
    NaiveDate::from_ymd_opt(year, month, day).map(|d| d.weekday().num_days_from_monday())
}

/// The date before a date (`chrono::NaiveDate::pred_opt`). There is none before a
/// date that does not exist, nor before the first of the calendar.
#[verifier::external_body]
fn previous_date(year: i32, month: u32, day: u32) -> (r: Option<(i32, u32, u32)>)
    ensures
        match r {
            Some((y, m, d)) => {
                &&& valid_date(year as int, month as int, day as int)
                &&& !(year == MIN_YEAR && month == 1 && day == 1)
                &&& (y as int, m as int, d as int) == day_before(
                    year as int,
                    month as int,
                    day as int,
                )
            },
            None => !valid_date(year as int, month as int, day as int) || (year == MIN_YEAR && month
                == 1 && day == 1),
        },
{
    NaiveDate::from_ymd_opt(year, month, day)
        .and_then(|d| d.pred_opt())
        .map(|d| (d.year(), d.month(), d.day()))
}

/// A month whose next month is in the calendar.
pub open spec fn month_fits(year: int, month: int) -> bool {
    &&& MIN_YEAR <= year <= MAX_YEAR
    &&& 1 <= month <= 12
    &&& !(year == MAX_YEAR && month == 12)
}

/// How many days a month has: the day before the next month's first.
pub fn days_in_month(year: i32, month: u32) -> (r: u32)
    requires
        month_fits(year as int, month as int),
    ensures
        r == month_length(year as int, month as int),
{
    let (ny, nm) = if month == 12 {
        (year + 1, 1)
    } else {
        (year, month + 1)
    };
    match previous_date(ny, nm, 1) {
        Some((_, _, day)) => day,
        None => 0,
    }
}

/// The name of a month.
pub open spec fn month_title(month: int) -> Seq<char> {
    if month == 1 {
        "January"@
    } else if month == 2 {
        "February"@
    } else if month == 3 {
        "March"@
    } else if month == 4 {
        "April"@
    } else if month == 5 {
        "May"@
    } else if month == 6 {
        "June"@
    } else if month == 7 {
        "July"@
    } else if month == 8 {
        "August"@
    } else if month == 9 {
        "September"@
    } else if month == 10 {
        "October"@
    } else if month == 11 {
        "November"@
    } else if month == 12 {
        "December"@
    } else {
        seq![]
    }
}

/// The name of a month, counted from 1; a number behind the last has none.
pub fn month_name(month: u32) -> (r: &'static str)
    requires
        month >= 1,
    ensures
        r@ == month_title(month as int),
{
    proof {
        reveal_strlit("");
        assert(""@ =~= seq![]);
    }
    match month {
        1 => "January",
        2 => "February",
        3 => "March",
        4 => "April",
        5 => "May",
        6 => "June",
        7 => "July",
        8 => "August",
        9 => "September",
        10 => "October",
        11 => "November",
        12 => "December",
        _ => "",
    }
}

/// The cell at an index of the grid of a month that starts after `lead` fillers
/// and has so many days.
pub open spec fn cell_at(lead: int, days: int, today: u32, i: int) -> Cell {
    if lead <= i < lead + days {
        Cell { day: (i - lead + 1) as u32, today: i - lead + 1 == today }
    } else {
        Cell { day: 0, today: false }
    }
}

/// The month grid of a month.
pub open spec fn grid(year: int, month: int, today: u32) -> Seq<Cell> {
    Seq::new(
        GRID as nat,
        |i: int| cell_at(weekday(year, month, 1), month_length(year, month), today, i),
    )
}

/// Build the calendar title (e.g. "June 2026") and a 6x7 grid of day cells for
/// the month containing `now`. Weeks start on Monday.
pub fn month_grid(now: &LocalTime) -> (r: (String, Vec<Cell>))
    requires
        month_fits(now.year as int, now.month as int),
    ensures
        r.0@ == month_title(now.month as int) + " "@ + signed_decimal(now.year as int),
        r.1@ == grid(now.year as int, now.month as int, now.day),
{
    let ghost (y, m) = (now.year as int, now.month as int);
    let ghost goal = grid(y, m, now.day);
    let lead: u32 = match weekday_of(now.year, now.month, 1) {
        Some(w) => w,
        None => 0,
    };
    let days = days_in_month(now.year, now.month);
    let mut cells: Vec<Cell> = Vec::new();
    for i in 0..lead
        invariant
            lead <= 6,
            days <= 31,
            goal == grid(y, m, now.day),
            lead == weekday(y, m, 1),
            days == month_length(y, m),
            cells@ =~= goal.take(i as int),
    {
        cells.push(Cell { day: 0, today: false });
    }
    for i in 0..days
        invariant
            lead <= 6,
            days <= 31,
            goal == grid(y, m, now.day),
            lead == weekday(y, m, 1),
            days == month_length(y, m),
            cells@ =~= goal.take(lead + i),
    {
        let d: u32 = i + 1;
        cells.push(Cell { day: d, today: d == now.day });
    }
    while cells.len() < GRID
        invariant
            lead + days <= cells.len() <= GRID,
            goal == grid(y, m, now.day),
            lead == weekday(y, m, 1),
            days == month_length(y, m),
            cells@ =~= goal.take(cells.len() as int),
        decreases GRID - cells.len(),
    {
        cells.push(Cell { day: 0, today: false });
    }
    assert(cells@ =~= goal);
    let mut title = month_name(now.month).to_string();
    title.append(" ");
    title.append(signed_decimal_of(now.year as i64).as_str());
    (title, cells)
}

// ---------------------------------------------------------------------------
// Laws

/// Every day of the month has a cell in the column of its weekday, in the order
/// of the days.
pub proof fn law_days_stand_in_their_weekday_column(
    year: int,
    month: int,
    today: u32,
    day: int,
)
    requires
        1 <= day <= month_length(year, month),
    ensures
        ({
            let i = weekday(year, month, 1) + day - 1;
            &&& 0 <= i < GRID
            &&& grid(year, month, today)[i] == Cell { day: day as u32, today: day == today }
            &&& i % 7 == weekday(year, month, day)
        }),
{
}

/// Only the given day is marked as today, and fillers never are.
pub proof fn law_only_today_is_marked(year: int, month: int, today: u32, i: int)
    requires
        0 <= i < GRID,
        grid(year, month, today)[i].today,
    ensures
        grid(year, month, today)[i].day == today,
        today != 0,
{
}

/// The months of the Gregorian calendar have their lengths: thirty days hath
/// September, April, June and November, all the rest have thirty-one, but February,
/// which has twenty-eight and in a leap year twenty-nine. A leap year is one that 4
/// divides, but not 100 unless 400 does.
pub proof fn law_months_have_their_lengths(year: int, month: int)
    requires
        1 <= month <= 12,
    ensures
        month_length(year, month) == 31 <==> month == 1 || month == 3 || month == 5 || month == 7
            || month == 8 || month == 10 || month == 12,
        month_length(year, month) == 30 <==> month == 4 || month == 6 || month == 9 || month == 11,
        month == 2 ==> (month_length(year, month) == 28 || month_length(year, month) == 29),
        month_length(year, 2) == 29 <==> year % 4 == 0 && (year % 100 == 0 ==> year % 400 == 0),
{
}

/// The weekdays follow each other from day to day, over the ends of months and of
/// years, and the first day of 1970 is a Thursday.
pub proof fn law_weekdays_follow_each_other(year: int, month: int, day: int)
    requires
        1 <= month <= 12,
        1 <= day <= month_length(year, month),
    ensures
        0 <= weekday(year, month, day) <= 6,
        day < month_length(year, month) ==> weekday(year, month, day + 1) == (weekday(
            year,
            month,
            day,
        ) + 1) % 7,
        day == month_length(year, month) && month < 12 ==> weekday(year, month + 1, 1) == (weekday(
            year,
            month,
            day,
        ) + 1) % 7,
        day == 31 && month == 12 ==> weekday(year + 1, 1, 1) == (weekday(year, month, day) + 1) % 7,
        weekday(1970, 1, 1) == 3,
{
    if month == 12 {
        reveal_with_fuel(days_before_month, 13);
        let y = year - 1;
        assert(year / 4 - y / 4 == if year % 4 == 0 {
            1int
        } else {
            0
        });
        assert(year / 100 - y / 100 == if year % 100 == 0 {
            1int
        } else {
            0
        });
        assert(year / 400 - y / 400 == if year % 400 == 0 {
            1int
        } else {
            0
        });
    }
    assert(days_before_month(1970, 1) == 0);
}

/// The grid has six weeks of seven days. Every cell is a day of the month or a
/// filler, and the days of the month are all there.
pub proof fn law_the_grid_holds_the_month(year: int, month: int, today: u32, i: int)
    requires
        1 <= month <= 12,
        0 <= i < 42,
    ensures
        grid(year, month, today).len() == 42,
        ({
            let c = grid(year, month, today)[i];
            let lead = weekday(year, month, 1);
            &&& c.day <= month_length(year, month)
            &&& c.day == 0 <==> i < lead || i >= lead + month_length(year, month)
            &&& c.day != 0 ==> c.day == i - lead + 1
            &&& c.today <==> c.day != 0 && c.day == today
        }),
{
}

/// The months have their names.
pub proof fn law_months_have_their_names()
    ensures
        month_title(1) == "January"@,
        month_title(2) == "February"@,
        month_title(3) == "March"@,
        month_title(4) == "April"@,
        month_title(5) == "May"@,
        month_title(6) == "June"@,
        month_title(7) == "July"@,
        month_title(8) == "August"@,
        month_title(9) == "September"@,
        month_title(10) == "October"@,
        month_title(11) == "November"@,
        month_title(12) == "December"@,
{
}

} // verus!
