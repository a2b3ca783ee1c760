//! Local times and how they are shown.

use vstd::prelude::*;

use crate::text::number::{decimal, padded_decimal_of, zero_padded};
use crate::text::paths::{join, joined};

verus! {

/// A point in local time, as its calendar and clock fields.
#[derive(Debug, Clone, Copy, PartialEq, Eq, Structural)]
pub struct LocalTime {
    pub year: i32,
    pub month: u32,
    pub day: u32,
    pub hour: u32,
    pub minute: u32,
    pub second: u32,
}

/// A number with at least two digits.
pub open spec fn two_digits(n: u32) -> Seq<char> {
    zero_padded(decimal(n as nat), 2)
}

/// A year with at least four digits; one that four digits do not hold has its
/// sign.
pub open spec fn year_text(year: i32) -> Seq<char> {
    if 0 <= year <= 9999 {
        zero_padded(decimal(year as nat), 4)
    } else if year > 0 {
        seq!['+'] + zero_padded(decimal(year as nat), 4)
    } else {
        seq!['-'] + zero_padded(decimal((-year) as nat), 4)
    }
}

/// A number with at least two digits.
fn pad2(n: u32) -> (r: String)
    ensures
        r@ == two_digits(n),
{
    padded_decimal_of(n as u64, 2)
}

/// A year with at least four digits.
fn pad_year(year: i32) -> (r: String)
    ensures
        r@ == year_text(year),
{
    if year >= 0 && year <= 9999 {
        return padded_decimal_of(year as u64, 4);
    }
    let mut out = String::new();
    if year > 0 {
        out.push('+');
        out.append(padded_decimal_of(year as u64, 4).as_str());
    } else {
        out.push('-');
        out.append(padded_decimal_of((-(year as i64)) as u64, 4).as_str());
    }
    assert(out@ =~= year_text(year));
    out
}

/// Format a timestamp for the panel clock, returning the zero-padded hours and
/// minutes separately. The panel shows them as "HH:MM" on one line when there
/// is room, and stacks the hours over the minutes when it is too narrow.
pub fn format_clock(now: &LocalTime) -> (r: (String, String))
    ensures
        r.0@ == two_digits(now.hour),
        r.1@ == two_digits(now.minute),
{
    (pad2(now.hour), pad2(now.minute))
}

/// The date and the time with separators.
pub open spec fn stamp_text(
    t: LocalTime,
    dash: Seq<char>,
    between: Seq<char>,
    colon: Seq<char>,
    seconds: bool,
) -> Seq<char> {
    year_text(t.year) + dash + two_digits(t.month) + dash + two_digits(t.day) + between
        + two_digits(t.hour) + colon + two_digits(t.minute) + if seconds {
        colon + two_digits(t.second)
    } else {
        seq![]
    }
}

/// The date and the time with separators.
fn stamp(t: &LocalTime, dash: &str, between: &str, colon: &str, seconds: bool) -> (r: String)
    ensures
        r@ == stamp_text(*t, dash@, between@, colon@, seconds),
{
    let mut out = pad_year(t.year);
    out.append(dash);
    out.append(pad2(t.month).as_str());
    out.append(dash);
    out.append(pad2(t.day).as_str());
    out.append(between);
    out.append(pad2(t.hour).as_str());
    out.append(colon);
    out.append(pad2(t.minute).as_str());
    let ghost upto = out@;
    if seconds {
        out.append(colon);
        out.append(pad2(t.second).as_str());
        assert(out@ =~= upto + (colon@ + two_digits(t.second)));
    } else {
        assert(out@ =~= upto + seq![]);
    }
    out
}

/// Format a modification time as a compact local "YYYY-MM-DD HH:MM" stamp.
pub fn format_time(t: &LocalTime) -> (r: String)
    ensures
        r@ == stamp_text(*t, "-"@, " "@, ":"@, false),
{
    stamp(t, "-", " ", ":", false)
}

/// Format a deletion date as "YYYY-MM-DDTHH:MM:SS".
pub fn deletion_date(t: &LocalTime) -> (r: String)
    ensures
        r@ == stamp_text(*t, "-"@, "T"@, ":"@, true),
{
    stamp(t, "-", "T", ":", true)
}

/// The file name of a screenshot: "Screenshot-YYYYMMDD-HHMMSS.png".
pub fn screenshot_name(t: &LocalTime) -> (r: String)
    ensures
        r@ == "Screenshot-"@ + stamp_text(*t, ""@, "-"@, ""@, true) + ".png"@,
{
    let mut out = "Screenshot-".to_string();
    out.append(stamp(t, "", "-", "", true).as_str());
    out.append(".png");
    out
}

/// Where a screenshot is saved: in the pictures directory of the home directory,
/// if there is one, else in the home directory itself.
pub fn screenshot_dir(home: &str, has_pictures: bool) -> (r: String)
    ensures
        r@ == if has_pictures {
            joined(home@, "Pictures"@)
        } else {
            home@
        },
{
    if has_pictures {
        join(home, "Pictures")
    } else {
        home.to_string()
    }
}

/// What the notification of a saved screenshot says.
pub fn screenshot_notice(name: &str) -> (r: String)
    ensures
        r@ == "Saved "@ + name@,
{
    let mut out = "Saved ".to_string();
    out.append(name);
    out
}

/// When the calendar's month grid is to be built anew: the day has changed.
pub fn day_changed(last_day: u32, now: &LocalTime) -> (r: bool)
    ensures
        r == (last_day != now.day),
{
    last_day != now.day
}

// ---------------------------------------------------------------------------
// Laws

/// The two digits of a number below a hundred.
proof fn lemma_two_digits(n: u32)
    requires
        n < 100,
    ensures
        two_digits(n).len() == 2,
        two_digits(n)[0] == (48 + n / 10) as u8 as char,
        two_digits(n)[1] == (48 + n % 10) as u8 as char,
{
    reveal_with_fuel(decimal, 3);
    reveal_with_fuel(zero_padded, 3);
    let d = decimal(n as nat);
    if n < 10 {
        assert(d.len() == 1);
        assert((seq!['0'] + d).len() == 2);
        assert(two_digits(n) == seq!['0'] + d);
    } else {
        assert(d.len() == 2);
    }
}

/// The four digits of a year.
proof fn lemma_four_digits(year: i32)
    requires
        1000 <= year <= 9999,
    ensures
        year_text(year).len() == 4,
        year_text(year)[0] == (48 + year / 1000) as u8 as char,
        year_text(year)[1] == (48 + year / 100 % 10) as u8 as char,
        year_text(year)[2] == (48 + year / 10 % 10) as u8 as char,
        year_text(year)[3] == (48 + year % 10) as u8 as char,
{
    reveal_with_fuel(decimal, 5);
    let d = decimal(year as nat);
    assert(d.len() == 4);
}

/// The clock shows the hours and the minutes, each with two digits.
pub proof fn law_the_clock_has_two_digits(n: u32)
    requires
        n < 100,
    ensures
        two_digits(n).len() == 2,
        two_digits(n)[0] == (48 + n / 10) as u8 as char,
        two_digits(n)[1] == (48 + n % 10) as u8 as char,
{
    lemma_two_digits(n);
}

/// A time is written as year, month, day, hour, minute and, where asked for, second,
/// each at its place: with separators of one character as `YYYY-MM-DDTHH:MM:SS`,
/// with the inner ones left out as `YYYYMMDD-HHMMSS`.
pub proof fn law_times_are_written_in_order(
    t: LocalTime,
    dash: Seq<char>,
    between: Seq<char>,
    colon: Seq<char>,
)
    requires
        1000 <= t.year <= 9999,
        t.month < 100,
        t.day < 100,
        t.hour < 100,
        t.minute < 100,
        t.second < 100,
        between.len() == 1,
    ensures
        dash.len() == 1 && colon.len() == 1 ==> {
            let s = stamp_text(t, dash, between, colon, true);
            &&& s.len() == 19
            &&& s.take(16) == stamp_text(t, dash, between, colon, false)
            &&& s[0] == (48 + t.year / 1000) as u8 as char && s[3] == (48 + t.year % 10) as u8 as char
            &&& s[4] == dash[0] && s[7] == dash[0] && s[10] == between[0]
            &&& s[13] == colon[0] && s[16] == colon[0]
            &&& s[5] == (48 + t.month / 10) as u8 as char && s[6] == (48 + t.month
                % 10) as u8 as char
            &&& s[8] == (48 + t.day / 10) as u8 as char && s[9] == (48 + t.day % 10) as u8 as char
            &&& s[11] == (48 + t.hour / 10) as u8 as char && s[12] == (48 + t.hour
                % 10) as u8 as char
            &&& s[14] == (48 + t.minute / 10) as u8 as char && s[15] == (48 + t.minute
                % 10) as u8 as char
            &&& s[17] == (48 + t.second / 10) as u8 as char && s[18] == (48 + t.second
                % 10) as u8 as char
        },
        dash.len() == 0 && colon.len() == 0 ==> {
            let s = stamp_text(t, dash, between, colon, true);
            &&& s.len() == 15
            &&& s[0] == (48 + t.year / 1000) as u8 as char && s[3] == (48 + t.year % 10) as u8 as char
            &&& s[4] == (48 + t.month / 10) as u8 as char && s[5] == (48 + t.month
                % 10) as u8 as char
            &&& s[6] == (48 + t.day / 10) as u8 as char && s[7] == (48 + t.day % 10) as u8 as char
            &&& s[8] == between[0]
            &&& s[9] == (48 + t.hour / 10) as u8 as char && s[10] == (48 + t.hour
                % 10) as u8 as char
            &&& s[11] == (48 + t.minute / 10) as u8 as char && s[12] == (48 + t.minute
                % 10) as u8 as char
            &&& s[13] == (48 + t.second / 10) as u8 as char && s[14] == (48 + t.second
                % 10) as u8 as char
        },
{
    lemma_four_digits(t.year);
    lemma_two_digits(t.month);
    lemma_two_digits(t.day);
    lemma_two_digits(t.hour);
    lemma_two_digits(t.minute);
    lemma_two_digits(t.second);
    let full = stamp_text(t, dash, between, colon, true);
    let brief = stamp_text(t, dash, between, colon, false);
    if dash.len() == 1 && colon.len() == 1 {
        assert(full.take(16) =~= brief);
    }
}

/// The clock shows the hour before the minute, files are dated to the minute and
/// deletions to the second, and a screenshot is named after the second it was taken
/// in.
pub proof fn law_what_times_are_shown_as(
    t: &LocalTime,
    clock: (String, String),
    file: String,
    deletion: String,
    shot: String,
)
    requires
        call_ensures(format_clock, (t,), clock),
        call_ensures(format_time, (t,), file),
        call_ensures(deletion_date, (t,), deletion),
        call_ensures(screenshot_name, (t,), shot),
    ensures
        clock.0@ == two_digits(t.hour),
        clock.1@ == two_digits(t.minute),
        file@ == year_text(t.year) + "-"@ + two_digits(t.month) + "-"@ + two_digits(t.day) + " "@
            + two_digits(t.hour) + ":"@ + two_digits(t.minute),
        deletion@ == year_text(t.year) + "-"@ + two_digits(t.month) + "-"@ + two_digits(t.day)
            + "T"@ + two_digits(t.hour) + ":"@ + two_digits(t.minute) + ":"@ + two_digits(t.second),
        shot@ == "Screenshot-"@ + year_text(t.year) + two_digits(t.month) + two_digits(t.day) + "-"@
            + two_digits(t.hour) + two_digits(t.minute) + two_digits(t.second) + ".png"@,
{
    reveal_strlit("");
    assert(file@ =~= year_text(t.year) + "-"@ + two_digits(t.month) + "-"@ + two_digits(t.day)
        + " "@ + two_digits(t.hour) + ":"@ + two_digits(t.minute));
    assert(deletion@ =~= year_text(t.year) + "-"@ + two_digits(t.month) + "-"@ + two_digits(t.day)
        + "T"@ + two_digits(t.hour) + ":"@ + two_digits(t.minute) + ":"@ + two_digits(t.second));
    assert(shot@ =~= "Screenshot-"@ + year_text(t.year) + two_digits(t.month) + two_digits(t.day)
        + "-"@ + two_digits(t.hour) + two_digits(t.minute) + two_digits(t.second) + ".png"@);
}

/// A screenshot goes to the pictures in the home directory where there is such a
/// directory, and its notice names it. The calendar is built anew when the day is
/// another.
pub proof fn law_where_screenshots_go(
    home: &str,
    has_pictures: bool,
    dir: String,
    name: &str,
    notice: String,
    last_day: u32,
    now: &LocalTime,
    changed: bool,
)
    requires
        call_ensures(screenshot_dir, (home, has_pictures), dir),
        call_ensures(screenshot_notice, (name,), notice),
        call_ensures(day_changed, (last_day, now), changed),
    ensures
        has_pictures ==> dir@ == joined(home@, "Pictures"@),
        !has_pictures ==> dir@ == home@,
        notice@ == "Saved "@ + name@,
        changed <==> last_day != now.day,
{
}

} // verus!
