use chrono::{DateTime, Datelike, Local, NaiveDate, TimeZone, Timelike};
use s_compositor::calendar::{days_in_month, month_grid, month_name, Cell, MAX_YEAR, MIN_YEAR};
use s_compositor::clock::{
    day_changed, deletion_date, format_clock, format_time, screenshot_dir, screenshot_name,
    screenshot_notice, LocalTime,
};

fn local(t: DateTime<Local>) -> LocalTime {
    LocalTime {
        year: t.year(),
        month: t.month(),
        day: t.day(),
        hour: t.hour(),
        minute: t.minute(),
        second: t.second(),
    }
}

#[test]
fn formats_zero_padded_parts() {
    let t = Local.with_ymd_and_hms(2026, 6, 3, 9, 5, 0).unwrap();
    assert_eq!(format_clock(&local(t)), ("09".to_string(), "05".to_string()));
}

#[test]
fn formats_afternoon_24h() {
    let t = Local.with_ymd_and_hms(2026, 6, 3, 15, 36, 0).unwrap();
    assert_eq!(format_clock(&local(t)), ("15".to_string(), "36".to_string()));
}

#[test]
fn formats_midnight() {
    let t = Local.with_ymd_and_hms(2026, 6, 3, 0, 0, 0).unwrap();
    assert_eq!(format_clock(&local(t)), ("00".to_string(), "00".to_string()));
}

#[test]
fn formats_zero_padded_stacked() {
    let t = Local.with_ymd_and_hms(2026, 6, 3, 9, 5, 0).unwrap();
    assert_eq!(s_compositor::slick::clock::format_clock(&local(t)), "09\n05");
}

#[test]
fn grid_shape_and_today() {
    // 1 June 2026 is a Monday, so there is no leading filler.
    let now = Local.with_ymd_and_hms(2026, 6, 15, 12, 0, 0).unwrap();
    let (title, cells) = month_grid(&local(now));
    assert_eq!(title, "June 2026");
    assert_eq!(cells.len(), 42);
    assert_eq!(
        cells[0],
        Cell {
            day: 1,
            today: false
        }
    );
    // 30 days in June, all present.
    let real: Vec<u32> = cells.iter().filter(|c| c.day != 0).map(|c| c.day).collect();
    assert_eq!(real.len(), 30);
    assert_eq!(*real.last().unwrap(), 30);
    // The 15th is flagged today.
    assert!(cells.iter().any(|c| c.day == 15 && c.today));
}

#[test]
fn leading_filler_for_midweek_start() {
    // 1 January 2026 is a Thursday -> 3 leading blanks (Mon,Tue,Wed).
    let now = Local.with_ymd_and_hms(2026, 1, 1, 9, 0, 0).unwrap();
    let (_, cells) = month_grid(&local(now));
    assert_eq!(cells[0].day, 0);
    assert_eq!(
        cells[3],
        Cell {
            day: 1,
            today: true
        }
    );
    assert_eq!(cells.iter().filter(|c| c.day != 0).count(), 31);
}

/// The calendar rules, computed the long way round.
fn expected_grid(year: i64, month: i64) -> (i64, i64) {
    let leap = |y: i64| y % 4 == 0 && (y % 100 != 0 || y % 400 == 0);
    let length = |y: i64, m: i64| match m {
        2 => 28 + leap(y) as i64,
        4 | 6 | 9 | 11 => 30,
        _ => 31,
    };
    let y = year - 1;
    let before = 365 * y + y.div_euclid(4) - y.div_euclid(100) + y.div_euclid(400);
    let day = before + (1..month).map(|m| length(year, m)).sum::<i64>();
    (day.rem_euclid(7), length(year, month))
}

#[test]
fn months_start_on_their_weekday_and_have_their_length() {
    let years = [
        MIN_YEAR, -401, -400, -100, -4, -1, 0, 1, 4, 100, 400, 1582, 1600, 1700, 1900, 1999, 2000,
        2001, 2024, 2025, 2026, 2100, 9999, 10000, MAX_YEAR,
    ];
    for year in years {
        for month in 1..=12u32 {
            if year == MAX_YEAR && month == 12 {
                continue;
            }
            let now = LocalTime { year, month, day: 31, hour: 0, minute: 0, second: 0 };
            let (_, cells) = month_grid(&now);
            let lead = cells.iter().take_while(|c| c.day == 0).count() as i64;
            let days = cells.iter().filter(|c| c.day != 0).count() as i64;
            assert_eq!((lead, days), expected_grid(year as i64, month as i64), "{year} {month}");
            assert_eq!(days_in_month(year, month) as i64, days);
            let first = NaiveDate::from_ymd_opt(year, month, 1).unwrap();
            assert_eq!(lead, first.weekday().num_days_from_monday() as i64);
        }
    }
}

#[test]
fn months_have_names() {
    assert_eq!(month_name(2), "February");
    assert_eq!(month_name(12), "December");
    assert_eq!(month_name(13), "");
    let bc = LocalTime { year: -44, month: 3, day: 15, hour: 0, minute: 0, second: 0 };
    assert_eq!(month_grid(&bc).0, "March -44");
}

#[test]
fn stamps_are_those_of_the_format_strings() {
    for year in [-12, 0, 7, 987, 2026, 9999, 10000, 123456] {
        let t = NaiveDate::from_ymd_opt(year, 3, 9).unwrap().and_hms_opt(4, 5, 6).unwrap();
        let l = LocalTime { year, month: 3, day: 9, hour: 4, minute: 5, second: 6 };
        assert_eq!(format_time(&l), t.format("%Y-%m-%d %H:%M").to_string());
        assert_eq!(deletion_date(&l), t.format("%Y-%m-%dT%H:%M:%S").to_string());
        assert_eq!(
            screenshot_name(&l),
            format!("Screenshot-{}.png", t.format("%Y%m%d-%H%M%S"))
        );
    }
    let l = LocalTime { year: 2026, month: 11, day: 16, hour: 23, minute: 59, second: 58 };
    assert_eq!(screenshot_name(&l), "Screenshot-20261116-235958.png");
}

#[test]
fn screenshots_go_to_pictures() {
    assert_eq!(screenshot_dir("/home/u", true), "/home/u/Pictures");
    assert_eq!(screenshot_dir("/home/u", false), "/home/u");
    assert_eq!(screenshot_notice("a.png"), "Saved a.png");
}

#[test]
fn grid_is_rebuilt_when_the_day_changes() {
    let l = LocalTime { year: 2026, month: 11, day: 16, hour: 0, minute: 0, second: 0 };
    assert!(day_changed(15, &l));
    assert!(!day_changed(16, &l));
}
