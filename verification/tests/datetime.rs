use unitcalc::datetime::{Date, DayOfWeek, Month};

#[test]
pub fn leap_years() {
    assert_eq!(Date::new(1900, Month::Jan, 1).is_leap_year(), false);
    assert_eq!(Date::new(1904, Month::Jan, 1).is_leap_year(), true);
    assert_eq!(Date::new(1908, Month::Jan, 1).is_leap_year(), true);
    assert_eq!(Date::new(1951, Month::Jan, 1).is_leap_year(), false);
    assert_eq!(Date::new(1995, Month::Jan, 1).is_leap_year(), false);
    assert_eq!(Date::new(1996, Month::Jan, 1).is_leap_year(), true);
    assert_eq!(Date::new(1997, Month::Jan, 1).is_leap_year(), false);
    assert_eq!(Date::new(2000, Month::Jan, 1).is_leap_year(), true);
}

#[test]
pub fn dow() {
    assert_eq!(Date::new(2024, Month::Aug, 21).dow(), DayOfWeek::Wednesday);
}

#[test]
pub fn doy() {
    assert_eq!(Date::new(2024, Month::Aug, 21).doy(), 234);
}

#[test]
pub fn add_days() {
    assert_eq!(
        Date::new(2024, Month::Aug, 21).add_days(78),
        Date::new(2024, Month::Nov, 7)
    );
    assert_eq!(
        Date::new(2024, Month::Aug, 21).add_days(178),
        Date::new(2025, Month::Feb, 15)
    );
}

#[test]
fn add_days_across_new_year() {
    assert_eq!(
        Date::new(2023, Month::Dec, 31).add_days(1),
        Date::new(2024, Month::Jan, 1)
    );
    assert_eq!(
        Date::new(2024, Month::Feb, 28).add_days(1),
        Date::new(2024, Month::Feb, 29)
    );
    assert_eq!(
        Date::new(1995, Month::Feb, 28).add_days(1),
        Date::new(1995, Month::Mar, 1)
    );
}

#[test]
fn add_months_clamps_the_day() {
    let d = Date::new(2024, Month::Jan, 31).add_months(1);
    assert_eq!(d, Date::new(2024, Month::Feb, 29));
    let d = Date::new(1995, Month::Jan, 31).add_months(1);
    assert_eq!(d, Date::new(1995, Month::Feb, 28));
    let d = Date::new(2020, Month::Nov, 15).add_months(14);
    assert_eq!(d, Date::new(2021, Month::Jan, 15));
}

#[test]
fn days_in_month_follows_leap_years() {
    assert_eq!(Date::new(2024, Month::Feb, 1).days_in_month(), 29);
    assert_eq!(Date::new(2023, Month::Feb, 1).days_in_month(), 28);
    assert_eq!(Date::new(2023, Month::Apr, 1).days_in_month(), 30);
    assert_eq!(Date::new(2023, Month::Dec, 1).days_in_month(), 31);
}

#[test]
fn dow_start_of_year_epoch() {
    // the first of January 1900 anchors the week at Monday
    assert_eq!(Date::new(1900, Month::Jan, 1).dow_start_of_year(), DayOfWeek::Monday);
    assert_eq!(Date::new(1900, Month::Jan, 1).dow(), DayOfWeek::Tuesday);
}

#[test]
fn month_arithmetic_wraps() {
    assert_eq!(Month::from_u16(12), Month::Jan);
    assert_eq!(Month::Dec.plus(1), Month::Jan);
    assert_eq!(Month::Jan.index(), 0);
    assert_eq!(DayOfWeek::Saturday.plus(1), DayOfWeek::Sunday);
    assert_eq!(DayOfWeek::from_u16(9), DayOfWeek::Tuesday);
}
