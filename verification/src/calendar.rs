//! Calendar dates in the proleptic Gregorian calendar.

use chrono::Datelike;
use vstd::prelude::*;

use crate::text;

verus! {

pub open spec fn is_leap(y: int) -> bool {
    y % 4 == 0 && (y % 100 != 0 || y % 400 == 0)
}

pub open spec fn days_in_month(y: int, m: int) -> int {
    if m == 2 {
        if is_leap(y) {
            29
        } else {
            28
        }
    } else if m == 4 || m == 6 || m == 9 || m == 11 {
        30
    } else {
        31
    }
}

pub open spec fn is_date(y: int, m: int, d: int) -> bool {
    1 <= m <= 12 && 1 <= d <= days_in_month(y, m)
}

/// Days of the year `y` before its month `m`.
pub open spec fn days_before_month(y: int, m: int) -> int
    decreases m,
{
    if m <= 1 {
        0
    } else {
        days_before_month(y, m - 1) + days_in_month(y, m - 1)
    }
}

/// Leap days of the years before `y`, counted from the year 1.
pub open spec fn leap_days_before(y: int) -> int {
    (y - 1) / 4 - (y - 1) / 100 + (y - 1) / 400
}

/// Days from 1 January 1970 to the given date.
pub open spec fn day_number(y: int, m: int, d: int) -> int {
    365 * (y - 1970) + leap_days_before(y) - leap_days_before(1970) + days_before_month(y, m) + d
        - 1
}

/// Whether the timestamp falls on the given date, in UTC.
pub open spec fn falls_on(secs: i64, y: int, m: int, d: int) -> bool {
    is_date(y, m, d) && day_number(y, m, d) == secs as int / 86_400
}

/// The first and the last year that can be told from a timestamp.
pub open spec fn year_in_range(y: int) -> bool {
    -262_143 <= y <= 262_142
}

/// Whether a timestamp falls in those years.
pub open spec fn datable(secs: i64) -> bool {
    day_number(-262_143, 1, 1) <= secs as int / 86_400 <= day_number(262_142, 12, 31)
}

/// `DateTime::from_timestamp` on whole seconds, with `Datelike::year`,
/// `month` and `day` of what it gives: the date in UTC on which the timestamp
/// falls. There is none outside the years from 262144 BCE to 262142 CE.
#[verifier::external_body]
fn date_of_timestamp(secs: i64) -> (r: Option<(i32, u32, u32)>)
    ensures
        r is Some == datable(secs),
        r matches Some((y, m, d)) ==> falls_on(secs, y as int, m as int, d as int)
            && year_in_range(y as int),
{
    chrono::DateTime::from_timestamp(secs, 0).map(|t| (t.year(), t.month(), t.day()))
}

/// `NaiveDate::from_ymd_opt`: whether the date exists and lies in the years
/// that the type can hold.
#[verifier::external_body]
pub(crate) fn date_exists(y: i32, m: u32, d: u32) -> (r: bool)
    ensures
        r == (is_date(y as int, m as int, d as int) && year_in_range(y as int)),
{
    chrono::NaiveDate::from_ymd_opt(y, m, d).is_some()
}

/// `NaiveTime::from_hms_opt`: whether hour, minute and second make a time of
/// day.
#[verifier::external_body]
pub(crate) fn time_exists(h: u32, m: u32, s: u32) -> (r: bool)
    ensures
        r == (h < 24 && m < 60 && s < 60),
{
    chrono::NaiveTime::from_hms_opt(h, m, s).is_some()
}

/// A year with at least four characters; a sign counts as one.
pub open spec fn year_text(y: int) -> Seq<char> {
    if y >= 0 {
        text::dec_padded(y as nat, 4)
    } else {
        seq!['-'] + text::dec_padded((-y) as nat, 3)
    }
}

/// The folder for a month: year and month with a hyphen between them.
pub open spec fn month_folder(y: int, m: int) -> Seq<char> {
    year_text(y) + "-"@ + text::dec_padded(m as nat, 2)
}

fn month_folder_name(y: i32, m: u32) -> (s: String)
    requires
        year_in_range(y as int),
    ensures
        s@ == month_folder(y as int, m as int),
{
    let mut s = if y >= 0 {
        text::decimal_padded(y as u64, 4)
    } else {
        let mut t = String::new();
        t.push('-');
        let back: i32 = -y;
        t.append(text::decimal_padded(back as u64, 3).as_str());
        proof {
            assert(t@ =~= year_text(y as int));
        }
        t
    };
    s.append("-");
    s.append(text::decimal_padded(m as u64, 2).as_str());
    s
}

/// The date, in UTC, on which a timestamp falls: year, month and day.
pub open spec fn date_of(secs: i64) -> (int, int, int) {
    choose|date: (int, int, int)| #[trigger] falls_on(secs, date.0, date.1, date.2)
}

/// The folder for the month of a timestamp.
pub open spec fn folder_text(secs: i64) -> Seq<char> {
    month_folder(date_of(secs).0, date_of(secs).1)
}

/// The folder name for the month, in UTC, of a timestamp in seconds; `None`
/// for a timestamp outside the calendar.
pub fn folder_of_timestamp(secs: i64) -> (r: Option<String>)
    ensures
        r is Some == datable(secs),
        r matches Some(s) ==> s@ == folder_text(secs),
{
    match date_of_timestamp(secs) {
        None => None,
        Some((y, m, d)) => {
            let s = month_folder_name(y, m);
            proof {
                let date = (y as int, m as int, d as int);
                assert(falls_on(secs, date.0, date.1, date.2));
                let chosen = date_of(secs);
                law_one_date(secs, date.0, date.1, date.2, chosen.0, chosen.1, chosen.2);
            }
            Some(s)
        },
    }
}

proof fn lemma_before_month(y: int, m: int, n: int)
    requires
        1 <= m < n <= 13,
    ensures
        days_before_month(y, m) + days_in_month(y, m) <= days_before_month(y, n),
    decreases n,
{
    if m < n - 1 {
        lemma_before_month(y, m, n - 1);
    }
}

proof fn lemma_year_length(y: int)
    ensures
        days_before_month(y, 13) == if is_leap(y) {
            366int
        } else {
            365int
        },
        leap_days_before(y + 1) - leap_days_before(y) == if is_leap(y) {
            1int
        } else {
            0int
        },
{
    reveal_with_fuel(days_before_month, 13);
}

proof fn lemma_years_ascend(y: int, z: int)
    requires
        y < z,
    ensures
        day_number(y, 1, 1) + days_before_month(y, 13) <= day_number(z, 1, 1),
    decreases z - y,
{
    lemma_year_length(y);
    lemma_year_length(z - 1);
    reveal_with_fuel(days_before_month, 2);
    if y < z - 1 {
        lemma_years_ascend(y, z - 1);
    }
}

/// A day has one date: a timestamp cannot fall on two.
pub proof fn law_one_date(secs: i64, y: int, m: int, d: int, y2: int, m2: int, d2: int)
    requires
        falls_on(secs, y, m, d),
        falls_on(secs, y2, m2, d2),
    ensures
        y == y2 && m == m2 && d == d2,
{
    lemma_before_month(y, m, 13);
    lemma_before_month(y2, m2, 13);
    lemma_first_of_month(y, m);
    lemma_first_of_month(y2, m2);
    if y < y2 {
        lemma_years_ascend(y, y2);
    } else if y2 < y {
        lemma_years_ascend(y2, y);
    } else if m < m2 {
        lemma_before_month(y, m, m2);
    } else if m2 < m {
        lemma_before_month(y, m2, m);
    }
}

proof fn lemma_first_of_month(y: int, m: int)
    requires
        1 <= m,
    ensures
        days_before_month(y, m) >= 0,
        days_before_month(y, 1) == 0,
    decreases m,
{
    if m > 1 {
        lemma_first_of_month(y, m - 1);
    }
}

/// The folder for a month tells the year, in four digits, and the month, in
/// two, of the day on which a timestamp falls.
pub proof fn law_month_folder_tells_the_month(secs: i64, r: Option<String>, y: int, m: int, d: int)
    requires
        call_ensures(folder_of_timestamp, (secs,), r),
        falls_on(secs, y, m, d),
        0 <= y <= 9999,
    ensures
        r is Some,
        r->0@.len() == 7,
        text::dec_value(r->0@.take(4)) == y,
        r->0@[4] == '-',
        text::dec_value(r->0@.skip(5)) == m,
        1 <= m <= 12,
{
    reveal_strlit("-");
    let date = date_of(secs);
    assert(falls_on(secs, y, m, d));
    assert(exists|date: (int, int, int)| #[trigger] falls_on(secs, date.0, date.1, date.2)) by {
        let here = (y, m, d);
        assert(falls_on(secs, here.0, here.1, here.2));
    }
    law_one_date(secs, y, m, d, date.0, date.1, date.2);
    lemma_in_calendar(secs, y, m, d);
    text::law_padded_number(y as nat, 4);
    text::law_padded_number(m as nat, 2);
    lemma_digits(y as nat, 4);
    lemma_digits(m as nat, 2);
    let a = text::dec_padded(y as nat, 4);
    let b = text::dec_padded(m as nat, 2);
    assert(r->0@ == a + "-"@ + b);
    assert(r->0@.take(4) =~= a);
    assert(r->0@.skip(5) =~= b);
}

proof fn lemma_digits(n: nat, width: nat)
    requires
        width == 2 && n < 100 || width == 4 && n < 10_000,
    ensures
        text::dec_padded(n, width).len() == width,
{
    reveal_with_fuel(text::dec, 5);
}

proof fn lemma_in_calendar(secs: i64, y: int, m: int, d: int)
    requires
        falls_on(secs, y, m, d),
        0 <= y <= 9999,
    ensures
        datable(secs),
{
    lemma_first_of_month(y, m);
    lemma_years_ascend(-262_143, y);
    lemma_years_ascend(y, 262_142);
    lemma_first_of_month(-262_143, 13);
    lemma_first_of_month(262_142, 12);
    if m < 13 {
        lemma_before_month(y, m, 13);
    }
}

} // verus!
