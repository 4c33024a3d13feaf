//! Months of the proleptic Gregorian calendar, in UTC.
//!
//! A moment is a number of seconds since the start of 1970. A month is a
//! number too: twelve times its year, plus its place in the year counted from
//! zero.

use chrono::{DateTime, Months, Utc};
use vstd::prelude::*;

use crate::text::{decimal, zero_padded};
use crate::text::{lemma_decimal, lemma_decimal_len, lemma_text_less_concat, lemma_text_less_numerals, lemma_zero_padded};
use crate::text::{is_numeral, numeral_value, text_less};

verus! {

/// The first month that a moment can lie in: January of the year -262143.
pub const FIRST_MONTH: i64 = -3145716;

/// The last month that a moment can lie in: December of the year 262142.
pub const LAST_MONTH: i64 = 3145715;

pub open spec fn is_leap_year(year: int) -> bool {
    year % 4 == 0 && (year % 100 != 0 || year % 400 == 0)
}

/// How many days the month has.
pub open spec fn month_length(month: int) -> int {
    let place = month % 12;
    if place == 1 {
        if is_leap_year(month / 12) {
            29
        } else {
            28
        }
    } else if place == 3 || place == 5 || place == 8 || place == 10 {
        30
    } else {
        31
    }
}

/// How many days of the year are over when the month begins.
pub open spec fn days_into_year(month: int) -> int {
    let place = month % 12;
    let plain: int = if place == 0 {
        0
    } else if place == 1 {
        31
    } else if place == 2 {
        59
    } else if place == 3 {
        90
    } else if place == 4 {
        120
    } else if place == 5 {
        151
    } else if place == 6 {
        181
    } else if place == 7 {
        212
    } else if place == 8 {
        243
    } else if place == 9 {
        273
    } else if place == 10 {
        304
    } else {
        334
    };
    if place >= 2 && is_leap_year(month / 12) {
        plain + 1
    } else {
        plain
    }
}

/// The first day of the year, as a number of days since the start of 1970.
pub open spec fn year_start(year: int) -> int {
    365 * (year - 1970) + (year - 1) / 4 - (year - 1) / 100 + (year - 1) / 400 - 477
}

/// The first day of the month, as a number of days since the start of 1970.
pub open spec fn month_start(month: int) -> int {
    year_start(month / 12) + days_into_year(month)
}

/// The day of a moment, as a number of days since the start of 1970.
pub open spec fn day_of(moment: int) -> int {
    moment / 86400
}

/// Whether the moment lies in the month.
pub open spec fn lies_in(moment: int, month: int) -> bool {
    month_start(month) <= day_of(moment) < month_start(month + 1)
}

/// The month that a moment lies in.
pub open spec fn month_of(moment: int) -> int {
    choose|month: int| lies_in(moment, month)
}

/// Whether a moment is close enough to the present to have a date.
pub open spec fn has_date(moment: int) -> bool {
    FIRST_MONTH <= month_of(moment) <= LAST_MONTH
}

/// The moment moved into another month: on the same day of it, or on its last
/// day where it is too short, and at the same time of day.
pub open spec fn moved_to(moment: int, month: int) -> int {
    let day = day_of(moment) - month_start(month_of(moment));
    let kept = if day < month_length(month) {
        day
    } else {
        month_length(month) - 1
    };
    (month_start(month) + kept) * 86400 + moment % 86400
}

/// The year as text: four digits at least, and a sign where four digits are
/// not enough for it.
pub open spec fn year_text(year: int) -> Seq<char> {
    if 0 <= year <= 9999 {
        zero_padded(decimal(year as nat), 4)
    } else if year > 9999 {
        seq!['+'] + decimal(year as nat)
    } else {
        seq!['-'] + zero_padded(decimal((-year) as nat), 4)
    }
}

/// The place of a month in its year, counted from one, as two digits.
pub open spec fn month_text(month: int) -> Seq<char> {
    zero_padded(decimal((month % 12 + 1) as nat), 2)
}

/// Year and month as text, such as `2024_07`.
pub open spec fn year_month_text(month: int) -> Seq<char> {
    year_text(month / 12) + seq!['_'] + month_text(month)
}

/// The next month begins where a month ends.
pub proof fn lemma_month_length(month: int)
    ensures
        month_start(month + 1) == month_start(month) + month_length(month),
        28 <= month_length(month) <= 31,
{
    if month % 12 == 11 {
        assert((month + 1) / 12 == month / 12 + 1);
        assert((month + 1) % 12 == 0);
        lemma_year_length(month / 12);
    } else {
        assert((month + 1) / 12 == month / 12);
        assert((month + 1) % 12 == month % 12 + 1);
    }
}

proof fn lemma_year_length(year: int)
    ensures
        year_start(year + 1) == year_start(year) + (if is_leap_year(year) { 366int } else { 365 }),
{
    assert(year / 4 == (year - 1) / 4 + (if year % 4 == 0 { 1int } else { 0 })) by (nonlinear_arith);
    assert(year / 100 == (year - 1) / 100 + (if year % 100 == 0 { 1int } else { 0 }))
        by (nonlinear_arith);
    assert(year / 400 == (year - 1) / 400 + (if year % 400 == 0 { 1int } else { 0 }))
        by (nonlinear_arith);
    assert(year % 100 == 0 ==> year % 4 == 0) by (nonlinear_arith);
    assert(year % 400 == 0 ==> year % 100 == 0) by (nonlinear_arith);
}

pub proof fn lemma_month_start_monotone(earlier: int, later: int)
    requires
        earlier < later,
    ensures
        month_start(earlier) + 28 * (later - earlier) <= month_start(later),
    decreases later - earlier,
{
    lemma_month_length(later - 1);
    if earlier < later - 1 {
        lemma_month_start_monotone(earlier, later - 1);
    }
}

proof fn lemma_years_last(earlier: int, later: int)
    requires
        earlier <= later,
    ensures
        year_start(earlier) + 360 * (later - earlier) <= year_start(later),
    decreases later - earlier,
{
    if earlier < later {
        lemma_year_length(later - 1);
        lemma_years_last(earlier, later - 1);
    }
}

/// Two months or more in a row have at least thirty days each, all but one of
/// them.
pub proof fn lemma_months_last(earlier: int, later: int)
    requires
        earlier + 2 <= later,
    ensures
        month_start(earlier) + 30 * (later - earlier) - 1 <= month_start(later),
{
    let (x, y) = (earlier / 12, later / 12);
    let (p, q) = (earlier % 12, later % 12);
    assert(earlier == 12 * x + p && later == 12 * y + q);
    if x == y {
        assert(days_into_year(earlier) + 30 * (q - p) - 1 <= days_into_year(later));
    } else {
        lemma_years_last(x + 1, y);
        lemma_year_length(x);
        assert(days_into_year(earlier) + 30 * (12 - p) + 1 <= if is_leap_year(x) {
            366int
        } else {
            365
        });
        assert(days_into_year(later) >= 30 * q - 1);
    }
}

proof fn month_with_day(day: int) -> (month: int)
    ensures
        month_start(month) <= day < month_start(month + 1),
    decreases (if day < 0 { -day } else { day }),
{
    if day == 0 {
        23640
    } else if day > 0 {
        let month = month_with_day(day - 1);
        lemma_month_length(month + 1);
        if day < month_start(month + 1) {
            month
        } else {
            month + 1
        }
    } else {
        let month = month_with_day(day + 1);
        lemma_month_length(month - 1);
        if month_start(month) <= day {
            month
        } else {
            month - 1
        }
    }
}

/// Every moment lies in exactly one month.
pub proof fn lemma_month_of(moment: int)
    ensures
        lies_in(moment, month_of(moment)),
        forall|month: int| #[trigger] lies_in(moment, month) ==> month == month_of(moment),
{
    let found = month_with_day(day_of(moment));
    assert(lies_in(moment, found));
    let own = month_of(moment);
    assert forall|month: int| #[trigger] lies_in(moment, month) implies month == own by {
        if month < own {
            if month + 1 < own {
                lemma_month_start_monotone(month + 1, own);
            }
        } else if own < month {
            if own + 1 < month {
                lemma_month_start_monotone(own + 1, month);
            }
        }
    }
}

/// A moment moved into a month lies in it.
pub proof fn lemma_moved_to(moment: int, month: int)
    ensures
        month_of(moved_to(moment, month)) == month,
        lies_in(moved_to(moment, month), month),
{
    lemma_month_of(moment);
    lemma_month_length(month);
    let moved = moved_to(moment, month);
    lemma_month_of(moved);
    assert(lies_in(moved, month));
}

/// Whether a reading of the system clock may be this moment: no earlier than
/// the start of 1970, and with a date.
pub open spec fn clock_may_read(moment: i64) -> bool {
    moment >= 0 && has_date(moment as int)
}

/// `chrono::Utc::now` reads the system clock; `timestamp` gives the whole
/// seconds since the start of 1970. The reading is no earlier than that start,
/// and it has a date. Nothing else is known of it.
#[verifier::external_body]
pub(crate) fn utc_now() -> (moment: i64)
    ensures
        clock_may_read(moment),
{
    Utc::now().timestamp()
}

/// `chrono::DateTime::format` with `%Y_%m`, on the moment that
/// `chrono::DateTime::from_timestamp` makes of a number of seconds: the year,
/// an underscore and the two digits of the month. A moment that has no date
/// gives nothing.
#[verifier::external_body]
pub(crate) fn format_year_month(moment: i64) -> (text: Option<String>)
    ensures
        match text {
            Some(text) => has_date(moment as int) && text@ == year_month_text(
                month_of(moment as int),
            ),
            None => !has_date(moment as int),
        },
{
    DateTime::<Utc>::from_timestamp(moment, 0).map(|date| date.format("%Y_%m").to_string())
}

/// `chrono::DateTime::checked_add_months`: the moment that many months later,
/// on the last day of a month that is too short, or nothing where no date is
/// that late.
#[verifier::external_body]
pub(crate) fn add_months(moment: i64, months: u32) -> (later: Option<i64>)
    requires
        has_date(moment as int),
    ensures
        match later {
            Some(later) => month_of(moment as int) + months <= LAST_MONTH && later == moved_to(
                moment as int,
                month_of(moment as int) + months,
            ),
            None => month_of(moment as int) + months > LAST_MONTH,
        },
{
    let date = DateTime::<Utc>::from_timestamp(moment, 0)?;
    date.checked_add_months(Months::new(months)).map(|later| later.timestamp())
}

/// `chrono::DateTime::checked_sub_months`: the moment that many months
/// earlier, on the last day of a month that is too short, or nothing where no
/// date is that early.
#[verifier::external_body]
pub(crate) fn sub_months(moment: i64, months: u32) -> (earlier: Option<i64>)
    requires
        has_date(moment as int),
    ensures
        match earlier {
            Some(earlier) => month_of(moment as int) - months >= FIRST_MONTH && earlier
                == moved_to(moment as int, month_of(moment as int) - months),
            None => month_of(moment as int) - months < FIRST_MONTH,
        },
{
    let date = DateTime::<Utc>::from_timestamp(moment, 0)?;
    date.checked_sub_months(Months::new(months)).map(|earlier| earlier.timestamp())
}

/// The month that many months earlier, or the month itself where no date is
/// that early.
pub open spec fn month_before(month: int, months: int) -> int {
    if month - months >= FIRST_MONTH {
        month - months
    } else {
        month
    }
}

/// The month that many months later, or the month itself where no date is
/// that late.
pub open spec fn month_after(month: int, months: int) -> int {
    if month + months <= LAST_MONTH {
        month + months
    } else {
        month
    }
}

/// The moment that many months earlier, or the moment itself where no date is
/// that early.
pub open spec fn moment_before(moment: int, months: int) -> int {
    if month_of(moment) - months >= FIRST_MONTH {
        moved_to(moment, month_of(moment) - months)
    } else {
        moment
    }
}

/// The moment that many months later, or the moment itself where no date is
/// that late.
pub open spec fn moment_after(moment: int, months: int) -> int {
    if month_of(moment) + months <= LAST_MONTH {
        moved_to(moment, month_of(moment) + months)
    } else {
        moment
    }
}

/// The moment that many months earlier, or the moment itself where no date is
/// that early.
pub fn months_before(moment: i64, months: u32) -> (earlier: i64)
    requires
        has_date(moment as int),
    ensures
        earlier == moment_before(moment as int, months as int),
        has_date(earlier as int),
        month_of(earlier as int) == month_before(month_of(moment as int), months as int),
        month_of(moment as int) - months >= FIRST_MONTH ==> month_of(earlier as int) == month_of(
            moment as int,
        ) - months && earlier == moved_to(moment as int, month_of(moment as int) - months),
        month_of(moment as int) - months < FIRST_MONTH ==> earlier == moment,
{
    proof {
        lemma_moved_to(moment as int, month_of(moment as int) - months);
    }
    match sub_months(moment, months) {
        Some(earlier) => earlier,
        None => moment,
    }
}

/// The moment that many months later, or the moment itself where no date is
/// that late.
pub fn months_after(moment: i64, months: u32) -> (later: i64)
    requires
        has_date(moment as int),
    ensures
        later == moment_after(moment as int, months as int),
        has_date(later as int),
        month_of(later as int) == month_after(month_of(moment as int), months as int),
        month_of(moment as int) + months <= LAST_MONTH ==> month_of(later as int) == month_of(
            moment as int,
        ) + months && later == moved_to(moment as int, month_of(moment as int) + months),
        month_of(moment as int) + months > LAST_MONTH ==> later == moment,
{
    proof {
        lemma_moved_to(moment as int, month_of(moment as int) + months);
    }
    match add_months(moment, months) {
        Some(later) => later,
        None => moment,
    }
}

/// No moment that has a date is further from the start of 1970 than this.
pub proof fn lemma_date_bounds(moment: int)
    requires
        has_date(moment),
    ensures
        -9_000_000_000_000 < moment < 9_000_000_000_000,
{
    lemma_month_of(moment);
    let month = month_of(moment);
    if month > FIRST_MONTH {
        lemma_month_start_monotone(FIRST_MONTH as int, month);
    }
    if month < LAST_MONTH {
        lemma_month_start_monotone(month + 1, LAST_MONTH + 1);
    }
}

/// The year and month of a moment as text, or those of `now` where the moment
/// has no date.
pub fn year_month_or(moment: i64, now: i64) -> (text: String)
    requires
        has_date(now as int),
    ensures
        text@ == year_month_text(month_or(moment as int, now as int)),
        has_date(moment as int) ==> text@ == year_month_text(month_of(moment as int)),
        !has_date(moment as int) ==> text@ == year_month_text(month_of(now as int)),
{
    match format_year_month(moment) {
        Some(text) => text,
        None => match format_year_month(now) {
            Some(text) => text,
            None => {
                assert(false);
                String::new()
            },
        },
    }
}

/// The month of a moment, or that of `now` where the moment has no date.
pub open spec fn month_or(moment: int, now: int) -> int {
    if has_date(moment) {
        month_of(moment)
    } else {
        month_of(now)
    }
}

proof fn lemma_year_digits(year: int)
    requires
        0 <= year,
    ensures
        is_numeral(zero_padded(decimal(year as nat), 4)),
        numeral_value(zero_padded(decimal(year as nat), 4)) == year,
        zero_padded(decimal(year as nat), 4).len() >= 4,
        year <= 9999 ==> zero_padded(decimal(year as nat), 4).len() == 4,
{
    lemma_decimal(year as nat);
    lemma_decimal_len(year as nat);
    lemma_zero_padded(decimal(year as nat), 4);
}

proof fn lemma_month_digits(month: int)
    ensures
        is_numeral(month_text(month)),
        numeral_value(month_text(month)) == month % 12 + 1,
        month_text(month).len() == 2,
{
    let place = (month % 12 + 1) as nat;
    lemma_decimal(place);
    lemma_decimal_len(place);
    lemma_zero_padded(decimal(place), 2);
}

/// Neither the year nor the month holds an underscore, and each can be read
/// back from its text.
pub proof fn lemma_year_month_parts(a: int, b: int)
    ensures
        !year_text(a / 12).contains('_'),
        !month_text(a).contains('_'),
        year_text(a / 12) == year_text(b / 12) && month_text(a) == month_text(b) ==> a == b,
{
    lemma_month_digits(a);
    lemma_month_digits(b);
    let (x, y) = (a / 12, b / 12);
    lemma_decimal(x as nat);
    lemma_decimal(y as nat);
    if x >= 0 {
        lemma_year_digits(x);
    } else {
        lemma_year_digits(-x);
    }
    if y >= 0 {
        lemma_year_digits(y);
    } else {
        lemma_year_digits(-y);
    }
    assert(x > 9999 || x < 0 ==> year_text(x).drop_first() =~= (if x > 9999 {
        decimal(x as nat)
    } else {
        zero_padded(decimal((-x) as nat), 4)
    }));
    assert(y > 9999 || y < 0 ==> year_text(y).drop_first() =~= (if y > 9999 {
        decimal(y as nat)
    } else {
        zero_padded(decimal((-y) as nat), 4)
    }));
    if year_text(x) == year_text(y) {
        assert(year_text(x)[0] == year_text(y)[0]);
        assert(x == y);
    }
    assert forall|i: int| 0 <= i < year_text(x).len() implies year_text(x)[i] != '_' by {
        if !(0 <= x <= 9999) && i > 0 {
            assert(year_text(x)[i] == year_text(x).drop_first()[i - 1]);
        }
    }
}

/// Up to the year 9999 the texts of two months stand in dictionary order exactly
/// when the months stand in the order of time, unless both are from before the
/// year 0.
pub proof fn lemma_year_month_order(a: int, b: int)
    requires
        a < 120000,
        b < 120000,
        a >= 0 || b >= 0,
    ensures
        text_less(year_month_text(a), year_month_text(b)) <==> a < b,
{
    lemma_month_digits(a);
    lemma_month_digits(b);
    let (x, y) = (a / 12, b / 12);
    if a < 0 {
        lemma_year_digits(y);
        assert(year_month_text(a)[0] == '-');
        assert(year_month_text(b)[0] == year_text(y)[0]);
    } else if b < 0 {
        lemma_year_digits(x);
        assert(year_month_text(b)[0] == '-');
        assert(year_month_text(a)[0] == year_text(x)[0]);
    } else {
        lemma_year_digits(x);
        lemma_year_digits(y);
        lemma_text_less_numerals(year_text(x), year_text(y));
        lemma_text_less_numerals(month_text(a), month_text(b));
        lemma_text_less_concat(
            year_text(x) + seq!['_'],
            year_text(y) + seq!['_'],
            month_text(a),
            month_text(b),
        );
        lemma_text_less_concat(year_text(x), year_text(y), seq!['_'], seq!['_']);
        assert(!text_less(seq!['_'], seq!['_'])) by {
            reveal_with_fuel(text_less, 2);
        }
        if x == y {
            assert(year_text(x) + seq!['_'] == year_text(y) + seq!['_']);
        } else {
            assert((year_text(x) + seq!['_']).take(4) =~= year_text(x));
            assert((year_text(y) + seq!['_']).take(4) =~= year_text(y));
        }
    }
}

} // verus!
