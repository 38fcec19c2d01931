//! Calendar dates and timestamps. A [`Date`] is a day of the proleptic
//! Gregorian calendar, held as its day number (day 1 is 0001-01-01, as
//! `chrono::NaiveDate::num_days_from_ce` counts); the calendar arithmetic
//! itself is chrono's.

use chrono::{DateTime, Datelike, Days, Months, NaiveDate};
use vstd::prelude::*;

use crate::text::dec;

verus! {

/// Day number of `NaiveDate::MIN` (January 1, 262144 BCE).
pub const MIN_DAYS: i32 = -95746129;

/// Day number of `NaiveDate::MAX` (December 31, 262142 CE).
pub const MAX_DAYS: i32 = 95745399;

/// First year chrono represents.
pub const MIN_YEAR: i32 = -262143;

/// Last year chrono represents.
pub const MAX_YEAR: i32 = 262142;

/// Is `d` the day number of a date chrono represents?
pub open spec fn in_range(d: int) -> bool {
    MIN_DAYS <= d <= MAX_DAYS
}

/// Gregorian leap year (with year 0 = 1 BCE, as chrono counts).
pub open spec fn is_leap(y: int) -> bool {
    y % 4 == 0 && (y % 100 != 0 || y % 400 == 0)
}

/// Number of days of month `m` (1-based) in year `y`.
pub open spec fn month_len(y: int, m: int) -> int {
    if m == 2 {
        if is_leap(y) {
            29
        } else {
            28
        }
    } else if m == 4 || m == 6 || m == 9 || m == 11 {
        30
    } else {
        31
    }
}

/// Is `(y, m, d)` a date chrono represents?
pub open spec fn valid_ymd(y: int, m: int, d: int) -> bool {
    &&& MIN_YEAR <= y <= MAX_YEAR
    &&& 1 <= m <= 12
    &&& 1 <= d <= month_len(y, m)
}

/// Days before month `m` in year `y`.
pub open spec fn days_before_month(y: int, m: int) -> int
    decreases m,
{
    if m <= 1 {
        0
    } else {
        days_before_month(y, m - 1) + month_len(y, m - 1)
    }
}

/// Day number of `(y, m, d)`: 0001-01-01 is day 1.
pub open spec fn days_from_ymd(y: int, m: int, d: int) -> int {
    let p = y - 1;
    p * 365 + p / 4 - p / 100 + p / 400 + days_before_month(y, m) + d
}

/// The year, month and day of a day number.
pub open spec fn ymd_of(days: int) -> (int, int, int) {
    choose|ymd: (int, int, int)|
        valid_ymd(ymd.0, ymd.1, ymd.2) && days_from_ymd(ymd.0, ymd.1, ymd.2) == days
}

/// What `NaiveDate::checked_add_months` gives for the date with day number
/// `days`: the same day `k` months later, clamped to the last day of a
/// shorter month; `None` when that leaves chrono's range.
pub open spec fn add_months_days(days: int, k: int) -> Option<int> {
    let (y, m, d) = ymd_of(days);
    let t = y * 12 + (m - 1) + k;
    let y2 = t / 12;
    let m2 = t % 12 + 1;
    let d2 = if d <= month_len(y2, m2) {
        d
    } else {
        month_len(y2, m2)
    };
    if MIN_YEAR <= y2 <= MAX_YEAR {
        Some(days_from_ymd(y2, m2, d2))
    } else {
        None
    }
}

// ---------------------------------------------------------------------------
// Calendar facts
// ---------------------------------------------------------------------------

/// The day number of the first day of the month with index `t`
/// (`t = 12 * year + month - 1`).
pub open spec fn month_start(t: int) -> int {
    days_from_ymd(t / 12, t % 12 + 1, 1)
}

/// The length of the month with index `t`.
pub open spec fn month_len_at(t: int) -> int {
    month_len(t / 12, t % 12 + 1)
}

proof fn lemma_div_step(y: int, n: int)
    requires
        n > 0,
    ensures
        y / n - (y - 1) / n == (if y % n == 0 {
            1int
        } else {
            0int
        }),
{
    assert(y / n - (y - 1) / n == (if y % n == 0 {
        1int
    } else {
        0int
    })) by (nonlinear_arith)
        requires
            n > 0,
    ;
}

proof fn lemma_days_before_december(y: int)
    ensures
        days_before_month(y, 12) == 334 + (if is_leap(y) {
            1int
        } else {
            0int
        }),
{
    reveal_with_fuel(days_before_month, 12);
}

/// New Year's Day follows December 31.
proof fn lemma_new_year(y: int)
    ensures
        days_from_ymd(y + 1, 1, 1) == days_from_ymd(y, 12, 31) + 1,
{
    lemma_div_step(y, 4);
    lemma_div_step(y, 100);
    lemma_div_step(y, 400);
    lemma_days_before_december(y);
    assert(days_before_month(y + 1, 1) == 0);
}

/// The first day of a month comes right after the last day of the month
/// before.
pub proof fn lemma_month_step(t: int)
    ensures
        month_start(t + 1) == month_start(t) + month_len_at(t),
{
    let y = t / 12;
    let m = t % 12 + 1;
    if m < 12 {
        assert((t + 1) / 12 == y && (t + 1) % 12 + 1 == m + 1);
        assert(days_before_month(y, m + 1) == days_before_month(y, m) + month_len(y, m));
    } else {
        assert((t + 1) / 12 == y + 1 && (t + 1) % 12 + 1 == 1);
        lemma_new_year(y);
    }
}

/// Months are in order: a later month starts after an earlier one ends.
pub proof fn lemma_month_order(a: int, b: int)
    requires
        a < b,
    ensures
        month_start(a) + month_len_at(a) <= month_start(b),
    decreases b - a,
{
    lemma_month_step(a);
    if a + 1 < b {
        lemma_month_order(a + 1, b);
        assert(month_len_at(a + 1) > 0);
    }
}

/// The day number of a date from the start of its month.
pub proof fn lemma_day_in_month(y: int, m: int, d: int)
    requires
        1 <= m <= 12,
    ensures
        days_from_ymd(y, m, d) == month_start(12 * y + m - 1) + d - 1,
{
    assert((12 * y + m - 1) / 12 == y && (12 * y + m - 1) % 12 + 1 == m);
}

/// Every day number chrono represents is the day number of a date.
pub proof fn lemma_date_exists(n: int)
    requires
        in_range(n),
    ensures
        exists|ymd: (int, int, int)| valid_ymd(ymd.0, ymd.1, ymd.2) && days_from_ymd(ymd.0, ymd.1, ymd.2) == n,
    decreases n - MIN_DAYS,
{
    if n == MIN_DAYS {
        assert(days_before_month(MIN_YEAR as int, 1) == 0);
        assert(days_from_ymd(MIN_YEAR as int, 1, 1) == MIN_DAYS);
        let w: (int, int, int) = (MIN_YEAR as int, 1, 1);
        assert(valid_ymd(w.0, w.1, w.2) && days_from_ymd(w.0, w.1, w.2) == n);
    } else {
        lemma_date_exists(n - 1);
        let ymd = choose|ymd: (int, int, int)|
            valid_ymd(ymd.0, ymd.1, ymd.2) && days_from_ymd(ymd.0, ymd.1, ymd.2) == n - 1;
        let (y, m, d) = ymd;
        if d < month_len(y, m) {
            let w: (int, int, int) = (y, m, d + 1);
            assert(valid_ymd(w.0, w.1, w.2) && days_from_ymd(w.0, w.1, w.2) == n);
        } else if m < 12 {
            assert(days_before_month(y, m + 1) == days_before_month(y, m) + month_len(y, m));
            let w: (int, int, int) = (y, m + 1, 1);
            assert(valid_ymd(w.0, w.1, w.2) && days_from_ymd(w.0, w.1, w.2) == n);
        } else {
            if y == MAX_YEAR {
                lemma_days_before_december(y);
                assert(days_from_ymd(y, 12, 31) == MAX_DAYS);
            }
            lemma_new_year(y);
            assert(days_before_month(y + 1, 1) == 0);
            let w: (int, int, int) = (y + 1, 1, 1);
            assert(valid_ymd(w.0, w.1, w.2) && days_from_ymd(w.0, w.1, w.2) == n);
        }
    }
}

/// Different dates have different day numbers, so the date read back from
/// the day number of a date is that date.
pub proof fn lemma_ymd_of(y: int, m: int, d: int)
    requires
        valid_ymd(y, m, d),
    ensures
        ymd_of(days_from_ymd(y, m, d)) == (y, m, d),
{
    let n = days_from_ymd(y, m, d);
    let w: (int, int, int) = (y, m, d);
    assert(valid_ymd(w.0, w.1, w.2) && days_from_ymd(w.0, w.1, w.2) == n);
    let (y2, m2, d2) = ymd_of(n);
    lemma_day_in_month(y, m, d);
    lemma_day_in_month(y2, m2, d2);
    let t = 12 * y + m - 1;
    let t2 = 12 * y2 + m2 - 1;
    assert(t / 12 == y && t % 12 + 1 == m);
    assert(t2 / 12 == y2 && t2 % 12 + 1 == m2);
    if t < t2 {
        lemma_month_order(t, t2);
    } else if t2 < t {
        lemma_month_order(t2, t);
    }
}

/// Adding more months than chrono's whole range spans leaves the range.
pub proof fn lemma_add_months_past_range(days: int, k: int)
    requires
        in_range(days),
        k >= 12 * (MAX_YEAR - MIN_YEAR + 1),
    ensures
        add_months_days(days, k) is None,
{
    lemma_date_exists(days);
    let (y, m, d) = ymd_of(days);
    let t = y * 12 + (m - 1) + k;
    assert(t / 12 > MAX_YEAR);
}

/// Adding at least one month gives a later date.
pub proof fn lemma_add_months_later(days: int, k: int)
    requires
        in_range(days),
        k >= 1,
    ensures
        add_months_days(days, k) matches Some(x) ==> x > days,
{
    lemma_date_exists(days);
    let (y, m, d) = ymd_of(days);
    let t0 = 12 * y + m - 1;
    let t = y * 12 + (m - 1) + k;
    lemma_day_in_month(y, m, d);
    lemma_month_order(t0, t);
    let y2 = t / 12;
    let m2 = t % 12 + 1;
    let d2 = if d <= month_len(y2, m2) {
        d
    } else {
        month_len(y2, m2)
    };
    lemma_day_in_month(y2, m2, d2);
    assert(12 * y2 + m2 - 1 == t);
}

/// What `str::parse::<NaiveDate>` gives (chrono's `%Y-%m-%d` parser): the
/// day number, or the text of chrono's error.
pub uninterp spec fn spec_naive_date_parse(s: Seq<char>) -> Result<int, Seq<char>>;

/// The day number `str::parse::<NaiveDate>` reads from a text, if any.
pub open spec fn spec_parse_iso_date(s: Seq<char>) -> Option<int> {
    match spec_naive_date_parse(s) {
        Ok(d) => Some(d),
        Err(_) => None,
    }
}

/// The decimal digits of `n`, with zeros in front up to `w` digits.
pub open spec fn zero_pad(n: nat, w: nat) -> Seq<char> {
    let digits = dec(n);
    if digits.len() < w {
        Seq::new((w - digits.len()) as nat, |i: int| '0') + digits
    } else {
        digits
    }
}

/// How chrono writes a year: four digits for years 0 to 9999, otherwise a
/// sign and at least four digits.
pub open spec fn year_text(y: int) -> Seq<char> {
    if 0 <= y <= 9999 {
        zero_pad(y as nat, 4)
    } else if y < 0 {
        "-"@ + zero_pad((-y) as nat, 4)
    } else {
        "+"@ + zero_pad(y as nat, 4)
    }
}

/// What `Display` on a `NaiveDate` prints for a day number: the year, then
/// the month and the day in two digits each, separated by `-`.
pub open spec fn date_text(days: int) -> Seq<char> {
    let (y, m, d) = ymd_of(days);
    year_text(y) + "-"@ + zero_pad(m as nat, 2) + "-"@ + zero_pad(d as nat, 2)
}

/// A calendar date.
#[derive(Clone, Copy, Debug, PartialEq, Eq, Hash)]
pub struct Date {
    days: i32,
}

impl View for Date {
    type V = int;

    closed spec fn view(&self) -> int {
        self.days as int
    }
}

impl Date {
    #[verifier::type_invariant]
    spec fn inv(self) -> bool {
        in_range(self.days as int)
    }

    /// The date with day number `d` (used in specifications).
    pub closed spec fn from_days_spec(d: int) -> Date {
        Date { days: d as i32 }
    }

    /// The day number, for equality of views.
    pub broadcast proof fn lemma_view_from_days(d: int)
        requires
            in_range(d),
        ensures
            (#[trigger] Date::from_days_spec(d))@ == d,
    {
    }

    /// A date is the date of its own day number.
    pub broadcast proof fn lemma_date_of_view(d: Date)
        ensures
            #[trigger] Date::from_days_spec(d@) == d,
    {
    }

    /// Dates are equal exactly when their day numbers are.
    pub broadcast proof fn lemma_view_injective(a: Date, b: Date)
        requires
            #[trigger] a@ == #[trigger] b@,
        ensures
            a == b,
    {
    }

    /// The day number (0001-01-01 is day 1).
    pub fn days_from_ce(&self) -> (r: i32)
        ensures
            r as int == self@,
            in_range(r as int),
    {
        proof {
            use_type_invariant(self);
        }
        self.days
    }

    /// The date with a given day number; `None` outside chrono's range.
    pub fn from_days(d: i32) -> (r: Option<Date>)
        ensures
            r matches Some(x) ==> x@ == d,
            r is Some <==> in_range(d as int),
    {
        if MIN_DAYS <= d && d <= MAX_DAYS {
            Some(Date { days: d })
        } else {
            None
        }
    }

    /// `NaiveDate::from_ymd_opt`: the date `y-m-d`, or `None` if there is no
    /// such day.
    pub fn from_ymd_opt(y: i32, m: u32, d: u32) -> (r: Option<Date>)
        ensures
            r is Some <==> valid_ymd(y as int, m as int, d as int),
            r matches Some(x) ==> x@ == days_from_ymd(y as int, m as int, d as int),
    {
        match chrono_from_ymd(y, m, d) {
            Some(n) => Some(Date { days: n }),
            None => None,
        }
    }

    /// `NaiveDate::succ_opt`: the next day, `None` after the last date.
    pub fn succ_opt(&self) -> (r: Option<Date>)
        ensures
            r is Some <==> self@ < MAX_DAYS,
            r matches Some(x) ==> x@ == self@ + 1,
    {
        proof {
            use_type_invariant(self);
        }
        match chrono_succ(self.days) {
            Some(n) => Some(Date { days: n }),
            None => None,
        }
    }

    /// `NaiveDate::checked_add_days`: `n` days later, `None` past the last
    /// date.
    pub fn checked_add_days(&self, n: u64) -> (r: Option<Date>)
        ensures
            r is Some <==> self@ + n <= MAX_DAYS,
            r matches Some(x) ==> x@ == self@ + n,
    {
        proof {
            use_type_invariant(self);
        }
        match chrono_add_days(self.days, n) {
            Some(x) => Some(Date { days: x }),
            None => None,
        }
    }

    /// `NaiveDate::checked_add_months`: the same day `k` months later,
    /// clamped to the end of a shorter month.
    pub fn checked_add_months(&self, k: u32) -> (r: Option<Date>)
        ensures
            r matches Some(x) ==> add_months_days(self@, k as int) == Some(x@),
            r is None ==> add_months_days(self@, k as int) is None,
    {
        proof {
            use_type_invariant(self);
        }
        match chrono_add_months(self.days, k) {
            Some(x) => Some(Date { days: x }),
            None => None,
        }
    }

    /// `NaiveDate::from_str` (`YYYY-MM-DD`), with chrono's error message.
    pub fn parse(s: &str) -> (r: Result<Date, String>)
        ensures
            r matches Ok(x) ==> (spec_naive_date_parse(s@) matches Ok(y) && y == x@),
            r matches Err(e) ==> (spec_naive_date_parse(s@) matches Err(m) && m == e@),
    {
        match chrono_parse_date(s) {
            Ok(x) => Ok(Date { days: x }),
            Err(e) => Err(e),
        }
    }

    /// `NaiveDate::from_str` (`YYYY-MM-DD`), `None` when the text is no date.
    pub fn parse_iso(s: &str) -> (r: Option<Date>)
        ensures
            r matches Some(x) ==> spec_parse_iso_date(s@) == Some(x@),
            r is None ==> spec_parse_iso_date(s@) is None,
    {
        match Date::parse(s) {
            Ok(x) => Some(x),
            Err(_) => None,
        }
    }

    /// The `YYYY-MM-DD` text of the date (chrono's `Display`).
    pub fn to_text(&self) -> (r: String)
        ensures
            r@ == date_text(self@),
    {
        proof {
            use_type_invariant(self);
        }
        chrono_date_text(self.days)
    }

    /// `self <= other`.
    pub fn le(&self, other: &Date) -> (r: bool)
        ensures
            r == (self@ <= other@),
    {
        self.days <= other.days
    }

    /// `self < other`.
    pub fn lt(&self, other: &Date) -> (r: bool)
        ensures
            r == (self@ < other@),
    {
        self.days < other.days
    }

    /// `self == other`.
    pub fn same(&self, other: &Date) -> (r: bool)
        ensures
            r == (self@ == other@),
            r == (*self == *other),
    {
        self.days == other.days
    }
}

/// The date with a given day number, in specifications.
pub open spec fn date_of(d: int) -> Date {
    Date::from_days_spec(d)
}

// ---------------------------------------------------------------------------
// chrono
// ---------------------------------------------------------------------------

/// `NaiveDate::from_ymd_opt` (proleptic Gregorian): `Some` exactly for the
/// days that exist in chrono's year range, with their day number.
#[verifier::external_body]
fn chrono_from_ymd(y: i32, m: u32, d: u32) -> (r: Option<i32>)
    ensures
        r is Some <==> valid_ymd(y as int, m as int, d as int),
        r matches Some(x) ==> x as int == days_from_ymd(y as int, m as int, d as int),
        r matches Some(x) ==> in_range(x as int),
{
    NaiveDate::from_ymd_opt(y, m, d).map(|x| x.num_days_from_ce())
}

/// `NaiveDate::succ_opt`: the next day, or `None` for `NaiveDate::MAX`.
#[verifier::external_body]
fn chrono_succ(days: i32) -> (r: Option<i32>)
    requires
        in_range(days as int),
    ensures
        r is Some <==> days < MAX_DAYS,
        r matches Some(x) ==> x == days + 1,
{
    NaiveDate::from_num_days_from_ce_opt(days).and_then(|x| x.succ_opt()).map(|x| x.num_days_from_ce())
}

/// `NaiveDate::checked_add_days`: `n` days later, or `None` when the result
/// would pass `NaiveDate::MAX`.
#[verifier::external_body]
fn chrono_add_days(days: i32, n: u64) -> (r: Option<i32>)
    requires
        in_range(days as int),
    ensures
        r is Some <==> days + n <= MAX_DAYS,
        r matches Some(x) ==> x == days + n,
{
    NaiveDate::from_num_days_from_ce_opt(days).and_then(|x| x.checked_add_days(Days::new(n))).map(
        |x| x.num_days_from_ce(),
    )
}

/// `NaiveDate::checked_add_months`: the same day `k` months later (the last
/// day of the month when that day does not exist), or `None` out of range.
#[verifier::external_body]
fn chrono_add_months(days: i32, k: u32) -> (r: Option<i32>)
    requires
        in_range(days as int),
    ensures
        r matches Some(x) ==> add_months_days(days as int, k as int) == Some(x as int),
        r is None ==> add_months_days(days as int, k as int) is None,
        r matches Some(x) ==> in_range(x as int),
{
    NaiveDate::from_num_days_from_ce_opt(days).and_then(|x| x.checked_add_months(Months::new(k))).map(
        |x| x.num_days_from_ce(),
    )
}

/// `str::parse::<NaiveDate>`: chrono's `%Y-%m-%d` parser, with chrono's
/// error message; the contract names its result and says a date read is in
/// range.
#[verifier::external_body]
fn chrono_parse_date(s: &str) -> (r: Result<i32, String>)
    ensures
        r matches Ok(x) ==> (spec_naive_date_parse(s@) matches Ok(y) && y == x as int),
        r matches Err(e) ==> (spec_naive_date_parse(s@) matches Err(m) && m == e@),
        r matches Ok(x) ==> in_range(x as int),
{
    match s.parse::<NaiveDate>() {
        Ok(x) => Ok(x.num_days_from_ce()),
        Err(e) => Err(e.to_string()),
    }
}

/// `Display` for `NaiveDate`: `%Y-%m-%d`, with a sign and at least four
/// digits for years outside 0 to 9999.
#[verifier::external_body]
fn chrono_date_text(days: i32) -> (r: String)
    requires
        in_range(days as int),
    ensures
        r@ == date_text(days as int),
{
    NaiveDate::from_num_days_from_ce_opt(days).map(|x| x.to_string()).unwrap_or_default()
}

/// What `DateTime::parse_from_rfc3339` gives for a text: the instant as
/// whole seconds since the Unix epoch and the nanoseconds past them, or the
/// text of chrono's error.
pub uninterp spec fn spec_parse_rfc3339(s: Seq<char>) -> Result<(int, int), Seq<char>>;

/// What `DateTime::<Utc>::to_rfc3339` prints for the instant
/// `DateTime::from_timestamp(secs, nanos)`, or `None` when chrono has no
/// such instant.
pub uninterp spec fn spec_rfc3339_text(secs: int, nanos: int) -> Option<Seq<char>>;

/// `DateTime::parse_from_rfc3339`, taken to UTC seconds and nanoseconds;
/// the error is chrono's message. The contract names the result.
#[verifier::external_body]
fn chrono_parse_rfc3339(s: &str) -> (r: Result<(i64, u32), String>)
    ensures
        r matches Ok(x) ==> (spec_parse_rfc3339(s@) matches Ok(y) && y == (x.0 as int, x.1 as int)),
        r matches Err(e) ==> (spec_parse_rfc3339(s@) matches Err(m) && m == e@),
{
    match DateTime::parse_from_rfc3339(s) {
        Ok(d) => Ok((d.timestamp(), d.timestamp_subsec_nanos())),
        Err(e) => Err(e.to_string()),
    }
}

/// `DateTime::from_timestamp` followed by `to_rfc3339`. The contract names
/// the result.
#[verifier::external_body]
fn chrono_rfc3339_text(secs: i64, nanos: u32) -> (r: Option<String>)
    ensures
        r matches Some(t) ==> spec_rfc3339_text(secs as int, nanos as int) == Some(t@),
        r is None ==> spec_rfc3339_text(secs as int, nanos as int) is None,
{
    match DateTime::from_timestamp(secs, nanos) {
        Some(d) => Some(d.to_rfc3339()),
        None => None,
    }
}

/// A point in time (UTC): whole seconds since the Unix epoch and the
/// nanoseconds past them.
#[derive(Clone, Copy, Debug, PartialEq, Eq, Hash)]
pub struct Timestamp {
    pub secs: i64,
    pub nanos: u32,
}

impl Timestamp {
    /// `chrono::Utc::now()`: the current time. Nothing is promised of it.
    #[verifier::external_body]
    pub(crate) fn now() -> (r: Timestamp) {
        let n = chrono::Utc::now();
        Timestamp { secs: n.timestamp(), nanos: n.timestamp_subsec_nanos() }
    }

    /// Reads an RFC 3339 timestamp (as the store writes them); the error is
    /// chrono's message.
    pub fn parse_rfc3339(s: &str) -> (r: Result<Timestamp, String>)
        ensures
            r matches Ok(t) ==> (spec_parse_rfc3339(s@) matches Ok(y) && y == (t.secs as int, t.nanos as int)),
            r matches Err(e) ==> (spec_parse_rfc3339(s@) matches Err(m) && m == e@),
    {
        match chrono_parse_rfc3339(s) {
            Ok(x) => Ok(Timestamp { secs: x.0, nanos: x.1 }),
            Err(e) => Err(e),
        }
    }

    /// The RFC 3339 text of the instant, `None` when chrono cannot
    /// represent it.
    pub fn to_rfc3339(&self) -> (r: Option<String>)
        ensures
            r matches Some(t) ==> spec_rfc3339_text(self.secs as int, self.nanos as int) == Some(t@),
            r is None ==> spec_rfc3339_text(self.secs as int, self.nanos as int) is None,
    {
        chrono_rfc3339_text(self.secs, self.nanos)
    }
}

} // verus!
