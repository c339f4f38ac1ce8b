//! Calendar dates, signed day offsets from a configurable epoch, and
//! symmetric date windows rendered as compact `YYYYMMDD` tokens.
//!
//! Dates live in the proleptic Gregorian calendar over the years the token
//! format can carry (1 through 9999). Day arithmetic is grounded in an
//! absolute day number — days since January 1 of year 1 — so that offsets
//! may be negative for dates before the epoch and window entries are
//! provably consecutive.

use vstd::prelude::*;
use vstd::arithmetic::div_mod::lemma_fundamental_div_mod;
use crate::fixed::lemma_floor_div_bounds;
use crate::digits::digit_char;
use crate::digits::is_digit;
use crate::digits::digit_val;
use crate::digits::lemma_digit_char_val;
use crate::digits::push_digit;

verus! {

/// A calendar date. Fields are wide integers so that all date arithmetic
/// stays in one comfortable type.
#[derive(Clone, Copy, Debug, PartialEq, Eq, Structural)]
pub struct Date {
    pub year: i64,
    pub month: i64,
    pub day: i64,
}

/// Gregorian leap-year rule.
pub open spec fn is_leap_year(y: int) -> bool {
    (y % 4 == 0 && y % 100 != 0) || y % 400 == 0
}

/// Length of a month, for months 1 through 12.
pub open spec fn days_in_month(y: int, m: int) -> int {
    if m == 2 {
        if is_leap_year(y) {
            29
        } else {
            28
        }
    } else if m == 4 || m == 6 || m == 9 || m == 11 {
        30
    } else {
        31
    }
}

/// Length of a year.
pub open spec fn days_in_year(y: int) -> int {
    if is_leap_year(y) {
        366
    } else {
        365
    }
}

impl Date {
    /// A real calendar date within the span the token format can carry.
    pub open spec fn valid(&self) -> bool {
        &&& 1 <= self.year <= 9999
        &&& 1 <= self.month <= 12
        &&& 1 <= self.day <= days_in_month(self.year as int, self.month as int)
    }

    /// The first representable date.
    pub open spec fn first() -> Date {
        Date { year: 1, month: 1, day: 1 }
    }

    /// The last representable date.
    pub open spec fn last() -> Date {
        Date { year: 9999, month: 12, day: 31 }
    }
}

/// Days in all years strictly before year `y`, counted from year 1.
pub open spec fn days_before_year(y: int) -> int
    decreases y,
{
    if y <= 1 {
        0
    } else {
        days_before_year(y - 1) + days_in_year(y - 1)
    }
}

/// Days in the months of year `y` strictly before month `m`.
pub open spec fn days_before_month(y: int, m: int) -> int
    decreases m,
{
    if m <= 1 {
        0
    } else {
        days_before_month(y, m - 1) + days_in_month(y, m - 1)
    }
}

/// Absolute day number: days since January 1 of year 1, which is day 0.
pub open spec fn day_number(d: Date) -> int {
    days_before_year(d.year as int) + days_before_month(d.year as int, d.month as int) + (
    d.day as int - 1)
}

/// The months of a year sum to its length.
pub proof fn lemma_year_months_sum(y: int)
    ensures
        days_before_month(y, 13) == days_in_year(y),
{
    assert(days_before_month(y, 1) == 0);
    assert(days_before_month(y, 2) == days_before_month(y, 1) + days_in_month(y, 1));
    assert(days_before_month(y, 3) == days_before_month(y, 2) + days_in_month(y, 2));
    assert(days_before_month(y, 4) == days_before_month(y, 3) + 31);
    assert(days_before_month(y, 5) == days_before_month(y, 4) + 30);
    assert(days_before_month(y, 6) == days_before_month(y, 5) + 31);
    assert(days_before_month(y, 7) == days_before_month(y, 6) + 30);
    assert(days_before_month(y, 8) == days_before_month(y, 7) + 31);
    assert(days_before_month(y, 9) == days_before_month(y, 8) + 31);
    assert(days_before_month(y, 10) == days_before_month(y, 9) + 30);
    assert(days_before_month(y, 11) == days_before_month(y, 10) + 31);
    assert(days_before_month(y, 12) == days_before_month(y, 11) + 30);
    assert(days_before_month(y, 13) == days_before_month(y, 12) + 31);
}

/// The calendar successor of a date.
pub open spec fn next_date_spec(d: Date) -> Date {
    if d.day < days_in_month(d.year as int, d.month as int) {
        Date { year: d.year, month: d.month, day: (d.day + 1) as i64 }
    } else if d.month < 12 {
        Date { year: d.year, month: (d.month + 1) as i64, day: 1 }
    } else {
        Date { year: (d.year + 1) as i64, month: 1, day: 1 }
    }
}

/// The calendar predecessor of a date.
pub open spec fn prev_date_spec(d: Date) -> Date {
    if d.day > 1 {
        Date { year: d.year, month: d.month, day: (d.day - 1) as i64 }
    } else if d.month > 1 {
        Date {
            year: d.year,
            month: (d.month - 1) as i64,
            day: days_in_month(d.year as int, d.month as int - 1) as i64,
        }
    } else {
        Date { year: (d.year - 1) as i64, month: 12, day: 31 }
    }
}

/// Stepping to the next date advances the absolute day number by exactly
/// one and stays within the representable span.
pub proof fn lemma_next_day_number(d: Date)
    requires
        d.valid(),
        d != Date::last(),
    ensures
        next_date_spec(d).valid(),
        day_number(next_date_spec(d)) == day_number(d) + 1,
{
    let y = d.year as int;
    let m = d.month as int;
    if (d.day as int) < days_in_month(y, m) {
    } else if m < 12 {
        assert(days_before_month(y, m + 1) == days_before_month(y, m) + days_in_month(y, m));
    } else {
        assert(d.day == 31);
        assert(days_before_year(y + 1) == days_before_year(y) + days_in_year(y));
        assert(days_before_month(y, 13) == days_before_month(y, 12) + days_in_month(y, 12));
        lemma_year_months_sum(y);
    }
}

/// Stepping to the previous date decreases the absolute day number by
/// exactly one and stays within the representable span.
pub proof fn lemma_prev_day_number(d: Date)
    requires
        d.valid(),
        d != Date::first(),
    ensures
        prev_date_spec(d).valid(),
        day_number(prev_date_spec(d)) == day_number(d) - 1,
{
    let y = d.year as int;
    let m = d.month as int;
    if d.day > 1 {
    } else if m > 1 {
        assert(days_before_month(y, m) == days_before_month(y, m - 1) + days_in_month(y, m - 1));
    } else {
        assert(days_before_year(y) == days_before_year(y - 1) + days_in_year(y - 1));
        assert(days_before_month(y - 1, 13) == days_before_month(y - 1, 12) + days_in_month(
            y - 1,
            12,
        ));
        lemma_year_months_sum(y - 1);
    }
}

/// The successor of the predecessor of a date is the date itself.
pub proof fn lemma_next_of_prev(d: Date)
    requires
        d.valid(),
        d != Date::first(),
    ensures
        prev_date_spec(d).valid(),
        next_date_spec(prev_date_spec(d)) == d,
{
    lemma_prev_day_number(d);
}

/// Compute the Gregorian leap-year rule.
pub fn leap_year(y: i64) -> (r: bool)
    requires
        0 <= y,
    ensures
        r == is_leap_year(y as int),
{
    (y % 4 == 0 && y % 100 != 0) || y % 400 == 0
}

/// Compute the length of a month.
pub fn month_length(y: i64, m: i64) -> (r: i64)
    requires
        0 <= y,
    ensures
        r == days_in_month(y as int, m as int),
{
    if m == 2 {
        if leap_year(y) {
            29
        } else {
            28
        }
    } else if m == 4 || m == 6 || m == 9 || m == 11 {
        30
    } else {
        31
    }
}

/// Compute the days in all years strictly before year `y`.
fn days_before_year_exec(y: i64) -> (r: i64)
    requires
        1 <= y <= 10_000,
    ensures
        r == days_before_year(y as int),
        0 <= r <= 3_660_000,
{
    let mut acc: i64 = 0;
    let mut i: i64 = 1;
    while i < y
        invariant
            1 <= i <= y <= 10_000,
            acc == days_before_year(i as int),
            0 <= acc <= 366 * (i - 1),
        decreases y - i,
    {
        if leap_year(i) {
            acc = acc + 366;
        } else {
            acc = acc + 365;
        }
        i = i + 1;
    }
    acc
}

/// Compute the days in the months of year `y` strictly before month `m`.
fn days_before_month_exec(y: i64, m: i64) -> (r: i64)
    requires
        1 <= y,
        1 <= m <= 12,
    ensures
        r == days_before_month(y as int, m as int),
        0 <= r <= 366,
{
    let mut acc: i64 = 0;
    let mut i: i64 = 1;
    while i < m
        invariant
            1 <= i <= m <= 12,
            1 <= y,
            acc == days_before_month(y as int, i as int),
            0 <= acc <= 31 * (i - 1),
        decreases m - i,
    {
        acc = acc + month_length(y, i);
        i = i + 1;
    }
    acc
}

/// Compute the absolute day number of a date.
pub fn day_number_of(d: &Date) -> (n: i64)
    requires
        d.valid(),
    ensures
        n == day_number(*d),
        0 <= n <= 3_660_500,
{
    let a = days_before_year_exec(d.year);
    let b = days_before_month_exec(d.year, d.month);
    a + b + (d.day - 1)
}

/// Compute the calendar successor of a date.
pub fn next_date(d: &Date) -> (r: Date)
    requires
        d.valid(),
        *d != Date::last(),
    ensures
        r == next_date_spec(*d),
        r.valid(),
        day_number(r) == day_number(*d) + 1,
{
    proof {
        lemma_next_day_number(*d);
    }
    let dim = month_length(d.year, d.month);
    if d.day < dim {
        Date { year: d.year, month: d.month, day: d.day + 1 }
    } else if d.month < 12 {
        Date { year: d.year, month: d.month + 1, day: 1 }
    } else {
        Date { year: d.year + 1, month: 1, day: 1 }
    }
}

/// Compute the calendar predecessor of a date.
pub fn prev_date(d: &Date) -> (r: Date)
    requires
        d.valid(),
        *d != Date::first(),
    ensures
        r == prev_date_spec(*d),
        r.valid(),
        day_number(r) == day_number(*d) - 1,
{
    proof {
        lemma_prev_day_number(*d);
    }
    if d.day > 1 {
        Date { year: d.year, month: d.month, day: d.day - 1 }
    } else if d.month > 1 {
        let dim = month_length(d.year, d.month - 1);
        Date { year: d.year, month: d.month - 1, day: dim }
    } else {
        Date { year: d.year - 1, month: 12, day: 31 }
    }
}

/// The compact token of a date: `YYYYMMDD`, zero-padded.
pub open spec fn token_of(d: Date) -> Seq<char> {
    let y = d.year as int;
    let m = d.month as int;
    let dd = d.day as int;
    seq![
        digit_char(y / 1000),
        digit_char((y % 1000) / 100),
        digit_char(((y % 1000) % 100) / 10),
        digit_char(((y % 1000) % 100) % 10),
        digit_char(m / 10),
        digit_char(m % 10),
        digit_char(dd / 10),
        digit_char(dd % 10),
    ]
}

/// Whether a character sequence is exactly eight decimal digits.
pub open spec fn token_digits_ok(s: Seq<char>) -> bool {
    s.len() == 8 && forall|i: int| 0 <= i < 8 ==> is_digit(#[trigger] s[i])
}

/// The date an eight-digit token denotes, before validity is judged.
pub open spec fn parsed_date(s: Seq<char>) -> Date {
    Date {
        year: (1000 * digit_val(s[0]) + 100 * digit_val(s[1]) + 10 * digit_val(s[2]) + digit_val(
            s[3],
        )) as i64,
        month: (10 * digit_val(s[4]) + digit_val(s[5])) as i64,
        day: (10 * digit_val(s[6]) + digit_val(s[7])) as i64,
    }
}

/// Whether a character sequence is the token of some valid date.
pub open spec fn token_valid(s: Seq<char>) -> bool {
    token_digits_ok(s) && parsed_date(s).valid()
}

/// Formatting a valid date yields eight digits that parse back to the
/// same date, so the token of a date is canonical.
pub proof fn lemma_parse_of_token(d: Date)
    requires
        d.valid(),
    ensures
        token_digits_ok(token_of(d)),
        parsed_date(token_of(d)) == d,
        token_valid(token_of(d)),
{
    let y = d.year as int;
    let m = d.month as int;
    let dd = d.day as int;
    lemma_fundamental_div_mod(y, 1000);
    lemma_floor_div_bounds(y, 1000);
    lemma_fundamental_div_mod(y % 1000, 100);
    lemma_floor_div_bounds(y % 1000, 100);
    lemma_fundamental_div_mod((y % 1000) % 100, 10);
    lemma_floor_div_bounds((y % 1000) % 100, 10);
    lemma_fundamental_div_mod(m, 10);
    lemma_floor_div_bounds(m, 10);
    lemma_fundamental_div_mod(dd, 10);
    lemma_floor_div_bounds(dd, 10);
    lemma_digit_char_val(y / 1000);
    lemma_digit_char_val((y % 1000) / 100);
    lemma_digit_char_val(((y % 1000) % 100) / 10);
    lemma_digit_char_val(((y % 1000) % 100) % 10);
    lemma_digit_char_val(m / 10);
    lemma_digit_char_val(m % 10);
    lemma_digit_char_val(dd / 10);
    lemma_digit_char_val(dd % 10);
    assert(parsed_date(token_of(d)).year == d.year);
    assert(parsed_date(token_of(d)).month == d.month);
    assert(parsed_date(token_of(d)).day == d.day);
}

/// Tokens whose dates sit at consecutive day numbers are pairwise
/// distinct: equal tokens would parse to one date and one day number.
pub proof fn lemma_consecutive_tokens_distinct(toks: Seq<Seq<char>>, base: int)
    requires
        forall|i: int|
            0 <= i < toks.len() ==> day_number(parsed_date(#[trigger] toks[i])) == base + i,
    ensures
        forall|i: int, j: int|
            0 <= i < toks.len() && 0 <= j < toks.len() && i != j ==> toks[i] != toks[j],
{
    assert forall|i: int, j: int|
        0 <= i < toks.len() && 0 <= j < toks.len() && i != j implies toks[i] != toks[j] by {
        if toks[i] == toks[j] {
            assert(day_number(parsed_date(toks[i])) == day_number(parsed_date(toks[j])));
        }
    }
}

/// Render a date as its compact `YYYYMMDD` token.
pub fn format_token(d: &Date) -> (s: String)
    requires
        d.valid(),
    ensures
        s@ == token_of(*d),
{
    let y = d.year as u64;
    let m = d.month as u64;
    let dd = d.day as u64;
    proof {
        lemma_fundamental_div_mod(y as int, 1000);
        lemma_floor_div_bounds(y as int, 1000);
        lemma_fundamental_div_mod(y as int % 1000, 100);
        lemma_floor_div_bounds(y as int % 1000, 100);
        lemma_fundamental_div_mod((y as int % 1000) % 100, 10);
        lemma_floor_div_bounds((y as int % 1000) % 100, 10);
        lemma_fundamental_div_mod(m as int, 10);
        lemma_floor_div_bounds(m as int, 10);
        lemma_fundamental_div_mod(dd as int, 10);
        lemma_floor_div_bounds(dd as int, 10);
    }
    let mut out = String::new();
    push_digit(&mut out, y / 1000);
    push_digit(&mut out, (y % 1000) / 100);
    push_digit(&mut out, ((y % 1000) % 100) / 10);
    push_digit(&mut out, ((y % 1000) % 100) % 10);
    push_digit(&mut out, m / 10);
    push_digit(&mut out, m % 10);
    push_digit(&mut out, dd / 10);
    push_digit(&mut out, dd % 10);
    proof {
        assert(out@ =~= token_of(*d));
    }
    out
}

/// Failure to read a center date: the token is not eight digits, or the
/// digits do not name a real calendar date. Either way the run's
/// configuration is wrong, and the caller aborts.
#[derive(Clone, Copy, Debug, PartialEq, Eq, Structural)]
pub enum ParseError {
    /// Not eight decimal digits.
    Malformed,
    /// Eight digits, but not a real date.
    InvalidDate,
}

/// Parse a compact `YYYYMMDD` token into a date, rejecting anything that
/// is not eight digits or that names no real calendar date.
pub fn parse_token(s: &str) -> (r: Result<Date, ParseError>)
    ensures
        token_valid(s@) ==> r == Ok::<Date, ParseError>(parsed_date(s@)),
        !token_digits_ok(s@) ==> r == Err::<Date, ParseError>(ParseError::Malformed),
        token_digits_ok(s@) && !parsed_date(s@).valid() ==> r == Err::<Date, ParseError>(
            ParseError::InvalidDate,
        ),
{
    let n = s.unicode_len();
    if n != 8 {
        return Err(ParseError::Malformed);
    }
    let mut ds: Vec<i64> = Vec::new();
    let mut k: usize = 0;
    while k < 8
        invariant
            s@.len() == 8,
            k <= 8,
            ds@.len() == k,
            forall|i: int| 0 <= i < k ==> is_digit(#[trigger] s@[i]),
            forall|i: int| 0 <= i < k ==> #[trigger] ds@[i] == digit_val(s@[i]),
        decreases 8 - k,
    {
        let c = s.get_char(k);
        let u = c as u32;
        if u < 48 || u > 57 {
            return Err(ParseError::Malformed);
        }
        ds.push((u - 48) as i64);
        k = k + 1;
    }
    let y = 1000 * ds[0] + 100 * ds[1] + 10 * ds[2] + ds[3];
    let m = 10 * ds[4] + ds[5];
    let dd = 10 * ds[6] + ds[7];
    let date = Date { year: y, month: m, day: dd };
    proof {
        assert(date == parsed_date(s@));
    }
    if y < 1 || m < 1 || m > 12 {
        return Err(ParseError::InvalidDate);
    }
    let dim = month_length(y, m);
    if dd < 1 || dd > dim {
        return Err(ParseError::InvalidDate);
    }
    Ok(date)
}

/// Maps dates to signed day offsets from a fixed, configurable epoch.
pub struct TimeIndexer {
    /// The run's reference date: offsets count days from here.
    pub epoch: Date,
}

impl TimeIndexer {
    /// The epoch is a real date.
    pub open spec fn wf(&self) -> bool {
        self.epoch.valid()
    }

    /// An indexer counting days from `epoch`.
    pub fn new(epoch: Date) -> (t: TimeIndexer)
        requires
            epoch.valid(),
        ensures
            t.wf(),
            t.epoch == epoch,
    {
        TimeIndexer { epoch }
    }

    /// Signed day count of `d` relative to the epoch: negative for dates
    /// before it, zero at it.
    pub fn day_offset(&self, d: &Date) -> (off: i64)
        requires
            self.wf(),
            d.valid(),
        ensures
            off == day_number(*d) - day_number(self.epoch),
    {
        let a = day_number_of(d);
        let b = day_number_of(&self.epoch);
        a - b
    }
}

/// The symmetric date window around a center date: `2 * radius + 1`
/// consecutive calendar dates in ascending order, the center at position
/// `radius`, each rendered as its compact token. Fails exactly when the
/// center token does not name a valid date. The window must stay within
/// the representable span of the token format.
pub fn window(center: &str, radius: usize) -> (r: Result<Vec<String>, ParseError>)
    requires
        radius <= 4_000_000,
        token_valid(center@) ==> radius <= day_number(parsed_date(center@)),
        token_valid(center@) ==> day_number(parsed_date(center@)) + radius <= day_number(
            Date::last(),
        ),
    ensures
        r is Ok <==> token_valid(center@),
        !token_digits_ok(center@) ==> r == Err::<Vec<String>, ParseError>(ParseError::Malformed),
        token_digits_ok(center@) && !parsed_date(center@).valid() ==> r == Err::<
            Vec<String>,
            ParseError,
        >(ParseError::InvalidDate),
        r matches Ok(out) ==> {
            &&& out@.len() == 2 * radius + 1
            &&& forall|i: int| 0 <= i < out@.len() ==> token_valid((#[trigger] out@[i])@)
            &&& forall|i: int|
                0 <= i < out@.len() ==> day_number(parsed_date((#[trigger] out@[i])@))
                    == day_number(parsed_date(center@)) - radius + i
            &&& out@[radius as int]@ == token_of(parsed_date(center@))
        },
{
    let center_date = match parse_token(center) {
        Ok(d) => d,
        Err(e) => {
            return Err(e);
        },
    };
    proof {
        assert(day_number(Date::first()) == 0);
    }

    // Step back to the start of the window, remembering the trail so that
    // the forward pass provably comes back through the center.
    let mut cur = center_date;
    let ghost mut path: Seq<Date> = seq![center_date];
    let mut k: usize = 0;
    while k < radius
        invariant
            k <= radius,
            path.len() == k + 1,
            path[0] == center_date,
            cur == path[k as int],
            center_date.valid(),
            radius <= day_number(center_date),
            forall|j: int|
                0 <= j <= k ==> (#[trigger] path[j]).valid() && day_number(path[j]) == day_number(
                    center_date,
                ) - j,
            forall|j: int| 1 <= j <= k ==> next_date_spec(#[trigger] path[j]) == path[j - 1],
        decreases radius - k,
    {
        proof {
            assert(day_number(Date::first()) == 0);
            assert(day_number(cur) > 0);
            assert(cur != Date::first());
            lemma_next_of_prev(cur);
        }
        cur = prev_date(&cur);
        proof {
            path = path.push(cur);
        }
        k = k + 1;
    }

    // Walk forward across the whole window, emitting one token per day.
    let count = 2 * radius + 1;
    let mut out: Vec<String> = Vec::new();
    let mut k2: usize = 0;
    while k2 < count
        invariant
            count == 2 * radius + 1,
            k2 <= count,
            out@.len() == k2,
            center_date.valid(),
            cur.valid(),
            path.len() == radius + 1,
            path[0] == center_date,
            radius <= day_number(center_date),
            day_number(center_date) + radius <= day_number(Date::last()),
            k2 < count ==> day_number(cur) == day_number(center_date) - radius + k2,
            k2 == count ==> day_number(cur) == day_number(center_date) + radius,
            forall|j: int|
                0 <= j <= radius ==> (#[trigger] path[j]).valid() && day_number(path[j])
                    == day_number(center_date) - j,
            forall|j: int|
                1 <= j <= radius ==> next_date_spec(#[trigger] path[j]) == path[j - 1],
            k2 <= radius ==> cur == path[radius - k2],
            forall|i: int| 0 <= i < k2 ==> token_valid((#[trigger] out@[i])@),
            forall|i: int|
                0 <= i < k2 ==> day_number(parsed_date((#[trigger] out@[i])@)) == day_number(
                    center_date,
                ) - radius + i,
            k2 > radius ==> out@[radius as int]@ == token_of(center_date),
        decreases count - k2,
    {
        let tok = format_token(&cur);
        proof {
            lemma_parse_of_token(cur);
        }
        out.push(tok);
        if k2 + 1 < count {
            proof {
                assert(day_number(cur) < day_number(Date::last()));
                assert(cur != Date::last());
            }
            cur = next_date(&cur);
            proof {
                if k2 + 1 <= radius {
                    assert(next_date_spec(path[radius - k2]) == path[radius - k2 - 1]);
                }
            }
        }
        k2 = k2 + 1;
    }
    Ok(out)
}

} // verus!
