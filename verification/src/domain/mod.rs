//! The domain core: tasks, steps, the current position, interruption notes and
//! the rest timer. Nothing here talks to the operating system; the only way the
//! core learns the time is a [`Clock`].

pub mod chronology;
pub mod error;
pub mod position;
pub mod rest;
pub mod setting;
pub mod state;
pub mod switch;
pub mod task;

use vstd::prelude::*;

use crate::text::{chars_of, string_of};

verus! {

/// Milliseconds in a day (Unix time has no leap seconds).
pub const MILLIS_PER_DAY: i64 = 86_400_000;

/// `0000-01-01T00:00:00.000Z` in Unix milliseconds — the oldest instant a [`Timestamp`] holds.
pub const MIN_UNIX_MILLIS: i64 = -62_167_219_200_000;

/// `9999-12-31T23:59:59.999Z` in Unix milliseconds — the newest instant a [`Timestamp`] holds.
pub const MAX_UNIX_MILLIS: i64 = 253_402_300_799_999;

/// A UTC instant, held as milliseconds since the Unix epoch and always within
/// the four-digit years `0000..=9999`, so that its ISO 8601 text can be read back.
#[derive(Debug, Clone, Copy, PartialEq, Eq, Structural, PartialOrd, Ord, Hash)]
pub struct Timestamp {
    unix_millis: i64,
}

impl View for Timestamp {
    type V = int;

    /// Milliseconds since the Unix epoch.
    closed spec fn view(&self) -> int {
        self.unix_millis as int
    }
}

/// The instant of a number of milliseconds within the range of `i64` holds them.
pub broadcast proof fn lemma_at_millis(unix_millis: int)
    requires
        i64::MIN <= unix_millis <= i64::MAX,
    ensures
        #[trigger] Timestamp::at_millis(unix_millis)@ == unix_millis,
{
}

/// Two instants are the same value exactly when they hold the same milliseconds.
pub broadcast proof fn lemma_timestamp_view_eq(a: Timestamp, b: Timestamp)
    ensures
        #![trigger a@, b@]
        (a@ == b@) == (a == b),
{
}

/// The milliseconds that [`Timestamp::from_unix_millis`] keeps: clamped to the representable range.
pub open spec fn clamp_millis(unix_millis: int) -> int {
    if unix_millis < MIN_UNIX_MILLIS {
        MIN_UNIX_MILLIS as int
    } else if unix_millis > MAX_UNIX_MILLIS {
        MAX_UNIX_MILLIS as int
    } else {
        unix_millis
    }
}

impl Timestamp {
    #[verifier::type_invariant]
    spec fn in_range(self) -> bool {
        MIN_UNIX_MILLIS <= self.unix_millis <= MAX_UNIX_MILLIS
    }

    /// Builds an instant from Unix milliseconds, clamping values outside the
    /// representable range to its ends.
    pub fn from_unix_millis(unix_millis: i64) -> (instant: Self)
        ensures
            instant@ == clamp_millis(unix_millis as int),
    {
        if unix_millis < MIN_UNIX_MILLIS {
            return Self { unix_millis: MIN_UNIX_MILLIS };
        }
        if unix_millis > MAX_UNIX_MILLIS {
            return Self { unix_millis: MAX_UNIX_MILLIS };
        }
        Self { unix_millis }
    }

    /// The oldest representable instant, `0000-01-01T00:00:00.000Z`.
    pub fn min_instant() -> (instant: Self)
        ensures
            instant@ == MIN_UNIX_MILLIS,
    {
        Self { unix_millis: MIN_UNIX_MILLIS }
    }

    /// The newest representable instant, `9999-12-31T23:59:59.999Z`.
    pub fn max_instant() -> (instant: Self)
        ensures
            instant@ == MAX_UNIX_MILLIS,
    {
        Self { unix_millis: MAX_UNIX_MILLIS }
    }

    /// The instant `unix_millis` milliseconds after the epoch.
    pub closed spec fn at_millis(unix_millis: int) -> Self {
        Timestamp { unix_millis: unix_millis as i64 }
    }

    /// Milliseconds since the Unix epoch.
    pub fn unix_millis(self) -> (unix_millis: i64)
        ensures
            unix_millis == self@,
            MIN_UNIX_MILLIS <= unix_millis <= MAX_UNIX_MILLIS,
    {
        proof {
            use_type_invariant(&self);
        }
        self.unix_millis
    }
}

// --- the proleptic Gregorian calendar (days counted from 1970-01-01) ---------

/// Day of the era of the date of day `days` (an era is 400 years; eras start on a March 1st).
pub open spec fn day_of_era(days: int) -> int {
    (days + 719_468) - ((days + 719_468) / 146_097) * 146_097
}

/// Year of the era for a day of the era.
pub open spec fn year_of_era(doe: int) -> int {
    (doe - doe / 1460 + doe / 36_524 - doe / 146_096) / 365
}

/// The first day of a year of the era, counted in days of the era.
pub open spec fn start_of_year_of_era(yoe: int) -> int {
    365 * yoe + yoe / 4 - yoe / 100
}

/// `(year, month, day)` of the day `days` (1970-01-01 is day 0).
#[verifier::opaque]
pub open spec fn civil_of(days: int) -> (int, int, int) {
    let z = days + 719_468;
    let era = z / 146_097;
    let doe = day_of_era(days);
    let yoe = year_of_era(doe);
    let year = yoe + era * 400;
    let doy = doe - start_of_year_of_era(yoe);
    let mp = (5 * doy + 2) / 153;
    let day = doy - (153 * mp + 2) / 5 + 1;
    let month = if mp < 10 { mp + 3 } else { mp - 9 };
    (if month <= 2 { year + 1 } else { year }, month, day)
}

/// The day (1970-01-01 is day 0) of `(year, month, day)`.
#[verifier::opaque]
pub open spec fn days_of(year: int, month: int, day: int) -> int {
    let y = if month <= 2 { year - 1 } else { year };
    let era = y / 400;
    let yoe = y - era * 400;
    let mp = (month + 9) % 12;
    let doy = (153 * mp + 2) / 5 + day - 1;
    let doe = start_of_year_of_era(yoe) + doy;
    era * 146_097 + doe - 719_468
}

/// Within an era, the year of the era and the day of the year stay in range.
#[verifier::spinoff_prover]
#[verifier::rlimit(50)]
pub proof fn lemma_year_of_era_bounds(doe: int)
    requires
        0 <= doe <= 146_096,
    ensures
        0 <= year_of_era(doe) <= 399,
        0 <= doe - start_of_year_of_era(year_of_era(doe)) <= 365,
{
}

/// The calendar is a bijection: the day of the date of a day is that day.
pub proof fn lemma_days_of_civil(days: int)
    ensures
        days_of(civil_of(days).0, civil_of(days).1, civil_of(days).2) == days,
{
    reveal(civil_of);
    reveal(days_of);
    let z = days + 719_468;
    let era = z / 146_097;
    let doe = day_of_era(days);
    lemma_year_of_era_bounds(doe);
    let yoe = year_of_era(doe);
    let (year, month, day) = civil_of(days);
    let y = if month <= 2 { year - 1 } else { year };
    assert(y == yoe + era * 400);
    assert(y / 400 == era);
    assert(y - (y / 400) * 400 == yoe);
}

/// The dates of the representable instants have four-digit years.
pub proof fn lemma_civil_year_range(days: int)
    requires
        -719_528 <= days <= 2_932_896,
    ensures
        0 <= civil_of(days).0 <= 9999,
{
    reveal(civil_of);
    let z = days + 719_468;
    let doe = day_of_era(days);
    lemma_year_of_era_bounds(doe);
    if z < 0 {
        assert(z / 146_097 == -1);
        assert(doe >= 146_036);
        assert(year_of_era(doe) == 399);
    } else {
        assert(0 <= z / 146_097 <= 24);
        if z / 146_097 == 24 {
            assert(doe <= 146_036);
        }
    }
}

/// `(year, month, day)` of day `days`.
fn civil_from_days(days: i64) -> (civil: (i64, i64, i64))
    requires
        -1_000_000_000_000 <= days <= 1_000_000_000_000,
    ensures
        (civil.0 as int, civil.1 as int, civil.2 as int) == civil_of(days as int),
        1 <= civil.1 <= 12,
        1 <= civil.2 <= 31,
{
    reveal(civil_of);
    let z = days + 719_468;
    let era = if z >= 0 {
        z / 146_097
    } else {
        -((146_096 - z) / 146_097)
    };
    assert(era == z / 146_097);
    let day_of_era = z - era * 146_097;
    proof {
        lemma_year_of_era_bounds(day_of_era as int);
    }
    let year_of_era = (day_of_era - day_of_era / 1460 + day_of_era / 36_524 - day_of_era / 146_096)
        / 365;
    let year = year_of_era + era * 400;
    let day_of_year = day_of_era - (365 * year_of_era + year_of_era / 4 - year_of_era / 100);
    let month_prime = (5 * day_of_year + 2) / 153;
    let day = day_of_year - (153 * month_prime + 2) / 5 + 1;
    let month = if month_prime < 10 {
        month_prime + 3
    } else {
        month_prime - 9
    };
    let year = if month <= 2 {
        year + 1
    } else {
        year
    };
    (year, month, day)
}

/// The day of `(year, month, day)`; the inverse of [`civil_from_days`].
fn days_from_civil(year: i64, month: i64, day: i64) -> (days: i64)
    requires
        -1_000_000 <= year <= 1_000_000,
        1 <= month <= 12,
        -1_000 <= day <= 1_000,
    ensures
        days == days_of(year as int, month as int, day as int),
        -1_000_000_000 <= days <= 1_000_000_000,
{
    reveal(days_of);
    let year = if month <= 2 {
        year - 1
    } else {
        year
    };
    let era = if year >= 0 {
        year / 400
    } else {
        -((399 - year) / 400)
    };
    assert(era == year / 400);
    let year_of_era = year - era * 400;
    let month_prime = (month + 9) % 12;
    let day_of_year = (153 * month_prime + 2) / 5 + day - 1;
    let day_of_era = year_of_era * 365 + year_of_era / 4 - year_of_era / 100 + day_of_year;
    era * 146_097 + day_of_era - 719_468
}

// --- text forms --------------------------------------------------------------

/// The ASCII digit for `d` in `0..=9`.
pub open spec fn digit_char(d: int) -> char {
    (d + 48) as char
}

/// `value` written in decimal with exactly `width` digits (the lowest `width`
/// digits, zero-padded on the left).
pub open spec fn fixed_digits(value: int, width: nat) -> Seq<char>
    decreases width,
{
    if width == 0 {
        Seq::empty()
    } else {
        fixed_digits(value / 10, (width - 1) as nat).push(digit_char(value % 10))
    }
}

/// Every character is an ASCII digit.
pub open spec fn all_digits(s: Seq<char>) -> bool {
    forall|i: int| 0 <= i < s.len() ==> '0' <= #[trigger] s[i] <= '9'
}

/// The value of a string of decimal digits.
pub open spec fn digits_value(s: Seq<char>) -> int
    decreases s.len(),
{
    if s.len() == 0 {
        0
    } else {
        digits_value(s.drop_last()) * 10 + (s.last() as int - 48)
    }
}

/// `i` is the first position of `c` in `s`.
pub open spec fn is_first_index(s: Seq<char>, c: char, i: int) -> bool {
    &&& 0 <= i < s.len()
    &&& s[i] == c
    &&& forall|j: int| 0 <= j < i ==> s[j] != c
}

/// The first position of `c` in `s`, if any.
pub open spec fn first_index_of(s: Seq<char>, c: char) -> Option<int> {
    if exists|i: int| is_first_index(s, c, i) {
        Some(choose|i: int| is_first_index(s, c, i))
    } else {
        None
    }
}

/// The first three pieces of `s` split at `c`; the third piece keeps the rest
/// unsplit (`str::splitn(3, c)`).
#[verifier::opaque]
pub open spec fn split3(s: Seq<char>, c: char) -> (Option<Seq<char>>, Option<Seq<char>>, Option<Seq<char>>) {
    match first_index_of(s, c) {
        None => (Some(s), None, None),
        Some(i) => {
            let rest = s.subrange(i + 1, s.len() as int);
            match first_index_of(rest, c) {
                None => (Some(s.subrange(0, i)), Some(rest), None),
                Some(j) => (
                    Some(s.subrange(0, i)),
                    Some(rest.subrange(0, j)),
                    Some(rest.subrange(j + 1, rest.len() as int)),
                ),
            }
        },
    }
}

/// A piece of exactly `width` decimal digits, read as a number.
pub open spec fn fixed_number(piece: Option<Seq<char>>, width: nat) -> Option<int> {
    match piece {
        Some(p) => if p.len() == width && all_digits(p) {
            Some(digits_value(p))
        } else {
            None
        },
        None => None,
    }
}

/// The milliseconds of a fraction of a second: its first three digits, with
/// missing digits counted as zeros (`.5` is 500 ms).
pub open spec fn fraction_millis(fraction: Seq<char>) -> int {
    if fraction.len() >= 3 {
        digits_value(fraction.subrange(0, 3))
    } else {
        digits_value(fraction + Seq::new((3 - fraction.len()) as nat, |i: int| '0'))
    }
}

/// The UTC ISO 8601 text of the instant `unix_millis`: `YYYY-MM-DDTHH:MM:SS.fffZ`.
pub open spec fn iso8601_of(unix_millis: int) -> Seq<char> {
    let days = unix_millis / 86_400_000;
    let of_day = unix_millis % 86_400_000;
    let (year, month, day) = civil_of(days);
    fixed_digits(year, 4) + seq!['-'] + fixed_digits(month, 2) + seq!['-'] + fixed_digits(day, 2)
        + seq!['T'] + fixed_digits(of_day / 3_600_000, 2) + seq![':'] + fixed_digits(
        (of_day / 60_000) % 60,
        2,
    ) + seq![':'] + fixed_digits((of_day / 1000) % 60, 2) + seq!['.'] + fixed_digits(
        of_day % 1000,
        3,
    ) + seq!['Z']
}

/// The date, time and fraction pieces of `YYYY-MM-DDTHH:MM:SS[.fff]Z`: the
/// text must end in `Z`, the date runs up to the first `T`, the fraction follows
/// the first `.` after it (a missing fraction reads as `0`).
pub open spec fn iso_pieces(text: Seq<char>) -> Option<(Seq<char>, Seq<char>, Seq<char>)> {
    if text.len() == 0 || text.last() != 'Z' {
        None
    } else {
        let body = text.drop_last();
        match first_index_of(body, 'T') {
            None => None,
            Some(t) => {
                let rest = body.subrange(t + 1, body.len() as int);
                match first_index_of(rest, '.') {
                    Some(p) => Some(
                        (
                            body.subrange(0, t),
                            rest.subrange(0, p),
                            rest.subrange(p + 1, rest.len() as int),
                        ),
                    ),
                    None => Some((body.subrange(0, t), rest, seq!['0'])),
                }
            },
        }
    }
}

/// Year, month, day, hour, minute and second read from the date `YYYY-MM-DD`
/// and the time `HH:MM:SS`, each field in range (no leap second).
#[verifier::opaque]
pub open spec fn iso_fields(date: Seq<char>, time: Seq<char>) -> Option<(int, int, int, int, int, int)> {
    let (d1, d2, d3) = split3(date, '-');
    let (t1, t2, t3) = split3(time, ':');
    match (
        fixed_number(d1, 4),
        fixed_number(d2, 2),
        fixed_number(d3, 2),
        fixed_number(t1, 2),
        fixed_number(t2, 2),
        fixed_number(t3, 2),
    ) {
        (Some(y), Some(mo), Some(d), Some(h), Some(mi), Some(s)) => {
            if 1 <= mo <= 12 && 1 <= d <= 31 && 0 <= h <= 23 && 0 <= mi <= 59 && 0 <= s <= 59 {
                Some((y, mo, d, h, mi, s))
            } else {
                None
            }
        },
        _ => None,
    }
}

/// The instant (in Unix milliseconds) that a UTC ISO 8601 text
/// `YYYY-MM-DDTHH:MM:SS[.fff]Z` names, or `None` when the text is malformed or
/// names no real date.
pub open spec fn parse_iso8601_of(text: Seq<char>) -> Option<int> {
    match iso_pieces(text) {
        None => None,
        Some((date, time, fraction)) => match iso_fields(date, time) {
            None => None,
            Some((y, mo, d, h, mi, s)) => {
                if fraction.len() == 0 || !all_digits(fraction) {
                    None
                } else if civil_of(days_of(y, mo, d)) != (y, mo, d) {
                    None
                } else {
                    Some(
                        clamp_millis(
                            days_of(y, mo, d) * 86_400_000 + h * 3_600_000 + mi * 60_000 + s
                                * 1000 + fraction_millis(fraction),
                        ),
                    )
                }
            },
        },
    }
}

/// A missing fraction is zero milliseconds.
proof fn lemma_zero_fraction()
    ensures
        all_digits(seq!['0']),
        fraction_millis(seq!['0']) == 0,
{
    assert(seq!['0'] + Seq::new(2, |i: int| '0') =~= seq!['0', '0', '0']);
    assert(seq!['0', '0', '0'].drop_last() =~= seq!['0', '0']);
    assert(seq!['0', '0'].drop_last() =~= seq!['0']);
    assert(seq!['0'].drop_last() =~= Seq::<char>::empty());
    reveal_with_fuel(digits_value, 4);
}

/// Appends the lowest `width` decimal digits of `value`.
fn push_fixed_digits(out: &mut Vec<char>, value: u64, width: usize)
    requires
        width <= 20,
    ensures
        final(out)@ == old(out)@ + fixed_digits(value as int, width as nat),
    decreases width,
{
    if width > 0 {
        push_fixed_digits(out, value / 10, width - 1);
        let digit = (value % 10) as u8;
        out.push((digit + 48) as char);
    }
}

/// The first position of `c` in `chars[lo..hi]`, counted from the start of `chars`.
fn find_char(chars: &Vec<char>, lo: usize, hi: usize, c: char) -> (found: Option<usize>)
    requires
        lo <= hi <= chars@.len(),
    ensures
        match first_index_of(chars@.subrange(lo as int, hi as int), c) {
            Some(i) => found == Some((i + lo) as usize),
            None => found.is_none(),
        },
{
    let ghost s = chars@.subrange(lo as int, hi as int);
    let mut i = lo;
    while i < hi
        invariant
            lo <= i <= hi <= chars@.len(),
            s == chars@.subrange(lo as int, hi as int),
            forall|j: int| 0 <= j < i - lo ==> s[j] != c,
        decreases hi - i,
    {
        if chars[i] == c {
            proof {
                let k = (i - lo) as int;
                assert(is_first_index(s, c, k));
                assert forall|m: int| is_first_index(s, c, m) implies m == k by {
                    if m < k {
                        assert(s[m] != c);
                    } else if m > k {
                        assert(s[k] != c);
                    }
                }
            }
            return Some(i);
        }
        i = i + 1;
    }
    proof {
        assert forall|m: int| !is_first_index(s, c, m) by {
            if 0 <= m < s.len() {
                assert(s[m] != c);
            }
        }
    }
    None
}

/// `chars[lo..hi]` read as exactly `width` decimal digits.
fn fixed_number_at(chars: &Vec<char>, lo: usize, hi: usize, width: usize) -> (number: Option<i64>)
    requires
        lo <= hi <= chars@.len(),
        width <= 4,
    ensures
        match fixed_number(Some(chars@.subrange(lo as int, hi as int)), width as nat) {
            Some(v) => number == Some(v as i64) && 0 <= v < pow10(width as nat) && v < 10_000,
            None => number.is_none(),
        },
{
    let ghost s = chars@.subrange(lo as int, hi as int);
    if hi - lo != width {
        return None;
    }
    let mut value: i64 = 0;
    let mut i = lo;
    while i < hi
        invariant
            lo <= i <= hi <= chars@.len(),
            hi - lo == width,
            width <= 4,
            s == chars@.subrange(lo as int, hi as int),
            all_digits(s.subrange(0, i - lo)),
            value == digits_value(s.subrange(0, i - lo)),
            0 <= value < pow10((i - lo) as nat),
        decreases hi - i,
    {
        let c = chars[i];
        if !('0' <= c && c <= '9') {
            assert(s[(i - lo) as int] == c);
            assert(!all_digits(s));
            return None;
        }
        proof {
            reveal_with_fuel(pow10, 5);
        }
        proof {
            let k = (i - lo) as int;
            assert(s.subrange(0, k + 1).drop_last() == s.subrange(0, k));
        }
        value = value * 10 + (c as i64 - 48);
        i = i + 1;
    }
    assert(s.subrange(0, (hi - lo) as int) == s);
    proof {
        reveal_with_fuel(pow10, 5);
    }
    Some(value)
}

impl Timestamp {
    /// The UTC ISO 8601 text, `2026-09-17T01:02:03.004Z`: milliseconds always
    /// with three digits, so that the text sorts like the instant.
    pub fn to_iso8601(self) -> (text: String)
        ensures
            text@ == iso8601_of(self@),
    {
        proof {
            use_type_invariant(&self);
        }
        let millis = self.unix_millis;
        let days = if millis >= 0 {
            millis / MILLIS_PER_DAY
        } else {
            -((MILLIS_PER_DAY - 1 - millis) / MILLIS_PER_DAY)
        };
        assert(days == (millis as int) / 86_400_000);
        let millis_of_day = millis - days * MILLIS_PER_DAY;
        proof {
            lemma_civil_year_range(days as int);
        }
        let (year, month, day) = civil_from_days(days);
        let hour = millis_of_day / 3_600_000;
        let minute = (millis_of_day / 60_000) % 60;
        let second = (millis_of_day / 1_000) % 60;
        let milli = millis_of_day % 1_000;
        let mut out: Vec<char> = Vec::new();
        push_fixed_digits(&mut out, year as u64, 4);
        out.push('-');
        push_fixed_digits(&mut out, month as u64, 2);
        out.push('-');
        push_fixed_digits(&mut out, day as u64, 2);
        out.push('T');
        push_fixed_digits(&mut out, hour as u64, 2);
        out.push(':');
        push_fixed_digits(&mut out, minute as u64, 2);
        out.push(':');
        push_fixed_digits(&mut out, second as u64, 2);
        out.push('.');
        push_fixed_digits(&mut out, milli as u64, 3);
        out.push('Z');
        let text = string_of(out.as_slice());
        assert(text@ == iso8601_of(self@));
        text
    }

    /// Reads a UTC ISO 8601 text `YYYY-MM-DDTHH:MM:SS[.fff]Z`; the inverse of
    /// [`Self::to_iso8601`]. Offsets other than `Z`, fields of another width and
    /// dates that do not exist (February 31st) are refused.
    pub fn parse_iso8601(text: &str) -> (parsed: Result<Self, TimestampError>)
        ensures
            match parse_iso8601_of(text@) {
                Some(unix_millis) => parsed matches Ok(instant) && instant@ == unix_millis,
                None => parsed matches Err(error) && error.text@ == text@,
            },
    {
        let chars = chars_of(text);
        let len = chars.len();
        if len == 0 || chars[len - 1] != 'Z' {
            return Err(TimestampError::of(text));
        }
        let ghost body = chars@.drop_last();
        let end = len - 1;
        assert(chars@.subrange(0, end as int) == body);
        let t = match find_char(&chars, 0, end, 'T') {
            Some(t) => t,
            None => return Err(TimestampError::of(text)),
        };
        let ghost rest = body.subrange(t + 1, body.len() as int);
        assert(chars@.subrange(0, t as int) == body.subrange(0, t as int));
        assert(chars@.subrange(t + 1, end as int) == rest);
        let (time_end, has_fraction) = match find_char(&chars, t + 1, end, '.') {
            Some(p) => (p, true),
            None => (end, false),
        };
        proof {
            if has_fraction {
                assert(chars@.subrange(t + 1, time_end as int) == rest.subrange(
                    0,
                    time_end - t - 1,
                ));
                assert(chars@.subrange(time_end + 1, end as int) == rest.subrange(
                    time_end - t,
                    rest.len() as int,
                ));
            }
        }
        let fields = Self::fields_at(&chars, t, time_end);
        let (year, month, day, hour, minute, second) = match fields {
            Some(fields) => fields,
            None => return Err(TimestampError::of(text)),
        };
        let milli = if has_fraction {
            match Self::fraction_millis_at(&chars, time_end + 1, end) {
                Some(milli) => milli,
                None => return Err(TimestampError::of(text)),
            }
        } else {
            proof {
                lemma_zero_fraction();
            }
            0
        };
        let days = days_from_civil(year, month, day);
        let (round_year, round_month, round_day) = civil_from_days(days);
        if round_year != year || round_month != month || round_day != day {
            return Err(TimestampError::of(text));
        }
        Ok(
            Self::from_unix_millis(
                days * MILLIS_PER_DAY + hour * 3_600_000 + minute * 60_000 + second * 1_000 + milli,
            ),
        )
    }

    /// The fields of the date `chars[0..t]` and the time `chars[t + 1..time_end]`.
    fn fields_at(chars: &Vec<char>, t: usize, time_end: usize) -> (fields: Option<
        (i64, i64, i64, i64, i64, i64),
    >)
        requires
            t < time_end <= chars@.len() || t + 1 == time_end <= chars@.len(),
        ensures
            match iso_fields(
                chars@.subrange(0, t as int),
                chars@.subrange(t + 1, time_end as int),
            ) {
                Some((y, mo, d, h, mi, s)) => fields == Some(
                    (y as i64, mo as i64, d as i64, h as i64, mi as i64, s as i64),
                ) && 0 <= y <= 9999 && 1 <= mo <= 12 && 1 <= d <= 31 && 0 <= h <= 23 && 0 <= mi
                    <= 59 && 0 <= s <= 59,
                None => fields.is_none(),
            },
    {
        reveal(iso_fields);
        let year = Self::piece_of_split3(chars, 0, t, '-', 0, 4);
        let month = Self::piece_of_split3(chars, 0, t, '-', 1, 2);
        let day = Self::piece_of_split3(chars, 0, t, '-', 2, 2);
        let hour = Self::piece_of_split3(chars, t + 1, time_end, ':', 0, 2);
        let minute = Self::piece_of_split3(chars, t + 1, time_end, ':', 1, 2);
        let second = Self::piece_of_split3(chars, t + 1, time_end, ':', 2, 2);
        match (year, month, day, hour, minute, second) {
            (Some(y), Some(mo), Some(d), Some(h), Some(mi), Some(s)) => {
                if 1 <= mo && mo <= 12 && 1 <= d && d <= 31 && 0 <= h && h <= 23 && 0 <= mi && mi
                    <= 59 && 0 <= s && s <= 59 {
                    Some((y, mo, d, h, mi, s))
                } else {
                    None
                }
            },
            _ => None,
        }
    }

    /// Piece `which` (0, 1 or 2) of `chars[lo..hi]` split as by `splitn(3, separator)`,
    /// read as exactly `width` digits.
    fn piece_of_split3(
        chars: &Vec<char>,
        lo: usize,
        hi: usize,
        separator: char,
        which: usize,
        width: usize,
    ) -> (number: Option<i64>)
        requires
            lo <= hi <= chars@.len(),
            which <= 2,
            width <= 4,
        ensures
            ({
                let pieces = split3(chars@.subrange(lo as int, hi as int), separator);
                let piece = if which == 0 {
                    pieces.0
                } else if which == 1 {
                    pieces.1
                } else {
                    pieces.2
                };
                match fixed_number(piece, width as nat) {
                    Some(v) => number == Some(v as i64) && 0 <= v < 10_000,
                    None => number.is_none(),
                }
            }),
    {
        reveal(split3);
        let ghost s = chars@.subrange(lo as int, hi as int);
        match find_char(chars, lo, hi, separator) {
            None => {
                if which == 0 {
                    fixed_number_at(chars, lo, hi, width)
                } else {
                    None
                }
            },
            Some(i) => {
                let ghost rest = s.subrange(i - lo + 1, s.len() as int);
                assert(chars@.subrange(lo as int, i as int) == s.subrange(0, i - lo));
                assert(chars@.subrange(i + 1, hi as int) == rest);
                if which == 0 {
                    return fixed_number_at(chars, lo, i, width);
                }
                match find_char(chars, i + 1, hi, separator) {
                    None => {
                        if which == 1 {
                            fixed_number_at(chars, i + 1, hi, width)
                        } else {
                            None
                        }
                    },
                    Some(j) => {
                        assert(chars@.subrange(i + 1, j as int) == rest.subrange(0, j - i - 1));
                        assert(chars@.subrange(j + 1, hi as int) == rest.subrange(
                            j - i,
                            rest.len() as int,
                        ));
                        if which == 1 {
                            fixed_number_at(chars, i + 1, j, width)
                        } else {
                            fixed_number_at(chars, j + 1, hi, width)
                        }
                    },
                }
            },
        }
    }

    /// The milliseconds of the fraction `chars[lo..hi]`, or `None` when it is
    /// empty or holds anything but digits.
    fn fraction_millis_at(chars: &Vec<char>, lo: usize, hi: usize) -> (milli: Option<i64>)
        requires
            lo <= hi <= chars@.len(),
        ensures
            ({
                let f = chars@.subrange(lo as int, hi as int);
                if f.len() == 0 || !all_digits(f) {
                    milli.is_none()
                } else {
                    milli == Some(fraction_millis(f) as i64) && 0 <= fraction_millis(f) < 1000
                }
            }),
    {
        let ghost f = chars@.subrange(lo as int, hi as int);
        if lo == hi {
            return None;
        }
        let mut i = lo;
        while i < hi
            invariant
                lo <= i <= hi <= chars@.len(),
                f == chars@.subrange(lo as int, hi as int),
                forall|k: int| 0 <= k < i - lo ==> '0' <= #[trigger] f[k] <= '9',
            decreases hi - i,
        {
            let c = chars[i];
            if !('0' <= c && c <= '9') {
                assert(f[(i - lo) as int] == c);
                return None;
            }
            i = i + 1;
        }
        assert(all_digits(f));
        // The first three digits, padded with zeros.
        let mut padded: Vec<char> = Vec::new();
        let mut k: usize = 0;
        while k < 3
            invariant
                0 <= k <= 3,
                lo < hi <= chars@.len(),
                f == chars@.subrange(lo as int, hi as int),
                all_digits(f),
                padded@.len() == k,
                forall|m: int|
                    0 <= m < k ==> #[trigger] padded@[m] == if m < f.len() {
                        f[m]
                    } else {
                        '0'
                    },
            decreases 3 - k,
        {
            if k < hi - lo {
                padded.push(chars[lo + k]);
            } else {
                padded.push('0');
            }
            k = k + 1;
        }
        proof {
            let target = if f.len() >= 3 {
                f.subrange(0, 3)
            } else {
                f + Seq::new((3 - f.len()) as nat, |i: int| '0')
            };
            assert(padded@ =~= target);
            assert(all_digits(padded@));
            reveal_with_fuel(pow10, 4);
        }
        let milli = fixed_number_at(&padded, 0, 3, 3);
        assert(padded@.subrange(0, 3) == padded@);
        milli
    }
}

/// The message of a text that is not a UTC ISO 8601 instant.
pub open spec fn timestamp_error_text(text: Seq<char>) -> Seq<char> {
    "UTC の ISO 8601 として読めない時刻: `"@ + text + "`"@
}

/// A text that is not a UTC ISO 8601 instant.
#[derive(Debug, Clone, PartialEq, Eq)]
pub struct TimestampError {
    /// The text that could not be read.
    pub text: String,
}

impl TimestampError {
    fn of(text: &str) -> (error: Self)
        ensures
            error.text@ == text@,
    {
        TimestampError { text: crate::text::owned(text) }
    }

    /// The message shown for this error.
    pub fn message(&self) -> (message: String)
        ensures
            message@ == timestamp_error_text(self.text@),
    {
        let mut message = crate::text::owned("UTC の ISO 8601 として読めない時刻: `");
        message.append(self.text.as_str());
        message.append("`");
        message
    }
}

/// A request that breaks an invariant of the domain. The core returns these
/// and never panics.
#[derive(Debug, Clone, Copy, PartialEq, Eq, Structural)]
pub enum DomainError {
    /// A task without any step cannot be created.
    EmptyTask,
    /// A step whose completion has been declared cannot be split: the core
    /// cannot decide which half the completion belongs to.
    SplitCompleted,
    /// The named task does not exist.
    UnknownTask,
    /// The named step does not exist.
    UnknownStep,
    /// The insertion position lies outside `1..=N+1`.
    OrdinalOutOfRange,
    /// There is no current position to leave.
    NoCurrentPosition,
}

/// The clock the core owns: the only way the core learns the present.
pub trait Clock {
    /// The present instant.
    fn now(&self) -> Timestamp;
}

/// A clock that stands still until told to move.
#[derive(Debug, Clone, Copy)]
pub struct FixedClock {
    now: i64,
}

impl FixedClock {
    /// A clock fixed at `unix_millis`.
    pub fn at(unix_millis: i64) -> (clock: Self)
        ensures
            clock.reading() == unix_millis,
    {
        FixedClock { now: unix_millis }
    }

    /// The milliseconds the clock reads.
    pub closed spec fn reading(self) -> i64 {
        self.now
    }

    /// Moves the clock by `millis` (wrapping like an atomic add).
    pub fn advance(&mut self, millis: i64)
        ensures
            final(self).reading() == old(self).reading().wrapping_add(millis),
    {
        self.now = self.now.wrapping_add(millis);
    }

    /// The present instant of this clock.
    pub fn read(&self) -> (now: Timestamp)
        ensures
            now@ == clamp_millis(self.reading() as int),
    {
        Timestamp::from_unix_millis(self.now)
    }
}

impl Clock for FixedClock {
    fn now(&self) -> (now: Timestamp)
        ensures
            now@ == clamp_millis(self.reading() as int),
    {
        self.read()
    }
}

/// `10^n`.
pub open spec fn pow10(n: nat) -> int
    decreases n,
{
    if n == 0 {
        1
    } else {
        10 * pow10((n - 1) as nat)
    }
}


// --- reading back what was written ----------------------------------------------

/// The digits written for `v` are digits, `w` of them, and read back as `v`
/// when `v` has at most `w` digits.
proof fn lemma_fixed_digits(v: int, w: nat)
    requires
        0 <= v,
    ensures
        fixed_digits(v, w).len() == w,
        all_digits(fixed_digits(v, w)),
        v < pow10(w) ==> digits_value(fixed_digits(v, w)) == v,
    decreases w,
{
    if w > 0 {
        let p = fixed_digits(v / 10, (w - 1) as nat);
        lemma_fixed_digits(v / 10, (w - 1) as nat);
        let d = v % 10;
        assert(0 <= d < 10);
        let c = digit_char(d);
        assert(c as int == d + 48);
        let s = p.push(c);
        assert(s.drop_last() =~= p);
        assert forall|i: int| 0 <= i < s.len() implies '0' <= #[trigger] s[i] <= '9' by {
            if i < p.len() {
                assert(s[i] == p[i]);
            }
        }
        if v < pow10(w) {
            assert(pow10(w) == 10 * pow10((w - 1) as nat));
            assert(v / 10 < pow10((w - 1) as nat));
            assert(v == (v / 10) * 10 + d);
        }
    }
}

/// `x` holds no `c`.
pub open spec fn lacks(x: Seq<char>, c: char) -> bool {
    forall|i: int| 0 <= i < x.len() ==> x[i] != c
}

/// The first `c` in `x + [c] + y` is the one after `x` when `x` holds none.
proof fn lemma_first_index_after(x: Seq<char>, c: char, y: Seq<char>)
    requires
        lacks(x, c),
    ensures
        first_index_of(x + seq![c] + y, c) == Some(x.len() as int),
{
    let s = x + seq![c] + y;
    let k = x.len() as int;
    assert(s[k] == c);
    assert forall|j: int| 0 <= j < k implies s[j] != c by {
        assert(s[j] == x[j]);
    }
    assert(is_first_index(s, c, k));
    assert forall|m: int| is_first_index(s, c, m) implies m == k by {
        if m < k {
            assert(s[m] != c);
        } else if m > k {
            assert(s[k] != c);
        }
    }
}

/// Digits hold no separator.
proof fn lemma_digits_lack(x: Seq<char>, c: char)
    requires
        all_digits(x),
        !('0' <= c <= '9'),
    ensures
        lacks(x, c),
{
    assert forall|i: int| 0 <= i < x.len() implies x[i] != c by {
        assert('0' <= x[i] <= '9');
    }
}

/// Three runs of digits joined by a separator split back into the three runs.
proof fn lemma_split3_digits(a: Seq<char>, b: Seq<char>, d: Seq<char>, c: char)
    requires
        all_digits(a),
        all_digits(b),
        all_digits(d),
        !('0' <= c <= '9'),
    ensures
        split3(a + seq![c] + b + seq![c] + d, c) == (Some(a), Some(b), Some(d)),
{
    reveal(split3);
    let s = a + seq![c] + b + seq![c] + d;
    lemma_digits_lack(a, c);
    lemma_digits_lack(b, c);
    assert(s =~= a + seq![c] + (b + seq![c] + d));
    lemma_first_index_after(a, c, b + seq![c] + d);
    let i = a.len() as int;
    let rest = s.subrange(i + 1, s.len() as int);
    assert(rest =~= b + seq![c] + d);
    lemma_first_index_after(b, c, d);
    let j = b.len() as int;
    assert(s.subrange(0, i) =~= a);
    assert(rest.subrange(0, j) =~= b);
    assert(rest.subrange(j + 1, rest.len() as int) =~= d);
}

/// A run of `w` digits is read back as the number it spells.
proof fn lemma_fixed_number(v: int, w: nat)
    requires
        0 <= v < pow10(w),
    ensures
        fixed_number(Some(fixed_digits(v, w)), w) == Some(v),
{
    lemma_fixed_digits(v, w);
}

/// Within the representable range, a day's date has a four-digit year, a month
/// and a day of the month.
proof fn lemma_civil_ranges(days: int)
    requires
        -719_528 <= days <= 2_932_896,
    ensures
        0 <= civil_of(days).0 <= 9999,
        1 <= civil_of(days).1 <= 12,
        1 <= civil_of(days).2 <= 31,
{
    lemma_civil_year_range(days);
    reveal(civil_of);
    let doe = day_of_era(days);
    lemma_year_of_era_bounds(doe);
    let doy = doe - start_of_year_of_era(year_of_era(doe));
    let mp = (5 * doy + 2) / 153;
    assert(0 <= mp <= 11);
    let day = doy - (153 * mp + 2) / 5 + 1;
    assert(1 <= day <= 31) by (nonlinear_arith)
        requires
            0 <= doy <= 365,
            mp == (5 * doy + 2) / 153,
            0 <= mp <= 11,
            day == doy - (153 * mp + 2) / 5 + 1,
    ;
}

/// The written text cut into its date, time and fraction.
proof fn lemma_iso_pieces_of_written(
    y: Seq<char>,
    mo: Seq<char>,
    d: Seq<char>,
    h: Seq<char>,
    mi: Seq<char>,
    se: Seq<char>,
    f: Seq<char>,
)
    requires
        all_digits(y),
        all_digits(mo),
        all_digits(d),
        all_digits(h),
        all_digits(mi),
        all_digits(se),
    ensures
        iso_pieces(
            y + seq!['-'] + mo + seq!['-'] + d + seq!['T'] + h + seq![':'] + mi + seq![':'] + se + seq![
                '.',
            ] + f + seq!['Z'],
        ) == Some((y + seq!['-'] + mo + seq!['-'] + d, h + seq![':'] + mi + seq![':'] + se, f)),
{
    let date = y + seq!['-'] + mo + seq!['-'] + d;
    let time = h + seq![':'] + mi + seq![':'] + se;
    let text = y + seq!['-'] + mo + seq!['-'] + d + seq!['T'] + h + seq![':'] + mi + seq![':'] + se
        + seq!['.'] + f + seq!['Z'];
    assert(text =~= date + seq!['T'] + (time + seq!['.'] + f) + seq!['Z']);
    let body = text.drop_last();
    assert(body =~= date + seq!['T'] + (time + seq!['.'] + f));
    lemma_digits_lack(y, 'T');
    lemma_digits_lack(mo, 'T');
    lemma_digits_lack(d, 'T');
    assert(lacks(date, 'T')) by {
        assert forall|i: int| 0 <= i < date.len() implies date[i] != 'T' by {
            let a = y.len() as int;
            let b = a + 1 + mo.len();
            if i < a {
                assert(date[i] == y[i]);
            } else if i == a || i == b {
            } else if i < b {
                assert(date[i] == mo[i - a - 1]);
            } else {
                assert(date[i] == d[i - b - 1]);
            }
        }
    }
    lemma_first_index_after(date, 'T', time + seq!['.'] + f);
    let rest = body.subrange(date.len() as int + 1, body.len() as int);
    assert(rest =~= time + seq!['.'] + f);
    lemma_digits_lack(h, '.');
    lemma_digits_lack(mi, '.');
    lemma_digits_lack(se, '.');
    assert(lacks(time, '.')) by {
        assert forall|i: int| 0 <= i < time.len() implies time[i] != '.' by {
            let a = h.len() as int;
            let b = a + 1 + mi.len();
            if i < a {
                assert(time[i] == h[i]);
            } else if i == a || i == b {
            } else if i < b {
                assert(time[i] == mi[i - a - 1]);
            } else {
                assert(time[i] == se[i - b - 1]);
            }
        }
    }
    lemma_first_index_after(time, '.', f);
    assert(body.subrange(0, date.len() as int) =~= date);
    assert(rest.subrange(0, time.len() as int) =~= time);
    assert(rest.subrange(time.len() as int + 1, rest.len() as int) =~= f);
}

/// The parts of a time of day.
proof fn lemma_time_of_day(of_day: int)
    requires
        0 <= of_day < 86_400_000,
    ensures
        0 <= of_day / 3_600_000 <= 23,
        0 <= (of_day / 60_000) % 60 <= 59,
        0 <= (of_day / 1000) % 60 <= 59,
        0 <= of_day % 1000 <= 999,
        (of_day / 3_600_000) * 3_600_000 + ((of_day / 60_000) % 60) * 60_000 + ((of_day / 1000) % 60)
            * 1000 + of_day % 1000 == of_day,
{
}

/// The text written for an instant is read back as that instant: what was
/// written can always be read again.
pub proof fn law_iso8601_round_trip(unix_millis: int)
    requires
        MIN_UNIX_MILLIS <= unix_millis <= MAX_UNIX_MILLIS,
    ensures
        parse_iso8601_of(iso8601_of(unix_millis)) == Some(unix_millis),
{
    let days = unix_millis / 86_400_000;
    let of_day = unix_millis % 86_400_000;
    assert(-719_528 <= days <= 2_932_896);
    lemma_civil_ranges(days);
    lemma_time_of_day(of_day);
    let (year, month, day) = civil_of(days);
    let hour = of_day / 3_600_000;
    let minute = (of_day / 60_000) % 60;
    let second = (of_day / 1000) % 60;
    let milli = of_day % 1000;
    reveal_with_fuel(pow10, 5);
    let y = fixed_digits(year, 4);
    let mo = fixed_digits(month, 2);
    let d = fixed_digits(day, 2);
    let h = fixed_digits(hour, 2);
    let mi = fixed_digits(minute, 2);
    let se = fixed_digits(second, 2);
    let f = fixed_digits(milli, 3);
    lemma_fixed_digits(year, 4);
    lemma_fixed_digits(month, 2);
    lemma_fixed_digits(day, 2);
    lemma_fixed_digits(hour, 2);
    lemma_fixed_digits(minute, 2);
    lemma_fixed_digits(second, 2);
    lemma_fixed_digits(milli, 3);
    let date = y + seq!['-'] + mo + seq!['-'] + d;
    let time = h + seq![':'] + mi + seq![':'] + se;
    lemma_iso_pieces_of_written(y, mo, d, h, mi, se, f);
    assert(iso_pieces(iso8601_of(unix_millis)) == Some((date, time, f)));
    reveal(iso_fields);
    lemma_split3_digits(y, mo, d, '-');
    lemma_split3_digits(h, mi, se, ':');
    lemma_fixed_number(year, 4);
    lemma_fixed_number(month, 2);
    lemma_fixed_number(day, 2);
    lemma_fixed_number(hour, 2);
    lemma_fixed_number(minute, 2);
    lemma_fixed_number(second, 2);
    assert(iso_fields(date, time) == Some((year, month, day, hour, minute, second)));
    assert(f.subrange(0, 3) =~= f);
    assert(fraction_millis(f) == milli);
    lemma_days_of_civil(days);
    assert(days_of(year, month, day) == days);
}

} // verus!
