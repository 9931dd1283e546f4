//! The text of an instant sorts like the instant: ISO 8601 texts compared
//! character by character come in the order of the instants they write, so a
//! store may sort them as plain text.

use vstd::prelude::*;

use super::{
    civil_of, day_of_era, digit_char, fixed_digits, iso8601_of, lemma_civil_ranges, lemma_time_of_day,
    lemma_year_of_era_bounds, pow10, start_of_year_of_era, year_of_era, MAX_UNIX_MILLIS, MIN_UNIX_MILLIS,
};

verus! {

/// `a` comes before `b` in dictionary order: at the first place where they
/// differ, `a` holds the smaller character.
pub open spec fn text_before(a: Seq<char>, b: Seq<char>) -> bool {
    exists|i: int|
        0 <= i < a.len() && i < b.len() && #[trigger] a.subrange(0, i) == b.subrange(0, i) && a[i] < b[i]
}

proof fn lemma_before_at(a: Seq<char>, b: Seq<char>, i: int)
    requires
        0 <= i < a.len(),
        i < b.len(),
        a.subrange(0, i) == b.subrange(0, i),
        a[i] < b[i],
    ensures
        text_before(a, b),
{
}

/// What comes after the place of difference does not matter.
proof fn lemma_before_extend(a: Seq<char>, b: Seq<char>, x: Seq<char>, y: Seq<char>)
    requires
        text_before(a, b),
    ensures
        text_before(a + x, b + y),
{
    let i = choose|i: int|
        0 <= i < a.len() && i < b.len() && #[trigger] a.subrange(0, i) == b.subrange(0, i) && a[i] < b[i];
    assert((a + x).subrange(0, i) =~= a.subrange(0, i));
    assert((b + y).subrange(0, i) =~= b.subrange(0, i));
    lemma_before_at(a + x, b + y, i);
}

/// A common beginning does not change the order.
proof fn lemma_before_prefix(p: Seq<char>, a: Seq<char>, b: Seq<char>)
    requires
        text_before(a, b),
    ensures
        text_before(p + a, p + b),
{
    let i = choose|i: int|
        0 <= i < a.len() && i < b.len() && #[trigger] a.subrange(0, i) == b.subrange(0, i) && a[i] < b[i];
    assert((p + a).subrange(0, p.len() + i) =~= p + a.subrange(0, i));
    assert((p + b).subrange(0, p.len() + i) =~= p + b.subrange(0, i));
    lemma_before_at(p + a, p + b, p.len() + i);
}

/// Zero-padded numbers of one width compare as text like the numbers.
proof fn lemma_fixed_digits_before(v1: int, v2: int, w: nat)
    requires
        0 <= v1 < v2 < pow10(w),
    ensures
        text_before(fixed_digits(v1, w), fixed_digits(v2, w)),
        fixed_digits(v1, w).len() == w,
        fixed_digits(v2, w).len() == w,
    decreases w,
{
    lemma_fixed_len(v1, w);
    lemma_fixed_len(v2, w);
    if w > 0 {
        let (p1, p2) = (fixed_digits(v1 / 10, (w - 1) as nat), fixed_digits(v2 / 10, (w - 1) as nat));
        assert(pow10(w) == 10 * pow10((w - 1) as nat));
        assert(v1 / 10 <= v2 / 10 < pow10((w - 1) as nat)) by (nonlinear_arith)
            requires
                0 <= v1 < v2 < 10 * pow10((w - 1) as nat),
        ;
        if v1 / 10 < v2 / 10 {
            lemma_fixed_digits_before(v1 / 10, v2 / 10, (w - 1) as nat);
            lemma_before_extend(p1, p2, seq![digit_char(v1 % 10)], seq![digit_char(v2 % 10)]);
            assert(p1 + seq![digit_char(v1 % 10)] =~= fixed_digits(v1, w));
            assert(p2 + seq![digit_char(v2 % 10)] =~= fixed_digits(v2, w));
        } else {
            assert(v1 % 10 < v2 % 10);
            let i = (w - 1) as int;
            assert(fixed_digits(v1, w).subrange(0, i) =~= p1);
            assert(fixed_digits(v2, w).subrange(0, i) =~= p2);
            assert(fixed_digits(v1, w)[i] == digit_char(v1 % 10));
            assert(fixed_digits(v2, w)[i] == digit_char(v2 % 10));
            lemma_before_at(fixed_digits(v1, w), fixed_digits(v2, w), i);
        }
    }
}

proof fn lemma_fixed_len(v: int, w: nat)
    ensures
        fixed_digits(v, w).len() == w,
    decreases w,
{
    if w > 0 {
        lemma_fixed_len(v / 10, (w - 1) as nat);
    }
}

// --- the fields of the text --------------------------------------------------

/// The text from the fraction on: `fff` then `Z`.
pub open spec fn tail_fraction(f: int) -> Seq<char> {
    fixed_digits(f, 3) + seq!['Z']
}

/// The text from the seconds on.
pub open spec fn tail_second(s: int, f: int) -> Seq<char> {
    fixed_digits(s, 2) + (seq!['.'] + tail_fraction(f))
}

/// The text from the minutes on.
pub open spec fn tail_minute(mi: int, s: int, f: int) -> Seq<char> {
    fixed_digits(mi, 2) + (seq![':'] + tail_second(s, f))
}

/// The text from the hours on.
pub open spec fn tail_hour(h: int, mi: int, s: int, f: int) -> Seq<char> {
    fixed_digits(h, 2) + (seq![':'] + tail_minute(mi, s, f))
}

/// The text from the day on.
pub open spec fn tail_day(d: int, h: int, mi: int, s: int, f: int) -> Seq<char> {
    fixed_digits(d, 2) + (seq!['T'] + tail_hour(h, mi, s, f))
}

/// The text from the month on.
pub open spec fn tail_month(m: int, d: int, h: int, mi: int, s: int, f: int) -> Seq<char> {
    fixed_digits(m, 2) + (seq!['-'] + tail_day(d, h, mi, s, f))
}

/// The whole text of the fields `(year, month, day, hour, minute, second, millisecond)`.
pub open spec fn written(c: (int, int, int, int, int, int, int)) -> Seq<char> {
    fixed_digits(c.0, 4) + (seq!['-'] + tail_month(c.1, c.2, c.3, c.4, c.5, c.6))
}

/// The fields an instant is written with.
pub open spec fn fields_of(unix_millis: int) -> (int, int, int, int, int, int, int) {
    let days = unix_millis / 86_400_000;
    let of_day = unix_millis % 86_400_000;
    let (year, month, day) = civil_of(days);
    (
        year,
        month,
        day,
        of_day / 3_600_000,
        (of_day / 60_000) % 60,
        (of_day / 1000) % 60,
        of_day % 1000,
    )
}

/// Every field fits its width.
pub open spec fn fields_fit(c: (int, int, int, int, int, int, int)) -> bool {
    &&& 0 <= c.0 < 10000
    &&& 0 <= c.1 < 100
    &&& 0 <= c.2 < 100
    &&& 0 <= c.3 < 100
    &&& 0 <= c.4 < 100
    &&& 0 <= c.5 < 100
    &&& 0 <= c.6 < 1000
}

/// `a` comes before `b` field by field, the year first.
pub open spec fn fields_before(a: (int, int, int, int, int, int, int), b: (int, int, int, int, int, int, int)) -> bool {
    ||| a.0 < b.0
    ||| a.0 == b.0 && a.1 < b.1
    ||| a.0 == b.0 && a.1 == b.1 && a.2 < b.2
    ||| a.0 == b.0 && a.1 == b.1 && a.2 == b.2 && a.3 < b.3
    ||| a.0 == b.0 && a.1 == b.1 && a.2 == b.2 && a.3 == b.3 && a.4 < b.4
    ||| a.0 == b.0 && a.1 == b.1 && a.2 == b.2 && a.3 == b.3 && a.4 == b.4 && a.5 < b.5
    ||| a.0 == b.0 && a.1 == b.1 && a.2 == b.2 && a.3 == b.3 && a.4 == b.4 && a.5 == b.5 && a.6 < b.6
}

proof fn lemma_first_field(v1: int, v2: int, w: nat, x: Seq<char>, y: Seq<char>)
    requires
        0 <= v1 < v2 < pow10(w),
    ensures
        text_before(fixed_digits(v1, w) + x, fixed_digits(v2, w) + y),
{
    lemma_fixed_digits_before(v1, v2, w);
    lemma_before_extend(fixed_digits(v1, w), fixed_digits(v2, w), x, y);
}

proof fn lemma_same_field(v: int, w: nat, sep: char, x: Seq<char>, y: Seq<char>)
    requires
        text_before(x, y),
    ensures
        text_before(fixed_digits(v, w) + (seq![sep] + x), fixed_digits(v, w) + (seq![sep] + y)),
{
    lemma_before_prefix(seq![sep], x, y);
    lemma_before_prefix(fixed_digits(v, w), seq![sep] + x, seq![sep] + y);
}

proof fn lemma_written_before(a: (int, int, int, int, int, int, int), b: (int, int, int, int, int, int, int))
    requires
        fields_fit(a),
        fields_fit(b),
        fields_before(a, b),
    ensures
        text_before(written(a), written(b)),
{
    reveal_with_fuel(pow10, 5);
    let sep = seq!['-'];
    if a.0 < b.0 {
        lemma_first_field(a.0, b.0, 4, sep + tail_month(a.1, a.2, a.3, a.4, a.5, a.6), sep + tail_month(
            b.1, b.2, b.3, b.4, b.5, b.6));
        return;
    }
    if a.1 < b.1 {
        lemma_first_field(a.1, b.1, 2, seq!['-'] + tail_day(a.2, a.3, a.4, a.5, a.6), seq!['-'] + tail_day(
            b.2, b.3, b.4, b.5, b.6));
    } else if a.2 < b.2 {
        lemma_first_field(a.2, b.2, 2, seq!['T'] + tail_hour(a.3, a.4, a.5, a.6), seq!['T'] + tail_hour(
            b.3, b.4, b.5, b.6));
        lemma_same_field(a.1, 2, '-', tail_day(a.2, a.3, a.4, a.5, a.6), tail_day(b.2, b.3, b.4, b.5, b.6));
    } else {
        if a.3 < b.3 {
            lemma_first_field(a.3, b.3, 2, seq![':'] + tail_minute(a.4, a.5, a.6), seq![':'] + tail_minute(
                b.4, b.5, b.6));
        } else {
            if a.4 < b.4 {
                lemma_first_field(a.4, b.4, 2, seq![':'] + tail_second(a.5, a.6), seq![':'] + tail_second(
                    b.5, b.6));
            } else {
                if a.5 < b.5 {
                    lemma_first_field(a.5, b.5, 2, seq!['.'] + tail_fraction(a.6), seq!['.'] + tail_fraction(
                        b.6));
                } else {
                    lemma_first_field(a.6, b.6, 3, seq!['Z'], seq!['Z']);
                    lemma_same_field(a.5, 2, '.', tail_fraction(a.6), tail_fraction(b.6));
                }
                lemma_same_field(a.4, 2, ':', tail_second(a.5, a.6), tail_second(b.5, b.6));
            }
            lemma_same_field(a.3, 2, ':', tail_minute(a.4, a.5, a.6), tail_minute(b.4, b.5, b.6));
        }
        lemma_same_field(a.2, 2, 'T', tail_hour(a.3, a.4, a.5, a.6), tail_hour(b.3, b.4, b.5, b.6));
        lemma_same_field(a.1, 2, '-', tail_day(a.2, a.3, a.4, a.5, a.6), tail_day(b.2, b.3, b.4, b.5, b.6));
    }
    lemma_same_field(a.0, 4, '-', tail_month(a.1, a.2, a.3, a.4, a.5, a.6), tail_month(b.1, b.2, b.3, b.4, b.5, b.6));
}

/// The text of an instant is the text of its fields.
proof fn lemma_iso_is_written(unix_millis: int)
    ensures
        iso8601_of(unix_millis) == written(fields_of(unix_millis)),
{
    let c = fields_of(unix_millis);
    assert(iso8601_of(unix_millis) =~= written(c));
}

// --- the calendar keeps the order of days -----------------------------------

/// The days before the March-based year `y` (year 0 starts on 0000-03-01).
pub open spec fn days_before_year(y: int) -> int {
    365 * y + y / 4 - y / 100 + y / 400
}

/// The March-based year of day `days`.
pub open spec fn march_year(days: int) -> int {
    year_of_era(day_of_era(days)) + ((days + 719_468) / 146_097) * 400
}

/// The day of the March-based year of day `days`.
pub open spec fn day_of_march_year(days: int) -> int {
    day_of_era(days) - start_of_year_of_era(year_of_era(day_of_era(days)))
}

/// `(year, month, day)` of a day of a March-based year.
pub open spec fn civil_parts(y: int, doy: int) -> (int, int, int) {
    let mp = (5 * doy + 2) / 153;
    let day = doy - (153 * mp + 2) / 5 + 1;
    let month = if mp < 10 { mp + 3 } else { mp - 9 };
    (if month <= 2 { y + 1 } else { y }, month, day)
}

/// `a` comes before `b`: the year first, then the month, then the day.
pub open spec fn date_before(a: (int, int, int), b: (int, int, int)) -> bool {
    ||| a.0 < b.0
    ||| a.0 == b.0 && a.1 < b.1
    ||| a.0 == b.0 && a.1 == b.1 && a.2 < b.2
}

proof fn lemma_civil_parts(days: int)
    ensures
        civil_of(days) == civil_parts(march_year(days), day_of_march_year(days)),
        0 <= day_of_march_year(days) <= 365,
        days + 719_468 == days_before_year(march_year(days)) + day_of_march_year(days),
{
    reveal(civil_of);
    let z = days + 719_468;
    let era = z / 146_097;
    let doe = day_of_era(days);
    lemma_year_of_era_bounds(doe);
    let yoe = year_of_era(doe);
    let y = yoe + era * 400;
    assert(0 <= doe < 146_097);
    assert(z == era * 146_097 + doe);
    assert(y / 4 == era * 100 + yoe / 4 && y / 100 == era * 4 + yoe / 100 && y / 400 == era) by (nonlinear_arith)
        requires
            y == yoe + era * 400,
            0 <= yoe <= 399,
    ;
}

proof fn lemma_div_step(y: int, k: int)
    requires
        k > 0,
    ensures
        (y + 1) / k == y / k + (if (y + 1) % k == 0 { 1int } else { 0int }),
{
    assert((y + 1) / k == y / k + (if (y + 1) % k == 0 { 1int } else { 0int })) by (nonlinear_arith)
        requires
            k > 0,
    ;
}

proof fn lemma_year_step(y: int)
    ensures
        days_before_year(y + 1) >= days_before_year(y) + 365,
{
    lemma_div_step(y, 4);
    lemma_div_step(y, 100);
    lemma_div_step(y, 400);
    if (y + 1) % 100 == 0 {
        assert((y + 1) % 4 == 0) by (nonlinear_arith)
            requires
                (y + 1) % 100 == 0,
        ;
    }
}

proof fn lemma_years_apart(y1: int, y2: int)
    requires
        y1 < y2,
    ensures
        days_before_year(y2) >= days_before_year(y1) + 365,
    decreases y2 - y1,
{
    lemma_year_step(y1);
    if y1 + 1 < y2 {
        lemma_years_apart(y1 + 1, y2);
        lemma_year_step(y2 - 1);
    }
}

proof fn lemma_parts_before(y: int, doy1: int, doy2: int)
    requires
        0 <= doy1 < doy2 <= 365,
    ensures
        date_before(civil_parts(y, doy1), civil_parts(y, doy2)),
{
    let mp1 = (5 * doy1 + 2) / 153;
    let mp2 = (5 * doy2 + 2) / 153;
    assert(0 <= mp1 <= mp2 <= 11) by (nonlinear_arith)
        requires
            0 <= doy1 < doy2 <= 365,
            mp1 == (5 * doy1 + 2) / 153,
            mp2 == (5 * doy2 + 2) / 153,
    ;
}

proof fn lemma_years_before(y1: int, doy1: int, y2: int, doy2: int)
    requires
        y1 < y2,
        0 <= doy1 <= 365,
        0 <= doy2 <= 365,
    ensures
        date_before(civil_parts(y1, doy1), civil_parts(y2, doy2)),
{
    let mp1 = (5 * doy1 + 2) / 153;
    let mp2 = (5 * doy2 + 2) / 153;
    assert(0 <= mp1 <= 11 && 0 <= mp2 <= 11) by (nonlinear_arith)
        requires
            0 <= doy1 <= 365,
            0 <= doy2 <= 365,
            mp1 == (5 * doy1 + 2) / 153,
            mp2 == (5 * doy2 + 2) / 153,
    ;
}

/// Later days have later dates.
pub proof fn lemma_civil_before(d1: int, d2: int)
    requires
        d1 < d2,
    ensures
        date_before(civil_of(d1), civil_of(d2)),
{
    lemma_civil_parts(d1);
    lemma_civil_parts(d2);
    let (y1, y2) = (march_year(d1), march_year(d2));
    let (doy1, doy2) = (day_of_march_year(d1), day_of_march_year(d2));
    if y2 < y1 {
        lemma_years_apart(y2, y1);
        assert(false);
    } else if y1 < y2 {
        lemma_years_before(y1, doy1, y2, doy2);
    } else {
        lemma_parts_before(y1, doy1, doy2);
    }
}

// --- the law -----------------------------------------------------------------

proof fn lemma_fields_fit(unix_millis: int)
    requires
        MIN_UNIX_MILLIS <= unix_millis <= MAX_UNIX_MILLIS,
    ensures
        fields_fit(fields_of(unix_millis)),
{
    let days = unix_millis / 86_400_000;
    assert(-719_528 <= days <= 2_932_896);
    lemma_civil_ranges(days);
    lemma_time_of_day(unix_millis % 86_400_000);
}

/// The ISO 8601 text of an earlier instant comes first in dictionary order, so
/// the texts sort like the instants they write (the milliseconds are always
/// written with three digits for this).
pub proof fn law_text_sorts_like_the_instant(a: int, b: int)
    requires
        MIN_UNIX_MILLIS <= a < b <= MAX_UNIX_MILLIS,
    ensures
        text_before(iso8601_of(a), iso8601_of(b)),
        !text_before(iso8601_of(b), iso8601_of(a)),
{
    lemma_fields_fit(a);
    lemma_fields_fit(b);
    lemma_iso_is_written(a);
    lemma_iso_is_written(b);
    let (da, db) = (a / 86_400_000, b / 86_400_000);
    let (oa, ob) = (a % 86_400_000, b % 86_400_000);
    lemma_time_of_day(oa);
    lemma_time_of_day(ob);
    assert(da <= db);
    if da < db {
        lemma_civil_before(da, db);
    } else {
        assert(oa < ob);
    }
    assert(fields_before(fields_of(a), fields_of(b)));
    lemma_written_before(fields_of(a), fields_of(b));
    lemma_before_asymmetric(iso8601_of(a), iso8601_of(b));
}

/// Dictionary order is a strict order: two texts never come before each other.
proof fn lemma_before_asymmetric(a: Seq<char>, b: Seq<char>)
    requires
        text_before(a, b),
    ensures
        !text_before(b, a),
{
    let i = choose|i: int|
        0 <= i < a.len() && i < b.len() && #[trigger] a.subrange(0, i) == b.subrange(0, i) && a[i] < b[i];
    if text_before(b, a) {
        let j = choose|j: int|
            0 <= j < b.len() && j < a.len() && #[trigger] b.subrange(0, j) == a.subrange(0, j) && b[j] < a[j];
        if i < j {
            assert(b.subrange(0, j)[i] == a.subrange(0, j)[i]);
        } else if j < i {
            assert(a.subrange(0, i)[j] == b.subrange(0, i)[j]);
        }
    }
}

} // verus!
