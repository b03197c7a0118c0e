//! The proleptic Gregorian calendar in UTC: day numbers of dates, the
//! calendar reading of an instant, and the fact that an instant has exactly
//! one reading.
use vstd::prelude::*;
use vstd::arithmetic::div_mod::{
    lemma_div_is_ordered, lemma_fundamental_div_mod, lemma_fundamental_div_mod_converse,
};
use crate::order::{
    fixed_digits, lemma_fixed_len, lemma_fixed_order, lemma_lex_concat, lemma_padded_is_fixed,
    lemma_pow10_small,
};
use crate::text::{decimal_padded, lex_le};

verus! {

pub open spec fn is_leap_year(y: int) -> bool {
    (y % 4 == 0 && y % 100 != 0) || y % 400 == 0
}

pub open spec fn days_in_month(y: int, m: int) -> int {
    if m == 2 {
        if is_leap_year(y) {
            29
        } else {
            28
        }
    } else if m == 4 || m == 6 || m == 9 || m == 11 {
        30
    } else {
        31
    }
}

/// Days from 1970-01-01 to the given date of the proleptic Gregorian calendar.
pub open spec fn days_from_civil(y: int, m: int, d: int) -> int {
    let y2 = if m <= 2 {
        y - 1
    } else {
        y
    };
    let era = y2 / 400;
    let yoe = y2 - era * 400;
    let mp = (m + 9) % 12;
    let doy = (153 * mp + 2) / 5 + d - 1;
    let doe = yoe * 365 + yoe / 4 - yoe / 100 + doy;
    era * 146097 + doe - 719468
}

/// UTC calendar fields of a Unix time in milliseconds.
#[derive(Debug, Clone, Copy)]
pub struct CalendarTime {
    pub year: i32,
    pub month: u32,
    pub day: u32,
    pub hour: u32,
    pub minute: u32,
    pub second: u32,
    pub millisecond: u32,
}

/// `ct` is the UTC calendar reading of `millis` milliseconds after the epoch.
pub open spec fn is_calendar_of(ct: CalendarTime, millis: int) -> bool {
    &&& 1 <= ct.month <= 12
    &&& 1 <= ct.day <= days_in_month(ct.year as int, ct.month as int)
    &&& ct.hour < 24
    &&& ct.minute < 60
    &&& ct.second < 60
    &&& ct.millisecond < 1000
    &&& days_from_civil(ct.year as int, ct.month as int, ct.day as int) * 86_400_000 + ct.hour
        * 3_600_000 + ct.minute * 60_000 + ct.second * 1000 + ct.millisecond == millis
}

/// `HH:MM:SS` of a calendar reading, two digits each.
pub open spec fn clock_text(ct: CalendarTime) -> Seq<char> {
    decimal_padded(ct.hour as nat, 2) + ":"@ + decimal_padded(ct.minute as nat, 2) + ":"@
        + decimal_padded(ct.second as nat, 2)
}

/// `%Y` of a year: four digits, zero-padded, for years 0 to 9999; otherwise a
/// sign and at least four digits.
pub open spec fn year_stamp(y: int) -> Seq<char> {
    if 0 <= y <= 9999 {
        decimal_padded(y as nat, 4)
    } else if y < 0 {
        "-"@ + decimal_padded((-y) as nat, 4)
    } else {
        "+"@ + decimal_padded(y as nat, 4)
    }
}

/// `%Y%m%d_%H%M%S_%3f` of a calendar reading.
pub open spec fn stamp_text(ct: CalendarTime) -> Seq<char> {
    year_stamp(ct.year as int) + decimal_padded(ct.month as nat, 2) + decimal_padded(
        ct.day as nat,
        2,
    ) + "_"@ + decimal_padded(ct.hour as nat, 2) + decimal_padded(ct.minute as nat, 2)
        + decimal_padded(ct.second as nat, 2) + "_"@ + decimal_padded(ct.millisecond as nat, 3)
}

/// A month and day that exist in the year.
pub open spec fn valid_date(y: int, m: int, d: int) -> bool {
    1 <= m <= 12 && 1 <= d <= days_in_month(y, m)
}

/// Day count of March 1st of the March-based year `y2` (shifted by 719 468).
spec fn march_year_start(y2: int) -> int {
    let era = y2 / 400;
    let yoe = y2 - era * 400;
    era * 146097 + yoe * 365 + yoe / 4 - yoe / 100
}

proof fn lemma_split(y: int, m: int, d: int)
    ensures
        days_from_civil(y, m, d) == march_year_start(
            if m <= 2 {
                y - 1
            } else {
                y
            },
        ) + (153 * ((m + 9) % 12) + 2) / 5 + d - 1 - 719468,
{
}

/// Within the four centuries of an era, a March-based year has a leap day
/// (its next February 29th) exactly when the following year is a leap year.
proof fn lemma_leap_in_era(r: int)
    requires
        0 <= r < 399,
    ensures
        (r + 1) / 4 - r / 4 - ((r + 1) / 100 - r / 100) == if (r + 1) % 4 == 0 && (r + 1) % 100
            != 0 {
            1int
        } else {
            0int
        },
{
    lemma_fundamental_div_mod(r, 4);
    lemma_fundamental_div_mod(r + 1, 4);
    lemma_fundamental_div_mod(r, 100);
    lemma_fundamental_div_mod(r + 1, 100);
    if (r + 1) % 4 == 0 {
        lemma_fundamental_div_mod_converse(r, 4, (r + 1) / 4 - 1, 3);
    } else {
        lemma_fundamental_div_mod_converse(r + 1, 4, r / 4, r % 4 + 1);
    }
    if (r + 1) % 100 == 0 {
        lemma_fundamental_div_mod_converse(r, 100, (r + 1) / 100 - 1, 99);
    } else {
        lemma_fundamental_div_mod_converse(r + 1, 100, r / 100, r % 100 + 1);
    }
}

/// A March-based year is 365 days long, 366 when the next calendar year is a leap year.
proof fn lemma_year_step(y2: int)
    ensures
        march_year_start(y2 + 1) == march_year_start(y2) + 365 + if is_leap_year(y2 + 1) {
            1int
        } else {
            0int
        },
{
    let e = y2 / 400;
    let r = y2 % 400;
    lemma_fundamental_div_mod(y2, 400);
    assert(y2 - e * 400 == r);
    if r < 399 {
        lemma_fundamental_div_mod_converse(y2 + 1, 400, e, r + 1);
        lemma_leap_in_era(r);
        lemma_fundamental_div_mod(r + 1, 4);
        lemma_fundamental_div_mod_converse(y2 + 1, 4, 100 * e + (r + 1) / 4, (r + 1) % 4);
        lemma_fundamental_div_mod(r + 1, 100);
        lemma_fundamental_div_mod_converse(y2 + 1, 100, 4 * e + (r + 1) / 100, (r + 1) % 100);
    } else {
        lemma_fundamental_div_mod_converse(y2 + 1, 400, e + 1, 0);
        lemma_fundamental_div_mod_converse(y2 + 1, 4, 100 * e + 100, 0);
        lemma_fundamental_div_mod_converse(y2 + 1, 100, 4 * e + 4, 0);
        assert(399int / 4 == 99 && 399int / 100 == 3);
    }
}

/// The first of the next month follows the last day of this one.
proof fn lemma_month_step(y: int, m: int)
    requires
        1 <= m <= 11,
    ensures
        days_from_civil(y, m + 1, 1) == days_from_civil(y, m, 1) + days_in_month(y, m),
{
    lemma_split(y, m, 1);
    lemma_split(y, m + 1, 1);
    if m == 2 {
        lemma_year_step(y - 1);
    }
}

/// January 1st of the next year follows December 31st.
proof fn lemma_year_wrap(y: int)
    ensures
        days_from_civil(y + 1, 1, 1) == days_from_civil(y, 12, 1) + 31,
{
    lemma_split(y + 1, 1, 1);
    lemma_split(y, 12, 1);
}

proof fn lemma_month_starts_increase(y: int, m1: int, m2: int)
    requires
        1 <= m1 < m2 <= 12,
    ensures
        days_from_civil(y, m2, 1) >= days_from_civil(y, m1, 1) + days_in_month(y, m1),
    decreases m2 - m1,
{
    lemma_month_step(y, m2 - 1);
    if m1 < m2 - 1 {
        lemma_month_starts_increase(y, m1, m2 - 1);
    }
}

/// Every valid date of a year falls between its January 1st and the next one's.
proof fn lemma_within_year(y: int, m: int, d: int)
    requires
        valid_date(y, m, d),
    ensures
        days_from_civil(y, 1, 1) <= days_from_civil(y, m, d) < days_from_civil(y + 1, 1, 1),
{
    lemma_split(y, m, d);
    lemma_split(y, m, 1);
    if m > 1 {
        lemma_month_starts_increase(y, 1, m);
    }
    if m < 12 {
        lemma_month_starts_increase(y, m, 12);
    }
    lemma_year_wrap(y);
}

proof fn lemma_years_increase(y1: int, y2: int)
    requires
        y1 < y2,
    ensures
        days_from_civil(y1 + 1, 1, 1) <= days_from_civil(y2, 1, 1),
    decreases y2 - y1,
{
    if y1 + 1 < y2 {
        lemma_years_increase(y1 + 1, y2);
        lemma_within_year(y1 + 1, 1, 1);
    }
}

/// Distinct valid dates have distinct day numbers.
pub proof fn lemma_days_from_civil_injective(y1: int, m1: int, d1: int, y2: int, m2: int, d2: int)
    requires
        valid_date(y1, m1, d1),
        valid_date(y2, m2, d2),
        days_from_civil(y1, m1, d1) == days_from_civil(y2, m2, d2),
    ensures
        y1 == y2 && m1 == m2 && d1 == d2,
{
    lemma_within_year(y1, m1, d1);
    lemma_within_year(y2, m2, d2);
    if y1 < y2 {
        lemma_years_increase(y1, y2);
    } else if y2 < y1 {
        lemma_years_increase(y2, y1);
    } else {
        lemma_split(y1, m1, d1);
        lemma_split(y1, m1, 1);
        lemma_split(y2, m2, d2);
        lemma_split(y2, m2, 1);
        if m1 < m2 {
            lemma_month_starts_increase(y1, m1, m2);
        } else if m2 < m1 {
            lemma_month_starts_increase(y1, m2, m1);
        }
    }
}

/// An instant has one calendar reading.
pub proof fn lemma_calendar_unique(a: CalendarTime, b: CalendarTime, millis: int)
    requires
        is_calendar_of(a, millis),
        is_calendar_of(b, millis),
    ensures
        a == b,
{
    let da = days_from_civil(a.year as int, a.month as int, a.day as int);
    let db = days_from_civil(b.year as int, b.month as int, b.day as int);
    let ta = a.hour * 3_600_000 + a.minute * 60_000 + a.second * 1000 + a.millisecond;
    let tb = b.hour * 3_600_000 + b.minute * 60_000 + b.second * 1000 + b.millisecond;
    assert(0 <= ta < 86_400_000 && 0 <= tb < 86_400_000);
    assert(da * 86_400_000 + ta == db * 86_400_000 + tb);
    lemma_fundamental_div_mod_converse(millis, 86_400_000, da, ta);
    lemma_fundamental_div_mod_converse(millis, 86_400_000, db, tb);
    lemma_days_from_civil_injective(
        a.year as int,
        a.month as int,
        a.day as int,
        b.year as int,
        b.month as int,
        b.day as int,
    );
    let ra = a.minute * 60_000 + a.second * 1000 + a.millisecond;
    let rb = b.minute * 60_000 + b.second * 1000 + b.millisecond;
    lemma_fundamental_div_mod_converse(ta, 3_600_000, a.hour as int, ra);
    lemma_fundamental_div_mod_converse(tb, 3_600_000, b.hour as int, rb);
    let sa = a.second * 1000 + a.millisecond;
    let sb = b.second * 1000 + b.millisecond;
    lemma_fundamental_div_mod_converse(ra, 60_000, a.minute as int, sa);
    lemma_fundamental_div_mod_converse(rb, 60_000, b.minute as int, sb);
    lemma_fundamental_div_mod_converse(sa, 1000, a.second as int, a.millisecond as int);
    lemma_fundamental_div_mod_converse(sb, 1000, b.second as int, b.millisecond as int);
}

/// The fields of one reading are, in order, no later than those of another.
pub open spec fn reading_le(a: CalendarTime, b: CalendarTime) -> bool {
    if a.year != b.year {
        a.year < b.year
    } else if a.month != b.month {
        a.month < b.month
    } else if a.day != b.day {
        a.day < b.day
    } else if a.hour != b.hour {
        a.hour < b.hour
    } else if a.minute != b.minute {
        a.minute < b.minute
    } else if a.second != b.second {
        a.second < b.second
    } else {
        a.millisecond <= b.millisecond
    }
}

/// A date no later than another, field by field, has no later day number.
proof fn lemma_days_monotone(y1: int, m1: int, d1: int, y2: int, m2: int, d2: int)
    requires
        valid_date(y1, m1, d1),
        valid_date(y2, m2, d2),
        y1 < y2 || (y1 == y2 && (m1 < m2 || (m1 == m2 && d1 <= d2))),
    ensures
        days_from_civil(y1, m1, d1) <= days_from_civil(y2, m2, d2),
{
    lemma_within_year(y1, m1, d1);
    lemma_within_year(y2, m2, d2);
    if y1 < y2 {
        lemma_years_increase(y1, y2);
    } else {
        lemma_split(y1, m1, d1);
        lemma_split(y1, m1, 1);
        lemma_split(y2, m2, d2);
        lemma_split(y2, m2, 1);
        if m1 < m2 {
            lemma_month_starts_increase(y1, m1, m2);
        }
    }
}

/// Readings follow time: an instant no later than another has a reading no
/// later, field by field.
#[verifier::spinoff_prover]
#[verifier::rlimit(40)]
pub proof fn lemma_readings_follow_time(a: CalendarTime, b: CalendarTime, ma: int, mb: int)
    requires
        is_calendar_of(a, ma),
        is_calendar_of(b, mb),
        ma <= mb,
    ensures
        reading_le(a, b),
{
    let da = days_from_civil(a.year as int, a.month as int, a.day as int);
    let db = days_from_civil(b.year as int, b.month as int, b.day as int);
    let ta = a.hour * 3_600_000 + a.minute * 60_000 + a.second * 1000 + a.millisecond;
    let tb = b.hour * 3_600_000 + b.minute * 60_000 + b.second * 1000 + b.millisecond;
    lemma_fundamental_div_mod_converse(ma, 86_400_000, da, ta);
    lemma_fundamental_div_mod_converse(mb, 86_400_000, db, tb);
    lemma_div_is_ordered(ma, mb, 86_400_000);
    let (ya, mon_a, day_a) = (a.year as int, a.month as int, a.day as int);
    let (yb, mon_b, day_b) = (b.year as int, b.month as int, b.day as int);
    if da < db {
        if yb < ya || (yb == ya && (mon_b < mon_a || (mon_b == mon_a && day_b <= day_a))) {
            lemma_days_monotone(yb, mon_b, day_b, ya, mon_a, day_a);
        }
    } else {
        assert(da == db);
        lemma_days_from_civil_injective(ya, mon_a, day_a, yb, mon_b, day_b);
        assert(ta <= tb);
        let ra = a.minute * 60_000 + a.second * 1000 + a.millisecond;
        let rb = b.minute * 60_000 + b.second * 1000 + b.millisecond;
        lemma_fundamental_div_mod_converse(ta, 3_600_000, a.hour as int, ra);
        lemma_fundamental_div_mod_converse(tb, 3_600_000, b.hour as int, rb);
        lemma_div_is_ordered(ta, tb, 3_600_000);
        if a.hour == b.hour {
            let sa = a.second * 1000 + a.millisecond;
            let sb = b.second * 1000 + b.millisecond;
            lemma_fundamental_div_mod_converse(ra, 60_000, a.minute as int, sa);
            lemma_fundamental_div_mod_converse(rb, 60_000, b.minute as int, sb);
            lemma_div_is_ordered(ra, rb, 60_000);
            if a.minute == b.minute {
                lemma_fundamental_div_mod_converse(sa, 1000, a.second as int, a.millisecond as int);
                lemma_fundamental_div_mod_converse(sb, 1000, b.second as int, b.millisecond as int);
                lemma_div_is_ordered(sa, sb, 1000);
            }
        }
    }
}

/// A reading of a four-digit year, with fields in their ranges.
pub open spec fn stampable(ct: CalendarTime) -> bool {
    &&& 0 <= ct.year <= 9999
    &&& 1 <= ct.month <= 12
    &&& 1 <= ct.day <= 31
    &&& ct.hour < 24
    &&& ct.minute < 60
    &&& ct.second < 60
    &&& ct.millisecond < 1000
}

/// The stamp of such a reading, as its fixed-width fields.
spec fn stamp_fields(ct: CalendarTime) -> Seq<char> {
    fixed_digits(ct.year as nat, 4) + (fixed_digits(ct.month as nat, 2) + (fixed_digits(
        ct.day as nat,
        2,
    ) + ("_"@ + (fixed_digits(ct.hour as nat, 2) + (fixed_digits(ct.minute as nat, 2) + (
    fixed_digits(ct.second as nat, 2) + ("_"@ + fixed_digits(ct.millisecond as nat, 3))))))))
}

#[verifier::spinoff_prover]
#[verifier::rlimit(40)]
proof fn lemma_stamp_fields(ct: CalendarTime)
    requires
        stampable(ct),
    ensures
        stamp_text(ct) == stamp_fields(ct),
{
    lemma_pow10_small();
    lemma_fixed_len(ct.year as nat, 4);
    lemma_fixed_len(ct.month as nat, 2);
    lemma_fixed_len(ct.day as nat, 2);
    lemma_fixed_len(ct.hour as nat, 2);
    lemma_fixed_len(ct.minute as nat, 2);
    lemma_fixed_len(ct.second as nat, 2);
    lemma_fixed_len(ct.millisecond as nat, 3);
    lemma_padded_is_fixed(ct.year as nat, 4);
    lemma_padded_is_fixed(ct.month as nat, 2);
    lemma_padded_is_fixed(ct.day as nat, 2);
    lemma_padded_is_fixed(ct.hour as nat, 2);
    lemma_padded_is_fixed(ct.minute as nat, 2);
    lemma_padded_is_fixed(ct.second as nat, 2);
    lemma_padded_is_fixed(ct.millisecond as nat, 3);
    assert(stamp_text(ct) =~= stamp_fields(ct));
}

/// Stamps of four-digit years sort as the readings do.
#[verifier::spinoff_prover]
#[verifier::rlimit(40)]
pub proof fn lemma_stamp_order(a: CalendarTime, b: CalendarTime)
    requires
        stampable(a),
        stampable(b),
        reading_le(a, b),
    ensures
        lex_le(stamp_text(a), stamp_text(b)),
        stamp_text(a).len() == stamp_text(b).len(),
{
    lemma_pow10_small();
    lemma_stamp_fields(a);
    lemma_stamp_fields(b);
    let u = "_"@;
    let (ya, yb) = (fixed_digits(a.year as nat, 4), fixed_digits(b.year as nat, 4));
    let (moa, mob) = (fixed_digits(a.month as nat, 2), fixed_digits(b.month as nat, 2));
    let (da, db) = (fixed_digits(a.day as nat, 2), fixed_digits(b.day as nat, 2));
    let (ha, hb) = (fixed_digits(a.hour as nat, 2), fixed_digits(b.hour as nat, 2));
    let (mia, mib) = (fixed_digits(a.minute as nat, 2), fixed_digits(b.minute as nat, 2));
    let (sa, sb) = (fixed_digits(a.second as nat, 2), fixed_digits(b.second as nat, 2));
    let (msa, msb) = (fixed_digits(a.millisecond as nat, 3), fixed_digits(b.millisecond as nat, 3));
    lemma_fixed_order(a.year as nat, b.year as nat, 4);
    lemma_fixed_order(a.month as nat, b.month as nat, 2);
    lemma_fixed_order(a.day as nat, b.day as nat, 2);
    lemma_fixed_order(a.hour as nat, b.hour as nat, 2);
    lemma_fixed_order(a.minute as nat, b.minute as nat, 2);
    lemma_fixed_order(a.second as nat, b.second as nat, 2);
    lemma_fixed_order(a.millisecond as nat, b.millisecond as nat, 3);
    lemma_fixed_len(b.hour as nat, 2);
    lemma_fixed_len(b.minute as nat, 2);
    lemma_fixed_len(b.second as nat, 2);
    lemma_fixed_len(b.day as nat, 2);
    lemma_fixed_len(b.month as nat, 2);
    lemma_fixed_len(b.year as nat, 4);
    lemma_fixed_len(b.millisecond as nat, 3);
    let r8a = u + msa;
    let r8b = u + msb;
    let r7a = sa + r8a;
    let r7b = sb + r8b;
    let r6a = mia + r7a;
    let r6b = mib + r7b;
    let r5a = ha + r6a;
    let r5b = hb + r6b;
    let r4a = u + r5a;
    let r4b = u + r5b;
    let r3a = da + r4a;
    let r3b = db + r4b;
    let r2a = moa + r3a;
    let r2b = mob + r3b;
    lemma_lex_concat(u, u, msa, msb);
    lemma_lex_concat(sa, sb, r8a, r8b);
    lemma_lex_concat(mia, mib, r7a, r7b);
    lemma_lex_concat(ha, hb, r6a, r6b);
    lemma_lex_concat(u, u, r5a, r5b);
    lemma_lex_concat(da, db, r4a, r4b);
    lemma_lex_concat(moa, mob, r3a, r3b);
    lemma_lex_concat(ya, yb, r2a, r2b);
}

} // verus!
