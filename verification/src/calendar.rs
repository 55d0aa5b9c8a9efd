//! Dates of the Gregorian calendar.
use crate::text;
use vstd::prelude::*;

verus! {

pub open spec fn leap(year: int) -> bool {
    year % 4 == 0 && (year % 100 != 0 || year % 400 == 0)
}

pub open spec fn days_in_month(year: int, month: int) -> int {
    if month == 2 {
        if leap(year) {
            29
        } else {
            28
        }
    } else if month == 4 || month == 6 || month == 9 || month == 11 {
        30
    } else {
        31
    }
}

pub open spec fn is_date(year: int, month: int, day: int) -> bool {
    1 <= month <= 12 && 1 <= day <= days_in_month(year, month)
}

/// The days from the start of year 0 to that of `year`.
pub open spec fn days_before_year(year: int) -> int
    decreases year,
{
    if year <= 0 {
        0
    } else {
        days_before_year(year - 1) + if leap(year - 1) {
            366int
        } else {
            365
        }
    }
}

/// The days of a year in front of a month.
pub open spec fn days_before_month(year: int, month: int) -> int
    decreases month,
{
    if month <= 1 {
        0
    } else {
        days_before_month(year, month - 1) + days_in_month(year, month - 1)
    }
}

/// The days from the start of year 0 to that of 1970.
pub const EPOCH_DAYS: u64 = 719_528;

/// The days from the first of January 1970 to a date.
pub open spec fn day_number(year: int, month: int, day: int) -> int {
    days_before_year(year) - EPOCH_DAYS + days_before_month(year, month) + day - 1
}

proof fn lemma_days_before_year(year: int)
    requires
        0 <= year,
    ensures
        days_before_year(year) == 365 * year + (year + 3) / 4 - (year + 99) / 100 + (year + 399)
            / 400,
    decreases year,
{
    if year > 0 {
        lemma_days_before_year(year - 1);
    }
}

proof fn lemma_months(year: int)
    ensures
        ({
            let feb: int = if leap(year) {
                29
            } else {
                28
            };
            &&& days_before_month(year, 1) == 0
            &&& days_before_month(year, 2) == 31
            &&& days_before_month(year, 3) == 31 + feb
            &&& days_before_month(year, 4) == 62 + feb
            &&& days_before_month(year, 5) == 92 + feb
            &&& days_before_month(year, 6) == 123 + feb
            &&& days_before_month(year, 7) == 153 + feb
            &&& days_before_month(year, 8) == 184 + feb
            &&& days_before_month(year, 9) == 215 + feb
            &&& days_before_month(year, 10) == 245 + feb
            &&& days_before_month(year, 11) == 276 + feb
            &&& days_before_month(year, 12) == 306 + feb
        }),
{
    reveal_with_fuel(days_before_month, 13);
}

/// A date is fixed by its number: of two dates the later one has the greater.
pub proof fn law_one_date_per_day(y1: int, m1: int, d1: int, y2: int, m2: int, d2: int)
    requires
        0 <= y1,
        0 <= y2,
        is_date(y1, m1, d1),
        is_date(y2, m2, d2),
        day_number(y1, m1, d1) == day_number(y2, m2, d2),
    ensures
        y1 == y2 && m1 == m2 && d1 == d2,
{
    lemma_in_year(y1, m1, d1);
    lemma_in_year(y2, m2, d2);
    if y1 < y2 {
        lemma_years_grow(y1 + 1, y2);
    } else if y2 < y1 {
        lemma_years_grow(y2 + 1, y1);
    } else if m1 < m2 {
        lemma_months_grow(y1, m1 + 1, m2);
    } else if m2 < m1 {
        lemma_months_grow(y1, m2 + 1, m1);
    }
}

proof fn lemma_years_grow(a: int, b: int)
    requires
        a <= b,
    ensures
        days_before_year(a) <= days_before_year(b),
    decreases b - a,
{
    if a < b {
        lemma_years_grow(a, b - 1);
    }
}

proof fn lemma_months_grow(year: int, a: int, b: int)
    requires
        a <= b,
    ensures
        days_before_month(year, a) <= days_before_month(year, b),
    decreases b - a,
{
    if a < b {
        lemma_months_grow(year, a, b - 1);
    }
}

proof fn lemma_in_year(year: int, month: int, day: int)
    requires
        0 <= year,
        is_date(year, month, day),
    ensures
        0 <= days_before_month(year, month) + day - 1,
        days_before_year(year) + days_before_month(year, month) + day - 1 < days_before_year(
            year + 1,
        ),
{
    lemma_months(year);
    lemma_months_grow(year, 1, month);
}

/// The year of an era, counted from the first of March, that a day of the era
/// is in: `c` centuries, `q` times four years and `s` days in.
proof fn lemma_year_of_era(doe: int, c: int, q: int, s: int, yoe: int, doy: int)
    requires
        0 <= c <= 3,
        0 <= q <= 24,
        0 <= s <= 1460,
        q == 24 && c < 3 ==> s < 1460,
        doe == 36524 * c + 1461 * q + s,
        yoe == (doe - doe / 1460 + doe / 36524 - doe / 146096) / 365,
        doy == doe - (365 * yoe + yoe / 4 - yoe / 100),
    ensures
        0 <= yoe <= 399,
        0 <= doy <= 365,
        doy == 365 ==> (yoe + 1) % 4 == 0 && ((yoe + 1) % 100 != 0 || (yoe + 1) % 400 == 0),
{
    let t: int = if s == 1460 {
        3
    } else {
        s / 365
    };
    let e: int = if 24 * c + q + s >= 1460 {
        1
    } else {
        0
    };
    let last: int = if c == 3 && q == 24 && s == 1460 {
        1
    } else {
        0
    };
    assert(doe / 1460 == 25 * c + q + e);
    assert(doe / 36524 == c + last);
    assert(doe / 146096 == last);
    assert(yoe == 100 * c + 4 * q + t);
    assert(yoe / 4 == 25 * c + q);
    assert(yoe / 100 == c);
    assert(doy == s - 365 * t);
}

/// Splits a day of an era into centuries, times four years and days.
proof fn lemma_split_era(doe: int) -> (r: (int, int, int))
    requires
        0 <= doe < 146097,
    ensures
        0 <= r.0 <= 3,
        0 <= r.1 <= 24,
        0 <= r.2 <= 1460,
        r.1 == 24 && r.0 < 3 ==> r.2 < 1460,
        doe == 36524 * r.0 + 1461 * r.1 + r.2,
{
    let c: int = if doe == 146096 {
        3
    } else {
        doe / 36524
    };
    let rest = doe - 36524 * c;
    let q = rest / 1461;
    (c, q, rest - 1461 * q)
}

/// The days from the first of March to a month, counted from March.
spec fn from_march(mp: int) -> int {
    if mp == 0 {
        0
    } else if mp == 1 {
        31
    } else if mp == 2 {
        61
    } else if mp == 3 {
        92
    } else if mp == 4 {
        122
    } else if mp == 5 {
        153
    } else if mp == 6 {
        184
    } else if mp == 7 {
        214
    } else if mp == 8 {
        245
    } else if mp == 9 {
        275
    } else if mp == 10 {
        306
    } else {
        337
    }
}

/// The month that a day is in, both counted from March.
proof fn lemma_month(doy: int, mp: int)
    requires
        0 <= doy <= 365,
        mp == (5 * doy + 2) / 153,
    ensures
        0 <= mp <= 11,
        (153 * mp + 2) / 5 == from_march(mp),
        from_march(mp) <= doy,
        mp < 11 ==> doy < from_march(mp + 1),
{
    assert(0 <= mp <= 11);
}

/// The month counted from January.
spec fn from_january(mp: int) -> int {
    if mp < 10 {
        mp + 3
    } else {
        mp - 9
    }
}

/// Days counted from March stand in the calendar behind February of their
/// year, or in front of it in the next.
proof fn lemma_month_in_year(y: int, mp: int)
    requires
        0 <= mp <= 11,
    ensures
        mp < 10 ==> days_before_month(y, from_january(mp)) == from_march(mp) + 31 + days_in_month(
            y,
            2,
        ),
        mp >= 10 ==> days_before_month(y, from_january(mp)) == from_march(mp) - 306,
        mp != 11 ==> days_in_month(y, from_january(mp)) == from_march(mp + 1) - from_march(mp),
        mp == 11 ==> from_january(mp) == 2,
{
    lemma_months(y);
}

/// The days before a year of an era, from the first of March of year 0.
proof fn lemma_year_days(era: int, yoe: int)
    requires
        0 <= era,
        0 <= yoe <= 399,
    ensures
        ({
            let y = yoe + 400 * era;
            let march = 146097 * era + 365 * yoe + yoe / 4 - yoe / 100;
            &&& days_before_year(y) + 31 + days_in_month(y, 2) == march + 60
            &&& days_before_year(y + 1) == march + 366
        }),
{
    let y = yoe + 400 * era;
    lemma_days_before_year(y + 1);
    assert((y + 1 + 3) / 4 == 100 * era + yoe / 4 + 1);
    assert((y + 1 + 99) / 100 == 4 * era + yoe / 100 + 1);
    assert((y + 1 + 399) / 400 == era + 1);
}

/// From the first of March on, the number of a day is that of its year and of
/// its month.
proof fn lemma_date(era: int, yoe: int, doy: int, mp: int)
    requires
        0 <= era,
        0 <= yoe <= 399,
        0 <= doy <= 365,
        doy == 365 ==> (yoe + 1) % 4 == 0 && ((yoe + 1) % 100 != 0 || (yoe + 1) % 400 == 0),
        mp == (5 * doy + 2) / 153,
    ensures
        ({
            let m = from_january(mp);
            let d = doy - (153 * mp + 2) / 5 + 1;
            let year = yoe + 400 * era + if m <= 2 {
                1int
            } else {
                0
            };
            &&& 0 <= mp <= 11
            &&& is_date(year, m, d)
            &&& day_number(year, m, d) == 146097 * era + 365 * yoe + yoe / 4 - yoe / 100 + doy
                - 719468
        }),
{
    let y = yoe + 400 * era;
    lemma_month(doy, mp);
    lemma_month_in_year(y, mp);
    lemma_month_in_year(y + 1, mp);
    lemma_year_days(era, yoe);
    assert((y + 1) % 4 == (yoe + 1) % 4);
    assert((y + 1) % 100 == (yoe + 1) % 100);
    assert((y + 1) % 400 == (yoe + 1) % 400);
}

/// The date of a day, counted from the first of January 1970.
pub fn days_to_ymd(days: u64) -> (r: (u64, u64, u64))
    requires
        days + 719468 <= u64::MAX,
    ensures
        is_date(r.0 as int, r.1 as int, r.2 as int),
        day_number(r.0 as int, r.1 as int, r.2 as int) == days,
{
    let z: u64 = days + 719468;
    let era: u64 = z / 146097;
    let doe: u64 = z % 146097;
    let ghost parts = lemma_split_era(doe as int);
    let yoe: u64 = (doe - doe / 1460 + doe / 36524 - doe / 146096) / 365;
    proof {
        let year_days = 365 * yoe + yoe as int / 4 - yoe as int / 100;
        lemma_year_of_era(
            doe as int,
            parts.0,
            parts.1,
            parts.2,
            yoe as int,
            doe - year_days,
        );
    }
    let doy: u64 = doe - (365 * yoe + yoe / 4 - yoe / 100);
    let mp: u64 = (5 * doy + 2) / 153;
    proof {
        lemma_date(era as int, yoe as int, doy as int, mp as int);
        lemma_month(doy as int, mp as int);
    }
    let d: u64 = doy - (153 * mp + 2) / 5 + 1;
    let m: u64 = if mp < 10 {
        mp + 3
    } else {
        mp - 9
    };
    let y: u64 = yoe + era * 400;
    let year: u64 = if m <= 2 {
        y + 1
    } else {
        y
    };
    proof {
        assert(m == from_january(mp as int));
        assert(year == yoe + 400 * era + if m <= 2 {
            1int
        } else {
            0
        });
    }
    (year, m, d)
}

/// `s` with zeros in front up to `width` characters.
pub open spec fn zero_filled(s: Seq<char>, width: int) -> Seq<char>
    decreases width - s.len(),
{
    if s.len() >= width {
        s
    } else {
        zero_filled(seq!['0'] + s, width)
    }
}

fn push_filled(out: &mut String, n: u64, width: usize)
    requires
        width <= 4,
    ensures
        final(out)@ == old(out)@ + zero_filled(text::numeral(n as nat), width as int),
{
    proof {
        reveal_strlit("0");
        assert("0"@ =~= seq!['0']);
    }
    let digits = text::decimal(n);
    let v = text::to_chars(digits.as_str());
    let mut s = digits;
    let mut len: usize = v.len();
    while len < width
        invariant
            width <= 4,
            len == s@.len(),
            "0"@ == seq!['0'],
            zero_filled(text::numeral(n as nat), width as int) == zero_filled(s@, width as int),
        decreases width - len,
    {
        let mut longer = "0".to_owned();
        longer.append(s.as_str());
        s = longer;
        len += 1;
    }
    out.append(s.as_str());
}

/// A time in seconds since the start of 1970 as `YYYY-MM-DDTHH:MM:SSZ`.
pub open spec fn is_utc_text(s: Seq<char>, secs: int) -> bool {
    exists|y: int, m: int, d: int|
        is_date(y, m, d) && 0 <= y && #[trigger] day_number(y, m, d) == secs / 86400 && s
            == zero_filled(text::numeral(y as nat), 4) + "-"@ + zero_filled(
            text::numeral(m as nat),
            2,
        ) + "-"@ + zero_filled(text::numeral(d as nat), 2) + "T"@ + zero_filled(
            text::numeral((secs / 3600 % 24) as nat),
            2,
        ) + ":"@ + zero_filled(text::numeral((secs / 60 % 60) as nat), 2) + ":"@ + zero_filled(
            text::numeral((secs % 60) as nat),
            2,
        ) + "Z"@
}

/// A time in seconds since the start of 1970 as `YYYY-MM-DDTHH:MM:SSZ`.
pub fn utc_text(secs: u64) -> (r: String)
    ensures
        is_utc_text(r@, secs as int),
{
    let days: u64 = secs / 86400;
    let (y, m, d) = days_to_ymd(days);
    let mut r = String::new();
    proof {
        assert(r@ =~= Seq::<char>::empty());
    }
    push_filled(&mut r, y, 4);
    proof {
        assert(r@ =~= zero_filled(text::numeral(y as nat), 4));
    }
    r.append("-");
    push_filled(&mut r, m, 2);
    r.append("-");
    push_filled(&mut r, d, 2);
    r.append("T");
    push_filled(&mut r, secs / 3600 % 24, 2);
    r.append(":");
    push_filled(&mut r, secs / 60 % 60, 2);
    r.append(":");
    push_filled(&mut r, secs % 60, 2);
    r.append("Z");
    proof {
        assert(day_number(y as int, m as int, d as int) == secs as int / 86400);
    }
    r
}

// ── Laws ─────────────────────────────────────────────────────────────────────
/// The first of January 1970 is day 0, and each day is one more than the day before it:
/// within a month, over the end of a month and over the end of a year.
pub proof fn law_days_follow(y: int, m: int, d: int)
    requires
        0 <= y,
        1 <= m <= 12,
    ensures
        day_number(1970, 1, 1) == 0,
        day_number(y, m, d + 1) == day_number(y, m, d) + 1,
        m < 12 ==> day_number(y, m + 1, 1) == day_number(y, m, days_in_month(y, m)) + 1,
        day_number(y + 1, 1, 1) == day_number(y, 12, 31) + 1,
{
    lemma_days_before_year(1970);
    lemma_months(y);
}

/// A year has 366 days if it can be divided by 4, but not by 100 unless by 400; February
/// has the day more.
pub proof fn law_leap_years(y: int)
    ensures
        leap(y) == ((y % 4 == 0 && y % 100 != 0) || y % 400 == 0),
        days_in_month(y, 2) == if leap(y) {
            29int
        } else {
            28
        },
        days_in_month(y, 1) == 31 && days_in_month(y, 3) == 31 && days_in_month(y, 5) == 31
            && days_in_month(y, 7) == 31 && days_in_month(y, 8) == 31 && days_in_month(y, 10) == 31
            && days_in_month(y, 12) == 31,
        days_in_month(y, 4) == 30 && days_in_month(y, 6) == 30 && days_in_month(y, 9) == 30
            && days_in_month(y, 11) == 30,
{
}

/// A number is filled up with zeros in front, and keeps its value.
pub proof fn law_zero_filled(s: Seq<char>, width: int)
    requires
        forall|i: int| 0 <= i < s.len() ==> text::is_digit(#[trigger] s[i]),
    ensures
        zero_filled(s, width).len() == if s.len() >= width {
            s.len() as int
        } else {
            width
        },
        text::digits_value(zero_filled(s, width)) == text::digits_value(s),
        text::ends_with(zero_filled(s, width), s),
    decreases width - s.len(),
{
    if s.len() < width {
        let t = seq!['0'] + s;
        assert forall|i: int| 0 <= i < t.len() implies text::is_digit(#[trigger] t[i]) by {
            if i > 0 {
                assert(t[i] == s[i - 1]);
            }
        }
        law_zero_filled(t, width);
        lemma_leading_zero(s);
        let r = zero_filled(s, width);
        assert(r.subrange(r.len() - t.len(), r.len() as int) == t);
        assert(r.subrange(r.len() - s.len(), r.len() as int) =~= t.skip(1));
        assert(t.skip(1) =~= s);
    } else {
        assert(s.subrange(0, s.len() as int) =~= s);
    }
}

proof fn lemma_leading_zero(s: Seq<char>)
    ensures
        text::digits_value(seq!['0'] + s) == text::digits_value(s),
    decreases s.len(),
{
    let t = seq!['0'] + s;
    if s.len() == 0 {
        assert(t.drop_last() =~= s);
        assert(t.last() == '0');
        assert(text::digits_value(s) == 0);
    } else {
        lemma_leading_zero(s.drop_last());
        assert(t.drop_last() =~= seq!['0'] + s.drop_last());
        assert(t.last() == s.last());
    }
}

/// A time is written as its date and its time of day: the date of the day that it falls
/// on, and as many hours, minutes and seconds as it is past midnight.
pub proof fn law_utc_text(s: Seq<char>, y: int, m: int, d: int, hours: int, minutes: int, seconds: int)
    requires
        is_date(y, m, d),
        0 <= y,
        0 <= day_number(y, m, d),
        0 <= hours < 24,
        0 <= minutes < 60,
        0 <= seconds < 60,
        is_utc_text(s, 86400 * day_number(y, m, d) + 3600 * hours + 60 * minutes + seconds),
    ensures
        s == zero_filled(text::numeral(y as nat), 4) + "-"@ + zero_filled(
            text::numeral(m as nat),
            2,
        ) + "-"@ + zero_filled(text::numeral(d as nat), 2) + "T"@ + zero_filled(
            text::numeral(hours as nat),
            2,
        ) + ":"@ + zero_filled(text::numeral(minutes as nat), 2) + ":"@ + zero_filled(
            text::numeral(seconds as nat),
            2,
        ) + "Z"@,
{
    let day = day_number(y, m, d);
    let secs = 86400 * day + 3600 * hours + 60 * minutes + seconds;
    assert(secs / 86400 == day);
    assert(secs / 3600 == 24 * day + hours);
    assert((24 * day + hours) % 24 == hours);
    assert(secs / 60 == 60 * (24 * day + hours) + minutes);
    assert((60 * (24 * day + hours) + minutes) % 60 == minutes);
    assert(secs % 60 == seconds);
    let (a, b, c) = choose|a: int, b: int, c: int|
        is_date(a, b, c) && 0 <= a && #[trigger] day_number(a, b, c) == secs / 86400 && s
            == zero_filled(text::numeral(a as nat), 4) + "-"@ + zero_filled(
            text::numeral(b as nat),
            2,
        ) + "-"@ + zero_filled(text::numeral(c as nat), 2) + "T"@ + zero_filled(
            text::numeral((secs / 3600 % 24) as nat),
            2,
        ) + ":"@ + zero_filled(text::numeral((secs / 60 % 60) as nat), 2) + ":"@ + zero_filled(
            text::numeral((secs % 60) as nat),
            2,
        ) + "Z"@;
    law_one_date_per_day(a, b, c, y, m, d);
}

/// A date is a day of a month of a year: there are twelve months, and a month has its days
/// from the first to the last and no other.
pub proof fn law_dates(y: int, m: int, d: int)
    requires
        1 <= m <= 12,
    ensures
        is_date(y, m, 1),
        is_date(y, m, days_in_month(y, m)),
        !is_date(y, m, 0),
        !is_date(y, m, days_in_month(y, m) + 1),
        !is_date(y, 0, d) && !is_date(y, 13, d),
{
}

} // verus!
