//! Days and calendar dates.

use vstd::prelude::*;

use crate::text;

verus! {

pub open spec fn is_leap(y: int) -> bool {
    y % 4 == 0 && (y % 100 != 0 || y % 400 == 0)
}

pub open spec fn month_len(y: int, m: int) -> int {
    if m == 2 {
        if is_leap(y) {
            29
        } else {
            28
        }
    } else if m == 4 || m == 6 || m == 9 || m == 11 {
        30
    } else {
        31
    }
}

pub open spec fn is_date(y: int, m: int, d: int) -> bool {
    1 <= m <= 12 && 1 <= d <= month_len(y, m)
}

/// The days of the years from 0 up to `y`, not counting `y`.
pub open spec fn days_before_year(y: int) -> int {
    365 * y + (y + 3) / 4 - (y + 99) / 100 + (y + 399) / 400
}

/// The days of the months before `m`.
pub open spec fn days_before_month(y: int, m: int) -> int
    decreases m,
{
    if m <= 1 {
        0
    } else {
        days_before_month(y, m - 1) + month_len(y, m - 1)
    }
}

/// How many days a date lies after the first of January 1970.
pub open spec fn epoch_day(y: int, m: int, d: int) -> int {
    days_before_year(y) - days_before_year(1970) + days_before_month(y, m) + (d - 1)
}

/// The date of a day.
pub open spec fn civil(n: int) -> (int, int, int) {
    choose|t: (int, int, int)| is_date(t.0, t.1, t.2) && #[trigger] epoch_day(t.0, t.1, t.2) == n
}

proof fn lemma_months(y: int)
    ensures
        days_before_month(y, 1) == 0,
        days_before_month(y, 2) == 31,
        ({
            let leap: int = if is_leap(y) {
                1
            } else {
                0
            };
            &&& days_before_month(y, 3) == 59 + leap
            &&& days_before_month(y, 4) == 90 + leap
            &&& days_before_month(y, 5) == 120 + leap
            &&& days_before_month(y, 6) == 151 + leap
            &&& days_before_month(y, 7) == 181 + leap
            &&& days_before_month(y, 8) == 212 + leap
            &&& days_before_month(y, 9) == 243 + leap
            &&& days_before_month(y, 10) == 273 + leap
            &&& days_before_month(y, 11) == 304 + leap
            &&& days_before_month(y, 12) == 334 + leap
        }),
{
    reveal_with_fuel(days_before_month, 13);
}

proof fn lemma_ceil_4(y: int)
    ensures
        (y + 3) / 4 == (if y % 4 == 0 {
            y / 4
        } else {
            y / 4 + 1
        }),
        (y + 1 + 3) / 4 == y / 4 + 1,
{
    let q = y / 4;
    let r = y % 4;
    assert(y == 4 * q + r);
    assert((y + 1 + 3) == 4 * (q + 1) + r);
    if r == 0 {
        assert((y + 3) == 4 * q + 3);
    } else {
        assert((y + 3) == 4 * (q + 1) + (r - 1));
    }
}

proof fn lemma_ceil_100(y: int)
    ensures
        (y + 99) / 100 == (if y % 100 == 0 {
            y / 100
        } else {
            y / 100 + 1
        }),
        (y + 1 + 99) / 100 == y / 100 + 1,
{
    let q = y / 100;
    let r = y % 100;
    assert(y == 100 * q + r);
    assert((y + 1 + 99) == 100 * (q + 1) + r);
    if r == 0 {
        assert((y + 99) == 100 * q + 99);
    } else {
        assert((y + 99) == 100 * (q + 1) + (r - 1));
    }
}

proof fn lemma_ceil_400(y: int)
    ensures
        (y + 399) / 400 == (if y % 400 == 0 {
            y / 400
        } else {
            y / 400 + 1
        }),
        (y + 1 + 399) / 400 == y / 400 + 1,
{
    let q = y / 400;
    let r = y % 400;
    assert(y == 400 * q + r);
    assert((y + 1 + 399) == 400 * (q + 1) + r);
    if r == 0 {
        assert((y + 399) == 400 * q + 399);
    } else {
        assert((y + 399) == 400 * (q + 1) + (r - 1));
    }
}

proof fn lemma_year_kinds(y: int)
    ensures
        y % 400 == 0 ==> y % 100 == 0,
        y % 100 == 0 ==> y % 4 == 0,
{
    if y % 400 == 0 {
        assert(y == 100 * (4 * (y / 400)));
    }
    if y % 100 == 0 {
        assert(y == 4 * (25 * (y / 100)));
    }
}

/// A year has 365 days, a leap year one more.
pub proof fn law_year_length(y: int)
    ensures
        days_before_year(y + 1) == days_before_year(y) + 365 + (if is_leap(y) {
            1int
        } else {
            0
        }),
        days_before_month(y, 12) + 31 == 365 + (if is_leap(y) {
            1int
        } else {
            0
        }),
{
    lemma_months(y);
    lemma_ceil_4(y);
    lemma_ceil_100(y);
    lemma_ceil_400(y);
    lemma_year_kinds(y);
}

proof fn lemma_years_ascend(a: int, b: int)
    requires
        a <= b,
    ensures
        days_before_year(a) + 365 * (b - a) <= days_before_year(b),
    decreases b - a,
{
    if a < b {
        lemma_years_ascend(a, b - 1);
        law_year_length(b - 1);
    }
}

proof fn lemma_day_in_year(y: int, m: int, d: int)
    requires
        is_date(y, m, d),
    ensures
        days_before_year(y) - days_before_year(1970) <= epoch_day(y, m, d) < days_before_year(
            y + 1,
        ) - days_before_year(1970),
{
    lemma_months(y);
    law_year_length(y);
}

/// No two dates fall on the same day.
pub proof fn law_dates_differ(a: (int, int, int), b: (int, int, int))
    requires
        is_date(a.0, a.1, a.2),
        is_date(b.0, b.1, b.2),
        epoch_day(a.0, a.1, a.2) == epoch_day(b.0, b.1, b.2),
    ensures
        a == b,
{
    lemma_day_in_year(a.0, a.1, a.2);
    lemma_day_in_year(b.0, b.1, b.2);
    if a.0 < b.0 {
        lemma_years_ascend(a.0 + 1, b.0);
    }
    if b.0 < a.0 {
        lemma_years_ascend(b.0 + 1, a.0);
    }
    lemma_months(a.0);
}

pub proof fn lemma_civil(y: int, m: int, d: int)
    requires
        is_date(y, m, d),
    ensures
        civil(epoch_day(y, m, d)) == (y, m, d),
{
    let n = epoch_day(y, m, d);
    let t = (y, m, d);
    assert(is_date(t.0, t.1, t.2) && epoch_day(t.0, t.1, t.2) == n);
    let c = civil(n);
    law_dates_differ(c, t);
}

/// The days before the first of March of a year, counted from the first of March of year 0.
spec fn march_day(y: int) -> int {
    365 * y + y / 4 - y / 100 + y / 400
}

proof fn lemma_march(y: int)
    ensures
        days_before_year(y) + 59 + (if is_leap(y) {
            1int
        } else {
            0
        }) == march_day(y) + 60,
{
    lemma_ceil_4(y);
    lemma_ceil_100(y);
    lemma_ceil_400(y);
    lemma_year_kinds(y);
}

fn floor_div(n: i64, k: u64) -> (q: i64)
    requires
        0 < k <= i64::MAX,
    ensures
        q == n as int / k as int,
{
    if n >= 0 {
        (n as u64 / k) as i64
    } else {
        let up: u64 = (-(n + 1)) as u64;
        let q: u64 = up / k;
        proof {
            let x = -(n + 1) as int;
            let kk = k as int;
            assert(x == kk * (x / kk) + x % kk) by {
                vstd::arithmetic::div_mod::lemma_fundamental_div_mod(x, kk);
            }
            let r = x % kk;
            vstd::arithmetic::div_mod::lemma_mod_bound(x, kk);
            let qq = x / kk;
            assert(n as int == kk * (-qq - 1) + (kk - 1 - r)) by (nonlinear_arith)
                requires
                    x == kk * qq + r,
                    n as int == -x - 1,
            ;
            vstd::arithmetic::div_mod::lemma_fundamental_div_mod_converse(
                n as int,
                kk,
                -qq - 1,
                kk - 1 - r,
            );
            assert(qq <= x) by (nonlinear_arith)
                requires
                    x == kk * qq + r,
                    r >= 0,
                    kk >= 1,
                    x >= 0,
            ;
        }
        -(q as i64) - 1
    }
}

/// The day of a March-based year on which its months start.
spec fn month_start(mp: int) -> int {
    if mp == 0 {
        0
    } else if mp == 1 {
        31
    } else if mp == 2 {
        61
    } else if mp == 3 {
        92
    } else if mp == 4 {
        122
    } else if mp == 5 {
        153
    } else if mp == 6 {
        184
    } else if mp == 7 {
        214
    } else if mp == 8 {
        245
    } else if mp == 9 {
        275
    } else if mp == 10 {
        306
    } else if mp == 11 {
        337
    } else {
        366
    }
}

proof fn lemma_month_of_day(doy: int)
    requires
        0 <= doy <= 365,
    ensures
        ({
            let mp = (5 * doy + 2) / 153;
            &&& 0 <= mp <= 11
            &&& (153 * mp + 2) / 5 == month_start(mp)
            &&& month_start(mp) <= doy < month_start(mp + 1)
        }),
{
    let mp = (5 * doy + 2) / 153;
    assert(153 * mp <= 5 * doy + 2 < 153 * mp + 153);
}

proof fn lemma_march_day_of_parts(era: int, c: int, f: int, o: int)
    requires
        0 <= c <= 3,
        0 <= f <= 24,
        0 <= o <= 3,
    ensures
        ({
            let y = 400 * era + 100 * c + 4 * f + o;
            &&& march_day(y) == era * 146097 + c * 36524 + f * 1461 + o * 365
            &&& (o == 3 && (f < 24 || c == 3)) == is_leap(y + 1)
        }),
{
    let y = 400 * era + 100 * c + 4 * f + o;
    assert(y / 4 == 100 * era + 25 * c + f);
    assert(y / 100 == 4 * era + c);
    assert(y / 400 == era);
    assert((y + 1) % 4 == 0 <==> o == 3);
    assert((y + 1) % 100 == 0 <==> (o == 3 && f == 24));
    assert((y + 1) % 400 == 0 <==> (o == 3 && f == 24 && c == 3));
}

/// A day of a March-based year is a date of the calendar.
proof fn lemma_date_of_march_year(y: int, doy: int)
    requires
        0 <= doy <= 365,
        doy == 365 ==> is_leap(y + 1),
    ensures
        ({
            let mp = (5 * doy + 2) / 153;
            let d = doy - (153 * mp + 2) / 5 + 1;
            let m = if mp < 10 {
                mp + 3
            } else {
                mp - 9
            };
            let year = if m <= 2 {
                y + 1
            } else {
                y
            };
            &&& is_date(year, m, d)
            &&& epoch_day(year, m, d) == march_day(y) + doy - 719468
        }),
{
    let mp = (5 * doy + 2) / 153;
    lemma_month_of_day(doy);
    lemma_march(y);
    lemma_months(y);
    lemma_months(y + 1);
    law_year_length(y);
    assert(days_before_year(1970) == 719528);
}

proof fn lemma_parts_of_era(doe: int)
    requires
        0 <= doe < 146097,
    ensures
        ({
            let c = if doe / 36524 < 3 {
                doe / 36524
            } else {
                3
            };
            let in_c = doe - c * 36524;
            let f = in_c / 1461;
            let in_f = in_c - f * 1461;
            let o = if in_f / 365 < 3 {
                in_f / 365
            } else {
                3
            };
            let doy = in_f - o * 365;
            &&& 0 <= c <= 3
            &&& 0 <= in_c <= 36524
            &&& 0 <= f <= 24
            &&& 0 <= in_f <= 1460
            &&& 0 <= o <= 3
            &&& 0 <= doy <= 365
            &&& doy == 365 ==> o == 3 && (f < 24 || c == 3)
            &&& doe == c * 36524 + f * 1461 + o * 365 + doy
        }),
{
}

/// Every day has a date, and that date falls on the day.
pub proof fn law_every_day_has_a_date(n: int)
    ensures
        is_date(civil(n).0, civil(n).1, civil(n).2),
        epoch_day(civil(n).0, civil(n).1, civil(n).2) == n,
{
    let z = n + 719468;
    let era = z / 146097;
    let doe = z % 146097;
    lemma_parts_of_era(doe);
    let c = if doe / 36524 < 3 {
        doe / 36524
    } else {
        3
    };
    let in_c = doe - c * 36524;
    let f = in_c / 1461;
    let in_f = in_c - f * 1461;
    let o = if in_f / 365 < 3 {
        in_f / 365
    } else {
        3
    };
    let doy = in_f - o * 365;
    let y = 400 * era + 100 * c + 4 * f + o;
    lemma_march_day_of_parts(era, c, f, o);
    lemma_date_of_march_year(y, doy);
    let mp = (5 * doy + 2) / 153;
    let d = doy - (153 * mp + 2) / 5 + 1;
    let m = if mp < 10 {
        mp + 3
    } else {
        mp - 9
    };
    let year = if m <= 2 {
        y + 1
    } else {
        y
    };
    assert(epoch_day(year, m, d) == n);
    lemma_civil(year, m, d);
}

/// The date of a day.
pub fn civil_from_days(days: i64) -> (r: (i64, u32, u32))
    requires
        days <= i64::MAX - 719468,
    ensures
        is_date(r.0 as int, r.1 as int, r.2 as int),
        epoch_day(r.0 as int, r.1 as int, r.2 as int) == days,
        (r.0 as int, r.1 as int, r.2 as int) == civil(days as int),
        -0x00ff_ffff_ffff_ffff < r.0 < 0x00ff_ffff_ffff_ffff,
{
    let z: i64 = days + 719468;
    let era: i64 = floor_div(z, 146097);
    let doe: i64 = z - era * 146097;
    proof {
        lemma_parts_of_era(doe as int);
    }
    let centuries: i64 = if doe / 36524 < 3 {
        doe / 36524
    } else {
        3
    };
    let in_century: i64 = doe - centuries * 36524;
    let fours: i64 = in_century / 1461;
    let in_four: i64 = in_century - fours * 1461;
    let ones: i64 = if in_four / 365 < 3 {
        in_four / 365
    } else {
        3
    };
    let doy: i64 = in_four - ones * 365;
    let march_year: i64 = centuries * 100 + fours * 4 + ones + era * 400;
    proof {
        lemma_march_day_of_parts(era as int, centuries as int, fours as int, ones as int);
        lemma_date_of_march_year(march_year as int, doy as int);
        lemma_month_of_day(doy as int);
    }
    let mp: i64 = (5 * doy + 2) / 153;
    let day: i64 = doy - (153 * mp + 2) / 5 + 1;
    let month: i64 = if mp < 10 {
        mp + 3
    } else {
        mp - 9
    };
    let year: i64 = if month <= 2 {
        march_year + 1
    } else {
        march_year
    };
    proof {
        lemma_civil(year as int, month as int, day as int);
    }
    (year, month as u32, day as u32)
}

// ---- Dates as text ----

/// A year with at least four characters, the sign among them.
pub open spec fn year_text(y: int) -> Seq<char> {
    if y < 0 {
        seq!['-'] + text::padded_dec((-y) as nat, 3)
    } else {
        text::padded_dec(y as nat, 4)
    }
}

pub open spec fn date_text(y: int, m: int, d: int) -> Seq<char> {
    year_text(y) + seq!['-'] + text::padded_dec(m as nat, 2) + seq!['-'] + text::padded_dec(
        d as nat,
        2,
    )
}

/// The date of a day, written `YYYY-MM-DD`.
pub open spec fn day_text(n: int) -> Seq<char> {
    let (y, m, d) = civil(n);
    date_text(y, m, d)
}

pub fn date_string(y: i64, m: u32, d: u32) -> (s: String)
    requires
        y > i64::MIN,
    ensures
        s@ == date_text(y as int, m as int, d as int),
{
    let mut s = String::new();
    if y < 0 {
        s.push('-');
        let digits = text::padded_number((-y) as u64, 3);
        s.append(digits.as_str());
        assert(s@ =~= year_text(y as int));
    } else {
        let digits = text::padded_number(y as u64, 4);
        s.append(digits.as_str());
        assert(s@ =~= year_text(y as int));
    }
    s.push('-');
    let month = text::padded_number(m as u64, 2);
    s.append(month.as_str());
    s.push('-');
    let day = text::padded_number(d as u64, 2);
    s.append(day.as_str());
    assert(s@ =~= date_text(y as int, m as int, d as int));
    s
}

/// The date of a day, written `YYYY-MM-DD`.
pub fn days_to_date(z: i64) -> (s: String)
    requires
        z <= i64::MAX - 719468,
    ensures
        s@ == day_text(z as int),
{
    let (y, m, d) = civil_from_days(z);
    date_string(y, m, d)
}

/// What the text of a date in ten characters looks like.
proof fn lemma_date_text_parts(y: int, m: int, d: int)
    requires
        is_date(y, m, d),
        date_text(y, m, d).len() == 10,
    ensures
        -999 <= y <= 9999,
        ({
            let s = date_text(y, m, d);
            &&& s[4] == '-'
            &&& s[7] == '-'
            &&& (y < 0) == (s[0] == '-')
            &&& y < 0 ==> text::parsed_unsigned(s.subrange(1, 4), 9999) == Some((-y) as nat)
            &&& y >= 0 ==> text::parsed_unsigned(s.subrange(0, 4), 9999) == Some(y as nat)
            &&& text::parsed_unsigned(s.subrange(5, 7), 99) == Some(m as nat)
            &&& text::parsed_unsigned(s.subrange(8, 10), 99) == Some(d as nat)
        }),
{
    let s = date_text(y, m, d);
    let yt = year_text(y);
    let mt = text::padded_dec(m as nat, 2);
    let dt = text::padded_dec(d as nat, 2);
    text::lemma_padded_dec(m as nat, 2);
    text::lemma_padded_dec(d as nat, 2);
    text::lemma_dec(m as nat);
    text::lemma_dec(d as nat);
    assert(yt.len() == 4);
    assert(s.subrange(5, 7) =~= mt);
    assert(s.subrange(8, 10) =~= dt);
    text::lemma_digits_parse(mt, 99);
    text::lemma_digits_parse(dt, 99);
    if y < 0 {
        let digits = text::padded_dec((-y) as nat, 3);
        text::lemma_padded_dec((-y) as nat, 3);
        text::lemma_dec((-y) as nat);
        assert(s.subrange(1, 4) =~= digits);
        text::lemma_digits_parse(digits, 9999);
        assert(s[0] == '-');
    } else {
        let digits = text::padded_dec(y as nat, 4);
        text::lemma_padded_dec(y as nat, 4);
        text::lemma_dec(y as nat);
        assert(s.subrange(0, 4) =~= digits);
        text::lemma_digits_parse(digits, 9999);
        assert(s[0] == digits[0]);
        assert(text::is_digit(digits[0]));
    }
}

/// The day of a date whose parts are given.
fn days_from_parts(y: i64, m: i64, d: i64) -> (n: i64)
    requires
        -9999 <= y <= 9999,
        1 <= m <= 12,
        1 <= d <= 31,
    ensures
        is_date(y as int, m as int, d as int) ==> n == epoch_day(y as int, m as int, d as int),
        -10_000_000 <= n <= 10_000_000,
{
    let march_year: i64 = if m <= 2 {
        y - 1
    } else {
        y
    };
    let era: i64 = floor_div(march_year, 400);
    let yoe: i64 = march_year - era * 400;
    let mp: i64 = if m > 2 {
        m - 3
    } else {
        m + 9
    };
    let doy: i64 = (153 * mp + 2) / 5 + d - 1;
    let doe: i64 = yoe * 365 + yoe / 4 - yoe / 100 + doy;
    proof {
        let my = march_year as int;
        assert(my / 4 == 100 * era + yoe / 4);
        assert(my / 100 == 4 * era + yoe / 100);
        lemma_march(my);
        lemma_months(my);
        lemma_months(my + 1);
        law_year_length(my);
        assert(days_before_year(1970) == 719528);
    }
    era * 146097 + doe - 719468
}

/// The day whose date, in ten characters, a text is.
pub open spec fn read_day(s: Seq<char>) -> Option<int> {
    if s.len() == 10 && exists|n: int| #[trigger] day_text(n) == s {
        Some(choose|n: int| #[trigger] day_text(n) == s)
    } else {
        None
    }
}

/// Reading the date of a day, where it is written in ten characters, gives the day; and what is
/// read is the date of the day that comes out.
pub proof fn law_dates_are_read_back(n: int, s: Seq<char>)
    ensures
        day_text(n).len() == 10 ==> read_day(day_text(n)) == Some(n),
        read_day(s) matches Some(m) ==> day_text(m) == s,
{
    if day_text(n).len() == 10 {
        let m = choose|m: int| #[trigger] day_text(m) == day_text(n);
        assert(day_text(n) == day_text(n));
        law_day_texts_differ(m, n);
    }
}

/// The day whose date, in ten characters, the text is.
pub fn date_to_days(s: &str) -> (r: Option<i64>)
    ensures
        match r {
            Some(n) => read_day(s@) == Some(n as int),
            None => read_day(s@) is None,
        },
        match r {
            Some(n) => s@.len() == 10 && day_text(n as int) == s@ && n <= i64::MAX - 719468,
            None => s@.len() != 10 || forall|n: int| #[trigger] day_text(n) != s@,
        },
{
    let v = text::chars_of(s);
    if v.len() != 10 {
        return None;
    }
    proof {
        assert forall|n: int| #[trigger] day_text(n) == s@ implies {
            let (y, m, d) = civil(n);
            &&& is_date(y, m, d)
            &&& epoch_day(y, m, d) == n
            &&& s@[4] == '-'
            &&& s@[7] == '-'
            &&& -999 <= y <= 9999
            &&& (y < 0) == (s@[0] == '-')
            &&& y < 0 ==> text::parsed_unsigned(s@.subrange(1, 4), 9999) == Some((-y) as nat)
            &&& y >= 0 ==> text::parsed_unsigned(s@.subrange(0, 4), 9999) == Some(y as nat)
            &&& text::parsed_unsigned(s@.subrange(5, 7), 99) == Some(m as nat)
            &&& text::parsed_unsigned(s@.subrange(8, 10), 99) == Some(d as nat)
        } by {
            let (y, m, d) = civil(n);
            law_every_day_has_a_date(n);
            lemma_date_text_parts(y, m, d);
        }
    }
    if v[4] != '-' || v[7] != '-' {
        return None;
    }
    let negative = v[0] == '-';
    let year = if negative {
        text::parse_unsigned(text::text_between(&v, 1, 4).as_str(), 9999)
    } else {
        text::parse_unsigned(text::text_between(&v, 0, 4).as_str(), 9999)
    };
    let month = text::parse_unsigned(text::text_between(&v, 5, 7).as_str(), 99);
    let day = text::parse_unsigned(text::text_between(&v, 8, 10).as_str(), 99);
    match (year, month, day) {
        (Some(y), Some(m), Some(d)) => {
            if m < 1 || m > 12 || d < 1 || d > 31 {
                return None;
            }
            let y: i64 = if negative {
                -(y as i64)
            } else {
                y as i64
            };
            let n = days_from_parts(y, m as i64, d as i64);
            let back = days_to_date(n);
            if text::same(back.as_str(), s) {
                proof {
                    law_dates_are_read_back(n as int, s@);
                }
                Some(n)
            } else {
                None
            }
        },
        _ => None,
    }
}

/// Two days never have the same text, if it has ten characters.
pub proof fn law_day_texts_differ(a: int, b: int)
    requires
        day_text(a).len() == 10,
        day_text(a) == day_text(b),
    ensures
        a == b,
{
    law_every_day_has_a_date(a);
    law_every_day_has_a_date(b);
    let (y, m, d) = civil(a);
    let (y2, m2, d2) = civil(b);
    lemma_date_text_parts(y, m, d);
    lemma_date_text_parts(y2, m2, d2);
}

/// Whether a date comes before another.
pub open spec fn is_earlier(a: (int, int, int), b: (int, int, int)) -> bool {
    a.0 < b.0 || (a.0 == b.0 && (a.1 < b.1 || (a.1 == b.1 && a.2 < b.2)))
}

/// Later days have later dates.
pub proof fn law_later_days_have_later_dates(a: int, b: int)
    requires
        a < b,
    ensures
        is_earlier(civil(a), civil(b)),
{
    law_every_day_has_a_date(a);
    law_every_day_has_a_date(b);
    let p = civil(a);
    let q = civil(b);
    lemma_day_in_year(p.0, p.1, p.2);
    lemma_day_in_year(q.0, q.1, q.2);
    if q.0 < p.0 {
        lemma_years_ascend(q.0 + 1, p.0);
    }
    lemma_months(p.0);
}

/// Whether a text is four digits, a hyphen, two digits, a hyphen and two digits.
pub open spec fn has_date_form(s: Seq<char>) -> bool {
    &&& s.len() == 10
    &&& forall|i: int|
        0 <= i < 10 ==> if i == 4 || i == 7 {
            #[trigger] s[i] == '-'
        } else {
            text::is_digit(s[i])
        }
}

proof fn lemma_date_digits(y: int, m: int, d: int)
    requires
        is_date(y, m, d),
        0 <= y <= 9999,
    ensures
        ({
            let yt = text::padded_dec(y as nat, 4);
            let mt = text::padded_dec(m as nat, 2);
            let dt = text::padded_dec(d as nat, 2);
            &&& yt.len() == 4 && text::all_digits(yt) && text::value_of(yt) == y
            &&& mt.len() == 2 && text::all_digits(mt) && text::value_of(mt) == m
            &&& dt.len() == 2 && text::all_digits(dt) && text::value_of(dt) == d
        }),
        has_date_form(date_text(y, m, d)),
{
    let yt = text::padded_dec(y as nat, 4);
    let mt = text::padded_dec(m as nat, 2);
    let dt = text::padded_dec(d as nat, 2);
    text::lemma_padded_dec(y as nat, 4);
    text::lemma_padded_dec(m as nat, 2);
    text::lemma_padded_dec(d as nat, 2);
    text::lemma_dec(y as nat);
    text::lemma_dec(m as nat);
    text::lemma_dec(d as nat);
    let s = date_text(y, m, d);
    assert forall|i: int| 0 <= i < 10 implies if i == 4 || i == 7 {
        #[trigger] s[i] == '-'
    } else {
        text::is_digit(s[i])
    } by {
        if i < 4 {
            assert(s[i] == yt[i]);
        } else if 4 < i < 7 {
            assert(s[i] == mt[i - 5]);
        } else if 7 < i {
            assert(s[i] == dt[i - 8]);
        }
    }
}

/// In the years 0 to 9999 a day is written `YYYY-MM-DD`, and of two days the text of the earlier
/// comes before that of the later, character by character.
pub proof fn law_later_days_have_later_texts(a: int, b: int)
    requires
        -719528 <= a < b <= 2932896,
    ensures
        has_date_form(day_text(a)),
        has_date_form(day_text(b)),
        text::comes_before(day_text(a), day_text(b)),
{
    law_every_day_has_a_date(a);
    law_every_day_has_a_date(b);
    law_later_days_have_later_dates(a, b);
    let (y, m, d) = civil(a);
    let (y2, m2, d2) = civil(b);
    lemma_day_in_year(y, m, d);
    lemma_day_in_year(y2, m2, d2);
    if y < 0 {
        lemma_years_ascend(y + 1, 0);
    }
    if y2 > 9999 {
        lemma_years_ascend(10000, y2);
    }
    lemma_date_digits(y, m, d);
    lemma_date_digits(y2, m2, d2);
    let yt = text::padded_dec(y as nat, 4);
    let mt = text::padded_dec(m as nat, 2);
    let dt = text::padded_dec(d as nat, 2);
    let yt2 = text::padded_dec(y2 as nat, 4);
    let mt2 = text::padded_dec(m2 as nat, 2);
    let dt2 = text::padded_dec(d2 as nat, 2);
    let dash = seq!['-'];
    let none = Seq::<char>::empty();
    if y < y2 {
        text::lemma_digits_in_order(yt, yt2);
        let rest = dash + mt + dash + dt;
        let rest2 = dash + mt2 + dash + dt2;
        text::lemma_order_within(none, yt, yt2, rest, rest2);
        assert(day_text(a) =~= none + yt + rest);
        assert(day_text(b) =~= none + yt2 + rest2);
    } else if m < m2 {
        text::lemma_digits_in_order(mt, mt2);
        text::lemma_order_within(yt + dash, mt, mt2, dash + dt, dash + dt2);
        assert(day_text(a) =~= yt + dash + mt + (dash + dt));
        assert(day_text(b) =~= yt + dash + mt2 + (dash + dt2));
    } else {
        text::lemma_digits_in_order(dt, dt2);
        let front = yt + dash + mt + dash;
        text::lemma_order_within(front, dt, dt2, none, none);
        assert(day_text(a) =~= front + dt + none);
        assert(day_text(b) =~= front + dt2 + none);
    }
}

/// From the years -999 to 9999 a date is written in ten characters, so that reading the date of a
/// day gives the day.
pub proof fn law_dates_have_ten_characters(n: int)
    requires
        -999 <= civil(n).0 <= 9999,
    ensures
        day_text(n).len() == 10,
{
    law_every_day_has_a_date(n);
    let (y, m, d) = civil(n);
    text::lemma_padded_dec(m as nat, 2);
    text::lemma_padded_dec(d as nat, 2);
    text::lemma_dec(m as nat);
    text::lemma_dec(d as nat);
    if y < 0 {
        text::lemma_padded_dec((-y) as nat, 3);
        text::lemma_dec((-y) as nat);
    } else {
        text::lemma_padded_dec(y as nat, 4);
        text::lemma_dec(y as nat);
    }
}

/// The months have their lengths; only the second has two, and a year is a leap year where four
/// divides it, but of the years that a hundred divides only where four hundred does.
pub proof fn law_months_have_their_lengths(y: int)
    ensures
        month_len(y, 1) == 31 && month_len(y, 3) == 31 && month_len(y, 5) == 31 && month_len(y, 7) == 31
            && month_len(y, 8) == 31 && month_len(y, 10) == 31 && month_len(y, 12) == 31,
        month_len(y, 4) == 30 && month_len(y, 6) == 30 && month_len(y, 9) == 30 && month_len(y, 11)
            == 30,
        y % 4 != 0 ==> month_len(y, 2) == 28,
        y % 4 == 0 && y % 100 != 0 ==> month_len(y, 2) == 29,
        y % 100 == 0 && y % 400 != 0 ==> month_len(y, 2) == 28,
        y % 400 == 0 ==> month_len(y, 2) == 29,
{
}

/// Days are counted from the first of January 1970, one by one through the months and the years.
pub proof fn law_days_follow_each_other(y: int, m: int, d: int)
    requires
        is_date(y, m, d),
    ensures
        epoch_day(1970, 1, 1) == 0,
        d < month_len(y, m) ==> is_date(y, m, d + 1) && epoch_day(y, m, d + 1) == epoch_day(y, m, d)
            + 1,
        d == month_len(y, m) && m < 12 ==> is_date(y, m + 1, 1) && epoch_day(y, m + 1, 1)
            == epoch_day(y, m, d) + 1,
        d == month_len(y, m) && m == 12 ==> is_date(y + 1, 1, 1) && epoch_day(y + 1, 1, 1)
            == epoch_day(y, m, d) + 1,
{
    law_year_length(y);
    reveal_with_fuel(days_before_month, 2);
}

/// A date is written with four digits of the year, two of the month and two of the day.
pub proof fn law_dates_are_written(n: int)
    requires
        0 <= civil(n).0 <= 9999,
    ensures
        day_text(n).len() == 10,
        text::parsed_unsigned(day_text(n).take(4), 9999) == Some(civil(n).0 as nat),
        day_text(n)[4] == '-',
        text::parsed_unsigned(day_text(n).subrange(5, 7), 99) == Some(civil(n).1 as nat),
        day_text(n)[7] == '-',
        text::parsed_unsigned(day_text(n).skip(8), 99) == Some(civil(n).2 as nat),
{
    law_every_day_has_a_date(n);
    law_dates_have_ten_characters(n);
    let (y, m, d) = civil(n);
    text::law_numbers_are_read_back(y as nat, 4, 9999);
    text::law_numbers_are_read_back(m as nat, 2, 99);
    text::law_numbers_are_read_back(d as nat, 2, 99);
    text::lemma_padded_dec(y as nat, 4);
    text::lemma_padded_dec(m as nat, 2);
    text::lemma_padded_dec(d as nat, 2);
    text::lemma_dec(y as nat);
    text::lemma_dec(m as nat);
    text::lemma_dec(d as nat);
    assert(day_text(n).take(4) =~= text::padded_dec(y as nat, 4));
    assert(day_text(n).subrange(5, 7) =~= text::padded_dec(m as nat, 2));
    assert(day_text(n).skip(8) =~= text::padded_dec(d as nat, 2));
}

} // verus!
