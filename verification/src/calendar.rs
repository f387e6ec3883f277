//! Calendar dates, and how a moment is written.

use crate::text::{dec, decimal, digit_char};
use vstd::arithmetic::div_mod::lemma_mod_multiples_vanish;
use vstd::prelude::*;
use vstd::string::*;

verus! {

/// Whether a year of the Gregorian calendar has a 29th of February.
pub open spec fn leap(y: int) -> bool {
    y % 4 == 0 && (y % 100 != 0 || y % 400 == 0)
}

/// The number of days of a year.
pub open spec fn year_len(y: int) -> int {
    if leap(y) {
        366
    } else {
        365
    }
}

/// The number of days of a month of a year.
pub open spec fn month_len(y: int, m: int) -> int {
    if m == 2 {
        if leap(y) {
            29
        } else {
            28
        }
    } else if m == 4 || m == 6 || m == 9 || m == 11 {
        30
    } else {
        31
    }
}

/// The number of days from the first of January 1970 to the first of January of year `y`.
pub open spec fn days_before_year(y: int) -> int
    decreases y,
{
    if y <= 1970 {
        0
    } else {
        days_before_year(y - 1) + year_len(y - 1)
    }
}

/// The number of days of year `y` before month `m`.
pub open spec fn days_before_month(y: int, m: int) -> int
    decreases m,
{
    if m <= 1 {
        0
    } else {
        days_before_month(y, m - 1) + month_len(y, m - 1)
    }
}

/// Whether year, month and day name a day that is `days` days after the first of January
/// 1970.
pub open spec fn is_date(days: int, y: int, m: int, d: int) -> bool {
    &&& 1970 <= y
    &&& 1 <= m <= 12
    &&& 1 <= d <= month_len(y, m)
    &&& days == days_before_year(y) + days_before_month(y, m) + d - 1
}

/// The number of days before a year, counted by the leap years before it.
proof fn lemma_days_before_year(y: int)
    requires
        y >= 1970,
    ensures
        days_before_year(y) == 365 * y + (y - 1) / 4 - (y - 1) / 100 + (y - 1) / 400 - 719527,
    decreases y,
{
    if y > 1970 {
        lemma_days_before_year(y - 1);
    }
}

proof fn lemma_days_before_month(y: int, m: int)
    requires
        1 <= m <= 12,
    ensures
        days_before_month(y, m) == (if m <= 2 {
            31 * (m - 1)
        } else {
            (153 * (m - 3) + 2) / 5 + 59 + (if leap(y) { 1int } else { 0 })
        }),
    decreases m,
{
    if m > 1 {
        lemma_days_before_month(y, m - 1);
    }
}

/// The year of a four-century era, counted from the first of March, that a day of the era
/// falls in.
#[verifier::spinoff_prover]
proof fn lemma_year_of_era(doe: int, yoe: int)
    requires
        0 <= doe < 146097,
        yoe == (doe - doe / 1460 + doe / 36524 - doe / 146096) / 365,
    ensures
        0 <= yoe < 400,
        365 * yoe + yoe / 4 - yoe / 100 <= doe,
        yoe < 399 ==> doe < 365 * (yoe + 1) + (yoe + 1) / 4 - (yoe + 1) / 100,
{
    let a = doe / 1460;
    let b = doe / 36524;
    let c = doe / 146096;
    let q = yoe / 4;
    let h = yoe / 100;
    assert(0 <= b <= 4);
    assert(0 <= h <= 3 || yoe >= 400 || yoe < 0);
}

/// The month of a year counted from the first of March that its day `doy` falls in.
proof fn lemma_month_of_year(doy: int, mp: int)
    requires
        0 <= doy <= 365,
        mp == (5 * doy + 2) / 153,
    ensures
        0 <= mp <= 11,
        (153 * mp + 2) / 5 <= doy,
        mp < 11 ==> doy < (153 * (mp + 1) + 2) / 5,
{
}

proof fn lemma_march_year(era: int, yoe: int)
    requires
        0 <= yoe < 400,
    ensures
        (era * 400 + yoe) / 4 == era * 100 + yoe / 4,
        (era * 400 + yoe) / 100 == era * 4 + yoe / 100,
        (era * 400 + yoe) / 400 == era,
{
}

/// A leap day is the last day of a year counted from the first of March.
#[verifier::spinoff_prover]
proof fn lemma_leap_year(era: int, yoe: int)
    requires
        0 <= yoe < 400,
    ensures
        leap(era * 400 + yoe + 1) <==> (yoe == 399 || (yoe + 1) / 4 - (yoe + 1) / 100 == yoe / 4 - yoe / 100 + 1),
        yoe < 399 ==> (yoe + 1) / 4 - (yoe + 1) / 100 <= yoe / 4 - yoe / 100 + 1,
{
    let w = yoe + 1;
    let y = era * 400 + w;
    lemma_mod_multiples_vanish(100 * era, w, 4);
    lemma_mod_multiples_vanish(4 * era, w, 100);
    lemma_mod_multiples_vanish(era, w, 400);
    assert(y % 4 == w % 4 && y % 100 == w % 100 && y % 400 == w % 400);
    assert(w % 400 == 0 <==> w == 400);
    lemma_step(yoe, 4);
    lemma_step(yoe, 100);
    assert(w % 100 == 0 ==> w % 4 == 0);
}

/// Counting on by one passes a multiple of `d`, or none.
proof fn lemma_step(n: int, d: int)
    requires
        0 <= n,
        d == 4 || d == 100,
    ensures
        (n + 1) / d == n / d + (if (n + 1) % d == 0 {
            1int
        } else {
            0
        }),
{
    if d == 4 {
        assert((n + 1) / 4 == n / 4 + (if (n + 1) % 4 == 0 { 1int } else { 0 }));
    } else {
        assert((n + 1) / 100 == n / 100 + (if (n + 1) % 100 == 0 { 1int } else { 0 }));
    }
}

#[verifier::spinoff_prover]
proof fn lemma_date(days: int, era: int, yoe: int, doy: int, mp: int)
    requires
        days >= 0,
        days + 719468 == era * 146097 + 365 * yoe + yoe / 4 - yoe / 100 + doy,
        0 <= yoe < 400,
        0 <= doy <= 365,
        yoe < 399 ==> doy < 365 + (yoe + 1) / 4 - (yoe + 1) / 100 - (yoe / 4 - yoe / 100),
        mp == (5 * doy + 2) / 153,
    ensures
        ({
            let m = if mp < 10 { mp + 3 } else { mp - 9 };
            let y = era * 400 + yoe + (if m <= 2 { 1int } else { 0 });
            is_date(days, y, m, doy - (153 * mp + 2) / 5 + 1)
        }),
{
    let march_year = era * 400 + yoe;
    let m = if mp < 10 { mp + 3 } else { mp - 9 };
    let y = march_year + (if m <= 2 { 1int } else { 0 });
    let d = doy - (153 * mp + 2) / 5 + 1;
    lemma_month_of_year(doy, mp);
    lemma_march_year(era, yoe);
    lemma_leap_year(era, yoe);
    assert(march_year >= 1969);
    assert(march_year == 1969 ==> doy >= 306) by {
        assert(march_year == 1969 ==> era == 4 && yoe == 369);
    }
    assert(y >= 1970);
    lemma_days_before_year(y);
    lemma_days_before_month(y, m);
    assert(1 <= d <= month_len(y, m)) by {
        assert(mp == 0 || mp == 1 || mp == 2 || mp == 3 || mp == 4 || mp == 5 || mp == 6 || mp == 7 || mp == 8
            || mp == 9 || mp == 10 || mp == 11);
    }
    if m <= 2 {
        assert(days == days_before_year(y) + days_before_month(y, m) + d - 1);
    } else {
        let before = march_year - 1;
        lemma_step(before, 4);
        lemma_step(before, 100);
        assert(before / 400 + (if march_year % 400 == 0 { 1int } else { 0 }) == march_year / 400);
        assert(march_year % 400 == 0 ==> march_year % 100 == 0);
        assert(march_year % 100 == 0 ==> march_year % 4 == 0);
        assert(days == days_before_year(y) + days_before_month(y, m) + d - 1);
    }
}

/// The date that is `days` days after the first of January 1970, as year, month and day.
pub fn days_to_ymd(days: u64) -> (r: (u64, u64, u64))
    requires
        days + 719468 <= u64::MAX,
    ensures
        is_date(days as int, r.0 as int, r.1 as int, r.2 as int),
{
    let shifted: u64 = days + 719468;
    let era: u64 = shifted / 146097;
    let doe: u64 = shifted - era * 146097;
    let yoe: u64 = (doe - doe / 1460 + doe / 36524 - doe / 146096) / 365;
    proof {
        lemma_year_of_era(doe as int, yoe as int);
    }
    let march_year: u64 = yoe + era * 400;
    let doy: u64 = doe - (365 * yoe + yoe / 4 - yoe / 100);
    let mp: u64 = (5 * doy + 2) / 153;
    proof {
        lemma_month_of_year(doy as int, mp as int);
        lemma_date(days as int, era as int, yoe as int, doy as int, mp as int);
    }
    let d: u64 = doy - (153 * mp + 2) / 5 + 1;
    let m: u64 = if mp < 10 { mp + 3 } else { mp - 9 };
    let y: u64 = if m <= 2 { march_year + 1 } else { march_year };
    (y, m, d)
}

proof fn lemma_year_bounds(y: int, m: int, d: int)
    requires
        1 <= m <= 12,
        1 <= d <= month_len(y, m),
    ensures
        0 <= days_before_month(y, m) + d - 1 < year_len(y),
{
    lemma_days_before_month(y, m);
}

proof fn lemma_years_grow(a: int, b: int)
    requires
        1970 <= a < b,
    ensures
        days_before_year(a) + year_len(a) <= days_before_year(b),
    decreases b,
{
    if a < b - 1 {
        lemma_years_grow(a, b - 1);
    }
}

proof fn lemma_months_grow(y: int, a: int, b: int)
    requires
        1 <= a < b <= 12,
    ensures
        days_before_month(y, a) + month_len(y, a) <= days_before_month(y, b),
    decreases b,
{
    if a < b - 1 {
        lemma_months_grow(y, a, b - 1);
    }
}

/// A day has one date.
pub proof fn law_date_is_unique(days: int, y: int, m: int, d: int, y2: int, m2: int, d2: int)
    requires
        is_date(days, y, m, d),
        is_date(days, y2, m2, d2),
    ensures
        y == y2,
        m == m2,
        d == d2,
{
    lemma_year_bounds(y, m, d);
    lemma_year_bounds(y2, m2, d2);
    if y < y2 {
        lemma_years_grow(y, y2);
    }
    if y2 < y {
        lemma_years_grow(y2, y);
    }
    if m < m2 {
        lemma_months_grow(y, m, m2);
    }
    if m2 < m {
        lemma_months_grow(y, m2, m);
    }
}

/// `n` zeros.
pub open spec fn zeros(n: nat) -> Seq<char> {
    Seq::new(n, |i: int| '0')
}

/// A number in decimal, filled up with zeros from the left to `width` digits.
pub open spec fn padded(n: nat, width: nat) -> Seq<char> {
    if dec(n).len() >= width {
        dec(n)
    } else {
        zeros((width - dec(n).len()) as nat) + dec(n)
    }
}

/// Writes a number in decimal, filled up with zeros from the left.
pub fn pad(n: u64, width: usize) -> (r: String)
    ensures
        r@ == padded(n as nat, width as nat),
{
    let digits = decimal(n);
    let len: usize = digits.as_str().unicode_len();
    if len >= width {
        return digits;
    }
    let mut r: String = "".to_owned();
    let mut i: usize = 0;
    proof {
        reveal_strlit("");
    }
    while i < width - len
        invariant
            len < width,
            i <= width - len,
            r@ == zeros(i as nat),
        decreases width - len - i,
    {
        r.push('0');
        i = i + 1;
        assert(r@ =~= zeros(i as nat));
    }
    r.append(digits.as_str());
    r
}

/// How a moment of a date is written: date, `T`, time of day, milliseconds and `Z`.
pub open spec fn moment_text(y: int, m: int, d: int, time_of_day: int, millis: int) -> Seq<char> {
    padded(y as nat, 4) + "-"@ + padded(m as nat, 2) + "-"@ + padded(d as nat, 2) + "T"@ + padded(
        (time_of_day / 3600) as nat,
        2,
    ) + ":"@ + padded((time_of_day % 3600 / 60) as nat, 2) + ":"@ + padded((time_of_day % 60) as nat, 2) + "."@
        + padded(millis as nat, 3) + "Z"@
}

/// Whether `text` writes the moment `secs` seconds and `millis` milliseconds after the start
/// of 1970.
pub open spec fn is_iso(text: Seq<char>, secs: int, millis: int) -> bool {
    exists|y: int, m: int, d: int| #[trigger]
        is_date(secs / 86400, y, m, d) && text == moment_text(y, m, d, secs % 86400, millis)
}

/// Writes the moment `secs` seconds and `millis` milliseconds after the start of 1970.
pub fn iso_text(secs: u64, millis: u32) -> (r: String)
    ensures
        is_iso(r@, secs as int, millis as int),
{
    let time_of_day: u64 = secs % 86400;
    let (y, m, d) = days_to_ymd(secs / 86400);
    let month = pad(m, 2);
    let day = pad(d, 2);
    let hours = pad(time_of_day / 3600, 2);
    let minutes = pad(time_of_day % 3600 / 60, 2);
    let seconds = pad(time_of_day % 60, 2);
    let fraction = pad(millis as u64, 3);
    let r = pad(y, 4).concat("-").concat(month.as_str()).concat("-").concat(day.as_str()).concat("T").concat(
        hours.as_str(),
    ).concat(":").concat(minutes.as_str()).concat(":").concat(seconds.as_str()).concat(".").concat(
        fraction.as_str(),
    ).concat("Z");
    assert(is_date(secs as int / 86400, y as int, m as int, d as int));
    r
}

proof fn lemma_dec_len(n: nat)
    ensures
        n < 10 ==> dec(n).len() == 1,
        10 <= n < 100 ==> dec(n).len() == 2,
        100 <= n < 1000 ==> dec(n).len() == 3,
        1000 <= n < 10000 ==> dec(n).len() == 4,
{
    reveal_with_fuel(dec, 4);
}

/// Up to the end of the year 9999 a moment is written in twenty-four characters, with the
/// separators in their places.
pub proof fn law_moments_have_one_width(text: Seq<char>, secs: int, millis: int)
    requires
        is_iso(text, secs, millis),
        0 <= secs < 253402300800,
        0 <= millis < 1000,
    ensures
        text.len() == 24,
        text[4] == '-',
        text[7] == '-',
        text[10] == 'T',
        text[13] == ':',
        text[16] == ':',
        text[19] == '.',
        text[23] == 'Z',
{
    let (y, m, d) = choose|y: int, m: int, d: int| #[trigger]
        is_date(secs / 86400, y, m, d) && text == moment_text(y, m, d, secs % 86400, millis);
    lemma_year_bounds(y, m, d);
    if y > 9999 {
        lemma_days_before_year(10000);
        if y > 10000 {
            lemma_years_grow(10000, y);
        }
    }
    let time_of_day = secs % 86400;
    lemma_dec_len(y as nat);
    lemma_dec_len(m as nat);
    lemma_dec_len(d as nat);
    lemma_dec_len((time_of_day / 3600) as nat);
    lemma_dec_len((time_of_day % 3600 / 60) as nat);
    lemma_dec_len((time_of_day % 60) as nat);
    lemma_dec_len(millis as nat);
    reveal_strlit("-");
    reveal_strlit("T");
    reveal_strlit(":");
    reveal_strlit(".");
    reveal_strlit("Z");
}

proof fn lemma_padded(n: nat)
    ensures
        n < 100 ==> padded(n, 2) == seq![digit_char((n / 10) as int), digit_char((n % 10) as int)],
        n < 1000 ==> padded(n, 3) == seq![
            digit_char((n / 100) as int),
            digit_char((n / 10 % 10) as int),
            digit_char((n % 10) as int),
        ],
{
    lemma_dec_len(n);
    reveal_with_fuel(dec, 4);
    if n < 100 {
        assert(padded(n, 2) =~= seq![digit_char((n / 10) as int), digit_char((n % 10) as int)]);
    }
    if n < 1000 {
        assert(padded(n, 3) =~= seq![
            digit_char((n / 100) as int),
            digit_char((n / 10 % 10) as int),
            digit_char((n % 10) as int),
        ]);
    }
}

proof fn lemma_pieces_of_a_moment(
    y: Seq<char>,
    m: Seq<char>,
    d: Seq<char>,
    hours: Seq<char>,
    minutes: Seq<char>,
    seconds: Seq<char>,
    fraction: Seq<char>,
)
    requires
        y.len() == 4,
        m.len() == 2,
        d.len() == 2,
        hours.len() == 2,
        minutes.len() == 2,
        seconds.len() == 2,
        fraction.len() == 3,
    ensures
        ({
            let text = y + "-"@ + m + "-"@ + d + "T"@ + hours + ":"@ + minutes + ":"@ + seconds + "."@ + fraction
                + "Z"@;
            &&& text.len() == 24
            &&& text.subrange(0, 4) == y
            &&& text.subrange(5, 7) == m
            &&& text.subrange(8, 10) == d
            &&& text.subrange(11, 13) == hours
            &&& text.subrange(14, 16) == minutes
            &&& text.subrange(17, 19) == seconds
            &&& text.subrange(20, 23) == fraction
        }),
{
    reveal_strlit("-");
    reveal_strlit("T");
    reveal_strlit(":");
    reveal_strlit(".");
    reveal_strlit("Z");
    let text = y + "-"@ + m + "-"@ + d + "T"@ + hours + ":"@ + minutes + ":"@ + seconds + "."@ + fraction + "Z"@;
    assert(text.subrange(0, 4) =~= y);
    assert(text.subrange(5, 7) =~= m);
    assert(text.subrange(8, 10) =~= d);
    assert(text.subrange(11, 13) =~= hours);
    assert(text.subrange(14, 16) =~= minutes);
    assert(text.subrange(17, 19) =~= seconds);
    assert(text.subrange(20, 23) =~= fraction);
}

proof fn lemma_moment_pieces(y: int, m: int, d: int, time_of_day: int, millis: int)
    requires
        1000 <= y <= 9999,
        1 <= m <= 12,
        1 <= d <= 31,
        0 <= time_of_day < 86400,
        0 <= millis < 1000,
    ensures
        ({
            let text = moment_text(y, m, d, time_of_day, millis);
            &&& text.len() == 24
            &&& text.subrange(0, 4) == dec(y as nat)
            &&& text.subrange(5, 7) == padded(m as nat, 2)
            &&& text.subrange(8, 10) == padded(d as nat, 2)
            &&& text.subrange(11, 13) == padded((time_of_day / 3600) as nat, 2)
            &&& text.subrange(14, 16) == padded((time_of_day % 3600 / 60) as nat, 2)
            &&& text.subrange(17, 19) == padded((time_of_day % 60) as nat, 2)
            &&& text.subrange(20, 23) == padded(millis as nat, 3)
        }),
{
    lemma_dec_len(y as nat);
    lemma_padded(m as nat);
    lemma_padded(d as nat);
    lemma_padded((time_of_day / 3600) as nat);
    lemma_padded((time_of_day % 3600 / 60) as nat);
    lemma_padded((time_of_day % 60) as nat);
    lemma_padded(millis as nat);
    lemma_pieces_of_a_moment(
        padded(y as nat, 4),
        padded(m as nat, 2),
        padded(d as nat, 2),
        padded((time_of_day / 3600) as nat, 2),
        padded((time_of_day % 3600 / 60) as nat, 2),
        padded((time_of_day % 60) as nat, 2),
        padded(millis as nat, 3),
    );
}

proof fn lemma_year_of_four_digits(secs: int, y: int, m: int, d: int)
    requires
        0 <= secs < 253402300800,
        is_date(secs / 86400, y, m, d),
    ensures
        1970 <= y <= 9999,
        1 <= m <= 12,
        1 <= d <= 31,
{
    lemma_year_bounds(y, m, d);
    if y > 9999 {
        lemma_days_before_year(10000);
        if y > 10000 {
            lemma_years_grow(10000, y);
        }
    }
}

proof fn lemma_time_of_day(secs: int)
    requires
        0 <= secs,
    ensures
        secs % 86400 % 3600 / 60 == secs / 60 % 60,
        secs % 86400 % 60 == secs % 60,
        0 <= secs % 86400 < 86400,
{
}

/// Up to the end of the year 9999 the digits behind the `T` are the hours, minutes and seconds that
/// have passed of the day, and those behind the point are the milliseconds.
pub proof fn law_the_time_of_day_is_written_in_digits(text: Seq<char>, secs: int, millis: int)
    requires
        is_iso(text, secs, millis),
        0 <= secs < 253402300800,
        0 <= millis < 1000,
    ensures
        ({
            let hours = secs % 86400 / 3600;
            let minutes = secs / 60 % 60;
            let seconds = secs % 60;
            &&& text.len() == 24
            &&& text.subrange(11, 13) == seq![digit_char(hours / 10), digit_char(hours % 10)]
            &&& text.subrange(14, 16) == seq![digit_char(minutes / 10), digit_char(minutes % 10)]
            &&& text.subrange(17, 19) == seq![digit_char(seconds / 10), digit_char(seconds % 10)]
            &&& text.subrange(20, 23) == seq![
                digit_char(millis / 100),
                digit_char(millis / 10 % 10),
                digit_char(millis % 10),
            ]
        }),
{
    let (y, m, d) = choose|y: int, m: int, d: int| #[trigger]
        is_date(secs / 86400, y, m, d) && text == moment_text(y, m, d, secs % 86400, millis);
    lemma_year_of_four_digits(secs, y, m, d);
    lemma_time_of_day(secs);
    lemma_moment_pieces(y, m, d, secs % 86400, millis);
    let hours = secs % 86400 / 3600;
    let minutes = secs / 60 % 60;
    let seconds = secs % 60;
    assert(0 <= hours < 24 && 0 <= minutes < 60 && 0 <= seconds < 60);
    lemma_padded(hours as nat);
    lemma_padded(minutes as nat);
    lemma_padded(seconds as nat);
    lemma_padded(millis as nat);
}

/// Up to the end of the year 9999 a moment of a date starts with the digits of its year, month and
/// day, in that order.
pub proof fn law_the_date_is_written_in_digits(text: Seq<char>, secs: int, millis: int, y: int, m: int, d: int)
    requires
        is_iso(text, secs, millis),
        0 <= secs < 253402300800,
        0 <= millis < 1000,
        is_date(secs / 86400, y, m, d),
    ensures
        text.len() == 24,
        text.subrange(0, 4) == dec(y as nat),
        text.subrange(5, 7) == seq![digit_char(m / 10), digit_char(m % 10)],
        text.subrange(8, 10) == seq![digit_char(d / 10), digit_char(d % 10)],
{
    let (y2, m2, d2) = choose|y2: int, m2: int, d2: int| #[trigger]
        is_date(secs / 86400, y2, m2, d2) && text == moment_text(y2, m2, d2, secs % 86400, millis);
    law_date_is_unique(secs / 86400, y, m, d, y2, m2, d2);
    lemma_year_of_four_digits(secs, y, m, d);
    lemma_time_of_day(secs);
    lemma_moment_pieces(y, m, d, secs % 86400, millis);
    lemma_padded(m as nat);
    lemma_padded(d as nat);
}

/// Days are counted from the first of January 1970. The day after a day of a month is the next of that
/// month, and after its last the first of the next month; a February has twenty-nine days in every
/// fourth year but for three in four of the full centuries.
pub proof fn law_days_follow_each_other(days: int, y: int, m: int, d: int)
    requires
        is_date(days, y, m, d),
    ensures
        is_date(0, 1970, 1, 1),
        ({
            let last: int = if m == 2 {
                if (y % 4 == 0 && y % 100 != 0) || y % 400 == 0 {
                    29
                } else {
                    28
                }
            } else if m == 4 || m == 6 || m == 9 || m == 11 {
                30
            } else {
                31
            };
            if d < last {
                is_date(days + 1, y, m, d + 1)
            } else if m < 12 {
                is_date(days + 1, y, m + 1, 1)
            } else {
                is_date(days + 1, y + 1, 1, 1)
            }
        }),
{
    reveal_with_fuel(days_before_month, 13);
}

} // verus!
