//! Calendar dates and timestamps: days of the proleptic Gregorian calendar, and the
//! `YYYY-MM-DDTHH:MM:SS.sssZ` stamps runs are dated with.

use vstd::arithmetic::div_mod::{lemma_mod_mod, lemma_mod_multiples_vanish};
use vstd::prelude::*;
use vstd::string::*;

use crate::parse::{all_digits, digits_value, is_digit};
use crate::text::{chars_of, decimal, decimal_u64, digit, digit_char, lemma_lex_append, lemma_padded_len, lemma_padded_order, lex_less, opt_str, padded, pow10};

verus! {

// ---- the calendar ----

pub open spec fn leap(y: int) -> bool {
    y % 4 == 0 && (y % 100 != 0 || y % 400 == 0)
}

/// Days from the first day of the year 1 to the first day of the year `y`.
pub open spec fn days_before_year(y: int) -> int {
    365 * (y - 1) + (y - 1) / 4 - (y - 1) / 100 + (y - 1) / 400
}

/// Days of the year `y` before the month `m`.
pub open spec fn days_before_month(y: int, m: int) -> int {
    let plain: int = if m <= 1 { 0 } else if m == 2 { 31 } else if m == 3 { 59 } else if m == 4 { 90 } else if m == 5 { 120 }
        else if m == 6 { 151 } else if m == 7 { 181 } else if m == 8 { 212 } else if m == 9 { 243 } else if m == 10 { 273 }
        else if m == 11 { 304 } else { 334 };
    plain + if m > 2 && leap(y) { 1int } else { 0int }
}

pub open spec fn days_in_month(y: int, m: int) -> int {
    if m == 2 {
        if leap(y) { 29 } else { 28 }
    } else if m == 4 || m == 6 || m == 9 || m == 11 {
        30
    } else {
        31
    }
}

/// A date of the calendar.
pub open spec fn is_date(y: int, m: int, d: int) -> bool {
    1 <= m <= 12 && 1 <= d <= days_in_month(y, m)
}

/// Days from 1970-01-01 to the given date.
pub open spec fn epoch_days(y: int, m: int, d: int) -> int {
    days_before_year(y) - days_before_year(1970) + days_before_month(y, m) + d - 1
}

/// The years counted from the first of March: days from 0000-03-01 to the first of March of `y`.
spec fn march_days(y: int) -> int {
    365 * y + y / 4 - y / 100 + y / 400
}

proof fn lemma_step_4(y: int)
    ensures
        y / 4 - (y - 1) / 4 == if y % 4 == 0 { 1int } else { 0int },
{
}

proof fn lemma_step_100(y: int)
    ensures
        y / 100 - (y - 1) / 100 == if y % 100 == 0 { 1int } else { 0int },
        y % 100 == 0 ==> y % 4 == 0,
{
    if y % 100 == 0 {
        assert(y == 4 * (25 * (y / 100)));
    }
}

proof fn lemma_step_400(y: int)
    ensures
        y / 400 - (y - 1) / 400 == if y % 400 == 0 { 1int } else { 0int },
        y % 400 == 0 ==> y % 100 == 0,
{
    if y % 400 == 0 {
        assert(y == 100 * (4 * (y / 400)));
    }
}

proof fn lemma_leap_step(y: int)
    ensures
        y / 4 - (y - 1) / 4 - (y / 100 - (y - 1) / 100) + (y / 400 - (y - 1) / 400) == if leap(y) { 1int } else { 0int },
{
    lemma_step_4(y);
    lemma_step_100(y);
    lemma_step_400(y);
}

proof fn lemma_leap_repeats(y: int, era: int)
    ensures
        leap(y + 400 * era) == leap(y),
{
    lemma_mod_multiples_vanish(100 * era, y, 4);
    lemma_mod_multiples_vanish(4 * era, y, 100);
    lemma_mod_multiples_vanish(era, y, 400);
}

proof fn lemma_march(y: int, m: int, d: int)
    requires
        1 <= m <= 12,
    ensures
        m > 2 ==> epoch_days(y, m, d) == march_days(y) + (153 * (m - 3) + 2) / 5 + d - 1 - 719_468,
        m <= 2 ==> epoch_days(y, m, d) == march_days(y - 1) + (153 * (m + 9) + 2) / 5 + d - 1 - 719_468,
{
    lemma_leap_step(y);
    assert(days_before_year(1970) == 719_162);
    assert(march_days(y) - 365 - days_before_year(y) == if leap(y) { 1int } else { 0int });
}

proof fn lemma_era(y: int, era: int, yoe: int)
    requires
        y == 400 * era + yoe,
        0 <= yoe < 400,
    ensures
        march_days(y) == era * 146_097 + 365 * yoe + yoe / 4 - yoe / 100,
{
    assert(y / 4 == 100 * era + yoe / 4);
    assert(y / 100 == 4 * era + yoe / 100);
    assert(y / 400 == era);
}

/// The number of days from 1970-01-01 to a date. A day past the end of its month counts on into
/// the next.
pub fn days_from_civil(y: i64, m: i64, d: i64) -> (r: i64)
    requires
        1 <= m <= 12,
        -25_000_000_000_000_000 <= y <= 25_000_000_000_000_000,
        -1_000_000_000_000_000 <= d <= 1_000_000_000_000_000,
    ensures
        r == epoch_days(y as int, m as int, d as int),
{
    let y2: i64 = if m <= 2 { y - 1 } else { y };
    let era: i64 = if y2 >= 0 { y2 / 400 } else { -((399 - y2) / 400) };
    let yoe: i64 = y2 - era * 400;
    assert(0 <= yoe < 400);
    let mp: i64 = if m <= 2 { m + 9 } else { m - 3 };
    let doy: i64 = (153 * mp + 2) / 5 + d - 1;
    let doe: i64 = yoe * 365 + yoe / 4 - yoe / 100 + doy;
    proof {
        lemma_march(y as int, m as int, d as int);
        lemma_era(y2 as int, era as int, yoe as int);
    }
    era * 146_097 + doe - 719_468
}

proof fn lemma_year_of_era(doe: int)
    requires
        0 <= doe < 146_097,
    ensures
        ({
            let yoe = (doe - doe / 1460 + doe / 36_524 - doe / 146_096) / 365;
            &&& 0 <= yoe < 400
            &&& 365 * yoe + yoe / 4 - yoe / 100 <= doe
            &&& doe < 365 * (yoe + 1) + (yoe + 1) / 4 - (yoe + 1) / 100 + (yoe + 1) / 400
        }),
{
    if doe < 146_096 {
        // A century, a four-year span in it, and a year of that.
        let c = doe / 36_524;
        let r = doe % 36_524;
        let q = r / 1461;
        let s = r % 1461;
        let a = if s >= 1095 { 3 } else { s / 365 };
        assert(0 <= c <= 3 && 0 <= q <= 24 && 0 <= a <= 3);
        let over = if 24 * c + q + s >= 1460 { 1int } else { 0int };
        assert(doe == 1460 * (25 * c + q + over) + (24 * c + q + s - 1460 * over));
        assert(doe / 1460 == 25 * c + q + over);
        assert(doe - doe / 1460 + c == 365 * (100 * c + 4 * q + a) + (s - over - 365 * a));
        assert(0 <= s - over - 365 * a < 365);
        let yoe = 100 * c + 4 * q + a;
        assert((doe - doe / 1460 + doe / 36_524 - doe / 146_096) / 365 == yoe);
        assert(yoe / 4 == 25 * c + q);
        assert(yoe / 100 == c);
        assert((yoe + 1) / 4 == 25 * c + q + if a == 3 { 1int } else { 0int });
        assert((yoe + 1) / 100 == c + if a == 3 && q == 24 { 1int } else { 0int });
        assert((yoe + 1) / 400 == if a == 3 && q == 24 && c == 3 { 1int } else { 0int });
    }
}

/// The month and day of a day of a year counted from the first of March.
proof fn lemma_month_of_year(doy: int, y: int)
    requires
        0 <= doy <= 365,
        doy == 365 ==> leap(y + 1),
    ensures
        ({
            let mp = (5 * doy + 2) / 153;
            let d = doy - (153 * mp + 2) / 5 + 1;
            &&& 0 <= mp <= 11
            &&& mp < 10 ==> is_date(y, mp + 3, d)
            &&& mp >= 10 ==> is_date(y + 1, mp - 9, d)
        }),
{
}

/// The date that many days after 1970-01-01.
pub fn civil_from_days(z: i64) -> (r: (i64, u32, u32))
    requires
        z <= i64::MAX - 719_468,
        z >= i64::MIN + 146_096,
    ensures
        is_date(r.0 as int, r.1 as int, r.2 as int),
        epoch_days(r.0 as int, r.1 as int, r.2 as int) == z,
{
    let shifted: i64 = z + 719_468;
    let era: i64 = if shifted >= 0 { shifted / 146_097 } else { -((146_096 - shifted) / 146_097) };
    let doe: i64 = shifted - era * 146_097;
    assert(0 <= doe < 146_097);
    let yoe: i64 = (doe - doe / 1460 + doe / 36_524 - doe / 146_096) / 365;
    proof { lemma_year_of_era(doe as int); }
    let y: i64 = yoe + era * 400;
    let doy: i64 = doe - (365 * yoe + yoe / 4 - yoe / 100);
    proof {
        lemma_era(y as int, era as int, yoe as int);
        lemma_leap_repeats(yoe + 1, era as int);
        lemma_leap_step(yoe + 1);
        assert(y + 1 == yoe + 1 + 400 * era);
        lemma_month_of_year(doy as int, y as int);
    }
    let mp: i64 = (5 * doy + 2) / 153;
    let d: i64 = doy - (153 * mp + 2) / 5 + 1;
    let m: i64 = if mp < 10 { mp + 3 } else { mp - 9 };
    let y2: i64 = if m <= 2 { y + 1 } else { y };
    proof { lemma_march(y2 as int, m as int, d as int); }
    (y2, m as u32, d as u32)
}


proof fn lemma_year_span(y: int, m: int, d: int)
    requires
        is_date(y, m, d),
    ensures
        0 <= days_before_month(y, m) + d - 1 < days_before_year(y + 1) - days_before_year(y),
{
    lemma_leap_step(y);
    assert(days_before_year(y + 1) - days_before_year(y) == 365 + if leap(y) { 1int } else { 0int });
}

proof fn lemma_years_grow(a: int, b: int)
    requires
        a <= b,
    ensures
        days_before_year(a) <= days_before_year(b),
    decreases b - a,
{
    if a < b {
        lemma_years_grow(a, b - 1);
        lemma_leap_step(b - 1);
    }
}

/// Of two dates, the one that is later in the calendar is more days after 1970-01-01.
pub proof fn law_later_dates_are_more_days(y1: int, m1: int, d1: int, y2: int, m2: int, d2: int)
    requires
        is_date(y1, m1, d1),
        is_date(y2, m2, d2),
        y1 < y2 || (y1 == y2 && (m1 < m2 || (m1 == m2 && d1 < d2))),
    ensures
        epoch_days(y1, m1, d1) < epoch_days(y2, m2, d2),
{
    lemma_year_span(y1, m1, d1);
    lemma_year_span(y2, m2, d2);
    if y1 < y2 {
        lemma_years_grow(y1 + 1, y2);
    }
}

/// The date `days` days after 1970-01-01.
pub open spec fn date_of(days: int) -> (int, int, int) {
    choose|t: (int, int, int)| is_date(t.0, t.1, t.2) && #[trigger] epoch_days(t.0, t.1, t.2) == days
}

/// A date and its number of days determine each other.
pub proof fn law_dates_and_days_are_inverse(y: int, m: int, d: int)
    requires
        is_date(y, m, d),
    ensures
        date_of(epoch_days(y, m, d)) == (y, m, d),
{
    let days = epoch_days(y, m, d);
    let w = (y, m, d);
    assert(is_date(w.0, w.1, w.2) && epoch_days(w.0, w.1, w.2) == days);
    let t = date_of(days);
    assert(is_date(t.0, t.1, t.2) && epoch_days(t.0, t.1, t.2) == days);
    if t != (y, m, d) {
        if t.0 < y || (t.0 == y && (t.1 < m || (t.1 == m && t.2 < d))) {
            law_later_dates_are_more_days(t.0, t.1, t.2, y, m, d);
        } else {
            law_later_dates_are_more_days(y, m, d, t.0, t.1, t.2);
        }
    }
}

// ---- stamps ----

/// `n` in base ten with zeros in front up to four characters.
pub open spec fn year_text(n: nat) -> Seq<char> {
    if n < 10_000 {
        padded(n, 4)
    } else {
        decimal(n)
    }
}

/// The stamp of an instant, given in milliseconds since the Unix epoch.
pub open spec fn stamp(ms: nat) -> Seq<char> {
    let (y, m, d) = date_of((ms / 86_400_000) as int);
    let rest = ms % 86_400_000;
    year_text(y as nat) + seq!['-'] + padded(m as nat, 2) + seq!['-'] + padded(d as nat, 2) + seq!['T'] + padded(
        rest / 3_600_000,
        2,
    ) + seq![':'] + padded(rest % 3_600_000 / 60_000, 2) + seq![':'] + padded(rest % 60_000 / 1000, 2) + seq!['.'] + padded(
        rest % 1000,
        3,
    ) + seq!['Z']
}

fn push_padded(out: &mut String, n: u32, width: u32)
    ensures
        final(out)@ == old(out)@ + padded(n as nat, width as nat),
    decreases width,
{
    if width > 0 {
        push_padded(out, n / 10, width - 1);
        out.push(digit_char((n % 10) as u8));
        assert(out@ =~= old(out)@ + padded(n as nat, width as nat));
    } else {
        assert(out@ =~= old(out)@ + padded(n as nat, width as nat));
    }
}

/// The `YYYY-MM-DDTHH:MM:SS.sssZ` stamp of an instant in milliseconds since the Unix epoch.
pub fn format_iso8601(millis: u64) -> (r: String)
    ensures
        r@ == stamp(millis as nat),
{
    let days: u64 = millis / 86_400_000;
    let rest: u64 = millis % 86_400_000;
    let (year, month, day) = civil_from_days(days as i64);
    proof {
        law_dates_and_days_are_inverse(year as int, month as int, day as int);
        if year < 1970 {
            law_later_dates_are_more_days(year as int, month as int, day as int, 1970, 1, 1);
        }
    }
    let mut out = String::new();
    if year < 10_000 {
        push_padded(&mut out, year as u32, 4);
    } else {
        let text = decimal_u64(year as u64);
        out.append(&text);
    }
    assert(out@ =~= year_text(year as nat));
    out.push('-');
    push_padded(&mut out, month, 2);
    out.push('-');
    push_padded(&mut out, day, 2);
    out.push('T');
    push_padded(&mut out, (rest / 3_600_000) as u32, 2);
    out.push(':');
    push_padded(&mut out, (rest % 3_600_000 / 60_000) as u32, 2);
    out.push(':');
    push_padded(&mut out, (rest % 60_000 / 1000) as u32, 2);
    out.push('.');
    push_padded(&mut out, (rest % 1000) as u32, 3);
    out.push('Z');
    assert(out@ =~= stamp(millis as nat));
    out
}

/// `s` has the shape `YYYY-MM-DDTHH:MM:SS.sssZ`.
pub open spec fn stamp_shaped(s: Seq<char>) -> bool {
    &&& s.len() == 24
    &&& s[4] == '-' && s[7] == '-' && s[10] == 'T' && s[13] == ':' && s[16] == ':' && s[19] == '.' && s[23] == 'Z'
    &&& all_digits(s.subrange(0, 4))
    &&& all_digits(s.subrange(5, 7))
    &&& all_digits(s.subrange(8, 10))
    &&& all_digits(s.subrange(11, 13))
    &&& all_digits(s.subrange(14, 16))
    &&& all_digits(s.subrange(17, 19))
    &&& all_digits(s.subrange(20, 23))
}

/// The instant a stamp names, in milliseconds since the Unix epoch.
pub open spec fn stamp_ms(s: Seq<char>) -> Option<int> {
    let month = digits_value(s.subrange(5, 7));
    let day = digits_value(s.subrange(8, 10));
    let hour = digits_value(s.subrange(11, 13));
    let minute = digits_value(s.subrange(14, 16));
    let second = digits_value(s.subrange(17, 19));
    if stamp_shaped(s) && 1 <= month <= 12 && 1 <= day <= 31 && hour <= 23 && minute <= 59 && second <= 59 {
        Some(
            epoch_days(digits_value(s.subrange(0, 4)), month, day) * 86_400_000 + hour * 3_600_000 + minute * 60_000 + second
                * 1000 + digits_value(s.subrange(20, 23)),
        )
    } else {
        None
    }
}

fn number(chars: &Vec<char>, from: usize, to: usize) -> (r: Option<i64>)
    requires
        from <= to <= chars@.len(),
        to - from <= 4,
    ensures
        r is Some <==> all_digits(chars@.subrange(from as int, to as int)),
        r matches Some(v) ==> v == digits_value(chars@.subrange(from as int, to as int)) && 0 <= v < 10_000,
{
    let mut v: i64 = 0;
    let mut i: usize = from;
    let mut bound: Ghost<int> = Ghost(1);
    while i < to
        invariant
            from <= i <= to <= chars@.len(),
            to - from <= 4,
            all_digits(chars@.subrange(from as int, i as int)),
            v == digits_value(chars@.subrange(from as int, i as int)),
            0 <= v < bound@,
            i == from ==> bound@ == 1,
            i == from + 1 ==> bound@ == 10,
            i == from + 2 ==> bound@ == 100,
            i == from + 3 ==> bound@ == 1000,
            i == from + 4 ==> bound@ == 10_000,
        decreases to - i,
    {
        let c = chars[i];
        let ghost before = chars@.subrange(from as int, i as int);
        let ghost after = chars@.subrange(from as int, i + 1);
        assert(after.drop_last() =~= before);
        assert(after.last() == c);
        if c < '0' || c > '9' {
            assert(!is_digit(after[i - from]));
            assert(chars@.subrange(from as int, to as int)[i - from] == c);
            return None;
        }
        assert forall|j: int| 0 <= j < after.len() implies is_digit(#[trigger] after[j]) by {
            if j < before.len() {
                assert(after[j] == before[j]);
            }
        }
        v = v * 10 + (c as u32 as i64 - 48);
        bound = Ghost(bound@ * 10);
        i += 1;
    }
    Some(v)
}

/// Reads a `YYYY-MM-DDTHH:MM:SS.sssZ` stamp as milliseconds since the Unix epoch; `None` for
/// anything else.
pub fn parse_iso8601_ms(s: &str) -> (r: Option<i64>)
    ensures
        match r {
            Some(v) => stamp_ms(s@) == Some(v as int) && -100_000_000_000_000 < v < 300_000_000_000_000,
            None => stamp_ms(s@) is None,
        },
{
    let chars = chars_of(s);
    if chars.len() != 24 || chars[4] != '-' || chars[7] != '-' || chars[10] != 'T' || chars[13] != ':' || chars[16] != ':'
        || chars[19] != '.' || chars[23] != 'Z' {
        return None;
    }
    match (number(&chars, 0, 4), number(&chars, 5, 7), number(&chars, 8, 10), number(&chars, 11, 13), number(&chars, 14, 16),
        number(&chars, 17, 19), number(&chars, 20, 23)) {
        (Some(year), Some(month), Some(day), Some(hour), Some(minute), Some(second), Some(millis)) => {
            if month < 1 || month > 12 || day < 1 || day > 31 || hour > 23 || minute > 59 || second > 59 {
                return None;
            }
            let days: i64 = days_from_civil(year, month, day);
            proof {
                lemma_years_grow(0, year as int);
                lemma_years_grow(year as int, 10_000);
                assert(days_before_year(0) == -366);
                assert(days_before_year(10_000) == 3_652_059);
                assert(days_before_year(1970) == 719_162);
                assert(-800_000 <= days <= 3_000_000);
            }
            Some(days * 86_400_000 + hour * 3_600_000 + minute * 60_000 + second * 1000 + millis)
        },
        _ => None,
    }
}


// ---- elapsed time ----

/// Wall time a run has taken: still ticking against `now_ms` while it is live, frozen at `ended`
/// once it settles, and 0 when the start cannot be read.
pub open spec fn elapsed(started: Option<Seq<char>>, ended: Option<Seq<char>>, now_ms: int) -> int {
    match instant(started) {
        None => 0,
        Some(from) => {
            let to = match instant(ended) {
                Some(t) => t,
                None => now_ms,
            };
            if to - from > 0 {
                to - from
            } else {
                0
            }
        },
    }
}

pub open spec fn instant(s: Option<Seq<char>>) -> Option<int> {
    match s {
        Some(t) => stamp_ms(t),
        None => None,
    }
}

/// Wall time a run has taken, in milliseconds; never negative.
pub fn elapsed_ms(started: Option<&str>, ended: Option<&str>, now_ms: i64) -> (r: i64)
    requires
        instant(opt_str(started)) is Some && instant(opt_str(ended)) is None ==> i64::MIN <= now_ms - instant(opt_str(started))->0
            <= i64::MAX,
    ensures
        r == elapsed(opt_str(started), opt_str(ended), now_ms as int),
{
    let from: i64 = match started {
        Some(s) => match parse_iso8601_ms(s) {
            Some(v) => v,
            None => return 0,
        },
        None => return 0,
    };
    let end: Option<i64> = match ended {
        Some(e) => parse_iso8601_ms(e),
        None => None,
    };
    let to: i64 = match end {
        Some(v) => v,
        None => now_ms,
    };
    let span: i64 = to - from;
    if span > 0 {
        span
    } else {
        0
    }
}

/// A span in the largest two units that fit, the smaller one padded to two digits.
pub open spec fn elapsed_text(ms: int) -> Seq<char> {
    let secs: nat = if ms < 0 { 0 } else { (ms / 1000) as nat };
    let mins = secs / 60;
    if secs < 60 {
        decimal(secs) + seq!['s']
    } else if mins < 60 {
        decimal(mins) + seq!['m', ' '] + padded(secs % 60, 2) + seq!['s']
    } else {
        decimal(mins / 60) + seq!['h', ' '] + padded(mins % 60, 2) + seq!['m']
    }
}

/// `8s`, `1m 04s`, `2h 03m`: two units at most.
pub fn format_elapsed(ms: i64) -> (r: String)
    ensures
        r@ == elapsed_text(ms as int),
{
    let secs: u64 = if ms < 0 { 0 } else { (ms / 1000) as u64 };
    if secs < 60 {
        let mut out = decimal_u64(secs);
        out.push('s');
        assert(out@ =~= elapsed_text(ms as int));
        return out;
    }
    let mins: u64 = secs / 60;
    if mins < 60 {
        let mut out = decimal_u64(mins);
        out.push('m');
        out.push(' ');
        push_padded(&mut out, (secs % 60) as u32, 2);
        out.push('s');
        assert(out@ =~= elapsed_text(ms as int));
        return out;
    }
    let mut out = decimal_u64(mins / 60);
    out.push('h');
    out.push(' ');
    push_padded(&mut out, (mins % 60) as u32, 2);
    out.push('m');
    assert(out@ =~= elapsed_text(ms as int));
    out
}

// ---- laws ----

proof fn lemma_date_exists(z: int)
    ensures
        is_date(date_of(z).0, date_of(z).1, date_of(z).2),
        epoch_days(date_of(z).0, date_of(z).1, date_of(z).2) == z,
{
    let shifted = z + 719_468;
    let era = shifted / 146_097;
    let doe = shifted % 146_097;
    let yoe = (doe - doe / 1460 + doe / 36_524 - doe / 146_096) / 365;
    lemma_year_of_era(doe);
    let y = yoe + era * 400;
    let doy = doe - (365 * yoe + yoe / 4 - yoe / 100);
    lemma_era(y, era, yoe);
    lemma_leap_repeats(yoe + 1, era);
    lemma_leap_step(yoe + 1);
    assert(y + 1 == yoe + 1 + 400 * era);
    lemma_month_of_year(doy, y);
    let mp = (5 * doy + 2) / 153;
    let d = doy - (153 * mp + 2) / 5 + 1;
    let m = if mp < 10 { mp + 3 } else { mp - 9 };
    let y2 = if m <= 2 { y + 1 } else { y };
    lemma_march(y2, m, d);
    let t = (y2, m, d);
    assert(is_date(t.0, t.1, t.2) && epoch_days(t.0, t.1, t.2) == z);
}

proof fn lemma_padded_value(n: nat, w: nat)
    requires
        n < pow10(w),
    ensures
        all_digits(padded(n, w)),
        digits_value(padded(n, w)) == n,
        padded(n, w).len() == w,
    decreases w,
{
    if w > 0 {
        let v = (w - 1) as nat;
        lemma_padded_value(n / 10, v);
        let s = padded(n, w);
        assert(s.drop_last() =~= padded(n / 10, v));
        assert(s.last() == digit((n % 10) as int));
        assert forall|i: int| 0 <= i < s.len() implies is_digit(#[trigger] s[i]) by {
            if i < v {
                assert(s[i] == padded(n / 10, v)[i]);
            }
        }
    }
}

/// The instants whose year has four digits.
pub open spec fn four_digit_year(ms: nat) -> bool {
    ms < 253_402_300_800_000
}

proof fn lemma_stamp_fields(ms: nat)
    requires
        four_digit_year(ms),
    ensures
        ({
            let (y, m, d) = date_of((ms / 86_400_000) as int);
            &&& is_date(y, m, d)
            &&& epoch_days(y, m, d) == ms / 86_400_000
            &&& 1970 <= y < 10_000
            &&& pow10(2) == 100
            &&& pow10(3) == 1000
            &&& pow10(4) == 10_000
        }),
{
    let days = (ms / 86_400_000) as int;
    lemma_date_exists(days);
    let (y, m, d) = date_of(days);
    if y < 1970 {
        law_later_dates_are_more_days(y, m, d, 1970, 1, 1);
    }
    if y >= 10_000 {
        lemma_year_span(y, m, d);
        lemma_years_grow(10_000, y);
        assert(days_before_year(10_000) == 3_652_059);
        assert(days_before_year(1970) == 719_162);
    }
    reveal_with_fuel(pow10, 5);
}

proof fn lemma_time_of_day(rest: int)
    requires
        0 <= rest < 86_400_000,
    ensures
        0 <= rest / 3_600_000 < 24,
        0 <= rest % 3_600_000 / 60_000 < 60,
        0 <= rest % 60_000 / 1000 < 60,
        rest == rest / 3_600_000 * 3_600_000 + rest % 3_600_000 / 60_000 * 60_000 + rest % 60_000 / 1000 * 1000 + rest % 1000,
{
    lemma_mod_mod(rest, 60_000, 60);
    lemma_mod_mod(rest, 1000, 60);
}

/// Reading back the stamp of an instant gives the instant, for every year of four digits.
pub proof fn law_stamps_read_back(ms: nat)
    requires
        four_digit_year(ms),
    ensures
        stamp_ms(stamp(ms)) == Some(ms as int),
{
    let (y, m, d) = date_of((ms / 86_400_000) as int);
    let rest = ms % 86_400_000;
    lemma_stamp_fields(ms);
    let s = stamp(ms);
    let hh = rest / 3_600_000;
    let mi = rest % 3_600_000 / 60_000;
    let ss = rest % 60_000 / 1000;
    let ml = rest % 1000;
    lemma_padded_value(y as nat, 4);
    lemma_padded_value(m as nat, 2);
    lemma_padded_value(d as nat, 2);
    lemma_padded_value(hh, 2);
    lemma_padded_value(mi, 2);
    lemma_padded_value(ss, 2);
    lemma_padded_value(ml, 3);
    assert(s.subrange(0, 4) =~= padded(y as nat, 4));
    assert(s.subrange(5, 7) =~= padded(m as nat, 2));
    assert(s.subrange(8, 10) =~= padded(d as nat, 2));
    assert(s.subrange(11, 13) =~= padded(hh, 2));
    assert(s.subrange(14, 16) =~= padded(mi, 2));
    assert(s.subrange(17, 19) =~= padded(ss, 2));
    assert(s.subrange(20, 23) =~= padded(ml, 3));
    assert(s.len() == 24);
    lemma_time_of_day(rest as int);
}


/// One field after another: the first field that differs decides.
proof fn lemma_next_field(p: Seq<char>, q: Seq<char>, sep: char, n: nat, m: nat, w: nat)
    requires
        p.len() == q.len(),
        n < pow10(w),
        m < pow10(w),
        lex_less(p, q) || (p == q && n < m) || (p == q && n == m),
    ensures
        (p + seq![sep] + padded(n, w)).len() == (q + seq![sep] + padded(m, w)).len(),
        lex_less(p, q) || n < m ==> lex_less(p + seq![sep] + padded(n, w), q + seq![sep] + padded(m, w)),
        p == q && n == m ==> p + seq![sep] + padded(n, w) == q + seq![sep] + padded(m, w),
{
    lemma_padded_len(n, w);
    lemma_padded_len(m, w);
    if lex_less(p, q) {
        lemma_lex_append(p, q, seq![sep], seq![sep]);
        lemma_lex_append(p + seq![sep], q + seq![sep], padded(n, w), padded(m, w));
    } else if n < m {
        lemma_padded_order(n, m, w);
        lemma_lex_append(p + seq![sep], q + seq![sep], padded(n, w), padded(m, w));
    }
}

proof fn lemma_dates_sort(y1: int, m1: int, d1: int, y2: int, m2: int, d2: int)
    requires
        is_date(y1, m1, d1),
        is_date(y2, m2, d2),
        0 <= y1 < 10_000,
        0 <= y2 < 10_000,
        epoch_days(y1, m1, d1) < epoch_days(y2, m2, d2) || (y1, m1, d1) == (y2, m2, d2),
    ensures
        date_text(y1, m1, d1).len() == date_text(y2, m2, d2).len(),
        epoch_days(y1, m1, d1) < epoch_days(y2, m2, d2) ==> lex_less(date_text(y1, m1, d1), date_text(y2, m2, d2)),
{
    reveal_with_fuel(pow10, 5);
    lemma_padded_len(y1 as nat, 4);
    lemma_padded_len(y2 as nat, 4);
    let p0 = padded(y1 as nat, 4);
    let q0 = padded(y2 as nat, 4);
    if epoch_days(y1, m1, d1) < epoch_days(y2, m2, d2) {
        if y2 < y1 || (y2 == y1 && (m2 < m1 || (m2 == m1 && d2 < d1))) {
            law_later_dates_are_more_days(y2, m2, d2, y1, m1, d1);
        }
        assert(y1 < y2 || (y1 == y2 && (m1 < m2 || (m1 == m2 && d1 < d2))));
    }
    if y1 < y2 {
        lemma_padded_order(y1 as nat, y2 as nat, 4);
    }
    lemma_next_field(p0, q0, '-', m1 as nat, m2 as nat, 2);
    let p1 = p0 + seq!['-'] + padded(m1 as nat, 2);
    let q1 = q0 + seq!['-'] + padded(m2 as nat, 2);
    lemma_next_field(p1, q1, '-', d1 as nat, d2 as nat, 2);
}

spec fn date_text(y: int, m: int, d: int) -> Seq<char> {
    padded(y as nat, 4) + seq!['-'] + padded(m as nat, 2) + seq!['-'] + padded(d as nat, 2)
}

spec fn time_text(p: Seq<char>, h: nat, mi: nat, s: nat, ml: nat) -> Seq<char> {
    p + seq!['T'] + padded(h, 2) + seq![':'] + padded(mi, 2) + seq![':'] + padded(s, 2) + seq!['.'] + padded(ml, 3) + seq!['Z']
}

proof fn lemma_times_sort(p: Seq<char>, q: Seq<char>, h1: nat, i1: nat, s1: nat, l1: nat, h2: nat, i2: nat, s2: nat, l2: nat)
    requires
        p.len() == q.len(),
        h1 < 60 && i1 < 60 && s1 < 60 && l1 < 1000,
        h2 < 60 && i2 < 60 && s2 < 60 && l2 < 1000,
        lex_less(p, q) || (p == q && h1 * 3_600_000 + i1 * 60_000 + s1 * 1000 + l1 < h2 * 3_600_000 + i2 * 60_000 + s2 * 1000 + l2),
    ensures
        lex_less(time_text(p, h1, i1, s1, l1), time_text(q, h2, i2, s2, l2)),
{
    reveal_with_fuel(pow10, 5);
    if !lex_less(p, q) {
        assert(h1 < h2 || (h1 == h2 && (i1 < i2 || (i1 == i2 && (s1 < s2 || (s1 == s2 && l1 < l2))))));
    }
    lemma_next_field(p, q, 'T', h1, h2, 2);
    let p3 = p + seq!['T'] + padded(h1, 2);
    let q3 = q + seq!['T'] + padded(h2, 2);
    lemma_next_field(p3, q3, ':', i1, i2, 2);
    let p4 = p3 + seq![':'] + padded(i1, 2);
    let q4 = q3 + seq![':'] + padded(i2, 2);
    lemma_next_field(p4, q4, ':', s1, s2, 2);
    let p5 = p4 + seq![':'] + padded(s1, 2);
    let q5 = q4 + seq![':'] + padded(s2, 2);
    lemma_next_field(p5, q5, '.', l1, l2, 3);
    let p6 = p5 + seq!['.'] + padded(l1, 3);
    let q6 = q5 + seq!['.'] + padded(l2, 3);
    lemma_lex_append(p6, q6, seq!['Z'], seq!['Z']);
}

/// Stamps sort as the instants they name do.
pub proof fn law_stamps_sort_by_time(a: nat, b: nat)
    requires
        a < b,
        four_digit_year(b),
    ensures
        lex_less(stamp(a), stamp(b)),
{
    let (y1, m1, d1) = date_of((a / 86_400_000) as int);
    let (y2, m2, d2) = date_of((b / 86_400_000) as int);
    lemma_stamp_fields(a);
    lemma_stamp_fields(b);
    let r1 = a % 86_400_000;
    let r2 = b % 86_400_000;
    assert(a / 86_400_000 < b / 86_400_000 || (a / 86_400_000 == b / 86_400_000 && r1 < r2));
    lemma_dates_sort(y1, m1, d1, y2, m2, d2);
    lemma_time_of_day(r1 as int);
    lemma_time_of_day(r2 as int);
    let p = date_text(y1, m1, d1);
    let q = date_text(y2, m2, d2);
    assert(stamp(a) == time_text(p, r1 / 3_600_000, r1 % 3_600_000 / 60_000, r1 % 60_000 / 1000, r1 % 1000));
    assert(stamp(b) == time_text(q, r2 / 3_600_000, r2 % 3_600_000 / 60_000, r2 % 60_000 / 1000, r2 % 1000));
    lemma_times_sort(p, q, r1 / 3_600_000, r1 % 3_600_000 / 60_000, r1 % 60_000 / 1000, r1 % 1000,
        r2 / 3_600_000, r2 % 3_600_000 / 60_000, r2 % 60_000 / 1000, r2 % 1000);
}

/// The count of days begins with the first of January 1970.
pub proof fn law_the_count_begins_in_1970()
    ensures
        epoch_days(1970, 1, 1) == 0,
        date_of(0) == (1970int, 1int, 1int),
{
    law_dates_and_days_are_inverse(1970, 1, 1);
}

/// Days follow each other: the day after a date is the next of its month, the first of the next
/// month after a month's last day, and the first of January after a year's.
pub proof fn law_days_follow_each_other(y: int, m: int, d: int)
    requires
        is_date(y, m, d),
    ensures
        d < days_in_month(y, m) ==> epoch_days(y, m, d + 1) == epoch_days(y, m, d) + 1,
        d == days_in_month(y, m) && m < 12 ==> epoch_days(y, m + 1, 1) == epoch_days(y, m, d) + 1,
        d == days_in_month(y, m) && m == 12 ==> epoch_days(y + 1, 1, 1) == epoch_days(y, m, d) + 1,
{
    lemma_leap_step(y);
}

/// Months have the days that the calendar gives them, and February one more in a leap year: every
/// fourth year is one, but of the full centuries only every fourth.
pub proof fn law_months_have_their_days(y: int)
    ensures
        days_in_month(y, 1) == 31 && days_in_month(y, 3) == 31 && days_in_month(y, 5) == 31 && days_in_month(y, 7) == 31,
        days_in_month(y, 8) == 31 && days_in_month(y, 10) == 31 && days_in_month(y, 12) == 31,
        days_in_month(y, 4) == 30 && days_in_month(y, 6) == 30 && days_in_month(y, 9) == 30 && days_in_month(y, 11) == 30,
        y % 4 != 0 ==> days_in_month(y, 2) == 28,
        y % 4 == 0 && y % 100 != 0 ==> days_in_month(y, 2) == 29,
        y % 100 == 0 && y % 400 != 0 ==> days_in_month(y, 2) == 28,
        y % 400 == 0 ==> days_in_month(y, 2) == 29,
{
    lemma_step_100(y);
    lemma_step_400(y);
}

/// A number that fits is written with as many digits as asked for, and is read back.
pub proof fn law_filled_up_numbers_read_back(n: nat, w: nat)
    requires
        n < pow10(w),
    ensures
        padded(n, w).len() == w,
        all_digits(padded(n, w)),
        digits_value(padded(n, w)) == n,
{
    lemma_padded_value(n, w);
}

/// A stamp is the date and the time in the common form: year, month and day with dashes, a `T`, the
/// hour, minute and second with colons, the milliseconds behind a dot, and a `Z`.
pub proof fn law_stamps_have_the_common_form(ms: nat)
    requires
        four_digit_year(ms),
    ensures
        ({
            let s = stamp(ms);
            let days = (ms / 86_400_000) as int;
            let rest = (ms % 86_400_000) as int;
            &&& s.len() == 24
            &&& s[4] == '-' && s[7] == '-' && s[10] == 'T' && s[13] == ':' && s[16] == ':' && s[19] == '.' && s[23] == 'Z'
            &&& digits_value(s.subrange(0, 4)) == date_of(days).0
            &&& digits_value(s.subrange(5, 7)) == date_of(days).1
            &&& digits_value(s.subrange(8, 10)) == date_of(days).2
            &&& digits_value(s.subrange(11, 13)) == rest / 3_600_000
            &&& digits_value(s.subrange(14, 16)) == rest % 3_600_000 / 60_000
            &&& digits_value(s.subrange(17, 19)) == rest % 60_000 / 1000
            &&& digits_value(s.subrange(20, 23)) == rest % 1000
        }),
{
    lemma_stamp_fields(ms);
    let (y, m, d) = date_of((ms / 86_400_000) as int);
    let rest = ms % 86_400_000;
    lemma_time_of_day(rest as int);
    lemma_padded_value(y as nat, 4);
    lemma_padded_value(m as nat, 2);
    lemma_padded_value(d as nat, 2);
    lemma_padded_value(rest / 3_600_000, 2);
    lemma_padded_value(rest % 3_600_000 / 60_000, 2);
    lemma_padded_value(rest % 60_000 / 1000, 2);
    lemma_padded_value(rest % 1000, 3);
    let s = stamp(ms);
    assert(s.subrange(0, 4) =~= padded(y as nat, 4));
    assert(s.subrange(5, 7) =~= padded(m as nat, 2));
    assert(s.subrange(8, 10) =~= padded(d as nat, 2));
    assert(s.subrange(11, 13) =~= padded(rest / 3_600_000, 2));
    assert(s.subrange(14, 16) =~= padded(rest % 3_600_000 / 60_000, 2));
    assert(s.subrange(17, 19) =~= padded(rest % 60_000 / 1000, 2));
    assert(s.subrange(20, 23) =~= padded(rest % 1000, 3));
}

/// What has elapsed is the time between the two stamps, the time until now where there is no end
/// yet, and never less than nothing.
pub proof fn law_elapsed_is_the_time_between(a: nat, b: nat, now_ms: int)
    requires
        four_digit_year(a),
        four_digit_year(b),
    ensures
        a <= b ==> elapsed(Some(stamp(a)), Some(stamp(b)), now_ms) == b - a,
        b < a ==> elapsed(Some(stamp(a)), Some(stamp(b)), now_ms) == 0,
        a <= now_ms ==> elapsed(Some(stamp(a)), None, now_ms) == now_ms - a,
        now_ms < a ==> elapsed(Some(stamp(a)), None, now_ms) == 0,
        elapsed(None, Some(stamp(b)), now_ms) == 0,
{
    law_stamps_read_back(a);
    law_stamps_read_back(b);
}

/// A span is told by its two greatest units: seconds alone below a minute, minutes and seconds below
/// an hour, hours and minutes from there on.
pub proof fn law_spans_are_told_by_two_units(h: nat, m: nat, s: nat, ms: nat)
    requires
        m < 60,
        s < 60,
        ms < 1000,
    ensures
        ({
            let span = (((h * 60 + m) * 60 + s) * 1000 + ms) as int;
            &&& h == 0 && m == 0 ==> elapsed_text(span) == decimal(s) + "s"@
            &&& h == 0 && m > 0 ==> elapsed_text(span) == decimal(m) + "m "@ + padded(s, 2) + "s"@
            &&& h > 0 ==> elapsed_text(span) == decimal(h) + "h "@ + padded(m, 2) + "m"@
        }),
{
    reveal_strlit("s");
    reveal_strlit("m ");
    reveal_strlit("h ");
    reveal_strlit("m");
    let secs: nat = (h * 60 + m) * 60 + s;
    let span = (secs * 1000 + ms) as int;
    assert(span / 1000 == secs);
    assert(secs / 60 == h * 60 + m && secs % 60 == s);
    assert((h * 60 + m) / 60 == h && (h * 60 + m) % 60 == m);
    assert("s"@ =~= seq!['s']);
    assert("m "@ =~= seq!['m', ' ']);
    assert("h "@ =~= seq!['h', ' ']);
    assert("m"@ =~= seq!['m']);
}

/// Only stamps are read: what is not in the common form is none, and neither is a thirteenth month, a
/// thirty-second day, a twenty-fifth hour, or a sixty-first minute or second; what is in the form
/// and in range is one.
pub proof fn law_only_stamps_are_read(s: Seq<char>)
    ensures
        s.len() != 24 ==> stamp_ms(s) is None,
        s.len() == 24 && (s[4] != '-' || s[7] != '-' || s[10] != 'T' || s[13] != ':' || s[16] != ':' || s[19] != '.' || s[23] != 'Z')
            ==> stamp_ms(s) is None,
        digits_value(s.subrange(5, 7)) > 12 || digits_value(s.subrange(5, 7)) < 1 ==> stamp_ms(s) is None,
        digits_value(s.subrange(8, 10)) > 31 || digits_value(s.subrange(8, 10)) < 1 ==> stamp_ms(s) is None,
        digits_value(s.subrange(11, 13)) > 23 ==> stamp_ms(s) is None,
        digits_value(s.subrange(14, 16)) > 59 || digits_value(s.subrange(17, 19)) > 59 ==> stamp_ms(s) is None,
{
}

}
