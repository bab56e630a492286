use vstd::prelude::*;
use crate::chars::{str_chars, chars_to_string, is_digit_char, digit_val};
use crate::num::digit_char;

verus! {

// ---------------------------------------------------------------------------
// The civil calendar, counted in days since 1970-01-01.
// ---------------------------------------------------------------------------

pub open spec fn is_leap_year(y: int) -> bool {
    y % 4 == 0 && (y % 100 != 0 || y % 400 == 0)
}

pub open spec fn days_in_month_s(y: int, m: int) -> int {
    if m == 1 || m == 3 || m == 5 || m == 7 || m == 8 || m == 10 || m == 12 {
        31
    } else if m == 4 || m == 6 || m == 9 || m == 11 {
        30
    } else if m == 2 {
        if is_leap_year(y) {
            29
        } else {
            28
        }
    } else {
        0
    }
}

pub open spec fn days_in_year_s(y: int) -> int {
    if is_leap_year(y) {
        366
    } else {
        365
    }
}

/// Days from 1970-01-01 to the first day of year `y`.
pub open spec fn days_before_year(y: int) -> int
    decreases y,
{
    if y <= 1970 {
        0
    } else {
        days_before_year(y - 1) + days_in_year_s(y - 1)
    }
}

/// Days from the first day of year `y` to the first day of its month `m`.
pub open spec fn days_before_month(y: int, m: int) -> int
    decreases m,
{
    if m <= 1 {
        0
    } else {
        days_before_month(y, m - 1) + days_in_month_s(y, m - 1)
    }
}

/// Days since 1970-01-01 of a civil date.
pub open spec fn civil_days(y: int, m: int, d: int) -> int {
    days_before_year(y) + days_before_month(y, m) + d - 1
}

pub open spec fn date_wf(y: int, m: int, d: int) -> bool {
    1970 <= y <= 9999 && 1 <= m <= 12 && 1 <= d <= days_in_month_s(y, m)
}

proof fn lemma_dby_mono(a: int, b: int)
    requires
        a <= b,
    ensures
        days_before_year(a) <= days_before_year(b),
    decreases b - a,
{
    if a < b {
        lemma_dby_mono(a, b - 1);
    }
}

proof fn lemma_dby_upper(y: int)
    requires
        y >= 1970,
    ensures
        days_before_year(y) <= (y - 1970) * 366,
    decreases y,
{
    if y > 1970 {
        lemma_dby_upper(y - 1);
        assert((y - 1 - 1970) * 366 + 366 == (y - 1970) * 366) by (nonlinear_arith);
    }
}

proof fn lemma_dbm_year(y: int)
    ensures
        days_before_month(y, 13) == days_in_year_s(y),
{
    reveal_with_fuel(days_before_month, 14);
}

proof fn lemma_dbm_bounds(y: int, m: int)
    requires
        1 <= m <= 13,
    ensures
        0 <= days_before_month(y, m) <= 366,
        m <= 12 ==> days_before_month(y, m) + days_in_month_s(y, m) <= days_in_year_s(y),
{
    reveal_with_fuel(days_before_month, 14);
}

/// The year that day `g` falls in.
pub open spec fn find_year(g: int, y: int) -> int
    decreases 10000 - y,
{
    if y >= 9999 {
        9999
    } else if g < days_before_year(y + 1) {
        y
    } else {
        find_year(g, y + 1)
    }
}

/// The month of year `y` that the year-relative day `r` falls in.
pub open spec fn find_month(y: int, r: int, m: int) -> int
    decreases 13 - m,
{
    if m >= 12 {
        12
    } else if r < days_before_month(y, m + 1) {
        m
    } else {
        find_month(y, r, m + 1)
    }
}

/// The civil date of day `g`.
pub open spec fn civil_of_days(g: int) -> (int, int, int) {
    let y = find_year(g, 1970);
    let r = g - days_before_year(y);
    let m = find_month(y, r, 1);
    (y, m, r - days_before_month(y, m) + 1)
}

// ---------------------------------------------------------------------------
// The calendar value: a civil date, a time of day, and the fixed offset of
// the zone it is expressed in.
// ---------------------------------------------------------------------------

/// A moment of civil time in a fixed zone.
#[derive(Debug, Clone, Copy, PartialEq, Eq, Structural)]
pub struct Calendar {
    pub y: i32,
    pub mo: u8,
    pub d: u8,
    pub h: u8,
    pub mi: u8,
    pub s: u8,
    pub offset: i32,
}

pub open spec fn calendar_wf(c: Calendar) -> bool {
    date_wf(c.y as int, c.mo as int, c.d as int) && c.h < 24 && c.mi < 60 && c.s < 60 && -86400
        < c.offset < 86400
}

/// Local seconds since the epoch of the zone.
pub open spec fn civil_secs(c: Calendar) -> int {
    civil_days(c.y as int, c.mo as int, c.d as int) * 86400 + c.h * 3600 + c.mi * 60 + c.s
}

/// The UTC timestamp of the moment.
pub open spec fn cal_ts(c: Calendar) -> int {
    civil_secs(c) - c.offset
}

/// The timestamps that the calendar's year range can carry at an offset.
pub open spec fn ts_in_range(ts: int, off: int) -> bool {
    0 <= ts + off < days_before_year(10000) * 86400
}

/// The calendar moment of a timestamp under an offset.
pub open spec fn cal_of_ts(ts: int, off: int) -> Calendar {
    let ls = ts + off;
    let g = ls / 86400;
    let sec = ls % 86400;
    let ymd = civil_of_days(g);
    Calendar {
        y: ymd.0 as i32,
        mo: ymd.1 as u8,
        d: ymd.2 as u8,
        h: (sec / 3600) as u8,
        mi: ((sec % 3600) / 60) as u8,
        s: (sec % 60) as u8,
        offset: off as i32,
    }
}

/// The epoch moment, used when a timestamp falls outside the supported
/// range.
pub open spec fn epoch_cal(off: int) -> Calendar {
    Calendar { y: 1970, mo: 1, d: 1, h: 0, mi: 0, s: 0, offset: off as i32 }
}

/// A date with the time of day replaced, as the range helpers produce it.
pub open spec fn date_at(g: int, h: int, mi: int, s: int, off: int) -> Calendar {
    let ymd = civil_of_days(g);
    Calendar {
        y: ymd.0 as i32,
        mo: ymd.1 as u8,
        d: ymd.2 as u8,
        h: h as u8,
        mi: mi as u8,
        s: s as u8,
        offset: off as i32,
    }
}

/// Monday-based weekday of day `g` (1970-01-01 was a Thursday).
pub open spec fn weekday_of(g: int) -> int {
    (g + 3) % 7
}

// ---------------------------------------------------------------------------
// Executable civil arithmetic.
// ---------------------------------------------------------------------------

fn leap(y: i32) -> (r: bool)
    ensures
        r == is_leap_year(y as int),
{
    y % 4 == 0 && (y % 100 != 0 || y % 400 == 0)
}

pub(crate) fn days_in_month_x(y: i32, m: u8) -> (r: u8)
    ensures
        r == days_in_month_s(y as int, m as int),
{
    if m == 1 || m == 3 || m == 5 || m == 7 || m == 8 || m == 10 || m == 12 {
        31
    } else if m == 4 || m == 6 || m == 9 || m == 11 {
        30
    } else if m == 2 {
        if leap(y) {
            29
        } else {
            28
        }
    } else {
        0
    }
}

fn days_in_year_x(y: i32) -> (r: u16)
    ensures
        r == days_in_year_s(y as int),
{
    if leap(y) {
        366
    } else {
        365
    }
}

pub(crate) fn days_before_year_x(y: i32) -> (r: i64)
    requires
        1970 <= y <= 10000,
    ensures
        r == days_before_year(y as int),
        0 <= r <= (y - 1970) * 366,
{
    let mut acc: i64 = 0;
    let mut yy: i32 = 1970;
    while yy < y
        invariant
            1970 <= yy <= y <= 10000,
            acc == days_before_year(yy as int),
            0 <= acc <= (yy - 1970) * 366,
        decreases y - yy,
    {
        proof {
            assert((yy - 1970) * 366 + 366 == (yy + 1 - 1970) * 366) by (nonlinear_arith);
        }
        acc = acc + days_in_year_x(yy) as i64;
        yy = yy + 1;
    }
    proof {
        lemma_dby_upper(y as int);
    }
    acc
}

fn days_before_month_x(y: i32, m: u8) -> (r: i64)
    requires
        1 <= m <= 13,
    ensures
        r == days_before_month(y as int, m as int),
        0 <= r <= 366,
{
    let mut acc: i64 = 0;
    let mut mm: u8 = 1;
    while mm < m
        invariant
            1 <= mm <= m <= 13,
            acc == days_before_month(y as int, mm as int),
            0 <= acc <= 366,
        decreases m - mm,
    {
        proof {
            lemma_dbm_bounds(y as int, mm as int + 1);
            assert(days_before_month(y as int, mm as int + 1) == days_before_month(
                y as int,
                mm as int,
            ) + days_in_month_s(y as int, mm as int));
        }
        acc = acc + days_in_month_x(y, mm) as i64;
        mm = mm + 1;
    }
    acc
}

/// The civil date of day `g`, matching `civil_of_days`.
pub(crate) fn civil_from_days(g: i64) -> (r: (i32, u8, u8))
    requires
        0 <= g < days_before_year(10000),
    ensures
        civil_of_days(g as int) == (r.0 as int, r.1 as int, r.2 as int),
        date_wf(r.0 as int, r.1 as int, r.2 as int),
        civil_days(r.0 as int, r.1 as int, r.2 as int) == g,
{
    let mut y: i32 = 1970;
    let mut rem: i64 = g;
    while rem >= days_in_year_x(y) as i64
        invariant
            1970 <= y <= 9999,
            rem == g - days_before_year(y as int),
            rem >= 0,
            g < days_before_year(10000),
            find_year(g as int, 1970) == find_year(g as int, y as int),
        decreases rem,
    {
        proof {
            assert(days_before_year(y as int + 1) == days_before_year(y as int) + days_in_year_s(
                y as int,
            ));
            if y + 1 >= 10000 {
                lemma_dby_mono(10000, y as int + 1);
                assert(false);
            }
        }
        rem = rem - days_in_year_x(y) as i64;
        y = y + 1;
    }
    proof {
        assert(days_before_year(y as int + 1) == days_before_year(y as int) + days_in_year_s(
            y as int,
        ));
        assert(find_year(g as int, y as int) == y as int);
    }
    let ghost rem0 = rem as int;
    let mut m: u8 = 1;
    while rem >= days_in_month_x(y, m) as i64
        invariant
            1 <= m <= 12,
            rem == rem0 - days_before_month(y as int, m as int),
            rem >= 0,
            rem0 < days_in_year_s(y as int),
            rem0 == g - days_before_year(y as int),
            1970 <= y <= 9999,
            find_month(y as int, rem0, 1) == find_month(y as int, rem0, m as int),
        decreases 12 - m,
    {
        proof {
            assert(days_before_month(y as int, m as int + 1) == days_before_month(
                y as int,
                m as int,
            ) + days_in_month_s(y as int, m as int));
            if m as int + 1 > 12 {
                lemma_dbm_year(y as int);
                assert(false);
            }
        }
        rem = rem - days_in_month_x(y, m) as i64;
        m = m + 1;
    }
    proof {
        assert(days_before_month(y as int, m as int + 1) == days_before_month(y as int, m as int)
            + days_in_month_s(y as int, m as int));
        assert(find_month(y as int, rem0, m as int) == m as int);
        lemma_dbm_bounds(y as int, m as int);
    }
    let d: u8 = (rem + 1) as u8;
    (y, m, d)
}

// ---------------------------------------------------------------------------
// Rendering: zero-padded date and time text.
// ---------------------------------------------------------------------------

pub open spec fn pad2(n: int) -> Seq<char> {
    seq![digit_char(n / 10 % 10), digit_char(n % 10)]
}

pub open spec fn pad4(n: int) -> Seq<char> {
    seq![
        digit_char(n / 1000 % 10),
        digit_char(n / 100 % 10),
        digit_char(n / 10 % 10),
        digit_char(n % 10),
    ]
}

pub open spec fn spec_format_date(c: Calendar) -> Seq<char> {
    pad4(c.y as int) + seq!['-'] + pad2(c.mo as int) + seq!['-'] + pad2(c.d as int)
}

pub open spec fn spec_format_time(c: Calendar) -> Seq<char> {
    pad2(c.h as int) + seq![':'] + pad2(c.mi as int) + seq![':'] + pad2(c.s as int)
}

pub open spec fn spec_format_datetime(c: Calendar) -> Seq<char> {
    spec_format_date(c) + seq![' '] + spec_format_time(c)
}

fn push_pad2(n: u8, out: &mut Vec<char>)
    requires
        n < 100,
    ensures
        final(out)@ == old(out)@ + pad2(n as int),
{
    out.push((48 + n / 10) as char);
    out.push((48 + n % 10) as char);
    proof {
        assert(out@ =~= old(out)@ + pad2(n as int));
    }
}

fn push_pad4(n: i32, out: &mut Vec<char>)
    requires
        0 <= n < 10000,
    ensures
        final(out)@ == old(out)@ + pad4(n as int),
{
    out.push((48 + n / 1000) as u8 as char);
    out.push((48 + n / 100 % 10) as u8 as char);
    out.push((48 + n / 10 % 10) as u8 as char);
    out.push((48 + n % 10) as u8 as char);
    proof {
        assert(out@ =~= old(out)@ + pad4(n as int));
    }
}

// ---------------------------------------------------------------------------
// Reading the fixed date and time formats.
// ---------------------------------------------------------------------------

/// The fields of a `YYYY-MM-DD HH:MM:SS` text, when it is exactly that.
pub open spec fn spec_parse_dt(s: Seq<char>) -> Option<(int, int, int, int, int, int)> {
    if s.len() == 19 && is_digit_char(s[0]) && is_digit_char(s[1]) && is_digit_char(s[2])
        && is_digit_char(s[3]) && s[4] == '-' && is_digit_char(s[5]) && is_digit_char(s[6]) && s[7]
        == '-' && is_digit_char(s[8]) && is_digit_char(s[9]) && s[10] == ' ' && is_digit_char(
        s[11],
    ) && is_digit_char(s[12]) && s[13] == ':' && is_digit_char(s[14]) && is_digit_char(s[15])
        && s[16] == ':' && is_digit_char(s[17]) && is_digit_char(s[18]) {
        Some(
            (
                digit_val(s[0]) * 1000 + digit_val(s[1]) * 100 + digit_val(s[2]) * 10 + digit_val(
                    s[3],
                ),
                digit_val(s[5]) * 10 + digit_val(s[6]),
                digit_val(s[8]) * 10 + digit_val(s[9]),
                digit_val(s[11]) * 10 + digit_val(s[12]),
                digit_val(s[14]) * 10 + digit_val(s[15]),
                digit_val(s[17]) * 10 + digit_val(s[18]),
            ),
        )
    } else {
        None
    }
}

/// The fields of a `YYYY-MM-DD` text, when it is exactly that.
pub open spec fn spec_parse_date(s: Seq<char>) -> Option<(int, int, int)> {
    if s.len() == 10 && is_digit_char(s[0]) && is_digit_char(s[1]) && is_digit_char(s[2])
        && is_digit_char(s[3]) && s[4] == '-' && is_digit_char(s[5]) && is_digit_char(s[6]) && s[7]
        == '-' && is_digit_char(s[8]) && is_digit_char(s[9]) {
        Some(
            (
                digit_val(s[0]) * 1000 + digit_val(s[1]) * 100 + digit_val(s[2]) * 10 + digit_val(
                    s[3],
                ),
                digit_val(s[5]) * 10 + digit_val(s[6]),
                digit_val(s[8]) * 10 + digit_val(s[9]),
            ),
        )
    } else {
        None
    }
}

/// What `datetime_to_timestamp` returns: the timestamp of a well-formed
/// in-range moment, and zero for anything else.
pub open spec fn spec_dt_ts(s: Seq<char>, off: int) -> int {
    match spec_parse_dt(s) {
        Some(f) => if date_wf(f.0, f.1, f.2) && f.3 < 24 && f.4 < 60 && f.5 < 60 {
            civil_days(f.0, f.1, f.2) * 86400 + f.3 * 3600 + f.4 * 60 + f.5 - off
        } else {
            0
        },
        None => 0,
    }
}

pub open spec fn spec_date_ts(s: Seq<char>, off: int) -> int {
    match spec_parse_date(s) {
        Some(f) => if date_wf(f.0, f.1, f.2) {
            civil_days(f.0, f.1, f.2) * 86400 - off
        } else {
            0
        },
        None => 0,
    }
}

fn digit_at(t: &Vec<char>, i: usize) -> (r: Option<u16>)
    requires
        i < t@.len(),
    ensures
        match r {
            Some(v) => is_digit_char(t@[i as int]) && v == digit_val(t@[i as int]) && v <= 9,
            None => !is_digit_char(t@[i as int]),
        },
{
    let c = t[i];
    if '0' <= c && c <= '9' {
        Some((c as u8 - 48) as u16)
    } else {
        None
    }
}

/// Read a `YYYY-MM-DD HH:MM:SS` text as a timestamp under the given zone
/// offset; anything malformed or out of range reads as zero.
pub fn datetime_to_timestamp(s: &str, offset_seconds: i32) -> (r: i64)
    ensures
        r == spec_dt_ts(s@, offset_seconds as int),
{
    let t = str_chars(s);
    if t.len() != 19 {
        return 0;
    }
    let d0 = digit_at(&t, 0);
    let d1 = digit_at(&t, 1);
    let d2 = digit_at(&t, 2);
    let d3 = digit_at(&t, 3);
    let d5 = digit_at(&t, 5);
    let d6 = digit_at(&t, 6);
    let d8 = digit_at(&t, 8);
    let d9 = digit_at(&t, 9);
    let d11 = digit_at(&t, 11);
    let d12 = digit_at(&t, 12);
    let d14 = digit_at(&t, 14);
    let d15 = digit_at(&t, 15);
    let d17 = digit_at(&t, 17);
    let d18 = digit_at(&t, 18);
    if t[4] != '-' || t[7] != '-' || t[10] != ' ' || t[13] != ':' || t[16] != ':' {
        return 0;
    }
    match (d0, d1, d2, d3, d5, d6, d8, d9, d11, d12, d14, d15, d17, d18) {
        (
            Some(a0),
            Some(a1),
            Some(a2),
            Some(a3),
            Some(b0),
            Some(b1),
            Some(c0),
            Some(c1),
            Some(e0),
            Some(e1),
            Some(f0),
            Some(f1),
            Some(g0),
            Some(g1),
        ) => {
            let y: i32 = (a0 * 1000 + a1 * 100 + a2 * 10 + a3) as i32;
            let mo: u8 = (b0 * 10 + b1) as u8;
            let d: u8 = (c0 * 10 + c1) as u8;
            let h: u8 = (e0 * 10 + e1) as u8;
            let mi: u8 = (f0 * 10 + f1) as u8;
            let sec: u8 = (g0 * 10 + g1) as u8;
            if !(1970 <= y && y <= 9999) {
                return 0;
            }
            if !(1 <= mo && mo <= 12) {
                return 0;
            }
            if !(1 <= d && d <= days_in_month_x(y, mo)) {
                return 0;
            }
            if !(h < 24 && mi < 60 && sec < 60) {
                return 0;
            }
            let days = days_before_year_x(y) + days_before_month_x(y, mo) + d as i64 - 1;
            days * 86400 + h as i64 * 3600 + mi as i64 * 60 + sec as i64 - offset_seconds as i64
        },
        _ => 0,
    }
}

/// Read a `YYYY-MM-DD` text as the timestamp of its midnight under the
/// given zone offset; anything malformed reads as zero.
pub fn date_to_timestamp(s: &str, offset_seconds: i32) -> (r: i64)
    ensures
        r == spec_date_ts(s@, offset_seconds as int),
{
    let t = str_chars(s);
    if t.len() != 10 {
        return 0;
    }
    let d0 = digit_at(&t, 0);
    let d1 = digit_at(&t, 1);
    let d2 = digit_at(&t, 2);
    let d3 = digit_at(&t, 3);
    let d5 = digit_at(&t, 5);
    let d6 = digit_at(&t, 6);
    let d8 = digit_at(&t, 8);
    let d9 = digit_at(&t, 9);
    if t[4] != '-' || t[7] != '-' {
        return 0;
    }
    match (d0, d1, d2, d3, d5, d6, d8, d9) {
        (Some(a0), Some(a1), Some(a2), Some(a3), Some(b0), Some(b1), Some(c0), Some(c1)) => {
            let y: i32 = (a0 * 1000 + a1 * 100 + a2 * 10 + a3) as i32;
            let mo: u8 = (b0 * 10 + b1) as u8;
            let d: u8 = (c0 * 10 + c1) as u8;
            if !(1970 <= y && y <= 9999) {
                return 0;
            }
            if !(1 <= mo && mo <= 12) {
                return 0;
            }
            if !(1 <= d && d <= days_in_month_x(y, mo)) {
                return 0;
            }
            let days = days_before_year_x(y) + days_before_month_x(y, mo) + d as i64 - 1;
            days * 86400 - offset_seconds as i64
        },
        _ => 0,
    }
}

// ---------------------------------------------------------------------------
// The current moment, from the system clock.
// ---------------------------------------------------------------------------

/// Relies on chrono's Local::now().timestamp(): the current UTC timestamp
/// in whole seconds.  Nothing is promised of the clock's reading.
#[verifier::external_body]
pub fn local_timestamp() -> i64 {
    chrono::Local::now().timestamp()
}

/// Relies on chrono's FixedOffset::local_minus_utc: the local zone offset
/// in seconds, strictly within one day of UTC.
#[verifier::external_body]
fn local_offset_seconds() -> (r: i32)
    ensures
        -86400 < r < 86400,
{
    chrono::Local::now().offset().local_minus_utc()
}

/// The current local moment, as text `YYYY-MM-DD HH:MM:SS` (empty when the
/// clock reads outside the supported years).
pub fn local_datetime() -> (r: String)
    ensures
        exists|ts: int, off: int| (-86400 < off && off < 86400) && r@ == spec_ts_datetime(ts, off),
{
    let ts = local_timestamp();
    let off = local_offset_seconds();
    let r = timestamp_to_datetime(ts, off);
    proof {
        let ghost offi: int = off as int;
        assert(-86400 < offi && offi < 86400);
        assert(r@ == spec_ts_datetime(ts as int, offi));
    }
    r
}

/// What the timestamp renderers produce.
pub open spec fn spec_ts_datetime(ts: int, off: int) -> Seq<char> {
    if ts_in_range(ts, off) {
        spec_format_datetime(cal_of_ts(ts, off))
    } else {
        Seq::<char>::empty()
    }
}

pub open spec fn spec_ts_date(ts: int, off: int) -> Seq<char> {
    if ts_in_range(ts, off) {
        spec_format_date(cal_of_ts(ts, off))
    } else {
        Seq::<char>::empty()
    }
}

pub open spec fn spec_ts_time(ts: int, off: int) -> Seq<char> {
    if ts_in_range(ts, off) {
        spec_format_time(cal_of_ts(ts, off))
    } else {
        Seq::<char>::empty()
    }
}

/// Render a timestamp as `YYYY-MM-DD HH:MM:SS` in the given zone.
pub fn timestamp_to_datetime(timestamp: i64, offset_seconds: i32) -> (r: String)
    requires
        -86400 < offset_seconds < 86400,
    ensures
        r@ == spec_ts_datetime(timestamp as int, offset_seconds as int),
{
    match checked_cal(timestamp, offset_seconds) {
        Some(c) => c.format_datetime(),
        None => String::new(),
    }
}

/// Render a timestamp as `YYYY-MM-DD` in the given zone.
pub fn timestamp_to_date(timestamp: i64, offset_seconds: i32) -> (r: String)
    requires
        -86400 < offset_seconds < 86400,
    ensures
        r@ == spec_ts_date(timestamp as int, offset_seconds as int),
{
    match checked_cal(timestamp, offset_seconds) {
        Some(c) => c.format_date(),
        None => String::new(),
    }
}

/// Render a timestamp as `HH:MM:SS` in the given zone.
pub fn timestamp_to_time(timestamp: i64, offset_seconds: i32) -> (r: String)
    requires
        -86400 < offset_seconds < 86400,
    ensures
        r@ == spec_ts_time(timestamp as int, offset_seconds as int),
{
    match checked_cal(timestamp, offset_seconds) {
        Some(c) => c.format_time(),
        None => String::new(),
    }
}

/// The calendar moment of an in-range timestamp.
fn checked_cal(ts: i64, off: i32) -> (r: Option<Calendar>)
    requires
        -86400 < off < 86400,
    ensures
        match r {
            Some(c) => ts_in_range(ts as int, off as int) && c == cal_of_ts(ts as int, off as int)
                && calendar_wf(c) && cal_ts(c) == ts,
            None => !ts_in_range(ts as int, off as int),
        },
{
    if ts < -86400 || ts > 300_000_000_000i64 {
        proof {
            if ts > 300_000_000_000i64 {
                lemma_dby_upper(10000);
                assert(days_before_year(10000) * 86400 <= 8030 * 366 * 86400) by (nonlinear_arith)
                    requires
                        days_before_year(10000) <= 8030 * 366,
                ;
            }
        }
        return None;
    }
    let ls: i64 = ts + off as i64;
    if ls < 0 {
        return None;
    }
    let days: i64 = ls / 86400;
    let sec: i64 = ls % 86400;
    let maxd = days_before_year_x(10000);
    if days >= maxd {
        proof {
            assert(ls >= days_before_year(10000) * 86400) by (nonlinear_arith)
                requires
                    ls / 86400 >= days_before_year(10000),
                    ls >= 0,
            ;
        }
        return None;
    }
    let (y, mo, d) = civil_from_days(days);
    let h: u8 = (sec / 3600) as u8;
    let mi: u8 = ((sec % 3600) / 60) as u8;
    let s: u8 = (sec % 60) as u8;
    let c = Calendar { y, mo, d, h, mi, s, offset: off };
    proof {
        assert(ls == days * 86400 + sec);
        assert(c == cal_of_ts(ts as int, off as int));
        assert(sec as int == (sec as int / 3600) * 3600 + ((sec as int % 3600) / 60) * 60 + sec
            as int % 60) by (nonlinear_arith)
            requires
                0 <= sec < 86400,
        ;
        assert(civil_secs(c) == ls);
        assert(cal_ts(c) == ts);
    }
    Some(c)
}

// ---------------------------------------------------------------------------
// Calendar methods.
// ---------------------------------------------------------------------------

impl Calendar {
    /// The current local moment (the epoch moment if the clock reads
    /// outside the supported years).
    pub fn now() -> (r: Calendar)
        ensures
            calendar_wf(r),
    {
        let ts = local_timestamp();
        let off = local_offset_seconds();
        Self::from_timestamp(ts, off)
    }

    /// The moment of a timestamp in the given zone (the epoch moment when
    /// out of range).
    pub fn from_timestamp(timestamp: i64, offset_seconds: i32) -> (r: Calendar)
        requires
            -86400 < offset_seconds < 86400,
        ensures
            calendar_wf(r),
            r.offset == offset_seconds,
            ts_in_range(timestamp as int, offset_seconds as int) ==> r == cal_of_ts(
                timestamp as int,
                offset_seconds as int,
            ) && cal_ts(r) == timestamp,
            !ts_in_range(timestamp as int, offset_seconds as int) ==> r == epoch_cal(
                offset_seconds as int,
            ),
    {
        match checked_cal(timestamp, offset_seconds) {
            Some(c) => c,
            None => Calendar { y: 1970, mo: 1, d: 1, h: 0, mi: 0, s: 0, offset: offset_seconds },
        }
    }

    /// A moment from its civil fields.
    pub fn from_datetime(
        year: i32,
        month: u8,
        day: u8,
        hour: u8,
        minute: u8,
        second: u8,
        offset_seconds: i32,
    ) -> (r: Calendar)
        requires
            date_wf(year as int, month as int, day as int),
            hour < 24,
            minute < 60,
            second < 60,
            -86400 < offset_seconds < 86400,
        ensures
            r == (Calendar {
                y: year,
                mo: month,
                d: day,
                h: hour,
                mi: minute,
                s: second,
                offset: offset_seconds,
            }),
            calendar_wf(r),
    {
        Calendar { y: year, mo: month, d: day, h: hour, mi: minute, s: second, offset: offset_seconds }
    }

    /// A moment from `YYYY-MM-DD HH:MM:SS` or `YYYY-MM-DD` text.
    pub fn from_datetime_str(datetime: &str, offset_seconds: i32) -> (r: Calendar)
        requires
            -86400 < offset_seconds < 86400,
        ensures
            calendar_wf(r),
    {
        let t = str_chars(datetime);
        let mut has_space = false;
        let mut i: usize = 0;
        while i < t.len()
            invariant
                i <= t@.len(),
            decreases t@.len() - i,
        {
            if t[i] == ' ' {
                has_space = true;
            }
            i = i + 1;
        }
        let ts = if has_space {
            datetime_to_timestamp(datetime, offset_seconds)
        } else {
            date_to_timestamp(datetime, offset_seconds)
        };
        Self::from_timestamp(ts, offset_seconds)
    }

    pub fn year(&self) -> (r: i32)
        ensures
            r == self.y,
    {
        self.y
    }

    pub fn month(&self) -> (r: u32)
        ensures
            r == self.mo,
    {
        self.mo as u32
    }

    pub fn day(&self) -> (r: u32)
        ensures
            r == self.d,
    {
        self.d as u32
    }

    pub fn hour(&self) -> (r: u32)
        ensures
            r == self.h,
    {
        self.h as u32
    }

    pub fn minute(&self) -> (r: u32)
        ensures
            r == self.mi,
    {
        self.mi as u32
    }

    pub fn second(&self) -> (r: u32)
        ensures
            r == self.s,
    {
        self.s as u32
    }

    /// Days since 1970-01-01 of this moment's date.
    pub(crate) fn days(&self) -> (r: i64)
        requires
            calendar_wf(*self),
        ensures
            r == civil_days(self.y as int, self.mo as int, self.d as int),
            0 <= r < days_before_year(10000),
            r <= 2_940_000,
    {
        proof {
            lemma_dby_mono(self.y as int + 1, 10000);
            assert(days_before_year(self.y as int + 1) == days_before_year(self.y as int)
                + days_in_year_s(self.y as int));
            lemma_dbm_year(self.y as int);
            lemma_dbm_bounds(self.y as int, self.mo as int);
            lemma_dby_upper(self.y as int);
            assert((self.y - 1970) * 366 <= 8029 * 366) by (nonlinear_arith)
                requires
                    self.y <= 9999,
            ;
        }
        let a = days_before_year_x(self.y);
        let b = days_before_month_x(self.y, self.mo);
        proof {
            assert(days_before_month(self.y as int, self.mo as int) + days_in_month_s(
                self.y as int,
                self.mo as int,
            ) <= days_in_year_s(self.y as int));
        }
        a + b + self.d as i64 - 1
    }

    /// The UTC timestamp of this moment.
    pub fn timestamp(&self) -> (r: i64)
        requires
            calendar_wf(*self),
        ensures
            r == cal_ts(*self),
    {
        let days = self.days();
        days * 86400 + self.h as i64 * 3600 + self.mi as i64 * 60 + self.s as i64
            - self.offset as i64
    }

    /// `YYYY-MM-DD HH:MM:SS`.
    pub fn format_datetime(&self) -> (r: String)
        requires
            calendar_wf(*self),
        ensures
            r@ == spec_format_datetime(*self),
    {
        let mut out: Vec<char> = Vec::new();
        push_pad4(self.y, &mut out);
        out.push('-');
        push_pad2(self.mo, &mut out);
        out.push('-');
        push_pad2(self.d, &mut out);
        out.push(' ');
        push_pad2(self.h, &mut out);
        out.push(':');
        push_pad2(self.mi, &mut out);
        out.push(':');
        push_pad2(self.s, &mut out);
        proof {
            assert(out@ =~= spec_format_datetime(*self));
        }
        chars_to_string(&out)
    }

    /// `YYYY-MM-DD`.
    pub fn format_date(&self) -> (r: String)
        requires
            calendar_wf(*self),
        ensures
            r@ == spec_format_date(*self),
    {
        let mut out: Vec<char> = Vec::new();
        push_pad4(self.y, &mut out);
        out.push('-');
        push_pad2(self.mo, &mut out);
        out.push('-');
        push_pad2(self.d, &mut out);
        proof {
            assert(out@ =~= spec_format_date(*self));
        }
        chars_to_string(&out)
    }

    /// `HH:MM:SS`.
    pub fn format_time(&self) -> (r: String)
        requires
            calendar_wf(*self),
        ensures
            r@ == spec_format_time(*self),
    {
        let mut out: Vec<char> = Vec::new();
        push_pad2(self.h, &mut out);
        out.push(':');
        push_pad2(self.mi, &mut out);
        out.push(':');
        push_pad2(self.s, &mut out);
        proof {
            assert(out@ =~= spec_format_time(*self));
        }
        chars_to_string(&out)
    }

    /// The start of the day `days` days away.
    pub fn days_beg(&self, days: i32) -> (r: Calendar)
        requires
            calendar_wf(*self),
            0 <= civil_days(self.y as int, self.mo as int, self.d as int) + days
                < days_before_year(10000),
        ensures
            r == date_at(
                civil_days(self.y as int, self.mo as int, self.d as int) + days,
                0,
                0,
                0,
                self.offset as int,
            ),
            civil_days(r.y as int, r.mo as int, r.d as int) == civil_days(
                self.y as int,
                self.mo as int,
                self.d as int,
            ) + days,
            calendar_wf(r),
    {
        let g = self.days() + days as i64;
        let (y, mo, d) = civil_from_days(g);
        Calendar { y, mo, d, h: 0, mi: 0, s: 0, offset: self.offset }
    }

    /// The end of the day `days` days away.
    pub fn days_end(&self, days: i32) -> (r: Calendar)
        requires
            calendar_wf(*self),
            0 <= civil_days(self.y as int, self.mo as int, self.d as int) + days
                < days_before_year(10000),
        ensures
            r == date_at(
                civil_days(self.y as int, self.mo as int, self.d as int) + days,
                23,
                59,
                59,
                self.offset as int,
            ),
            civil_days(r.y as int, r.mo as int, r.d as int) == civil_days(
                self.y as int,
                self.mo as int,
                self.d as int,
            ) + days,
            calendar_wf(r),
    {
        let g = self.days() + days as i64;
        let (y, mo, d) = civil_from_days(g);
        Calendar { y, mo, d, h: 23, mi: 59, s: 59, offset: self.offset }
    }

    /// The start of this moment's week (Monday).
    pub fn week_beg(&self) -> (r: Calendar)
        requires
            calendar_wf(*self),
            civil_days(self.y as int, self.mo as int, self.d as int) >= 6,
        ensures
            r == date_at(
                civil_days(self.y as int, self.mo as int, self.d as int) - weekday_of(
                    civil_days(self.y as int, self.mo as int, self.d as int),
                ),
                0,
                0,
                0,
                self.offset as int,
            ),
            calendar_wf(r),
    {
        let g = self.days();
        let w = (g + 3) % 7;
        let (y, mo, d) = civil_from_days(g - w);
        Calendar { y, mo, d, h: 0, mi: 0, s: 0, offset: self.offset }
    }

    /// The end of this moment's week (Sunday).
    pub fn week_end(&self) -> (r: Calendar)
        requires
            calendar_wf(*self),
            civil_days(self.y as int, self.mo as int, self.d as int) + 6 < days_before_year(10000),
        ensures
            r == date_at(
                civil_days(self.y as int, self.mo as int, self.d as int) + 6 - weekday_of(
                    civil_days(self.y as int, self.mo as int, self.d as int),
                ),
                23,
                59,
                59,
                self.offset as int,
            ),
            calendar_wf(r),
    {
        let g = self.days();
        let w = (g + 3) % 7;
        let (y, mo, d) = civil_from_days(g + (6 - w));
        Calendar { y, mo, d, h: 23, mi: 59, s: 59, offset: self.offset }
    }

    /// The start of this moment's month.
    pub fn month_beg(&self) -> (r: Calendar)
        requires
            calendar_wf(*self),
        ensures
            r == (Calendar {
                y: self.y,
                mo: self.mo,
                d: 1,
                h: 0,
                mi: 0,
                s: 0,
                offset: self.offset,
            }),
            calendar_wf(r),
    {
        Calendar { y: self.y, mo: self.mo, d: 1, h: 0, mi: 0, s: 0, offset: self.offset }
    }

    /// The end of this moment's month.
    pub fn month_end(&self) -> (r: Calendar)
        requires
            calendar_wf(*self),
        ensures
            r == (Calendar {
                y: self.y,
                mo: self.mo,
                d: days_in_month_s(self.y as int, self.mo as int) as u8,
                h: 23,
                mi: 59,
                s: 59,
                offset: self.offset,
            }),
            calendar_wf(r),
    {
        let dim = days_in_month_x(self.y, self.mo);
        Calendar { y: self.y, mo: self.mo, d: dim, h: 23, mi: 59, s: 59, offset: self.offset }
    }

    /// The first day of this moment's year.
    pub fn year_beg(&self) -> (r: Calendar)
        requires
            calendar_wf(*self),
        ensures
            r == (Calendar { y: self.y, mo: 1, d: 1, h: 0, mi: 0, s: 0, offset: self.offset }),
            calendar_wf(r),
    {
        Calendar { y: self.y, mo: 1, d: 1, h: 0, mi: 0, s: 0, offset: self.offset }
    }

    /// The last day of this moment's year.
    pub fn year_end(&self) -> (r: Calendar)
        requires
            calendar_wf(*self),
        ensures
            r == (Calendar { y: self.y, mo: 12, d: 31, h: 23, mi: 59, s: 59, offset: self.offset }),
            calendar_wf(r),
    {
        Calendar { y: self.y, mo: 12, d: 31, h: 23, mi: 59, s: 59, offset: self.offset }
    }

    /// The start of the first day of the month `months` months away.  A
    /// non-negative shift approximates a month as thirty days; a negative
    /// shift walks the civil months and keeps the day meanwhile, so the
    /// current day must exist in the target month.
    pub fn months_beg(&self, months: i32) -> (r: Calendar)
        requires
            calendar_wf(*self),
            months >= 0 ==> civil_days(self.y as int, self.mo as int, self.d as int) + 30 * months
                < days_before_year(10000),
            months < 0 ==> months_shift_ok(*self, months as int),
        ensures
            months >= 0 ==> r == month_first_at(
                civil_days(self.y as int, self.mo as int, self.d as int) + 30 * months,
                self.offset as int,
            ),
            months < 0 ==> r == (Calendar {
                y: norm_ym(self.y as int, self.mo + months as int).0 as i32,
                mo: norm_ym(self.y as int, self.mo + months as int).1 as u8,
                d: 1,
                h: 0,
                mi: 0,
                s: 0,
                offset: self.offset,
            }),
            calendar_wf(r),
    {
        if months >= 0 {
            let g = self.days() + 30i64 * months as i64;
            let (y, mo, _d) = civil_from_days(g);
            Calendar { y, mo, d: 1, h: 0, mi: 0, s: 0, offset: self.offset }
        } else {
            let (y2, m2) = norm_months(self.y, self.mo, months);
            Calendar { y: y2, mo: m2, d: 1, h: 0, mi: 0, s: 0, offset: self.offset }
        }
    }

    /// The last day of the month `months` months away, by the same walk as
    /// `months_beg`.
    pub fn months_end(&self, months: i32) -> (r: Calendar)
        requires
            calendar_wf(*self),
            months >= 0 ==> civil_days(self.y as int, self.mo as int, self.d as int) + 30 * months
                < days_before_year(10000),
            months < 0 ==> months_shift_ok(*self, months as int),
        ensures
            months >= 0 ==> r == month_last_at(
                civil_days(self.y as int, self.mo as int, self.d as int) + 30 * months,
                self.offset as int,
            ),
            months < 0 ==> r == ({
                let ym = norm_ym(self.y as int, self.mo + months as int);
                Calendar {
                    y: ym.0 as i32,
                    mo: ym.1 as u8,
                    d: days_in_month_s(ym.0, ym.1) as u8,
                    h: 23,
                    mi: 59,
                    s: 59,
                    offset: self.offset,
                }
            }),
            calendar_wf(r),
    {
        if months >= 0 {
            let g = self.days() + 30i64 * months as i64;
            let (y, mo, _d) = civil_from_days(g);
            let dim = days_in_month_x(y, mo);
            Calendar { y, mo, d: dim, h: 23, mi: 59, s: 59, offset: self.offset }
        } else {
            let (y2, m2) = norm_months(self.y, self.mo, months);
            let dim = days_in_month_x(y2, m2);
            Calendar { y: y2, mo: m2, d: dim, h: 23, mi: 59, s: 59, offset: self.offset }
        }
    }

    /// The first day of the year `years` years away.  The walk keeps the
    /// current date meanwhile, so a leap day needs a leap target year.
    pub fn years_beg(&self, years: i32) -> (r: Calendar)
        requires
            calendar_wf(*self),
            1970 <= self.y + years <= 9999,
            self.mo == 2 && self.d == 29 ==> is_leap_year(self.y + years),
        ensures
            r == (Calendar {
                y: (self.y + years) as i32,
                mo: 1,
                d: 1,
                h: 0,
                mi: 0,
                s: 0,
                offset: self.offset,
            }),
            calendar_wf(r),
    {
        Calendar { y: self.y + years, mo: 1, d: 1, h: 0, mi: 0, s: 0, offset: self.offset }
    }

    /// The last day of the year `years` years away, under the same caveat
    /// as `years_beg`.
    pub fn years_end(&self, years: i32) -> (r: Calendar)
        requires
            calendar_wf(*self),
            1970 <= self.y + years <= 9999,
            self.mo == 2 && self.d == 29 ==> is_leap_year(self.y + years),
        ensures
            r == (Calendar {
                y: (self.y + years) as i32,
                mo: 12,
                d: 31,
                h: 23,
                mi: 59,
                s: 59,
                offset: self.offset,
            }),
            calendar_wf(r),
    {
        Calendar { y: self.y + years, mo: 12, d: 31, h: 23, mi: 59, s: 59, offset: self.offset }
    }
}

/// Month-and-year normalisation for a negative month shift: walk back
/// whole years while the month number is non-positive.
pub open spec fn norm_ym(y: int, m: int) -> (int, int)
    decreases 13 - m,
{
    if m <= 0 {
        norm_ym(y - 1, m + 12)
    } else {
        (y, m)
    }
}

/// A negative month shift is allowed when the target month exists in the
/// supported years, the current day exists in the target month, and a leap
/// day keeps a leap year on the way.
pub open spec fn months_shift_ok(c: Calendar, months: int) -> bool {
    let ym = norm_ym(c.y as int, c.mo + months);
    1970 <= ym.0 <= 9999 && 1 <= ym.1 <= 12 && c.d <= days_in_month_s(ym.0, ym.1) && (c.mo == 2
        && c.d == 29 ==> is_leap_year(ym.0))
}

/// The first day of the month that day `g` falls in, at midnight.
pub open spec fn month_first_at(g: int, off: int) -> Calendar {
    let ymd = civil_of_days(g);
    Calendar { y: ymd.0 as i32, mo: ymd.1 as u8, d: 1, h: 0, mi: 0, s: 0, offset: off as i32 }
}

/// The last day of the month that day `g` falls in, at one second to
/// midnight.
pub open spec fn month_last_at(g: int, off: int) -> Calendar {
    let ymd = civil_of_days(g);
    Calendar {
        y: ymd.0 as i32,
        mo: ymd.1 as u8,
        d: days_in_month_s(ymd.0, ymd.1) as u8,
        h: 23,
        mi: 59,
        s: 59,
        offset: off as i32,
    }
}

fn norm_months(y: i32, mo: u8, months: i32) -> (r: (i32, u8))
    requires
        1 <= mo <= 12,
        months < 0,
        1970 <= norm_ym(y as int, mo + months as int).0 <= 9999,
        1 <= norm_ym(y as int, mo + months as int).1 <= 12,
    ensures
        r.0 == norm_ym(y as int, mo + months as int).0,
        r.1 == norm_ym(y as int, mo + months as int).1,
{
    let mut yy: i64 = y as i64;
    let mut mm: i64 = mo as i64 + months as i64;
    while mm <= 0
        invariant
            norm_ym(y as int, mo + months as int) == norm_ym(yy as int, mm as int),
            mm <= 12,
            12 * (y as i64 - yy) == mm - (mo as i64 + months as i64),
            yy >= y as i64 - 200_000_000,
        decreases 13 - mm,
    {
        mm = mm + 12;
        yy = yy - 1;
    }
    proof {
        assert(norm_ym(yy as int, mm as int) == (yy as int, mm as int));
    }
    ((yy) as i32, mm as u8)
}

/// The normalised year never sits above the starting year.
proof fn lemma_norm_ym_bounds(y: int, m: int)
    ensures
        norm_ym(y, m).0 <= y,
        m >= 1 ==> norm_ym(y, m) == (y, m),
    decreases 13 - m,
{
    if m <= 0 {
        lemma_norm_ym_bounds(y - 1, m + 12);
    }
}


// ---------------------------------------------------------------------------
// Named date ranges.
// ---------------------------------------------------------------------------

/// A reporting period, either named relative to a current moment or given
/// as a custom pair of texts.
#[derive(Debug, Clone, PartialEq, Eq)]
pub enum DateRange {
    Custom(String, String),
    CurrentWeek,
    CurrentMonth,
    CurrentYear,
    PreviousWeek,
    PreviousMonth,
    PreviousYear,
    Last7Days,
    Last14Days,
    Last30Days,
}

impl vstd::std_specs::convert::FromSpecImpl<&str> for DateRange {
    open spec fn obeys_from_spec() -> bool {
        false
    }

    open spec fn from_spec(v: &str) -> DateRange {
        arbitrary()
    }
}

impl From<&str> for DateRange {
    fn from(value: &str) -> (r: Self) {
        let cv = str_chars(value);
        if cv.len() == 1 {
            let c = cv[0];
            if c == '1' {
                return DateRange::CurrentWeek;
            }
            if c == '2' {
                return DateRange::CurrentMonth;
            }
            if c == '3' {
                return DateRange::CurrentYear;
            }
            if c == '4' {
                return DateRange::PreviousWeek;
            }
            if c == '5' {
                return DateRange::PreviousMonth;
            }
            if c == '6' {
                return DateRange::PreviousYear;
            }
            if c == '7' {
                return DateRange::Last7Days;
            }
            if c == '8' {
                return DateRange::Last14Days;
            }
            if c == '9' {
                return DateRange::Last30Days;
            }
        }
        DateRange::Custom(String::new(), String::new())
    }
}

/// The day number of a moment's date.
pub open spec fn cal_days(c: Calendar) -> int {
    civil_days(c.y as int, c.mo as int, c.d as int)
}

/// Every well-formed moment's date sits inside the supported day range.
proof fn lemma_cal_days_bound(c: Calendar)
    requires
        calendar_wf(c),
    ensures
        0 <= cal_days(c) < days_before_year(10000),
{
    lemma_dby_mono(1970, c.y as int);
    lemma_dby_mono(c.y as int + 1, 10000);
    assert(days_before_year(c.y as int + 1) == days_before_year(c.y as int) + days_in_year_s(
        c.y as int,
    ));
    lemma_dbm_year(c.y as int);
    lemma_dbm_bounds(c.y as int, c.mo as int);
}

/// When a range may be computed from a moment: the walks it performs stay
/// inside the supported years and keep the day valid.
pub open spec fn range_ok(dr: DateRange, now: Calendar) -> bool {
    calendar_wf(now) && (match dr {
        DateRange::Custom(_, _) => true,
        DateRange::CurrentWeek => cal_days(now) >= 6 && cal_days(now) + 6 < days_before_year(
            10000,
        ),
        DateRange::CurrentMonth => true,
        DateRange::CurrentYear => true,
        DateRange::PreviousWeek => cal_days(now) >= 13,
        DateRange::PreviousMonth => months_shift_ok(now, -1),
        DateRange::PreviousYear => 1970 <= now.y - 1 && (now.mo == 2 && now.d == 29
            ==> is_leap_year(now.y - 1)),
        DateRange::Last7Days => cal_days(now) >= 7,
        DateRange::Last14Days => cal_days(now) >= 14,
        DateRange::Last30Days => cal_days(now) >= 30,
    })
}

/// The pair of texts a range denotes at a moment.
pub open spec fn spec_get_range(dr: DateRange, now: Calendar) -> (Seq<char>, Seq<char>) {
    let g = cal_days(now);
    let off = now.offset as int;
    match dr {
        DateRange::Custom(a, b) => (a@, b@),
        DateRange::CurrentWeek => (
            spec_format_datetime(date_at(g - weekday_of(g), 0, 0, 0, off)),
            spec_format_datetime(date_at(g + 6 - weekday_of(g), 23, 59, 59, off)),
        ),
        DateRange::CurrentMonth => (
            spec_format_datetime(
                Calendar { y: now.y, mo: now.mo, d: 1, h: 0, mi: 0, s: 0, offset: now.offset },
            ),
            spec_format_datetime(
                Calendar {
                    y: now.y,
                    mo: now.mo,
                    d: days_in_month_s(now.y as int, now.mo as int) as u8,
                    h: 23,
                    mi: 59,
                    s: 59,
                    offset: now.offset,
                },
            ),
        ),
        DateRange::CurrentYear => (
            spec_format_datetime(
                Calendar { y: now.y, mo: 1, d: 1, h: 0, mi: 0, s: 0, offset: now.offset },
            ),
            spec_format_datetime(
                Calendar { y: now.y, mo: 12, d: 31, h: 23, mi: 59, s: 59, offset: now.offset },
            ),
        ),
        DateRange::PreviousWeek => (
            spec_format_datetime(date_at(g - 7 - weekday_of(g - 7), 0, 0, 0, off)),
            spec_format_datetime(date_at(g - 7 + 6 - weekday_of(g - 7), 23, 59, 59, off)),
        ),
        DateRange::PreviousMonth => (
            spec_format_datetime(
                {
                    let ym = norm_ym(now.y as int, now.mo - 1);
                    Calendar {
                        y: ym.0 as i32,
                        mo: ym.1 as u8,
                        d: 1,
                        h: 0,
                        mi: 0,
                        s: 0,
                        offset: now.offset,
                    }
                },
            ),
            spec_format_datetime(
                {
                    let ym = norm_ym(now.y as int, now.mo - 1);
                    Calendar {
                        y: ym.0 as i32,
                        mo: ym.1 as u8,
                        d: days_in_month_s(ym.0, ym.1) as u8,
                        h: 23,
                        mi: 59,
                        s: 59,
                        offset: now.offset,
                    }
                },
            ),
        ),
        DateRange::PreviousYear => (
            spec_format_datetime(
                Calendar { y: (now.y - 1) as i32, mo: 1, d: 1, h: 0, mi: 0, s: 0, offset: now.offset },
            ),
            spec_format_datetime(
                Calendar {
                    y: (now.y - 1) as i32,
                    mo: 12,
                    d: 31,
                    h: 23,
                    mi: 59,
                    s: 59,
                    offset: now.offset,
                },
            ),
        ),
        DateRange::Last7Days => (
            spec_format_datetime(date_at(g - 7, 0, 0, 0, off)),
            spec_format_datetime(date_at(g, 23, 59, 59, off)),
        ),
        DateRange::Last14Days => (
            spec_format_datetime(date_at(g - 14, 0, 0, 0, off)),
            spec_format_datetime(date_at(g, 23, 59, 59, off)),
        ),
        DateRange::Last30Days => (
            spec_format_datetime(date_at(g - 30, 0, 0, 0, off)),
            spec_format_datetime(date_at(g, 23, 59, 59, off)),
        ),
    }
}

impl DateRange {
    /// The `YYYY-MM-DD HH:MM:SS` bounds of this range at the given moment.
    pub fn get_range(&self, now: &Calendar) -> (r: (String, String))
        requires
            range_ok(*self, *now),
        ensures
            r.0@ == spec_get_range(*self, *now).0,
            r.1@ == spec_get_range(*self, *now).1,
    {
        proof {
            lemma_cal_days_bound(*now);
        }
        match self {
            DateRange::CurrentWeek => (
                now.week_beg().format_datetime(),
                now.week_end().format_datetime(),
            ),
            DateRange::CurrentMonth => (
                now.month_beg().format_datetime(),
                now.month_end().format_datetime(),
            ),
            DateRange::CurrentYear => (
                now.year_beg().format_datetime(),
                now.year_end().format_datetime(),
            ),
            DateRange::PreviousWeek => (
                now.days_beg(-7).week_beg().format_datetime(),
                now.days_end(-7).week_end().format_datetime(),
            ),
            DateRange::PreviousMonth => (
                now.months_beg(-1).format_datetime(),
                now.months_end(-1).format_datetime(),
            ),
            DateRange::PreviousYear => (
                now.years_beg(-1).format_datetime(),
                now.years_end(-1).format_datetime(),
            ),
            DateRange::Last7Days => (
                now.days_beg(-7).format_datetime(),
                now.days_end(0).format_datetime(),
            ),
            DateRange::Last14Days => (
                now.days_beg(-14).format_datetime(),
                now.days_end(0).format_datetime(),
            ),
            DateRange::Last30Days => (
                now.days_beg(-30).format_datetime(),
                now.days_end(0).format_datetime(),
            ),
            DateRange::Custom(start, end) => (start.clone(), end.clone()),
        }
    }
}

} // verus!
