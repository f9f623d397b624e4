//! Verified rendering of dates, times and numbers as text, and parsing
//! of `YYYY-MM-DD` date strings.

use vstd::prelude::*;
use crate::strutil::{char_is_digit, char_digit};

verus! {

/// The character of one decimal digit.
pub open spec fn digit_char(d: int) -> char {
    if d == 0 {
        '0'
    } else if d == 1 {
        '1'
    } else if d == 2 {
        '2'
    } else if d == 3 {
        '3'
    } else if d == 4 {
        '4'
    } else if d == 5 {
        '5'
    } else if d == 6 {
        '6'
    } else if d == 7 {
        '7'
    } else if d == 8 {
        '8'
    } else {
        '9'
    }
}

/// The decimal digits of a non-negative number, most significant first.
pub open spec fn spec_dec(n: int) -> Seq<char>
    decreases n,
{
    if n < 10 {
        seq![digit_char(n)]
    } else {
        spec_dec(n / 10).push(digit_char(n % 10))
    }
}

/// A number below 100 as exactly two digits.
pub open spec fn spec_pad2(n: int) -> Seq<char> {
    seq![digit_char(n / 10), digit_char(n % 10)]
}

/// A non-negative number as at least four digits.
pub open spec fn spec_pad4(n: int) -> Seq<char> {
    if n < 10000 {
        seq![digit_char(n / 1000), digit_char(n / 100 % 10), digit_char(n / 10 % 10), digit_char(
            n % 10,
        )]
    } else {
        spec_dec(n)
    }
}

/// A year, four digits zero-padded, with a sign when negative.
pub open spec fn spec_year(y: int) -> Seq<char> {
    if y < 0 {
        seq!['-'] + spec_pad4(-y)
    } else {
        spec_pad4(y)
    }
}

/// A signed number in decimal.
pub open spec fn spec_i64_dec(v: int) -> Seq<char> {
    if v < 0 {
        seq!['-'] + spec_dec(-v)
    } else {
        spec_dec(v)
    }
}

/// One digit as a string slice.
fn digit_str(d: u64) -> (r: &'static str)
    requires
        d < 10,
    ensures
        r@ == seq![digit_char(d as int)],
{
    proof {
        reveal_strlit("0");
        reveal_strlit("1");
        reveal_strlit("2");
        reveal_strlit("3");
        reveal_strlit("4");
        reveal_strlit("5");
        reveal_strlit("6");
        reveal_strlit("7");
        reveal_strlit("8");
        reveal_strlit("9");
    }
    let r = match d {
        0 => "0",
        1 => "1",
        2 => "2",
        3 => "3",
        4 => "4",
        5 => "5",
        6 => "6",
        7 => "7",
        8 => "8",
        _ => "9",
    };
    proof {
        assert(r@ =~= seq![digit_char(d as int)]);
    }
    r
}

/// Appends the decimal digits of `n`.
fn push_dec(out: &mut String, n: u64)
    ensures
        final(out)@ == old(out)@ + spec_dec(n as int),
    decreases n,
{
    if n >= 10 {
        push_dec(out, n / 10);
        out.append(digit_str(n % 10));
        proof {
            assert(old(out)@ + spec_dec(n as int) =~= (old(out)@ + spec_dec(n as int / 10)).push(
                digit_char(n as int % 10),
            ));
            assert(final(out)@ =~= (old(out)@ + spec_dec(n as int / 10)).push(
                digit_char(n as int % 10),
            ));
        }
    } else {
        out.append(digit_str(n));
        proof {
            assert(final(out)@ =~= old(out)@ + spec_dec(n as int));
        }
    }
}

/// A non-negative number in decimal.
pub fn u64_dec(n: u64) -> (r: String)
    ensures
        r@ == spec_dec(n as int),
{
    let mut out = String::new();
    push_dec(&mut out, n);
    proof {
        assert(Seq::<char>::empty() + spec_dec(n as int) =~= spec_dec(n as int));
    }
    out
}

/// A signed number in decimal.
pub fn i64_dec(v: i64) -> (r: String)
    ensures
        r@ == spec_i64_dec(v as int),
{
    let mut out = String::new();
    if v < 0 {
        proof {
            reveal_strlit("-");
        }
        out.append("-");
        let a: u64 = if v == i64::MIN {
            9223372036854775808u64
        } else {
            (-v) as u64
        };
        assert(a == -(v as int));
        push_dec(&mut out, a);
        proof {
            assert("-"@ =~= seq!['-']);
            assert(out@ =~= seq!['-'] + spec_dec(-(v as int)));
        }
    } else {
        push_dec(&mut out, v as u64);
        proof {
            assert(out@ =~= spec_dec(v as int));
        }
    }
    out
}

/// Appends a number below 100 as two digits.
fn push_pad2(out: &mut String, n: u32)
    requires
        n < 100,
    ensures
        final(out)@ == old(out)@ + spec_pad2(n as int),
{
    out.append(digit_str((n / 10) as u64));
    out.append(digit_str((n % 10) as u64));
    proof {
        assert(final(out)@ =~= old(out)@ + spec_pad2(n as int));
    }
}

/// A number below 100 as two digits.
pub fn pad2(n: u32) -> (r: String)
    requires
        n < 100,
    ensures
        r@ == spec_pad2(n as int),
{
    let mut out = String::new();
    push_pad2(&mut out, n);
    proof {
        assert(Seq::<char>::empty() + spec_pad2(n as int) =~= spec_pad2(n as int));
    }
    out
}

/// Appends a non-negative number as at least four digits.
fn push_pad4(out: &mut String, n: u64)
    ensures
        final(out)@ == old(out)@ + spec_pad4(n as int),
{
    if n < 10000 {
        out.append(digit_str(n / 1000));
        out.append(digit_str(n / 100 % 10));
        out.append(digit_str(n / 10 % 10));
        out.append(digit_str(n % 10));
        proof {
            assert(final(out)@ =~= old(out)@ + spec_pad4(n as int));
        }
    } else {
        push_dec(out, n);
    }
}

/// A year as text: four digits zero-padded, a sign when negative.
pub fn year_str(y: i32) -> (r: String)
    ensures
        r@ == spec_year(y as int),
{
    let mut out = String::new();
    if y < 0 {
        proof {
            reveal_strlit("-");
        }
        out.append("-");
        proof {
            assert(out@ =~= seq!['-']);
        }
        let a: u64 = if y == i32::MIN {
            2147483648u64
        } else {
            (-y) as u64
        };
        assert(a == -(y as int));
        push_pad4(&mut out, a);
        proof {
            assert(out@ =~= seq!['-'] + spec_pad4(-(y as int)));
        }
    } else {
        push_pad4(&mut out, y as u64);
        proof {
            assert(Seq::<char>::empty() + spec_pad4(y as int) =~= spec_pad4(y as int));
        }
    }
    out
}

/// `YYYY-MM-DD`.
pub open spec fn spec_date_string(y: int, m: int, d: int) -> Seq<char> {
    spec_year(y) + seq!['-'] + spec_pad2(m) + seq!['-'] + spec_pad2(d)
}

/// Renders a civil date as `YYYY-MM-DD`.
pub fn date_string(y: i32, m: u32, d: u32) -> (r: String)
    requires
        m < 100,
        d < 100,
    ensures
        r@ == spec_date_string(y as int, m as int, d as int),
{
    proof {
        reveal_strlit("-");
    }
    let mut out = year_str(y);
    out.append("-");
    push_pad2(&mut out, m);
    out.append("-");
    push_pad2(&mut out, d);
    proof {
        assert(out@ =~= spec_date_string(y as int, m as int, d as int));
    }
    out
}

/// `HH:MM:SS`.
pub open spec fn spec_time_string(h: int, mi: int, s: int) -> Seq<char> {
    spec_pad2(h) + seq![':'] + spec_pad2(mi) + seq![':'] + spec_pad2(s)
}

/// Renders a wall-clock time as `HH:MM:SS`.
pub fn time_string(h: u32, mi: u32, s: u32) -> (r: String)
    requires
        h < 100,
        mi < 100,
        s < 100,
    ensures
        r@ == spec_time_string(h as int, mi as int, s as int),
{
    proof {
        reveal_strlit(":");
    }
    let mut out = String::new();
    push_pad2(&mut out, h);
    out.append(":");
    push_pad2(&mut out, mi);
    out.append(":");
    push_pad2(&mut out, s);
    proof {
        assert(out@ =~= spec_time_string(h as int, mi as int, s as int));
    }
    out
}

/// The `HH:MM:SS` text of a second-of-day offset.
pub open spec fn spec_time_of_day(sod: int) -> Seq<char> {
    spec_time_string(sod / 3600, sod % 3600 / 60, sod % 60)
}

/// Renders a second-of-day offset (seconds since local midnight) as
/// `HH:MM:SS`.
pub fn time_of_day_string(sod: i64) -> (r: String)
    requires
        0 <= sod < 360000,
    ensures
        r@ == spec_time_of_day(sod as int),
{
    let h = (sod / 3600) as u32;
    let mi = (sod % 3600 / 60) as u32;
    let s = (sod % 60) as u32;
    time_string(h, mi, s)
}

/// Whether `y` is a leap year of the proleptic Gregorian calendar.
pub open spec fn spec_is_leap(y: int) -> bool {
    y % 4 == 0 && (y % 100 != 0 || y % 400 == 0)
}

/// The number of days of month `m` of year `y`.
pub open spec fn spec_days_in_month(y: int, m: int) -> int {
    if m == 2 {
        if spec_is_leap(y) {
            29
        } else {
            28
        }
    } else if m == 4 || m == 6 || m == 9 || m == 11 {
        30
    } else {
        31
    }
}

/// What parsing a date string yields: the year, month and day of a text
/// of the exact shape `YYYY-MM-DD` naming a valid calendar date, and
/// `None` otherwise.
pub open spec fn spec_parse_date(s: Seq<char>) -> Option<(i32, u32, u32)> {
    if s.len() == 10 && all_date_digits(s) && s[4] == '-' && s[7] == '-' {
        let y = char_digit(s[0]) * 1000 + char_digit(s[1]) * 100 + char_digit(s[2]) * 10
            + char_digit(s[3]);
        let m = char_digit(s[5]) * 10 + char_digit(s[6]);
        let d = char_digit(s[8]) * 10 + char_digit(s[9]);
        if 1 <= m <= 12 && 1 <= d <= spec_days_in_month(y, m) {
            Some((y as i32, m as u32, d as u32))
        } else {
            None
        }
    } else {
        None
    }
}

/// Whether the digit positions of a ten-character date string all hold
/// digits.
pub open spec fn all_date_digits(s: Seq<char>) -> bool {
    char_is_digit(s[0]) && char_is_digit(s[1]) && char_is_digit(s[2]) && char_is_digit(s[3])
        && char_is_digit(s[5]) && char_is_digit(s[6]) && char_is_digit(s[8]) && char_is_digit(s[9])
}

/// Reads one digit of a date string.
fn date_digit(s: &str, i: usize) -> (r: Option<u32>)
    requires
        i < s@.len(),
    ensures
        match r {
            Some(v) => char_is_digit(s@[i as int]) && v == char_digit(s@[i as int]),
            None => !char_is_digit(s@[i as int]),
        },
{
    let c = s.get_char(i) as u32;
    if 48 <= c && c <= 57 {
        Some(c - 48)
    } else {
        None
    }
}

/// Parses a date string of the exact shape `YYYY-MM-DD`; `None` when the
/// shape is wrong or the date is not a valid calendar date.
pub fn parse_date(s: &str) -> (r: Option<(i32, u32, u32)>)
    ensures
        r == spec_parse_date(s@),
{
    let n = s.unicode_len();
    if n != 10 {
        return None;
    }
    if s.get_char(4) != '-' || s.get_char(7) != '-' {
        return None;
    }
    let d0 = match date_digit(s, 0) {
        Some(v) => v,
        None => {
            return None;
        },
    };
    let d1 = match date_digit(s, 1) {
        Some(v) => v,
        None => {
            return None;
        },
    };
    let d2 = match date_digit(s, 2) {
        Some(v) => v,
        None => {
            return None;
        },
    };
    let d3 = match date_digit(s, 3) {
        Some(v) => v,
        None => {
            return None;
        },
    };
    let d5 = match date_digit(s, 5) {
        Some(v) => v,
        None => {
            return None;
        },
    };
    let d6 = match date_digit(s, 6) {
        Some(v) => v,
        None => {
            return None;
        },
    };
    let d8 = match date_digit(s, 8) {
        Some(v) => v,
        None => {
            return None;
        },
    };
    let d9 = match date_digit(s, 9) {
        Some(v) => v,
        None => {
            return None;
        },
    };
    let y = d0 * 1000 + d1 * 100 + d2 * 10 + d3;
    let m = d5 * 10 + d6;
    let d = d8 * 10 + d9;
    if m < 1 || m > 12 {
        return None;
    }
    let dim: u32 = if m == 2 {
        if (y % 4 == 0) && (y % 100 != 0 || y % 400 == 0) {
            29
        } else {
            28
        }
    } else if m == 4 || m == 6 || m == 9 || m == 11 {
        30
    } else {
        31
    };
    if d < 1 || d > dim {
        return None;
    }
    Some((y as i32, m, d))
}

/// The English weekday name, Monday first.
pub open spec fn spec_weekday_en(w: int) -> Seq<char> {
    if w == 0 {
        "Monday"@
    } else if w == 1 {
        "Tuesday"@
    } else if w == 2 {
        "Wednesday"@
    } else if w == 3 {
        "Thursday"@
    } else if w == 4 {
        "Friday"@
    } else if w == 5 {
        "Saturday"@
    } else {
        "Sunday"@
    }
}

/// The English weekday name of a day index counted from Monday.
pub fn weekday_en(w: u32) -> (r: String)
    requires
        w <= 6,
    ensures
        r@ == spec_weekday_en(w as int),
{
    let s = match w {
        0 => "Monday",
        1 => "Tuesday",
        2 => "Wednesday",
        3 => "Thursday",
        4 => "Friday",
        5 => "Saturday",
        _ => "Sunday",
    };
    String::from_str(s)
}

/// The Chinese weekday name, Monday first.
pub open spec fn spec_weekday_cn(w: int) -> Seq<char> {
    if w == 0 {
        "星期一"@
    } else if w == 1 {
        "星期二"@
    } else if w == 2 {
        "星期三"@
    } else if w == 3 {
        "星期四"@
    } else if w == 4 {
        "星期五"@
    } else if w == 5 {
        "星期六"@
    } else {
        "星期日"@
    }
}

/// The Chinese weekday name of a day index counted from Monday.
pub fn weekday_cn(w: u32) -> (r: String)
    requires
        w <= 6,
    ensures
        r@ == spec_weekday_cn(w as int),
{
    let s = match w {
        0 => "星期一",
        1 => "星期二",
        2 => "星期三",
        3 => "星期四",
        4 => "星期五",
        5 => "星期六",
        _ => "星期日",
    };
    String::from_str(s)
}

/// `YYYY/MM/DD`.
pub open spec fn spec_short_date(y: int, m: int, d: int) -> Seq<char> {
    spec_year(y) + seq!['/'] + spec_pad2(m) + seq!['/'] + spec_pad2(d)
}

/// Renders a civil date as `YYYY/MM/DD`.
pub fn short_date_string(y: i32, m: u32, d: u32) -> (r: String)
    requires
        m < 100,
        d < 100,
    ensures
        r@ == spec_short_date(y as int, m as int, d as int),
{
    proof {
        reveal_strlit("/");
    }
    let mut out = year_str(y);
    out.append("/");
    push_pad2(&mut out, m);
    out.append("/");
    push_pad2(&mut out, d);
    proof {
        assert(out@ =~= spec_short_date(y as int, m as int, d as int));
    }
    out
}

/// The Chinese date form: year, month and day each followed by its
/// count word.
pub open spec fn spec_date_cn(y: int, m: int, d: int) -> Seq<char> {
    spec_year(y) + "年"@ + spec_pad2(m) + "月"@ + spec_pad2(d) + "日"@
}

/// Renders a civil date in the Chinese date form.
pub fn date_cn_string(y: i32, m: u32, d: u32) -> (r: String)
    requires
        m < 100,
        d < 100,
    ensures
        r@ == spec_date_cn(y as int, m as int, d as int),
{
    let mut out = year_str(y);
    out.append("年");
    push_pad2(&mut out, m);
    out.append("月");
    push_pad2(&mut out, d);
    out.append("日");
    proof {
        assert(out@ =~= spec_date_cn(y as int, m as int, d as int));
    }
    out
}

/// `YYYYMMDDHHMMSS`.
pub open spec fn spec_compact_stamp(y: int, m: int, d: int, h: int, mi: int, s: int) -> Seq<
    char,
> {
    spec_year(y) + spec_pad2(m) + spec_pad2(d) + spec_pad2(h) + spec_pad2(mi) + spec_pad2(s)
}

/// Renders an instant's wall-clock fields as `YYYYMMDDHHMMSS`.
pub fn compact_stamp(y: i32, m: u32, d: u32, h: u32, mi: u32, s: u32) -> (r: String)
    requires
        m < 100,
        d < 100,
        h < 100,
        mi < 100,
        s < 100,
    ensures
        r@ == spec_compact_stamp(y as int, m as int, d as int, h as int, mi as int, s as int),
{
    let mut out = year_str(y);
    push_pad2(&mut out, m);
    push_pad2(&mut out, d);
    push_pad2(&mut out, h);
    push_pad2(&mut out, mi);
    push_pad2(&mut out, s);
    proof {
        assert(out@ =~= spec_compact_stamp(
            y as int,
            m as int,
            d as int,
            h as int,
            mi as int,
            s as int,
        ));
    }
    out
}

/// The twelve-hour form: hour 0 shows as 12, hours 13 to 23 fold back,
/// with `AM` before noon and `PM` from noon on.
pub open spec fn spec_time12(h: int, mi: int, s: int) -> Seq<char> {
    let h12 = if h % 12 == 0 {
        12int
    } else {
        h % 12
    };
    spec_pad2(h12) + seq![':'] + spec_pad2(mi) + seq![':'] + spec_pad2(s) + seq![' '] + (if h
        < 12 {
        "AM"@
    } else {
        "PM"@
    })
}

/// Renders a wall-clock time in the twelve-hour form.
pub fn time12_string(h: u32, mi: u32, s: u32) -> (r: String)
    requires
        h <= 23,
        mi < 100,
        s < 100,
    ensures
        r@ == spec_time12(h as int, mi as int, s as int),
{
    proof {
        reveal_strlit(":");
        reveal_strlit(" ");
    }
    let h12: u32 = if h % 12 == 0 {
        12
    } else {
        h % 12
    };
    let mut out = String::new();
    push_pad2(&mut out, h12);
    out.append(":");
    push_pad2(&mut out, mi);
    out.append(":");
    push_pad2(&mut out, s);
    out.append(" ");
    if h < 12 {
        out.append("AM");
    } else {
        out.append("PM");
    }
    proof {
        assert(out@ =~= spec_time12(h as int, mi as int, s as int));
    }
    out
}

/// The full timestamp form: date, `T`, time, and the local offset from
/// UTC as a signed `HH:MM`.
pub open spec fn spec_iso_datetime(
    y: int,
    m: int,
    d: int,
    h: int,
    mi: int,
    s: int,
    off: int,
) -> Seq<char> {
    let a = if off < 0 {
        -off
    } else {
        off
    };
    spec_date_string(y, m, d) + seq!['T'] + spec_time_string(h, mi, s) + (if off < 0 {
        seq!['-']
    } else {
        seq!['+']
    }) + spec_pad2(a / 3600) + seq![':'] + spec_pad2(a % 3600 / 60)
}

/// Renders an instant's wall-clock fields with the local offset.
pub fn iso_datetime_string(y: i32, m: u32, d: u32, h: u32, mi: u32, s: u32, off: i32) -> (r:
    String)
    requires
        m < 100,
        d < 100,
        h < 100,
        mi < 100,
        s < 100,
        -86400 < off < 86400,
    ensures
        r@ == spec_iso_datetime(
            y as int,
            m as int,
            d as int,
            h as int,
            mi as int,
            s as int,
            off as int,
        ),
{
    proof {
        reveal_strlit("T");
        reveal_strlit("-");
        reveal_strlit("+");
        reveal_strlit(":");
    }
    let mut out = date_string(y, m, d);
    out.append("T");
    let ts = time_string(h, mi, s);
    out.append(ts.as_str());
    let a: i32 = if off < 0 {
        -off
    } else {
        off
    };
    if off < 0 {
        out.append("-");
    } else {
        out.append("+");
    }
    push_pad2(&mut out, (a / 3600) as u32);
    out.append(":");
    push_pad2(&mut out, (a % 3600 / 60) as u32);
    proof {
        assert(out@ =~= spec_iso_datetime(
            y as int,
            m as int,
            d as int,
            h as int,
            mi as int,
            s as int,
            off as int,
        ));
    }
    out
}

/// `MM-DD`.
pub open spec fn spec_month_day(m: int, d: int) -> Seq<char> {
    spec_pad2(m) + seq!['-'] + spec_pad2(d)
}

/// Renders month and day as `MM-DD`.
pub fn month_day_string(m: u32, d: u32) -> (r: String)
    requires
        m < 100,
        d < 100,
    ensures
        r@ == spec_month_day(m as int, d as int),
{
    proof {
        reveal_strlit("-");
    }
    let mut out = String::new();
    push_pad2(&mut out, m);
    out.append("-");
    push_pad2(&mut out, d);
    proof {
        assert(out@ =~= spec_month_day(m as int, d as int));
    }
    out
}

/// `HH:MM`.
pub open spec fn spec_hour_minute(h: int, mi: int) -> Seq<char> {
    spec_pad2(h) + seq![':'] + spec_pad2(mi)
}

/// Renders hour and minute as `HH:MM`.
pub fn hour_minute_string(h: u32, mi: u32) -> (r: String)
    requires
        h < 100,
        mi < 100,
    ensures
        r@ == spec_hour_minute(h as int, mi as int),
{
    proof {
        reveal_strlit(":");
    }
    let mut out = String::new();
    push_pad2(&mut out, h);
    out.append(":");
    push_pad2(&mut out, mi);
    proof {
        assert(out@ =~= spec_hour_minute(h as int, mi as int));
    }
    out
}


} // verus!
