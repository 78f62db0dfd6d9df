//! Axis label formatting: the calendar/clock part of timestamp labels.

use vstd::prelude::*;

verus! {

/// Integer division rounding toward zero (Rust's `/` on signed integers).
pub open spec fn tdiv(a: int, b: int) -> int {
    if a >= 0 {
        a / b
    } else {
        -((-a) / b)
    }
}

/// Remainder of `tdiv` (Rust's `%` on signed integers; takes the sign of `a`).
pub open spec fn trem(a: int, b: int) -> int {
    a - b * tdiv(a, b)
}

/// The decimal digit character for `d` in `0..10`.
pub open spec fn digit(d: int) -> char {
    (48 + d) as char
}

/// `n` formatted with `{:02}`: at least two characters, zero-padded,
/// with a leading `-` for negative values (for `-100 < n < 100`).
pub open spec fn pad2(n: int) -> Seq<char> {
    if n >= 10 {
        seq![digit(n / 10), digit(n % 10)]
    } else if n >= 0 {
        seq!['0', digit(n)]
    } else if n > -10 {
        seq!['-', digit(-n)]
    } else {
        seq!['-', digit((-n) / 10), digit((-n) % 10)]
    }
}

/// Month of the synthetic calendar (30-day months in a 365-day year,
/// counted from 1) of the day `days` after the epoch; the last five days
/// of the year stay in month 12.
pub open spec fn label_month(days: int) -> int {
    let m = tdiv(trem(days, 365), 30) + 1;
    if m > 12 {
        12
    } else {
        m
    }
}

/// Day of the month (counted from 1) of the day `days` after the epoch.
pub open spec fn label_day(days: int) -> int {
    trem(trem(days, 365), 30) + 1
}

/// The label of a timestamp `secs` (epoch seconds): `MM/DD` for a
/// multi-day range, else `HH:MM` of the day.
pub open spec fn clock_label(secs: int, multi_day: bool) -> Seq<char> {
    if multi_day {
        let days = tdiv(secs, 86400);
        pad2(label_month(days)) + seq!['/'] + pad2(label_day(days))
    } else {
        let h = tdiv(trem(secs, 86400), 3600);
        let m = tdiv(trem(secs, 3600), 60);
        pad2(h) + seq![':'] + pad2(m)
    }
}

fn digit_char(d: i64) -> (c: char)
    requires
        0 <= d < 10,
    ensures
        c == digit(d as int),
{
    ((48u8 + d as u8) as char)
}

fn push_pad2(s: &mut String, n: i64)
    requires
        -100 < n < 100,
    ensures
        final(s)@ == old(s)@ + pad2(n as int),
{
    if n >= 10 {
        s.push(digit_char(n / 10));
        s.push(digit_char(n % 10));
    } else if n >= 0 {
        s.push('0');
        s.push(digit_char(n));
    } else if n > -10 {
        s.push('-');
        s.push(digit_char(-n));
    } else {
        s.push('-');
        s.push(digit_char((-n) / 10));
        s.push(digit_char((-n) % 10));
    }
    proof {
        assert(final(s)@ =~= old(s)@ + pad2(n as int));
    }
}

/// Format a timestamp label from whole epoch seconds: `MM/DD` when the
/// visible range spans more than two days (`multi_day`), else `HH:MM`.
pub fn format_clock(secs: i64, multi_day: bool) -> (s: String)
    ensures
        s@ == clock_label(secs as int, multi_day),
{
    let mut s = String::new();
    if multi_day {
        let days = secs / 86400;
        let m = ((days % 365) / 30) + 1;
        let month = if m > 12 {
            12
        } else {
            m
        };
        let day = ((days % 365) % 30) + 1;
        push_pad2(&mut s, month);
        s.push('/');
        push_pad2(&mut s, day);
    } else {
        let h = (secs % 86400) / 3600;
        let m = (secs % 3600) / 60;
        push_pad2(&mut s, h);
        s.push(':');
        push_pad2(&mut s, m);
    }
    proof {
        assert(s@ =~= clock_label(secs as int, multi_day));
    }
    s
}

/// For timestamps at or after the epoch, a label is always five
/// characters: two-digit month and day around a `/` for multi-day
/// ranges, two-digit hour and minute around a `:` otherwise; the month
/// lies in 1..=12 and the day in 1..=30.
pub proof fn lemma_clock_label_shape(secs: int, multi_day: bool)
    requires
        secs >= 0,
    ensures
        1 <= label_month(tdiv(secs, 86400)) <= 12,
        1 <= label_day(tdiv(secs, 86400)) <= 30,
        clock_label(secs, multi_day).len() == 5,
        clock_label(secs, multi_day)[2] == (if multi_day {
            '/'
        } else {
            ':'
        }),
{
}

} // verus!
