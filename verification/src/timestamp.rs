//! Timestamps of messages: `YYYY-MM-DD HH:MM:SS` in local time.
use vstd::prelude::*;
use chrono::{Datelike, Local, Timelike};
use crate::text::{all_digits, dec, decimal, digits_value, is_digit, lemma_dec_value, pad_zeros, zero_pad};

verus! {

/// Calls `chrono::Local::now` and reads the year, month, day, hour, minute
/// and second of the result. chrono documents month 1-12, day 1-31, hour
/// 0-23, minute 0-59 and second 0-59; which instant it is depends on the clock.
#[verifier::external_body]
fn local_now() -> (res: (i32, u32, u32, u32, u32, u32))
    ensures
        1 <= res.1 <= 12,
        1 <= res.2 <= 31,
        res.3 < 24,
        res.4 < 60,
        res.5 < 60,
{
    let now = Local::now();
    (now.year(), now.month(), now.day(), now.hour(), now.minute(), now.second())
}

/// A year written with at least four digits, sign first (`{:04}`).
pub open spec fn year_text(year: int) -> Seq<char> {
    if year >= 0 {
        zero_pad(dec(year as nat), 4)
    } else {
        seq!['-'] + zero_pad(dec((-year) as nat), 3)
    }
}

/// A number written with at least two digits (`{:02}`).
pub open spec fn two_digits(n: nat) -> Seq<char> {
    zero_pad(dec(n), 2)
}

/// `YYYY-MM-DD HH:MM:SS` for the given parts.
pub open spec fn timestamp_spec(
    year: int,
    month: nat,
    day: nat,
    hour: nat,
    minute: nat,
    second: nat,
) -> Seq<char> {
    year_text(year) + seq!['-'] + two_digits(month) + seq!['-'] + two_digits(day) + seq![' ']
        + two_digits(hour) + seq![':'] + two_digits(minute) + seq![':'] + two_digits(second)
}

/// A date and time that the calendar and the clock allow.
pub open spec fn valid_time_parts(month: nat, day: nat, hour: nat, minute: nat, second: nat) -> bool {
    1 <= month <= 12 && 1 <= day <= 31 && hour < 24 && minute < 60 && second < 60
}

/// Writes a year with at least four digits.
pub fn format_year(year: i32) -> (res: String)
    ensures
        res@ == year_text(year as int),
{
    if year >= 0 {
        pad_zeros(decimal(year as u64), 4)
    } else {
        let magnitude: u64 = (0i64 - (year as i64)) as u64;
        let mut s = String::from_str("-");
        proof {
            reveal_strlit("-");
        }
        s.append(pad_zeros(decimal(magnitude), 3).as_str());
        s
    }
}

/// Writes a number with at least two digits.
pub fn format_two_digits(n: u32) -> (res: String)
    ensures
        res@ == two_digits(n as nat),
{
    pad_zeros(decimal(n as u64), 2)
}

/// Writes `YYYY-MM-DD HH:MM:SS`.
pub fn format_timestamp(year: i32, month: u32, day: u32, hour: u32, minute: u32, second: u32) -> (res:
    String)
    ensures
        res@ == timestamp_spec(
            year as int,
            month as nat,
            day as nat,
            hour as nat,
            minute as nat,
            second as nat,
        ),
{
    proof {
        reveal_strlit("-");
        reveal_strlit(" ");
        reveal_strlit(":");
    }
    let mut s = format_year(year);
    s.append("-");
    s.append(format_two_digits(month).as_str());
    s.append("-");
    s.append(format_two_digits(day).as_str());
    s.append(" ");
    s.append(format_two_digits(hour).as_str());
    s.append(":");
    s.append(format_two_digits(minute).as_str());
    s.append(":");
    s.append(format_two_digits(second).as_str());
    s
}

/// A reading of the local clock, field by field.
pub struct ClockReading {
    pub year: i32,
    pub month: u32,
    pub day: u32,
    pub hour: u32,
    pub minute: u32,
    pub second: u32,
}

impl ClockReading {
    /// The reading names a date and time that the calendar and the clock allow.
    pub open spec fn valid(&self) -> bool {
        valid_time_parts(
            self.month as nat,
            self.day as nat,
            self.hour as nat,
            self.minute as nat,
            self.second as nat,
        )
    }
}

/// Reads the local clock once.
pub fn read_clock() -> (res: ClockReading)
    ensures
        res.valid(),
{
    let (year, month, day, hour, minute, second) = local_now();
    ClockReading { year, month, day, hour, minute, second }
}

/// Writes a clock reading as `YYYY-MM-DD HH:MM:SS`: year, month, day, hour,
/// minute and second of the reading, in that order.
pub fn timestamp_of(reading: &ClockReading) -> (res: String)
    ensures
        res@ == timestamp_spec(
            reading.year as int,
            reading.month as nat,
            reading.day as nat,
            reading.hour as nat,
            reading.minute as nat,
            reading.second as nat,
        ),
{
    format_timestamp(
        reading.year,
        reading.month,
        reading.day,
        reading.hour,
        reading.minute,
        reading.second,
    )
}

/// The current local time as `YYYY-MM-DD HH:MM:SS`: the clock is read once
/// with `read_clock` and the reading written with `timestamp_of`.
pub fn get_timestamp() -> (res: String)
    ensures
        exists|y: int, mo: nat, d: nat, h: nat, mi: nat, s: nat|
            valid_time_parts(mo, d, h, mi, s) && res@ == #[trigger] timestamp_spec(
                y,
                mo,
                d,
                h,
                mi,
                s,
            ),
{
    let now = read_clock();
    let res = timestamp_of(&now);
    proof {
        assert(valid_time_parts(
            now.month as nat,
            now.day as nat,
            now.hour as nat,
            now.minute as nat,
            now.second as nat,
        ));
    }
    res
}

/// Ten to the power `w`.
pub open spec fn pow10(w: nat) -> nat
    decreases w,
{
    if w == 0 {
        1
    } else {
        10 * pow10((w - 1) as nat)
    }
}

proof fn lemma_dec_len_bound(n: nat, w: nat)
    requires
        1 <= w,
        n < pow10(w),
    ensures
        dec(n).len() <= w,
    decreases w,
{
    if n >= 10 {
        if w == 1 {
            assert(pow10(1) == 10 * pow10(0));
        } else {
            assert(pow10(w) == 10 * pow10((w - 1) as nat));
            assert(n / 10 < pow10((w - 1) as nat));
            lemma_dec_len_bound(n / 10, (w - 1) as nat);
        }
    }
}

proof fn lemma_leading_zero(s: Seq<char>)
    ensures
        digits_value(seq!['0'] + s) == digits_value(s),
    decreases s.len(),
{
    let t = seq!['0'] + s;
    if s.len() == 0 {
        assert(t.drop_last() =~= Seq::<char>::empty());
        assert(digits_value(t.drop_last()) == 0);
        assert(t.last() == '0');
        assert(('0' as u32) == 48);
        assert(digits_value(s) == 0);
    } else {
        assert(t.drop_last() =~= seq!['0'] + s.drop_last());
        assert(t.last() == s.last());
        lemma_leading_zero(s.drop_last());
    }
}

proof fn lemma_zeros_prefix(k: nat, s: Seq<char>)
    ensures
        digits_value(Seq::new(k, |i: int| '0') + s) == digits_value(s),
    decreases k,
{
    if k > 0 {
        let z = Seq::new(k, |i: int| '0');
        let z1 = Seq::new((k - 1) as nat, |i: int| '0');
        assert(z + s =~= seq!['0'] + (z1 + s));
        lemma_leading_zero(z1 + s);
        lemma_zeros_prefix((k - 1) as nat, s);
    }
}

/// A number below `10^w`, zero-padded to `w`, is exactly `w` digits that read back as the number.
pub proof fn lemma_zero_pad_digits(n: nat, w: nat)
    requires
        1 <= w,
        n < pow10(w),
    ensures
        zero_pad(dec(n), w).len() == w,
        all_digits(zero_pad(dec(n), w)),
        digits_value(zero_pad(dec(n), w)) == n,
{
    lemma_dec_value(n);
    lemma_dec_len_bound(n, w);
    let s = dec(n);
    if s.len() < w {
        let k = (w - s.len()) as nat;
        lemma_zeros_prefix(k, s);
        let p = zero_pad(s, w);
        assert forall|i: int| 0 <= i < p.len() implies is_digit(#[trigger] p[i]) by {
            if i >= k {
                assert(p[i] == s[i - k]);
            }
        }
    }
}

/// `t[a..b]` is a run of digits that reads as `v`.
pub open spec fn digit_field(t: Seq<char>, a: int, b: int, v: int) -> bool {
    all_digits(t.subrange(a, b)) && digits_value(t.subrange(a, b)) == v
}

/// The shape of a timestamp: for years 0 to 9999 it is `DDDD-DD-DD DD:DD:DD`,
/// nineteen characters, each field reading back as the part it came from.
pub proof fn lemma_timestamp_shape(year: int, month: nat, day: nat, hour: nat, minute: nat, second: nat)
    requires
        0 <= year <= 9999,
        valid_time_parts(month, day, hour, minute, second),
    ensures
        ({
            let t = timestamp_spec(year, month, day, hour, minute, second);
            &&& t.len() == 19
            &&& t[4] == '-' && t[7] == '-' && t[10] == ' ' && t[13] == ':' && t[16] == ':'
            &&& digit_field(t, 0, 4, year)
            &&& digit_field(t, 5, 7, month as int)
            &&& digit_field(t, 8, 10, day as int)
            &&& digit_field(t, 11, 13, hour as int)
            &&& digit_field(t, 14, 16, minute as int)
            &&& digit_field(t, 17, 19, second as int)
        }),
{
    assert(pow10(4) == 10000) by {
        assert(pow10(0) == 1);
        assert(pow10(1) == 10);
        assert(pow10(2) == 100);
        assert(pow10(3) == 1000);
    }
    assert(pow10(2) == 100) by {
        assert(pow10(0) == 1);
        assert(pow10(1) == 10);
    }
    lemma_zero_pad_digits(year as nat, 4);
    lemma_zero_pad_digits(month, 2);
    lemma_zero_pad_digits(day, 2);
    lemma_zero_pad_digits(hour, 2);
    lemma_zero_pad_digits(minute, 2);
    lemma_zero_pad_digits(second, 2);
    let y = year_text(year);
    let t = timestamp_spec(year, month, day, hour, minute, second);
    assert(t.subrange(0, 4) =~= y);
    assert(t.subrange(5, 7) =~= two_digits(month));
    assert(t.subrange(8, 10) =~= two_digits(day));
    assert(t.subrange(11, 13) =~= two_digits(hour));
    assert(t.subrange(14, 16) =~= two_digits(minute));
    assert(t.subrange(17, 19) =~= two_digits(second));
}

} // verus!
