//! Instants and the date notations they were written in.
//!
//! An instant is a civil UTC date and time. Each instant that enters the
//! system is paired with the notation it was parsed from — RFC 3339,
//! RFC 2822, or a strftime-style pattern — so that re-serializing it
//! reproduces the author's chosen style.
//!
//! The accepted notations are the exact shapes this library emits, plus
//! offsets: RFC 3339 with whole seconds and `Z` or a signed `hh:mm` offset
//! (no fractional seconds, upper-case `T`), RFC 2822 with a two-digit day
//! and a signed `hhmm` offset, and patterns built from the directives
//! `%Y %m %d %H %M %S %%` with literal characters between them.

use vstd::prelude::*;

use crate::chars::{chars_string, str_chars};

verus! {

/// A field an ordered query may sort by.
#[derive(Debug, Clone, Copy, PartialEq, Eq, Structural)]
pub enum OrderBy {
    CreatedAt,
    UpdatedAt,
}

/// A civil UTC date and time, to second precision.
#[derive(Debug, Clone, Copy, PartialEq, Eq, Structural)]
pub struct UtcDateTime {
    pub year: u32,
    pub month: u8,
    pub day: u8,
    pub hour: u8,
    pub minute: u8,
    pub second: u8,
}

/// Leap years of the proleptic Gregorian calendar.
pub open spec fn spec_is_leap(y: int) -> bool {
    y % 4 == 0 && (y % 100 != 0 || y % 400 == 0)
}

/// Number of days in a month.
pub open spec fn spec_month_len(y: int, m: int) -> int {
    if m == 2 {
        if spec_is_leap(y) {
            29
        } else {
            28
        }
    } else if m == 4 || m == 6 || m == 9 || m == 11 {
        30
    } else {
        31
    }
}

/// Number of days in a month.
pub fn month_len(year: u32, month: u8) -> (r: u8)
    ensures
        r as int == spec_month_len(year as int, month as int),
{
    if month == 2 {
        if year % 4 == 0 && (year % 100 != 0 || year % 400 == 0) {
            29
        } else {
            28
        }
    } else if month == 4 || month == 6 || month == 9 || month == 11 {
        30
    } else {
        31
    }
}

impl UtcDateTime {
    /// Well-formedness: a date that exists on the calendar, with in-range time
    /// fields, in the years the notations can express.
    pub open spec fn valid(self) -> bool {
        &&& 1 <= self.year <= 9999
        &&& 1 <= self.month <= 12
        &&& 1 <= self.day <= spec_month_len(self.year as int, self.month as int)
        &&& self.hour < 24
        &&& self.minute < 60
        &&& self.second < 60
    }

    /// Chronological order; on civil UTC fields this is lexicographic order.
    pub open spec fn spec_le(self, other: Self) -> bool {
        if self.year != other.year {
            self.year < other.year
        } else if self.month != other.month {
            self.month < other.month
        } else if self.day != other.day {
            self.day < other.day
        } else if self.hour != other.hour {
            self.hour < other.hour
        } else if self.minute != other.minute {
            self.minute < other.minute
        } else {
            self.second <= other.second
        }
    }

    /// Whether `self` is at or before `other` in time.
    pub fn le(&self, other: &Self) -> (r: bool)
        ensures
            r == self.spec_le(*other),
    {
        if self.year != other.year {
            self.year < other.year
        } else if self.month != other.month {
            self.month < other.month
        } else if self.day != other.day {
            self.day < other.day
        } else if self.hour != other.hour {
            self.hour < other.hour
        } else if self.minute != other.minute {
            self.minute < other.minute
        } else {
            self.second <= other.second
        }
    }
}

// ---------------------------------------------------------------------------
// Digits and zero-padded numbers
// ---------------------------------------------------------------------------

/// The character of a decimal digit.
pub open spec fn d2c(d: int) -> char {
    (48 + d) as char
}

/// The decimal value of a digit character.
pub open spec fn c2d(c: char) -> int {
    c as int - 48
}

/// Whether `c` is a decimal digit.
pub open spec fn spec_is_digit(c: char) -> bool {
    48 <= c as int <= 57
}

/// A number below 100, zero-padded to two digits.
pub open spec fn pad2(n: int) -> Seq<char> {
    seq![d2c(n / 10), d2c(n % 10)]
}

/// A number below 10000, zero-padded to four digits.
pub open spec fn pad4(n: int) -> Seq<char> {
    seq![d2c(n / 1000), d2c((n % 1000) / 100), d2c((n % 100) / 10), d2c(n % 10)]
}

/// The two-digit number at position `i` of `s`.
pub open spec fn num2(s: Seq<char>, i: int) -> int {
    c2d(s[i]) * 10 + c2d(s[i + 1])
}

/// The four-digit number at position `i` of `s`.
pub open spec fn num4(s: Seq<char>, i: int) -> int {
    c2d(s[i]) * 1000 + c2d(s[i + 1]) * 100 + c2d(s[i + 2]) * 10 + c2d(s[i + 3])
}

/// Reading back a two-digit padded number yields the number, and its
/// characters are digits.
pub proof fn lemma_pad2_num2(n: int)
    requires
        0 <= n < 100,
    ensures
        num2(pad2(n), 0) == n,
        forall|j: int| 0 <= j < 2 ==> spec_is_digit(#[trigger] pad2(n)[j]),
{
}

/// Reading back a four-digit padded number yields the number, and its
/// characters are digits.
pub proof fn lemma_pad4_num4(n: int)
    requires
        0 <= n < 10000,
    ensures
        num4(pad4(n), 0) == n,
        forall|j: int| 0 <= j < 4 ==> spec_is_digit(#[trigger] pad4(n)[j]),
{
}

/// Padding the number read from two digit characters yields those characters.
pub proof fn lemma_num2_pad2(s: Seq<char>, i: int)
    requires
        0 <= i,
        i + 2 <= s.len(),
        spec_is_digit(s[i]),
        spec_is_digit(s[i + 1]),
    ensures
        0 <= num2(s, i) < 100,
        pad2(num2(s, i)) =~= s.subrange(i, i + 2),
{
}

/// Padding the number read from four digit characters yields those characters.
pub proof fn lemma_num4_pad4(s: Seq<char>, i: int)
    requires
        0 <= i,
        i + 4 <= s.len(),
        spec_is_digit(s[i]),
        spec_is_digit(s[i + 1]),
        spec_is_digit(s[i + 2]),
        spec_is_digit(s[i + 3]),
    ensures
        0 <= num4(s, i) < 10000,
        pad4(num4(s, i)) =~= s.subrange(i, i + 4),
{
    let a = c2d(s[i]);
    let b = c2d(s[i + 1]);
    let c = c2d(s[i + 2]);
    let d = c2d(s[i + 3]);
    let v = num4(s, i);
    assert(v == a * 1000 + (b * 100 + c * 10 + d));
    assert(0 <= b * 100 + c * 10 + d < 1000);
    assert(v / 1000 == a);
    assert(v % 1000 == b * 100 + c * 10 + d);
    assert((v % 1000) / 100 == b);
    assert(v % 100 == c * 10 + d);
    assert((v % 100) / 10 == c);
    assert(v % 10 == d);
}

/// Appends a two-digit zero-padded number.
pub fn push_pad2(out: &mut Vec<char>, n: u8)
    requires
        n < 100,
    ensures
        final(out)@ == old(out)@ + pad2(n as int),
{
    out.push(((48 + n / 10) as u8) as char);
    out.push(((48 + n % 10) as u8) as char);
    assert(final(out)@ =~= old(out)@ + pad2(n as int));
}

/// Appends a four-digit zero-padded number.
pub fn push_pad4(out: &mut Vec<char>, n: u32)
    requires
        n < 10000,
    ensures
        final(out)@ == old(out)@ + pad4(n as int),
{
    out.push(((48 + n / 1000) as u8) as char);
    out.push(((48 + (n % 1000) / 100) as u8) as char);
    out.push(((48 + (n % 100) / 10) as u8) as char);
    out.push(((48 + n % 10) as u8) as char);
    assert(final(out)@ =~= old(out)@ + pad4(n as int));
}

/// Whether `c` is a decimal digit.
pub fn is_digit(c: char) -> (r: bool)
    ensures
        r == spec_is_digit(c),
{
    '0' <= c && c <= '9'
}

/// The value of a digit character.
pub fn digit_val(c: char) -> (r: u32)
    requires
        spec_is_digit(c),
    ensures
        r as int == c2d(c),
{
    (c as u32) - 48
}

/// The two-digit number at `i`; both characters must be digits.
pub fn read2(s: &Vec<char>, i: usize) -> (r: u32)
    requires
        i + 2 <= s@.len(),
        spec_is_digit(s@[i as int]),
        spec_is_digit(s@[i as int + 1]),
    ensures
        r as int == num2(s@, i as int),
        r < 100,
{
    let n = s.len();
    digit_val(s[i]) * 10 + digit_val(s[i + 1])
}

/// The four-digit number at `i`; all four characters must be digits.
pub fn read4(s: &Vec<char>, i: usize) -> (r: u32)
    requires
        i + 4 <= s@.len(),
        spec_is_digit(s@[i as int]),
        spec_is_digit(s@[i as int + 1]),
        spec_is_digit(s@[i as int + 2]),
        spec_is_digit(s@[i as int + 3]),
    ensures
        r as int == num4(s@, i as int),
        r < 10000,
{
    let n = s.len();
    digit_val(s[i]) * 1000 + digit_val(s[i + 1]) * 100 + digit_val(s[i + 2]) * 10 + digit_val(
        s[i + 3],
    )
}

// ---------------------------------------------------------------------------
// Applying a parsed offset: shifting an instant by less than a day
// ---------------------------------------------------------------------------

/// The calendar day before `dt`'s, at the same time of day; `None` when it
/// would leave the supported years.
pub open spec fn spec_prev_day(dt: UtcDateTime) -> Option<UtcDateTime> {
    if dt.day > 1 {
        Some(UtcDateTime { day: (dt.day - 1) as u8, ..dt })
    } else if dt.month > 1 {
        let m = (dt.month - 1) as u8;
        Some(
            UtcDateTime {
                month: m,
                day: spec_month_len(dt.year as int, m as int) as u8,
                ..dt
            },
        )
    } else if dt.year > 1 {
        Some(UtcDateTime { year: (dt.year - 1) as u32, month: 12, day: 31, ..dt })
    } else {
        None
    }
}

/// The calendar day after `dt`'s, at the same time of day; `None` when it
/// would leave the supported years.
pub open spec fn spec_next_day(dt: UtcDateTime) -> Option<UtcDateTime> {
    if (dt.day as int) < spec_month_len(dt.year as int, dt.month as int) {
        Some(UtcDateTime { day: (dt.day + 1) as u8, ..dt })
    } else if dt.month < 12 {
        Some(UtcDateTime { month: (dt.month + 1) as u8, day: 1, ..dt })
    } else if dt.year < 9999 {
        Some(UtcDateTime { year: (dt.year + 1) as u32, month: 1, day: 1, ..dt })
    } else {
        None
    }
}

/// `dt` shifted by `delta` minutes (less than a day in magnitude); `None`
/// when the result would leave the supported years.
pub open spec fn spec_shift_minutes(dt: UtcDateTime, delta: int) -> Option<UtcDateTime> {
    let tm = dt.hour as int * 60 + dt.minute as int + delta;
    if tm < 0 {
        let tm2 = tm + 1440;
        match spec_prev_day(dt) {
            Some(p) => Some(
                UtcDateTime { hour: (tm2 / 60) as u8, minute: (tm2 % 60) as u8, ..p },
            ),
            None => None,
        }
    } else if tm >= 1440 {
        let tm2 = tm - 1440;
        match spec_next_day(dt) {
            Some(n) => Some(
                UtcDateTime { hour: (tm2 / 60) as u8, minute: (tm2 % 60) as u8, ..n },
            ),
            None => None,
        }
    } else {
        Some(UtcDateTime { hour: (tm / 60) as u8, minute: (tm % 60) as u8, ..dt })
    }
}

/// Shifting preserves well-formedness.
pub proof fn lemma_shift_minutes_valid(dt: UtcDateTime, delta: int)
    requires
        dt.valid(),
        -1440 < delta < 1440,
    ensures
        match spec_shift_minutes(dt, delta) {
            Some(r) => r.valid(),
            None => true,
        },
{
}

/// Shifting by zero changes nothing.
pub proof fn lemma_shift_zero(dt: UtcDateTime)
    requires
        dt.valid(),
    ensures
        spec_shift_minutes(dt, 0) == Some(dt),
{
    let tm = dt.hour as int * 60 + dt.minute as int;
    assert(tm / 60 == dt.hour as int);
    assert(tm % 60 == dt.minute as int);
}

/// `dt` shifted by `delta` minutes.
pub fn shift_minutes(dt: &UtcDateTime, delta: i32) -> (r: Option<UtcDateTime>)
    requires
        dt.valid(),
        -1440 < delta < 1440,
    ensures
        r == spec_shift_minutes(*dt, delta as int),
        match r {
            Some(s) => s.valid(),
            None => true,
        },
{
    proof {
        lemma_shift_minutes_valid(*dt, delta as int);
    }
    let tm: i32 = dt.hour as i32 * 60 + dt.minute as i32 + delta;
    if tm < 0 {
        let tm2: i32 = tm + 1440;
        let base = if dt.day > 1 {
            UtcDateTime { day: dt.day - 1, ..*dt }
        } else if dt.month > 1 {
            let m: u8 = dt.month - 1;
            UtcDateTime { month: m, day: month_len(dt.year, m), ..*dt }
        } else if dt.year > 1 {
            UtcDateTime { year: dt.year - 1, month: 12, day: 31, ..*dt }
        } else {
            return None;
        };
        Some(UtcDateTime { hour: (tm2 / 60) as u8, minute: (tm2 % 60) as u8, ..base })
    } else if tm >= 1440 {
        let tm2: i32 = tm - 1440;
        let base = if dt.day < month_len(dt.year, dt.month) {
            UtcDateTime { day: dt.day + 1, ..*dt }
        } else if dt.month < 12 {
            UtcDateTime { month: dt.month + 1, day: 1, ..*dt }
        } else if dt.year < 9999 {
            UtcDateTime { year: dt.year + 1, month: 1, day: 1, ..*dt }
        } else {
            return None;
        };
        Some(UtcDateTime { hour: (tm2 / 60) as u8, minute: (tm2 % 60) as u8, ..base })
    } else {
        Some(UtcDateTime { hour: (tm / 60) as u8, minute: (tm % 60) as u8, ..*dt })
    }
}

// ---------------------------------------------------------------------------
// RFC 3339: "2022-01-11T19:08:09+00:00"
// ---------------------------------------------------------------------------

/// The RFC 3339 text of an instant; the offset is always `+00:00`.
pub open spec fn fmt_rfc3339(dt: UtcDateTime) -> Seq<char> {
    pad4(dt.year as int) + seq!['-'] + pad2(dt.month as int) + seq!['-'] + pad2(dt.day as int)
        + seq!['T'] + pad2(dt.hour as int) + seq![':'] + pad2(dt.minute as int) + seq![':'] + pad2(
        dt.second as int,
    ) + seq!['+', '0', '0', ':', '0', '0']
}

/// The date-and-time part every accepted RFC 3339 string starts with.
pub open spec fn rfc3339_core_shape(s: Seq<char>) -> bool {
    &&& s.len() >= 19
    &&& spec_is_digit(s[0])
    &&& spec_is_digit(s[1])
    &&& spec_is_digit(s[2])
    &&& spec_is_digit(s[3])
    &&& s[4] == '-'
    &&& spec_is_digit(s[5])
    &&& spec_is_digit(s[6])
    &&& s[7] == '-'
    &&& spec_is_digit(s[8])
    &&& spec_is_digit(s[9])
    &&& s[10] == 'T'
    &&& spec_is_digit(s[11])
    &&& spec_is_digit(s[12])
    &&& s[13] == ':'
    &&& spec_is_digit(s[14])
    &&& spec_is_digit(s[15])
    &&& s[16] == ':'
    &&& spec_is_digit(s[17])
    &&& spec_is_digit(s[18])
}

/// Accepted RFC 3339 offsets: `Z`, or a sign with `hh:mm`.
pub open spec fn rfc3339_offset_shape(s: Seq<char>) -> bool {
    if s.len() == 20 {
        s[19] == 'Z'
    } else if s.len() == 25 {
        &&& (s[19] == '+' || s[19] == '-')
        &&& spec_is_digit(s[20])
        &&& spec_is_digit(s[21])
        &&& s[22] == ':'
        &&& spec_is_digit(s[23])
        &&& spec_is_digit(s[24])
        &&& num2(s, 20) < 24
        &&& num2(s, 23) < 60
    } else {
        false
    }
}

/// The whole accepted RFC 3339 shape.
pub open spec fn rfc3339_shape(s: Seq<char>) -> bool {
    rfc3339_core_shape(s) && rfc3339_offset_shape(s)
}

/// The civil fields as written, before the offset is applied.
pub open spec fn rfc3339_raw(s: Seq<char>) -> UtcDateTime {
    UtcDateTime {
        year: num4(s, 0) as u32,
        month: num2(s, 5) as u8,
        day: num2(s, 8) as u8,
        hour: num2(s, 11) as u8,
        minute: num2(s, 14) as u8,
        second: num2(s, 17) as u8,
    }
}

/// The written offset, in minutes east of UTC.
pub open spec fn rfc3339_offset_minutes(s: Seq<char>) -> int {
    if s.len() == 20 {
        0
    } else if s[19] == '+' {
        num2(s, 20) * 60 + num2(s, 23)
    } else {
        -(num2(s, 20) * 60 + num2(s, 23))
    }
}

/// What parsing an RFC 3339 string yields: the written civil fields,
/// shifted to UTC by the written offset; `None` where the shape, the
/// calendar, or the supported years reject it.
pub open spec fn spec_parse_rfc3339(s: Seq<char>) -> Option<UtcDateTime> {
    if rfc3339_shape(s) && rfc3339_raw(s).valid() {
        spec_shift_minutes(rfc3339_raw(s), -rfc3339_offset_minutes(s))
    } else {
        None
    }
}

/// Appends the RFC 3339 text of `dt`.
pub fn push_rfc3339(out: &mut Vec<char>, dt: &UtcDateTime)
    requires
        dt.valid(),
    ensures
        final(out)@ == old(out)@ + fmt_rfc3339(*dt),
{
    push_pad4(out, dt.year);
    out.push('-');
    push_pad2(out, dt.month);
    out.push('-');
    push_pad2(out, dt.day);
    out.push('T');
    push_pad2(out, dt.hour);
    out.push(':');
    push_pad2(out, dt.minute);
    out.push(':');
    push_pad2(out, dt.second);
    out.push('+');
    out.push('0');
    out.push('0');
    out.push(':');
    out.push('0');
    out.push('0');
    assert(final(out)@ =~= old(out)@ + fmt_rfc3339(*dt));
}

/// Parses an RFC 3339 string.
pub fn parse_rfc3339_chars(s: &Vec<char>) -> (r: Option<UtcDateTime>)
    ensures
        r == spec_parse_rfc3339(s@),
        match r {
            Some(dt) => dt.valid(),
            None => true,
        },
{
    let n = s.len();
    if n != 20 && n != 25 {
        return None;
    }
    if !(is_digit(s[0]) && is_digit(s[1]) && is_digit(s[2]) && is_digit(s[3]) && s[4] == '-'
        && is_digit(s[5]) && is_digit(s[6]) && s[7] == '-' && is_digit(s[8]) && is_digit(s[9])
        && s[10] == 'T' && is_digit(s[11]) && is_digit(s[12]) && s[13] == ':' && is_digit(s[14])
        && is_digit(s[15]) && s[16] == ':' && is_digit(s[17]) && is_digit(s[18])) {
        return None;
    }
    let offset_minutes: i32 = if n == 20 {
        if s[19] != 'Z' {
            return None;
        }
        0
    } else {
        if !((s[19] == '+' || s[19] == '-') && is_digit(s[20]) && is_digit(s[21]) && s[22] == ':'
            && is_digit(s[23]) && is_digit(s[24])) {
            return None;
        }
        let hh = read2(s, 20);
        let mm = read2(s, 23);
        if !(hh < 24 && mm < 60) {
            return None;
        }
        let abs: i32 = (hh * 60 + mm) as i32;
        if s[19] == '+' {
            abs
        } else {
            -abs
        }
    };
    let raw = UtcDateTime {
        year: read4(s, 0),
        month: read2(s, 5) as u8,
        day: read2(s, 8) as u8,
        hour: read2(s, 11) as u8,
        minute: read2(s, 14) as u8,
        second: read2(s, 17) as u8,
    };
    if !(1 <= raw.year && 1 <= raw.month && raw.month <= 12 && 1 <= raw.day && raw.day <= month_len(
        raw.year,
        raw.month,
    ) && raw.hour < 24 && raw.minute < 60 && raw.second < 60) {
        return None;
    }
    shift_minutes(&raw, -offset_minutes)
}

/// The RFC 3339 notation round-trips: formatting an instant and parsing it
/// back yields the same instant.
#[verifier::rlimit(100)]
pub proof fn lemma_rfc3339_roundtrip(dt: UtcDateTime)
    requires
        dt.valid(),
    ensures
        spec_parse_rfc3339(fmt_rfc3339(dt)) == Some(dt),
{
    let s = fmt_rfc3339(dt);
    lemma_pad4_num4(dt.year as int);
    lemma_pad2_num2(dt.month as int);
    lemma_pad2_num2(dt.day as int);
    lemma_pad2_num2(dt.hour as int);
    lemma_pad2_num2(dt.minute as int);
    lemma_pad2_num2(dt.second as int);
    assert(s.len() == 25);
    assert(s.subrange(0, 4) =~= pad4(dt.year as int));
    assert(s.subrange(5, 7) =~= pad2(dt.month as int));
    assert(s.subrange(8, 10) =~= pad2(dt.day as int));
    assert(s.subrange(11, 13) =~= pad2(dt.hour as int));
    assert(s.subrange(14, 16) =~= pad2(dt.minute as int));
    assert(s.subrange(17, 19) =~= pad2(dt.second as int));
    assert(num4(s, 0) == num4(pad4(dt.year as int), 0));
    assert(num2(s, 5) == num2(pad2(dt.month as int), 0));
    assert(num2(s, 8) == num2(pad2(dt.day as int), 0));
    assert(num2(s, 11) == num2(pad2(dt.hour as int), 0));
    assert(num2(s, 14) == num2(pad2(dt.minute as int), 0));
    assert(num2(s, 17) == num2(pad2(dt.second as int), 0));
    assert(s[19] == '+' && s[20] == '0' && s[21] == '0' && s[22] == ':' && s[23] == '0' && s[24]
        == '0');
    assert(num2(s, 20) == 0 && num2(s, 23) == 0);
    assert(rfc3339_shape(s));
    assert(rfc3339_raw(s) == dt);
    assert(rfc3339_offset_minutes(s) == 0);
    lemma_shift_zero(dt);
}

/// An accepted RFC 3339 string written with the `+00:00` offset round-trips:
/// parsing it and formatting the result reproduces it byte for byte. (A
/// string with another offset, such as a trailing `Z`, is re-serialized in
/// `+00:00` form instead.)
pub proof fn lemma_rfc3339_format_parse(s: Seq<char>)
    requires
        rfc3339_shape(s),
        rfc3339_raw(s).valid(),
        s.len() == 25,
        s[19] == '+',
        num2(s, 20) == 0,
        num2(s, 23) == 0,
    ensures
        spec_parse_rfc3339(s) == Some(rfc3339_raw(s)),
        fmt_rfc3339(rfc3339_raw(s)) =~= s,
{
    let dt = rfc3339_raw(s);
    assert(rfc3339_offset_minutes(s) == 0);
    lemma_shift_zero(dt);
    lemma_num4_pad4(s, 0);
    lemma_num2_pad2(s, 5);
    lemma_num2_pad2(s, 8);
    lemma_num2_pad2(s, 11);
    lemma_num2_pad2(s, 14);
    lemma_num2_pad2(s, 17);
    assert(pad4(dt.year as int) =~= s.subrange(0, 4));
    assert(pad2(dt.month as int) =~= s.subrange(5, 7));
    assert(pad2(dt.day as int) =~= s.subrange(8, 10));
    assert(pad2(dt.hour as int) =~= s.subrange(11, 13));
    assert(pad2(dt.minute as int) =~= s.subrange(14, 16));
    assert(pad2(dt.second as int) =~= s.subrange(17, 19));
    assert(c2d(s[20]) == 0 && c2d(s[21]) == 0 && c2d(s[23]) == 0 && c2d(s[24]) == 0);
    assert(s[20] == '0' && s[21] == '0' && s[23] == '0' && s[24] == '0');
}

// ---------------------------------------------------------------------------
// RFC 2822: "Tue, 11 Jan 2022 19:09:09 +0000"
// ---------------------------------------------------------------------------

/// Sakamoto's month offsets for the day-of-week computation.
pub open spec fn sakamoto_t(m: int) -> int {
    if m == 1 {
        0
    } else if m == 2 {
        3
    } else if m == 3 {
        2
    } else if m == 4 {
        5
    } else if m == 5 {
        0
    } else if m == 6 {
        3
    } else if m == 7 {
        5
    } else if m == 8 {
        1
    } else if m == 9 {
        4
    } else if m == 10 {
        6
    } else if m == 11 {
        2
    } else {
        4
    }
}

/// Day of the week of a calendar date, 0 for Sunday through 6 for Saturday
/// (Sakamoto's method).
pub open spec fn spec_weekday(y: int, m: int, d: int) -> int {
    let yy = if m < 3 {
        y - 1
    } else {
        y
    };
    (yy + yy / 4 - yy / 100 + yy / 400 + sakamoto_t(m) + d) % 7
}

/// Day of the week, 0 for Sunday through 6 for Saturday.
pub fn weekday(year: u32, month: u8, day: u8) -> (r: u32)
    requires
        1 <= year <= 9999,
        1 <= month <= 12,
        1 <= day <= 31,
    ensures
        r as int == spec_weekday(year as int, month as int, day as int),
        r < 7,
{
    let yy: u32 = if month < 3 {
        year - 1
    } else {
        year
    };
    let t: u32 = if month == 1 {
        0
    } else if month == 2 {
        3
    } else if month == 3 {
        2
    } else if month == 4 {
        5
    } else if month == 5 {
        0
    } else if month == 6 {
        3
    } else if month == 7 {
        5
    } else if month == 8 {
        1
    } else if month == 9 {
        4
    } else if month == 10 {
        6
    } else if month == 11 {
        2
    } else {
        4
    };
    (yy + yy / 4 - yy / 100 + yy / 400 + t + day as u32) % 7
}

/// The three-letter weekday abbreviation.
pub open spec fn weekday_name(w: int) -> Seq<char> {
    if w == 0 {
        seq!['S', 'u', 'n']
    } else if w == 1 {
        seq!['M', 'o', 'n']
    } else if w == 2 {
        seq!['T', 'u', 'e']
    } else if w == 3 {
        seq!['W', 'e', 'd']
    } else if w == 4 {
        seq!['T', 'h', 'u']
    } else if w == 5 {
        seq!['F', 'r', 'i']
    } else {
        seq!['S', 'a', 't']
    }
}

/// The three-letter month abbreviation.
pub open spec fn month_name(m: int) -> Seq<char> {
    if m == 1 {
        seq!['J', 'a', 'n']
    } else if m == 2 {
        seq!['F', 'e', 'b']
    } else if m == 3 {
        seq!['M', 'a', 'r']
    } else if m == 4 {
        seq!['A', 'p', 'r']
    } else if m == 5 {
        seq!['M', 'a', 'y']
    } else if m == 6 {
        seq!['J', 'u', 'n']
    } else if m == 7 {
        seq!['J', 'u', 'l']
    } else if m == 8 {
        seq!['A', 'u', 'g']
    } else if m == 9 {
        seq!['S', 'e', 'p']
    } else if m == 10 {
        seq!['O', 'c', 't']
    } else if m == 11 {
        seq!['N', 'o', 'v']
    } else {
        seq!['D', 'e', 'c']
    }
}

/// The month a three-letter abbreviation names, or 0 when none does.
pub open spec fn month_of_name(t: Seq<char>) -> int {
    if t =~= month_name(1) {
        1
    } else if t =~= month_name(2) {
        2
    } else if t =~= month_name(3) {
        3
    } else if t =~= month_name(4) {
        4
    } else if t =~= month_name(5) {
        5
    } else if t =~= month_name(6) {
        6
    } else if t =~= month_name(7) {
        7
    } else if t =~= month_name(8) {
        8
    } else if t =~= month_name(9) {
        9
    } else if t =~= month_name(10) {
        10
    } else if t =~= month_name(11) {
        11
    } else if t =~= month_name(12) {
        12
    } else {
        0
    }
}

/// A month's name names that month.
pub proof fn lemma_month_name_inverse(m: int)
    requires
        1 <= m <= 12,
    ensures
        month_of_name(month_name(m)) == m,
{
}

/// The RFC 2822 text of an instant; the offset is always `+0000`.
pub open spec fn fmt_rfc2822(dt: UtcDateTime) -> Seq<char> {
    weekday_name(spec_weekday(dt.year as int, dt.month as int, dt.day as int)) + seq![',', ' ']
        + pad2(dt.day as int) + seq![' '] + month_name(dt.month as int) + seq![' '] + pad4(
        dt.year as int,
    ) + seq![' '] + pad2(dt.hour as int) + seq![':'] + pad2(dt.minute as int) + seq![':'] + pad2(
        dt.second as int,
    ) + seq![' ', '+', '0', '0', '0', '0']
}

/// The accepted RFC 2822 shape: exactly the layout this library emits, with
/// any sign and in-range `hhmm` offset, and a weekday consistent with the
/// date.
pub open spec fn rfc2822_shape(s: Seq<char>) -> bool {
    &&& s.len() == 31
    &&& s[3] == ','
    &&& s[4] == ' '
    &&& spec_is_digit(s[5])
    &&& spec_is_digit(s[6])
    &&& s[7] == ' '
    &&& 1 <= month_of_name(s.subrange(8, 11))
    &&& s[11] == ' '
    &&& spec_is_digit(s[12])
    &&& spec_is_digit(s[13])
    &&& spec_is_digit(s[14])
    &&& spec_is_digit(s[15])
    &&& s[16] == ' '
    &&& spec_is_digit(s[17])
    &&& spec_is_digit(s[18])
    &&& s[19] == ':'
    &&& spec_is_digit(s[20])
    &&& spec_is_digit(s[21])
    &&& s[22] == ':'
    &&& spec_is_digit(s[23])
    &&& spec_is_digit(s[24])
    &&& s[25] == ' '
    &&& (s[26] == '+' || s[26] == '-')
    &&& spec_is_digit(s[27])
    &&& spec_is_digit(s[28])
    &&& spec_is_digit(s[29])
    &&& spec_is_digit(s[30])
    &&& num2(s, 27) < 24
    &&& num2(s, 29) < 60
}

/// The civil fields as written, before the offset is applied.
pub open spec fn rfc2822_raw(s: Seq<char>) -> UtcDateTime {
    UtcDateTime {
        year: num4(s, 12) as u32,
        month: month_of_name(s.subrange(8, 11)) as u8,
        day: num2(s, 5) as u8,
        hour: num2(s, 17) as u8,
        minute: num2(s, 20) as u8,
        second: num2(s, 23) as u8,
    }
}

/// The written offset, in minutes east of UTC.
pub open spec fn rfc2822_offset_minutes(s: Seq<char>) -> int {
    if s[26] == '+' {
        num2(s, 27) * 60 + num2(s, 29)
    } else {
        -(num2(s, 27) * 60 + num2(s, 29))
    }
}

/// Whether the written weekday is the weekday of the written date.
pub open spec fn rfc2822_weekday_ok(s: Seq<char>) -> bool {
    let raw = rfc2822_raw(s);
    s.subrange(0, 3) =~= weekday_name(
        spec_weekday(raw.year as int, raw.month as int, raw.day as int),
    )
}

/// What parsing an RFC 2822 string yields.
pub open spec fn spec_parse_rfc2822(s: Seq<char>) -> Option<UtcDateTime> {
    if rfc2822_shape(s) && rfc2822_raw(s).valid() && rfc2822_weekday_ok(s) {
        spec_shift_minutes(rfc2822_raw(s), -rfc2822_offset_minutes(s))
    } else {
        None
    }
}

/// Appends the three-letter weekday abbreviation.
fn push_weekday_name(out: &mut Vec<char>, w: u32)
    requires
        w < 7,
    ensures
        final(out)@ == old(out)@ + weekday_name(w as int),
{
    let (a, b, c): (char, char, char) = if w == 0 {
        ('S', 'u', 'n')
    } else if w == 1 {
        ('M', 'o', 'n')
    } else if w == 2 {
        ('T', 'u', 'e')
    } else if w == 3 {
        ('W', 'e', 'd')
    } else if w == 4 {
        ('T', 'h', 'u')
    } else if w == 5 {
        ('F', 'r', 'i')
    } else {
        ('S', 'a', 't')
    };
    out.push(a);
    out.push(b);
    out.push(c);
    assert(final(out)@ =~= old(out)@ + weekday_name(w as int));
}

/// Appends the three-letter month abbreviation.
fn push_month_name(out: &mut Vec<char>, m: u8)
    requires
        1 <= m <= 12,
    ensures
        final(out)@ == old(out)@ + month_name(m as int),
{
    let (a, b, c): (char, char, char) = if m == 1 {
        ('J', 'a', 'n')
    } else if m == 2 {
        ('F', 'e', 'b')
    } else if m == 3 {
        ('M', 'a', 'r')
    } else if m == 4 {
        ('A', 'p', 'r')
    } else if m == 5 {
        ('M', 'a', 'y')
    } else if m == 6 {
        ('J', 'u', 'n')
    } else if m == 7 {
        ('J', 'u', 'l')
    } else if m == 8 {
        ('A', 'u', 'g')
    } else if m == 9 {
        ('S', 'e', 'p')
    } else if m == 10 {
        ('O', 'c', 't')
    } else if m == 11 {
        ('N', 'o', 'v')
    } else {
        ('D', 'e', 'c')
    };
    out.push(a);
    out.push(b);
    out.push(c);
    assert(final(out)@ =~= old(out)@ + month_name(m as int));
}

/// Reads the month a three-letter abbreviation at `i` names, or 0.
fn read_month_name(s: &Vec<char>, i: usize) -> (r: u8)
    requires
        i + 3 <= s@.len(),
    ensures
        r as int == month_of_name(s@.subrange(i as int, i as int + 3)),
{
    let n = s.len();
    let a = s[i];
    let b = s[i + 1];
    let c = s[i + 2];
    let ghost t = s@.subrange(i as int, i as int + 3);
    assert(t.len() == 3 && t[0] == a && t[1] == b && t[2] == c);
    let r: u8 = if a == 'J' && b == 'a' && c == 'n' {
        1
    } else if a == 'F' && b == 'e' && c == 'b' {
        2
    } else if a == 'M' && b == 'a' && c == 'r' {
        3
    } else if a == 'A' && b == 'p' && c == 'r' {
        4
    } else if a == 'M' && b == 'a' && c == 'y' {
        5
    } else if a == 'J' && b == 'u' && c == 'n' {
        6
    } else if a == 'J' && b == 'u' && c == 'l' {
        7
    } else if a == 'A' && b == 'u' && c == 'g' {
        8
    } else if a == 'S' && b == 'e' && c == 'p' {
        9
    } else if a == 'O' && b == 'c' && c == 't' {
        10
    } else if a == 'N' && b == 'o' && c == 'v' {
        11
    } else if a == 'D' && b == 'e' && c == 'c' {
        12
    } else {
        0
    };
    proof {
        if r == 0 {
            assert(forall|m: int| 1 <= m <= 12 ==> !(t =~= #[trigger] month_name(m)));
        }
    }
    r
}

/// Appends the RFC 2822 text of `dt`.
#[verifier::rlimit(100)]
pub fn push_rfc2822(out: &mut Vec<char>, dt: &UtcDateTime)
    requires
        dt.valid(),
    ensures
        final(out)@ == old(out)@ + fmt_rfc2822(*dt),
{
    let w = weekday(dt.year, dt.month, dt.day);
    push_weekday_name(out, w);
    out.push(',');
    out.push(' ');
    push_pad2(out, dt.day);
    out.push(' ');
    push_month_name(out, dt.month);
    out.push(' ');
    push_pad4(out, dt.year);
    out.push(' ');
    push_pad2(out, dt.hour);
    out.push(':');
    push_pad2(out, dt.minute);
    out.push(':');
    push_pad2(out, dt.second);
    out.push(' ');
    out.push('+');
    out.push('0');
    out.push('0');
    out.push('0');
    out.push('0');
    assert(final(out)@ =~= old(out)@ + fmt_rfc2822(*dt));
}

/// Parses an RFC 2822 string.
pub fn parse_rfc2822_chars(s: &Vec<char>) -> (r: Option<UtcDateTime>)
    ensures
        r == spec_parse_rfc2822(s@),
        match r {
            Some(dt) => dt.valid(),
            None => true,
        },
{
    let n = s.len();
    if n != 31 {
        return None;
    }
    let month = read_month_name(s, 8);
    if !(s[3] == ',' && s[4] == ' ' && is_digit(s[5]) && is_digit(s[6]) && s[7] == ' ' && 1
        <= month && s[11] == ' ' && is_digit(s[12]) && is_digit(s[13]) && is_digit(s[14])
        && is_digit(s[15]) && s[16] == ' ' && is_digit(s[17]) && is_digit(s[18]) && s[19] == ':'
        && is_digit(s[20]) && is_digit(s[21]) && s[22] == ':' && is_digit(s[23]) && is_digit(s[24])
        && s[25] == ' ' && (s[26] == '+' || s[26] == '-') && is_digit(s[27]) && is_digit(s[28])
        && is_digit(s[29]) && is_digit(s[30])) {
        return None;
    }
    let off_h = read2(s, 27);
    let off_m = read2(s, 29);
    if !(off_h < 24 && off_m < 60) {
        return None;
    }
    let raw = UtcDateTime {
        year: read4(s, 12),
        month,
        day: read2(s, 5) as u8,
        hour: read2(s, 17) as u8,
        minute: read2(s, 20) as u8,
        second: read2(s, 23) as u8,
    };
    if !(1 <= raw.year && 1 <= raw.day && raw.day <= month_len(raw.year, raw.month) && raw.hour
        < 24 && raw.minute < 60 && raw.second < 60) {
        return None;
    }
    let w = weekday(raw.year, raw.month, raw.day);
    let ok = match w {
        0 => s[0] == 'S' && s[1] == 'u' && s[2] == 'n',
        1 => s[0] == 'M' && s[1] == 'o' && s[2] == 'n',
        2 => s[0] == 'T' && s[1] == 'u' && s[2] == 'e',
        3 => s[0] == 'W' && s[1] == 'e' && s[2] == 'd',
        4 => s[0] == 'T' && s[1] == 'h' && s[2] == 'u',
        5 => s[0] == 'F' && s[1] == 'r' && s[2] == 'i',
        _ => s[0] == 'S' && s[1] == 'a' && s[2] == 't',
    };
    proof {
        assert(s@.subrange(0, 3).len() == 3 && s@.subrange(0, 3)[0] == s@[0] && s@.subrange(0, 3)[1]
            == s@[1] && s@.subrange(0, 3)[2] == s@[2]);
    }
    if !ok {
        assert(!rfc2822_weekday_ok(s@));
        return None;
    }
    assert(rfc2822_weekday_ok(s@));
    let abs: i32 = (off_h * 60 + off_m) as i32;
    let offset_minutes: i32 = if s[26] == '+' {
        abs
    } else {
        -abs
    };
    shift_minutes(&raw, -offset_minutes)
}

/// Where each part of the RFC 2822 text stands.
#[verifier::rlimit(100)]
pub proof fn lemma_rfc2822_fmt_parts(dt: UtcDateTime)
    requires
        dt.valid(),
    ensures
        fmt_rfc2822(dt).len() == 31,
        fmt_rfc2822(dt).subrange(0, 3) =~= weekday_name(
            spec_weekday(dt.year as int, dt.month as int, dt.day as int),
        ),
        fmt_rfc2822(dt).subrange(5, 7) =~= pad2(dt.day as int),
        fmt_rfc2822(dt).subrange(8, 11) =~= month_name(dt.month as int),
        fmt_rfc2822(dt).subrange(12, 16) =~= pad4(dt.year as int),
        fmt_rfc2822(dt).subrange(17, 19) =~= pad2(dt.hour as int),
        fmt_rfc2822(dt).subrange(20, 22) =~= pad2(dt.minute as int),
        fmt_rfc2822(dt).subrange(23, 25) =~= pad2(dt.second as int),
        fmt_rfc2822(dt)[3] == ',' && fmt_rfc2822(dt)[4] == ' ' && fmt_rfc2822(dt)[7] == ' '
            && fmt_rfc2822(dt)[11] == ' ' && fmt_rfc2822(dt)[16] == ' ' && fmt_rfc2822(dt)[19]
            == ':' && fmt_rfc2822(dt)[22] == ':' && fmt_rfc2822(dt)[25] == ' ',
        fmt_rfc2822(dt)[26] == '+' && fmt_rfc2822(dt)[27] == '0' && fmt_rfc2822(dt)[28] == '0'
            && fmt_rfc2822(dt)[29] == '0' && fmt_rfc2822(dt)[30] == '0',
{
    let s = fmt_rfc2822(dt);
    let w = spec_weekday(dt.year as int, dt.month as int, dt.day as int);
    assert(s.len() == 31);
    assert(s.subrange(0, 3) =~= weekday_name(w));
    assert(s.subrange(5, 7) =~= pad2(dt.day as int));
    assert(s.subrange(8, 11) =~= month_name(dt.month as int));
    assert(s.subrange(12, 16) =~= pad4(dt.year as int));
    assert(s.subrange(17, 19) =~= pad2(dt.hour as int));
    assert(s.subrange(20, 22) =~= pad2(dt.minute as int));
    assert(s.subrange(23, 25) =~= pad2(dt.second as int));
}

/// The RFC 2822 notation round-trips: formatting an instant and parsing it
/// back yields the same instant.
#[verifier::rlimit(100)]
pub proof fn lemma_rfc2822_roundtrip(dt: UtcDateTime)
    requires
        dt.valid(),
    ensures
        spec_parse_rfc2822(fmt_rfc2822(dt)) == Some(dt),
{
    let s = fmt_rfc2822(dt);
    let w = spec_weekday(dt.year as int, dt.month as int, dt.day as int);
    lemma_rfc2822_fmt_parts(dt);
    lemma_pad4_num4(dt.year as int);
    lemma_pad2_num2(dt.day as int);
    lemma_pad2_num2(dt.hour as int);
    lemma_pad2_num2(dt.minute as int);
    lemma_pad2_num2(dt.second as int);
    lemma_month_name_inverse(dt.month as int);
    assert(num2(s, 5) == num2(pad2(dt.day as int), 0));
    assert(num4(s, 12) == num4(pad4(dt.year as int), 0));
    assert(num2(s, 17) == num2(pad2(dt.hour as int), 0));
    assert(num2(s, 20) == num2(pad2(dt.minute as int), 0));
    assert(num2(s, 23) == num2(pad2(dt.second as int), 0));
    assert(s[26] == '+' && s[27] == '0' && s[28] == '0' && s[29] == '0' && s[30] == '0');
    assert(num2(s, 27) == 0 && num2(s, 29) == 0);
    assert(rfc2822_shape(s));
    assert(rfc2822_raw(s) == dt);
    assert(rfc2822_weekday_ok(s));
    assert(rfc2822_offset_minutes(s) == 0);
    lemma_shift_zero(dt);
}

/// An accepted RFC 2822 string written with the `+0000` offset round-trips:
/// parsing it and formatting the result reproduces it byte for byte.
pub proof fn lemma_rfc2822_format_parse(s: Seq<char>)
    requires
        rfc2822_shape(s),
        rfc2822_raw(s).valid(),
        rfc2822_weekday_ok(s),
        s[26] == '+',
        num2(s, 27) == 0,
        num2(s, 29) == 0,
    ensures
        spec_parse_rfc2822(s) == Some(rfc2822_raw(s)),
        fmt_rfc2822(rfc2822_raw(s)) =~= s,
{
    let dt = rfc2822_raw(s);
    assert(rfc2822_offset_minutes(s) == 0);
    lemma_shift_zero(dt);
    lemma_num2_pad2(s, 5);
    lemma_num4_pad4(s, 12);
    lemma_num2_pad2(s, 17);
    lemma_num2_pad2(s, 20);
    lemma_num2_pad2(s, 23);
    lemma_month_name_inverse(dt.month as int);
    assert(month_name(dt.month as int) =~= s.subrange(8, 11));
    assert(pad2(dt.day as int) =~= s.subrange(5, 7));
    assert(pad4(dt.year as int) =~= s.subrange(12, 16));
    assert(pad2(dt.hour as int) =~= s.subrange(17, 19));
    assert(pad2(dt.minute as int) =~= s.subrange(20, 22));
    assert(pad2(dt.second as int) =~= s.subrange(23, 25));
    assert(weekday_name(spec_weekday(dt.year as int, dt.month as int, dt.day as int)) =~= s.subrange(
        0,
        3,
    ));
    assert(c2d(s[27]) == 0 && c2d(s[28]) == 0 && c2d(s[29]) == 0 && c2d(s[30]) == 0);
    assert(s[27] == '0' && s[28] == '0' && s[29] == '0' && s[30] == '0');
}

// ---------------------------------------------------------------------------
// Custom strftime-style patterns: %Y %m %d %H %M %S %%
// ---------------------------------------------------------------------------

/// Whether `p[i..]` is a well-formed pattern: every `%` is followed by a
/// supported directive.
pub open spec fn valid_pattern_from(p: Seq<char>, i: int) -> bool
    decreases p.len() - i,
{
    if i >= p.len() {
        true
    } else if p[i] == '%' {
        &&& i + 1 < p.len()
        &&& (p[i + 1] == 'Y' || p[i + 1] == 'm' || p[i + 1] == 'd' || p[i + 1] == 'H' || p[i + 1]
            == 'M' || p[i + 1] == 'S' || p[i + 1] == '%')
        &&& valid_pattern_from(p, i + 2)
    } else {
        valid_pattern_from(p, i + 1)
    }
}

/// How many times directive `c` occurs in `p[i..]`.
pub open spec fn dir_count(p: Seq<char>, i: int, c: char) -> int
    decreases p.len() - i,
{
    if i >= p.len() {
        0
    } else if p[i] == '%' && i + 1 < p.len() {
        (if p[i + 1] == c {
            1int
        } else {
            0int
        }) + dir_count(p, i + 2, c)
    } else {
        dir_count(p, i + 1, c)
    }
}

/// A directive count is never negative.
pub proof fn lemma_dir_count_nonneg(p: Seq<char>, i: int, c: char)
    requires
        0 <= i,
    ensures
        dir_count(p, i, c) >= 0,
    decreases p.len() - i,
{
    if i >= p.len() {
    } else if p[i] == '%' && i + 1 < p.len() {
        lemma_dir_count_nonneg(p, i + 2, c);
    } else {
        lemma_dir_count_nonneg(p, i + 1, c);
    }
}

/// A pattern this library can parse by: well-formed, the date directives
/// present exactly once, the time directives at most once.
pub open spec fn parseable_pattern(p: Seq<char>) -> bool {
    &&& valid_pattern_from(p, 0)
    &&& dir_count(p, 0, 'Y') == 1
    &&& dir_count(p, 0, 'm') == 1
    &&& dir_count(p, 0, 'd') == 1
    &&& dir_count(p, 0, 'H') <= 1
    &&& dir_count(p, 0, 'M') <= 1
    &&& dir_count(p, 0, 'S') <= 1
}

/// The text a single directive produces.
pub open spec fn dir_text(c: char, dt: UtcDateTime) -> Seq<char> {
    if c == 'Y' {
        pad4(dt.year as int)
    } else if c == 'm' {
        pad2(dt.month as int)
    } else if c == 'd' {
        pad2(dt.day as int)
    } else if c == 'H' {
        pad2(dt.hour as int)
    } else if c == 'M' {
        pad2(dt.minute as int)
    } else if c == 'S' {
        pad2(dt.second as int)
    } else if c == '%' {
        seq!['%']
    } else {
        Seq::empty()
    }
}

/// The text of `dt` under pattern `p[i..]`.
pub open spec fn fmt_custom_from(p: Seq<char>, i: int, dt: UtcDateTime) -> Seq<char>
    decreases p.len() - i,
{
    if i >= p.len() {
        Seq::empty()
    } else if p[i] == '%' && i + 1 < p.len() {
        dir_text(p[i + 1], dt) + fmt_custom_from(p, i + 2, dt)
    } else {
        seq![p[i]] + fmt_custom_from(p, i + 1, dt)
    }
}

/// The text of `dt` under pattern `p`.
pub open spec fn fmt_custom(p: Seq<char>, dt: UtcDateTime) -> Seq<char> {
    fmt_custom_from(p, 0, dt)
}

/// Civil fields accumulated while parsing by a pattern.
#[derive(Debug, Clone, Copy, PartialEq, Eq, Structural)]
pub struct DtFields {
    pub year: u32,
    pub month: u8,
    pub day: u8,
    pub hour: u8,
    pub minute: u8,
    pub second: u8,
    pub has_year: bool,
    pub has_month: bool,
    pub has_day: bool,
}

/// The empty accumulator: nothing seen, time fields zero.
pub open spec fn spec_empty_fields() -> DtFields {
    DtFields {
        year: 0,
        month: 0,
        day: 0,
        hour: 0,
        minute: 0,
        second: 0,
        has_year: false,
        has_month: false,
        has_day: false,
    }
}

/// Whether `s` has two digits at `j`.
pub open spec fn digits2_at(s: Seq<char>, j: int) -> bool {
    j + 2 <= s.len() && spec_is_digit(s[j]) && spec_is_digit(s[j + 1])
}

/// Whether `s` has four digits at `j`.
pub open spec fn digits4_at(s: Seq<char>, j: int) -> bool {
    j + 4 <= s.len() && spec_is_digit(s[j]) && spec_is_digit(s[j + 1]) && spec_is_digit(s[j + 2])
        && spec_is_digit(s[j + 3])
}

/// Parsing `s[j..]` by pattern `p[i..]` on top of `acc`; the whole rest of
/// `s` must be consumed.
pub open spec fn spec_parse_custom_from(
    p: Seq<char>,
    i: int,
    s: Seq<char>,
    j: int,
    acc: DtFields,
) -> Option<DtFields>
    decreases p.len() - i,
{
    if i >= p.len() {
        if j == s.len() {
            Some(acc)
        } else {
            None
        }
    } else if p[i] == '%' && i + 1 < p.len() {
        let c = p[i + 1];
        if c == '%' {
            if j < s.len() && s[j] == '%' {
                spec_parse_custom_from(p, i + 2, s, j + 1, acc)
            } else {
                None
            }
        } else if c == 'Y' {
            if digits4_at(s, j) {
                spec_parse_custom_from(
                    p,
                    i + 2,
                    s,
                    j + 4,
                    DtFields { year: num4(s, j) as u32, has_year: true, ..acc },
                )
            } else {
                None
            }
        } else if c == 'm' {
            if digits2_at(s, j) {
                spec_parse_custom_from(
                    p,
                    i + 2,
                    s,
                    j + 2,
                    DtFields { month: num2(s, j) as u8, has_month: true, ..acc },
                )
            } else {
                None
            }
        } else if c == 'd' {
            if digits2_at(s, j) {
                spec_parse_custom_from(
                    p,
                    i + 2,
                    s,
                    j + 2,
                    DtFields { day: num2(s, j) as u8, has_day: true, ..acc },
                )
            } else {
                None
            }
        } else if c == 'H' {
            if digits2_at(s, j) {
                spec_parse_custom_from(
                    p,
                    i + 2,
                    s,
                    j + 2,
                    DtFields { hour: num2(s, j) as u8, ..acc },
                )
            } else {
                None
            }
        } else if c == 'M' {
            if digits2_at(s, j) {
                spec_parse_custom_from(
                    p,
                    i + 2,
                    s,
                    j + 2,
                    DtFields { minute: num2(s, j) as u8, ..acc },
                )
            } else {
                None
            }
        } else if c == 'S' {
            if digits2_at(s, j) {
                spec_parse_custom_from(
                    p,
                    i + 2,
                    s,
                    j + 2,
                    DtFields { second: num2(s, j) as u8, ..acc },
                )
            } else {
                None
            }
        } else {
            None
        }
    } else {
        if j < s.len() && s[j] == p[i] {
            spec_parse_custom_from(p, i + 1, s, j + 1, acc)
        } else {
            None
        }
    }
}

/// The instant a field accumulator denotes, if it is a real calendar date.
pub open spec fn spec_fields_to_dt(f: DtFields) -> Option<UtcDateTime> {
    let dt = UtcDateTime {
        year: f.year,
        month: f.month,
        day: f.day,
        hour: f.hour,
        minute: f.minute,
        second: f.second,
    };
    if f.has_year && f.has_month && f.has_day && dt.valid() {
        Some(dt)
    } else {
        None
    }
}

/// What parsing `s` by the pattern `p` yields.
pub open spec fn spec_parse_custom(p: Seq<char>, s: Seq<char>) -> Option<UtcDateTime> {
    if parseable_pattern(p) {
        match spec_parse_custom_from(p, 0, s, 0, spec_empty_fields()) {
            Some(f) => spec_fields_to_dt(f),
            None => None,
        }
    } else {
        None
    }
}

/// Appends the text of `dt` under the pattern tail `p[i..]`.
pub fn push_custom_from(out: &mut Vec<char>, p: &Vec<char>, i: usize, dt: &UtcDateTime)
    requires
        i <= p@.len(),
        dt.valid(),
    ensures
        final(out)@ == old(out)@ + fmt_custom_from(p@, i as int, *dt),
    decreases p@.len() - i,
{
    let n = p.len();
    if i >= n {
        assert(final(out)@ =~= old(out)@ + fmt_custom_from(p@, i as int, *dt));
        return ;
    }
    if p[i] == '%' && i + 1 < n {
        let c = p[i + 1];
        if c == 'Y' {
            push_pad4(out, dt.year);
        } else if c == 'm' {
            push_pad2(out, dt.month);
        } else if c == 'd' {
            push_pad2(out, dt.day);
        } else if c == 'H' {
            push_pad2(out, dt.hour);
        } else if c == 'M' {
            push_pad2(out, dt.minute);
        } else if c == 'S' {
            push_pad2(out, dt.second);
        } else if c == '%' {
            out.push('%');
        } else {
            assert(dir_text(c, *dt) =~= Seq::<char>::empty());
        }
        assert(out@ =~= old(out)@ + dir_text(p@[i as int + 1], *dt));
        push_custom_from(out, p, i + 2, dt);
        assert(final(out)@ =~= old(out)@ + fmt_custom_from(p@, i as int, *dt));
    } else {
        out.push(p[i]);
        assert(out@ =~= old(out)@ + seq![p@[i as int]]);
        push_custom_from(out, p, i + 1, dt);
        assert(final(out)@ =~= old(out)@ + fmt_custom_from(p@, i as int, *dt));
    }
}

/// Parses `s[j..]` by the pattern tail `p[i..]` on top of `acc`.
pub fn parse_custom_at(p: &Vec<char>, i: usize, s: &Vec<char>, j: usize, acc: DtFields) -> (r:
    Option<DtFields>)
    requires
        i <= p@.len(),
        j <= s@.len(),
    ensures
        r == spec_parse_custom_from(p@, i as int, s@, j as int, acc),
    decreases p@.len() - i,
{
    let n = p.len();
    let sn = s.len();
    if i >= n {
        if j == sn {
            return Some(acc);
        }
        return None;
    }
    if p[i] == '%' && i + 1 < n {
        let c = p[i + 1];
        if c == '%' {
            if j < sn && s[j] == '%' {
                parse_custom_at(p, i + 2, s, j + 1, acc)
            } else {
                None
            }
        } else if c == 'Y' {
            if sn - j >= 4 && is_digit(s[j]) && is_digit(s[j + 1]) && is_digit(s[j + 2]) && is_digit(
                s[j + 3],
            ) {
                let v = read4(s, j);
                parse_custom_at(p, i + 2, s, j + 4, DtFields { year: v, has_year: true, ..acc })
            } else {
                None
            }
        } else if c == 'm' || c == 'd' || c == 'H' || c == 'M' || c == 'S' {
            if sn - j >= 2 && is_digit(s[j]) && is_digit(s[j + 1]) {
                let v = read2(s, j) as u8;
                let acc2 = if c == 'm' {
                    DtFields { month: v, has_month: true, ..acc }
                } else if c == 'd' {
                    DtFields { day: v, has_day: true, ..acc }
                } else if c == 'H' {
                    DtFields { hour: v, ..acc }
                } else if c == 'M' {
                    DtFields { minute: v, ..acc }
                } else {
                    DtFields { second: v, ..acc }
                };
                parse_custom_at(p, i + 2, s, j + 2, acc2)
            } else {
                None
            }
        } else {
            None
        }
    } else {
        if j < sn && s[j] == p[i] {
            parse_custom_at(p, i + 1, s, j + 1, acc)
        } else {
            None
        }
    }
}

/// Whether `p[i..]` is a well-formed pattern.
pub fn check_valid_pattern_from(p: &Vec<char>, i: usize) -> (r: bool)
    requires
        i <= p@.len(),
    ensures
        r == valid_pattern_from(p@, i as int),
    decreases p@.len() - i,
{
    let n = p.len();
    if i >= n {
        return true;
    }
    if p[i] == '%' {
        if i + 1 >= n {
            return false;
        }
        let c = p[i + 1];
        if !(c == 'Y' || c == 'm' || c == 'd' || c == 'H' || c == 'M' || c == 'S' || c == '%') {
            return false;
        }
        check_valid_pattern_from(p, i + 2)
    } else {
        check_valid_pattern_from(p, i + 1)
    }
}

/// Counts directive `c` in `p[i..]`.
pub fn count_dir_from(p: &Vec<char>, i: usize, c: char) -> (r: usize)
    requires
        i <= p@.len(),
    ensures
        r as int == dir_count(p@, i as int, c),
        r as int <= p@.len() - i,
    decreases p@.len() - i,
{
    let n = p.len();
    if i >= n {
        return 0;
    }
    if p[i] == '%' && i + 1 < n {
        let found: usize = if p[i + 1] == c {
            1
        } else {
            0
        };
        found + count_dir_from(p, i + 2, c)
    } else {
        count_dir_from(p, i + 1, c)
    }
}

/// Whether `p` is a pattern this library can parse by.
pub fn check_parseable_pattern(p: &Vec<char>) -> (r: bool)
    ensures
        r == parseable_pattern(p@),
{
    check_valid_pattern_from(p, 0) && count_dir_from(p, 0, 'Y') == 1 && count_dir_from(p, 0, 'm')
        == 1 && count_dir_from(p, 0, 'd') == 1 && count_dir_from(p, 0, 'H') <= 1 && count_dir_from(
        p,
        0,
        'M',
    ) <= 1 && count_dir_from(p, 0, 'S') <= 1
}

/// Parses `s` by the pattern `p`.
pub fn parse_custom_chars(p: &Vec<char>, s: &Vec<char>) -> (r: Option<UtcDateTime>)
    ensures
        r == spec_parse_custom(p@, s@),
        match r {
            Some(dt) => dt.valid(),
            None => true,
        },
{
    if !check_parseable_pattern(p) {
        return None;
    }
    let acc = DtFields {
        year: 0,
        month: 0,
        day: 0,
        hour: 0,
        minute: 0,
        second: 0,
        has_year: false,
        has_month: false,
        has_day: false,
    };
    match parse_custom_at(p, 0, s, 0, acc) {
        Some(f) => {
            let dt = UtcDateTime {
                year: f.year,
                month: f.month,
                day: f.day,
                hour: f.hour,
                minute: f.minute,
                second: f.second,
            };
            if f.has_year && f.has_month && f.has_day && 1 <= dt.year && dt.year <= 9999 && 1
                <= dt.month && dt.month <= 12 && 1 <= dt.day && dt.day <= month_len(
                dt.year,
                dt.month,
            ) && dt.hour < 24 && dt.minute < 60 && dt.second < 60 {
                Some(dt)
            } else {
                None
            }
        },
        None => None,
    }
}

/// The instant a field accumulator spells, presence flags aside.
pub open spec fn dt_of_fields(f: DtFields) -> UtcDateTime {
    UtcDateTime {
        year: f.year,
        month: f.month,
        day: f.day,
        hour: f.hour,
        minute: f.minute,
        second: f.second,
    }
}

/// The accumulator that parsing the formatted text of `dt` under `p[i..]`
/// leaves on top of `acc`.
pub open spec fn fields_after(p: Seq<char>, i: int, dt: UtcDateTime, acc: DtFields) -> DtFields
    decreases p.len() - i,
{
    if i >= p.len() {
        acc
    } else if p[i] == '%' && i + 1 < p.len() {
        let c = p[i + 1];
        let acc2 = if c == 'Y' {
            DtFields { year: dt.year, has_year: true, ..acc }
        } else if c == 'm' {
            DtFields { month: dt.month, has_month: true, ..acc }
        } else if c == 'd' {
            DtFields { day: dt.day, has_day: true, ..acc }
        } else if c == 'H' {
            DtFields { hour: dt.hour, ..acc }
        } else if c == 'M' {
            DtFields { minute: dt.minute, ..acc }
        } else if c == 'S' {
            DtFields { second: dt.second, ..acc }
        } else {
            acc
        };
        fields_after(p, i + 2, dt, acc2)
    } else {
        fields_after(p, i + 1, dt, acc)
    }
}

/// Parsing the formatted text back recovers exactly the written fields.
pub proof fn lemma_custom_parse_format(
    p: Seq<char>,
    i: int,
    s: Seq<char>,
    j: int,
    dt: UtcDateTime,
    acc: DtFields,
)
    requires
        0 <= i <= p.len(),
        valid_pattern_from(p, i),
        dt.valid(),
        0 <= j <= s.len(),
        s.subrange(j, s.len() as int) =~= fmt_custom_from(p, i, dt),
    ensures
        spec_parse_custom_from(p, i, s, j, acc) == Some(fields_after(p, i, dt, acc)),
    decreases p.len() - i,
{
    let tail = s.subrange(j, s.len() as int);
    if i >= p.len() {
        assert(tail.len() == 0);
        assert(j == s.len());
    } else if p[i] == '%' && i + 1 < p.len() {
        let c = p[i + 1];
        let dtxt = dir_text(c, dt);
        let rest = fmt_custom_from(p, i + 2, dt);
        assert(tail =~= dtxt + rest);
        assert forall|k: int| 0 <= k < dtxt.len() implies s[j + k] == dtxt[k] by {
            assert(s.subrange(j, s.len() as int)[k] == s[j + k]);
            assert((dtxt + rest)[k] == dtxt[k]);
        }
        assert forall|k: int|
            0 <= k < rest.len() implies s.subrange(j + dtxt.len() as int, s.len() as int)[k]
            == rest[k] by {
            assert(s.subrange(j + dtxt.len() as int, s.len() as int)[k] == s[j + dtxt.len() + k]);
            assert(s.subrange(j, s.len() as int)[dtxt.len() + k] == s[j + dtxt.len() + k]);
            assert((dtxt + rest)[dtxt.len() + k] == rest[k]);
        }
        assert(s.subrange(j + dtxt.len() as int, s.len() as int) =~= rest);
        if c == 'Y' {
            lemma_pad4_num4(dt.year as int);
            assert(digits4_at(s, j));
            assert(num4(s, j) == num4(pad4(dt.year as int), 0));
            lemma_custom_parse_format(
                p,
                i + 2,
                s,
                j + 4,
                dt,
                DtFields { year: dt.year, has_year: true, ..acc },
            );
        } else if c == 'm' {
            lemma_pad2_num2(dt.month as int);
            assert(digits2_at(s, j));
            assert(num2(s, j) == num2(pad2(dt.month as int), 0));
            lemma_custom_parse_format(
                p,
                i + 2,
                s,
                j + 2,
                dt,
                DtFields { month: dt.month, has_month: true, ..acc },
            );
        } else if c == 'd' {
            lemma_pad2_num2(dt.day as int);
            assert(digits2_at(s, j));
            assert(num2(s, j) == num2(pad2(dt.day as int), 0));
            lemma_custom_parse_format(
                p,
                i + 2,
                s,
                j + 2,
                dt,
                DtFields { day: dt.day, has_day: true, ..acc },
            );
        } else if c == 'H' {
            lemma_pad2_num2(dt.hour as int);
            assert(digits2_at(s, j));
            assert(num2(s, j) == num2(pad2(dt.hour as int), 0));
            lemma_custom_parse_format(p, i + 2, s, j + 2, dt, DtFields { hour: dt.hour, ..acc });
        } else if c == 'M' {
            lemma_pad2_num2(dt.minute as int);
            assert(digits2_at(s, j));
            assert(num2(s, j) == num2(pad2(dt.minute as int), 0));
            lemma_custom_parse_format(
                p,
                i + 2,
                s,
                j + 2,
                dt,
                DtFields { minute: dt.minute, ..acc },
            );
        } else if c == 'S' {
            lemma_pad2_num2(dt.second as int);
            assert(digits2_at(s, j));
            assert(num2(s, j) == num2(pad2(dt.second as int), 0));
            lemma_custom_parse_format(
                p,
                i + 2,
                s,
                j + 2,
                dt,
                DtFields { second: dt.second, ..acc },
            );
        } else {
            assert(c == '%');
            assert(s.subrange(j, s.len() as int)[0] == s[j]);
            assert((dtxt + rest)[0] == dtxt[0]);
            assert(s[j] == '%');
            lemma_custom_parse_format(p, i + 2, s, j + 1, dt, acc);
        }
    } else {
        let rest = fmt_custom_from(p, i + 1, dt);
        assert(tail =~= seq![p[i]] + rest);
        assert(s.subrange(j, s.len() as int)[0] == s[j]);
        assert(s[j] == p[i]);
        assert forall|k: int|
            0 <= k < rest.len() implies s.subrange(j + 1, s.len() as int)[k] == rest[k] by {
            assert(s.subrange(j + 1, s.len() as int)[k] == s[j + 1 + k]);
            assert(s.subrange(j, s.len() as int)[1 + k] == s[j + 1 + k]);
            assert((seq![p[i]] + rest)[1 + k] == rest[k]);
        }
        assert(s.subrange(j + 1, s.len() as int) =~= rest);
        lemma_custom_parse_format(p, i + 1, s, j + 1, dt, acc);
    }
}

/// What the accumulator holds after a format-and-parse round trip: the
/// fields whose directives occur, from `dt`; the rest from `acc`.
pub proof fn lemma_fields_after_props(p: Seq<char>, i: int, dt: UtcDateTime, acc: DtFields)
    requires
        0 <= i <= p.len(),
    ensures
        fields_after(p, i, dt, acc).year == if dir_count(p, i, 'Y') >= 1 {
            dt.year
        } else {
            acc.year
        },
        fields_after(p, i, dt, acc).month == if dir_count(p, i, 'm') >= 1 {
            dt.month
        } else {
            acc.month
        },
        fields_after(p, i, dt, acc).day == if dir_count(p, i, 'd') >= 1 {
            dt.day
        } else {
            acc.day
        },
        fields_after(p, i, dt, acc).hour == if dir_count(p, i, 'H') >= 1 {
            dt.hour
        } else {
            acc.hour
        },
        fields_after(p, i, dt, acc).minute == if dir_count(p, i, 'M') >= 1 {
            dt.minute
        } else {
            acc.minute
        },
        fields_after(p, i, dt, acc).second == if dir_count(p, i, 'S') >= 1 {
            dt.second
        } else {
            acc.second
        },
        fields_after(p, i, dt, acc).has_year == (dir_count(p, i, 'Y') >= 1 || acc.has_year),
        fields_after(p, i, dt, acc).has_month == (dir_count(p, i, 'm') >= 1 || acc.has_month),
        fields_after(p, i, dt, acc).has_day == (dir_count(p, i, 'd') >= 1 || acc.has_day),
    decreases p.len() - i,
{
    if i >= p.len() {
    } else if p[i] == '%' && i + 1 < p.len() {
        let c = p[i + 1];
        let acc2 = if c == 'Y' {
            DtFields { year: dt.year, has_year: true, ..acc }
        } else if c == 'm' {
            DtFields { month: dt.month, has_month: true, ..acc }
        } else if c == 'd' {
            DtFields { day: dt.day, has_day: true, ..acc }
        } else if c == 'H' {
            DtFields { hour: dt.hour, ..acc }
        } else if c == 'M' {
            DtFields { minute: dt.minute, ..acc }
        } else if c == 'S' {
            DtFields { second: dt.second, ..acc }
        } else {
            acc
        };
        lemma_dir_count_nonneg(p, i + 2, 'Y');
        lemma_dir_count_nonneg(p, i + 2, 'm');
        lemma_dir_count_nonneg(p, i + 2, 'd');
        lemma_dir_count_nonneg(p, i + 2, 'H');
        lemma_dir_count_nonneg(p, i + 2, 'M');
        lemma_dir_count_nonneg(p, i + 2, 'S');
        lemma_fields_after_props(p, i + 2, dt, acc2);
    } else {
        lemma_fields_after_props(p, i + 1, dt, acc);
    }
}

/// A custom notation round-trips: formatting an instant under a parseable
/// pattern and parsing the text back recovers the instant, with a time
/// field zeroed where the pattern has no directive for it.
pub proof fn lemma_custom_roundtrip(p: Seq<char>, dt: UtcDateTime)
    requires
        parseable_pattern(p),
        dt.valid(),
    ensures
        spec_parse_custom(p, fmt_custom(p, dt)) == Some(
            UtcDateTime {
                year: dt.year,
                month: dt.month,
                day: dt.day,
                hour: if dir_count(p, 0, 'H') == 1 {
                    dt.hour
                } else {
                    0
                },
                minute: if dir_count(p, 0, 'M') == 1 {
                    dt.minute
                } else {
                    0
                },
                second: if dir_count(p, 0, 'S') == 1 {
                    dt.second
                } else {
                    0
                },
            },
        ),
{
    let s = fmt_custom(p, dt);
    let acc = spec_empty_fields();
    assert(s.subrange(0, s.len() as int) =~= fmt_custom_from(p, 0, dt));
    lemma_custom_parse_format(p, 0, s, 0, dt, acc);
    lemma_fields_after_props(p, 0, dt, acc);
    let f = fields_after(p, 0, dt, acc);
    assert(f.has_year && f.has_month && f.has_day);
    assert(dt_of_fields(f).valid());
}

/// Fields with no directive left in the pattern keep their accumulated value
/// through a successful parse.
pub proof fn lemma_parse_frame(p: Seq<char>, i: int, s: Seq<char>, j: int, acc: DtFields, f: DtFields)
    requires
        0 <= i <= p.len(),
        0 <= j <= s.len(),
        spec_parse_custom_from(p, i, s, j, acc) == Some(f),
    ensures
        dir_count(p, i, 'Y') == 0 ==> f.year == acc.year,
        dir_count(p, i, 'm') == 0 ==> f.month == acc.month,
        dir_count(p, i, 'd') == 0 ==> f.day == acc.day,
        dir_count(p, i, 'H') == 0 ==> f.hour == acc.hour,
        dir_count(p, i, 'M') == 0 ==> f.minute == acc.minute,
        dir_count(p, i, 'S') == 0 ==> f.second == acc.second,
    decreases p.len() - i,
{
    if i >= p.len() {
    } else if p[i] == '%' && i + 1 < p.len() {
        let c = p[i + 1];
        lemma_dir_count_nonneg(p, i + 2, 'Y');
        lemma_dir_count_nonneg(p, i + 2, 'm');
        lemma_dir_count_nonneg(p, i + 2, 'd');
        lemma_dir_count_nonneg(p, i + 2, 'H');
        lemma_dir_count_nonneg(p, i + 2, 'M');
        lemma_dir_count_nonneg(p, i + 2, 'S');
        if c == '%' {
            lemma_parse_frame(p, i + 2, s, j + 1, acc, f);
        } else if c == 'Y' {
            lemma_parse_frame(
                p,
                i + 2,
                s,
                j + 4,
                DtFields { year: num4(s, j) as u32, has_year: true, ..acc },
                f,
            );
        } else if c == 'm' {
            lemma_parse_frame(
                p,
                i + 2,
                s,
                j + 2,
                DtFields { month: num2(s, j) as u8, has_month: true, ..acc },
                f,
            );
        } else if c == 'd' {
            lemma_parse_frame(
                p,
                i + 2,
                s,
                j + 2,
                DtFields { day: num2(s, j) as u8, has_day: true, ..acc },
                f,
            );
        } else if c == 'H' {
            lemma_parse_frame(p, i + 2, s, j + 2, DtFields { hour: num2(s, j) as u8, ..acc }, f);
        } else if c == 'M' {
            lemma_parse_frame(p, i + 2, s, j + 2, DtFields { minute: num2(s, j) as u8, ..acc }, f);
        } else if c == 'S' {
            lemma_parse_frame(p, i + 2, s, j + 2, DtFields { second: num2(s, j) as u8, ..acc }, f);
        } else {
            assert(spec_parse_custom_from(p, i, s, j, acc) is None);
        }
    } else {
        lemma_parse_frame(p, i + 1, s, j + 1, acc, f);
    }
}

/// Formatting what a pattern parsed reproduces the text: each directive
/// occurs at most once, so every field still holds the digits it was read
/// from.
#[verifier::rlimit(100)]
pub proof fn lemma_custom_format_parse(
    p: Seq<char>,
    i: int,
    s: Seq<char>,
    j: int,
    acc: DtFields,
    f: DtFields,
)
    requires
        0 <= i <= p.len(),
        0 <= j <= s.len(),
        valid_pattern_from(p, i),
        dir_count(p, i, 'Y') <= 1,
        dir_count(p, i, 'm') <= 1,
        dir_count(p, i, 'd') <= 1,
        dir_count(p, i, 'H') <= 1,
        dir_count(p, i, 'M') <= 1,
        dir_count(p, i, 'S') <= 1,
        spec_parse_custom_from(p, i, s, j, acc) == Some(f),
    ensures
        fmt_custom_from(p, i, dt_of_fields(f)) =~= s.subrange(j, s.len() as int),
    decreases p.len() - i,
{
    let dt = dt_of_fields(f);
    if i >= p.len() {
        assert(j == s.len());
    } else if p[i] == '%' && i + 1 < p.len() {
        let c = p[i + 1];
        lemma_dir_count_nonneg(p, i + 2, 'Y');
        lemma_dir_count_nonneg(p, i + 2, 'm');
        lemma_dir_count_nonneg(p, i + 2, 'd');
        lemma_dir_count_nonneg(p, i + 2, 'H');
        lemma_dir_count_nonneg(p, i + 2, 'M');
        lemma_dir_count_nonneg(p, i + 2, 'S');
        if c == '%' {
            assert(s[j] == '%');
            lemma_custom_format_parse(p, i + 2, s, j + 1, acc, f);
            assert(fmt_custom_from(p, i, dt) =~= seq!['%'] + fmt_custom_from(p, i + 2, dt));
            assert(s.subrange(j, s.len() as int) =~= seq![s[j]] + s.subrange(
                j + 1,
                s.len() as int,
            ));
        } else if c == 'Y' {
            let acc2 = DtFields { year: num4(s, j) as u32, has_year: true, ..acc };
            lemma_parse_frame(p, i + 2, s, j + 4, acc2, f);
            assert(f.year == num4(s, j) as u32);
            lemma_num4_pad4(s, j);
            assert(pad4(f.year as int) =~= s.subrange(j, j + 4));
            lemma_custom_format_parse(p, i + 2, s, j + 4, acc2, f);
            assert(s.subrange(j, s.len() as int) =~= s.subrange(j, j + 4) + s.subrange(
                j + 4,
                s.len() as int,
            ));
        } else {
            let acc2 = if c == 'm' {
                DtFields { month: num2(s, j) as u8, has_month: true, ..acc }
            } else if c == 'd' {
                DtFields { day: num2(s, j) as u8, has_day: true, ..acc }
            } else if c == 'H' {
                DtFields { hour: num2(s, j) as u8, ..acc }
            } else if c == 'M' {
                DtFields { minute: num2(s, j) as u8, ..acc }
            } else {
                DtFields { second: num2(s, j) as u8, ..acc }
            };
            lemma_parse_frame(p, i + 2, s, j + 2, acc2, f);
            lemma_num2_pad2(s, j);
            assert(dir_text(c, dt) =~= s.subrange(j, j + 2));
            lemma_custom_format_parse(p, i + 2, s, j + 2, acc2, f);
            assert(s.subrange(j, s.len() as int) =~= s.subrange(j, j + 2) + s.subrange(
                j + 2,
                s.len() as int,
            ));
        }
    } else {
        assert(s[j] == p[i]);
        lemma_custom_format_parse(p, i + 1, s, j + 1, acc, f);
        assert(s.subrange(j, s.len() as int) =~= seq![s[j]] + s.subrange(j + 1, s.len() as int));
    }
}

/// A string accepted by a custom notation round-trips: parsing it and
/// formatting the result reproduces it byte for byte.
pub proof fn lemma_custom_format_parse_top(p: Seq<char>, s: Seq<char>, dt: UtcDateTime)
    requires
        spec_parse_custom(p, s) == Some(dt),
    ensures
        fmt_custom(p, dt) =~= s,
{
    let f = spec_parse_custom_from(p, 0, s, 0, spec_empty_fields()).unwrap();
    assert(dt == dt_of_fields(f));
    lemma_custom_format_parse(p, 0, s, 0, spec_empty_fields(), f);
    assert(s.subrange(0, s.len() as int) =~= s);
}

// ---------------------------------------------------------------------------
// Notations and instants paired with them
// ---------------------------------------------------------------------------

/// A date notation: one of the two RFC markers, or a strftime-style pattern.
#[derive(Debug)]
pub enum DateTimeFormat {
    RFC3339,
    RFC2822,
    Custom(String),
}

/// The marker text a notation is stored under. The RFC 3339 marker is the
/// historical `"RFC3329"` spelling, kept because existing indexes hold it.
pub open spec fn spec_marker(f: DateTimeFormat) -> Seq<char> {
    match f {
        DateTimeFormat::RFC3339 => "RFC3329"@,
        DateTimeFormat::RFC2822 => "RFC2822"@,
        DateTimeFormat::Custom(p) => p@,
    }
}

/// Notation equality: same kind, and for patterns the same text.
pub open spec fn spec_format_eq(a: DateTimeFormat, b: DateTimeFormat) -> bool {
    match (a, b) {
        (DateTimeFormat::RFC3339, DateTimeFormat::RFC3339) => true,
        (DateTimeFormat::RFC2822, DateTimeFormat::RFC2822) => true,
        (DateTimeFormat::Custom(x), DateTimeFormat::Custom(y)) => x@ == y@,
        _ => false,
    }
}

impl vstd::std_specs::cmp::PartialEqSpecImpl for DateTimeFormat {
    open spec fn obeys_eq_spec() -> bool {
        true
    }

    open spec fn eq_spec(&self, other: &Self) -> bool {
        spec_format_eq(*self, *other)
    }
}

impl PartialEq for DateTimeFormat {
    fn eq(&self, other: &Self) -> (r: bool) {
        match (self, other) {
            (DateTimeFormat::RFC3339, DateTimeFormat::RFC3339) => true,
            (DateTimeFormat::RFC2822, DateTimeFormat::RFC2822) => true,
            (DateTimeFormat::Custom(x), DateTimeFormat::Custom(y)) => x.eq(y),
            _ => false,
        }
    }
}

impl Clone for DateTimeFormat {
    fn clone(&self) -> (r: Self)
        ensures
            r == *self,
    {
        match self {
            DateTimeFormat::RFC3339 => DateTimeFormat::RFC3339,
            DateTimeFormat::RFC2822 => DateTimeFormat::RFC2822,
            DateTimeFormat::Custom(p) => DateTimeFormat::Custom(p.clone()),
        }
    }
}

/// The text of `dt` under notation `f`.
pub open spec fn spec_format_dt(f: DateTimeFormat, dt: UtcDateTime) -> Seq<char> {
    match f {
        DateTimeFormat::RFC3339 => fmt_rfc3339(dt),
        DateTimeFormat::RFC2822 => fmt_rfc2822(dt),
        DateTimeFormat::Custom(p) => fmt_custom(p@, dt),
    }
}

/// What parsing `s` under notation `f` yields.
pub open spec fn spec_parse_by(f: DateTimeFormat, s: Seq<char>) -> Option<UtcDateTime> {
    match f {
        DateTimeFormat::RFC3339 => spec_parse_rfc3339(s),
        DateTimeFormat::RFC2822 => spec_parse_rfc2822(s),
        DateTimeFormat::Custom(p) => spec_parse_custom(p@, s),
    }
}

impl DateTimeFormat {
    /// The notation a stored marker names: the two fixed markers, else a
    /// pattern.
    pub fn from_marker(s: &str) -> (r: Self)
        ensures
            match r {
                DateTimeFormat::RFC3339 => s@ == "RFC3329"@,
                DateTimeFormat::RFC2822 => s@ == "RFC2822"@,
                DateTimeFormat::Custom(p) => p@ == s@ && s@ != "RFC3329"@ && s@ != "RFC2822"@,
            },
            notation_view(r) == spec_notation_of_marker(s@),
    {
        proof {
            reveal_strlit("RFC3329");
            reveal_strlit("RFC2822");
            assert("RFC2822"@[3] != "RFC3329"@[3]);
        }
        let chars = str_chars(s);
        if crate::lang::str_eq_chars(&chars, "RFC3329") {
            DateTimeFormat::RFC3339
        } else if crate::lang::str_eq_chars(&chars, "RFC2822") {
            DateTimeFormat::RFC2822
        } else {
            DateTimeFormat::Custom(String::from_str(s))
        }
    }

    /// The marker this notation is stored under.
    pub fn to_string(&self) -> (r: String)
        ensures
            r@ == spec_marker(*self),
    {
        match self {
            DateTimeFormat::RFC3339 => String::from_str("RFC3329"),
            DateTimeFormat::RFC2822 => String::from_str("RFC2822"),
            DateTimeFormat::Custom(p) => p.clone(),
        }
    }

    /// The text of `datetime` under this notation.
    pub fn format(&self, datetime: &UtcDateTime) -> (r: String)
        requires
            datetime.valid(),
        ensures
            r@ == spec_format_dt(*self, *datetime),
    {
        let mut out: Vec<char> = Vec::new();
        match self {
            DateTimeFormat::RFC3339 => push_rfc3339(&mut out, datetime),
            DateTimeFormat::RFC2822 => push_rfc2822(&mut out, datetime),
            DateTimeFormat::Custom(p) => {
                let pat = str_chars(p.as_str());
                push_custom_from(&mut out, &pat, 0, datetime);
            },
        }
        chars_string(&out)
    }
}

/// The error of the date parsers: no supported notation accepts the text.
#[derive(Debug, Clone, Copy, PartialEq, Eq, Structural)]
pub enum DateTimeError {
    /// Neither RFC 3339 nor RFC 2822 accepts the text.
    NotRfc,
    /// No supported notation accepts the text.
    NotSupported,
}

impl DateTimeError {
    /// A human-readable description of the error.
    pub fn message(&self) -> (r: &'static str) {
        match self {
            DateTimeError::NotRfc => "Cannot Parse by RFC3339 and RFC2822",
            DateTimeError::NotSupported => "Cannot Parse",
        }
    }
}

/// What `parse_rfc` yields: the first of the two RFC notations that accepts
/// the text, with the instant it reads.
pub open spec fn spec_parse_rfc(s: Seq<char>) -> Option<(bool, UtcDateTime)> {
    if spec_parse_rfc3339(s) is Some {
        Some((true, spec_parse_rfc3339(s)->0))
    } else if spec_parse_rfc2822(s) is Some {
        Some((false, spec_parse_rfc2822(s)->0))
    } else {
        None
    }
}

/// Parses `s` as RFC 3339, then as RFC 2822.
pub fn parse_rfc(s: &str) -> (r: Result<(DateTimeFormat, UtcDateTime), DateTimeError>)
    ensures
        match r {
            Ok((f, dt)) => {
                &&& dt.valid()
                &&& match f {
                    DateTimeFormat::RFC3339 => spec_parse_rfc(s@) == Some((true, dt)),
                    DateTimeFormat::RFC2822 => spec_parse_rfc(s@) == Some((false, dt)),
                    DateTimeFormat::Custom(_) => false,
                }
            },
            Err(e) => spec_parse_rfc(s@) is None && e == DateTimeError::NotRfc,
        },
{
    let chars = str_chars(s);
    if let Some(dt) = parse_rfc3339_chars(&chars) {
        return Ok((DateTimeFormat::RFC3339, dt));
    }
    if let Some(dt) = parse_rfc2822_chars(&chars) {
        return Ok((DateTimeFormat::RFC2822, dt));
    }
    Err(DateTimeError::NotRfc)
}

/// The built-in date-and-time patterns tried after the RFC notations.
pub open spec fn spec_support_datetime_patterns() -> Seq<Seq<char>> {
    seq!["%Y/%m/%d %H:%M:%S"@, "%Y-%m-%d %H:%M:%S"@]
}

/// The built-in date-only patterns tried last.
pub open spec fn spec_support_date_patterns() -> Seq<Seq<char>> {
    seq!["%Y/%m/%d"@, "%Y-%m-%d"@]
}

/// The notation ladder of `parse_datetime`, as an abstract choice: the
/// caller's own pattern first, then RFC 3339 and RFC 2822, then the built-in
/// date-and-time patterns, then the built-in date-only patterns. `None`
/// marks an RFC notation, `Some(p)` the pattern `p`.
pub open spec fn spec_parse_datetime(s: Seq<char>, custom: Option<Seq<char>>) -> Option<
    (Option<Seq<char>>, UtcDateTime),
> {
    let p0 = "%Y/%m/%d %H:%M:%S"@;
    let p1 = "%Y-%m-%d %H:%M:%S"@;
    let p2 = "%Y/%m/%d"@;
    let p3 = "%Y-%m-%d"@;
    if custom is Some && spec_parse_custom(custom->0, s) is Some {
        Some((Some(custom->0), spec_parse_custom(custom->0, s)->0))
    } else if spec_parse_rfc(s) is Some {
        Some((None, (spec_parse_rfc(s)->0).1))
    } else if spec_parse_custom(p0, s) is Some {
        Some((Some(p0), spec_parse_custom(p0, s)->0))
    } else if spec_parse_custom(p1, s) is Some {
        Some((Some(p1), spec_parse_custom(p1, s)->0))
    } else if spec_parse_custom(p2, s) is Some {
        Some((Some(p2), spec_parse_custom(p2, s)->0))
    } else if spec_parse_custom(p3, s) is Some {
        Some((Some(p3), spec_parse_custom(p3, s)->0))
    } else {
        None
    }
}

/// The abstract notation an exec result stands for: `None` for the RFC
/// notations, the pattern text for a custom one.
pub open spec fn spec_notation_of(f: DateTimeFormat) -> Option<Seq<char>> {
    match f {
        DateTimeFormat::RFC3339 => None,
        DateTimeFormat::RFC2822 => None,
        DateTimeFormat::Custom(p) => Some(p@),
    }
}

/// Parses a date string: by the caller's pattern if one is given, then by
/// RFC 3339 and RFC 2822, then by the built-in patterns.
pub fn parse_datetime(s: &str, custom_fmt: Option<String>) -> (r: Result<
    (DateTimeFormat, UtcDateTime),
    DateTimeError,
>)
    ensures
        match r {
            Ok((f, dt)) => {
                &&& dt.valid()
                &&& spec_parse_datetime(
                    s@,
                    match custom_fmt {
                        Some(c) => Some(c@),
                        None => None,
                    },
                ) == Some((spec_notation_of(f), dt))
                &&& (f is RFC3339 ==> spec_parse_rfc3339(s@) == Some(dt))
                &&& (f is RFC2822 ==> spec_parse_rfc2822(s@) == Some(dt) && spec_parse_rfc3339(s@)
                    is None)
                &&& (f matches DateTimeFormat::Custom(p) ==> spec_parse_custom(p@, s@) == Some(dt))
            },
            Err(e) => {
                &&& spec_parse_datetime(
                    s@,
                    match custom_fmt {
                        Some(c) => Some(c@),
                        None => None,
                    },
                ) is None
                &&& e == DateTimeError::NotSupported
            },
        },
{
    let chars = str_chars(s);
    if let Some(fmt) = custom_fmt {
        let pat = str_chars(fmt.as_str());
        if let Some(dt) = parse_custom_chars(&pat, &chars) {
            return Ok((DateTimeFormat::Custom(fmt), dt));
        }
    }
    match parse_rfc(s) {
        Ok((f, dt)) => {
            return Ok((f, dt));
        },
        Err(_) => {},
    }
    let p0 = str_chars("%Y/%m/%d %H:%M:%S");
    if let Some(dt) = parse_custom_chars(&p0, &chars) {
        return Ok((DateTimeFormat::Custom(String::from_str("%Y/%m/%d %H:%M:%S")), dt));
    }
    let p1 = str_chars("%Y-%m-%d %H:%M:%S");
    if let Some(dt) = parse_custom_chars(&p1, &chars) {
        return Ok((DateTimeFormat::Custom(String::from_str("%Y-%m-%d %H:%M:%S")), dt));
    }
    let p2 = str_chars("%Y/%m/%d");
    if let Some(dt) = parse_custom_chars(&p2, &chars) {
        return Ok((DateTimeFormat::Custom(String::from_str("%Y/%m/%d")), dt));
    }
    let p3 = str_chars("%Y-%m-%d");
    if let Some(dt) = parse_custom_chars(&p3, &chars) {
        return Ok((DateTimeFormat::Custom(String::from_str("%Y-%m-%d")), dt));
    }
    Err(DateTimeError::NotSupported)
}

/// A notation, abstracted for specifications: the two RFC kinds, or the
/// pattern text.
pub enum NotationView {
    R3339,
    R2822,
    Pattern(Seq<char>),
}

/// The abstract notation of a `DateTimeFormat`.
pub open spec fn notation_view(f: DateTimeFormat) -> NotationView {
    match f {
        DateTimeFormat::RFC3339 => NotationView::R3339,
        DateTimeFormat::RFC2822 => NotationView::R2822,
        DateTimeFormat::Custom(p) => NotationView::Pattern(p@),
    }
}

/// The abstract notation a stored marker names.
pub open spec fn spec_notation_of_marker(s: Seq<char>) -> NotationView {
    if s == "RFC3329"@ {
        NotationView::R3339
    } else if s == "RFC2822"@ {
        NotationView::R2822
    } else {
        NotationView::Pattern(s)
    }
}

/// The text of `dt` under an abstract notation.
pub open spec fn spec_format_view(nv: NotationView, dt: UtcDateTime) -> Seq<char> {
    match nv {
        NotationView::R3339 => fmt_rfc3339(dt),
        NotationView::R2822 => fmt_rfc2822(dt),
        NotationView::Pattern(p) => fmt_custom(p, dt),
    }
}

/// Formatting under a notation is formatting under its abstraction.
pub proof fn lemma_format_view_agrees(f: DateTimeFormat, dt: UtcDateTime)
    ensures
        spec_format_dt(f, dt) == spec_format_view(notation_view(f), dt),
{
}

/// A marker names the notation it was written for, unless a custom pattern
/// spells one of the two reserved markers.
pub open spec fn marker_safe(f: DateTimeFormat) -> bool {
    match f {
        DateTimeFormat::Custom(p) => p@ != "RFC3329"@ && p@ != "RFC2822"@,
        _ => true,
    }
}

/// For marker-safe notations, reading the stored marker back names the same
/// notation.
pub proof fn lemma_marker_roundtrip(f: DateTimeFormat)
    requires
        marker_safe(f),
    ensures
        spec_notation_of_marker(spec_marker(f)) == notation_view(f),
{
    reveal_strlit("RFC3329");
    reveal_strlit("RFC2822");
    assert("RFC2822"@[3] != "RFC3329"@[3]);
}

/// An instant paired with the notation it was written in.
#[derive(Debug)]
pub struct DateTimeWithFormat {
    pub datetime: UtcDateTime,
    pub format: DateTimeFormat,
}

/// The instants of two paired values are equal and their notations are equal.
pub open spec fn spec_dtf_eq(a: DateTimeWithFormat, b: DateTimeWithFormat) -> bool {
    a.datetime == b.datetime && spec_format_eq(a.format, b.format)
}

impl vstd::std_specs::cmp::PartialEqSpecImpl for DateTimeWithFormat {
    open spec fn obeys_eq_spec() -> bool {
        true
    }

    open spec fn eq_spec(&self, other: &Self) -> bool {
        spec_dtf_eq(*self, *other)
    }
}

impl PartialEq for DateTimeWithFormat {
    fn eq(&self, other: &Self) -> (r: bool) {
        let dt_eq = self.datetime == other.datetime;
        dt_eq && self.format == other.format
    }
}

impl Clone for DateTimeWithFormat {
    fn clone(&self) -> (r: Self)
        ensures
            r == *self,
    {
        DateTimeWithFormat { datetime: self.datetime, format: self.format.clone() }
    }
}

impl DateTimeWithFormat {
    /// Well-formedness: the instant is on the calendar.
    pub open spec fn wf(self) -> bool {
        self.datetime.valid()
    }

    /// Pairs an instant with a notation.
    pub fn new(datetime: UtcDateTime, format: DateTimeFormat) -> (r: Self)
        requires
            datetime.valid(),
        ensures
            r.datetime == datetime,
            r.format == format,
            r.wf(),
    {
        Self { datetime, format }
    }

    /// The instant.
    pub fn datetime(&self) -> (r: UtcDateTime)
        ensures
            r == self.datetime,
    {
        self.datetime
    }

    /// The notation.
    pub fn format(&self) -> (r: DateTimeFormat)
        ensures
            r == self.format,
    {
        self.format.clone()
    }

    /// Parses a date string by the notation ladder and keeps the notation
    /// that accepted it.
    pub fn from_str(date_string: &str) -> (r: Result<Self, DateTimeError>)
        ensures
            match r {
                Ok(d) => {
                    &&& d.wf()
                    &&& spec_date_with_format(date_string@) == Some(
                        (d.datetime, notation_view(d.format)),
                    )
                },
                Err(_) => spec_date_with_format(date_string@) is None,
            },
    {
        match parse_datetime(date_string, None) {
            Ok((format, datetime)) => Ok(Self { datetime, format }),
            Err(e) => Err(e),
        }
    }

    /// The instant written in its own notation.
    pub fn to_string(&self) -> (r: String)
        requires
            self.wf(),
        ensures
            r@ == spec_format_dt(self.format, self.datetime),
    {
        self.format.format(&self.datetime)
    }
}

/// What parsing a date string by the ladder yields, with the notation that
/// accepted it.
pub open spec fn spec_date_with_format(s: Seq<char>) -> Option<(UtcDateTime, NotationView)> {
    match spec_parse_datetime(s, None) {
        None => None,
        Some((pat, dt)) => Some(
            (
                dt,
                match pat {
                    Some(p) => NotationView::Pattern(p),
                    None => if spec_parse_rfc3339(s) is Some {
                        NotationView::R3339
                    } else {
                        NotationView::R2822
                    },
                },
            ),
        ),
    }
}

/// Parses a date string that some notation is known to accept.
pub fn parse_date_with_format(date_string: &str) -> (r: DateTimeWithFormat)
    requires
        spec_date_with_format(date_string@) is Some,
    ensures
        r.wf(),
        spec_date_with_format(date_string@) == Some((r.datetime, notation_view(r.format))),
{
    match DateTimeWithFormat::from_str(date_string) {
        Ok(d) => d,
        Err(_) => {
            proof {
                assert(false);
            }
            DateTimeWithFormat {
                datetime: UtcDateTime { year: 1, month: 1, day: 1, hour: 0, minute: 0, second: 0 },
                format: DateTimeFormat::RFC3339,
            }
        },
    }
}

// ---------------------------------------------------------------------------
// The round-trip law over whole notations
// ---------------------------------------------------------------------------

/// Whether a notation writes every time field, so that no information is
/// lost by a format-then-parse round trip.
pub open spec fn full_time_notation(f: DateTimeFormat) -> bool {
    match f {
        DateTimeFormat::RFC3339 => true,
        DateTimeFormat::RFC2822 => true,
        DateTimeFormat::Custom(p) => parseable_pattern(p@) && dir_count(p@, 0, 'H') == 1
            && dir_count(p@, 0, 'M') == 1 && dir_count(p@, 0, 'S') == 1,
    }
}

/// Whether the text states its instant in UTC form, exactly as this library
/// re-serializes it: the RFC notations with their zero offsets written
/// `+00:00` and `+0000`; every custom pattern (no offsets there).
pub open spec fn utc_written(f: DateTimeFormat, s: Seq<char>) -> bool {
    match f {
        DateTimeFormat::RFC3339 => s.len() == 25 && s[19] == '+' && num2(s, 20) == 0 && num2(s, 23)
            == 0,
        DateTimeFormat::RFC2822 => s[26] == '+' && num2(s, 27) == 0 && num2(s, 29) == 0,
        DateTimeFormat::Custom(_) => true,
    }
}

/// Round trip, first direction: under any notation that writes every time
/// field, formatting an instant and parsing the text back yields the same
/// instant. (A date-only pattern such as `"%Y/%m/%d"` recovers the instant
/// with its time fields zeroed: `lemma_custom_roundtrip` states it.)
pub proof fn lemma_format_then_parse(f: DateTimeFormat, dt: UtcDateTime)
    requires
        dt.valid(),
        full_time_notation(f),
    ensures
        spec_parse_by(f, spec_format_dt(f, dt)) == Some(dt),
{
    match f {
        DateTimeFormat::RFC3339 => lemma_rfc3339_roundtrip(dt),
        DateTimeFormat::RFC2822 => lemma_rfc2822_roundtrip(dt),
        DateTimeFormat::Custom(p) => lemma_custom_roundtrip(p@, dt),
    }
}

/// Round trip, second direction: a string a notation accepts, written in
/// UTC form, is reproduced byte for byte by formatting what it parsed to.
/// (A string with a non-zero offset, or RFC 3339's `Z`, parses to the same
/// instant but re-serializes in UTC form, so it is left out here.)
pub proof fn lemma_parse_then_format(f: DateTimeFormat, s: Seq<char>, dt: UtcDateTime)
    requires
        spec_parse_by(f, s) == Some(dt),
        utc_written(f, s),
    ensures
        spec_format_dt(f, dt) =~= s,
{
    match f {
        DateTimeFormat::RFC3339 => {
            lemma_rfc3339_format_parse(s);
        },
        DateTimeFormat::RFC2822 => {
            lemma_rfc2822_format_parse(s);
        },
        DateTimeFormat::Custom(p) => {
            lemma_custom_format_parse_top(p@, s, dt);
        },
    }
}


/// The built-in patterns are parseable; the date-and-time ones carry every
/// time directive once, the date-only ones none.
pub proof fn lemma_support_patterns_parseable()
    ensures
        parseable_pattern("%Y/%m/%d %H:%M:%S"@),
        parseable_pattern("%Y-%m-%d %H:%M:%S"@),
        parseable_pattern("%Y/%m/%d"@),
        parseable_pattern("%Y-%m-%d"@),
        dir_count("%Y/%m/%d %H:%M:%S"@, 0, 'H') == 1 && dir_count("%Y/%m/%d %H:%M:%S"@, 0, 'M')
            == 1 && dir_count("%Y/%m/%d %H:%M:%S"@, 0, 'S') == 1,
        dir_count("%Y-%m-%d %H:%M:%S"@, 0, 'H') == 1 && dir_count("%Y-%m-%d %H:%M:%S"@, 0, 'M')
            == 1 && dir_count("%Y-%m-%d %H:%M:%S"@, 0, 'S') == 1,
        dir_count("%Y/%m/%d"@, 0, 'H') == 0 && dir_count("%Y/%m/%d"@, 0, 'M') == 0 && dir_count(
            "%Y/%m/%d"@,
            0,
            'S',
        ) == 0,
        dir_count("%Y-%m-%d"@, 0, 'H') == 0 && dir_count("%Y-%m-%d"@, 0, 'M') == 0 && dir_count(
            "%Y-%m-%d"@,
            0,
            'S',
        ) == 0,
{
    reveal_strlit("%Y/%m/%d %H:%M:%S");
    reveal_strlit("%Y-%m-%d %H:%M:%S");
    reveal_strlit("%Y/%m/%d");
    reveal_strlit("%Y-%m-%d");
    reveal_with_fuel(valid_pattern_from, 12);
    reveal_with_fuel(dir_count, 12);
}

/// The text of an instant under a date-and-time pattern `%Y s %m s %d
/// ␣ %H : %M : %S` is nineteen characters with the separator fourth.
proof fn lemma_fmt_datetime_shape(p: Seq<char>, d: UtcDateTime)
    requires
        d.valid(),
        p.len() == 17,
        p[0] == '%' && p[1] == 'Y' && p[2] != '%' && p[3] == '%' && p[4] == 'm' && p[5] != '%'
            && p[6] == '%' && p[7] == 'd' && p[8] == ' ' && p[8] != '%' && p[9] == '%' && p[10]
            == 'H' && p[11] == ':' && p[11] != '%' && p[12] == '%' && p[13] == 'M' && p[14] == ':'
            && p[15] == '%' && p[16] == 'S',
    ensures
        fmt_custom(p, d).len() == 19,
        fmt_custom(p, d)[4] == p[2],
{
    reveal_with_fuel(fmt_custom_from, 13);
    let s = fmt_custom(p, d);
    assert(s.len() == 19);
    assert(s[4] == p[2]);
}

/// The parse ladder returns the notation that wrote the text: the built-in
/// notations' outputs have mutually exclusive shapes (lengths 25, 31, 19,
/// 19, 10 and 10, the equal lengths told apart by their separator), so no
/// earlier rung of the ladder accepts a later notation's text. For the two
/// date-only patterns the instant must sit at midnight — all they can
/// write.
pub proof fn lemma_ladder_keeps_notation(nv: NotationView, d: UtcDateTime)
    requires
        d.valid(),
        match nv {
            NotationView::Pattern(p) => p == "%Y/%m/%d %H:%M:%S"@ || p == "%Y-%m-%d %H:%M:%S"@
                || p == "%Y/%m/%d"@ || p == "%Y-%m-%d"@,
            _ => true,
        },
        (nv == NotationView::Pattern("%Y/%m/%d"@) || nv == NotationView::Pattern("%Y-%m-%d"@))
            ==> d.hour == 0 && d.minute == 0 && d.second == 0,
    ensures
        spec_date_with_format(spec_format_view(nv, d)) == Some((d, nv)),
{
    reveal_strlit("%Y/%m/%d %H:%M:%S");
    reveal_strlit("%Y-%m-%d %H:%M:%S");
    reveal_strlit("%Y/%m/%d");
    reveal_strlit("%Y-%m-%d");
    lemma_support_patterns_parseable();
    let p0 = "%Y/%m/%d %H:%M:%S"@;
    let p1 = "%Y-%m-%d %H:%M:%S"@;
    let p2 = "%Y/%m/%d"@;
    let p3 = "%Y-%m-%d"@;
    match nv {
        NotationView::R3339 => {
            lemma_rfc3339_roundtrip(d);
        },
        NotationView::R2822 => {
            lemma_rfc2822_fmt_parts(d);
            lemma_rfc2822_roundtrip(d);
            let s = fmt_rfc2822(d);
            assert(spec_parse_rfc3339(s) is None);
        },
        NotationView::Pattern(p) => {
            if p == p0 {
                lemma_fmt_datetime_shape(p0, d);
                let s = fmt_custom(p0, d);
                assert(spec_parse_rfc3339(s) is None);
                assert(spec_parse_rfc2822(s) is None);
                lemma_custom_roundtrip(p0, d);
                assert(spec_parse_custom(p0, s) == Some(d));
            } else if p == p1 {
                lemma_fmt_datetime_shape(p1, d);
                let s = fmt_custom(p1, d);
                assert(spec_parse_rfc3339(s) is None);
                assert(spec_parse_rfc2822(s) is None);
                if spec_parse_custom(p0, s) is Some {
                    let dt2 = spec_parse_custom(p0, s)->0;
                    assert(dt2.valid());
                    lemma_custom_format_parse_top(p0, s, dt2);
                    lemma_fmt_datetime_shape(p0, dt2);
                    assert(s[4] == '-' && fmt_custom(p0, dt2)[4] == '/');
                    assert(false);
                }
                lemma_custom_roundtrip(p1, d);
                assert(spec_parse_custom(p1, s) == Some(d));
            } else if p == p2 {
                lemma_fmt_date_shape(p2, d);
                let s = fmt_custom(p2, d);
                assert(spec_parse_rfc3339(s) is None);
                assert(spec_parse_rfc2822(s) is None);
                if spec_parse_custom(p0, s) is Some {
                    let dt2 = spec_parse_custom(p0, s)->0;
                    assert(dt2.valid());
                    lemma_custom_format_parse_top(p0, s, dt2);
                    lemma_fmt_datetime_shape(p0, dt2);
                    assert(false);
                }
                if spec_parse_custom(p1, s) is Some {
                    let dt2 = spec_parse_custom(p1, s)->0;
                    assert(dt2.valid());
                    lemma_custom_format_parse_top(p1, s, dt2);
                    lemma_fmt_datetime_shape(p1, dt2);
                    assert(false);
                }
                lemma_custom_roundtrip(p2, d);
                assert(spec_parse_custom(p2, s) == Some(d));
            } else {
                lemma_fmt_date_shape(p3, d);
                let s = fmt_custom(p3, d);
                assert(spec_parse_rfc3339(s) is None);
                assert(spec_parse_rfc2822(s) is None);
                if spec_parse_custom(p0, s) is Some {
                    let dt2 = spec_parse_custom(p0, s)->0;
                    assert(dt2.valid());
                    lemma_custom_format_parse_top(p0, s, dt2);
                    lemma_fmt_datetime_shape(p0, dt2);
                    assert(false);
                }
                if spec_parse_custom(p1, s) is Some {
                    let dt2 = spec_parse_custom(p1, s)->0;
                    assert(dt2.valid());
                    lemma_custom_format_parse_top(p1, s, dt2);
                    lemma_fmt_datetime_shape(p1, dt2);
                    assert(false);
                }
                if spec_parse_custom(p2, s) is Some {
                    let dt2 = spec_parse_custom(p2, s)->0;
                    assert(dt2.valid());
                    lemma_custom_format_parse_top(p2, s, dt2);
                    lemma_fmt_date_shape(p2, dt2);
                    assert(s[4] == '-' && fmt_custom(p2, dt2)[4] == '/');
                    assert(false);
                }
                lemma_custom_roundtrip(p3, d);
                assert(spec_parse_custom(p3, s) == Some(d));
            }
        },
    }
}

/// The text of an instant under a date-only pattern `%Y s %m s %d` is ten
/// characters with the separator fourth.
proof fn lemma_fmt_date_shape(p: Seq<char>, d: UtcDateTime)
    requires
        d.valid(),
        p.len() == 8,
        p[0] == '%' && p[1] == 'Y' && p[2] != '%' && p[3] == '%' && p[4] == 'm' && p[5] != '%'
            && p[6] == '%' && p[7] == 'd',
    ensures
        fmt_custom(p, d).len() == 10,
        fmt_custom(p, d)[4] == p[2],
{
    reveal_with_fuel(fmt_custom_from, 8);
    let s = fmt_custom(p, d);
    assert(s.len() == 10);
    assert(s[4] == p[2]);
}

} // verus!

