//! UTC timestamps and the tracker's three wire encodings.
//!
//! A timestamp is stored as calendar fields already normalized to UTC.
//! The parser accepts `YYYY-MM-DDTHH:MM:SS`, optionally followed by a
//! fractional-second part, and finished by `Z`, `+HH:MM`/`-HH:MM` or
//! `+HHMM`/`-HHMM`; the offset is folded into the fields.

use vstd::prelude::*;

use crate::text::{spec_dec, spec_is_digit, u64_to_dec};

verus! {

/// A calendar instant in UTC, millisecond precision.
#[derive(Clone, Copy, Debug, PartialEq, Eq, Hash, Structural)]
pub struct Timestamp {
    pub year: u16,
    pub month: u8,
    pub day: u8,
    pub hour: u8,
    pub minute: u8,
    pub second: u8,
    pub milli: u16,
}

pub open spec fn spec_is_leap(y: int) -> bool {
    y % 4 == 0 && (y % 100 != 0 || y % 400 == 0)
}

pub open spec fn spec_days_in_month(y: int, m: int) -> int {
    if m == 2 {
        if spec_is_leap(y) {
            29
        } else {
            28
        }
    } else if m == 4 || m == 6 || m == 9 || m == 11 {
        30
    } else {
        31
    }
}

impl Timestamp {
    /// Field ranges of a representable instant.
    pub open spec fn wf(self) -> bool {
        &&& self.year <= 9999
        &&& 1 <= self.month <= 12
        &&& 1 <= self.day <= spec_days_in_month(self.year as int, self.month as int)
        &&& self.hour <= 23
        &&& self.minute <= 59
        &&& self.second <= 59
        &&& self.milli <= 999
    }

    /// The Unix epoch, the default for a missing creation date.
    pub fn epoch() -> (r: Timestamp)
        ensures
            r == Timestamp::spec_epoch(),
    {
        Timestamp { year: 1970, month: 1, day: 1, hour: 0, minute: 0, second: 0, milli: 0 }
    }

    pub open spec fn spec_epoch() -> Timestamp {
        Timestamp { year: 1970, month: 1, day: 1, hour: 0, minute: 0, second: 0, milli: 0 }
    }
}

pub proof fn lemma_epoch_wf()
    ensures
        Timestamp::spec_epoch().wf(),
{
}

fn is_leap(y: u16) -> (r: bool)
    ensures
        r == spec_is_leap(y as int),
{
    y % 4 == 0 && (y % 100 != 0 || y % 400 == 0)
}

fn days_in_month(y: u16, m: u8) -> (r: u8)
    ensures
        r as int == spec_days_in_month(y as int, m as int),
{
    if m == 2 {
        if is_leap(y) {
            29
        } else {
            28
        }
    } else if m == 4 || m == 6 || m == 9 || m == 11 {
        30
    } else {
        31
    }
}

/// Day number of a calendar date, with day 0 = 1970-01-01.
///
/// The standard Gregorian formula over 400-year eras: years are counted
/// from March so that the leap day falls last, months are mapped through
/// `(153 * mp + 2) / 5`, and day 719468 of era 0 is the Unix epoch.
pub open spec fn spec_days_from_civil(y: int, m: int, d: int) -> int {
    let yy = if m <= 2 {
        y - 1
    } else {
        y
    };
    let era = if yy >= 0 {
        yy / 400
    } else {
        -1
    };
    let yoe = yy - era * 400;
    let mp = if m > 2 {
        m - 3
    } else {
        m + 9
    };
    let doy = (153 * mp + 2) / 5 + d - 1;
    let doe = yoe * 365 + yoe / 4 - yoe / 100 + doy;
    era * 146097 + doe - 719468
}

/// Day number of a date, with day 0 = 1970-01-01.
pub fn days_from_civil(y: u16, m: u8, d: u8) -> (r: i64)
    requires
        y <= 9999,
        1 <= m <= 12,
        1 <= d <= 31,
    ensures
        r as int == spec_days_from_civil(y as int, m as int, d as int),
        -719528 <= r <= 2932896,
{
    let yy: i64 = if m <= 2 {
        y as i64 - 1
    } else {
        y as i64
    };
    let era: i64 = if yy >= 0 {
        yy / 400
    } else {
        -1
    };
    proof {
        if yy >= 0 {
            vstd::arithmetic::div_mod::lemma_fundamental_div_mod(yy as int, 400);
            assert(0 <= era <= 24);
        }
    }
    let yoe: i64 = yy - era * 400;
    proof {
        assert(0 <= yoe <= 399);
    }
    let mp: i64 = if m > 2 {
        m as i64 - 3
    } else {
        m as i64 + 9
    };
    let doy: i64 = (153 * mp + 2) / 5 + d as i64 - 1;
    proof {
        assert(0 <= mp <= 11);
        assert(0 <= doy <= 367);
        assert(0 <= yoe / 4 <= 99);
        assert(0 <= yoe / 100 <= 3);
    }
    let doe: i64 = yoe * 365 + yoe / 4 - yoe / 100 + doy;
    proof {
        assert(yoe * 365 <= 399 * 365);
        assert(0 <= doe <= 146101);
    }
    era * 146097 + doe - 719468
}

/// Milliseconds since the Unix epoch.
pub open spec fn spec_epoch_millis(t: Timestamp) -> int {
    (spec_days_from_civil(t.year as int, t.month as int, t.day as int) * 86400 + t.hour as int
        * 3600 + t.minute as int * 60 + t.second as int) * 1000 + t.milli as int
}

/// Milliseconds since the Unix epoch.
pub fn epoch_millis(t: &Timestamp) -> (r: i64)
    requires
        t.wf(),
    ensures
        r as int == spec_epoch_millis(*t),
{
    let days = days_from_civil(t.year, t.month, t.day);
    (days * 86400 + t.hour as i64 * 3600 + t.minute as i64 * 60 + t.second as i64) * 1000
        + t.milli as i64
}

/// Numeric value of the digit run `s[i..j)`.
pub open spec fn spec_digits_val(s: Seq<char>, i: int, j: int) -> int
    decreases j - i,
{
    if i >= j {
        0
    } else {
        spec_digits_val(s, i, j - 1) * 10 + (s[j - 1] as int - '0' as int)
    }
}

/// All of `s[i..j)` are ASCII digits.
pub open spec fn spec_all_digits(s: Seq<char>, i: int, j: int) -> bool {
    forall|k: int| i <= k < j ==> spec_is_digit(#[trigger] s[k])
}

/// Value of the digit run `s[i..j)`; the run is at most four digits.
fn digits_val(s: &str, i: usize, j: usize) -> (r: u64)
    requires
        i <= j <= s@.len(),
        s@.len() <= usize::MAX,
        j - i <= 4,
        spec_all_digits(s@, i as int, j as int),
    ensures
        r as int == spec_digits_val(s@, i as int, j as int),
        r <= 9999,
        r as int <= spec_max_for(j - i),
{
    let mut k: usize = i;
    let mut acc: u64 = 0;
    proof {
        lemma_digits_val_bound_small(s@, i as int, i as int);
    }
    while k < j
        invariant
            i <= k <= j <= s@.len(),
            s@.len() <= usize::MAX,
            j - i <= 4,
            spec_all_digits(s@, i as int, j as int),
            acc as int == spec_digits_val(s@, i as int, k as int),
            acc < 10000,
            acc as int <= spec_max_for(k - i),
        decreases j - k,
    {
        let c = s.get_char(k);
        proof {
            assert(spec_is_digit(s@[k as int]));
        }
        let dv: u32 = (c as u32) - ('0' as u32);
        acc = acc * 10 + dv as u64;
        k = k + 1;
        proof {
            assert(acc as int <= spec_max_for(k - i));
        }
    }
    acc
}

/// Largest value a digit run of the given length can take (up to four).
pub open spec fn spec_max_for(n: int) -> int {
    if n <= 0 {
        0
    } else if n == 1 {
        9
    } else if n == 2 {
        99
    } else if n == 3 {
        999
    } else {
        9999
    }
}

proof fn lemma_digits_val_bound_small(s: Seq<char>, i: int, j: int)
    requires
        i <= j,
    ensures
        spec_digits_val(s, i, i) == 0,
{
}

pub(crate) fn all_digits(s: &str, i: usize, j: usize) -> (r: bool)
    requires
        i <= j <= s@.len(),
        s@.len() <= usize::MAX,
    ensures
        r == spec_all_digits(s@, i as int, j as int),
{
    let mut k: usize = i;
    while k < j
        invariant
            i <= k <= j <= s@.len(),
            s@.len() <= usize::MAX,
            forall|t: int| i <= t < k ==> spec_is_digit(#[trigger] s@[t]),
        decreases j - k,
    {
        if !crate::text::is_digit(s.get_char(k)) {
            return false;
        }
        k = k + 1;
    }
    true
}

/// First index at or after `i` that is past the end or not a digit.
pub open spec fn spec_digits_end(s: Seq<char>, i: int) -> int
    decreases s.len() - i,
{
    if i < 0 || i >= s.len() || !spec_is_digit(s[i]) {
        i
    } else {
        spec_digits_end(s, i + 1)
    }
}

fn digits_end(s: &str, i: usize) -> (r: usize)
    requires
        i <= s@.len(),
        s@.len() <= usize::MAX,
    ensures
        r as int == spec_digits_end(s@, i as int),
        i <= r <= s@.len(),
        spec_all_digits(s@, i as int, r as int),
{
    let len = s.unicode_len();
    let mut p: usize = i;
    while p < len && crate::text::is_digit(s.get_char(p))
        invariant
            len == s@.len(),
            i <= p <= len,
            spec_digits_end(s@, i as int) == spec_digits_end(s@, p as int),
            spec_all_digits(s@, i as int, p as int),
        decreases len - p,
    {
        p = p + 1;
    }
    p
}

/// The fixed `YYYY-MM-DDTHH:MM:SS` prefix.
pub open spec fn spec_ts_shape(s: Seq<char>) -> bool {
    &&& s.len() >= 20
    &&& spec_all_digits(s, 0, 4)
    &&& s[4] == '-'
    &&& spec_all_digits(s, 5, 7)
    &&& s[7] == '-'
    &&& spec_all_digits(s, 8, 10)
    &&& s[10] == 'T'
    &&& spec_all_digits(s, 11, 13)
    &&& s[13] == ':'
    &&& spec_all_digits(s, 14, 16)
    &&& s[16] == ':'
    &&& spec_all_digits(s, 17, 19)
}

/// Where the optional fractional-second part ends (19 when absent).
pub open spec fn spec_frac_end(s: Seq<char>) -> int {
    if s.len() > 19 && s[19] == '.' {
        spec_digits_end(s, 20)
    } else {
        19
    }
}

/// A dot must be followed by at least one digit.
pub open spec fn spec_frac_ok(s: Seq<char>) -> bool {
    (19 < s.len() && s[19] == '.') ==> spec_frac_end(s) >= 21
}

/// Milliseconds from the fractional part: the first three digits, padded
/// with zeros on the right; further digits are truncated.
pub open spec fn spec_frac_millis(s: Seq<char>) -> int {
    let e = spec_frac_end(s);
    if e == 19 {
        0
    } else if e >= 23 {
        spec_digits_val(s, 20, 23)
    } else if e == 22 {
        spec_digits_val(s, 20, 22) * 10
    } else {
        spec_digits_val(s, 20, 21) * 100
    }
}

/// The offset suffix beginning at `p`: `Z`, `±HHMM`, or `±HH:MM`, ending
/// the string, with `HH <= 23` and `MM <= 59`.
pub open spec fn spec_offset_ok(s: Seq<char>, p: int) -> bool {
    if p < 0 || p >= s.len() {
        false
    } else if s[p] == 'Z' || s[p] == 'z' {
        p + 1 == s.len()
    } else if s[p] == '+' || s[p] == '-' {
        &&& {
            ||| (s.len() == p + 5 && spec_all_digits(s, p + 1, p + 5))
            ||| (s.len() == p + 6 && spec_all_digits(s, p + 1, p + 3) && s[p + 3] == ':'
                && spec_all_digits(s, p + 4, p + 6))
        }
        &&& spec_digits_val(s, p + 1, p + 3) <= 23
        &&& spec_offset_mm(s, p) <= 59
    } else {
        false
    }
}

/// The minute digits of an explicit offset.
pub open spec fn spec_offset_mm(s: Seq<char>, p: int) -> int {
    if s.len() == p + 5 {
        spec_digits_val(s, p + 3, p + 5)
    } else {
        spec_digits_val(s, p + 4, p + 6)
    }
}

/// Signed offset in minutes.
pub open spec fn spec_offset_minutes(s: Seq<char>, p: int) -> int {
    if s[p] == 'Z' || s[p] == 'z' {
        0
    } else {
        let mag = spec_digits_val(s, p + 1, p + 3) * 60 + spec_offset_mm(s, p);
        if s[p] == '-' {
            -mag
        } else {
            mag
        }
    }
}

/// The local calendar fields read from the fixed positions.
pub open spec fn spec_field(s: Seq<char>, which: int) -> int {
    if which == 0 {
        spec_digits_val(s, 0, 4)
    } else if which == 1 {
        spec_digits_val(s, 5, 7)
    } else if which == 2 {
        spec_digits_val(s, 8, 10)
    } else if which == 3 {
        spec_digits_val(s, 11, 13)
    } else if which == 4 {
        spec_digits_val(s, 14, 16)
    } else {
        spec_digits_val(s, 17, 19)
    }
}

/// The local fields denote a real date and time of day.
pub open spec fn spec_fields_ok(s: Seq<char>) -> bool {
    &&& 1 <= spec_field(s, 1) <= 12
    &&& 1 <= spec_field(s, 2) <= spec_days_in_month(spec_field(s, 0), spec_field(s, 1))
    &&& spec_field(s, 3) <= 23
    &&& spec_field(s, 4) <= 59
    &&& spec_field(s, 5) <= 59
}

/// The calendar day before `(y, m, d)`.
pub open spec fn spec_prev_day(y: int, m: int, d: int) -> (int, int, int) {
    if d > 1 {
        (y, m, d - 1)
    } else if m > 1 {
        (y, m - 1, spec_days_in_month(y, m - 1))
    } else {
        (y - 1, 12, 31)
    }
}

/// The calendar day after `(y, m, d)`.
pub open spec fn spec_next_day(y: int, m: int, d: int) -> (int, int, int) {
    if d < spec_days_in_month(y, m) {
        (y, m, d + 1)
    } else if m < 12 {
        (y, m + 1, 1)
    } else {
        (y + 1, 1, 1)
    }
}

/// Folds a signed offset into local fields, borrowing or carrying one
/// calendar day when the time of day under- or overflows. `None` when the
/// resulting instant falls outside years 0000-9999.
pub open spec fn spec_normalize(y: int, m: int, d: int, hh: int, mi: int, off: int) -> Option<
    (int, int, int, int, int),
> {
    let total = hh * 60 + mi - off;
    if total < 0 {
        if y == 0 && m == 1 && d == 1 {
            None
        } else {
            let (y2, m2, d2) = spec_prev_day(y, m, d);
            Some((y2, m2, d2, (total + 1440) / 60, (total + 1440) % 60))
        }
    } else if total >= 1440 {
        if y == 9999 && m == 12 && d == 31 {
            None
        } else {
            let (y2, m2, d2) = spec_next_day(y, m, d);
            Some((y2, m2, d2, (total - 1440) / 60, (total - 1440) % 60))
        }
    } else {
        Some((y, m, d, total / 60, total % 60))
    }
}

/// What `parse_timestamp` accepts and returns.
pub open spec fn spec_parse_timestamp(s: Seq<char>) -> Option<Timestamp> {
    if !spec_ts_shape(s) {
        None
    } else if !spec_frac_ok(s) {
        None
    } else if !spec_offset_ok(s, spec_frac_end(s)) {
        None
    } else if !spec_fields_ok(s) {
        None
    } else {
        let off = spec_offset_minutes(s, spec_frac_end(s));
        match spec_normalize(
            spec_field(s, 0),
            spec_field(s, 1),
            spec_field(s, 2),
            spec_field(s, 3),
            spec_field(s, 4),
            off,
        ) {
            Option::None => None,
            Option::Some((y, m, d, hh, mi)) => Some(
                Timestamp {
                    year: y as u16,
                    month: m as u8,
                    day: d as u8,
                    hour: hh as u8,
                    minute: mi as u8,
                    second: spec_field(s, 5) as u8,
                    milli: spec_frac_millis(s) as u16,
                },
            ),
        }
    }
}

fn prev_day(y: u16, m: u8, d: u8) -> (r: (u16, u8, u8))
    requires
        y <= 9999,
        1 <= m <= 12,
        1 <= d <= spec_days_in_month(y as int, m as int),
        !(y == 0 && m == 1 && d == 1),
    ensures
        (r.0 as int, r.1 as int, r.2 as int) == spec_prev_day(y as int, m as int, d as int),
        r.0 <= 9999,
        1 <= r.1 <= 12,
        1 <= r.2 <= spec_days_in_month(r.0 as int, r.1 as int),
{
    if d > 1 {
        (y, m, d - 1)
    } else if m > 1 {
        (y, m - 1, days_in_month(y, m - 1))
    } else {
        (y - 1, 12, 31)
    }
}

fn next_day(y: u16, m: u8, d: u8) -> (r: (u16, u8, u8))
    requires
        y <= 9999,
        1 <= m <= 12,
        1 <= d <= spec_days_in_month(y as int, m as int),
        !(y == 9999 && m == 12 && d == 31),
    ensures
        (r.0 as int, r.1 as int, r.2 as int) == spec_next_day(y as int, m as int, d as int),
        r.0 <= 9999,
        1 <= r.1 <= 12,
        1 <= r.2 <= spec_days_in_month(r.0 as int, r.1 as int),
{
    if d < days_in_month(y, m) {
        (y, m, d + 1)
    } else if m < 12 {
        (y, m + 1, 1)
    } else {
        (y + 1, 1, 1)
    }
}

/// Parses one of the tracker's timestamp encodings into a UTC instant.
///
/// Accepts `YYYY-MM-DDTHH:MM:SS` with an optional `.fff` fraction and an
/// offset written `Z`, `+HH:MM` or `+HHMM` (or the `-` forms).
#[verifier::rlimit(100)]
pub fn parse_timestamp(s: &str) -> (r: Option<Timestamp>)
    ensures
        r == spec_parse_timestamp(s@),
        r matches Some(t) ==> t.wf(),
{
    let len = s.unicode_len();
    if len < 20 {
        return None;
    }
    // Fixed prefix shape.
    if !(all_digits(s, 0, 4) && s.get_char(4) == '-' && all_digits(s, 5, 7) && s.get_char(7) == '-'
        && all_digits(s, 8, 10) && s.get_char(10) == 'T' && all_digits(s, 11, 13) && s.get_char(13)
        == ':' && all_digits(s, 14, 16) && s.get_char(16) == ':' && all_digits(s, 17, 19)) {
        return None;
    }
    // Optional fraction.
    let frac_end: usize = if s.get_char(19) == '.' {
        let e = digits_end(s, 20);
        if e < 21 {
            return None;
        }
        e
    } else {
        19
    };
    let millis: u64 = if frac_end == 19 {
        0
    } else if frac_end >= 23 {
        digits_val(s, 20, 23)
    } else if frac_end == 22 {
        digits_val(s, 20, 22) * 10
    } else {
        digits_val(s, 20, 21) * 100
    };
    proof {
        assert(millis as int == spec_frac_millis(s@));
        assert(millis <= 999);
    }
    // Offset.
    let p = frac_end;
    if p >= len {
        return None;
    }
    let oc = s.get_char(p);
    let off_min: i64 = if oc == 'Z' || oc == 'z' {
        if len - p != 1 {
            return None;
        }
        0
    } else if oc == '+' || oc == '-' {
        let compact = len - p == 5 && all_digits(s, p + 1, p + 5);
        let coloned = len - p == 6 && all_digits(s, p + 1, p + 3) && s.get_char(p + 3) == ':'
            && all_digits(s, p + 4, p + 6);
        if !(compact || coloned) {
            return None;
        }
        let hh = digits_val(s, p + 1, p + 3);
        let mm = if len - p == 5 {
            digits_val(s, p + 3, p + 5)
        } else {
            digits_val(s, p + 4, p + 6)
        };
        if hh > 23 || mm > 59 {
            return None;
        }
        let mag = (hh * 60 + mm) as i64;
        if oc == '-' {
            -mag
        } else {
            mag
        }
    } else {
        return None;
    };
    proof {
        assert(spec_offset_ok(s@, p as int));
        assert(off_min as int == spec_offset_minutes(s@, p as int));
        assert(-1439 <= off_min <= 1439);
    }
    // Field ranges.
    let year = digits_val(s, 0, 4);
    let month = digits_val(s, 5, 7);
    let day = digits_val(s, 8, 10);
    let hour = digits_val(s, 11, 13);
    let minute = digits_val(s, 14, 16);
    let second = digits_val(s, 17, 19);
    if !(1 <= month && month <= 12) {
        return None;
    }
    if !(1 <= day && day <= days_in_month(year as u16, month as u8) as u64) {
        return None;
    }
    if !(hour <= 23 && minute <= 59 && second <= 59) {
        return None;
    }
    proof {
        assert(spec_fields_ok(s@));
    }
    // Fold the offset in.
    let total: i64 = hour as i64 * 60 + minute as i64 - off_min;
    let (y2, m2, d2, h2, mi2): (u16, u8, u8, u8, u8) = if total < 0 {
        if year == 0 && month == 1 && day == 1 {
            return None;
        }
        let nd = prev_day(year as u16, month as u8, day as u8);
        let t2 = total + 1440;
        (nd.0, nd.1, nd.2, (t2 / 60) as u8, (t2 % 60) as u8)
    } else if total >= 1440 {
        if year == 9999 && month == 12 && day == 31 {
            return None;
        }
        let nd = next_day(year as u16, month as u8, day as u8);
        let t2 = total - 1440;
        (nd.0, nd.1, nd.2, (t2 / 60) as u8, (t2 % 60) as u8)
    } else {
        (year as u16, month as u8, day as u8, (total / 60) as u8, (total % 60) as u8)
    };
    let r = Timestamp {
        year: y2,
        month: m2,
        day: d2,
        hour: h2,
        minute: mi2,
        second: second as u8,
        milli: millis as u16,
    };
    // Ties the normalized fields back to the specification's tuple.
    proof {
        assert(spec_normalize(
            spec_field(s@, 0),
            spec_field(s@, 1),
            spec_field(s@, 2),
            spec_field(s@, 3),
            spec_field(s@, 4),
            spec_offset_minutes(s@, spec_frac_end(s@)),
        ) == Option::<(int, int, int, int, int)>::Some(
            (y2 as int, m2 as int, d2 as int, h2 as int, mi2 as int),
        ));
        assert(r.wf());
    }
    Some(r)
}

/// Two-digit zero-padded decimal.
pub open spec fn spec_pad2(n: int) -> Seq<char> {
    if n < 10 {
        seq!['0'] + spec_dec(n as nat)
    } else {
        spec_dec(n as nat)
    }
}

/// Three-digit zero-padded decimal.
pub open spec fn spec_pad3(n: int) -> Seq<char> {
    if n < 10 {
        seq!['0', '0'] + spec_dec(n as nat)
    } else if n < 100 {
        seq!['0'] + spec_dec(n as nat)
    } else {
        spec_dec(n as nat)
    }
}

/// Four-digit zero-padded decimal.
pub open spec fn spec_pad4(n: int) -> Seq<char> {
    if n < 10 {
        seq!['0', '0', '0'] + spec_dec(n as nat)
    } else if n < 100 {
        seq!['0', '0'] + spec_dec(n as nat)
    } else if n < 1000 {
        seq!['0'] + spec_dec(n as nat)
    } else {
        spec_dec(n as nat)
    }
}

fn pad2(n: u64) -> (r: String)
    requires
        n <= 99,
    ensures
        r@ == spec_pad2(n as int),
{
    proof {
        reveal_strlit("0");
    }
    if n < 10 {
        let mut s = "0".to_owned();
        s.append(u64_to_dec(n).as_str());
        proof {
            assert("0"@ =~= seq!['0']);
        }
        s
    } else {
        u64_to_dec(n)
    }
}

fn pad3(n: u64) -> (r: String)
    requires
        n <= 999,
    ensures
        r@ == spec_pad3(n as int),
{
    proof {
        reveal_strlit("00");
        reveal_strlit("0");
    }
    if n < 10 {
        let mut s = "00".to_owned();
        s.append(u64_to_dec(n).as_str());
        proof {
            assert("00"@ =~= seq!['0', '0']);
        }
        s
    } else if n < 100 {
        let mut s = "0".to_owned();
        s.append(u64_to_dec(n).as_str());
        proof {
            assert("0"@ =~= seq!['0']);
        }
        s
    } else {
        u64_to_dec(n)
    }
}

fn pad4(n: u64) -> (r: String)
    requires
        n <= 9999,
    ensures
        r@ == spec_pad4(n as int),
{
    proof {
        reveal_strlit("000");
        reveal_strlit("00");
        reveal_strlit("0");
    }
    if n < 10 {
        let mut s = "000".to_owned();
        s.append(u64_to_dec(n).as_str());
        proof {
            assert("000"@ =~= seq!['0', '0', '0']);
        }
        s
    } else if n < 100 {
        let mut s = "00".to_owned();
        s.append(u64_to_dec(n).as_str());
        proof {
            assert("00"@ =~= seq!['0', '0']);
        }
        s
    } else if n < 1000 {
        let mut s = "0".to_owned();
        s.append(u64_to_dec(n).as_str());
        proof {
            assert("0"@ =~= seq!['0']);
        }
        s
    } else {
        u64_to_dec(n)
    }
}

/// `YYYY-MM-DD`, the name of a date folder.
pub open spec fn spec_date_string(t: Timestamp) -> Seq<char> {
    spec_pad4(t.year as int) + seq!['-'] + spec_pad2(t.month as int) + seq!['-'] + spec_pad2(
        t.day as int,
    )
}

/// Formats the date part as `YYYY-MM-DD`.
pub fn date_string(t: &Timestamp) -> (r: String)
    requires
        t.wf(),
    ensures
        r@ == spec_date_string(*t),
{
    proof {
        reveal_strlit("-");
    }
    let mut s = pad4(t.year as u64);
    s.append("-");
    s.append(pad2(t.month as u64).as_str());
    s.append("-");
    s.append(pad2(t.day as u64).as_str());
    proof {
        assert("-"@ =~= seq!['-']);
    }
    s
}

/// `YYYY-MM-DDTHH:MM:SS.fffZ`, the encoding written to control records.
pub open spec fn spec_rfc3339_string(t: Timestamp) -> Seq<char> {
    spec_date_string(t) + seq!['T'] + spec_pad2(t.hour as int) + seq![':'] + spec_pad2(
        t.minute as int,
    ) + seq![':'] + spec_pad2(t.second as int) + seq!['.'] + spec_pad3(t.milli as int) + seq!['Z']
}

/// Formats an instant as `YYYY-MM-DDTHH:MM:SS.fffZ`.
pub fn rfc3339_string(t: &Timestamp) -> (r: String)
    requires
        t.wf(),
    ensures
        r@ == spec_rfc3339_string(*t),
{
    proof {
        reveal_strlit("T");
        reveal_strlit(":");
        reveal_strlit(".");
        reveal_strlit("Z");
    }
    let mut s = date_string(t);
    s.append("T");
    s.append(pad2(t.hour as u64).as_str());
    s.append(":");
    s.append(pad2(t.minute as u64).as_str());
    s.append(":");
    s.append(pad2(t.second as u64).as_str());
    s.append(".");
    s.append(pad3(t.milli as u64).as_str());
    s.append("Z");
    proof {
        assert("T"@ =~= seq!['T']);
        assert(":"@ =~= seq![':']);
        assert("."@ =~= seq!['.']);
        assert("Z"@ =~= seq!['Z']);
    }
    s
}


/// Relies on chrono's `Utc::now`: the current time, rendered in RFC 3339
/// with millisecond precision and a `Z` suffix. Nothing can be promised
/// of a clock reading, so the contract is empty; `now` below handles
/// every outcome.
#[verifier::external_body]
fn now_rfc3339() -> String {
    chrono::Utc::now().to_rfc3339_opts(chrono::SecondsFormat::Millis, true)
}

/// The current UTC time; the Unix epoch if the clock's rendering is not
/// a representable timestamp.
pub fn now() -> (r: Timestamp)
    ensures
        r.wf(),
{
    let s = now_rfc3339();
    match parse_timestamp(s.as_str()) {
        Some(t) => t,
        None => Timestamp::epoch(),
    }
}


/// Reading digits is insensitive to the surrounding text: equal runs
/// have equal values.
proof fn lemma_digits_val_congruent(s1: Seq<char>, i1: int, s2: Seq<char>, i2: int, len: int)
    requires
        0 <= len,
        forall|k: int| 0 <= k < len ==> #[trigger] s1[i1 + k] == s2[i2 + k],
    ensures
        spec_digits_val(s1, i1, i1 + len) == spec_digits_val(s2, i2, i2 + len),
    decreases len,
{
    if len > 0 {
        lemma_digits_val_congruent(s1, i1, s2, i2, len - 1);
        assert(s1[i1 + (len - 1)] == s2[i2 + (len - 1)]);
    }
}

/// A decimal rendering reads back as its number.
proof fn lemma_dec_val(n: nat)
    ensures
        spec_digits_val(crate::text::spec_dec(n), 0, crate::text::spec_dec(n).len() as int)
            == n,
        spec_all_digits(crate::text::spec_dec(n), 0, crate::text::spec_dec(n).len() as int),
    decreases n,
{
    let d = crate::text::spec_dec(n);
    assert(crate::text::spec_digit(n % 10) as int - '0' as int == n % 10);
    assert(crate::text::spec_is_digit(crate::text::spec_digit(n % 10)));
    if n < 10 {
        assert(d =~= seq![crate::text::spec_digit(n)]);
        assert(spec_digits_val(d, 0, 0) == 0);
        assert(spec_digits_val(d, 0, 1) == crate::text::spec_digit(n) as int - '0' as int);
    } else {
        lemma_dec_val(n / 10);
        let p = crate::text::spec_dec(n / 10);
        assert(d == p + seq![crate::text::spec_digit(n % 10)]);
        assert(d.len() == p.len() + 1);
        lemma_digits_val_congruent(d, 0, p, 0, p.len() as int);
        assert(spec_digits_val(d, 0, p.len() as int) == n / 10);
        assert(d[d.len() - 1] == crate::text::spec_digit(n % 10));
        assert(spec_digits_val(d, 0, d.len() as int) == spec_digits_val(d, 0, p.len() as int) * 10
            + (d[d.len() - 1] as int - '0' as int));
        assert(n == 10 * (n / 10) + n % 10);
        assert forall|k: int| 0 <= k < d.len() implies crate::text::spec_is_digit(
            #[trigger] d[k],
        ) by {
            if k < p.len() {
                assert(d[k] == p[k]);
            }
        }
    }
}

/// How long a rendering is, by range.
proof fn lemma_dec_len_range(n: nat)
    ensures
        n < 10 ==> crate::text::spec_dec(n).len() == 1,
        10 <= n < 100 ==> crate::text::spec_dec(n).len() == 2,
        100 <= n < 1000 ==> crate::text::spec_dec(n).len() == 3,
        1000 <= n < 10000 ==> crate::text::spec_dec(n).len() == 4,
    decreases n,
{
    if n >= 10 {
        lemma_dec_len_range(n / 10);
    }
}

/// A two-digit padded rendering: two digit characters reading back as
/// the number.
proof fn lemma_pad2_val(n: nat)
    requires
        n <= 99,
    ensures
        spec_pad2(n as int).len() == 2,
        spec_all_digits(spec_pad2(n as int), 0, 2),
        spec_digits_val(spec_pad2(n as int), 0, 2) == n,
{
    let d = spec_pad2(n as int);
    let dec = crate::text::spec_dec(n);
    lemma_dec_val(n);
    lemma_dec_len_range(n);
    if n < 10 {
        assert(d == seq!['0'] + dec);
        lemma_digits_val_leading_zeros(d, 0, 1, 2);
        lemma_digits_val_congruent(d, 1, dec, 0, 1);
    } else {
        assert(d == dec);
    }
    assert forall|k: int| 0 <= k < 2 implies crate::text::spec_is_digit(#[trigger] d[k]) by {
        if n < 10 {
            if k >= 1 {
                assert(d[k] == dec[k - 1]);
            }
        } else {
            assert(d[k] == dec[k]);
        }
    }
}

/// A three-digit padded rendering.
proof fn lemma_pad3_val(n: nat)
    requires
        n <= 999,
    ensures
        spec_pad3(n as int).len() == 3,
        spec_all_digits(spec_pad3(n as int), 0, 3),
        spec_digits_val(spec_pad3(n as int), 0, 3) == n,
{
    let d = spec_pad3(n as int);
    let dec = crate::text::spec_dec(n);
    lemma_dec_val(n);
    lemma_dec_len_range(n);
    if n < 10 {
        assert(d == seq!['0', '0'] + dec);
        lemma_digits_val_leading_zeros(d, 0, 2, 3);
        lemma_digits_val_congruent(d, 2, dec, 0, 1);
    } else if n < 100 {
        assert(d == seq!['0'] + dec);
        lemma_digits_val_leading_zeros(d, 0, 1, 3);
        lemma_digits_val_congruent(d, 1, dec, 0, 2);
    } else {
        assert(d == dec);
    }
    assert forall|k: int| 0 <= k < 3 implies crate::text::spec_is_digit(#[trigger] d[k]) by {
        if n < 10 {
            if k >= 2 {
                assert(d[k] == dec[k - 2]);
            }
        } else if n < 100 {
            if k >= 1 {
                assert(d[k] == dec[k - 1]);
            }
        } else {
            assert(d[k] == dec[k]);
        }
    }
}

/// A four-digit padded rendering.
proof fn lemma_pad4_val(n: nat)
    requires
        n <= 9999,
    ensures
        spec_pad4(n as int).len() == 4,
        spec_all_digits(spec_pad4(n as int), 0, 4),
        spec_digits_val(spec_pad4(n as int), 0, 4) == n,
{
    let d = spec_pad4(n as int);
    let dec = crate::text::spec_dec(n);
    lemma_dec_val(n);
    lemma_dec_len_range(n);
    if n < 10 {
        assert(d == seq!['0', '0', '0'] + dec);
        lemma_digits_val_leading_zeros(d, 0, 3, 4);
        lemma_digits_val_congruent(d, 3, dec, 0, 1);
    } else if n < 100 {
        assert(d == seq!['0', '0'] + dec);
        lemma_digits_val_leading_zeros(d, 0, 2, 4);
        lemma_digits_val_congruent(d, 2, dec, 0, 2);
    } else if n < 1000 {
        assert(d == seq!['0'] + dec);
        lemma_digits_val_leading_zeros(d, 0, 1, 4);
        lemma_digits_val_congruent(d, 1, dec, 0, 3);
    } else {
        assert(d == dec);
    }
    assert forall|k: int| 0 <= k < 4 implies crate::text::spec_is_digit(#[trigger] d[k]) by {
        if n < 10 {
            if k >= 3 {
                assert(d[k] == dec[k - 3]);
            }
        } else if n < 100 {
            if k >= 2 {
                assert(d[k] == dec[k - 2]);
            }
        } else if n < 1000 {
            if k >= 1 {
                assert(d[k] == dec[k - 1]);
            }
        } else {
            assert(d[k] == dec[k]);
        }
    }
}

/// A digit run whose leading characters are `'0'` reads as the run
/// without them.
proof fn lemma_digits_val_leading_zeros(s: Seq<char>, i: int, m: int, j: int)
    requires
        i <= m <= j,
        forall|k: int| i <= k < m ==> s[k] == '0',
    ensures
        spec_digits_val(s, i, j) == spec_digits_val(s, m, j),
    decreases j - m,
{
    lemma_digits_val_zero_prefix(s, i, m);
    if m < j {
        lemma_digits_val_leading_zeros_step(s, i, m, j);
    }
}

/// Helper: a run of zeros has value zero.
proof fn lemma_digits_val_zero_prefix(s: Seq<char>, i: int, m: int)
    requires
        i <= m,
        forall|k: int| i <= k < m ==> s[k] == '0',
    ensures
        spec_digits_val(s, i, m) == 0,
    decreases m - i,
{
    if i < m {
        lemma_digits_val_zero_prefix(s, i, m - 1);
    }
}

proof fn lemma_digits_val_leading_zeros_step(s: Seq<char>, i: int, m: int, j: int)
    requires
        i <= m <= j,
        spec_digits_val(s, i, m) == 0,
    ensures
        spec_digits_val(s, i, j) == spec_digits_val(s, m, j),
    decreases j - m,
{
    if m < j {
        lemma_digits_val_leading_zeros_step(s, i, m, j - 1);
    }
}


/// A rendered instant parses back to itself: the `last_checked` time a
/// control record stores is always readable again, in every state.
#[verifier::rlimit(100)]
pub proof fn lemma_rfc3339_round_trip(t: Timestamp)
    requires
        t.wf(),
    ensures
        spec_parse_timestamp(spec_rfc3339_string(t)) == Some(t),
{
    let s = spec_rfc3339_string(t);
    let p4 = spec_pad4(t.year as int);
    let pm = spec_pad2(t.month as int);
    let pd = spec_pad2(t.day as int);
    let ph = spec_pad2(t.hour as int);
    let pmi = spec_pad2(t.minute as int);
    let ps = spec_pad2(t.second as int);
    let p3 = spec_pad3(t.milli as int);
    lemma_pad4_val(t.year as nat);
    lemma_pad2_val(t.month as nat);
    lemma_pad2_val(t.day as nat);
    lemma_pad2_val(t.hour as nat);
    lemma_pad2_val(t.minute as nat);
    lemma_pad2_val(t.second as nat);
    lemma_pad3_val(t.milli as nat);
    assert(s.len() == 24);
    // The character layout of the rendering.
    assert(s.subrange(0, 4) =~= p4);
    assert(s[4] == '-');
    assert(s.subrange(5, 7) =~= pm);
    assert(s[7] == '-');
    assert(s.subrange(8, 10) =~= pd);
    assert(s[10] == 'T');
    assert(s.subrange(11, 13) =~= ph);
    assert(s[13] == ':');
    assert(s.subrange(14, 16) =~= pmi);
    assert(s[16] == ':');
    assert(s.subrange(17, 19) =~= ps);
    assert(s[19] == '.');
    assert(s.subrange(20, 23) =~= p3);
    assert(s[23] == 'Z');
    // The fixed prefix shape, field by field.
    assert forall|k: int| 0 <= k < 4 implies crate::text::spec_is_digit(#[trigger] s[k]) by {
        assert(s[k] == s.subrange(0, 4)[k]);
    }
    assert forall|k: int| 5 <= k < 7 implies crate::text::spec_is_digit(#[trigger] s[k]) by {
        assert(s[k] == s.subrange(5, 7)[k - 5]);
    }
    assert forall|k: int| 8 <= k < 10 implies crate::text::spec_is_digit(#[trigger] s[k]) by {
        assert(s[k] == s.subrange(8, 10)[k - 8]);
    }
    assert forall|k: int| 11 <= k < 13 implies crate::text::spec_is_digit(#[trigger] s[k]) by {
        assert(s[k] == s.subrange(11, 13)[k - 11]);
    }
    assert forall|k: int| 14 <= k < 16 implies crate::text::spec_is_digit(#[trigger] s[k]) by {
        assert(s[k] == s.subrange(14, 16)[k - 14]);
    }
    assert forall|k: int| 17 <= k < 19 implies crate::text::spec_is_digit(#[trigger] s[k]) by {
        assert(s[k] == s.subrange(17, 19)[k - 17]);
    }
    assert forall|k: int| 20 <= k < 23 implies crate::text::spec_is_digit(#[trigger] s[k]) by {
        assert(s[k] == s.subrange(20, 23)[k - 20]);
    }
    assert(spec_ts_shape(s));
    // The fraction runs to position 23 and stops at the `Z`.
    assert(!crate::text::spec_is_digit('Z'));
    assert(spec_digits_end(s, 24) == 24);
    assert(spec_digits_end(s, 23) == 23);
    assert(spec_digits_end(s, 22) == 23);
    assert(spec_digits_end(s, 21) == 23);
    assert(spec_digits_end(s, 20) == 23);
    assert(spec_frac_end(s) == 23);
    assert(spec_frac_ok(s));
    // The field values read back.
    lemma_digits_val_congruent(s, 0, p4, 0, 4);
    lemma_digits_val_congruent(s, 5, pm, 0, 2);
    lemma_digits_val_congruent(s, 8, pd, 0, 2);
    lemma_digits_val_congruent(s, 11, ph, 0, 2);
    lemma_digits_val_congruent(s, 14, pmi, 0, 2);
    lemma_digits_val_congruent(s, 17, ps, 0, 2);
    lemma_digits_val_congruent(s, 20, p3, 0, 3);
    assert(spec_field(s, 0) == t.year);
    assert(spec_field(s, 1) == t.month);
    assert(spec_field(s, 2) == t.day);
    assert(spec_field(s, 3) == t.hour);
    assert(spec_field(s, 4) == t.minute);
    assert(spec_field(s, 5) == t.second);
    assert(spec_frac_millis(s) == t.milli);
    assert(spec_fields_ok(s));
    // The offset is the trailing `Z`.
    assert(spec_offset_ok(s, 23));
    assert(spec_offset_minutes(s, 23) == 0);
    // Folding a zero offset changes nothing.
    let total = t.hour as int * 60 + t.minute as int;
    assert(0 <= total < 1440);
    assert(total / 60 == t.hour as int && total % 60 == t.minute as int) by (nonlinear_arith)
        requires
            total == t.hour as int * 60 + t.minute as int,
            0 <= t.minute < 60,
            0 <= t.hour,
    ;
    assert(spec_normalize(
        t.year as int,
        t.month as int,
        t.day as int,
        t.hour as int,
        t.minute as int,
        0,
    ) == Option::<(int, int, int, int, int)>::Some(
        (t.year as int, t.month as int, t.day as int, t.hour as int, t.minute as int),
    ));
    assert(spec_parse_timestamp(s) == Some(t));
}

} // verus!
