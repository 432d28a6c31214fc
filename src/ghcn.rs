//! Reading NOAA GHCN daily records: the maximum temperatures of a station.
//!
//! The input is CSV text with the header `ID,DATE,ELEMENT,DATA_VALUE,M_FLAG,
//! Q_FLAG,S_FLAG,OBS_TIME`. A record is kept where its element is `TMAX` and
//! its quality flag is empty; its date (`YYYYMMDD`) becomes the number of
//! seconds since 0000-01-01 and its value stays in tenths of a degree.
//! The text and each line are trimmed of whitespace as `str::trim` does
//! (Unicode White_Space); fields are taken as they stand.
use vstd::prelude::*;
use vstd::string::StringSliceAdditionalSpecFns;

verus! {

/// The header that GHCN daily CSV files start with.
pub const EXPECTED_HEADER: &'static str = "ID,DATE,ELEMENT,DATA_VALUE,M_FLAG,Q_FLAG,S_FLAG,OBS_TIME";

/// The element of maximum temperatures.
pub const TMAX: &'static str = "TMAX";

/// Why raw data could not be read.
#[derive(Debug, Clone, Copy, PartialEq, Eq, Structural)]
pub enum MyError {
    /// Not a CSV header of NOAA GHCN daily data
    UnexpectedRawDataHeader,
    /// Invalid date format
    InvalidDateFormat,
    /// A line has fewer than six fields
    MissingField,
    /// A kept record's value is not an `i32`
    InvalidDataValue,
}

/// One day's maximum temperature.
#[derive(Debug, Clone, Copy, PartialEq, Eq, Structural)]
pub struct TmaxRecord {
    /// Seconds from 0000-01-01 to the day.
    pub seconds: i64,
    /// The temperature in tenths of a degree Celsius.
    pub tenths: i32,
}

/// The line separator.
pub const NEWLINE: u8 = 10;

/// The field separator.
pub const COMMA: u8 = 44;

/// A one-byte whitespace character: space, and tab through carriage return.
pub open spec fn is_space1(x: u8) -> bool {
    x == 32 || (9 <= x && x <= 13)
}

/// The UTF-8 bytes of a two-byte whitespace character: U+0085, U+00A0.
pub open spec fn is_space2(x: u8, y: u8) -> bool {
    x == 0xc2 && (y == 0x85 || y == 0xa0)
}

/// The UTF-8 bytes of a three-byte whitespace character: U+1680,
/// U+2000 to U+200A, U+2028, U+2029, U+202F, U+205F, U+3000.
pub open spec fn is_space3(x: u8, y: u8, z: u8) -> bool {
    ||| (x == 0xe1 && y == 0x9a && z == 0x80)
    ||| (x == 0xe2 && y == 0x80 && ((0x80 <= z && z <= 0x8a) || z == 0xa8 || z == 0xa9 || z == 0xaf))
    ||| (x == 0xe2 && y == 0x81 && z == 0x9f)
    ||| (x == 0xe3 && y == 0x80 && z == 0x80)
}

/// The byte length of the whitespace character that `s` starts with, or 0.
pub open spec fn leading_space_len(s: Seq<u8>) -> nat {
    if s.len() >= 1 && is_space1(s[0]) {
        1
    } else if s.len() >= 2 && is_space2(s[0], s[1]) {
        2
    } else if s.len() >= 3 && is_space3(s[0], s[1], s[2]) {
        3
    } else {
        0
    }
}

/// The byte length of the whitespace character that `s` ends with, or 0.
pub open spec fn trailing_space_len(s: Seq<u8>) -> nat {
    let n = s.len() as int;
    if n >= 1 && is_space1(s[n - 1]) {
        1
    } else if n >= 2 && is_space2(s[n - 2], s[n - 1]) {
        2
    } else if n >= 3 && is_space3(s[n - 3], s[n - 2], s[n - 1]) {
        3
    } else {
        0
    }
}

/// `s` without its leading whitespace.
pub open spec fn trim_start(s: Seq<u8>) -> Seq<u8>
    decreases s.len(),
{
    let k = leading_space_len(s);
    if k > 0 {
        trim_start(s.skip(k as int))
    } else {
        s
    }
}

/// `s` without its trailing whitespace.
pub open spec fn trim_end(s: Seq<u8>) -> Seq<u8>
    decreases s.len(),
{
    let k = trailing_space_len(s);
    if k > 0 {
        trim_end(s.take(s.len() - k))
    } else {
        s
    }
}

/// `s` without its leading and trailing whitespace.
pub open spec fn trim(s: Seq<u8>) -> Seq<u8> {
    trim_end(trim_start(s))
}

/// The index of the first `sep` in `s`, or its length where there is none.
pub open spec fn find(s: Seq<u8>, sep: u8) -> nat
    decreases s.len(),
{
    if s.len() == 0 {
        0
    } else if s[0] == sep {
        0
    } else {
        1 + find(s.drop_first(), sep)
    }
}

/// Part `n` of `s` split at every `sep`, if `s` has that many parts.
pub open spec fn field(s: Seq<u8>, sep: u8, n: nat) -> Option<Seq<u8>>
    decreases n,
{
    let k = find(s, sep);
    if n == 0 {
        Some(s.take(k as int))
    } else if k < s.len() {
        field(s.skip(k as int + 1), sep, (n - 1) as nat)
    } else {
        None
    }
}

/// An ASCII decimal digit.
pub open spec fn is_digit(b: u8) -> bool {
    48 <= b && b <= 57
}

/// Every byte of `s` is a decimal digit.
pub open spec fn all_digits(s: Seq<u8>) -> bool {
    forall|i: int| 0 <= i < s.len() ==> is_digit(#[trigger] s[i])
}

/// The decimal number written by the digits `s`.
pub open spec fn digits_value(s: Seq<u8>) -> int
    decreases s.len(),
{
    if s.len() == 0 {
        0
    } else {
        digits_value(s.drop_last()) * 10 + (s.last() - 48)
    }
}

/// The integer that `str::parse` reads from `s` for an integer type with the
/// range `min..=max`: an optional `+` (or `-` where the type is signed), then
/// at least one decimal digit, and a value in range.
pub open spec fn parse_integer(s: Seq<u8>, min: int, max: int) -> Option<int> {
    let negative = s.len() > 0 && s[0] == 45 && min < 0;
    let body = if s.len() > 0 && (s[0] == 43 || negative) {
        s.drop_first()
    } else {
        s
    };
    if body.len() == 0 || !all_digits(body) {
        None
    } else {
        let v = if negative {
            -digits_value(body)
        } else {
            digits_value(body)
        };
        if min <= v && v <= max {
            Some(v)
        } else {
            None
        }
    }
}

/// A leap year of the Gregorian calendar.
pub open spec fn is_leap_year(y: int) -> bool {
    (y % 4 == 0 && y % 100 != 0) || y % 400 == 0
}

/// The length of month `m` (1 to 12) of year `y`.
pub open spec fn days_in_month(y: int, m: int) -> int {
    if m == 2 {
        if is_leap_year(y) {
            29
        } else {
            28
        }
    } else if m == 4 || m == 6 || m == 9 || m == 11 {
        30
    } else {
        31
    }
}

/// A day of the proleptic Gregorian calendar within chrono's year range.
pub open spec fn valid_date(y: int, m: int, d: int) -> bool {
    &&& -262143 <= y <= 262142
    &&& 1 <= m <= 12
    &&& 1 <= d <= days_in_month(y, m)
}

/// A count of days that grows by one from each day of the proleptic
/// Gregorian calendar to the next (days from 0000-03-01).
pub open spec fn day_number(y: int, m: int, d: int) -> int {
    let yy = if m <= 2 {
        y - 1
    } else {
        y
    };
    let era = yy / 400;
    let yoe = yy - era * 400;
    let mp = if m > 2 {
        m - 3
    } else {
        m + 9
    };
    let doy = (153 * mp + 2) / 5 + d - 1;
    let doe = yoe * 365 + yoe / 4 - yoe / 100 + doy;
    era * 146097 + doe
}

/// Seconds from the day `y0-m0-d0` to the day `y-m-d`.
pub open spec fn seconds_from(y0: int, m0: int, d0: int, y: int, m: int, d: int) -> int {
    86400 * (day_number(y, m, d) - day_number(y0, m0, d0))
}

/// Seconds from 0000-01-01 to the day.
pub open spec fn seconds_since_year_zero(y: int, m: int, d: int) -> int {
    seconds_from(0, 1, 1, y, m, d)
}

/// Relies on chrono: `NaiveDate::from_ymd_opt` gives a date exactly for the
/// days of the proleptic Gregorian calendar in its year range, and
/// `NaiveDate::signed_duration_since` followed by `TimeDelta::num_seconds`
/// gives the whole seconds from the second date to the first.
#[verifier::external_body]
fn seconds_between(
    year: i32,
    month: u32,
    day: u32,
    from_year: i32,
    from_month: u32,
    from_day: u32,
) -> (r: Option<i64>)
    ensures
        r is Some <==> (valid_date(year as int, month as int, day as int) && valid_date(from_year as int, from_month as int, from_day as int)),
        r matches Some(secs) ==> secs == seconds_from(from_year as int, from_month as int, from_day as int, year as int, month as int, day as int),
{
    match (
        chrono::NaiveDate::from_ymd_opt(year, month, day),
        chrono::NaiveDate::from_ymd_opt(from_year, from_month, from_day),
    ) {
        (Some(date), Some(from)) => Some(date.signed_duration_since(from).num_seconds()),
        _ => None,
    }
}

/// The seconds of a `YYYYMMDD` date from 0000-01-01: the first eight bytes
/// hold the year, month and day as `str::parse` reads them.
pub open spec fn date_of(d: Seq<u8>) -> Option<int> {
    if d.len() < 8 {
        None
    } else {
        match (
            parse_integer(d.take(4), i32::MIN as int, i32::MAX as int),
            parse_integer(d.subrange(4, 6), 0, u32::MAX as int),
            parse_integer(d.subrange(6, 8), 0, u32::MAX as int),
        ) {
            (Some(y), Some(m), Some(dd)) => if valid_date(y, m, dd) {
                Some(seconds_since_year_zero(y, m, dd))
            } else {
                None
            },
            _ => None,
        }
    }
}

/// What one data line gives: a record where its element is `TMAX` and its
/// quality flag empty, nothing for other elements or flagged values.
pub open spec fn record_of(line: Seq<u8>) -> Result<Option<TmaxRecord>, MyError> {
    let t = trim(line);
    match (field(t, COMMA, 1), field(t, COMMA, 2), field(t, COMMA, 3), field(t, COMMA, 5)) {
        (Some(date), Some(element), Some(value), Some(q_flag)) => {
            if element == TMAX.spec_bytes() && q_flag.len() == 0 {
                match date_of(date) {
                    None => Err(MyError::InvalidDateFormat),
                    Some(seconds) => match parse_integer(value, i32::MIN as int, i32::MAX as int) {
                        None => Err(MyError::InvalidDataValue),
                        Some(v) => Ok(Some(TmaxRecord { seconds: seconds as i64, tenths: v as i32 })),
                    },
                }
            } else {
                Ok(None)
            }
        },
        _ => Err(MyError::MissingField),
    }
}

/// The records of the lines of `text`, in order; the first line that fails
/// decides the error.
pub open spec fn records_of(text: Seq<u8>) -> Result<Seq<TmaxRecord>, MyError>
    decreases text.len(),
{
    let k = find(text, NEWLINE);
    match record_of(text.take(k as int)) {
        Err(e) => Err(e),
        Ok(head) => {
            let first = match head {
                Some(r) => seq![r],
                None => Seq::empty(),
            };
            if k < text.len() {
                match records_of(text.skip(k as int + 1)) {
                    Err(e) => Err(e),
                    Ok(rest) => Ok(first + rest),
                }
            } else {
                Ok(first)
            }
        },
    }
}

/// The maximum-temperature records of GHCN daily CSV text.
pub open spec fn tmax_records_of(raw: Seq<u8>) -> Result<Seq<TmaxRecord>, MyError> {
    let t = trim(raw);
    let k = find(t, NEWLINE);
    if t.take(k as int) != EXPECTED_HEADER.spec_bytes() {
        Err(MyError::UnexpectedRawDataHeader)
    } else if k < t.len() {
        records_of(t.skip(k as int + 1))
    } else {
        Ok(Seq::empty())
    }
}

proof fn lemma_find(s: Seq<u8>, sep: u8, k: int)
    requires
        0 <= k <= s.len(),
        forall|i: int| 0 <= i < k ==> #[trigger] s[i] != sep,
        k == s.len() || s[k] == sep,
    ensures
        find(s, sep) == k,
    decreases k,
{
    if k > 0 {
        let t = s.drop_first();
        assert forall|i: int| 0 <= i < k - 1 implies #[trigger] t[i] != sep by {
            assert(t[i] == s[i + 1]);
        }
        if k - 1 < t.len() {
            assert(t[k - 1] == s[k]);
        }
        lemma_find(t, sep, k - 1);
    }
}

fn space3(x: u8, y: u8, z: u8) -> (r: bool)
    ensures
        r == is_space3(x, y, z),
{
    (x == 0xe1 && y == 0x9a && z == 0x80) || (x == 0xe2 && y == 0x80 && ((0x80 <= z && z <= 0x8a) || z
        == 0xa8 || z == 0xa9 || z == 0xaf)) || (x == 0xe2 && y == 0x81 && z == 0x9f) || (x == 0xe3 && y
        == 0x80 && z == 0x80)
}

/// The byte length of the whitespace character that `b[lo..hi]` starts with, or 0.
fn leading_space_at(b: &[u8], lo: usize, hi: usize) -> (k: usize)
    requires
        lo <= hi <= b@.len(),
    ensures
        k == leading_space_len(b@.subrange(lo as int, hi as int)),
        k <= hi - lo,
{
    let ghost s = b@.subrange(lo as int, hi as int);
    if hi - lo >= 1 {
        assert(s[0] == b@[lo as int]);
    }
    if hi - lo >= 3 {
        assert(s[1] == b@[lo + 1] && s[2] == b@[lo + 2]);
    } else if hi - lo >= 2 {
        assert(s[1] == b@[lo + 1]);
    }
    if hi - lo >= 1 && (b[lo] == 32 || (9 <= b[lo] && b[lo] <= 13)) {
        1
    } else if hi - lo >= 2 && b[lo] == 0xc2 && (b[lo + 1] == 0x85 || b[lo + 1] == 0xa0) {
        2
    } else if hi - lo >= 3 && space3(b[lo], b[lo + 1], b[lo + 2]) {
        3
    } else {
        0
    }
}

/// The byte length of the whitespace character that `b[lo..hi]` ends with, or 0.
fn trailing_space_at(b: &[u8], lo: usize, hi: usize) -> (k: usize)
    requires
        lo <= hi <= b@.len(),
    ensures
        k == trailing_space_len(b@.subrange(lo as int, hi as int)),
        k <= hi - lo,
{
    let ghost s = b@.subrange(lo as int, hi as int);
    let ghost n = s.len() as int;
    if hi - lo >= 1 {
        assert(s[n - 1] == b@[hi - 1]);
    }
    if hi - lo >= 3 {
        assert(s[n - 2] == b@[hi - 2] && s[n - 3] == b@[hi - 3]);
    } else if hi - lo >= 2 {
        assert(s[n - 2] == b@[hi - 2]);
    }
    if hi - lo >= 1 && (b[hi - 1] == 32 || (9 <= b[hi - 1] && b[hi - 1] <= 13)) {
        1
    } else if hi - lo >= 2 && b[hi - 2] == 0xc2 && (b[hi - 1] == 0x85 || b[hi - 1] == 0xa0) {
        2
    } else if hi - lo >= 3 && space3(b[hi - 3], b[hi - 2], b[hi - 1]) {
        3
    } else {
        0
    }
}

/// The bounds of `b[lo..hi]` without its leading and trailing whitespace.
fn trim_bounds(b: &[u8], lo: usize, hi: usize) -> (r: (usize, usize))
    requires
        lo <= hi <= b@.len(),
    ensures
        lo <= r.0 <= r.1 <= hi,
        b@.subrange(r.0 as int, r.1 as int) == trim(b@.subrange(lo as int, hi as int)),
{
    let ghost s = b@.subrange(lo as int, hi as int);
    let mut a = lo;
    let mut k = leading_space_at(b, a, hi);
    while k > 0
        invariant
            lo <= a <= hi <= b@.len(),
            k == leading_space_len(b@.subrange(a as int, hi as int)),
            k <= hi - a,
            trim_start(s) == trim_start(b@.subrange(a as int, hi as int)),
        decreases hi - a,
    {
        assert(b@.subrange(a as int, hi as int).skip(k as int) =~= b@.subrange(a + k, hi as int));
        a = a + k;
        k = leading_space_at(b, a, hi);
    }
    let ghost u = b@.subrange(a as int, hi as int);
    assert(trim_start(s) == u);
    let mut c = hi;
    k = trailing_space_at(b, a, c);
    while k > 0
        invariant
            lo <= a <= c <= hi <= b@.len(),
            k == trailing_space_len(b@.subrange(a as int, c as int)),
            k <= c - a,
            trim_end(u) == trim_end(b@.subrange(a as int, c as int)),
        decreases c - a,
    {
        assert(b@.subrange(a as int, c as int).take(c - a - k) =~= b@.subrange(a as int, c - k));
        c = c - k;
        k = trailing_space_at(b, a, c);
    }
    (a, c)
}

/// The index of the first `sep` in `b[lo..hi]`, or `hi`.
fn find_in(b: &[u8], lo: usize, hi: usize, sep: u8) -> (k: usize)
    requires
        lo <= hi <= b@.len(),
    ensures
        lo <= k <= hi,
        k - lo == find(b@.subrange(lo as int, hi as int), sep),
{
    let ghost s = b@.subrange(lo as int, hi as int);
    let mut k = lo;
    while k < hi && b[k] != sep
        invariant
            lo <= k <= hi <= b@.len(),
            s == b@.subrange(lo as int, hi as int),
            forall|i: int| 0 <= i < k - lo ==> #[trigger] s[i] != sep,
        decreases hi - k,
    {
        k += 1;
    }
    proof {
        lemma_find(s, sep, k - lo);
    }
    k
}

/// The bounds of part `n` of `b[lo..hi]` split at every `sep`.
fn field_bounds(b: &[u8], lo: usize, hi: usize, sep: u8, n: usize) -> (r: Option<(usize, usize)>)
    requires
        lo <= hi <= b@.len(),
    ensures
        match r {
            None => field(b@.subrange(lo as int, hi as int), sep, n as nat) is None,
            Some((a, c)) => lo <= a <= c <= hi && field(b@.subrange(lo as int, hi as int), sep, n as nat)
                == Some(b@.subrange(a as int, c as int)),
        },
    decreases n,
{
    let ghost s = b@.subrange(lo as int, hi as int);
    let k = find_in(b, lo, hi, sep);
    if n == 0 {
        assert(s.take(k - lo) =~= b@.subrange(lo as int, k as int));
        Some((lo, k))
    } else if k < hi {
        assert(s.skip(k - lo + 1) =~= b@.subrange(k + 1, hi as int));
        field_bounds(b, k + 1, hi, sep, n - 1)
    } else {
        None
    }
}

/// Whether `b[lo..hi]` is `t`.
fn bytes_equal(b: &[u8], lo: usize, hi: usize, t: &[u8]) -> (r: bool)
    requires
        lo <= hi <= b@.len(),
    ensures
        r == (b@.subrange(lo as int, hi as int) == t@),
{
    if hi - lo != t.len() {
        assert(b@.subrange(lo as int, hi as int).len() != t@.len());
        return false;
    }
    let mut i: usize = 0;
    while i < t.len()
        invariant
            lo <= hi <= b@.len(),
            hi - lo == t@.len(),
            i <= t@.len(),
            forall|j: int| 0 <= j < i ==> b@[lo + j] == #[trigger] t@[j],
        decreases t@.len() - i,
    {
        if b[lo + i] != t[i] {
            assert(b@.subrange(lo as int, hi as int)[i as int] != t@[i as int]);
            return false;
        }
        i += 1;
    }
    assert(b@.subrange(lo as int, hi as int) =~= t@);
    true
}

/// Above every `i32` and `u32` magnitude.
const MAGNITUDE_LIMIT: i64 = 0x1_0000_0000;

proof fn lemma_digits_nonneg(s: Seq<u8>)
    requires
        all_digits(s),
    ensures
        digits_value(s) >= 0,
    decreases s.len(),
{
    if s.len() > 0 {
        lemma_digits_nonneg(s.drop_last());
    }
}

proof fn lemma_digits_prefix(s: Seq<u8>, j: int)
    requires
        all_digits(s),
        0 <= j <= s.len(),
    ensures
        digits_value(s.take(j)) <= digits_value(s),
    decreases s.len() - j,
{
    if j == s.len() {
        assert(s.take(j) =~= s);
    } else {
        let t = s.drop_last();
        lemma_digits_prefix(t, j);
        lemma_digits_nonneg(t);
        assert(t.take(j) =~= s.take(j));
    }
}

/// What `str::parse` reads from `b[lo..hi]` for an integer type with the range `min..=max`.
fn parse_integer_in(b: &[u8], lo: usize, hi: usize, min: i64, max: i64) -> (r: Option<i64>)
    requires
        lo <= hi <= b@.len(),
        -MAGNITUDE_LIMIT <= min <= 0 <= max < MAGNITUDE_LIMIT,
    ensures
        match parse_integer(b@.subrange(lo as int, hi as int), min as int, max as int) {
            Some(v) => r == Some(v as i64),
            None => r is None,
        },
{
    let ghost s = b@.subrange(lo as int, hi as int);
    if lo == hi {
        return None;
    }
    assert(s[0] == b@[lo as int]);
    let negative = b[lo] == 45 && min < 0;
    let start = if b[lo] == 43 || negative {
        lo + 1
    } else {
        lo
    };
    let ghost body = if s.len() > 0 && (s[0] == 43 || negative) {
        s.drop_first()
    } else {
        s
    };
    assert(body =~= b@.subrange(start as int, hi as int));
    if start == hi {
        return None;
    }
    let mut acc: i64 = 0;
    let mut i = start;
    while i < hi
        invariant
            lo <= start <= i <= hi <= b@.len(),
            s == b@.subrange(lo as int, hi as int),
            s.len() > 0,
            negative == (s[0] == 45 && min < 0),
            body == (if s[0] == 43 || negative {
                s.drop_first()
            } else {
                s
            }),
            body == b@.subrange(start as int, hi as int),
            -MAGNITUDE_LIMIT <= min <= 0 <= max < MAGNITUDE_LIMIT,
            forall|j: int| 0 <= j < i - start ==> is_digit(#[trigger] body[j]),
            acc == digits_value(body.take(i - start)),
            0 <= acc <= MAGNITUDE_LIMIT,
        decreases hi - i,
    {
        let digit = b[i];
        if digit < 48 || digit > 57 {
            assert(!is_digit(body[i - start]));
            assert(!all_digits(body));
            return None;
        }
        acc = acc * 10 + (digit - 48) as i64;
        i += 1;
        assert(body.take(i - start).drop_last() =~= body.take(i - start - 1));
        assert(body.take(i - start).last() == digit);
        assert(acc == digits_value(body.take(i - start)));
        if acc > MAGNITUDE_LIMIT {
            proof {
                if all_digits(body) {
                    lemma_digits_prefix(body, i - start);
                    assert(digits_value(body) > max);
                    assert(-digits_value(body) < min);
                }
            }
            return None;
        }
    }
    assert(body.take(i - start) =~= body);
    let v = if negative {
        -acc
    } else {
        acc
    };
    if min <= v && v <= max {
        Some(v)
    } else {
        None
    }
}

/// The seconds from 0000-01-01 of the `YYYYMMDD` date in `b[lo..hi]`.
fn date_in(b: &[u8], lo: usize, hi: usize) -> (r: Option<i64>)
    requires
        lo <= hi <= b@.len(),
    ensures
        match date_of(b@.subrange(lo as int, hi as int)) {
            Some(x) => r == Some(x as i64),
            None => r is None,
        },
{
    let ghost d = b@.subrange(lo as int, hi as int);
    if hi - lo < 8 {
        return None;
    }
    assert(d.take(4) =~= b@.subrange(lo as int, lo + 4));
    assert(d.subrange(4, 6) =~= b@.subrange(lo + 4, lo + 6));
    assert(d.subrange(6, 8) =~= b@.subrange(lo + 6, lo + 8));
    let year = parse_integer_in(b, lo, lo + 4, i32::MIN as i64, i32::MAX as i64);
    let month = parse_integer_in(b, lo + 4, lo + 6, 0, u32::MAX as i64);
    let day = parse_integer_in(b, lo + 6, lo + 8, 0, u32::MAX as i64);
    match (year, month, day) {
        (Some(y), Some(m), Some(dd)) => {
            assert(valid_date(0, 1, 1));
            seconds_between(y as i32, m as u32, dd as u32, 0, 1, 1)
        },
        _ => None,
    }
}

/// What the data line `b[lo..hi]` gives.
fn record_in(b: &[u8], lo: usize, hi: usize) -> (r: Result<Option<TmaxRecord>, MyError>)
    requires
        lo <= hi <= b@.len(),
    ensures
        r == record_of(b@.subrange(lo as int, hi as int)),
{
    let (a, c) = trim_bounds(b, lo, hi);
    let date = field_bounds(b, a, c, COMMA, 1);
    let element = field_bounds(b, a, c, COMMA, 2);
    let value = field_bounds(b, a, c, COMMA, 3);
    let q_flag = field_bounds(b, a, c, COMMA, 5);
    match (date, element, value, q_flag) {
        (Some((d0, d1)), Some((e0, e1)), Some((v0, v1)), Some((q0, q1))) => {
            if bytes_equal(b, e0, e1, TMAX.as_bytes()) && q0 == q1 {
                match date_in(b, d0, d1) {
                    None => Err(MyError::InvalidDateFormat),
                    Some(seconds) => match parse_integer_in(b, v0, v1, i32::MIN as i64, i32::MAX as i64) {
                        None => Err(MyError::InvalidDataValue),
                        Some(v) => Ok(Some(TmaxRecord { seconds, tenths: v as i32 })),
                    },
                }
            } else {
                Ok(None)
            }
        },
        _ => Err(MyError::MissingField),
    }
}

/// `result` with `prefix` put before its records.
pub open spec fn after(prefix: Seq<TmaxRecord>, result: Result<Seq<TmaxRecord>, MyError>) -> Result<Seq<TmaxRecord>, MyError> {
    match result {
        Ok(rs) => Ok(prefix + rs),
        Err(e) => Err(e),
    }
}

/// The records of the lines of `b[lo..hi]`.
fn records_in(b: &[u8], lo: usize, hi: usize) -> (r: Result<Vec<TmaxRecord>, MyError>)
    requires
        lo <= hi <= b@.len(),
    ensures
        match records_of(b@.subrange(lo as int, hi as int)) {
            Ok(rs) => r is Ok && r->Ok_0@ == rs,
            Err(e) => r == Err::<Vec<TmaxRecord>, MyError>(e),
        },
{
    let mut out: Vec<TmaxRecord> = Vec::new();
    let mut pos = lo;
    assert(out@ + Seq::<TmaxRecord>::empty() =~= out@);
    loop
        invariant
            lo <= pos <= hi <= b@.len(),
            records_of(b@.subrange(lo as int, hi as int)) == after(out@, records_of(b@.subrange(pos as int, hi as int))),
        decreases hi - pos,
    {
        let ghost t = b@.subrange(pos as int, hi as int);
        let k = find_in(b, pos, hi, NEWLINE);
        assert(t.take(k - pos) =~= b@.subrange(pos as int, k as int));
        if k < hi {
            assert(t.skip(k - pos + 1) =~= b@.subrange(k + 1, hi as int));
        }
        let ghost before = out@;
        match record_in(b, pos, k) {
            Err(e) => {
                return Err(e);
            },
            Ok(head) => {
                match head {
                    Some(rec) => {
                        out.push(rec);
                    },
                    None => {},
                }
                let ghost first = match head {
                    Some(rec) => seq![rec],
                    None => Seq::<TmaxRecord>::empty(),
                };
                assert(out@ =~= before + first);
                if k < hi {
                    pos = k + 1;
                    proof {
                        match records_of(b@.subrange(pos as int, hi as int)) {
                            Ok(rest) => {
                                assert(before + (first + rest) =~= out@ + rest);
                            },
                            Err(_) => {},
                        }
                    }
                } else {
                    assert(before + first =~= out@);
                    return Ok(out);
                }
            },
        }
    }
}

/// Return the maximum-temperature records of GHCN daily CSV text, in order:
/// those with element `TMAX` and an empty quality flag. Fails where the
/// header is not GHCN's, where a line has fewer than six fields, or where a
/// kept record's date or value cannot be read; the first such line decides.
pub fn tmax_records(raw: &str) -> (r: Result<Vec<TmaxRecord>, MyError>)
    ensures
        match tmax_records_of(raw.spec_bytes()) {
            Ok(rs) => r is Ok && r->Ok_0@ == rs,
            Err(e) => r == Err::<Vec<TmaxRecord>, MyError>(e),
        },
{
    let b = raw.as_bytes();
    assert(b@.subrange(0, b@.len() as int) =~= b@);
    let (a, c) = trim_bounds(b, 0, b.len());
    let ghost t = b@.subrange(a as int, c as int);
    let k = find_in(b, a, c, NEWLINE);
    assert(t.take(k - a) =~= b@.subrange(a as int, k as int));
    if !bytes_equal(b, a, k, EXPECTED_HEADER.as_bytes()) {
        Err(MyError::UnexpectedRawDataHeader)
    } else if k < c {
        assert(t.skip(k - a + 1) =~= b@.subrange(k + 1, c as int));
        records_in(b, k + 1, c)
    } else {
        Ok(Vec::new())
    }
}

} // verus!
