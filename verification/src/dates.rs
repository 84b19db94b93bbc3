//! The calendar date model: a plain year/month/day triple, a verified
//! parser and formatter for delimiter-separated date strings, delimiter
//! detection, and the month-label table.

use vstd::prelude::*;
use crate::errors::EngineError;
use crate::text::{
    all_digits, ascii_lower, digit_char, digits_val, is_digit, lower_ascii, match_at, push_char,
    spec_u64_string, str_eq, u64_to_string,
};
use vstd::string::StrSliceExecFns;
use vstd::string::StringExecFns;

verus! {

/// A calendar date, no time component.
#[derive(PartialEq, Eq, Structural, Clone, Copy, Debug)]
pub struct Date {
    pub year: u32,
    pub month: u32,
    pub day: u32,
}

pub open spec fn is_leap_year(y: int) -> bool {
    (y % 4 == 0 && y % 100 != 0) || y % 400 == 0
}

pub open spec fn days_in_month(y: int, m: int) -> int {
    if m == 2 {
        if is_leap_year(y) {
            29
        } else {
            28
        }
    } else if m == 4 || m == 6 || m == 9 || m == 11 {
        30
    } else {
        31
    }
}

impl Date {
    /// A real proleptic-Gregorian calendar date with a four-digit year.
    pub open spec fn wf(self) -> bool {
        &&& 1 <= self.month <= 12
        &&& 1 <= self.day <= days_in_month(self.year as int, self.month as int)
        &&& self.year <= 9999
    }
}

pub fn days_in_month_exec(y: u32, m: u32) -> (r: u32)
    ensures
        r == days_in_month(y as int, m as int),
{
    if m == 2 {
        if (y % 4 == 0 && y % 100 != 0) || y % 400 == 0 {
            29
        } else {
            28
        }
    } else if m == 4 || m == 6 || m == 9 || m == 11 {
        30
    } else {
        31
    }
}

/// The delimiter of a date string: the character in its third position,
/// empty when the string is shorter.
pub open spec fn spec_delimiter(s: Seq<char>) -> Seq<char> {
    if s.len() >= 3 {
        seq![s[2]]
    } else {
        Seq::<char>::empty()
    }
}

pub fn get_delimiter(date: &str) -> (r: String)
    ensures
        r@ == spec_delimiter(date@),
{
    let mut out = String::new();
    if date.unicode_len() >= 3 {
        push_char(&mut out, date.get_char(2));
    }
    proof {
        assert(out@ =~= spec_delimiter(date@));
    }
    out
}

/// The number of consecutive decimal digits at position `i`, capped at `max`.
pub open spec fn digits_run(s: Seq<char>, i: int, max: int) -> int
    decreases max,
{
    if max <= 0 || i < 0 || i >= s.len() || !is_digit(s[i]) {
        0
    } else {
        1 + digits_run(s, i + 1, max - 1)
    }
}

proof fn lemma_digits_run_is(s: Seq<char>, i: int, max: int, r: int)
    requires
        0 <= i,
        0 <= r <= max,
        i + r <= s.len(),
        forall|j: int| i <= j < i + r ==> is_digit(#[trigger] s[j]),
        r == max || i + r == s.len() || !is_digit(s[i + r]),
    ensures
        digits_run(s, i, max) == r,
    decreases r,
{
    if r == 0 {
    } else {
        assert(is_digit(s[i]));
        lemma_digits_run_is(s, i + 1, max - 1, r - 1);
    }
}

pub open spec fn pow10(n: nat) -> int
    decreases n,
{
    if n == 0 {
        1
    } else {
        10 * pow10((n - 1) as nat)
    }
}

pub proof fn lemma_digits_val_bound(s: Seq<char>)
    requires
        all_digits(s),
    ensures
        0 <= digits_val(s) < pow10(s.len() as nat),
    decreases s.len(),
{
    if s.len() == 0 {
    } else {
        assert(all_digits(s.drop_last()));
        lemma_digits_val_bound(s.drop_last());
        let v = digits_val(s.drop_last());
        let d = s.last() as int - 48;
        assert(is_digit(s.last()));
        assert(0 <= d <= 9);
        assert(pow10(s.len() as nat) == 10 * pow10((s.len() - 1) as nat));
        assert(v * 10 + d < 10 * pow10((s.len() - 1) as nat)) by (nonlinear_arith)
            requires
                0 <= v,
                v < pow10((s.len() - 1) as nat),
                0 <= d <= 9,
        ;
    }
}

fn is_digit_char(c: char) -> (r: bool)
    ensures
        r == is_digit(c),
{
    '0' <= c && c <= '9'
}

fn digits_run_at(s: &str, i: usize, max: usize) -> (r: usize)
    ensures
        r == digits_run(s@, i as int, max as int),
        r <= max,
        i + r <= s@.len() || r == 0,
        forall|j: int| i <= j < i + r ==> is_digit(#[trigger] s@[j]),
{
    let n = s.unicode_len();
    let mut r: usize = 0;
    while r < max && i < n && r < n - i && is_digit_char(s.get_char(i + r))
        invariant
            n == s@.len(),
            r <= max,
            i + r <= n || r == 0,
            forall|j: int| i <= j < i + r ==> is_digit(#[trigger] s@[j]),
        decreases max - r,
    {
        r += 1;
    }
    proof {
        if i <= n {
            lemma_digits_run_is(s@, i as int, max as int, r as int);
        } else {
            assert(r == 0);
            assert(digits_run(s@, i as int, max as int) == 0);
        }
    }
    r
}

/// The pattern occurs in `s` exactly at position `i`.
pub fn occurs_at(s: &str, i: usize, pat: &str) -> (r: bool)
    ensures
        r == match_at(s@, pat@, i as int),
{
    let n = s.unicode_len();
    let m = pat.unicode_len();
    if i > n || m > n - i {
        return false;
    }
    let mut j: usize = 0;
    while j < m
        invariant
            n == s@.len(),
            m == pat@.len(),
            i + m <= n,
            j <= m,
            forall|q: int| 0 <= q < j ==> s@[i + q] == (#[trigger] pat@[q]),
        decreases m - j,
    {
        if s.get_char(i + j) != pat.get_char(j) {
            return false;
        }
        j += 1;
    }
    true
}

/// The date denoted by a delimiter-separated day/month/year string:
/// one or two digits of day, the delimiter, one or two digits of month,
/// the delimiter, and up to four digits of year filling the rest; the
/// result must be a real calendar date.
pub open spec fn spec_parse_date(s: Seq<char>, delim: Seq<char>) -> Option<Date> {
    let dl = delim.len() as int;
    let dr = digits_run(s, 0, 2);
    let ms = dr + dl;
    let mr = digits_run(s, ms, 2);
    let ys = ms + mr + dl;
    let yr = digits_run(s, ys, 4);
    if dr >= 1 && match_at(s, delim, dr) && mr >= 1 && match_at(s, delim, ms + mr) && yr >= 1 && ys
        + yr == s.len() {
        let day = digits_val(s.subrange(0, dr));
        let month = digits_val(s.subrange(ms, ms + mr));
        let year = digits_val(s.subrange(ys, ys + yr));
        if 1 <= month <= 12 && 1 <= day <= days_in_month(year, month) && 0 <= year <= 9999 {
            Some(Date { year: year as u32, month: month as u32, day: day as u32 })
        } else {
            None
        }
    } else {
        None
    }
}

/// A successfully parsed date is a real calendar date.
pub proof fn lemma_parse_date_wf(s: Seq<char>, delim: Seq<char>)
    ensures
        spec_parse_date(s, delim) is Some ==> spec_parse_date(s, delim)->Some_0.wf(),
{
}

fn digits_value_at(s: &str, i: usize, r: usize) -> (v: u32)
    requires
        i + r <= s@.len(),
        i + r <= usize::MAX,
        r <= 4,
        forall|j: int| i <= j < i + r ==> is_digit(#[trigger] s@[j]),
    ensures
        v == digits_val(s@.subrange(i as int, (i + r) as int)),
        v <= 9999,
{
    proof {
        assert(pow10(0) == 1);
        assert(pow10(1) == 10);
        assert(pow10(2) == 100);
        assert(pow10(3) == 1000);
        assert(pow10(4) == 10000);
    }
    let mut v: u32 = 0;
    let mut k: usize = 0;
    while k < r
        invariant
            i + r <= s@.len(),
            i + r <= usize::MAX,
            r <= 4,
            k <= r,
            forall|j: int| i <= j < i + r ==> is_digit(#[trigger] s@[j]),
            v == digits_val(s@.subrange(i as int, (i + k) as int)),
            v < pow10(k as nat),
            pow10(0) == 1 && pow10(1) == 10 && pow10(2) == 100 && pow10(3) == 1000 && pow10(4)
                == 10000,
        decreases r - k,
    {
        let c = s.get_char(i + k);
        let d: u32 = ((c as u8) - 48) as u32;
        proof {
            let prev = s@.subrange(i as int, (i + k) as int);
            let next = s@.subrange(i as int, (i + k + 1) as int);
            assert(next =~= prev.push(s@[(i + k) as int]));
            assert(next.drop_last() =~= prev);
            assert(pow10((k + 1) as nat) == 10 * pow10(k as nat));
            assert(v * 10 + d < 10 * pow10(k as nat)) by (nonlinear_arith)
                requires
                    0 <= v,
                    v < pow10(k as nat),
                    0 <= d <= 9,
            ;
        }
        v = v * 10 + d;
        k += 1;
    }
    v
}

/// Parses a date string with the given delimiter; `Err` exactly when the
/// string does not denote a real calendar date in that format.
pub fn string_to_date(date: &str, delimiter: &str) -> (r: Result<Date, EngineError>)
    ensures
        match r {
            Ok(d) => spec_parse_date(date@, delimiter@) == Some(d) && d.wf(),
            Err(e) => spec_parse_date(date@, delimiter@) is None && e == EngineError::ParseDate,
        },
{
    let n = date.unicode_len();
    let dl = delimiter.unicode_len();
    let dr = digits_run_at(date, 0, 2);
    if dr == 0 {
        return Err(EngineError::ParseDate);
    }
    if !occurs_at(date, dr, delimiter) {
        return Err(EngineError::ParseDate);
    }
    let ms = dr + dl;
    let mr = digits_run_at(date, ms, 2);
    if mr == 0 {
        return Err(EngineError::ParseDate);
    }
    if !occurs_at(date, ms + mr, delimiter) {
        return Err(EngineError::ParseDate);
    }
    let ys = ms + mr + dl;
    let yr = digits_run_at(date, ys, 4);
    if yr == 0 {
        return Err(EngineError::ParseDate);
    }
    if ys + yr != n {
        return Err(EngineError::ParseDate);
    }
    let day = digits_value_at(date, 0, dr);
    let month = digits_value_at(date, ms, mr);
    let year = digits_value_at(date, ys, yr);
    if !(1 <= month && month <= 12) {
        return Err(EngineError::ParseDate);
    }
    if !(1 <= day && day <= days_in_month_exec(year, month)) {
        return Err(EngineError::ParseDate);
    }
    Ok(Date { year, month, day })
}

/// A number as two decimal digits, zero-padded.
pub open spec fn pad2(n: int) -> Seq<char> {
    if n <= 9 {
        seq!['0'] + spec_u64_string(n)
    } else {
        spec_u64_string(n)
    }
}

/// A number as at least four decimal digits, zero-padded.
pub open spec fn pad4(n: int) -> Seq<char> {
    if n <= 9 {
        seq!['0', '0', '0'] + spec_u64_string(n)
    } else if n <= 99 {
        seq!['0', '0'] + spec_u64_string(n)
    } else if n <= 999 {
        seq!['0'] + spec_u64_string(n)
    } else {
        spec_u64_string(n)
    }
}

pub fn pad2_exec(n: u32) -> (r: String)
    ensures
        r@ == pad2(n as int),
{
    let mut out = String::new();
    if n <= 9 {
        push_char(&mut out, '0');
    }
    let digits = u64_to_string(n as u64);
    out.append(digits.as_str());
    proof {
        assert(out@ =~= pad2(n as int));
    }
    out
}

pub fn pad4_exec(n: u32) -> (r: String)
    ensures
        r@ == pad4(n as int),
{
    let mut out = String::new();
    if n <= 9 {
        push_char(&mut out, '0');
        push_char(&mut out, '0');
        push_char(&mut out, '0');
    } else if n <= 99 {
        push_char(&mut out, '0');
        push_char(&mut out, '0');
    } else if n <= 999 {
        push_char(&mut out, '0');
    }
    let digits = u64_to_string(n as u64);
    out.append(digits.as_str());
    proof {
        assert(out@ =~= pad4(n as int));
    }
    out
}

/// The day/month/year of a date, zero-padded, joined by the delimiter.
pub open spec fn spec_date_string(d: Date, delim: Seq<char>) -> Seq<char> {
    pad2(d.day as int) + delim + pad2(d.month as int) + delim + pad4(d.year as int)
}

pub fn date_to_string(date: Date, delimiter: &str) -> (r: String)
    ensures
        r@ == spec_date_string(date, delimiter@),
{
    let mut out = pad2_exec(date.day);
    out.append(delimiter);
    let month = pad2_exec(date.month);
    out.append(month.as_str());
    out.append(delimiter);
    let year = pad4_exec(date.year);
    out.append(year.as_str());
    out
}

pub open spec fn month_name_english(n: int) -> Seq<char> {
    if n == 1 {
        "January"@
    } else if n == 2 {
        "February"@
    } else if n == 3 {
        "March"@
    } else if n == 4 {
        "April"@
    } else if n == 5 {
        "May"@
    } else if n == 6 {
        "June"@
    } else if n == 7 {
        "July"@
    } else if n == 8 {
        "August"@
    } else if n == 9 {
        "September"@
    } else if n == 10 {
        "October"@
    } else if n == 11 {
        "November"@
    } else {
        "December"@
    }
}

pub open spec fn month_name_norwegian(n: int) -> Seq<char> {
    if n == 1 {
        "Januar"@
    } else if n == 2 {
        "Februar"@
    } else if n == 3 {
        "Mars"@
    } else if n == 4 {
        "April"@
    } else if n == 5 {
        "Mai"@
    } else if n == 6 {
        "Juni"@
    } else if n == 7 {
        "Juli"@
    } else if n == 8 {
        "August"@
    } else if n == 9 {
        "September"@
    } else if n == 10 {
        "Oktober"@
    } else if n == 11 {
        "November"@
    } else {
        "Desember"@
    }
}

proof fn lemma_month_name_len(n: int)
    requires
        1 <= n <= 12,
    ensures
        month_name_english(n).len() >= 3,
        month_name_norwegian(n).len() >= 3,
{
    reveal_strlit("January");
    reveal_strlit("February");
    reveal_strlit("March");
    reveal_strlit("April");
    reveal_strlit("May");
    reveal_strlit("June");
    reveal_strlit("July");
    reveal_strlit("August");
    reveal_strlit("September");
    reveal_strlit("October");
    reveal_strlit("November");
    reveal_strlit("December");
    reveal_strlit("Januar");
    reveal_strlit("Februar");
    reveal_strlit("Mars");
    reveal_strlit("Mai");
    reveal_strlit("Juni");
    reveal_strlit("Juli");
    reveal_strlit("Oktober");
    reveal_strlit("Desember");
}

fn month_base(n: u32, english: bool) -> (r: &'static str)
    requires
        1 <= n <= 12,
    ensures
        r@ == if english {
            month_name_english(n as int)
        } else {
            month_name_norwegian(n as int)
        },
{
    if english {
        match n {
            1 => "January",
            2 => "February",
            3 => "March",
            4 => "April",
            5 => "May",
            6 => "June",
            7 => "July",
            8 => "August",
            9 => "September",
            10 => "October",
            11 => "November",
            _ => "December",
        }
    } else {
        match n {
            1 => "Januar",
            2 => "Februar",
            3 => "Mars",
            4 => "April",
            5 => "Mai",
            6 => "Juni",
            7 => "Juli",
            8 => "August",
            9 => "September",
            10 => "Oktober",
            11 => "November",
            _ => "Desember",
        }
    }
}

/// The month label: the month's name in the chosen language, cut to its
/// first three characters for the short style, lowercased unless
/// capitalization is asked for.
pub open spec fn spec_month(n: int, style: Seq<char>, language: Seq<char>, capitalize: bool) -> Seq<
    char,
> {
    let base = if language == "english"@ {
        month_name_english(n)
    } else {
        month_name_norwegian(n)
    };
    let styled = if style == "short"@ {
        base.take(3)
    } else {
        base
    };
    if capitalize {
        styled
    } else {
        lower_ascii(styled)
    }
}

pub fn get_month(
    date_nr: u32,
    date_month_style: &str,
    date_language: &str,
    date_capitalize: &bool,
) -> (r: String)
    requires
        1 <= date_nr <= 12,
        date_language@ == "norsk"@ || date_language@ == "english"@,
    ensures
        r@ == spec_month(date_nr as int, date_month_style@, date_language@, *date_capitalize),
{
    let english = str_eq(date_language, "english");
    let name = month_base(date_nr, english);
    proof {
        lemma_month_name_len(date_nr as int);
    }
    let styled: String = if str_eq(date_month_style, "short") {
        String::from_str(name.substring_char(0, 3))
    } else {
        String::from_str(name)
    };
    if *date_capitalize {
        styled
    } else {
        ascii_lower(styled.as_str())
    }
}

} // verus!
