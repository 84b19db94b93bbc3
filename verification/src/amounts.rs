//! Money amounts as integer hundredths (minor units) of the currency,
//! with a verified parser and formatter for plain decimal strings of at
//! most two fraction digits.  Exponent forms, special values, further
//! fraction digits and magnitudes beyond the amount limit are no amounts
//! here: an amount cell holding one aborts ingestion with that field's
//! parse error.

use vstd::prelude::*;
use crate::text::{
    all_digits, digit_char, digits_val, is_digit, parse_u64, push_char, spec_u64_string,
    u64_body, u64_to_string,
};
use vstd::string::StrSliceExecFns;
use vstd::string::StringExecFns;

verus! {

/// Largest magnitude, in hundredths, that an amount cell may carry.
pub const AMOUNT_LIMIT: i64 = 1_000_000_000_000_000_000;

/// The position of the first dot at or after `i`, or -1 when there is none.
pub open spec fn find_dot(s: Seq<char>, i: int) -> int
    decreases s.len() - i,
{
    if i < 0 || i >= s.len() {
        -1
    } else if s[i] == '.' {
        i
    } else {
        find_dot(s, i + 1)
    }
}

proof fn lemma_find_dot_none(s: Seq<char>, i: int)
    requires
        0 <= i <= s.len(),
        forall|j: int| i <= j < s.len() ==> s[j] != '.',
    ensures
        find_dot(s, i) == -1,
    decreases s.len() - i,
{
    if i < s.len() {
        lemma_find_dot_none(s, i + 1);
    }
}

proof fn lemma_find_dot_some(s: Seq<char>, i: int, k: int)
    requires
        0 <= i <= k < s.len(),
        s[k] == '.',
        forall|j: int| i <= j < k ==> s[j] != '.',
    ensures
        find_dot(s, i) == k,
    decreases k - i,
{
    if i < k {
        lemma_find_dot_some(s, i + 1, k);
    }
}

/// An unsigned decimal numeral, optionally with a dot and one or two
/// fraction digits.
pub open spec fn parses_unsigned_amount(b: Seq<char>) -> bool {
    let k = find_dot(b, 0);
    if k < 0 {
        b.len() > 0 && all_digits(b)
    } else {
        &&& k >= 1
        &&& all_digits(b.subrange(0, k))
        &&& 1 <= b.len() - (k + 1) <= 2
        &&& all_digits(b.subrange(k + 1, b.len() as int))
    }
}

/// The value of an unsigned amount string in hundredths.
pub open spec fn unsigned_cents(b: Seq<char>) -> int {
    let k = find_dot(b, 0);
    if k < 0 {
        digits_val(b) * 100
    } else {
        let frac = b.subrange(k + 1, b.len() as int);
        digits_val(b.subrange(0, k)) * 100 + digits_val(frac) * (if frac.len() == 1 {
            10int
        } else {
            1int
        })
    }
}

/// The string is a decimal amount, optionally negative.
pub open spec fn parses_amount(s: Seq<char>) -> bool {
    if s.len() > 0 && s[0] == '-' {
        parses_unsigned_amount(s.drop_first())
    } else {
        parses_unsigned_amount(s)
    }
}

/// The signed value of an amount string in hundredths.
pub open spec fn amount_cents(s: Seq<char>) -> int {
    if s.len() > 0 && s[0] == '-' {
        -unsigned_cents(s.drop_first())
    } else {
        unsigned_cents(s)
    }
}

/// The string is a decimal amount whose value in hundredths stays within
/// the engine's amount limit.
pub open spec fn parses_amount_i64(s: Seq<char>) -> bool {
    parses_amount(s) && -AMOUNT_LIMIT <= amount_cents(s) <= AMOUNT_LIMIT
}

/// A plain digit run parsed as a `u64`; unlike `parse_u64`, no leading
/// plus sign is accepted, since the amount grammar has none.
fn parse_plain_u64(s: &str) -> (r: Option<u64>)
    ensures
        match r {
            Some(v) => s@.len() > 0 && all_digits(s@) && digits_val(s@) <= u64::MAX && v
                == digits_val(s@),
            None => !(s@.len() > 0 && all_digits(s@) && digits_val(s@) <= u64::MAX),
        },
{
    let n = s.unicode_len();
    if n > 0 && s.get_char(0) == '+' {
        proof {
            assert(!is_digit(s@[0]));
        }
        return None;
    }
    proof {
        assert(u64_body(s@) =~= s@);
    }
    parse_u64(s)
}

/// Parses a decimal amount string into hundredths; `None` exactly when the
/// string is not such a numeral or its value is beyond the amount limit.
pub fn parse_amount(s: &str) -> (r: Option<i64>)
    ensures
        match r {
            Some(v) => parses_amount_i64(s@) && v == amount_cents(s@),
            None => !parses_amount_i64(s@),
        },
{
    let n = s.unicode_len();
    let neg = n > 0 && s.get_char(0) == '-';
    let start: usize = if neg { 1 } else { 0 };
    let ghost b = s@.skip(start as int);
    proof {
        if neg {
            assert(b =~= s@.drop_first());
        } else {
            assert(b =~= s@);
        }
    }
    // find the first dot at or after `start`
    let mut k_abs: usize = n;
    let mut i: usize = start;
    while i < n
        invariant_except_break
            n == s@.len(),
            start <= i <= n,
            k_abs == n,
            forall|j: int| start <= j < i ==> s@[j] != '.',
        ensures
            n == s@.len(),
            start <= n,
            k_abs <= n,
            k_abs == n ==> forall|j: int| start <= j < n ==> s@[j] != '.',
            k_abs < n ==> start <= k_abs && s@[k_abs as int] == '.' && (forall|j: int|
                start <= j < k_abs ==> s@[j] != '.'),
        decreases n - i,
    {
        if s.get_char(i) == '.' {
            k_abs = i;
            break;
        }
        i += 1;
    }
    proof {
        if k_abs == n {
            lemma_find_dot_none(b, 0);
        } else {
            assert(forall|j: int| 0 <= j < k_abs - start ==> b[j] == s@[j + start]);
            assert(b[(k_abs - start) as int] == '.');
            lemma_find_dot_some(b, 0, k_abs - start);
        }
    }
    if k_abs == n {
        // no fraction part
        let whole = s.substring_char(start, n);
        proof {
            assert(whole@ =~= b);
        }
        match parse_plain_u64(whole) {
            None => {
                proof {
                    if parses_amount(s@) {
                        crate::text::lemma_digits_val_nonneg(b);
                    }
                }
                return None;
            },
            Some(v) => {
                if v > (AMOUNT_LIMIT as u64) / 100 {
                    return None;
                }
                let cents: u64 = v * 100;
                let signed: i64 = cents as i64;
                if neg {
                    return Some(-signed);
                } else {
                    return Some(signed);
                }
            },
        }
    } else {
        // fraction part of one or two digits
        if k_abs == start {
            return None;
        }
        let frac_len = n - k_abs - 1;
        if !(1 <= frac_len && frac_len <= 2) {
            return None;
        }
        let whole = s.substring_char(start, k_abs);
        let frac = s.substring_char(k_abs + 1, n);
        let ghost k = k_abs - start;
        proof {
            assert(whole@ =~= b.subrange(0, k as int));
            assert(frac@ =~= b.subrange(k + 1, b.len() as int));
        }
        let whole_val = match parse_plain_u64(whole) {
            None => {
                proof {
                    if parses_amount(s@) {
                        crate::text::lemma_digits_val_nonneg(frac@);
                    }
                }
                return None;
            },
            Some(v) => v,
        };
        let frac_val = match parse_plain_u64(frac) {
            None => {
                return None;
            },
            Some(v) => v,
        };
        let scale: u64 = if frac_len == 1 {
            10
        } else {
            1
        };
        proof {
            lemma_digits_val_bound_small(frac@);
        }
        if whole_val > (AMOUNT_LIMIT as u64) / 100 {
            proof {
                crate::text::lemma_digits_val_nonneg(frac@);
            }
            return None;
        }
        let cents: u64 = whole_val * 100 + frac_val * scale;
        if cents > AMOUNT_LIMIT as u64 {
            return None;
        }
        let signed: i64 = cents as i64;
        if neg {
            return Some(-signed);
        } else {
            return Some(signed);
        }
    }
}

proof fn lemma_digits_val_bound_small(s: Seq<char>)
    requires
        all_digits(s),
        s.len() <= 2,
    ensures
        0 <= digits_val(s) <= 99,
{
    crate::text::lemma_digits_val_nonneg(s);
    if s.len() > 0 {
        assert(all_digits(s.drop_last()));
        crate::text::lemma_digits_val_nonneg(s.drop_last());
        if s.len() == 2 {
            assert(s.drop_last().len() == 1);
            assert(digits_val(s.drop_last().drop_last()) == 0);
            assert(is_digit(s.drop_last().last()));
            assert(digits_val(s.drop_last()) <= 9);
        } else {
            assert(digits_val(s.drop_last()) == 0);
        }
        assert(is_digit(s.last()));
    }
}

/// The shortest plain decimal form of an amount in hundredths: no fraction
/// part when it is zero, one digit when the value is a whole number of
/// tenths, two digits otherwise.
pub open spec fn spec_amount_string(v: int) -> Seq<char> {
    let a = if v < 0 {
        -v
    } else {
        v
    };
    let sign: Seq<char> = if v < 0 {
        seq!['-']
    } else {
        Seq::<char>::empty()
    };
    let whole = spec_u64_string(a / 100);
    if a % 100 == 0 {
        sign + whole
    } else if a % 10 == 0 {
        sign + whole + seq!['.', digit_char((a / 10) % 10)]
    } else {
        sign + whole + seq!['.', digit_char((a / 10) % 10), digit_char(a % 10)]
    }
}

pub fn format_amount(v: i64) -> (r: String)
    requires
        -2 * AMOUNT_LIMIT <= v <= 2 * AMOUNT_LIMIT,
    ensures
        r@ == spec_amount_string(v as int),
{
    let mut out = String::new();
    let a: u64 = if v < 0 {
        push_char(&mut out, '-');
        (-v) as u64
    } else {
        v as u64
    };
    let whole = u64_to_string(a / 100);
    out.append(whole.as_str());
    if a % 100 != 0 {
        push_char(&mut out, '.');
        push_char(&mut out, (48u8 + (((a / 10) % 10) as u8)) as char);
        if a % 10 != 0 {
            push_char(&mut out, (48u8 + ((a % 10) as u8)) as char);
        }
    }
    proof {
        assert(out@ =~= spec_amount_string(v as int));
    }
    out
}

} // verus!
