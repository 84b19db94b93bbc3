//! Verified text utilities: decimal digit strings, string equality,
//! substring search, lowercasing and character replacement.

use vstd::prelude::*;

verus! {

/// The character for one decimal digit value.
pub open spec fn digit_char(d: int) -> char {
    ((d + 48) as u8) as char
}

pub open spec fn is_digit(c: char) -> bool {
    '0' <= c && c <= '9'
}

pub open spec fn all_digits(s: Seq<char>) -> bool {
    forall|i: int| 0 <= i < s.len() ==> is_digit(#[trigger] s[i])
}

/// The value of a digit string read as a decimal numeral.
pub open spec fn digits_val(s: Seq<char>) -> int
    decreases s.len(),
{
    if s.len() == 0 {
        0
    } else {
        digits_val(s.drop_last()) * 10 + (s.last() as int - 48)
    }
}

/// The decimal numeral of a non-negative integer, without leading zeros.
pub open spec fn spec_u64_string(n: int) -> Seq<char>
    decreases n,
{
    if n <= 9 {
        seq![digit_char(n)]
    } else {
        spec_u64_string(n / 10).push(digit_char(n % 10))
    }
}

/// Relies on `String::push`: appends exactly one character to the string.
#[verifier::external_body]
pub fn push_char(s: &mut String, c: char)
    ensures
        final(s)@ == old(s)@.push(c),
{
    s.push(c);
}

pub fn u64_to_string(n: u64) -> (r: String)
    ensures
        r@ == spec_u64_string(n as int),
    decreases n,
{
    if n <= 9 {
        let mut s = String::new();
        push_char(&mut s, (48u8 + (n as u8)) as char);
        proof {
            assert(s@ =~= seq![digit_char(n as int)]);
        }
        s
    } else {
        let mut s = u64_to_string(n / 10);
        push_char(&mut s, (48u8 + ((n % 10) as u8)) as char);
        s
    }
}

pub fn str_eq(a: &str, b: &str) -> (r: bool)
    ensures
        r == (a@ == b@),
{
    let al = a.unicode_len();
    let bl = b.unicode_len();
    if al != bl {
        return false;
    }
    let mut i: usize = 0;
    while i < al
        invariant
            al == a@.len(),
            al == b@.len(),
            i <= al,
            forall|j: int| 0 <= j < i ==> a@[j] == b@[j],
        decreases al - i,
    {
        if a.get_char(i) != b.get_char(i) {
            return false;
        }
        i += 1;
    }
    proof {
        assert(a@ =~= b@);
    }
    true
}

/// The needle occurs in the haystack starting at position `i`.
pub open spec fn match_at(hay: Seq<char>, needle: Seq<char>, i: int) -> bool {
    &&& 0 <= i
    &&& i + needle.len() <= hay.len()
    &&& forall|j: int| 0 <= j < needle.len() ==> hay[i + j] == (#[trigger] needle[j])
}

/// Substring containment, the meaning of `str::contains`.
pub open spec fn contains_seq(hay: Seq<char>, needle: Seq<char>) -> bool {
    exists|i: int| match_at(hay, needle, i)
}

pub fn str_contains(hay: &str, needle: &str) -> (r: bool)
    ensures
        r == contains_seq(hay@, needle@),
{
    let hl = hay.unicode_len();
    let nl = needle.unicode_len();
    if nl > hl {
        proof {
            assert(forall|i: int| !match_at(hay@, needle@, i));
        }
        return false;
    }
    let mut i: usize = 0;
    while i <= hl - nl
        invariant
            nl <= hl,
            hl == hay@.len(),
            nl == needle@.len(),
            i <= hl - nl + 1,
            forall|k: int| 0 <= k < i ==> !match_at(hay@, needle@, k),
        decreases hl - nl - i + 1,
    {
        let mut j: usize = 0;
        let mut same = true;
        while j < nl
            invariant
                nl <= hl,
                hl == hay@.len(),
                nl == needle@.len(),
                i + nl <= hl,
                j <= nl,
                same <==> forall|q: int| 0 <= q < j ==> hay@[i + q] == (#[trigger] needle@[q]),
            decreases nl - j,
        {
            if hay.get_char(i + j) != needle.get_char(j) {
                same = false;
                j = nl;
            } else {
                j = j + 1;
            }
        }
        if same {
            proof {
                assert(match_at(hay@, needle@, i as int));
            }
            return true;
        }
        i += 1;
    }
    proof {
        assert(forall|k: int| match_at(hay@, needle@, k) ==> 0 <= k < i);
    }
    false
}

/// ASCII lowercasing of one character; other characters are unchanged.
pub open spec fn lower_char(c: char) -> char {
    if 'A' <= c && c <= 'Z' {
        (((c as u8) + 32) as u8) as char
    } else {
        c
    }
}

pub open spec fn lower_ascii(s: Seq<char>) -> Seq<char> {
    s.map_values(|c: char| lower_char(c))
}

pub fn ascii_lower(s: &str) -> (r: String)
    ensures
        r@ == lower_ascii(s@),
{
    let n = s.unicode_len();
    let mut out = String::new();
    let mut i: usize = 0;
    while i < n
        invariant
            n == s@.len(),
            i <= n,
            out@.len() == i,
            forall|j: int| 0 <= j < i ==> out@[j] == lower_char(#[trigger] s@[j]),
        decreases n - i,
    {
        let c = s.get_char(i);
        if 'A' <= c && c <= 'Z' {
            push_char(&mut out, (((c as u8) + 32) as u8) as char);
        } else {
            push_char(&mut out, c);
        }
        i += 1;
    }
    proof {
        assert(out@ =~= lower_ascii(s@));
    }
    out
}

/// What `str::to_lowercase` returns for the characters of the input; named
/// because the full Unicode lowering table is not restated here.
pub uninterp spec fn lower_of(s: Seq<char>) -> Seq<char>;

/// Relies on `str::to_lowercase`: the result depends on the characters of
/// the input alone.
#[verifier::external_body]
pub fn to_lowercase(s: &str) -> (r: String)
    ensures
        r@ == lower_of(s@),
{
    s.to_lowercase()
}

/// Every occurrence of the character `from` replaced by the string `to`.
pub open spec fn spec_replace_char(s: Seq<char>, from: char, to: Seq<char>) -> Seq<char>
    decreases s.len(),
{
    if s.len() == 0 {
        s
    } else if s[0] == from {
        to + spec_replace_char(s.drop_first(), from, to)
    } else {
        seq![s[0]] + spec_replace_char(s.drop_first(), from, to)
    }
}

proof fn lemma_replace_distributes(u: Seq<char>, v: Seq<char>, from: char, to: Seq<char>)
    ensures
        spec_replace_char(u + v, from, to) == spec_replace_char(u, from, to) + spec_replace_char(
            v,
            from,
            to,
        ),
    decreases u.len(),
{
    if u.len() == 0 {
        assert(u + v =~= v);
        assert(spec_replace_char(u, from, to) + spec_replace_char(v, from, to) =~= spec_replace_char(
            v,
            from,
            to,
        ));
    } else {
        assert((u + v).drop_first() =~= u.drop_first() + v);
        lemma_replace_distributes(u.drop_first(), v, from, to);
        if u[0] == from {
            assert(spec_replace_char(u + v, from, to) =~= spec_replace_char(u, from, to)
                + spec_replace_char(v, from, to));
        } else {
            assert(spec_replace_char(u + v, from, to) =~= spec_replace_char(u, from, to)
                + spec_replace_char(v, from, to));
        }
    }
}

pub fn replace_char(s: &str, from: char, to: &str) -> (r: String)
    ensures
        r@ == spec_replace_char(s@, from, to@),
{
    let n = s.unicode_len();
    let mut out = String::new();
    let mut i: usize = 0;
    while i < n
        invariant
            n == s@.len(),
            i <= n,
            out@ == spec_replace_char(s@.take(i as int), from, to@),
        decreases n - i,
    {
        let c = s.get_char(i);
        proof {
            let single = seq![s@[i as int]];
            assert(s@.take(i + 1) =~= s@.take(i as int) + single);
            lemma_replace_distributes(s@.take(i as int), single, from, to@);
            assert(single.drop_first() =~= Seq::<char>::empty());
            assert(spec_replace_char(Seq::<char>::empty(), from, to@) == Seq::<char>::empty());
            assert(single[0] == s@[i as int] && single.len() == 1);
            if s@[i as int] == from {
                assert(spec_replace_char(single, from, to@) == to@ + spec_replace_char(
                    single.drop_first(),
                    from,
                    to@,
                ));
                assert(spec_replace_char(single, from, to@) =~= to@);
            } else {
                assert(spec_replace_char(single, from, to@) == seq![single[0]]
                    + spec_replace_char(single.drop_first(), from, to@));
                assert(spec_replace_char(single, from, to@) =~= single);
            }
        }
        if c == from {
            out.append(to);
        } else {
            push_char(&mut out, c);
            proof {
                assert(out@ =~= spec_replace_char(s@.take(i as int), from, to@) + seq![s@[
                    i as int]]);
            }
        }
        i += 1;
    }
    proof {
        assert(s@.take(n as int) =~= s@);
    }
    out
}

pub proof fn lemma_digits_val_nonneg(s: Seq<char>)
    requires
        all_digits(s),
    ensures
        digits_val(s) >= 0,
    decreases s.len(),
{
    if s.len() > 0 {
        assert(all_digits(s.drop_last()));
        lemma_digits_val_nonneg(s.drop_last());
    }
}

proof fn lemma_digits_val_take_le(s: Seq<char>, k: int)
    requires
        all_digits(s),
        0 <= k <= s.len(),
    ensures
        digits_val(s.take(k)) <= digits_val(s),
    decreases s.len(),
{
    if k == s.len() {
        assert(s.take(k) =~= s);
    } else {
        assert(all_digits(s.drop_last()));
        assert(s.take(k) =~= s.drop_last().take(k));
        lemma_digits_val_take_le(s.drop_last(), k);
        lemma_digits_val_nonneg(s.drop_last());
        assert(digits_val(s) == digits_val(s.drop_last()) * 10 + (s.last() as int - 48));
        assert(digits_val(s.drop_last()) * 10 >= digits_val(s.drop_last())) by (nonlinear_arith)
            requires
                digits_val(s.drop_last()) >= 0,
        ;
    }
}

/// The numeral with one optional leading plus sign stripped.
pub open spec fn u64_body(s: Seq<char>) -> Seq<char> {
    if s.len() > 0 && s[0] == '+' {
        s.drop_first()
    } else {
        s
    }
}

/// The string is a decimal numeral, optionally with one leading plus
/// sign, whose value fits in `u64` — the strings std's `u64` parse
/// accepts.
pub open spec fn parses_u64(s: Seq<char>) -> bool {
    &&& u64_body(s).len() > 0
    &&& all_digits(u64_body(s))
    &&& digits_val(u64_body(s)) <= u64::MAX
}

pub fn parse_u64(s: &str) -> (r: Option<u64>)
    ensures
        match r {
            Some(v) => parses_u64(s@) && v == digits_val(u64_body(s@)),
            None => !parses_u64(s@),
        },
{
    let n = s.unicode_len();
    let start: usize = if n > 0 && s.get_char(0) == '+' {
        1
    } else {
        0
    };
    let ghost b = u64_body(s@);
    proof {
        assert(b =~= s@.skip(start as int));
    }
    if n == start {
        return None;
    }
    let mut acc: u64 = 0;
    let mut i: usize = start;
    while i < n
        invariant
            n == s@.len(),
            start <= i <= n,
            b == u64_body(s@),
            b =~= s@.skip(start as int),
            all_digits(b.take(i - start)),
            acc == digits_val(b.take(i - start)),
        decreases n - i,
    {
        let c = s.get_char(i);
        proof {
            assert(b[i - start] == s@[i as int]);
        }
        if !('0' <= c && c <= '9') {
            proof {
                assert(!is_digit(b[i - start]));
                assert(!all_digits(b));
            }
            return None;
        }
        let d: u64 = ((c as u8) - 48) as u64;
        proof {
            assert(b.take(i + 1 - start) =~= b.take(i - start).push(b[i - start]));
            assert(b.take(i + 1 - start).drop_last() =~= b.take(i - start));
            assert(digits_val(b.take(i + 1 - start)) == acc * 10 + d);
        }
        let step = match acc.checked_mul(10) {
            Some(m) => m.checked_add(d),
            None => None,
        };
        match step {
            Some(v) => {
                acc = v;
            },
            None => {
                proof {
                    if parses_u64(s@) {
                        lemma_digits_val_take_le(b, i + 1 - start);
                        lemma_digits_val_nonneg(b.take(i + 1 - start));
                    }
                }
                return None;
            },
        }
        i += 1;
    }
    proof {
        assert(b.take(n - start) =~= b);
    }
    Some(acc)
}

} // verus!
