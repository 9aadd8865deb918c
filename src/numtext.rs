//! The texts that std reads as integers and as floating-point numbers.

use vstd::prelude::*;
use vstd::string::*;
use crate::text::is_digit;

verus! {

pub open spec fn digit_run(s: Seq<char>) -> bool {
    forall|i: int| 0 <= i < s.len() ==> is_digit(#[trigger] s[i])
}

pub open spec fn has_sign(s: Seq<char>) -> bool {
    s.len() > 0 && (s[0] == '+' || s[0] == '-')
}

pub open spec fn unsigned_part(s: Seq<char>) -> Seq<char> {
    if has_sign(s) { s.drop_first() } else { s }
}

/// The value of a run of decimal digits.
pub open spec fn digits_value(s: Seq<char>) -> int
    decreases s.len(),
{
    if s.len() == 0 {
        0
    } else {
        digits_value(s.drop_last()) * 10 + (s.last() as int - '0' as int)
    }
}

/// An optional sign followed by one or more decimal digits, and its value.
pub open spec fn decimal_value(s: Seq<char>) -> Option<int> {
    let u = unsigned_part(s);
    if u.len() > 0 && digit_run(u) {
        if has_sign(s) && s[0] == '-' {
            Some(-digits_value(u))
        } else {
            Some(digits_value(u))
        }
    } else {
        None
    }
}

proof fn lemma_digits_value_grows(s: Seq<char>, k: int)
    requires
        digit_run(s),
        0 <= k <= s.len(),
    ensures
        digits_value(s) >= digits_value(s.take(k)),
        digits_value(s) >= 0,
    decreases s.len(),
{
    if s.len() > 0 {
        let p = s.drop_last();
        assert(digit_run(p)) by {
            assert forall|i: int| 0 <= i < p.len() implies is_digit(#[trigger] p[i]) by {
                assert(p[i] == s[i]);
            }
        }
        assert(is_digit(s[s.len() - 1]));
        if k == s.len() {
            assert(s.take(k) =~= s);
            lemma_digits_value_grows(p, 0);
        } else {
            assert(p.take(k) =~= s.take(k));
            lemma_digits_value_grows(p, k);
        }
    } else {
        assert(s.take(k) =~= s);
    }
}

/// The value of an optional `+` or `-` followed by one or more decimal
/// digits, when it fits in an `i64`; what `str::parse::<i64>` gives.
pub fn parse_i64(s: &str) -> (r: Option<i64>)
    ensures
        r == match decimal_value(s@) {
            Some(v) => if i64::MIN <= v <= i64::MAX { Some(v as i64) } else { None },
            None => None,
        },
{
    let n = s.unicode_len();
    let signed = n > 0 && (s.get_char(0) == '+' || s.get_char(0) == '-');
    let negative = n > 0 && s.get_char(0) == '-';
    let start: usize = if signed { 1 } else { 0 };
    let ghost u = unsigned_part(s@);
    assert(u =~= s@.subrange(start as int, n as int));
    if start == n {
        return None;
    }
    let limit: u128 = 10_000_000_000_000_000_000;
    let mut acc: u128 = 0;
    let mut i: usize = start;
    while i < n
        invariant
            n == s@.len(),
            start <= i <= n,
            u == s@.subrange(start as int, n as int),
            u == unsigned_part(s@),
            u.len() > 0,
            negative == (has_sign(s@) && s@[0] == '-'),
            limit == 10_000_000_000_000_000_000u128,
            acc <= 10 * limit + 9,
            acc == digits_value(s@.subrange(start as int, i as int)),
            digit_run(s@.subrange(start as int, i as int)),
        decreases n - i,
    {
        let ghost before = s@.subrange(start as int, i as int);
        let ghost after = s@.subrange(start as int, i + 1);
        assert(after.drop_last() =~= before);
        assert(after.last() == s@[i as int]);
        let c = s.get_char(i);
        if !('0' <= c && c <= '9') {
            assert(!digit_run(u)) by {
                assert(u[i - start] == c);
            }
            return None;
        }
        if acc > limit {
            assert(u.take(i - start) =~= before);
            assert(digit_run(u) ==> digits_value(u) > 10_000_000_000_000_000_000int) by {
                if digit_run(u) {
                    lemma_digits_value_grows(u, i - start);
                }
            }
            return None;
        }
        acc = acc * 10 + ((c as u32) - ('0' as u32)) as u128;
        assert(digit_run(after)) by {
            assert forall|k: int| 0 <= k < after.len() implies is_digit(#[trigger] after[k]) by {
                if k < before.len() {
                    assert(after[k] == before[k]);
                }
            }
        }
        i += 1;
    }
    if negative {
        if acc > 9_223_372_036_854_775_808 {
            None
        } else {
            Some((0 - acc as i128) as i64)
        }
    } else {
        if acc > 9_223_372_036_854_775_807 {
            None
        } else {
            Some(acc as i64)
        }
    }
}

/// The value of an optional `+` or `-` followed by one or more decimal
/// digits, when it fits in an `i32`; what `str::parse::<i32>` gives.
pub fn parse_i32(s: &str) -> (r: Option<i32>)
    ensures
        r == match decimal_value(s@) {
            Some(v) => if i32::MIN <= v <= i32::MAX { Some(v as i32) } else { None },
            None => None,
        },
{
    match parse_i64(s) {
        Some(v) => if i32::MIN as i64 <= v && v <= i32::MAX as i64 { Some(v as i32) } else { None },
        None => None,
    }
}

/// `c` is the lowercase letter `w`, or its uppercase form.
pub open spec fn matches_letter(c: char, w: char) -> bool {
    c == w || ('A' <= c && c <= 'Z' && (c as u32) + 32 == (w as u32))
}

pub open spec fn same_ignoring_case(s: Seq<char>, word: Seq<char>) -> bool {
    s.len() == word.len() && forall|i: int| 0 <= i < s.len() ==> matches_letter(#[trigger] s[i], word[i])
}

/// A mantissa: digits, with at most one decimal point, and a digit somewhere.
pub open spec fn is_mantissa(m: Seq<char>) -> bool {
    ||| m.len() > 0 && digit_run(m)
    ||| m.len() >= 2 && exists|p: int| 0 <= p < m.len() && m[p] == '.' && digit_run(#[trigger] m.take(p)) && digit_run(m.skip(p + 1))
}

pub open spec fn is_exponent_mark(c: char) -> bool {
    c == 'e' || c == 'E'
}

/// What follows the exponent mark: an optional sign, then digits.
pub open spec fn is_exponent_digits(e: Seq<char>) -> bool {
    unsigned_part(e).len() > 0 && digit_run(unsigned_part(e))
}

pub open spec fn is_decimal_number(s: Seq<char>) -> bool {
    ||| is_mantissa(s)
    ||| exists|p: int| 0 <= p < s.len() && is_exponent_mark(s[p]) && is_mantissa(#[trigger] s.take(p)) && is_exponent_digits(s.skip(p + 1))
}

/// The texts that `f64::from_str` accepts, by the grammar its documentation
/// gives (letters in any case): an optional sign, then `inf`, `infinity`,
/// `nan`, or a decimal number with an optional exponent.
pub open spec fn is_float_text(s: Seq<char>) -> bool {
    let u = unsigned_part(s);
    ||| same_ignoring_case(u, "inf"@)
    ||| same_ignoring_case(u, "infinity"@)
    ||| same_ignoring_case(u, "nan"@)
    ||| is_decimal_number(u)
}

fn letter_matches(c: char, w: char) -> (r: bool)
    ensures
        r == matches_letter(c, w),
{
    c == w || ('A' <= c && c <= 'Z' && (c as u32) + 32 == (w as u32))
}

/// The characters of `s` from `from` to `to`, matched against a lowercase word.
fn range_matches_word(s: &str, from: usize, to: usize, word: &str) -> (r: bool)
    requires
        from <= to <= s@.len(),
    ensures
        r == same_ignoring_case(s@.subrange(from as int, to as int), word@),
{
    let n = word.unicode_len();
    if to - from != n {
        return false;
    }
    let mut i: usize = 0;
    while i < n
        invariant
            from <= to <= s@.len(),
            n == word@.len(),
            to - from == n,
            i <= n,
            forall|k: int| 0 <= k < i ==> matches_letter(s@[from + k], word@[k]),
        decreases n - i,
    {
        if !letter_matches(s.get_char(from + i), word.get_char(i)) {
            assert(!matches_letter(s@.subrange(from as int, to as int)[i as int], word@[i as int]));
            return false;
        }
        i += 1;
    }
    assert forall|k: int| 0 <= k < n implies matches_letter(#[trigger] s@.subrange(from as int, to as int)[k], word@[k]) by {
        assert(s@.subrange(from as int, to as int)[k] == s@[from + k]);
    }
    true
}

/// Whether the characters of `s` from `from` to `to` are all digits.
fn range_is_digits(s: &str, from: usize, to: usize) -> (r: bool)
    requires
        from <= to <= s@.len(),
    ensures
        r == digit_run(s@.subrange(from as int, to as int)),
{
    let mut i: usize = from;
    while i < to
        invariant
            from <= i <= to <= s@.len(),
            forall|k: int| from <= k < i ==> is_digit(s@[k]),
        decreases to - i,
    {
        let c = s.get_char(i);
        if !('0' <= c && c <= '9') {
            assert(!is_digit(s@.subrange(from as int, to as int)[i - from]));
            return false;
        }
        i += 1;
    }
    assert forall|k: int| 0 <= k < to - from implies is_digit(#[trigger] s@.subrange(from as int, to as int)[k]) by {
        assert(s@.subrange(from as int, to as int)[k] == s@[from + k]);
    }
    true
}

/// The first position in `[from, to)` holding `c` or `d`, else `to`.
fn find_either(s: &str, from: usize, to: usize, c: char, d: char) -> (r: usize)
    requires
        from <= to <= s@.len(),
    ensures
        from <= r <= to,
        forall|k: int| from <= k < r ==> s@[k] != c && s@[k] != d,
        r < to ==> (s@[r as int] == c || s@[r as int] == d),
{
    let mut i: usize = from;
    while i < to
        invariant
            from <= i <= to <= s@.len(),
            forall|k: int| from <= k < i ==> s@[k] != c && s@[k] != d,
        decreases to - i,
    {
        let x = s.get_char(i);
        if x == c || x == d {
            return i;
        }
        i += 1;
    }
    to
}

proof fn lemma_mantissa_has_no(m: Seq<char>, c: char, k: int)
    requires
        is_mantissa(m),
        0 <= k < m.len(),
        !is_digit(c),
        c != '.',
    ensures
        m[k] != c,
{
    if m.len() > 0 && digit_run(m) {
        assert(is_digit(m[k]));
    } else {
        let p = choose|p: int| 0 <= p < m.len() && m[p] == '.' && digit_run(#[trigger] m.take(p)) && digit_run(m.skip(p + 1));
        if k < p {
            assert(m.take(p)[k] == m[k]);
        } else if k > p {
            assert(m.skip(p + 1)[k - p - 1] == m[k]);
        }
    }
}

/// Whether the characters of `s` from `from` to `to` form a mantissa.
fn range_is_mantissa(s: &str, from: usize, to: usize) -> (r: bool)
    requires
        from <= to <= s@.len(),
    ensures
        r == is_mantissa(s@.subrange(from as int, to as int)),
{
    let ghost m = s@.subrange(from as int, to as int);
    let dot = find_either(s, from, to, '.', '.');
    if dot == to {
        let all = to > from && range_is_digits(s, from, to);
        if !all && to - from >= 2 {
            assert(!is_mantissa(m)) by {
                if is_mantissa(m) {
                    if !(m.len() > 0 && digit_run(m)) {
                        let p = choose|p: int| 0 <= p < m.len() && m[p] == '.' && digit_run(#[trigger] m.take(p)) && digit_run(m.skip(p + 1));
                        assert(s@[from + p] == '.');
                    }
                }
            }
        }
        return all;
    }
    let left = range_is_digits(s, from, dot);
    let right = range_is_digits(s, dot + 1, to);
    let ghost p = (dot - from) as int;
    assert(m.take(p) =~= s@.subrange(from as int, dot as int));
    assert(m.skip(p + 1) =~= s@.subrange(dot + 1, to as int));
    if left && right && to - from >= 2 {
        assert(m[p] == '.');
        return true;
    }
    assert(!is_mantissa(m)) by {
        if is_mantissa(m) {
            if m.len() > 0 && digit_run(m) {
                assert(is_digit(m[p]));
            } else {
                let q = choose|q: int| 0 <= q < m.len() && m[q] == '.' && digit_run(#[trigger] m.take(q)) && digit_run(m.skip(q + 1));
                if q < p {
                    assert(s@[from + q] == '.');
                } else if q > p {
                    assert(m.take(q)[p] == '.');
                    assert(!is_digit(m.take(q)[p]));
                }
            }
        }
    }
    false
}

/// Whether `s` is a text that `f64::from_str` accepts.
pub fn is_float(s: &str) -> (r: bool)
    ensures
        r == is_float_text(s@),
{
    let n = s.unicode_len();
    let start: usize = if n > 0 && (s.get_char(0) == '+' || s.get_char(0) == '-') { 1 } else { 0 };
    let ghost u = unsigned_part(s@);
    assert(u =~= s@.subrange(start as int, n as int));
    if range_matches_word(s, start, n, "inf") || range_matches_word(s, start, n, "infinity") || range_matches_word(s, start, n, "nan") {
        return true;
    }
    let e = find_either(s, start, n, 'e', 'E');
    if e == n {
        let r = range_is_mantissa(s, start, n);
        assert(!r ==> !is_decimal_number(u)) by {
            if !r && is_decimal_number(u) {
                let p = choose|p: int| 0 <= p < u.len() && is_exponent_mark(u[p]) && is_mantissa(#[trigger] u.take(p)) && is_exponent_digits(u.skip(p + 1));
                assert(u[p] == s@[start + p]);
            }
        }
        return r;
    }
    let ghost p = (e - start) as int;
    let mant = range_is_mantissa(s, start, e);
    assert(u.take(p) =~= s@.subrange(start as int, e as int));
    let exp_start: usize = if e + 1 < n && (s.get_char(e + 1) == '+' || s.get_char(e + 1) == '-') { e + 2 } else { e + 1 };
    let exp = exp_start < n && range_is_digits(s, exp_start, n);
    assert(unsigned_part(u.skip(p + 1)) =~= s@.subrange(exp_start as int, n as int));
    let r = mant && exp;
    if r {
        assert(is_exponent_mark(u[p]));
        return true;
    }
    assert(!is_decimal_number(u)) by {
        if is_mantissa(u) {
            lemma_mantissa_has_no(u, u[p], p);
        }
        if exists|q: int| 0 <= q < u.len() && is_exponent_mark(u[q]) && is_mantissa(#[trigger] u.take(q)) && is_exponent_digits(u.skip(q + 1)) {
            let q = choose|q: int| 0 <= q < u.len() && is_exponent_mark(u[q]) && is_mantissa(#[trigger] u.take(q)) && is_exponent_digits(u.skip(q + 1));
            if q < p {
                assert(u[q] == s@[start + q]);
            } else if q > p {
                assert(u.take(q)[p] == u[p]);
                lemma_mantissa_has_no(u.take(q), u[p], p);
            }
        }
    }
    false
}

} // verus!
