//! Decimal numbers in text: what `str::parse` accepts for the integer types
//! and for `f64`, and the decimal form that `format!` writes of an integer.
use vstd::prelude::*;
use crate::text::{chars_eq_str, is_digit, lower, lower_chars, slice_range};

verus! {

// ---------------------------------------------------------------------------
// Digits
// ---------------------------------------------------------------------------

pub open spec fn digit_val(c: char) -> nat {
    ((c as u32) - ('0' as u32)) as nat
}

pub open spec fn all_digits(s: Seq<char>) -> bool {
    forall|i: int| 0 <= i < s.len() ==> #[trigger] is_digit(s[i])
}

/// The value of a sequence of decimal digits.
pub open spec fn digits_value(s: Seq<char>) -> nat
    decreases s.len(),
{
    if s.len() == 0 {
        0
    } else {
        digits_value(s.drop_last()) * 10 + digit_val(s.last())
    }
}

/// What `str::parse` gives for an unsigned integer type of unbounded
/// range: an optional `+`, then at least one decimal digit.
pub open spec fn unsigned_literal(s: Seq<char>) -> Option<nat> {
    let d = if s.len() > 0 && s[0] == '+' {
        s.drop_first()
    } else {
        s
    };
    if d.len() > 0 && all_digits(d) {
        Some(digits_value(d))
    } else {
        None
    }
}

/// What `str::parse` gives for a signed integer type of unbounded range:
/// an optional `+` or `-`, then at least one decimal digit.
pub open spec fn signed_literal(s: Seq<char>) -> Option<int> {
    if s.len() > 0 && s[0] == '-' {
        let d = s.drop_first();
        if d.len() > 0 && all_digits(d) {
            Some(-(digits_value(d) as int))
        } else {
            None
        }
    } else {
        match unsigned_literal(s) {
            Some(n) => Some(n as int),
            None => None,
        }
    }
}

/// `str::parse::<usize>`.
pub open spec fn parse_usize(s: Seq<char>) -> Option<usize> {
    match unsigned_literal(s) {
        Some(n) => if n <= usize::MAX {
            Some(n as usize)
        } else {
            None
        },
        None => None,
    }
}

/// `str::parse::<i32>`.
pub open spec fn parse_i32(s: Seq<char>) -> Option<i32> {
    match signed_literal(s) {
        Some(n) => if i32::MIN <= n <= i32::MAX {
            Some(n as i32)
        } else {
            None
        },
        None => None,
    }
}

/// `str::parse::<i64>`.
pub open spec fn parse_i64(s: Seq<char>) -> Option<i64> {
    match signed_literal(s) {
        Some(n) => if i64::MIN <= n <= i64::MAX {
            Some(n as i64)
        } else {
            None
        },
        None => None,
    }
}

proof fn lemma_digits_prefix_le(s: Seq<char>, i: int)
    requires
        0 <= i <= s.len(),
        all_digits(s),
    ensures
        digits_value(s.take(i)) <= digits_value(s),
    decreases s.len(),
{
    if i < s.len() {
        assert(s.drop_last().take(i) == s.take(i));
        assert(all_digits(s.drop_last())) by {
            assert forall|k: int| 0 <= k < s.drop_last().len() implies #[trigger] is_digit(
                s.drop_last()[k],
            ) by {
                assert(is_digit(s[k]));
            }
        }
        lemma_digits_prefix_le(s.drop_last(), i);
    } else {
        assert(s.take(i) == s);
    }
}

/// The value of the digits `s[start..]`, if they are at least one digit,
/// all digits, and their value is at most `max`.
fn digits_at_most(s: &[char], start: usize, max: u64) -> (r: Option<u64>)
    requires
        start <= s@.len(),
    ensures
        ({
            let d = s@.skip(start as int);
            match r {
                Some(v) => d.len() > 0 && all_digits(d) && v == digits_value(d) && v <= max,
                None => !(d.len() > 0 && all_digits(d) && digits_value(d) <= max),
            }
        }),
{
    let ghost d = s@.skip(start as int);
    if start == s.len() {
        return None;
    }
    let mut v: u64 = 0;
    let mut i = start;
    assert(d.take(0) == Seq::<char>::empty());
    while i < s.len()
        invariant
            start <= i <= s@.len(),
            d == s@.skip(start as int),
            all_digits(d.take(i - start)),
            v == digits_value(d.take(i - start)),
            v <= max,
        decreases s@.len() - i,
    {
        let c = s[i];
        if !('0' <= c && c <= '9') {
            assert(d[i - start] == c);
            assert(!is_digit(d[i - start]));
            return None;
        }
        let dv = (c as u32 - '0' as u32) as u64;
        let ghost prev = d.take(i - start);
        assert(d.take(i + 1 - start).drop_last() == prev);
        assert(d.take(i + 1 - start).last() == c);
        let next: u128 = (v as u128) * 10 + (dv as u128);
        if next > max as u128 {
            proof {
                assert(all_digits(d.take(i + 1 - start)));
                assert(digits_value(d.take(i + 1 - start)) > max);
                if all_digits(d) {
                    lemma_digits_prefix_le(d, i + 1 - start);
                }
            }
            return None;
        }
        v = next as u64;
        i += 1;
    }
    assert(d.take(i - start) == d);
    Some(v)
}

/// `str::parse::<usize>` on characters.
pub fn parse_usize_chars(s: &[char]) -> (r: Option<usize>)
    ensures
        r == parse_usize(s@),
{
    let start: usize = if s.len() > 0 && s[0] == '+' {
        1
    } else {
        0
    };
    assert(start == 1 ==> s@.skip(1) == s@.drop_first());
    assert(start == 0 ==> s@.skip(0) == s@);
    match digits_at_most(s, start, usize::MAX as u64) {
        Some(v) => Some(v as usize),
        None => None,
    }
}

/// The value of a signed literal, if it lies in `lo..=hi`.
fn signed_in_range(s: &[char], lo: i64, hi: i64) -> (r: Option<i64>)
    requires
        lo <= 0 <= hi,
    ensures
        match r {
            Some(v) => signed_literal(s@) == Some(v as int) && lo <= v <= hi,
            None => !(signed_literal(s@) is Some && lo <= signed_literal(s@).unwrap()
                <= hi),
        },
{
    if s.len() > 0 && s[0] == '-' {
        assert(s@.skip(1) == s@.drop_first());
        let neg_max: u64 = (-(lo as i128)) as u64;
        match digits_at_most(s, 1, neg_max) {
            Some(v) => Some((-(v as i128)) as i64),
            None => None,
        }
    } else {
        let start: usize = if s.len() > 0 && s[0] == '+' {
            1
        } else {
            0
        };
        assert(start == 1 ==> s@.skip(1) == s@.drop_first());
        assert(start == 0 ==> s@.skip(0) == s@);
        match digits_at_most(s, start, hi as u64) {
            Some(v) => Some(v as i64),
            None => None,
        }
    }
}

/// `str::parse::<i32>` on characters.
pub fn parse_i32_chars(s: &[char]) -> (r: Option<i32>)
    ensures
        r == parse_i32(s@),
{
    match signed_in_range(s, i32::MIN as i64, i32::MAX as i64) {
        Some(v) => Some(v as i32),
        None => None,
    }
}

/// `str::parse::<i64>` on characters.
pub fn parse_i64_chars(s: &[char]) -> (r: Option<i64>)
    ensures
        r == parse_i64(s@),
{
    signed_in_range(s, i64::MIN, i64::MAX)
}

// ---------------------------------------------------------------------------
// Writing integers
// ---------------------------------------------------------------------------

pub open spec fn digit_char(d: nat) -> char {
    (('0' as u32) + d) as char
}

/// The decimal digits of `n`, without leading zeros (`0` is one digit).
pub open spec fn nat_digits(n: nat) -> Seq<char>
    decreases n,
{
    if n < 10 {
        seq![digit_char(n)]
    } else {
        nat_digits(n / 10).push(digit_char(n % 10))
    }
}

/// `n` as `format!("{}", n)` writes it.
pub open spec fn int_decimal(n: int) -> Seq<char> {
    if n < 0 {
        seq!['-'] + nat_digits((-n) as nat)
    } else {
        nat_digits(n as nat)
    }
}

/// `n` as `format!("{:0w$}", n)` writes it: the sign, then as many zeros as
/// make up the width, then the digits.
pub open spec fn int_decimal_padded(n: int, w: nat) -> Seq<char> {
    let sign: Seq<char> = if n < 0 {
        seq!['-']
    } else {
        seq![]
    };
    let body = nat_digits(if n < 0 {
        (-n) as nat
    } else {
        n as nat
    });
    let used = sign.len() + body.len();
    let pad: nat = if w > used {
        (w - used) as nat
    } else {
        0
    };
    sign + Seq::new(pad, |i: int| '0') + body
}

/// The decimal digits of `n`.
pub fn u64_digits(n: u64) -> (r: Vec<char>)
    ensures
        r@ == nat_digits(n as nat),
    decreases n,
{
    if n < 10 {
        let c = char_of_digit(n);
        let mut v: Vec<char> = Vec::new();
        v.push(c);
        assert(v@ == seq![digit_char(n as nat)]);
        v
    } else {
        let mut v = u64_digits(n / 10);
        v.push(char_of_digit(n % 10));
        v
    }
}

fn char_of_digit(d: u64) -> (c: char)
    requires
        d < 10,
    ensures
        c == digit_char(d as nat),
{
    let b: u8 = 48u8 + (d as u8);
    b as char
}

/// `format!("{}", n)`.
pub fn i64_decimal(n: i64) -> (r: Vec<char>)
    ensures
        r@ == int_decimal(n as int),
{
    if n < 0 {
        let m: u64 = (-(n as i128)) as u64;
        let mut r: Vec<char> = Vec::new();
        r.push('-');
        let d = u64_digits(m);
        let mut i: usize = 0;
        while i < d.len()
            invariant
                i <= d@.len(),
                r@ == seq!['-'] + d@.take(i as int),
            decreases d@.len() - i,
        {
            r.push(d[i]);
            i += 1;
            assert(d@.take(i as int) == d@.take(i - 1).push(d@[i - 1]));
        }
        assert(d@.take(d@.len() as int) == d@);
        r
    } else {
        u64_digits(n as u64)
    }
}

/// `format!("{:0w$}", n)`.
pub fn i64_decimal_padded(n: i64, w: usize) -> (r: Vec<char>)
    ensures
        r@ == int_decimal_padded(n as int, w as nat),
{
    let m: u64 = if n < 0 {
        (-(n as i128)) as u64
    } else {
        n as u64
    };
    let body = u64_digits(m);
    let sign_len: usize = if n < 0 {
        1
    } else {
        0
    };
    let mut r: Vec<char> = Vec::new();
    if n < 0 {
        r.push('-');
    }
    let ghost sign = r@;
    let used = sign_len as u128 + body.len() as u128;
    let pad: usize = if (w as u128) > used {
        (w as u128 - used) as usize
    } else {
        0
    };
    let mut i: usize = 0;
    while i < pad
        invariant
            i <= pad,
            r@ == sign + Seq::new(i as nat, |k: int| '0'),
        decreases pad - i,
    {
        r.push('0');
        i += 1;
        assert(r@ == sign + Seq::new(i as nat, |k: int| '0'));
    }
    let ghost head = r@;
    let mut j: usize = 0;
    while j < body.len()
        invariant
            j <= body@.len(),
            r@ == head + body@.take(j as int),
        decreases body@.len() - j,
    {
        r.push(body[j]);
        j += 1;
        assert(body@.take(j as int) == body@.take(j - 1).push(body@[j - 1]));
    }
    assert(body@.take(body@.len() as int) == body@);
    r
}

// ---------------------------------------------------------------------------
// Floating-point literals
// ---------------------------------------------------------------------------

/// Digits, with at most one `.` among them and at least one digit:
/// `Digit+ | Digit+ '.' Digit* | Digit* '.' Digit+`.
pub open spec fn is_mantissa(m: Seq<char>) -> bool {
    ||| (m.len() > 0 && all_digits(m))
    ||| exists|p: int|
        0 <= p < m.len() && m[p] == '.' && all_digits(m.take(p)) && all_digits(m.skip(p + 1))
            && m.len() >= 2
}

/// `Sign? Digit+`.
pub open spec fn is_exponent(x: Seq<char>) -> bool {
    let d = if x.len() > 0 && (x[0] == '+' || x[0] == '-') {
        x.drop_first()
    } else {
        x
    };
    d.len() > 0 && all_digits(d)
}

/// `Mantissa Exp?` where `Exp ::= 'e' Sign? Digit+`, over lower-case text.
pub open spec fn is_number(t: Seq<char>) -> bool {
    ||| is_mantissa(t)
    ||| exists|k: int|
        0 <= k < t.len() && t[k] == 'e' && is_mantissa(t.take(k)) && is_exponent(t.skip(k + 1))
}

/// What `str::parse::<f64>` accepts: by its documentation, all strings
/// that, lower-cased, follow `Sign? ('inf' | 'infinity' | 'nan' | Number)`.
pub open spec fn is_float_literal(s: Seq<char>) -> bool {
    let b = if s.len() > 0 && (s[0] == '+' || s[0] == '-') {
        s.drop_first()
    } else {
        s
    };
    let t = lower(b);
    t == seq!['i', 'n', 'f'] || t == seq!['i', 'n', 'f', 'i', 'n', 'i', 't', 'y'] || t == seq![
        'n',
        'a',
        'n',
    ] || is_number(t)
}

/// Whether `s[lo..hi]` are all digits.
fn all_digits_range(s: &[char], lo: usize, hi: usize) -> (r: bool)
    requires
        lo <= hi <= s@.len(),
    ensures
        r == all_digits(s@.subrange(lo as int, hi as int)),
{
    let mut i = lo;
    while i < hi
        invariant
            lo <= i <= hi <= s@.len(),
            forall|k: int| lo <= k < i ==> is_digit(s@[k]),
        decreases hi - i,
    {
        if !('0' <= s[i] && s[i] <= '9') {
            assert(s@.subrange(lo as int, hi as int)[i - lo] == s@[i as int]);
            assert(!is_digit(s@.subrange(lo as int, hi as int)[i - lo]));
            return false;
        }
        i += 1;
    }
    assert forall|k: int| 0 <= k < hi - lo implies #[trigger] is_digit(
        s@.subrange(lo as int, hi as int)[k],
    ) by {
        assert(s@.subrange(lo as int, hi as int)[k] == s@[lo + k]);
    }
    true
}

/// The first index in `s[lo..hi]` that holds `c`, or `hi`.
fn find_from(s: &[char], lo: usize, hi: usize, c: char) -> (r: usize)
    requires
        lo <= hi <= s@.len(),
    ensures
        lo <= r <= hi,
        forall|k: int| lo <= k < r ==> s@[k] != c,
        r < hi ==> s@[r as int] == c,
{
    let mut i = lo;
    while i < hi && s[i] != c
        invariant
            lo <= i <= hi <= s@.len(),
            forall|k: int| lo <= k < i ==> s@[k] != c,
        decreases hi - i,
    {
        i += 1;
    }
    i
}

/// `is_mantissa(s[lo..hi])`.
fn mantissa_range(s: &[char], lo: usize, hi: usize) -> (r: bool)
    requires
        lo <= hi <= s@.len(),
    ensures
        r == is_mantissa(s@.subrange(lo as int, hi as int)),
{
    let ghost m = s@.subrange(lo as int, hi as int);
    let p = find_from(s, lo, hi, '.');
    if p == hi {
        let r = hi > lo && all_digits_range(s, lo, hi);
        proof {
            if !r && is_mantissa(m) {
                let q = choose|q: int|
                    0 <= q < m.len() && m[q] == '.' && all_digits(m.take(q)) && all_digits(
                        m.skip(q + 1),
                    ) && m.len() >= 2;
                assert(s@[lo + q] == '.');
            }
        }
        r
    } else {
        let a = all_digits_range(s, lo, p);
        let b = all_digits_range(s, p + 1, hi);
        let r = a && b && hi - lo >= 2;
        let ghost q0 = p - lo;
        assert(m.take(q0) == s@.subrange(lo as int, p as int));
        assert(m.skip(q0 + 1) == s@.subrange(p + 1, hi as int));
        proof {
            assert(m[q0] == '.');
            if !all_digits(m) {
            } else {
                assert(!is_digit(m[q0]));
            }
            if !r && is_mantissa(m) {
                let q = choose|q: int|
                    0 <= q < m.len() && m[q] == '.' && all_digits(m.take(q)) && all_digits(
                        m.skip(q + 1),
                    ) && m.len() >= 2;
                if q < q0 {
                    assert(s@[lo + q] == '.');
                } else if q > q0 {
                    assert(m.take(q)[q0] == '.');
                    assert(!is_digit(m.take(q)[q0]));
                } else {
                }
            }
        }
        r
    }
}

/// `is_exponent(s[lo..hi])`.
fn exponent_range(s: &[char], lo: usize, hi: usize) -> (r: bool)
    requires
        lo <= hi <= s@.len(),
    ensures
        r == is_exponent(s@.subrange(lo as int, hi as int)),
{
    let ghost x = s@.subrange(lo as int, hi as int);
    let start = if lo < hi && (s[lo] == '+' || s[lo] == '-') {
        lo + 1
    } else {
        lo
    };
    assert(start == lo + 1 ==> x.drop_first() == s@.subrange(start as int, hi as int));
    assert(start == lo ==> x == s@.subrange(start as int, hi as int));
    hi > start && all_digits_range(s, start, hi)
}

/// `is_number` on the lower-case text `t`.
fn number_chars(t: &[char]) -> (r: bool)
    ensures
        r == is_number(t@),
{
    let n = t.len();
    let k = find_from(t, 0, n, 'e');
    assert(t@.subrange(0, n as int) == t@);
    if k == n {
        let r = mantissa_range(t, 0, n);
        proof {
            if !r && is_number(t@) {
                let q = choose|q: int|
                    0 <= q < t@.len() && t@[q] == 'e' && is_mantissa(t@.take(q)) && is_exponent(
                        t@.skip(q + 1),
                    );
                assert(t@[q] == 'e');
            }
        }
        r
    } else {
        let a = mantissa_range(t, 0, k);
        let b = exponent_range(t, k + 1, n);
        let plain = mantissa_range(t, 0, n);
        assert(t@.take(k as int) == t@.subrange(0, k as int));
        assert(t@.skip(k + 1) == t@.subrange(k + 1, n as int));
        let r = plain || (a && b);
        proof {
            lemma_mantissa_no_e(t@);
            if !r && is_number(t@) {
                let q = choose|q: int|
                    0 <= q < t@.len() && t@[q] == 'e' && is_mantissa(t@.take(q)) && is_exponent(
                        t@.skip(q + 1),
                    );
                if q > k {
                    assert(t@.take(q)[k as int] == 'e');
                    lemma_mantissa_no_e(t@.take(q));
                }
            }
        }
        r
    }
}

proof fn lemma_mantissa_no_e(m: Seq<char>)
    ensures
        is_mantissa(m) ==> forall|i: int| 0 <= i < m.len() ==> m[i] != 'e',
{
    if is_mantissa(m) {
        if m.len() > 0 && all_digits(m) {
            assert forall|i: int| 0 <= i < m.len() implies m[i] != 'e' by {
                assert(is_digit(m[i]));
            }
        } else {
            let p = choose|p: int|
                0 <= p < m.len() && m[p] == '.' && all_digits(m.take(p)) && all_digits(
                    m.skip(p + 1),
                ) && m.len() >= 2;
            assert forall|i: int| 0 <= i < m.len() implies m[i] != 'e' by {
                if i < p {
                    assert(is_digit(m.take(p)[i]));
                } else if i > p {
                    assert(is_digit(m.skip(p + 1)[i - p - 1]));
                }
            }
        }
    }
}

/// Whether `str::parse::<f64>` accepts `s`.
pub fn is_float_literal_chars(s: &[char]) -> (r: bool)
    ensures
        r == is_float_literal(s@),
{
    let start: usize = if s.len() > 0 && (s[0] == '+' || s[0] == '-') {
        1
    } else {
        0
    };
    let b = slice_range(s, start, s.len());
    assert(start == 1 ==> b@ == s@.drop_first());
    assert(start == 0 ==> b@ == s@);
    let t = lower_chars(b.as_slice());
    proof {
        reveal_strlit("inf");
        reveal_strlit("infinity");
        reveal_strlit("nan");
        assert("inf"@ == seq!['i', 'n', 'f']);
        assert("infinity"@ == seq!['i', 'n', 'f', 'i', 'n', 'i', 't', 'y']);
        assert("nan"@ == seq!['n', 'a', 'n']);
        assert(t@ == lower(b@));
    }
    chars_eq_str(t.as_slice(), "inf") || chars_eq_str(t.as_slice(), "infinity") || chars_eq_str(
        t.as_slice(),
        "nan",
    ) || number_chars(t.as_slice())
}

} // verus!
