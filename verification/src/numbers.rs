use vstd::prelude::*;

verus! {

/// Why a decimal integer could not be read; the same four outcomes as
/// `core::num::IntErrorKind` for a signed 64-bit target.
#[derive(Debug, Clone, Copy, PartialEq, Eq, Structural)]
pub enum IntErrorKind {
    Empty,
    InvalidDigit,
    PosOverflow,
    NegOverflow,
}

pub open spec fn is_ascii_digit(c: char) -> bool {
    '0' <= c && c <= '9'
}

pub open spec fn digit_value(c: char) -> int {
    (c as int) - ('0' as int)
}

pub open spec fn i64_in_range(v: int) -> bool {
    i64::MIN <= v && v <= i64::MAX
}

/// Reads the digits of `ds` from left to right into a value of the sign
/// given by `negative`, stopping at the first character that is no digit or
/// at the first step whose value leaves the range of `i64`.
pub open spec fn accumulate_digits(ds: Seq<char>, negative: bool) -> Result<int, IntErrorKind>
    decreases ds.len(),
{
    if ds.len() == 0 {
        Ok(0)
    } else {
        match accumulate_digits(ds.drop_last(), negative) {
            Err(e) => Err(e),
            Ok(v) => {
                let c = ds.last();
                if !is_ascii_digit(c) {
                    Err(IntErrorKind::InvalidDigit)
                } else {
                    let w = if negative {
                        v * 10 - digit_value(c)
                    } else {
                        v * 10 + digit_value(c)
                    };
                    if i64_in_range(w) {
                        Ok(w)
                    } else if negative {
                        Err(IntErrorKind::NegOverflow)
                    } else {
                        Err(IntErrorKind::PosOverflow)
                    }
                }
            },
        }
    }
}

/// What `<i64 as FromStr>::from_str` gives for `s`: an optional `+` or `-`
/// followed by decimal digits.
pub open spec fn decimal_i64(s: Seq<char>) -> Result<i64, IntErrorKind> {
    if s.len() == 0 {
        Err(IntErrorKind::Empty)
    } else if s.len() == 1 && (s[0] == '+' || s[0] == '-') {
        Err(IntErrorKind::InvalidDigit)
    } else {
        let negative = s[0] == '-';
        let ds = if s[0] == '+' || s[0] == '-' {
            s.drop_first()
        } else {
            s
        };
        match accumulate_digits(ds, negative) {
            Ok(v) => Ok(v as i64),
            Err(e) => Err(e),
        }
    }
}

/// The decimal digit that stands for `d` (`0 <= d < 10`).
pub open spec fn digit_char(d: int) -> char {
    if d == 0 {
        '0'
    } else if d == 1 {
        '1'
    } else if d == 2 {
        '2'
    } else if d == 3 {
        '3'
    } else if d == 4 {
        '4'
    } else if d == 5 {
        '5'
    } else if d == 6 {
        '6'
    } else if d == 7 {
        '7'
    } else if d == 8 {
        '8'
    } else {
        '9'
    }
}

/// The decimal digits of `m`, without leading zeros (`0` for zero).
pub open spec fn digits_of(m: nat) -> Seq<char>
    decreases m,
{
    if m < 10 {
        seq![digit_char(m as int)]
    } else {
        digits_of(m / 10).push(digit_char((m % 10) as int))
    }
}

/// How an integer is written in decimal, as `i64`'s `Display` writes it: a
/// `-` before the digits of a negative number, no sign otherwise.
pub open spec fn decimal_text(n: int) -> Seq<char> {
    if n < 0 {
        seq!['-'] + digits_of((-n) as nat)
    } else {
        digits_of(n as nat)
    }
}

pub proof fn lemma_digit_char(d: int)
    requires
        0 <= d < 10,
    ensures
        is_ascii_digit(digit_char(d)),
        digit_value(digit_char(d)) == d,
{
}

pub proof fn lemma_digits_of_digits(m: nat)
    ensures
        digits_of(m).len() >= 1,
        forall|i: int| 0 <= i < digits_of(m).len() ==> is_ascii_digit(#[trigger] digits_of(m)[i]),
    decreases m,
{
    if m < 10 {
        lemma_digit_char(m as int);
    } else {
        lemma_digits_of_digits(m / 10);
        lemma_digit_char((m % 10) as int);
        let p = digits_of(m / 10);
        assert forall|i: int| 0 <= i < digits_of(m).len() implies is_ascii_digit(
            #[trigger] digits_of(m)[i],
        ) by {
            if i < p.len() {
                assert(digits_of(m)[i] == p[i]);
            }
        }
    }
}

proof fn lemma_accumulate_digits_of(m: nat, negative: bool)
    requires
        negative ==> m <= 0x8000_0000_0000_0000,
        !negative ==> m <= 0x7fff_ffff_ffff_ffff,
    ensures
        accumulate_digits(digits_of(m), negative) == Ok::<int, IntErrorKind>(
            if negative {
                -m
            } else {
                m as int
            },
        ),
    decreases m,
{
    if m < 10 {
        lemma_digit_char(m as int);
        assert(digits_of(m).drop_last() =~= Seq::<char>::empty());
        assert(accumulate_digits(digits_of(m).drop_last(), negative) == Ok::<int, IntErrorKind>(0));
        assert(digits_of(m).last() == digit_char(m as int));
    } else {
        lemma_accumulate_digits_of(m / 10, negative);
        lemma_digit_char((m % 10) as int);
        let ds = digits_of(m);
        assert(ds.drop_last() =~= digits_of(m / 10));
        assert(ds.last() == digit_char((m % 10) as int));
        assert((m / 10) * 10 + m % 10 == m) by (nonlinear_arith);
        let v: int = if negative { -((m / 10) as int) } else { (m / 10) as int };
        assert(accumulate_digits(ds.drop_last(), negative) == Ok::<int, IntErrorKind>(v));
        let w = if negative { v * 10 - (m % 10) } else { v * 10 + (m % 10) };
        assert(w == if negative { -m } else { m as int });
        assert(i64_in_range(w));
    }
}

/// Every 64-bit integer, written in decimal, reads back as itself.
pub proof fn lemma_decimal_round_trip(n: i64)
    ensures
        decimal_i64(decimal_text(n as int)) == Ok::<i64, IntErrorKind>(n),
{
    lemma_digits_of_digits(if n < 0 { (-n) as nat } else { n as nat });
    if n < 0 {
        let m = (-n) as nat;
        lemma_accumulate_digits_of(m, true);
        let s = decimal_text(n as int);
        assert(s.drop_first() =~= digits_of(m));
        assert(s.len() >= 2);
    } else {
        let m = n as nat;
        lemma_accumulate_digits_of(m, false);
        let s = decimal_text(n as int);
        assert(is_ascii_digit(s[0]));
    }
}

proof fn lemma_accumulate_in_range(ds: Seq<char>, negative: bool)
    ensures
        accumulate_digits(ds, negative) matches Ok(v) ==> i64_in_range(v) && (negative ==> v
            <= 0) && (!negative ==> v >= 0),
    decreases ds.len(),
{
    if ds.len() > 0 {
        lemma_accumulate_in_range(ds.drop_last(), negative);
    }
}

proof fn lemma_accumulate_error_sticks(ds: Seq<char>, k: int, negative: bool)
    requires
        0 <= k <= ds.len(),
        accumulate_digits(ds.subrange(0, k), negative) is Err,
    ensures
        accumulate_digits(ds, negative) == accumulate_digits(ds.subrange(0, k), negative),
    decreases ds.len(),
{
    if k < ds.len() {
        assert(ds.drop_last().subrange(0, k) =~= ds.subrange(0, k));
        lemma_accumulate_error_sticks(ds.drop_last(), k, negative);
    } else {
        assert(ds.subrange(0, k) =~= ds);
    }
}

/// Reads `s` as a signed decimal 64-bit integer, with the outcome of
/// `str::parse::<i64>`.
pub fn parse_decimal_i64(s: &str) -> (r: Result<i64, IntErrorKind>)
    ensures
        r == decimal_i64(s@),
{
    let n = s.unicode_len();
    if n == 0 {
        return Err(IntErrorKind::Empty);
    }
    let first = s.get_char(0);
    if n == 1 && (first == '+' || first == '-') {
        return Err(IntErrorKind::InvalidDigit);
    }
    let negative = first == '-';
    let start: usize = if first == '+' || first == '-' {
        1
    } else {
        0
    };
    let ghost ds = if first == '+' || first == '-' {
        s@.drop_first()
    } else {
        s@
    };
    assert(ds =~= s@.subrange(start as int, n as int));
    let mut acc: i64 = 0;
    let mut i: usize = start;
    while i < n
        invariant
            n == s@.len(),
            start <= i <= n,
            ds =~= s@.subrange(start as int, n as int),
            n > 0,
            negative == (s@[0] == '-'),
            ds == (if s@[0] == '+' || s@[0] == '-' {
                s@.drop_first()
            } else {
                s@
            }),
            !(n == 1 && (s@[0] == '+' || s@[0] == '-')),
            accumulate_digits(ds.subrange(0, i - start), negative) == Ok::<int, IntErrorKind>(
                acc as int,
            ),
            negative ==> acc <= 0,
            !negative ==> acc >= 0,
        decreases n - i,
    {
        let c = s.get_char(i);
        let ghost pre = ds.subrange(0, i - start);
        let ghost next = ds.subrange(0, i + 1 - start);
        assert(next.drop_last() =~= pre);
        assert(next.last() == c);
        if !('0' <= c && c <= '9') {
            proof {
                lemma_accumulate_error_sticks(ds, i + 1 - start, negative);
            }
            return Err(IntErrorKind::InvalidDigit);
        }
        let d = (c as u32 - '0' as u32) as i128;
        let w: i128 = if negative {
            acc as i128 * 10 - d
        } else {
            acc as i128 * 10 + d
        };
        if w < i64::MIN as i128 || w > i64::MAX as i128 {
            proof {
                lemma_accumulate_error_sticks(ds, i + 1 - start, negative);
            }
            if negative {
                return Err(IntErrorKind::NegOverflow);
            } else {
                return Err(IntErrorKind::PosOverflow);
            }
        }
        acc = w as i64;
        i = i + 1;
    }
    assert(ds.subrange(0, n - start) =~= ds);
    Ok(acc)
}

} // verus!

verus! {

pub open spec fn is_sign(c: char) -> bool {
    c == '+' || c == '-'
}

/// `s` without one leading sign character.
pub open spec fn without_sign(s: Seq<char>) -> Seq<char> {
    if s.len() > 0 && is_sign(s[0]) {
        s.drop_first()
    } else {
        s
    }
}

/// Digits with at most one decimal point, and at least one digit.
pub open spec fn is_mantissa(m: Seq<char>) -> bool {
    &&& forall|i: int| 0 <= i < m.len() ==> is_ascii_digit(#[trigger] m[i]) || m[i] == '.'
    &&& forall|i: int, j: int| 0 <= i < j < m.len() ==> !(#[trigger] m[i] == '.' && #[trigger] m[j] == '.')
    &&& exists|i: int| 0 <= i < m.len() && is_ascii_digit(#[trigger] m[i])
}

/// An optional sign followed by one or more digits.
pub open spec fn is_exponent(x: Seq<char>) -> bool {
    &&& without_sign(x).len() > 0
    &&& forall|i: int| 0 <= i < without_sign(x).len() ==> is_ascii_digit(#[trigger] without_sign(x)[i])
}

/// A decimal number in lower case: a mantissa, optionally followed by `e`
/// and an exponent.
pub open spec fn is_decimal_number(b: Seq<char>) -> bool {
    ||| (forall|i: int| 0 <= i < b.len() ==> #[trigger] b[i] != 'e') && is_mantissa(b)
    ||| exists|p: int|
        0 <= p < b.len() && #[trigger] b[p] == 'e' && (forall|i: int| 0 <= i < p ==> b[i] != 'e')
            && is_mantissa(b.take(p)) && is_exponent(b.skip(p + 1))
}

/// The strings that `<f64 as FromStr>::from_str` accepts: those that, in
/// ASCII lower case, are an optional sign followed by `inf`, `infinity`,
/// `nan` or a decimal number.
pub open spec fn is_float_literal(s: Seq<char>) -> bool {
    let b = crate::text::ascii_lower_seq(without_sign(s));
    ||| b == seq!['i', 'n', 'f']
    ||| b == seq!['i', 'n', 'f', 'i', 'n', 'i', 't', 'y']
    ||| b == seq!['n', 'a', 'n']
    ||| is_decimal_number(b)
}

/// Whether `s` is a floating-point literal in the syntax of `str::parse::<f64>`.
pub fn is_float_literal_str(s: &str) -> (r: bool)
    ensures
        r == is_float_literal(s@),
{
    let n = s.unicode_len();
    let start: usize = if n > 0 && (s.get_char(0) == '+' || s.get_char(0) == '-') {
        1
    } else {
        0
    };
    let ghost b = crate::text::ascii_lower_seq(without_sign(s@));
    proof {
        if start == 1 {
            assert(without_sign(s@) =~= s@.subrange(1, n as int));
        } else {
            assert(without_sign(s@) =~= s@);
        }
        assert(b.len() == n - start);
        assert(forall|k: int|
            0 <= k < b.len() ==> #[trigger] b[k] == crate::text::ascii_lower(s@[k + start]));
    }
    let m = n - start;
    // the three words
    if m == 3 || m == 8 {
        let c0 = crate::text::ascii_lower_char(s.get_char(start));
        let c1 = crate::text::ascii_lower_char(s.get_char(start + 1));
        let c2 = crate::text::ascii_lower_char(s.get_char(start + 2));
        if m == 3 && ((c0 == 'i' && c1 == 'n' && c2 == 'f') || (c0 == 'n' && c1 == 'a' && c2
            == 'n')) {
            assert(b =~= seq!['i', 'n', 'f'] || b =~= seq!['n', 'a', 'n']);
            return true;
        }
        if m == 8 && c0 == 'i' && c1 == 'n' && c2 == 'f' {
            let c3 = crate::text::ascii_lower_char(s.get_char(start + 3));
            let c4 = crate::text::ascii_lower_char(s.get_char(start + 4));
            let c5 = crate::text::ascii_lower_char(s.get_char(start + 5));
            let c6 = crate::text::ascii_lower_char(s.get_char(start + 6));
            let c7 = crate::text::ascii_lower_char(s.get_char(start + 7));
            if c3 == 'i' && c4 == 'n' && c5 == 'i' && c6 == 't' && c7 == 'y' {
                assert(b =~= seq!['i', 'n', 'f', 'i', 'n', 'i', 't', 'y']);
                return true;
            }
        }
    }
    proof {
        if m != 3 {
            assert(b.len() != seq!['i', 'n', 'f'].len());
            assert(b.len() != seq!['n', 'a', 'n'].len());
        } else {
            if b == seq!['i', 'n', 'f'] {
                assert(b[0] == 'i' && b[1] == 'n' && b[2] == 'f');
            }
            if b == seq!['n', 'a', 'n'] {
                assert(b[0] == 'n' && b[1] == 'a' && b[2] == 'n');
            }
        }
        if m != 8 {
            assert(b.len() != seq!['i', 'n', 'f', 'i', 'n', 'i', 't', 'y'].len());
        } else if b == seq!['i', 'n', 'f', 'i', 'n', 'i', 't', 'y'] {
            assert(b[0] == 'i' && b[1] == 'n' && b[2] == 'f' && b[3] == 'i' && b[4] == 'n'
                && b[5] == 'i' && b[6] == 't' && b[7] == 'y');
        }
    }
    let ok = scan_decimal(s, start);
    proof {
        if start == 1 {
            assert(without_sign(s@) =~= s@.skip(1));
        } else {
            assert(without_sign(s@) =~= s@.skip(0));
        }
    }
    ok
}

/// Checks `is_decimal_number` on the lower-case form of `s` from `start` on.
fn scan_decimal(s: &str, start: usize) -> (r: bool)
    requires
        start <= s@.len(),
    ensures
        r == is_decimal_number(crate::text::ascii_lower_seq(s@.skip(start as int))),
{
    let n = s.unicode_len();
    let ghost b = crate::text::ascii_lower_seq(s@.skip(start as int));
    assert(b.len() == n - start);
    assert(forall|k: int|
        0 <= k < b.len() ==> #[trigger] b[k] == crate::text::ascii_lower(s@[k + start]));
    let mut i: usize = start;
    let mut seen_dot = false;
    let mut seen_digit = false;
    let ghost mut dot_at: int = 0;
    let ghost mut digit_at: int = 0;
    let mut stop_at_e = false;
    while i < n
        invariant_except_break
            n == s@.len(),
            start <= i <= n,
            b.len() == n - start,
            forall|k: int| 0 <= k < b.len() ==> #[trigger] b[k] == crate::text::ascii_lower(
                s@[k + start],
            ),
            forall|k: int| 0 <= k < i - start ==> is_ascii_digit(#[trigger] b[k]) || b[k] == '.',
            seen_dot ==> 0 <= dot_at < i - start && b[dot_at] == '.',
            forall|k: int| 0 <= k < i - start && b[k] == '.' ==> seen_dot && k == dot_at,
            seen_digit ==> 0 <= digit_at < i - start && is_ascii_digit(b[digit_at]),
            !seen_digit ==> forall|k: int| 0 <= k < i - start ==> !is_ascii_digit(#[trigger] b[k]),
            !stop_at_e,
            b == crate::text::ascii_lower_seq(s@.skip(start as int)),
        ensures
            b == crate::text::ascii_lower_seq(s@.skip(start as int)),
            n == s@.len(),
            start <= i <= n,
            b.len() == n - start,
            forall|k: int| 0 <= k < b.len() ==> #[trigger] b[k] == crate::text::ascii_lower(
                s@[k + start],
            ),
            forall|k: int| 0 <= k < i - start ==> is_ascii_digit(#[trigger] b[k]) || b[k] == '.',
            seen_dot ==> 0 <= dot_at < i - start && b[dot_at] == '.',
            forall|k: int| 0 <= k < i - start && b[k] == '.' ==> seen_dot && k == dot_at,
            seen_digit ==> 0 <= digit_at < i - start && is_ascii_digit(b[digit_at]),
            !seen_digit ==> forall|k: int| 0 <= k < i - start ==> !is_ascii_digit(#[trigger] b[k]),
            stop_at_e ==> i < n && b[i - start] == 'e',
            !stop_at_e ==> i == n,
        decreases n - i,
    {
        let c = crate::text::ascii_lower_char(s.get_char(i));
        assert(c == b[i - start]);
        if c == 'e' {
            stop_at_e = true;
            break;
        }
        if '0' <= c && c <= '9' {
            if !seen_digit {
                proof {
                    digit_at = i - start;
                }
            }
            seen_digit = true;
        } else if c == '.' && !seen_dot {
            proof {
                dot_at = i - start;
            }
            seen_dot = true;
        } else {
            proof {
                let k = i - start;
                assert(!(is_ascii_digit(b[k]) || b[k] == '.') || (b[k] == '.' && b[dot_at]
                    == '.' && dot_at < k));
                lemma_not_decimal_at(b, k, dot_at);
            }
            return false;
        }
        i = i + 1;
    }
    let k = i - start;
    if !seen_digit {
        proof {
            lemma_no_digit_before(b, k as int);
        }
        return false;
    }
    if !stop_at_e {
        proof {
            assert(b.take(k as int) =~= b);
            assert(is_mantissa(b));
        }
        return true;
    }
    // exponent: optional sign then at least one digit
    let mut j: usize = i + 1;
    if j < n && (s.get_char(j) == '+' || s.get_char(j) == '-') {
        j = j + 1;
    }
    let digits_from = j;
    proof {
        if digits_from == i + 2 {
            assert(is_sign(s@[i + 1]));
            assert(b[k + 1] == crate::text::ascii_lower(s@[k + 1 + start]));
            assert(is_sign(b[k + 1]));
        } else if i + 1 < n {
            assert(!is_sign(s@[i + 1]));
        }
    }
    if digits_from == n {
        proof {
            lemma_exponent_empty(b, k as int);
        }
        return false;
    }
    while j < n
        invariant
            n == s@.len(),
            start <= i < digits_from <= j <= n,
            k == i - start,
            b.len() == n - start,
            forall|t: int| 0 <= t < b.len() ==> #[trigger] b[t] == crate::text::ascii_lower(
                s@[t + start],
            ),
            b[k as int] == 'e',
            forall|t: int| 0 <= t < k ==> #[trigger] b[t] != 'e',
            (digits_from == i + 1 && !is_sign(s@[i + 1])) || (digits_from == i + 2 && is_sign(
                s@[i + 1],
            )),
            b == crate::text::ascii_lower_seq(s@.skip(start as int)),
            forall|t: int| digits_from <= t < j ==> is_ascii_digit(#[trigger] s@[t]),
        decreases n - j,
    {
        let c = s.get_char(j);
        if !('0' <= c && c <= '9') {
            proof {
                lemma_exponent_bad(b, k as int, s@, start as int, digits_from as int, j as int);
            }
            return false;
        }
        j = j + 1;
    }
    proof {
        lemma_exponent_good(b, k as int, s@, start as int, digits_from as int, dot_at, digit_at,
            seen_dot);
    }
    true
}

proof fn lemma_not_decimal_at(b: Seq<char>, k: int, dot_at: int)
    requires
        0 <= k < b.len(),
        b[k] != 'e',
        forall|t: int| 0 <= t < k ==> #[trigger] b[t] != 'e',
        !(is_ascii_digit(b[k]) || b[k] == '.') || (b[k] == '.' && 0 <= dot_at < k && b[dot_at]
            == '.'),
    ensures
        !is_decimal_number(b),
{
    if exists|p: int|
        0 <= p < b.len() && #[trigger] b[p] == 'e' && (forall|i: int| 0 <= i < p ==> b[i] != 'e')
            && is_mantissa(b.take(p)) && is_exponent(b.skip(p + 1)) {
        let p = choose|p: int|
            0 <= p < b.len() && #[trigger] b[p] == 'e' && (forall|i: int|
                0 <= i < p ==> b[i] != 'e') && is_mantissa(b.take(p)) && is_exponent(
                b.skip(p + 1),
            );
        assert(p > k);
        let m = b.take(p);
        assert(m[k] == b[k]);
        if b[k] == '.' {
            assert(m[dot_at] == '.');
        }
    }
    if is_mantissa(b) {
        if b[k] == '.' {
            assert(b[dot_at] == '.');
        }
    }
}

proof fn lemma_no_digit_before(b: Seq<char>, k: int)
    requires
        0 <= k <= b.len(),
        forall|t: int| 0 <= t < k ==> !is_ascii_digit(#[trigger] b[t]),
        forall|t: int| 0 <= t < k ==> #[trigger] b[t] != 'e',
        k == b.len() || b[k] == 'e',
    ensures
        !is_decimal_number(b),
{
    if exists|p: int|
        0 <= p < b.len() && #[trigger] b[p] == 'e' && (forall|i: int| 0 <= i < p ==> b[i] != 'e')
            && is_mantissa(b.take(p)) && is_exponent(b.skip(p + 1)) {
        let p = choose|p: int|
            0 <= p < b.len() && #[trigger] b[p] == 'e' && (forall|i: int|
                0 <= i < p ==> b[i] != 'e') && is_mantissa(b.take(p)) && is_exponent(
                b.skip(p + 1),
            );
        assert(p == k);
        let m = b.take(p);
        let w = choose|i: int| 0 <= i < m.len() && is_ascii_digit(#[trigger] m[i]);
        assert(m[w] == b[w]);
    }
    if is_mantissa(b) {
        if k < b.len() {
            assert(b[k] == 'e');
        }
        let w = choose|i: int| 0 <= i < b.len() && is_ascii_digit(#[trigger] b[i]);
        assert(b[w] == b[w]);
    }
}

proof fn lemma_exponent_empty(b: Seq<char>, k: int)
    requires
        0 <= k < b.len(),
        b[k] == 'e',
        forall|t: int| 0 <= t < k ==> #[trigger] b[t] != 'e',
        k + 1 == b.len() || (k + 2 == b.len() && is_sign(b[k + 1])),
    ensures
        !is_decimal_number(b),
{
    assert(b[k] == 'e');
    if exists|p: int|
        0 <= p < b.len() && #[trigger] b[p] == 'e' && (forall|i: int| 0 <= i < p ==> b[i] != 'e')
            && is_mantissa(b.take(p)) && is_exponent(b.skip(p + 1)) {
        let p = choose|p: int|
            0 <= p < b.len() && #[trigger] b[p] == 'e' && (forall|i: int|
                0 <= i < p ==> b[i] != 'e') && is_mantissa(b.take(p)) && is_exponent(
                b.skip(p + 1),
            );
        assert(p == k);
        let x = b.skip(p + 1);
        if x.len() > 0 {
            assert(x[0] == b[k + 1]);
        }
    }
}

proof fn lemma_exponent_bad(b: Seq<char>, k: int, s: Seq<char>, start: int, from: int, j: int)
    requires
        0 <= start,
        b.len() == s.len() - start,
        forall|t: int| 0 <= t < b.len() ==> #[trigger] b[t] == crate::text::ascii_lower(
            s[t + start],
        ),
        0 <= k < b.len(),
        b[k] == 'e',
        forall|t: int| 0 <= t < k ==> #[trigger] b[t] != 'e',
        (from == k + start + 1 && !is_sign(s[k + start + 1])) || (from == k + start + 2
            && is_sign(s[k + start + 1])),
        from <= j < s.len(),
        !is_ascii_digit(s[j]),
    ensures
        !is_decimal_number(b),
{
    assert(b[k] == 'e');
    if exists|p: int|
        0 <= p < b.len() && #[trigger] b[p] == 'e' && (forall|i: int| 0 <= i < p ==> b[i] != 'e')
            && is_mantissa(b.take(p)) && is_exponent(b.skip(p + 1)) {
        let p = choose|p: int|
            0 <= p < b.len() && #[trigger] b[p] == 'e' && (forall|i: int|
                0 <= i < p ==> b[i] != 'e') && is_mantissa(b.take(p)) && is_exponent(
                b.skip(p + 1),
            );
        assert(p == k);
        let x = b.skip(p + 1);
        assert(x[0] == b[k + 1]);
        assert(b[k + 1] == crate::text::ascii_lower(s[k + 1 + start]));
        let y = without_sign(x);
        let off = from - (k + start + 1);
        if off == 0 {
            assert(!is_sign(x[0]));
        }
        assert(y =~= x.skip(off));
        assert(y[j - from] == x[j - from + off]);
        assert(b[j - start] == crate::text::ascii_lower(s[j - start + start]));
    }
}

proof fn lemma_exponent_good(
    b: Seq<char>,
    k: int,
    s: Seq<char>,
    start: int,
    from: int,
    dot_at: int,
    digit_at: int,
    seen_dot: bool,
)
    requires
        0 <= start,
        b.len() == s.len() - start,
        forall|t: int| 0 <= t < b.len() ==> #[trigger] b[t] == crate::text::ascii_lower(
            s[t + start],
        ),
        0 <= k < b.len(),
        b[k] == 'e',
        forall|t: int| 0 <= t < k ==> #[trigger] b[t] != 'e',
        forall|t: int| 0 <= t < k ==> is_ascii_digit(#[trigger] b[t]) || b[t] == '.',
        seen_dot ==> 0 <= dot_at < k && b[dot_at] == '.',
        forall|t: int| 0 <= t < k && b[t] == '.' ==> seen_dot && t == dot_at,
        0 <= digit_at < k && is_ascii_digit(b[digit_at]),
        from == k + start + 1 || (from == k + start + 2 && is_sign(s[k + start + 1])),
        from < s.len(),
        forall|t: int| from <= t < s.len() ==> is_ascii_digit(#[trigger] s[t]),
    ensures
        is_decimal_number(b),
{
    let m = b.take(k);
    assert(m[digit_at] == b[digit_at]);
    assert forall|i: int| 0 <= i < m.len() implies is_ascii_digit(#[trigger] m[i]) || m[i]
        == '.' by {
        assert(m[i] == b[i]);
    }
    assert forall|i: int, j: int| 0 <= i < j < m.len() implies !(#[trigger] m[i] == '.'
        && #[trigger] m[j] == '.') by {
        assert(m[i] == b[i] && m[j] == b[j]);
    }
    assert(is_mantissa(m));
    let x = b.skip(k + 1);
    let off = from - (k + start + 1);
    assert(x[0] == b[k + 1]);
    assert(b[k + 1] == crate::text::ascii_lower(s[k + 1 + start]));
    let y = without_sign(x);
    if off == 1 {
        assert(is_sign(x[0]));
        assert(y =~= x.skip(off));
    } else {
        assert(is_ascii_digit(s[k + 1 + start]));
        assert(!is_sign(x[0]));
        assert(y =~= x.skip(off));
    }
    assert forall|i: int| 0 <= i < y.len() implies is_ascii_digit(#[trigger] y[i]) by {
        assert(y[i] == b[k + 1 + off + i]);
        assert(b[k + 1 + off + i] == crate::text::ascii_lower(s[k + 1 + off + i + start]));
        assert(is_ascii_digit(s[k + 1 + off + i + start]));
    }
    assert(is_exponent(x));
    assert(b[k] == 'e');
}

} // verus!
