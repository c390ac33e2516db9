//! Numbers as the manifest writes them: signed decimal integers, and reals
//! in decimal notation.

use vstd::prelude::*;

verus! {

pub open spec fn is_digit(c: char) -> bool {
    '0' <= c && c <= '9'
}

pub open spec fn digit_value(c: char) -> int {
    c as int - '0' as int
}

pub open spec fn all_digits(s: Seq<char>) -> bool {
    forall|k: int| 0 <= k < s.len() ==> is_digit(#[trigger] s[k])
}

/// The number that a string of decimal digits denotes; the empty string
/// denotes zero.
pub open spec fn decimal_value(s: Seq<char>) -> int
    decreases s.len(),
{
    if s.len() == 0 {
        0
    } else {
        decimal_value(s.drop_last()) * 10 + digit_value(s.last())
    }
}

pub open spec fn is_negative(s: Seq<char>) -> bool {
    s.len() > 0 && s[0] == '-'
}

pub open spec fn has_sign(s: Seq<char>) -> bool {
    s.len() > 0 && (s[0] == '+' || s[0] == '-')
}

/// What is left of a number once one leading `+` or `-` is taken away.
pub open spec fn unsigned_part(s: Seq<char>) -> Seq<char> {
    if has_sign(s) {
        s.skip(1)
    } else {
        s
    }
}

pub open spec fn signed_value(s: Seq<char>) -> int {
    if is_negative(s) {
        -decimal_value(unsigned_part(s))
    } else {
        decimal_value(unsigned_part(s))
    }
}

/// The integer that a token denotes: an optional sign, then one or more
/// decimal digits, the whole within the range of 32-bit signed integers.
/// Any other token denotes none.
pub open spec fn parse_integer(s: Seq<char>) -> Option<i32> {
    let body = unsigned_part(s);
    if body.len() > 0 && all_digits(body) && i32::MIN <= signed_value(s) <= i32::MAX {
        Some(signed_value(s) as i32)
    } else {
        None
    }
}

/// Number of decimal digits in `s` from position `i` on, up to the first
/// character that is no digit.
pub open spec fn digit_run(s: Seq<char>, i: int) -> nat
    decreases s.len() - i,
{
    if 0 <= i < s.len() && is_digit(s[i]) {
        1 + digit_run(s, i + 1)
    } else {
        0
    }
}

/// `c` is the letter given in lower case as `lo` and in upper case as `up`.
pub open spec fn is_letter(c: char, lo: char, up: char) -> bool {
    c == lo || c == up
}

/// From position `i` to the end, `s` is an exponent: the letter `e`, an
/// optional sign, and one or more digits.
pub open spec fn is_exponent(s: Seq<char>, i: int) -> bool {
    &&& 0 <= i < s.len()
    &&& is_letter(s[i], 'e', 'E')
    &&& {
        let d = if i + 1 < s.len() && (s[i + 1] == '+' || s[i + 1] == '-') {
            i + 2
        } else {
            i + 1
        };
        digit_run(s, d) >= 1 && d + digit_run(s, d) == s.len()
    }
}

/// `s` is an unsigned decimal number: digits with at most one point among
/// them, at least one digit before or after the point, and an optional
/// exponent.
pub open spec fn is_decimal_number(s: Seq<char>) -> bool {
    let whole: int = digit_run(s, 0) as int;
    let point = whole < s.len() && s[whole] == '.';
    let fraction: int = if point {
        digit_run(s, whole + 1) as int
    } else {
        0
    };
    let mantissa_end: int = if point {
        whole + 1 + fraction
    } else {
        whole
    };
    whole + fraction >= 1 && (mantissa_end == s.len() || is_exponent(s, mantissa_end))
}

/// `s` is a real in decimal notation: an optional sign, then a decimal
/// number. Words that stand for no number, such as `nan`, `inf` and
/// `infinity`, are no reals.
pub open spec fn is_real(s: Seq<char>) -> bool {
    is_decimal_number(unsigned_part(s))
}

/// `s` is a real that is not negative: a real that does not carry a minus
/// sign. A duration is written so.
pub open spec fn is_duration(s: Seq<char>) -> bool {
    is_real(s) && !is_negative(s)
}

/// A run of digits never reaches past the end of the text; it holds
/// digits only, and what follows it is no digit.
pub proof fn lemma_digit_run_bound(s: Seq<char>, i: int)
    requires
        0 <= i <= s.len(),
    ensures
        i + digit_run(s, i) <= s.len(),
        forall|k: int| i <= k < i + digit_run(s, i) ==> is_digit(#[trigger] s[k]),
        i + digit_run(s, i) < s.len() ==> !is_digit(s[i + digit_run(s, i)]),
    decreases s.len() - i,
{
    if i < s.len() && is_digit(s[i]) {
        lemma_digit_run_bound(s, i + 1);
    }
}

/// Where `n` digits stand from position `i` on, and no digit follows
/// them, the run of digits at `i` has length `n`.
pub proof fn lemma_digit_run_is(s: Seq<char>, i: int, n: int)
    requires
        0 <= i,
        0 <= n,
        i + n <= s.len(),
        forall|k: int| i <= k < i + n ==> is_digit(#[trigger] s[k]),
        i + n == s.len() || !is_digit(s[i + n]),
    ensures
        digit_run(s, i) == n,
    decreases n,
{
    if n > 0 {
        lemma_digit_run_is(s, i + 1, n - 1);
    }
}

/// A sign as a text: nothing, `+` or `-`.
pub open spec fn is_sign_text(s: Seq<char>) -> bool {
    s.len() == 0 || (s.len() == 1 && (s[0] == '+' || s[0] == '-'))
}

/// An exponent as a text: nothing, or the letter `e`, a sign and one or
/// more digits.
pub open spec fn is_exponent_text(x: Seq<char>) -> bool {
    x.len() == 0 || exists|sign: Seq<char>, digits: Seq<char>|
        {
            &&& is_letter(x[0], 'e', 'E')
            &&& is_sign_text(sign)
            &&& digits.len() > 0
            &&& all_digits(digits)
            &&& x == #[trigger] (seq![x[0]] + sign + digits)
        }
}

/// The text of a number: the digits before the point, the point if
/// there is one, the digits after it, and the exponent.
pub open spec fn number_text(
    whole: Seq<char>,
    point: bool,
    fraction: Seq<char>,
    exponent: Seq<char>,
) -> Seq<char> {
    whole + (if point {
        seq!['.']
    } else {
        Seq::empty()
    }) + fraction + exponent
}

/// The parts are those of a number: digits before and after the point,
/// at least one digit in all, digits after the point only where there is a
/// point, and an exponent or none.
pub open spec fn is_number_parts(
    whole: Seq<char>,
    point: bool,
    fraction: Seq<char>,
    exponent: Seq<char>,
) -> bool {
    &&& all_digits(whole)
    &&& all_digits(fraction)
    &&& point || fraction.len() == 0
    &&& whole.len() + fraction.len() >= 1
    &&& is_exponent_text(exponent)
}

/// What is written by the grammar of numbers is a decimal number.
pub proof fn lemma_number_text_is_number(
    whole: Seq<char>,
    point: bool,
    fraction: Seq<char>,
    exponent: Seq<char>,
)
    requires
        is_number_parts(whole, point, fraction, exponent),
    ensures
        is_decimal_number(number_text(whole, point, fraction, exponent)),
{
    let s = number_text(whole, point, fraction, exponent);
    let w = whole.len() as int;
    let f = fraction.len() as int;
    let dot: int = if point {
        1
    } else {
        0
    };
    let m = w + dot + f;
    assert(s.len() == m + exponent.len());
    assert forall|k: int| 0 <= k < w implies is_digit(#[trigger] s[k]) by {
        assert(s[k] == whole[k]);
    }
    assert forall|k: int| w + dot <= k < m implies is_digit(#[trigger] s[k]) by {
        assert(s[k] == fraction[k - w - dot]);
    }
    if point {
        assert(s[w] == '.');
    }
    if exponent.len() > 0 {
        assert(s[m] == exponent[0]);
        let (sign, digits) = choose|sign: Seq<char>, digits: Seq<char>|
            {
                &&& is_letter(exponent[0], 'e', 'E')
                &&& is_sign_text(sign)
                &&& digits.len() > 0
                &&& all_digits(digits)
                &&& exponent == #[trigger] (seq![exponent[0]] + sign + digits)
            };
        let d = m + 1 + sign.len();
        assert(exponent.len() == 1 + sign.len() + digits.len());
        assert forall|k: int| d <= k < s.len() implies is_digit(#[trigger] s[k]) by {
            assert(s[k] == exponent[k - m]);
            assert(exponent[k - m] == digits[k - d]);
        }
        if sign.len() == 1 {
            assert(s[m + 1] == exponent[1]);
            assert(exponent[1] == sign[0]);
        } else {
            assert(s[m + 1] == exponent[1]);
            assert(exponent[1] == digits[0]);
        }
        lemma_digit_run_is(s, d, digits.len() as int);
    }
    if point {
        lemma_digit_run_is(s, 0, w);
        lemma_digit_run_is(s, w + 1, f);
    } else {
        assert(f == 0);
        lemma_digit_run_is(s, 0, w);
    }
}

/// A decimal number is written by the grammar of numbers: it has the
/// parts of a number.
pub proof fn lemma_number_has_parts(s: Seq<char>)
    requires
        is_decimal_number(s),
    ensures
        exists|whole: Seq<char>, point: bool, fraction: Seq<char>, exponent: Seq<char>|
            is_number_parts(whole, point, fraction, exponent) && s == #[trigger] number_text(
                whole,
                point,
                fraction,
                exponent,
            ),
{
    lemma_digit_run_bound(s, 0);
    let w = digit_run(s, 0) as int;
    let point = w < s.len() && s[w] == '.';
    if point {
        lemma_digit_run_bound(s, w + 1);
    }
    let f: int = if point {
        digit_run(s, w + 1) as int
    } else {
        0
    };
    let dot: int = if point {
        1
    } else {
        0
    };
    let m = w + dot + f;
    let whole = s.subrange(0, w);
    let fraction = s.subrange(w + dot, m);
    let exponent = s.subrange(m, s.len() as int);
    assert(s =~= number_text(whole, point, fraction, exponent));
    assert(all_digits(whole));
    assert(all_digits(fraction)) by {
        assert forall|k: int| 0 <= k < fraction.len() implies is_digit(#[trigger] fraction[k]) by {
            assert(fraction[k] == s[w + dot + k]);
        }
    }
    if exponent.len() > 0 {
        assert(is_exponent(s, m));
        let signed = m + 1 < s.len() && (s[m + 1] == '+' || s[m + 1] == '-');
        let d = if signed {
            m + 2
        } else {
            m + 1
        };
        lemma_digit_run_bound(s, d);
        let sign = s.subrange(m + 1, d);
        let digits = s.subrange(d, s.len() as int);
        assert(exponent[0] == s[m]);
        assert(all_digits(digits)) by {
            assert forall|k: int| 0 <= k < digits.len() implies is_digit(#[trigger] digits[k]) by {
                assert(digits[k] == s[d + k]);
            }
        }
        assert(exponent =~= seq![exponent[0]] + sign + digits);
        assert(is_exponent_text(exponent));
    }
    assert(is_number_parts(whole, point, fraction, exponent));
}

/// The characters that a real in decimal notation is written with.
pub open spec fn is_number_char(c: char) -> bool {
    is_digit(c) || c == '.' || c == 'e' || c == 'E' || c == '+' || c == '-'
}

/// A decimal number holds a digit, and nothing but digits, a point, the
/// letter of the exponent and the exponent's sign.
pub proof fn lemma_number_shape(s: Seq<char>)
    requires
        is_decimal_number(s),
    ensures
        exists|k: int| 0 <= k < s.len() && is_digit(#[trigger] s[k]),
        forall|k: int| 0 <= k < s.len() ==> is_number_char(#[trigger] s[k]),
        s.len() > 0 && s[0] != '-' && s[0] != '+',
{
    lemma_digit_run_bound(s, 0);
    let w = digit_run(s, 0) as int;
    let point = w < s.len() && s[w] == '.';
    if point {
        lemma_digit_run_bound(s, w + 1);
    }
    let f: int = if point {
        digit_run(s, w + 1) as int
    } else {
        0
    };
    let m: int = if point {
        w + 1 + f
    } else {
        w
    };
    if w >= 1 {
        assert(is_digit(s[0]));
    } else {
        assert(is_digit(s[w + 1]));
    }
    if m < s.len() {
        assert(is_exponent(s, m));
        let d = if m + 1 < s.len() && (s[m + 1] == '+' || s[m + 1] == '-') {
            m + 2
        } else {
            m + 1
        };
        lemma_digit_run_bound(s, d);
    }
}

/// A duration is a number that is not negative: it holds a digit, it is
/// written with the characters of numbers only, and it carries no minus
/// sign. So no word is a duration, `nan`, `inf` and `infinity` no more
/// than any other.
pub proof fn lemma_duration_shape(s: Seq<char>)
    requires
        is_duration(s),
    ensures
        s.len() > 0 && s[0] != '-',
        is_decimal_number(unsigned_part(s)),
        exists|k: int| 0 <= k < s.len() && is_digit(#[trigger] s[k]),
        forall|k: int| 0 <= k < s.len() ==> is_number_char(#[trigger] s[k]),
{
    let body = unsigned_part(s);
    lemma_number_shape(body);
    let shift: int = if has_sign(s) {
        1
    } else {
        0
    };
    let j = choose|j: int| 0 <= j < body.len() && is_digit(#[trigger] body[j]);
    assert(s[j + shift] == body[j]);
    assert forall|k: int| 0 <= k < s.len() implies is_number_char(#[trigger] s[k]) by {
        if k >= shift {
            assert(s[k] == body[k - shift]);
        }
    }
}

pub fn is_digit_char(c: char) -> (r: bool)
    ensures
        r == is_digit(c),
{
    '0' <= c && c <= '9'
}

fn digit_of(c: char) -> (d: i64)
    requires
        is_digit(c),
    ensures
        d == digit_value(c),
        0 <= d <= 9,
{
    (c as u32 - '0' as u32) as i64
}

/// Digits denote a number that is never negative, and a longer string of
/// digits denotes no smaller number than the part it starts with.
pub proof fn lemma_decimal_value_grows(s: Seq<char>, k: int)
    requires
        all_digits(s),
        0 <= k <= s.len(),
    ensures
        0 <= decimal_value(s.take(k)) <= decimal_value(s),
    decreases s.len(),
{
    if k == s.len() {
        assert(s.take(k) =~= s);
        if s.len() > 0 {
            lemma_decimal_value_grows(s.drop_last(), k - 1);
            assert(s.drop_last().take(k - 1) =~= s.drop_last());
        }
    } else {
        lemma_decimal_value_grows(s.drop_last(), k);
        assert(s.drop_last().take(k) =~= s.take(k));
    }
}

/// Reads the token between `start` and `end` as a signed 32-bit integer.
pub fn parse_i32(chars: &Vec<char>, start: usize, end: usize) -> (r: Option<i32>)
    requires
        start <= end <= chars@.len(),
    ensures
        r == parse_integer(chars@.subrange(start as int, end as int)),
{
    let ghost token = chars@.subrange(start as int, end as int);
    let ghost body = unsigned_part(token);
    if start == end {
        return None;
    }
    let first = chars[start];
    let negative = first == '-';
    let from: usize = if first == '-' || first == '+' {
        start + 1
    } else {
        start
    };
    assert(body =~= chars@.subrange(from as int, end as int));
    if from == end {
        return None;
    }
    let mut acc: i64 = 0;
    let mut k: usize = from;
    while k < end
        invariant
            start <= from <= k <= end <= chars@.len(),
            token == chars@.subrange(start as int, end as int),
            body == unsigned_part(token),
            body == chars@.subrange(from as int, end as int),
            all_digits(body.take(k - from)),
            acc == decimal_value(body.take(k - from)),
            0 <= acc <= 2147483648,
        decreases end - k,
    {
        let c = chars[k];
        assert(c == body[k - from]);
        if !is_digit_char(c) {
            assert(!all_digits(body));
            return None;
        }
        let next: i64 = acc * 10 + digit_of(c);
        proof {
            let longer = body.take(k - from + 1);
            assert(longer.drop_last() =~= body.take(k - from));
            assert(longer.last() == c);
            assert(next == decimal_value(longer));
            assert(all_digits(longer)) by {
                assert forall|j: int| 0 <= j < longer.len() implies is_digit(
                    #[trigger] longer[j],
                ) by {
                    if j < k - from {
                        assert(longer[j] == body.take(k - from)[j]);
                    }
                }
            }
            if all_digits(body) {
                lemma_decimal_value_grows(body, k - from + 1);
            }
        }
        if next > 2147483648 {
            assert(all_digits(body) ==> decimal_value(body) > 2147483648);
            return None;
        }
        acc = next;
        k += 1;
    }
    assert(body.take(k - from) =~= body);
    if negative {
        Some((-acc) as i32)
    } else if acc <= 2147483647 {
        Some(acc as i32)
    } else {
        None
    }
}

/// Counts the digits that stand at `from` and after it, before `end`.
fn count_digits(chars: &Vec<char>, start: usize, from: usize, end: usize) -> (n: usize)
    requires
        start <= from <= end <= chars@.len(),
    ensures
        n == digit_run(chars@.subrange(start as int, end as int), from - start),
        from + n <= end,
{
    let ghost token = chars@.subrange(start as int, end as int);
    let mut k: usize = from;
    while k < end && is_digit_char(chars[k])
        invariant
            from <= k <= end <= chars@.len(),
            start <= from,
            token == chars@.subrange(start as int, end as int),
            digit_run(token, from - start) == (k - from) + digit_run(token, k - start),
        decreases end - k,
    {
        assert(token[k - start] == chars@[k as int]);
        k += 1;
    }
    proof {
        if k < end {
            assert(token[k - start] == chars@[k as int]);
        }
    }
    k - from
}

fn is_letter_char(c: char, lo: char, up: char) -> (r: bool)
    ensures
        r == is_letter(c, lo, up),
{
    c == lo || c == up
}

/// Tells whether the characters between `from` and `end` are an unsigned
/// decimal number.
fn is_number_text(chars: &Vec<char>, from: usize, end: usize) -> (r: bool)
    requires
        from <= end <= chars@.len(),
    ensures
        r == is_decimal_number(chars@.subrange(from as int, end as int)),
{
    let ghost s = chars@.subrange(from as int, end as int);
    let whole = count_digits(chars, from, from, end);
    let mut at: usize = from + whole;
    let mut digits: usize = whole;
    if at < end && chars[at] == '.' {
        assert(s[whole as int] == chars@[at as int]);
        let fraction = count_digits(chars, from, at + 1, end);
        digits = whole + fraction;
        at = at + 1 + fraction;
    } else {
        proof {
            if at < end {
                assert(s[whole as int] == chars@[at as int]);
            }
        }
    }
    if digits == 0 {
        return false;
    }
    if at == end {
        return true;
    }
    assert(s[at - from] == chars@[at as int]);
    if !is_letter_char(chars[at], 'e', 'E') {
        return false;
    }
    let mut d: usize = at + 1;
    if d < end {
        assert(s[d - from] == chars@[d as int]);
        if chars[d] == '+' || chars[d] == '-' {
            d = d + 1;
        }
    }
    let exponent = count_digits(chars, from, d, end);
    exponent >= 1 && d + exponent == end
}

/// Tells whether the token between `start` and `end` is a duration: a
/// decimal number with no sign or with a plus sign.
pub fn is_duration_token(chars: &Vec<char>, start: usize, end: usize) -> (r: bool)
    requires
        start <= end <= chars@.len(),
    ensures
        r == is_duration(chars@.subrange(start as int, end as int)),
{
    let ghost token = chars@.subrange(start as int, end as int);
    if start == end {
        assert(digit_run(token, 0) == 0);
        return false;
    }
    assert(token[0] == chars@[start as int]);
    let first = chars[start];
    if first == '-' {
        return false;
    }
    let from: usize = if first == '+' {
        start + 1
    } else {
        start
    };
    assert(unsigned_part(token) =~= chars@.subrange(from as int, end as int));
    is_number_text(chars, from, end)
}

} // verus!
