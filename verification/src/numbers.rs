//! Decimal numbers as text, both ways.

use vstd::prelude::*;

use crate::strings::to_chars;

verus! {

/// The digit character of `d`, which is below ten.
pub open spec fn digit_char(d: nat) -> char {
    ('0' as u32 + d) as char
}

/// The decimal digits of `n`, without leading zeros.
pub open spec fn decimal(n: nat) -> Seq<char>
    decreases n,
{
    if n < 10 {
        seq![digit_char(n)]
    } else {
        decimal(n / 10).push(digit_char(n % 10))
    }
}

/// The decimal digits of `n`.
pub fn decimal_string(n: u64) -> (r: String)
    ensures
        r@ == decimal(n as nat),
    decreases n,
{
    let mut out = if n < 10 {
        String::new()
    } else {
        decimal_string(n / 10)
    };
    out.push((48 + (n % 10) as u8) as char);
    out
}

/// Whether `c` is one of the ten ASCII digits.
pub open spec fn is_digit(c: char) -> bool {
    '0' <= c <= '9'
}

/// The value of a digit.
pub open spec fn digit_value(c: char) -> int {
    c as u32 - '0' as u32
}

/// Whether every character of `s` is a digit.
pub open spec fn all_digits(s: Seq<char>) -> bool {
    forall|i: int| 0 <= i < s.len() ==> is_digit(#[trigger] s[i])
}

/// The number that the digits of `s` write.
pub open spec fn number(s: Seq<char>) -> int
    decreases s.len(),
{
    if s.len() == 0 {
        0
    } else {
        number(s.drop_last()) * 10 + digit_value(s.last())
    }
}

/// Why a text is no number of 32 bits.
#[derive(Debug, Clone, Copy, PartialEq, Eq, Structural)]
pub enum NumberError {
    /// There is no text.
    Empty,
    /// A character is no digit, or there is none behind the sign.
    InvalidDigit,
    /// The number does not fit.
    TooLarge,
}

impl NumberError {
    /// The words for this error.
    pub open spec fn text(self) -> Seq<char> {
        match self {
            NumberError::Empty => "cannot parse integer from empty string"@,
            NumberError::InvalidDigit => "invalid digit found in string"@,
            NumberError::TooLarge => "number too large to fit in target type"@,
        }
    }

    /// The words for this error.
    pub fn message(self) -> (r: &'static str)
        ensures
            r@ == self.text(),
    {
        match self {
            NumberError::Empty => "cannot parse integer from empty string",
            NumberError::InvalidDigit => "invalid digit found in string",
            NumberError::TooLarge => "number too large to fit in target type",
        }
    }
}

/// `s` without a plus sign in front.
pub open spec fn unsigned_part(s: Seq<char>) -> Seq<char> {
    if s.len() > 0 && s[0] == '+' {
        s.drop_first()
    } else {
        s
    }
}

/// Reading `digits` from the left, whether the first thing that stops it is a
/// character that is no digit.
pub open spec fn stops_at_non_digit(digits: Seq<char>) -> bool {
    exists|i: int|
        0 <= i < digits.len() && !is_digit(#[trigger] digits[i]) && all_digits(digits.take(i))
            && number(digits.take(i)) <= u32::MAX
}

/// The number that `s` writes: an optional plus sign, then at least one digit,
/// with a value of at most 32 bits; else what is wrong with it.
pub open spec fn parsed_u32(s: Seq<char>) -> Result<u32, NumberError> {
    let digits = unsigned_part(s);
    if s.len() == 0 {
        Err(NumberError::Empty)
    } else if digits.len() == 0 || stops_at_non_digit(digits) {
        Err(NumberError::InvalidDigit)
    } else if number(digits) > u32::MAX || !all_digits(digits) {
        Err(NumberError::TooLarge)
    } else {
        Ok(number(digits) as u32)
    }
}

/// More digits never make a number smaller.
proof fn lemma_number_grows(s: Seq<char>, i: int)
    requires
        0 <= i <= s.len(),
        all_digits(s),
    ensures
        0 <= number(s.take(i)) <= number(s),
    decreases s.len() - i, s.len(),
{
    if s.len() == 0 {
        assert(s.take(i) == s);
    } else if i == s.len() {
        assert(s.take(i) == s);
        let t = s.drop_last();
        assert forall|k: int| 0 <= k < t.len() implies is_digit(#[trigger] t[k]) by {
            assert(t[k] == s[k]);
        }
        assert(is_digit(s[s.len() - 1]));
        lemma_number_grows(t, t.len() as int);
        assert(t.take(t.len() as int) == t);
    } else {
        let t = s.take(i + 1);
        lemma_number_grows(s, i + 1);
        assert forall|k: int| 0 <= k < t.len() implies is_digit(#[trigger] t[k]) by {
            assert(t[k] == s[k]);
        }
        assert(t.drop_last() == s.take(i));
        assert(is_digit(s[i]));
        let u = s.take(i);
        assert forall|k: int| 0 <= k < u.len() implies is_digit(#[trigger] u[k]) by {
            assert(u[k] == s[k]);
        }
    }
}

/// Parse a decimal number of 32 bits.
pub fn parse_u32(s: &str) -> (r: Result<u32, NumberError>)
    ensures
        r == parsed_u32(s@),
{
    let v = to_chars(s);
    if v.len() == 0 {
        return Err(NumberError::Empty);
    }
    let start: usize = if v[0] == '+' {
        1
    } else {
        0
    };
    let ghost digits = unsigned_part(s@);
    assert(digits == v@.skip(start as int));
    if start == v.len() {
        return Err(NumberError::InvalidDigit);
    }
    let mut n: u64 = 0;
    let mut i: usize = start;
    while i < v.len()
        invariant
            start <= i <= v@.len(),
            digits == v@.skip(start as int),
            s@ == v@,
            s@.len() > 0,
            digits.len() > 0,
            digits == unsigned_part(s@),
            all_digits(digits.take(i - start)),
            n == number(digits.take(i - start)),
            n <= u32::MAX,
        decreases v@.len() - i,
    {
        let c = v[i];
        let ghost k = i - start;
        assert(digits[k] == c);
        if !('0' <= c && c <= '9') {
            assert(stops_at_non_digit(digits));
            return Err(NumberError::InvalidDigit);
        }
        let ghost upto = digits.take(k + 1);
        assert(upto.drop_last() == digits.take(k));
        assert forall|j: int| 0 <= j < upto.len() implies is_digit(#[trigger] upto[j]) by {
            if j < k {
                assert(upto[j] == digits.take(k)[j]);
            }
        }
        n = n * 10 + (c as u32 - '0' as u32) as u64;
        if n > u32::MAX as u64 {
            proof {
                lemma_too_large(digits, k + 1);
            }
            return Err(NumberError::TooLarge);
        }
        i += 1;
    }
    assert(digits.take(i - start) == digits);
    assert forall|j: int| 0 <= j < digits.len() implies is_digit(#[trigger] digits[j]) by {}
    Ok(n as u32)
}

/// A run of digits in front that is too large leaves nothing but that to report.
proof fn lemma_too_large(digits: Seq<char>, n: int)
    requires
        0 <= n <= digits.len(),
        all_digits(digits.take(n)),
        number(digits.take(n)) > u32::MAX,
    ensures
        !stops_at_non_digit(digits),
        number(digits) > u32::MAX || !all_digits(digits),
{
    let front = digits.take(n);
    if stops_at_non_digit(digits) {
        let i = choose|i: int|
            0 <= i < digits.len() && !is_digit(#[trigger] digits[i]) && all_digits(digits.take(i))
                && number(digits.take(i)) <= u32::MAX;
        if i < n {
            assert(is_digit(front[i]));
        } else {
            lemma_number_grows(digits.take(i), n);
            assert(digits.take(i).take(n) == front);
        }
    }
    if all_digits(digits) {
        lemma_number_grows(digits, n);
    }
}

proof fn lemma_decimal(n: nat)
    ensures
        decimal(n).len() > 0,
        all_digits(decimal(n)),
        number(decimal(n)) == n,
    decreases n,
{
    if n < 10 {
        let s = decimal(n);
        assert(s.drop_last() == Seq::<char>::empty());
        assert(number(s.drop_last()) == 0);
        assert(s.last() == digit_char(n));
    } else {
        lemma_decimal(n / 10);
        let front = decimal(n / 10);
        let s = decimal(n);
        assert(s.drop_last() == front);
        assert forall|i: int| 0 <= i < s.len() implies is_digit(#[trigger] s[i]) by {
            if i < front.len() {
                assert(s[i] == front[i]);
            }
        }
    }
}

/// What a number is written as reads back as that number.
pub proof fn law_decimal_round_trips(n: u32)
    ensures
        parsed_u32(decimal(n as nat)) == Ok::<u32, NumberError>(n),
{
    let s = decimal(n as nat);
    lemma_decimal(n as nat);
    assert(is_digit(s[0]));
    assert(unsigned_part(s) == s);
    assert(!stops_at_non_digit(s));
}

/// A number is read position by position, in tens.
pub proof fn law_number_is_positional(s: Seq<char>, c: char)
    requires
        '0' <= c <= '9',
    ensures
        number(Seq::empty()) == 0,
        number(s.push(c)) == 10 * number(s) + (c as u32 - '0' as u32),
{
    assert(s.push(c).drop_last() == s);
}

/// A number is written with the ten digits alone, at least one of them and none too
/// many in front, so that they read as that number.
pub proof fn law_decimal_is_canonical(n: nat)
    ensures
        decimal(n).len() > 0,
        forall|i: int| 0 <= i < decimal(n).len() ==> '0' <= #[trigger] decimal(n)[i] <= '9',
        decimal(n).len() > 1 ==> decimal(n)[0] != '0',
        number(decimal(n)) == n,
    decreases n,
{
    lemma_decimal(n);
    let s = decimal(n);
    assert forall|i: int| 0 <= i < s.len() implies '0' <= #[trigger] s[i] <= '9' by {
        assert(is_digit(s[i]));
    }
    if n >= 10 {
        law_decimal_is_canonical(n / 10);
        let front = decimal(n / 10);
        assert(s[0] == front[0]);
        if front.len() == 1 && front[0] == '0' {
            assert(front.drop_last() == Seq::<char>::empty());
            assert(number(front.drop_last()) == 0);
            assert(number(front) == 0);
        }
    }
}

/// Whether `d` is made of digits alone, at least one.
pub open spec fn is_numeral(d: Seq<char>) -> bool {
    d.len() > 0 && forall|i: int| 0 <= i < d.len() ==> '0' <= #[trigger] d[i] <= '9'
}

/// Exactly the numerals read as numbers, with a plus sign in front or without, as far
/// as they fit.
pub proof fn law_numerals_are_read(s: Seq<char>, n: u32)
    ensures
        parsed_u32(s) == Ok::<u32, NumberError>(n) <==> exists|d: Seq<char>|
            (s == d || s == seq!['+'] + d) && #[trigger] is_numeral(d) && number(d) == n,
{
    if parsed_u32(s) == Ok::<u32, NumberError>(n) {
        let d = unsigned_part(s);
        if s[0] == '+' {
            assert(s == seq!['+'] + d);
        }
        assert forall|i: int| 0 <= i < d.len() implies '0' <= #[trigger] d[i] <= '9' by {
            assert(is_digit(d[i]));
        }
        lemma_number_grows(d, d.len() as int);
        assert(is_numeral(d));
    }
    if exists|d: Seq<char>|
        (s == d || s == seq!['+'] + d) && #[trigger] is_numeral(d) && number(d) == n {
        let d = choose|d: Seq<char>|
            (s == d || s == seq!['+'] + d) && #[trigger] is_numeral(d) && number(d) == n;
        assert('0' <= d[0] <= '9');
        if s == seq!['+'] + d {
            assert(s.drop_first() == d);
        }
        assert(unsigned_part(s) == d);
        assert(all_digits(d));
        assert(!stops_at_non_digit(d));
    }
}

/// What is wrong with a text that is no number: it is empty; its digits make too large a
/// number, whatever follows them; or else a character is no digit.
pub proof fn law_what_is_wrong_with_a_number(d: Seq<char>, c: char, rest: Seq<char>)
    requires
        forall|i: int| 0 <= i < d.len() ==> '0' <= #[trigger] d[i] <= '9',
        !('0' <= c <= '9'),
    ensures
        parsed_u32(Seq::empty()) == Err::<u32, NumberError>(NumberError::Empty),
        parsed_u32(seq!['+']) == Err::<u32, NumberError>(NumberError::InvalidDigit),
        number(d) > u32::MAX ==> parsed_u32(d + rest) == Err::<u32, NumberError>(
            NumberError::TooLarge,
        ) && parsed_u32(seq!['+'] + d + rest) == Err::<u32, NumberError>(NumberError::TooLarge),
        number(d) <= u32::MAX && (d.len() > 0 || c != '+') ==> parsed_u32(d + seq![c] + rest)
            == Err::<u32, NumberError>(NumberError::InvalidDigit),
        number(d) <= u32::MAX ==> parsed_u32(seq!['+'] + d + seq![c] + rest) == Err::<
            u32,
            NumberError,
        >(NumberError::InvalidDigit),
{
    assert(all_digits(d));
    let plus = seq!['+'];
    assert(unsigned_part(plus).len() == 0);
    if number(d) > u32::MAX {
        assert(d.len() > 0) by {
            if d.len() == 0 {
                assert(number(d) == 0);
            }
        }
        let x = d + rest;
        let y = plus + d + rest;
        assert(x[0] == d[0]);
        assert(unsigned_part(x) == x);
        assert(y.drop_first() == x);
        assert(unsigned_part(y) == x);
        assert(x.take(d.len() as int) == d);
        lemma_too_large(x, d.len() as int);
    } else {
        let x = d + seq![c] + rest;
        let y = plus + d + seq![c] + rest;
        let k = d.len() as int;
        assert(x.take(k) == d);
        assert(x[k] == c);
        assert(!is_digit(x[k]));
        assert(stops_at_non_digit(x));
        assert(y.drop_first() == x);
        assert(unsigned_part(y) == x);
        if d.len() > 0 {
            assert(x[0] == d[0]);
        }
        if d.len() > 0 || c != '+' {
            assert(unsigned_part(x) == x);
        }
    }
}

/// The words for a text that is no number.
pub proof fn law_words_for_no_number()
    ensures
        NumberError::Empty.text() == "cannot parse integer from empty string"@,
        NumberError::InvalidDigit.text() == "invalid digit found in string"@,
        NumberError::TooLarge.text() == "number too large to fit in target type"@,
{
}

} // verus!
