//! Unsigned decimal numbers in text.

use vstd::prelude::*;
use crate::text::{chars, digit, is_digit};

verus! {

/// Why a text is no number.
#[derive(Clone, Copy, Debug, PartialEq, Eq, Structural)]
pub enum NumberError {
    /// There is no text.
    Empty,
    /// A character is no digit.
    InvalidDigit,
    /// The number is above the greatest one allowed.
    TooLarge,
}

impl NumberError {
    /// The words for the error.
    pub open spec fn text(self) -> Seq<char> {
        match self {
            NumberError::Empty => "cannot parse integer from empty string"@,
            NumberError::InvalidDigit => "invalid digit found in string"@,
            NumberError::TooLarge => "number too large to fit in target type"@,
        }
    }

    /// The words for the error.
    pub fn message(&self) -> (r: String)
        ensures
            r@ == self.text(),
    {
        match self {
            NumberError::Empty => "cannot parse integer from empty string".to_owned(),
            NumberError::InvalidDigit => "invalid digit found in string".to_owned(),
            NumberError::TooLarge => "number too large to fit in target type".to_owned(),
        }
    }
}

/// The digit for a number below ten.
pub open spec fn digit_char(d: int) -> char {
    (48 + d) as char
}

/// The number that a digit stands for.
pub open spec fn digit_value(c: char) -> int {
    c as int - 48
}

/// `n` in decimal notation.
pub open spec fn decimal(n: nat) -> Seq<char>
    decreases n,
{
    if n < 10 {
        seq![digit_char(n as int)]
    } else {
        decimal(n / 10).push(digit_char((n % 10) as int))
    }
}

/// The number that the digits `s` denote, up to `max`. The first character
/// that stops the reading decides the error.
pub open spec fn read_digits(s: Seq<char>, max: nat) -> Result<nat, NumberError>
    decreases s.len(),
{
    if s.len() == 0 {
        Ok(0)
    } else {
        match read_digits(s.drop_last(), max) {
            Err(e) => Err(e),
            Ok(v) => if !digit(s.last()) {
                Err(NumberError::InvalidDigit)
            } else if v * 10 + digit_value(s.last()) > max {
                Err(NumberError::TooLarge)
            } else {
                Ok((v * 10 + digit_value(s.last())) as nat)
            },
        }
    }
}

/// The number from zero to `max` that `s` denotes: decimal digits, with or
/// without a plus sign in front.
pub open spec fn parse_number(s: Seq<char>, max: nat) -> Result<nat, NumberError> {
    if s.len() == 0 {
        Err(NumberError::Empty)
    } else if s[0] == '+' && s.len() > 1 {
        read_digits(s.skip(1), max)
    } else {
        read_digits(s, max)
    }
}

/// What `parse` tells of a text.
pub open spec fn view_number(r: Result<u64, NumberError>) -> Result<nat, NumberError> {
    match r {
        Ok(v) => Ok(v as nat),
        Err(e) => Err(e),
    }
}

/// Once the reading has stopped it stays stopped.
proof fn lemma_read_stopped(s: Seq<char>, max: nat, i: int)
    requires
        0 <= i <= s.len(),
        read_digits(s.take(i), max) is Err,
    ensures
        read_digits(s, max) == read_digits(s.take(i), max),
    decreases s.len(),
{
    if i == s.len() {
        assert(s.take(i) == s);
    } else {
        assert(s.drop_last().take(i) == s.take(i));
        lemma_read_stopped(s.drop_last(), max, i);
    }
}

/// What is read is at most `max`.
pub proof fn lemma_read_bound(s: Seq<char>, max: nat)
    ensures
        read_digits(s, max) matches Ok(v) ==> v <= max,
    decreases s.len(),
{
    if s.len() > 0 {
        lemma_read_bound(s.drop_last(), max);
    }
}

/// What is read consists of digits.
pub proof fn lemma_read_only_digits(s: Seq<char>, max: nat)
    requires
        read_digits(s, max) is Ok,
    ensures
        forall|i: int| 0 <= i < s.len() ==> digit(#[trigger] s[i]),
    decreases s.len(),
{
    if s.len() > 0 {
        lemma_read_only_digits(s.drop_last(), max);
        assert forall|i: int| 0 <= i < s.len() implies digit(#[trigger] s[i]) by {
            if i < s.len() - 1 {
                assert(s.drop_last()[i] == s[i]);
            }
        }
    }
}

/// Decimal notation consists of digits, at least one.
pub proof fn lemma_decimal_digits(n: nat)
    ensures
        decimal(n).len() > 0,
        forall|i: int| 0 <= i < decimal(n).len() ==> digit(#[trigger] decimal(n)[i]),
    decreases n,
{
    if n >= 10 {
        lemma_decimal_digits(n / 10);
    }
}

/// The digits that denote a number in decimal notation read back as it.
pub proof fn lemma_decimal_read(n: nat, max: nat)
    requires
        n <= max,
    ensures
        read_digits(decimal(n), max) == Ok::<nat, NumberError>(n),
    decreases n,
{
    if n >= 10 {
        lemma_decimal_read(n / 10, max);
        assert(decimal(n).drop_last() == decimal(n / 10));
    } else {
        assert(decimal(n).drop_last() == Seq::<char>::empty());
        assert(read_digits(Seq::<char>::empty(), max) == Ok::<nat, NumberError>(0));
    }
}

/// A number in decimal notation reads back as that number.
pub proof fn lemma_decimal_parse(n: nat, max: nat)
    requires
        n <= max,
    ensures
        parse_number(decimal(n), max) == Ok::<nat, NumberError>(n),
{
    lemma_decimal_digits(n);
    lemma_decimal_read(n, max);
    assert(digit(decimal(n)[0]));
}

/// `n` in decimal notation.
pub fn to_decimal(n: u64) -> (r: Vec<char>)
    ensures
        r@ == decimal(n as nat),
    decreases n,
{
    let last = (48u8 + (n % 10) as u8) as char;
    if n < 10 {
        let mut out: Vec<char> = Vec::new();
        out.push(last);
        out
    } else {
        let mut out = to_decimal(n / 10);
        out.push(last);
        out
    }
}

/// The number that the characters of `s` from `start` on denote.
fn parse_digits(s: &[char], start: usize, max: u64) -> (r: Result<u64, NumberError>)
    requires
        start <= s@.len(),
    ensures
        view_number(r) == read_digits(s@.skip(start as int), max as nat),
{
    let ghost text = s@.skip(start as int);
    let mut v: u64 = 0;
    let mut i: usize = start;
    assert(text.take(0) == Seq::<char>::empty());
    while i < s.len()
        invariant
            start <= i <= s@.len(),
            text == s@.skip(start as int),
            v <= max,
            read_digits(text.take(i - start), max as nat) == Ok::<nat, NumberError>(v as nat),
        decreases s@.len() - i,
    {
        let c = s[i];
        assert(text.take(i + 1 - start).drop_last() == text.take(i - start));
        assert(text.take(i + 1 - start).last() == c);
        if !is_digit(c) {
            proof {
                lemma_read_stopped(text, max as nat, i + 1 - start);
            }
            return Err(NumberError::InvalidDigit);
        }
        let d: u64 = c as u64 - 48;
        if d > max || v > (max - d) / 10 {
            proof {
                lemma_read_stopped(text, max as nat, i + 1 - start);
            }
            return Err(NumberError::TooLarge);
        }
        v = v * 10 + d;
        i += 1;
    }
    assert(text.take(i - start) == text);
    Ok(v)
}

/// The number from zero to `max` that `s` denotes.
pub fn parse(s: &[char], max: u64) -> (r: Result<u64, NumberError>)
    ensures
        view_number(r) == parse_number(s@, max as nat),
        r matches Ok(v) ==> v <= max,
{
    proof {
        lemma_read_bound(s@, max as nat);
        lemma_read_bound(s@.skip(1), max as nat);
        assert(s@.skip(0) == s@);
    }
    if s.len() == 0 {
        Err(NumberError::Empty)
    } else if s[0] == '+' && s.len() > 1 {
        parse_digits(s, 1, max)
    } else {
        parse_digits(s, 0, max)
    }
}

/// The number from zero to `max` that the string `s` denotes.
pub fn parse_str(s: &str, max: u64) -> (r: Result<u64, NumberError>)
    ensures
        view_number(r) == parse_number(s@, max as nat),
        r matches Ok(v) ==> v <= max,
{
    parse(chars(s).as_slice(), max)
}

/// A number that is read is no greater than allowed, and its text is made of
/// digits, with at most a plus sign before them.
pub proof fn lemma_parse_fits(s: Seq<char>, max: nat)
    ensures
        parse_number(s, max) matches Ok(v) ==> v <= max && s.len() > 0 && forall|i: int|
            0 <= i < s.len() ==> '0' <= (#[trigger] s[i]) <= '9' || (i == 0 && s[i] == '+'
                && s.len() > 1),
{
    lemma_read_bound(s, max);
    if s.len() > 0 {
        lemma_read_bound(s.skip(1), max);
        if parse_number(s, max) is Ok {
            if s[0] == '+' && s.len() > 1 {
                lemma_read_only_digits(s.skip(1), max);
                assert forall|i: int| 0 < i < s.len() implies digit(#[trigger] s[i]) by {
                    assert(s.skip(1)[i - 1] == s[i]);
                }
            } else {
                lemma_read_only_digits(s, max);
            }
        }
    }
}

/// A number above the greatest that is allowed is refused as too large.
pub proof fn lemma_large_number_is_refused(n: nat, max: nat)
    requires
        n > max,
    ensures
        parse_number(decimal(n), max) == Err::<nat, NumberError>(NumberError::TooLarge),
{
    lemma_decimal_digits(n);
    lemma_large_digits(n, max);
    assert(digit(decimal(n)[0]));
}

/// The digits of a number that is too large.
proof fn lemma_large_digits(n: nat, max: nat)
    requires
        n > max,
    ensures
        read_digits(decimal(n), max) == Err::<nat, NumberError>(NumberError::TooLarge),
    decreases n,
{
    if n >= 10 {
        assert(decimal(n).drop_last() == decimal(n / 10));
        lemma_decimal_digits(n);
        assert(digit(decimal(n)[decimal(n).len() - 1]));
        if n / 10 > max {
            lemma_large_digits(n / 10, max);
        } else {
            lemma_decimal_read(n / 10, max);
        }
    } else {
        assert(decimal(n).drop_last() == Seq::<char>::empty());
        assert(read_digits(Seq::<char>::empty(), max) == Ok::<nat, NumberError>(0));
    }
}

/// A digit behind a number makes ten times that number, and the digit.
pub proof fn lemma_digits_are_places(s: Seq<char>, d: nat, max: nat)
    requires
        d < 10,
        parse_number(s, max) is Ok,
    ensures
        ({
            let v = parse_number(s, max)->Ok_0 * 10 + d;
            parse_number(s + decimal(d), max) == (if v <= max {
                Ok::<nat, NumberError>(v)
            } else {
                Err(NumberError::TooLarge)
            })
        }),
{
    let longer = s + decimal(d);
    assert(longer =~= s.push(digit_char(d as int)));
    assert(longer.drop_last() =~= s);
    if s[0] == '+' {
        if s.len() > 1 {
            assert(longer.skip(1).drop_last() =~= s.skip(1));
        } else {
            assert(!digit('+'));
            assert(read_digits(s, max) is Err);
        }
    }
}

/// A plus sign before a number changes nothing.
pub proof fn lemma_plus_is_allowed(n: nat, max: nat)
    requires
        n <= max,
    ensures
        parse_number(seq!['+'] + decimal(n), max) == Ok::<nat, NumberError>(n),
{
    lemma_decimal_digits(n);
    lemma_decimal_read(n, max);
    assert((seq!['+'] + decimal(n)).skip(1) =~= decimal(n));
}

/// A text that holds something else than digits first is no number, and
/// neither is an empty one.
pub proof fn lemma_no_number(s: Seq<char>, max: nat)
    requires
        s.len() == 0 || !('0' <= s[0] <= '9' || s[0] == '+'),
    ensures
        parse_number(s, max) == Err::<nat, NumberError>(
            if s.len() == 0 {
                NumberError::Empty
            } else {
                NumberError::InvalidDigit
            },
        ),
{
    if s.len() > 0 {
        assert(s.take(1).drop_last() =~= Seq::<char>::empty());
        assert(s.take(1).last() == s[0]);
        assert(read_digits(Seq::<char>::empty(), max) == Ok::<nat, NumberError>(0));
        assert(read_digits(s.take(1), max) is Err);
        lemma_read_stopped(s, max, 1);
    }
}

/// Digits without a leading zero are the decimal notation of the number that
/// they denote.
pub proof fn lemma_read_is_decimal(s: Seq<char>, max: nat)
    requires
        s.len() > 0,
        s.len() > 1 ==> s[0] != '0',
        read_digits(s, max) is Ok,
    ensures
        decimal(read_digits(s, max)->Ok_0) == s,
    decreases s.len(),
{
    let less = s.drop_last();
    let v = read_digits(s, max)->Ok_0;
    let d = digit_value(s.last());
    assert(digit_char(d) == s.last());
    if s.len() == 1 {
        assert(less =~= Seq::<char>::empty());
        assert(read_digits(less, max) == Ok::<nat, NumberError>(0));
        assert(decimal(v) =~= s);
    } else {
        lemma_read_is_decimal(less, max);
        let before = read_digits(less, max)->Ok_0;
        if before == 0 {
            assert(decimal(before)[0] == '0');
            assert(less[0] == s[0]);
        }
        assert(v == before * 10 + d);
        assert(v / 10 == before && v % 10 == d);
        assert(decimal(v) =~= s);
    }
}

} // verus!
