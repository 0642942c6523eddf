//! Decimal numbers and truth values, as option strings hold them.

use vstd::prelude::*;
use crate::text::{chars_of, str_eq};

verus! {

/// Why a string is not an unsigned decimal number.
#[derive(Copy, Clone, Debug, PartialEq, Eq, Structural)]
pub enum IntParseError {
    /// The string is empty.
    Empty,
    /// A character is not a decimal digit, or the string is a lone sign.
    InvalidDigit,
    /// The number is larger than its type holds.
    PosOverflow,
}

pub open spec fn is_digit(c: char) -> bool {
    '0' <= c && c <= '9'
}

pub open spec fn digit_value(c: char) -> nat {
    (c as u32 - '0' as u32) as nat
}

/// The number that the digits `s` spell, read from the left. The first character
/// that is no digit, or with which the number passes `max`, decides the error.
pub open spec fn digits_value(s: Seq<char>, max: nat) -> Result<nat, IntParseError>
    decreases s.len(),
{
    if s.len() == 0 {
        Ok(0)
    } else {
        match digits_value(s.drop_last(), max) {
            Err(e) => Err(e),
            Ok(v) => if !is_digit(s.last()) {
                Err(IntParseError::InvalidDigit)
            } else if v * 10 + digit_value(s.last()) > max {
                Err(IntParseError::PosOverflow)
            } else {
                Ok(v * 10 + digit_value(s.last()))
            },
        }
    }
}

/// The value of `s` as an unsigned decimal number of at most `max`:
/// an optional `+`, then one digit or more, and nothing else.
pub open spec fn unsigned_value(s: Seq<char>, max: nat) -> Result<nat, IntParseError> {
    if s.len() == 0 {
        Err(IntParseError::Empty)
    } else if s.len() == 1 && (s[0] == '+' || s[0] == '-') {
        Err(IntParseError::InvalidDigit)
    } else if s[0] == '+' {
        digits_value(s.skip(1), max)
    } else {
        digits_value(s, max)
    }
}

/// The truth value that `s` spells: `true` or `false`, in exactly these letters.
pub open spec fn bool_value(s: Seq<char>) -> Option<bool> {
    if s == "true"@ {
        Some(true)
    } else if s == "false"@ {
        Some(false)
    } else {
        None
    }
}

/// What is said of a string that is no number.
pub open spec fn int_error_text(e: IntParseError) -> Seq<char> {
    match e {
        IntParseError::Empty => "cannot parse integer from empty string"@,
        IntParseError::InvalidDigit => "invalid digit found in string"@,
        IntParseError::PosOverflow => "number too large to fit in target type"@,
    }
}

/// What is said of a string that is no truth value.
pub open spec fn bool_error_text() -> Seq<char> {
    "provided string was not `true` or `false`"@
}

impl IntParseError {
    pub fn text(&self) -> (s: String)
        ensures
            s@ == int_error_text(*self),
    {
        match self {
            IntParseError::Empty => "cannot parse integer from empty string".to_owned(),
            IntParseError::InvalidDigit => "invalid digit found in string".to_owned(),
            IntParseError::PosOverflow => "number too large to fit in target type".to_owned(),
        }
    }
}

pub proof fn lemma_digits_value_bound(s: Seq<char>, max: nat)
    ensures
        digits_value(s, max) matches Ok(v) ==> v <= max,
    decreases s.len(),
{
    if s.len() > 0 {
        lemma_digits_value_bound(s.drop_last(), max);
    }
}

/// Reads `s` as an unsigned decimal number of at most `max`.
pub fn parse_unsigned(s: &str, max: u32) -> (r: Result<u32, IntParseError>)
    ensures
        match r {
            Ok(v) => unsigned_value(s@, max as nat) == Ok::<nat, IntParseError>(v as nat),
            Err(e) => unsigned_value(s@, max as nat) == Err::<nat, IntParseError>(e),
        },
{
    let v = chars_of(s);
    let n = v.len();
    if n == 0 {
        return Err(IntParseError::Empty);
    }
    if n == 1 && (v[0] == '+' || v[0] == '-') {
        return Err(IntParseError::InvalidDigit);
    }
    let start: usize = if v[0] == '+' {
        1
    } else {
        0
    };
    let ghost body = v@.skip(start as int);
    let mut acc: u64 = 0;
    let mut i: usize = start;
    assert(body.take(0) =~= Seq::<char>::empty());
    assert(start == 0 ==> body =~= s@);
    while i < n
        invariant
            start <= i <= n == v.len(),
            body == v@.skip(start as int),
            unsigned_value(s@, max as nat) == digits_value(body, max as nat),
            acc <= max,
            digits_value(body.take(i - start), max as nat) == Ok::<nat, IntParseError>(acc as nat),
        decreases n - i,
    {
        let c = v[i];
        proof {
            assert(body.take(i - start + 1).drop_last() =~= body.take(i - start));
            assert(body.take(i - start + 1).last() == c);
            lemma_digits_error_stays(body, (i - start + 1) as int, max as nat);
        }
        if !('0' <= c && c <= '9') {
            return Err(IntParseError::InvalidDigit);
        }
        let d: u64 = (c as u32 - '0' as u32) as u64;
        if acc * 10 + d > max as u64 {
            return Err(IntParseError::PosOverflow);
        }
        acc = acc * 10 + d;
        i += 1;
    }
    assert(body.take(n - start) =~= body);
    Ok(acc as u32)
}

/// Once a prefix of the digits is refused, the whole is refused for the same reason.
pub proof fn lemma_digits_error_stays(s: Seq<char>, k: int, max: nat)
    requires
        0 <= k <= s.len(),
    ensures
        digits_value(s.take(k), max) matches Err(e) ==> digits_value(s, max) == Err::<
            nat,
            IntParseError,
        >(e),
    decreases s.len() - k,
{
    if k < s.len() {
        assert(s.take(k + 1).drop_last() =~= s.take(k));
        lemma_digits_error_stays(s, k + 1, max);
    } else {
        assert(s.take(k) =~= s);
    }
}

/// Reads `s` as a number of 32 bits.
pub fn parse_u32(s: &str) -> (r: Result<u32, IntParseError>)
    ensures
        match r {
            Ok(v) => unsigned_value(s@, u32::MAX as nat) == Ok::<nat, IntParseError>(v as nat),
            Err(e) => unsigned_value(s@, u32::MAX as nat) == Err::<nat, IntParseError>(e),
        },
{
    parse_unsigned(s, u32::MAX)
}

/// Reads `s` as a number of 8 bits.
pub fn parse_u8(s: &str) -> (r: Result<u8, IntParseError>)
    ensures
        match r {
            Ok(v) => unsigned_value(s@, u8::MAX as nat) == Ok::<nat, IntParseError>(v as nat),
            Err(e) => unsigned_value(s@, u8::MAX as nat) == Err::<nat, IntParseError>(e),
        },
{
    match parse_unsigned(s, 255) {
        Ok(v) => {
            proof {
                if s@.len() > 0 && s@[0] == '+' {
                    lemma_digits_value_bound(s@.skip(1), 255);
                } else {
                    lemma_digits_value_bound(s@, 255);
                }
            }
            Ok(v as u8)
        },
        Err(e) => Err(e),
    }
}

/// Reads `s` as a truth value.
pub fn parse_bool(s: &str) -> (r: Option<bool>)
    ensures
        r == bool_value(s@),
{
    if str_eq(s, "true") {
        Some(true)
    } else if str_eq(s, "false") {
        Some(false)
    } else {
        None
    }
}

/// The decimal digits of `n`, without sign or leading zero.
pub open spec fn decimal(n: nat) -> Seq<char>
    decreases n,
{
    if n < 10 {
        seq![(('0' as u8) + (n as u8)) as char]
    } else {
        decimal(n / 10).push((('0' as u8) + ((n % 10) as u8)) as char)
    }
}

} // verus!
