//! What the two programs read from their command lines.

use crate::bindings::{hex_bytes, hex_decode, is_hex};
use crate::decimal::{all_digits, decimal_value, is_digit, lemma_decimal_value_prefix};
use vstd::prelude::*;
use vstd::string::{StrSliceExecFns, StringExecFns};

verus! {

/// The id of a monitor: exactly 32 bytes, written as 64 hexadecimal digits.
#[derive(Clone, Debug)]
pub struct MonitorId(pub Vec<u8>);

/// The time between two polls where the command line names none, in
/// milliseconds.
pub const DEFAULT_POLL_INTERVAL_MS: u64 = 100;

impl std::str::FromStr for MonitorId {
    type Err = String;

    /// Reads a monitor id from its hexadecimal text.
    fn from_str(src: &str) -> (r: Result<MonitorId, String>)
        ensures
            r is Ok <==> is_hex(src@) && src@.len() == 64,
            r matches Ok(id) ==> id.0@ == hex_bytes(src@),
            r matches Err(message) ==> if is_hex(src@) {
                message@ == "monitor id needs to be exactly 32 bytes"@
            } else {
                message@.len() >= "Error decoding monitor id: "@.len() && message@.subrange(
                    0,
                    "Error decoding monitor id: "@.len() as int,
                ) == "Error decoding monitor id: "@
            },
    {
        match hex_decode(src) {
            Ok(bytes) => {
                if bytes.len() != 32 {
                    return Err("monitor id needs to be exactly 32 bytes".to_owned());
                }
                Ok(MonitorId(bytes))
            },
            Err(detail) => {
                let message = "Error decoding monitor id: ".to_owned().concat(detail.as_str());
                assert(message@.subrange(0, "Error decoding monitor id: "@.len() as int)
                    =~= "Error decoding monitor id: "@);
                Err(message)
            },
        }
    }
}

/// Why a text is not a number of milliseconds.
#[derive(Clone, Copy, Debug, PartialEq, Eq, Structural)]
pub enum ParseMillisecondsError {
    /// The text is empty.
    Empty,
    /// The text holds a character that is not a digit, or no digit at all.
    InvalidDigit,
    /// The digits denote a number above `u64::MAX`.
    Overflow,
}

/// The digits of `s` once one leading `+` is dropped.
pub open spec fn unsigned_part(s: Seq<char>) -> Seq<char> {
    if s.len() > 0 && s[0] == '+' {
        s.drop_first()
    } else {
        s
    }
}

/// What a text means as a number of milliseconds: an optional `+`, then one
/// or more digits whose value fits in 64 bits.
pub open spec fn milliseconds_of(s: Seq<char>) -> Result<u64, ParseMillisecondsError> {
    let digits = unsigned_part(s);
    if s.len() == 0 {
        Err(ParseMillisecondsError::Empty)
    } else if digits.len() == 0 || !all_digits(digits) {
        Err(ParseMillisecondsError::InvalidDigit)
    } else if decimal_value(digits) > u64::MAX {
        Err(ParseMillisecondsError::Overflow)
    } else {
        Ok(decimal_value(digits) as u64)
    }
}

/// Reads the polling interval, given in milliseconds as decimal text.
pub fn parse_duration_in_milliseconds(src: &str) -> (r: Result<u64, ParseMillisecondsError>)
    ensures
        r == milliseconds_of(src@),
{
    let len: usize = src.unicode_len();
    if len == 0 {
        return Err(ParseMillisecondsError::Empty);
    }
    let start: usize = if src.get_char(0) == '+' { 1 } else { 0 };
    let ghost digits = unsigned_part(src@);
    assert(digits =~= src@.skip(start as int));
    if start == len {
        return Err(ParseMillisecondsError::InvalidDigit);
    }
    let mut i: usize = start;
    while i < len
        invariant
            start <= i <= len,
            len == src@.len(),
            len > 0,
            digits == unsigned_part(src@),
            digits == src@.skip(start as int),
            all_digits(digits.take(i - start)),
        decreases len - i,
    {
        let c = src.get_char(i);
        if !(c >= '0' && c <= '9') {
            assert(!is_digit(digits[i - start]));
            return Err(ParseMillisecondsError::InvalidDigit);
        }
        assert forall|k: int| 0 <= k < i + 1 - start implies is_digit(
            #[trigger] digits.take(i + 1 - start)[k],
        ) by {
            if k < i - start {
                assert(digits.take(i - start)[k] == digits[k]);
            }
        }
        i += 1;
    }
    assert(digits.take(len - start) =~= digits);
    let mut value: u64 = 0;
    let mut j: usize = start;
    while j < len
        invariant
            start <= j <= len,
            len == src@.len(),
            start < len,
            digits == unsigned_part(src@),
            digits == src@.skip(start as int),
            all_digits(digits),
            value == decimal_value(digits.take(j - start)),
        decreases len - j,
    {
        let c = src.get_char(j);
        assert(is_digit(digits[j - start]));
        let d: u64 = (c as u32 - '0' as u32) as u64;
        proof {
            assert(digits.take(j + 1 - start).drop_last() =~= digits.take(j - start));
            assert(digits.take(j + 1 - start).last() == c);
            assert(decimal_value(digits.take(j + 1 - start)) == 10 * value + d);
            lemma_decimal_value_prefix(digits, j + 1 - start);
        }
        if value > (u64::MAX - d) / 10 {
            return Err(ParseMillisecondsError::Overflow);
        }
        value = value * 10 + d;
        j += 1;
    }
    assert(digits.take(len - start) =~= digits);
    Ok(value)
}

} // verus!
