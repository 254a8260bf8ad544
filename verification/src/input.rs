//! Reading the numbers that users type into the front end's forms: room ids
//! and room capacities, as unsigned decimals.

use vstd::prelude::*;
use crate::ext::is_digit;
use crate::types::RoomId;

verus! {

/// The value of the decimal digit `c`.
pub open spec fn digit_value(c: char) -> nat {
    (c as int - '0' as int) as nat
}

/// The value of the decimal digits `s`, most significant first.
pub open spec fn digits_value(s: Seq<char>) -> nat
    decreases s.len(),
{
    if s.len() == 0 {
        0
    } else {
        digits_value(s.drop_last()) * 10 + digit_value(s.last())
    }
}

/// Every character of `s` is a decimal digit.
pub open spec fn all_digits(s: Seq<char>) -> bool {
    forall|i: int| 0 <= i < s.len() ==> is_digit(#[trigger] s[i])
}

/// What follows an optional leading `+` in `text`.
pub open spec fn unsigned_digits(text: Seq<char>) -> Seq<char> {
    if text.len() > 0 && text[0] == '+' {
        text.drop_first()
    } else {
        text
    }
}

/// The value of `text` read as an unsigned decimal (an optional `+`, then at
/// least one digit and nothing else), if it is one and it is at most `max`.
pub open spec fn parsed_unsigned(text: Seq<char>, max: nat) -> Option<nat> {
    let d = unsigned_digits(text);
    if d.len() > 0 && all_digits(d) && digits_value(d) <= max {
        Some(digits_value(d))
    } else {
        None
    }
}

/// A longer prefix of digits is worth at least as much.
proof fn lemma_prefix_value(s: Seq<char>, j: int, k: int)
    requires
        all_digits(s),
        0 <= j <= k <= s.len(),
    ensures
        digits_value(s.take(j)) <= digits_value(s.take(k)),
    decreases k - j,
{
    if j < k {
        lemma_prefix_value(s, j, k - 1);
        assert(s.take(k).drop_last() =~= s.take(k - 1));
    }
}

/// Reads `text[start..]` as decimal digits worth at most `max`.
fn parse_digits(text: &str, start: usize, len: usize, max: u64) -> (r: Option<u64>)
    requires
        len == text@.len(),
        start <= len,
    ensures
        ({
            let d = text@.subrange(start as int, len as int);
            r == if d.len() > 0 && all_digits(d) && digits_value(d) <= max {
                Some(digits_value(d) as u64)
            } else {
                None::<u64>
            }
        }),
{
    let ghost d = text@.subrange(start as int, len as int);
    if start == len {
        return None;
    }
    let mut acc: u64 = 0;
    let mut i: usize = start;
    while i < len
        invariant
            len == text@.len(),
            start <= i <= len,
            d == text@.subrange(start as int, len as int),
            all_digits(d.take(i - start)),
            acc == digits_value(d.take(i - start)),
            acc <= max,
        decreases len - i,
    {
        let c = text.get_char(i);
        assert(c == d[i - start]);
        if !('0' <= c && c <= '9') {
            return None;
        }
        let v: u64 = (c as u32 - '0' as u32) as u64;
        assert(d.take(i + 1 - start).drop_last() =~= d.take(i - start));
        let next: u128 = acc as u128 * 10 + v as u128;
        if next > max as u128 {
            proof {
                assert(all_digits(d.take(i + 1 - start)));
                if all_digits(d) {
                    lemma_prefix_value(d, i + 1 - start, d.len() as int);
                    assert(d.take(d.len() as int) =~= d);
                }
            }
            return None;
        }
        acc = next as u64;
        i += 1;
    }
    assert(d.take(i - start) =~= d);
    Some(acc)
}

/// Reads `text` as an unsigned decimal worth at most `max`.
fn parse_unsigned(text: &str, max: u64) -> (r: Option<u64>)
    ensures
        r == match parsed_unsigned(text@, max as nat) {
            Some(v) => Some(v as u64),
            None => None::<u64>,
        },
{
    let len = text.unicode_len();
    let start: usize = if len > 0 && text.get_char(0) == '+' { 1 } else { 0 };
    assert(unsigned_digits(text@) =~= text@.subrange(start as int, len as int));
    parse_digits(text, start, len, max)
}

/// The room id that a user typed, as `str::parse::<RoomId>` reads it: an
/// optional `+` followed by decimal digits, with no other character, whose
/// value fits; `None` otherwise.
pub fn parse_room_id(text: &str) -> (r: Option<RoomId>)
    ensures
        r == match parsed_unsigned(text@, u64::MAX as nat) {
            Some(v) => Some(v as RoomId),
            None => None::<RoomId>,
        },
{
    parse_unsigned(text, u64::MAX)
}

/// The room capacity that a user typed, read as `str::parse::<usize>` reads
/// it; `None` when it is no such number.
pub fn parse_capacity(text: &str) -> (r: Option<usize>)
    ensures
        r == match parsed_unsigned(text@, usize::MAX as nat) {
            Some(v) => Some(v as usize),
            None => None::<usize>,
        },
{
    match parse_unsigned(text, usize::MAX as u64) {
        Some(v) => Some(v as usize),
        None => None,
    }
}

} // verus!
