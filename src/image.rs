//! Program images: one instruction per line, each line starting with eight
//! hexadecimal digits, most significant first.

use vstd::prelude::*;
use crate::decode::{to_cell, from_word};

verus! {

/// Hex digits on a line that encode one instruction word.
pub const WORD_DIGITS: usize = 8;

pub open spec fn is_hex_digit(c: u8) -> bool {
    (48 <= c <= 57) || (65 <= c <= 70) || (97 <= c <= 102)
}

pub open spec fn hex_digit_value(c: u8) -> nat {
    if 48 <= c <= 57 {
        (c - 48) as nat
    } else if 65 <= c <= 70 {
        (c - 55) as nat
    } else {
        (c - 87) as nat
    }
}

/// The number that the first `n` characters of `s` spell in hexadecimal.
pub open spec fn hex_value(s: Seq<u8>, n: nat) -> nat
    decreases n,
{
    if n == 0 {
        0
    } else {
        hex_value(s, (n - 1) as nat) * 16 + hex_digit_value(s[n - 1])
    }
}

pub open spec fn pow16(n: nat) -> nat
    decreases n,
{
    if n == 0 {
        1
    } else {
        16 * pow16((n - 1) as nat)
    }
}

/// Whether `s` starts with eight hex digits.
pub open spec fn starts_with_word(s: Seq<u8>) -> bool {
    &&& s.len() >= WORD_DIGITS
    &&& forall|i: int| 0 <= i < WORD_DIGITS ==> is_hex_digit(#[trigger] s[i])
}

/// The instruction word at the start of an image line, or `None` where the
/// line does not start with eight hex digits. What follows them is ignored.
pub fn parse_word(line: &[u8]) -> (r: Option<i32>)
    ensures
        r == (if starts_with_word(line@) {
            Some(to_cell(hex_value(line@, WORD_DIGITS as nat) as u32))
        } else {
            None::<i32>
        }),
{
    if line.len() < WORD_DIGITS {
        return None;
    }
    let mut acc: u64 = 0;
    let mut i: usize = 0;
    while i < WORD_DIGITS
        invariant
            i <= WORD_DIGITS <= line@.len(),
            forall|j: int| 0 <= j < i ==> is_hex_digit(#[trigger] line@[j]),
            acc == hex_value(line@, i as nat),
            acc < pow16(i as nat),
            pow16(i as nat) <= 0x1_0000_0000,
        decreases WORD_DIGITS - i,
    {
        let c = line[i];
        let d: u64 = if 48 <= c && c <= 57 {
            (c - 48) as u64
        } else if 65 <= c && c <= 70 {
            (c - 55) as u64
        } else if 97 <= c && c <= 102 {
            (c - 87) as u64
        } else {
            return None;
        };
        proof {
            reveal_with_fuel(pow16, 9);
            assert(i < 8);
            assert(pow16((i + 1) as nat) == 16 * pow16(i as nat));
            if i < 7 {
                assert(pow16((i + 1) as nat) <= pow16(7));
            }
        }
        acc = acc * 16 + d;
        i = i + 1;
    }
    proof {
        reveal_with_fuel(pow16, 9);
    }
    Some(from_word(acc as u32))
}

} // verus!
