//! Decimal and hexadecimal numerals.
use vstd::prelude::*;
use vstd::string::*;

use crate::text::{chars_of, digit, is_digit};

verus! {

/// The character of a hexadecimal digit, in lower case.
pub open spec fn numeral(n: int) -> char {
    if n < 10 {
        ('0' as u32 + n) as char
    } else {
        ('a' as u32 + n - 10) as char
    }
}

fn numeral_char(n: u8) -> (r: char)
    requires
        n < 16,
    ensures
        r == numeral(n as int),
{
    if n < 10 {
        (0x30 + n) as char
    } else {
        (0x61 + (n - 10)) as char
    }
}

/// A number in decimal, without leading zeros.
pub open spec fn decimal(n: nat) -> Seq<char>
    decreases n,
{
    if n < 10 {
        seq![numeral(n as int)]
    } else {
        decimal(n / 10).push(numeral((n % 10) as int))
    }
}

pub fn decimal_text(n: u64) -> (r: String)
    ensures
        r@ == decimal(n as nat),
    decreases n,
{
    if n < 10 {
        let mut out = String::new();
        out.push(numeral_char(n as u8));
        assert(out@ =~= seq![numeral(n as int)]);
        out
    } else {
        let mut out = decimal_text(n / 10);
        out.push(numeral_char((n % 10) as u8));
        out
    }
}

/// What a sequence of decimal digits amounts to.
pub open spec fn value(digits: Seq<char>) -> nat
    decreases digits.len(),
{
    if digits.len() == 0 {
        0
    } else {
        value(digits.drop_last()) * 10 + (digits.last() as u32 - '0' as u32) as nat
    }
}

pub open spec fn all_digits(text: Seq<char>) -> bool {
    forall|i: int| 0 <= i < text.len() ==> digit(#[trigger] text[i])
}

/// The unsigned 64-bit number that a text spells: decimal digits, after at most one plus
/// sign, whose value is in range.
pub open spec fn parsed(text: Seq<char>) -> Option<u64> {
    let digits = if text.len() > 0 && text[0] == '+' {
        text.drop_first()
    } else {
        text
    };
    if digits.len() > 0 && all_digits(digits) && value(digits) <= u64::MAX {
        Some(value(digits) as u64)
    } else {
        None
    }
}

pub fn parse_u64(text: &str) -> (r: Option<u64>)
    ensures
        r == parsed(text@),
{
    let chars = chars_of(text);
    let start: usize = if chars.len() > 0 && chars[0] == '+' {
        1
    } else {
        0
    };
    let ghost digits = chars@.skip(start as int);
    proof {
        if start == 1 {
            assert(digits =~= text@.drop_first());
        } else {
            assert(digits =~= text@);
        }
    }
    if start == chars.len() {
        return None;
    }
    let mut total: u64 = 0;
    let mut large: bool = false;
    assert(digits.take(0).len() == 0);
    for i in start..chars.len()
        invariant
            start <= chars.len(),
            digits == chars@.skip(start as int),
            !all_digits(digits) ==> parsed(text@) is None,
            forall|j: int| 0 <= j < i - start ==> digit(#[trigger] digits[j]),
            large ==> value(digits.take(i - start)) > u64::MAX,
            !large ==> value(digits.take(i - start)) == total,
    {
        let c: char = chars[i];
        assert(c == digits[i - start]);
        if !is_digit(c) {
            return None;
        }
        let amount: u64 = (c as u32 - 0x30) as u64;
        proof {
            assert(digits.take(i - start + 1).drop_last() =~= digits.take(i - start));
        }
        if !large {
            if total > 0x1999_9999_9999_9999 || (total == 0x1999_9999_9999_9999 && amount > 5) {
                large = true;
            } else {
                total = total * 10 + amount;
            }
        }
    }
    proof {
        assert(digits.take(digits.len() as int) =~= digits);
    }
    if large {
        None
    } else {
        Some(total)
    }
}

/// Two hexadecimal digits for each byte, the high half first.
pub open spec fn lower_hex(bytes: Seq<u8>) -> Seq<char> {
    Seq::new(
        2 * bytes.len(),
        |i: int|
            numeral(
                if i % 2 == 0 {
                    bytes[i / 2] as int / 16
                } else {
                    bytes[i / 2] as int % 16
                },
            ),
    )
}

pub fn hex_text(bytes: &Vec<u8>) -> (r: String)
    ensures
        r@ == lower_hex(bytes@),
{
    let mut out = String::new();
    for i in 0..bytes.len()
        invariant
            out@ == lower_hex(bytes@.take(i as int)),
    {
        let ghost held = out@;
        out.push(numeral_char(bytes[i] / 16));
        out.push(numeral_char(bytes[i] % 16));
        proof {
            let longer = lower_hex(bytes@.take(i + 1));
            assert(longer.len() == held.len() + 2);
            assert forall|j: int| 0 <= j < longer.len() implies longer[j] == out@[j] by {
                if j < 2 * i {
                    assert(bytes@.take(i + 1)[j / 2] == bytes@.take(i as int)[j / 2]);
                } else {
                    assert(j / 2 == i);
                }
            }
            assert(longer =~= out@);
        }
    }
    proof {
        assert(bytes@.take(bytes@.len() as int) =~= bytes@);
    }
    out
}

/// A hexadecimal digit in lower case.
pub open spec fn lower_digit(c: char) -> bool {
    '0' <= c <= '9' || 'a' <= c <= 'f'
}

/// How a digest of 32 bytes is written: 64 hexadecimal digits in lower case.
pub open spec fn is_digest(text: Seq<char>) -> bool {
    text.len() == 64 && forall|i: int| 0 <= i < text.len() ==> lower_digit(#[trigger] text[i])
}

pub proof fn lemma_digest(bytes: Seq<u8>)
    requires
        bytes.len() == 32,
    ensures
        is_digest(lower_hex(bytes)),
{
    assert forall|i: int| 0 <= i < 64 implies lower_digit(#[trigger] lower_hex(bytes)[i]) by {
        let n = if i % 2 == 0 {
            bytes[i / 2] as int / 16
        } else {
            bytes[i / 2] as int % 16
        };
        assert(0 <= n < 16);
    }
}

/// A numeral written in decimal is read back as the same number.
pub proof fn law_decimal_reads_back(n: u64)
    ensures
        parsed(decimal(n as nat)) == Some(n),
{
    lemma_decimal_value(n as nat);
    assert(digit(decimal(n as nat)[0]));
}

/// A number in decimal is made of digits, and they amount to the number.
pub proof fn lemma_decimal_value(n: nat)
    ensures
        decimal(n).len() > 0,
        all_digits(decimal(n)),
        value(decimal(n)) == n,
    decreases n,
{
    if n < 10 {
        assert(value(Seq::<char>::empty()) == 0);
        assert(seq![numeral(n as int)].drop_last() =~= Seq::<char>::empty());
        assert(value(decimal(n)) == n);
    } else {
        lemma_decimal_value(n / 10);
        let head = decimal(n / 10);
        let tail = numeral((n % 10) as int);
        assert(head.push(tail).drop_last() =~= head);
        assert forall|i: int| 0 <= i < decimal(n).len() implies digit(#[trigger] decimal(n)[i]) by {
            if i < head.len() {
                assert(digit(head[i]));
            }
        }
    }
}

} // verus!
