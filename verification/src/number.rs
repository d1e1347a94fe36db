//! Whole numbers in decimal: writing them, and reading them back.

use vstd::prelude::*;
use vstd::string::*;

use crate::text::chars_of;

#[allow(unused_imports)]
use crate::text::lemma_char_code;

verus! {

/// The character of a decimal digit.
pub open spec fn digit(d: nat) -> char {
    ((0x30 + d) as u32) as char
}

/// The decimal text of a natural number.
pub open spec fn decimal(n: nat) -> Seq<char>
    decreases n,
{
    if n < 10 {
        seq![digit(n)]
    } else {
        decimal(n / 10).push(digit(n % 10))
    }
}

/// The decimal text of an integer.
pub open spec fn signed_decimal(n: int) -> Seq<char> {
    if n < 0 {
        seq!['-'] + decimal((-n) as nat)
    } else {
        decimal(n as nat)
    }
}

/// Writes a number at the end of a text.
pub fn push_decimal(out: &mut String, n: u64)
    ensures
        final(out)@ == old(out)@ + decimal(n as nat),
    decreases n,
{
    let ghost before = out@;
    if n >= 10 {
        push_decimal(out, n / 10);
    }
    let d: u8 = (n % 10) as u8;
    out.push((0x30 + d) as char);
    assert(out@ =~= before + decimal(n as nat));
}

/// Writes an integer at the end of a text.
pub fn push_signed_decimal(out: &mut String, n: i64)
    ensures
        final(out)@ == old(out)@ + signed_decimal(n as int),
{
    let ghost before = out@;
    if n < 0 {
        out.push('-');
        let magnitude: u64 = (-(n as i128)) as u64;
        push_decimal(out, magnitude);
        assert(out@ =~= before + signed_decimal(n as int));
    } else {
        push_decimal(out, n as u64);
    }
}

/// Whether a character is a decimal digit.
pub open spec fn is_digit(c: char) -> bool {
    0x30 <= c as u32 <= 0x39
}

/// Whether a text is one decimal digit or more, and nothing else.
pub open spec fn is_digits(s: Seq<char>) -> bool {
    s.len() > 0 && forall|i: int| 0 <= i < s.len() ==> is_digit(#[trigger] s[i])
}

/// The number that a row of decimal digits stands for.
pub open spec fn digits_value(s: Seq<char>) -> nat
    decreases s.len(),
{
    if s.len() == 0 {
        0
    } else {
        (10 * digits_value(s.drop_last()) + (s.last() as u32 - 0x30)) as nat
    }
}

/// A row of digits stands for no less than its beginning does.
proof fn lemma_value_grows(s: Seq<char>, i: int)
    requires
        0 <= i <= s.len(),
        forall|j: int| 0 <= j < s.len() ==> is_digit(#[trigger] s[j]),
    ensures
        digits_value(s.take(i)) <= digits_value(s),
    decreases s.len() - i,
{
    if i < s.len() {
        lemma_value_grows(s, i + 1);
        assert(s.take(i + 1).drop_last() =~= s.take(i));
        assert(is_digit(s[i]));
    } else {
        assert(s.take(i) =~= s);
    }
}

/// The number that a row of digits stands for, where it is no more than `max`.
pub open spec fn bounded_value(s: Seq<char>, max: nat) -> Option<nat> {
    if is_digits(s) && digits_value(s) <= max {
        Some(digits_value(s))
    } else {
        None
    }
}

/// Reads a row of digits that stands for no more than `max`.
pub fn read_digits(cs: &[char], max: u64) -> (r: Option<u64>)
    ensures
        match r {
            Some(n) => bounded_value(cs@, max as nat) == Some(n as nat),
            None => bounded_value(cs@, max as nat) is None,
        },
{
    if cs.len() == 0 {
        return None;
    }
    let mut value: u64 = 0;
    let mut i: usize = 0;
    while i < cs.len()
        invariant
            i <= cs@.len(),
            forall|j: int| 0 <= j < i ==> is_digit(#[trigger] cs@[j]),
            value == digits_value(cs@.take(i as int)),
            value <= max,
        decreases cs@.len() - i,
    {
        let u: u32 = cs[i] as u32;
        if u < 0x30 || u > 0x39 {
            assert(!is_digit(cs@[i as int]));
            return None;
        }
        let next: u128 = value as u128 * 10 + (u - 0x30) as u128;
        assert(cs@.take(i + 1).drop_last() =~= cs@.take(i as int));
        if next > max as u128 {
            proof {
                if is_digits(cs@) {
                    lemma_value_grows(cs@, i + 1);
                }
            }
            return None;
        }
        value = next as u64;
        i = i + 1;
    }
    assert(cs@.take(cs@.len() as int) =~= cs@);
    Some(value)
}

/// The number that a text stands for: digits, with an optional `+` before them, within the range of
/// `u64`.
pub open spec fn natural_value(s: Seq<char>) -> Option<u64> {
    let digits = if s.len() > 0 && s[0] == '+' {
        s.drop_first()
    } else {
        s
    };
    match bounded_value(digits, u64::MAX as nat) {
        Some(n) => Some(n as u64),
        None => None,
    }
}

/// The port number that a text stands for: digits, with an optional `+` before them.
pub open spec fn port_value(s: Seq<char>) -> Option<u16> {
    let digits = if s.len() > 0 && s[0] == '+' {
        s.drop_first()
    } else {
        s
    };
    match bounded_value(digits, u16::MAX as nat) {
        Some(n) => Some(n as u16),
        None => None,
    }
}

/// Reads a port number.
pub fn parse_port(s: &str) -> (r: Option<u16>)
    ensures
        r == port_value(s@),
{
    let cs: Vec<char> = chars_of(s);
    let start: usize = if cs.len() > 0 && cs[0] == '+' {
        1
    } else {
        0
    };
    let digits: &[char] = vstd::slice::slice_subrange(cs.as_slice(), start, cs.len());
    assert(cs@.subrange(0, cs@.len() as int) =~= cs@);
    assert(start == 1 ==> cs@.subrange(1, cs@.len() as int) =~= cs@.drop_first());
    match read_digits(digits, u16::MAX as u64) {
        Some(n) => Some(n as u16),
        None => None,
    }
}

/// The integer that a text stands for: digits, with an optional sign before them, within the
/// range of `i64`.
pub open spec fn integer_value(s: Seq<char>) -> Option<i64> {
    if s.len() > 0 && s[0] == '-' {
        match bounded_value(s.drop_first(), 0x8000_0000_0000_0000) {
            Some(n) => Some((-n) as i64),
            None => None,
        }
    } else {
        let digits = if s.len() > 0 && s[0] == '+' {
            s.drop_first()
        } else {
            s
        };
        match bounded_value(digits, i64::MAX as nat) {
            Some(n) => Some(n as i64),
            None => None,
        }
    }
}

/// Reads an integer.
pub fn parse_integer(cs: &[char]) -> (r: Option<i64>)
    ensures
        r == integer_value(cs@),
{
    let n: usize = cs.len();
    assert(cs@.subrange(0, n as int) =~= cs@);
    assert(n >= 1 ==> cs@.subrange(1, n as int) =~= cs@.drop_first());
    if n > 0 && cs[0] == '-' {
        match read_digits(vstd::slice::slice_subrange(cs, 1, n), 0x8000_0000_0000_0000) {
            Some(m) => Some((-(m as i128)) as i64),
            None => None,
        }
    } else {
        let start: usize = if n > 0 && cs[0] == '+' {
            1
        } else {
            0
        };
        match read_digits(vstd::slice::slice_subrange(cs, start, n), i64::MAX as u64) {
            Some(m) => Some(m as i64),
            None => None,
        }
    }
}

/// The decimal text of a number is made of digits, and stands for that number.
pub proof fn decimal_reads_back(n: nat)
    ensures
        is_digits(decimal(n)),
        digits_value(decimal(n)) == n,
    decreases n,
{
    if n < 10 {
        assert(decimal(n).drop_last() =~= Seq::<char>::empty());
        assert(digits_value(Seq::<char>::empty()) == 0);
        assert(decimal(n).last() == digit(n));
    } else {
        decimal_reads_back(n / 10);
        let s = decimal(n);
        assert(s.drop_last() =~= decimal(n / 10));
        assert forall|i: int| 0 <= i < s.len() implies is_digit(#[trigger] s[i]) by {
            if i < s.len() - 1 {
                assert(s[i] == decimal(n / 10)[i]);
            }
        }
    }
}

/// An integer that was written in decimal is read back as it was.
pub proof fn signed_decimal_reads_back(n: i64)
    ensures
        integer_value(signed_decimal(n as int)) == Some(n),
{
    if n < 0 {
        decimal_reads_back((-n) as nat);
        assert(signed_decimal(n as int).drop_first() =~= decimal((-n) as nat));
    } else {
        decimal_reads_back(n as nat);
        let s = decimal(n as nat);
        assert(is_digit(s[0]));
    }
}

/// The decimal text of a number that fits is read as that number, with a plus sign before it or
/// without; one that does not fit is not read.
pub proof fn written_numbers_are_read(n: nat)
    ensures
        port_value(decimal(n)) == if n <= 65535 {
            Some(n as u16)
        } else {
            None
        },
        port_value(seq!['+'] + decimal(n)) == port_value(decimal(n)),
        natural_value(decimal(n)) == if n <= u64::MAX {
            Some(n as u64)
        } else {
            None
        },
        natural_value(seq!['+'] + decimal(n)) == natural_value(decimal(n)),
{
    decimal_reads_back(n);
    assert(is_digit(decimal(n)[0]));
    assert((seq!['+'] + decimal(n)).drop_first() =~= decimal(n));
}

/// Nothing but digits, with a plus sign before them or without, is read as a number.
pub proof fn other_texts_are_no_numbers(s: Seq<char>, i: int)
    requires
        0 <= i < s.len(),
        !('0' <= s[i] <= '9'),
        i > 0 || s[i] != '+',
    ensures
        port_value(s) is None,
        natural_value(s) is None,
        s[i] != '-' ==> integer_value(s) is None,
{
    lemma_char_code(s[i]);
    assert(!is_digit(s[i]));
    if s[0] == '+' || s[0] == '-' {
        if i > 0 {
            assert(s.drop_first()[i - 1] == s[i]);
        }
    }
}

} // verus!
