//! Integers in decimal notation: what a text denotes, and how a number is written.
use vstd::prelude::*;
use vstd::slice::slice_subrange;

use crate::text;

verus! {

pub open spec fn is_digit(c: char) -> bool {
    '0' <= c <= '9'
}

pub open spec fn all_digits(s: Seq<char>) -> bool {
    forall|i: int| 0 <= i < s.len() ==> is_digit(#[trigger] s[i])
}

/// The number that a run of digits denotes.
pub open spec fn digits_value(s: Seq<char>) -> nat
    decreases s.len(),
{
    if s.len() == 0 {
        0
    } else {
        (digits_value(s.drop_last()) * 10 + (s.last() as int - '0' as int)) as nat
    }
}

/// The number that a non-empty run of digits denotes.
pub open spec fn magnitude(s: Seq<char>) -> Option<nat> {
    if s.len() > 0 && all_digits(s) {
        Some(digits_value(s))
    } else {
        None
    }
}

/// The number that a text denotes as an unsigned integer: digits after an optional `+`.
pub open spec fn unsigned_value(s: Seq<char>) -> Option<nat> {
    if s.len() > 0 && s[0] == '+' {
        magnitude(s.skip(1))
    } else {
        magnitude(s)
    }
}

/// The number that a text denotes as a signed integer: digits after an optional sign.
pub open spec fn signed_value(s: Seq<char>) -> Option<int> {
    if s.len() > 0 && s[0] == '-' {
        match magnitude(s.skip(1)) {
            Some(n) => Some(-(n as int)),
            None => None,
        }
    } else {
        match unsigned_value(s) {
            Some(n) => Some(n as int),
            None => None,
        }
    }
}

/// What parsing a text as `usize` gives.
pub open spec fn usize_of(s: Seq<char>) -> Option<usize> {
    match unsigned_value(s) {
        Some(n) => if n <= usize::MAX {
            Some(n as usize)
        } else {
            None
        },
        None => None,
    }
}

/// What parsing a text as `u64` gives.
pub open spec fn u64_of(s: Seq<char>) -> Option<u64> {
    match unsigned_value(s) {
        Some(n) => if n <= u64::MAX {
            Some(n as u64)
        } else {
            None
        },
        None => None,
    }
}

/// What parsing a text as `i64` gives.
pub open spec fn i64_of(s: Seq<char>) -> Option<i64> {
    match signed_value(s) {
        Some(n) => if i64::MIN <= n <= i64::MAX {
            Some(n as i64)
        } else {
            None
        },
        None => None,
    }
}

pub open spec fn digit_char(d: int) -> char {
    ('0' as int + d) as char
}

/// The digits of a number, without leading zeros.
pub open spec fn digits_of(n: nat) -> Seq<char>
    decreases n,
{
    if n < 10 {
        seq![digit_char(n as int)]
    } else {
        digits_of(n / 10).push(digit_char((n % 10) as int))
    }
}

/// A number as it is written: a minus sign where it is negative, then its digits.
pub open spec fn written(n: int) -> Seq<char> {
    if n < 0 {
        seq!['-'] + digits_of((-n) as nat)
    } else {
        digits_of(n as nat)
    }
}

pub proof fn lemma_digits_of(n: nat)
    ensures
        digits_of(n).len() > 0,
        all_digits(digits_of(n)),
        digits_value(digits_of(n)) == n,
    decreases n,
{
    if n < 10 {
        let s = digits_of(n);
        assert(s.drop_last() == Seq::<char>::empty());
        assert(digits_value(s.drop_last()) == 0);
    } else {
        lemma_digits_of(n / 10);
        let s = digits_of(n);
        assert(s.drop_last() == digits_of(n / 10));
        assert(s.last() == digit_char((n % 10) as int));
    }
}

/// Reading a number as it is written gives the number back.
pub proof fn lemma_written_reads_back(n: int)
    ensures
        signed_value(written(n)) == Some(n),
        n >= 0 ==> unsigned_value(written(n)) == Some(n as nat),
{
    if n < 0 {
        lemma_digits_of((-n) as nat);
        assert(written(n).skip(1) == digits_of((-n) as nat));
    } else {
        lemma_digits_of(n as nat);
        assert(is_digit(written(n)[0]));
    }
}

/// The number denoted by a run of digits, where it fits.
fn parse_magnitude(v: &[char]) -> (r: Option<u64>)
    ensures
        r == (match magnitude(v@) {
            Some(n) => if n <= u64::MAX {
                Some(n as u64)
            } else {
                None
            },
            None => None,
        }),
{
    if v.len() == 0 {
        return None;
    }
    let mut acc: u64 = 0;
    let mut over = false;
    let mut i: usize = 0;
    while i < v.len()
        invariant
            i <= v.len(),
            all_digits(v@.take(i as int)),
            !over ==> acc == digits_value(v@.take(i as int)),
            over ==> digits_value(v@.take(i as int)) > u64::MAX,
        decreases v.len() - i,
    {
        let c = v[i];
        if c < '0' || c > '9' {
            assert(!is_digit(v@[i as int]));
            return None;
        }
        let d: u64 = (c as u32 - '0' as u32) as u64;
        proof {
            let now = v@.take(i + 1);
            assert(now.drop_last() == v@.take(i as int));
            assert(now.last() == c);
            assert forall|k: int| 0 <= k < now.len() implies is_digit(#[trigger] now[k]) by {
                if k < i {
                    assert(now[k] == v@.take(i as int)[k]);
                }
            }
        }
        if !over {
            if acc > (u64::MAX - d) / 10 {
                over = true;
            } else {
                acc = acc * 10 + d;
            }
        }
        i = i + 1;
    }
    assert(v@.take(v@.len() as int) == v@);
    if over {
        None
    } else {
        Some(acc)
    }
}

/// Parses an unsigned integer.
pub fn parse_u64(s: &str) -> (r: Option<u64>)
    ensures
        r == u64_of(s@),
{
    let v = text::chars_of(s);
    if v.len() > 0 && v[0] == '+' {
        assert(v@.skip(1) == v@.subrange(1, v@.len() as int));
        parse_magnitude(slice_subrange(v.as_slice(), 1, v.len()))
    } else {
        parse_magnitude(v.as_slice())
    }
}

/// Parses an index.
pub fn parse_usize(s: &str) -> (r: Option<usize>)
    ensures
        r == usize_of(s@),
{
    match parse_u64(s) {
        Some(n) => if n <= usize::MAX as u64 {
            Some(n as usize)
        } else {
            None
        },
        None => None,
    }
}

/// What parsing a text as `u32` gives.
pub open spec fn u32_of(s: Seq<char>) -> Option<u32> {
    match unsigned_value(s) {
        Some(n) => if n <= u32::MAX {
            Some(n as u32)
        } else {
            None
        },
        None => None,
    }
}

/// Parses a process number.
pub fn parse_u32(s: &str) -> (r: Option<u32>)
    ensures
        r == u32_of(s@),
{
    match parse_u64(s) {
        Some(n) => if n <= u32::MAX as u64 {
            Some(n as u32)
        } else {
            None
        },
        None => None,
    }
}

/// Parses a signed integer.
pub fn parse_i64(s: &str) -> (r: Option<i64>)
    ensures
        r == i64_of(s@),
{
    let v = text::chars_of(s);
    if v.len() > 0 && v[0] == '-' {
        assert(v@.skip(1) == v@.subrange(1, v@.len() as int));
        match parse_magnitude(slice_subrange(v.as_slice(), 1, v.len())) {
            Some(n) => if n <= 0x7fff_ffff_ffff_ffff {
                Some(-(n as i64))
            } else if n == 0x8000_0000_0000_0000 {
                Some(i64::MIN)
            } else {
                None
            },
            None => None,
        }
    } else {
        match parse_u64(s) {
            Some(n) => if n <= 0x7fff_ffff_ffff_ffff {
                Some(n as i64)
            } else {
                None
            },
            None => None,
        }
    }
}

/// Writes an unsigned integer.
pub fn write_u64(n: u64) -> (r: String)
    ensures
        r@ == written(n as int),
    decreases n,
{
    let d: u8 = (n % 10) as u8;
    let c: char = (48u8 + d) as char;
    if n < 10 {
        let mut r = String::new();
        r.push(c);
        assert(r@ == digits_of(n as nat));
        r
    } else {
        let mut r = write_u64(n / 10);
        r.push(c);
        r
    }
}

/// Writes a signed integer.
pub fn write_i64(n: i64) -> (r: String)
    ensures
        r@ == written(n as int),
{
    if n < 0 {
        let mut r = String::new();
        r.push('-');
        let m: u64 = if n == i64::MIN {
            0x8000_0000_0000_0000
        } else {
            (-n) as u64
        };
        r.append(write_u64(m).as_str());
        assert(r@ == written(n as int));
        r
    } else {
        write_u64(n as u64)
    }
}

} // verus!
