//! Reading integers from text, as the standard library's integer parsing does.
use vstd::prelude::*;
use vstd::string::StrSliceExecFns;

verus! {

/// Why a text is not an integer of the wanted type.
#[derive(Debug, Clone, Copy, PartialEq, Eq)]
pub enum IntErrorKind {
    Empty,
    InvalidDigit,
    PosOverflow,
    NegOverflow,
}

/// The value of a decimal digit character.
pub open spec fn decimal_digit(c: char) -> Option<int> {
    if '0' <= c <= '9' {
        Some(c as int - '0' as int)
    } else {
        None
    }
}

/// The value of a hexadecimal digit character, either case.
pub open spec fn hex_digit(c: char) -> Option<int> {
    if '0' <= c <= '9' {
        Some(c as int - '0' as int)
    } else if 'a' <= c <= 'f' {
        Some(c as int - 'a' as int + 10)
    } else if 'A' <= c <= 'F' {
        Some(c as int - 'A' as int + 10)
    } else {
        None
    }
}

/// Reads the digits `ds` in base 10 after the value `acc`, going up (or down, for a
/// negative number) digit by digit; the first non-digit, or the first step out of the
/// `i32` range, is the error.
pub open spec fn fold_i32_digits(ds: Seq<char>, acc: int, negative: bool) -> Result<int, IntErrorKind>
    decreases ds.len(),
{
    if ds.len() == 0 {
        Ok(acc)
    } else {
        match decimal_digit(ds[0]) {
            None => Err(IntErrorKind::InvalidDigit),
            Some(d) => {
                let next = if negative {
                    acc * 10 - d
                } else {
                    acc * 10 + d
                };
                if next > i32::MAX {
                    Err(IntErrorKind::PosOverflow)
                } else if next < i32::MIN {
                    Err(IntErrorKind::NegOverflow)
                } else {
                    fold_i32_digits(ds.drop_first(), next, negative)
                }
            },
        }
    }
}

/// The `i32` a text spells in base 10: an optional sign, then digits.
pub open spec fn spec_parse_i32(s: Seq<char>) -> Result<int, IntErrorKind> {
    if s.len() == 0 {
        Err(IntErrorKind::Empty)
    } else if s.len() == 1 && (s[0] == '+' || s[0] == '-') {
        Err(IntErrorKind::InvalidDigit)
    } else if s[0] == '+' {
        fold_i32_digits(s.drop_first(), 0, false)
    } else if s[0] == '-' {
        fold_i32_digits(s.drop_first(), 0, true)
    } else {
        fold_i32_digits(s, 0, false)
    }
}

/// Reads an `i32` in base 10, as `str::parse::<i32>` does.
pub fn parse_i32(s: &str) -> (r: Result<i32, IntErrorKind>)
    ensures
        match (r, spec_parse_i32(s@)) {
            (Ok(v), Ok(w)) => v == w,
            (Err(e), Err(f)) => e == f,
            _ => false,
        },
{
    let n = s.unicode_len();
    if n == 0 {
        return Err(IntErrorKind::Empty);
    }
    let first = s.get_char(0);
    if n == 1 && (first == '+' || first == '-') {
        return Err(IntErrorKind::InvalidDigit);
    }
    let negative = first == '-';
    let mut i: usize = if first == '+' || first == '-' {
        1
    } else {
        0
    };
    let ghost ds0 = s@.skip(i as int);
    assert(first == '+' ==> s@.drop_first() == ds0);
    assert(first == '-' ==> s@.drop_first() == ds0);
    assert(first != '+' && first != '-' ==> s@ == ds0);
    let mut acc: i32 = 0;
    assert(spec_parse_i32(s@) == fold_i32_digits(ds0, 0, negative));
    while i < n
        invariant
            spec_parse_i32(s@) == fold_i32_digits(ds0, 0, negative),
            n == s@.len(),
            i <= n,
            ds0 == s@.skip(if first == '+' || first == '-' { 1int } else { 0int }),
            negative == (first == '-'),
            fold_i32_digits(ds0, 0, negative) == fold_i32_digits(s@.skip(i as int), acc as int, negative),
        decreases n - i,
    {
        let c = s.get_char(i);
        let ghost rest = s@.skip(i as int);
        assert(rest[0] == c);
        assert(rest.drop_first() == s@.skip(i + 1));
        if c < '0' || c > '9' {
            return Err(IntErrorKind::InvalidDigit);
        }
        let d = (c as u32 - '0' as u32) as i64;
        let next: i64 = if negative {
            acc as i64 * 10 - d
        } else {
            acc as i64 * 10 + d
        };
        if next > i32::MAX as i64 {
            return Err(IntErrorKind::PosOverflow);
        }
        if next < i32::MIN as i64 {
            return Err(IntErrorKind::NegOverflow);
        }
        acc = next as i32;
        i += 1;
    }
    assert(s@.skip(n as int).len() == 0);
    Ok(acc)
}

/// The value of a two-character piece of hex text: two hex digits, or `+` and one.
pub open spec fn spec_hex_byte(a: char, b: char) -> Option<u8> {
    match (hex_digit(a), hex_digit(b)) {
        (Some(x), Some(y)) => Some((x * 16 + y) as u8),
        (None, Some(y)) => if a == '+' {
            Some(y as u8)
        } else {
            None
        },
        _ => None,
    }
}

/// The value of a hex digit character, if it is one.
fn hex_digit_value(c: char) -> (r: Option<u8>)
    ensures
        match hex_digit(c) {
            Some(d) => r == Some(d as u8),
            None => r is None,
        },
{
    if '0' <= c && c <= '9' {
        Some((c as u32 - '0' as u32) as u8)
    } else if 'a' <= c && c <= 'f' {
        Some((c as u32 - 'a' as u32 + 10) as u8)
    } else if 'A' <= c && c <= 'F' {
        Some((c as u32 - 'A' as u32 + 10) as u8)
    } else {
        None
    }
}

/// Reads a two-character piece of hex text as a byte, as `u8::from_str_radix(_, 16)`
/// does on it.
pub fn hex_byte(a: char, b: char) -> (r: Option<u8>)
    ensures
        r == spec_hex_byte(a, b),
{
    match (hex_digit_value(a), hex_digit_value(b)) {
        (Some(x), Some(y)) => Some(x * 16 + y),
        (None, Some(y)) => if a == '+' {
            Some(y)
        } else {
            None
        },
        _ => None,
    }
}

/// Reads the digits `ds` in base 10 after the value `acc`; the first non-digit, or the
/// first step past `usize::MAX`, is the error.
pub open spec fn fold_usize_digits(ds: Seq<char>, acc: int) -> Result<int, IntErrorKind>
    decreases ds.len(),
{
    if ds.len() == 0 {
        Ok(acc)
    } else {
        match decimal_digit(ds[0]) {
            None => Err(IntErrorKind::InvalidDigit),
            Some(d) => if acc * 10 + d > usize::MAX {
                Err(IntErrorKind::PosOverflow)
            } else {
                fold_usize_digits(ds.drop_first(), acc * 10 + d)
            },
        }
    }
}

/// The `usize` a text spells in base 10: an optional `+`, then digits.
pub open spec fn spec_parse_usize(s: Seq<char>) -> Result<int, IntErrorKind> {
    if s.len() == 0 {
        Err(IntErrorKind::Empty)
    } else if s.len() == 1 && (s[0] == '+' || s[0] == '-') {
        Err(IntErrorKind::InvalidDigit)
    } else if s[0] == '+' {
        fold_usize_digits(s.drop_first(), 0)
    } else {
        fold_usize_digits(s, 0)
    }
}

/// Reads a `usize` in base 10, as `str::parse::<usize>` does.
pub fn parse_usize(s: &str) -> (r: Result<usize, IntErrorKind>)
    ensures
        match (r, spec_parse_usize(s@)) {
            (Ok(v), Ok(w)) => v == w,
            (Err(e), Err(f)) => e == f,
            _ => false,
        },
{
    let n = s.unicode_len();
    if n == 0 {
        return Err(IntErrorKind::Empty);
    }
    let first = s.get_char(0);
    if n == 1 && (first == '+' || first == '-') {
        return Err(IntErrorKind::InvalidDigit);
    }
    let mut i: usize = if first == '+' {
        1
    } else {
        0
    };
    let ghost ds0 = s@.skip(i as int);
    assert(first == '+' ==> s@.drop_first() == ds0);
    assert(first != '+' ==> s@ == ds0);
    let mut acc: usize = 0;
    assert(spec_parse_usize(s@) == fold_usize_digits(ds0, 0));
    while i < n
        invariant
            spec_parse_usize(s@) == fold_usize_digits(ds0, 0),
            n == s@.len(),
            i <= n,
            fold_usize_digits(ds0, 0) == fold_usize_digits(s@.skip(i as int), acc as int),
        decreases n - i,
    {
        let c = s.get_char(i);
        let ghost rest = s@.skip(i as int);
        assert(rest[0] == c);
        assert(rest.drop_first() == s@.skip(i + 1));
        if c < '0' || c > '9' {
            return Err(IntErrorKind::InvalidDigit);
        }
        let d = (c as u32 - '0' as u32) as usize;
        let next = match acc.checked_mul(10) {
            Some(v) => v.checked_add(d),
            None => None,
        };
        match next {
            Some(v) => {
                acc = v;
            },
            None => {
                return Err(IntErrorKind::PosOverflow);
            },
        }
        i += 1;
    }
    assert(s@.skip(n as int).len() == 0);
    Ok(acc)
}

} // verus!
