//! Rainbow-colored text: a hue sweep over the characters of an element.
use std::borrow::Cow;

use vstd::prelude::*;
use vstd::string::StrSliceExecFns;

use crate::parser::descriptors_view;
use crate::style::TryFromDescriptors;
use crate::style::cow_to_string;
use crate::style::special::{cows_to_strings, SpecialError, SpecialErrorView};

verus! {

/// Why a rainbow descriptor could not be read.
#[derive(Debug, PartialEq)]
pub enum RainbowError {
    /// A character other than a digit; holds the descriptor without its leading `!`.
    ExpectedInt(String),
    /// The descriptor was empty.
    EmptyString,
    /// The offset does not fit in a `usize`.
    IntegerOverflow,
}

/// The mathematical value of a rainbow error.
pub enum RainbowErrorView {
    ExpectedInt(Seq<char>),
    EmptyString,
    IntegerOverflow,
}

impl View for RainbowError {
    type V = RainbowErrorView;

    open spec fn view(&self) -> RainbowErrorView {
        match self {
            RainbowError::ExpectedInt(s) => RainbowErrorView::ExpectedInt(s@),
            RainbowError::EmptyString => RainbowErrorView::EmptyString,
            RainbowError::IntegerOverflow => RainbowErrorView::IntegerOverflow,
        }
    }
}

/// A rainbow: whether its hues run backwards, and how far its sweep is shifted.
#[derive(Debug, Clone, Copy, PartialEq, Eq)]
pub struct Rainbow {
    pub inverted: bool,
    pub offset: usize,
}

impl Default for Rainbow {
    fn default() -> (r: Self)
        ensures
            r == (Rainbow { inverted: false, offset: 0 }),
    {
        Rainbow { inverted: false, offset: 0 }
    }
}

impl std::str::FromStr for Rainbow {
    type Err = RainbowError;

    fn from_str(s: &str) -> (r: Result<Rainbow, RainbowError>)
        ensures
            match (r, spec_rainbow_from_str(s@)) {
                (Ok(a), Ok(b)) => a == b,
                (Err(e), Err(f)) => e@ == f,
                _ => false,
            },
    {
        Rainbow::from_text(s)
    }
}

/// Reads the digits `ds` in base 10 after the value `acc`; a non-digit is an error that
/// holds `whole`, and so is a value past `usize::MAX`, whichever comes first.
pub open spec fn fold_offset(ds: Seq<char>, acc: int, whole: Seq<char>) -> Result<int, RainbowErrorView>
    decreases ds.len(),
{
    if ds.len() == 0 {
        Ok(acc)
    } else if !('0' <= ds[0] <= '9') {
        Err(RainbowErrorView::ExpectedInt(whole))
    } else {
        let next = acc * 10 + (ds[0] as int - '0' as int);
        if next > usize::MAX {
            Err(RainbowErrorView::IntegerOverflow)
        } else {
            fold_offset(ds.drop_first(), next, whole)
        }
    }
}

/// The rainbow a descriptor describes: an optional `!` for backwards, then the offset in
/// decimal (none means 0).
pub open spec fn spec_rainbow_from_str(s: Seq<char>) -> Result<Rainbow, RainbowErrorView> {
    if s.len() == 0 {
        Err(RainbowErrorView::EmptyString)
    } else {
        let inverted = s[0] == '!';
        let ds = if inverted {
            s.drop_first()
        } else {
            s
        };
        match fold_offset(ds, 0, ds) {
            Ok(off) => Ok(Rainbow { inverted, offset: off as usize }),
            Err(e) => Err(e),
        }
    }
}

impl Rainbow {
    /// Reads a rainbow descriptor such as `!2`.
    pub fn from_text(s: &str) -> (r: Result<Rainbow, RainbowError>)
        ensures
            match (r, spec_rainbow_from_str(s@)) {
                (Ok(a), Ok(b)) => a == b,
                (Err(e), Err(f)) => e@ == f,
                _ => false,
            },
    {
        let n = s.unicode_len();
        if n == 0 {
            return Err(RainbowError::EmptyString);
        }
        let inverted = s.get_char(0) == '!';
        let digits = if inverted {
            s.substring_char(1, n)
        } else {
            s
        };
        assert(inverted ==> digits@ == s@.drop_first());
        let m = digits.unicode_len();
        let mut offset: usize = 0;
        let mut i: usize = 0;
        assert(digits@.skip(0) == digits@);
        while i < m
            invariant
                s@.len() > 0,
                inverted == (s@[0] == '!'),
                digits@ == if inverted {
                    s@.drop_first()
                } else {
                    s@
                },
                m == digits@.len(),
                i <= m,
                fold_offset(digits@, 0, digits@) == fold_offset(
                    digits@.skip(i as int),
                    offset as int,
                    digits@,
                ),
            decreases m - i,
        {
            let c = digits.get_char(i);
            let ghost rest = digits@.skip(i as int);
            assert(rest[0] == c);
            assert(rest.drop_first() == digits@.skip(i + 1));
            if !('0' <= c && c <= '9') {
                return Err(RainbowError::ExpectedInt(digits.to_owned()));
            }
            let d = (c as u32 - '0' as u32) as usize;
            let next = match offset.checked_mul(10) {
                Some(v) => v.checked_add(d),
                None => None,
            };
            match next {
                Some(v) => {
                    offset = v;
                },
                None => {
                    return Err(RainbowError::IntegerOverflow);
                },
            }
            i += 1;
        }
        assert(digits@.skip(m as int).len() == 0);
        Ok(Rainbow { inverted, offset })
    }
}

/// The rainbow the descriptors describe: none gives the plain rainbow, one is read as
/// above, more are refused.
pub open spec fn spec_rainbow_from_descriptors(ds: Seq<Seq<char>>) -> Result<Rainbow, SpecialErrorView> {
    if ds.len() == 0 {
        Ok(Rainbow { inverted: false, offset: 0 })
    } else if ds.len() == 1 {
        match spec_rainbow_from_str(ds[0]) {
            Ok(r) => Ok(r),
            Err(e) => Err(SpecialErrorView::RainbowError(e)),
        }
    } else {
        Err(SpecialErrorView::TooManyArguments(ds))
    }
}

impl TryFromDescriptors for Rainbow {
    open spec fn accepts_descriptors(ds: Seq<Seq<char>>) -> bool {
        true
    }

    /// The rainbow the descriptors of a `rainbow` element describe.
    fn try_from_descriptors(args: Vec<Cow<'_, str>>) -> (r: Result<Rainbow, SpecialError>)
        ensures
            match (r, spec_rainbow_from_descriptors(descriptors_view(args@))) {
                (Ok(a), Ok(b)) => a == b,
                (Err(e), Err(f)) => e@ == f,
                _ => false,
            },
    {
        if args.len() == 0 {
            return Ok(Rainbow::default());
        }
        if args.len() == 1 {
            let s = cow_to_string(&args[0]);
            return match Rainbow::from_text(s.as_str()) {
                Ok(r) => Ok(r),
                Err(e) => Err(SpecialError::RainbowError(e)),
            };
        }
        let all = cows_to_strings(&args, 0);
        assert(descriptors_view(args@).skip(0) == descriptors_view(args@));
        Err(SpecialError::TooManyArguments(all))
    }
}

} // verus!
