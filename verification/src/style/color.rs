//! RGB colors given in hex, such as `#ff8800`.
use std::borrow::Cow;

use vstd::prelude::*;
use vstd::string::StrSliceExecFns;

use crate::parser::descriptors_view;
use crate::style::TryFromDescriptors;
use crate::style::number::{hex_byte, spec_hex_byte, IntErrorKind};
use crate::style::special::{SpecialError, SpecialErrorView};

verus! {

/// A color by its red, green and blue components.
#[derive(Debug, Clone, Copy, PartialEq, Eq)]
pub struct Color(pub u8, pub u8, pub u8);

/// Why a text is not a hex color.
#[derive(Debug, Clone, Copy, PartialEq, Eq)]
pub enum ParseColorError {
    /// The hex part is not six bytes long.
    InvalidLength,
    /// A two-byte piece of the hex part is not a hex number.
    InvalidHex(IntErrorKind),
}

/// The number of bytes a character takes in UTF-8.
pub open spec fn char_utf8_len(c: char) -> nat {
    if (c as u32) < 0x80 {
        1
    } else if (c as u32) < 0x800 {
        2
    } else if (c as u32) < 0x10000 {
        3
    } else {
        4
    }
}

/// The number of bytes a text takes in UTF-8.
pub open spec fn utf8_len(s: Seq<char>) -> nat
    decreases s.len(),
{
    if s.len() == 0 {
        0
    } else {
        utf8_len(s.drop_last()) + char_utf8_len(s.last())
    }
}

/// Whether byte offset `k` falls between two characters of `s`.
pub open spec fn is_byte_boundary(s: Seq<char>, k: int) -> bool {
    exists|i: int| 0 <= i <= s.len() && #[trigger] utf8_len(s.take(i)) == k
}

/// The text after one leading `#`, if there is one.
pub open spec fn strip_hash(s: Seq<char>) -> Seq<char> {
    if s.len() > 0 && s[0] == '#' {
        s.drop_first()
    } else {
        s
    }
}

/// Whether every character is ASCII.
pub open spec fn all_ascii(s: Seq<char>) -> bool {
    forall|i: int| 0 <= i < s.len() ==> (#[trigger] s[i] as u32) < 0x80
}

/// Whether reading `s` as a color would cut a character in two: its hex part is six
/// bytes long but byte 2 or byte 4 falls inside a character.
pub open spec fn color_text_panics(s: Seq<char>) -> bool {
    let h = strip_hash(s);
    utf8_len(h) == 6 && !(is_byte_boundary(h, 2) && is_byte_boundary(h, 4))
}

/// The color a text names: an optional `#`, then six bytes read as three two-byte hex
/// numbers.
pub open spec fn spec_color_from_str(s: Seq<char>) -> Result<Color, ParseColorError> {
    let h = strip_hash(s);
    if utf8_len(h) != 6 {
        Err(ParseColorError::InvalidLength)
    } else if !all_ascii(h) {
        Err(ParseColorError::InvalidHex(IntErrorKind::InvalidDigit))
    } else {
        match (spec_hex_byte(h[0], h[1]), spec_hex_byte(h[2], h[3]), spec_hex_byte(h[4], h[5])) {
            (Some(r), Some(g), Some(b)) => Ok(Color(r, g, b)),
            _ => Err(ParseColorError::InvalidHex(IntErrorKind::InvalidDigit)),
        }
    }
}

/// An ASCII text takes one byte per character.
pub proof fn lemma_ascii_utf8_len(s: Seq<char>)
    requires
        all_ascii(s),
    ensures
        utf8_len(s) == s.len(),
    decreases s.len(),
{
    if s.len() > 0 {
        assert((s.last() as u32) < 0x80);
        lemma_ascii_utf8_len(s.drop_last());
    }
}

/// A text takes at least as many bytes as any prefix of it.
proof fn lemma_utf8_len_prefix(s: Seq<char>, i: int)
    requires
        0 <= i <= s.len(),
    ensures
        utf8_len(s.take(i)) <= utf8_len(s),
    decreases s.len() - i,
{
    if i < s.len() {
        lemma_utf8_len_prefix(s, i + 1);
        assert(s.take(i + 1).drop_last() == s.take(i));
    } else {
        assert(s.take(i) == s);
    }
}

/// Each character takes at least one byte, so longer prefixes take more bytes.
proof fn lemma_utf8_len_increasing(s: Seq<char>, i: int, j: int)
    requires
        0 <= i < j <= s.len(),
    ensures
        utf8_len(s.take(i)) < utf8_len(s.take(j)),
    decreases j - i,
{
    assert(s.take(j).drop_last() == s.take(j - 1));
    if i < j - 1 {
        lemma_utf8_len_increasing(s, i, j - 1);
    }
}

/// The number of bytes a character takes in UTF-8.
fn char_len_utf8(c: char) -> (r: usize)
    ensures
        r == char_utf8_len(c),
{
    let v = c as u32;
    if v < 0x80 {
        1
    } else if v < 0x800 {
        2
    } else if v < 0x10000 {
        3
    } else {
        4
    }
}

/// Whether byte offsets 2 and 4 of `hex` both fall between characters.
fn cuts_between_chars(hex: &str) -> (r: bool)
    ensures
        r == (is_byte_boundary(hex@, 2) && is_byte_boundary(hex@, 4)),
{
    let m = hex.unicode_len();
    let mut bytes: usize = 0;
    let mut at2 = false;
    let mut at4 = false;
    let mut i: usize = 0;
    assert(utf8_len(hex@.take(0)) == 0);
    loop
        invariant
            m == hex@.len(),
            i <= m,
            bytes == utf8_len(hex@.take(i as int)),
            at2 == exists|j: int| 0 <= j <= i && #[trigger] utf8_len(hex@.take(j)) == 2,
            at4 == exists|j: int| 0 <= j <= i && #[trigger] utf8_len(hex@.take(j)) == 4,
        ensures
            at2 == is_byte_boundary(hex@, 2),
            at4 == is_byte_boundary(hex@, 4),
        decreases m - i,
    {
        if i == m || bytes > 4 {
            proof {
                assert forall|j: int| i < j <= m implies #[trigger] utf8_len(hex@.take(j)) > 4 by {
                    lemma_utf8_len_increasing(hex@, i as int, j);
                }
            }
            break;
        }
        let c = hex.get_char(i);
        assert(hex@.take(i + 1).drop_last() == hex@.take(i as int));
        assert(hex@.take(i + 1).last() == c);
        let ghost old_at2 = at2;
        bytes = bytes + char_len_utf8(c);
        i += 1;
        assert(utf8_len(hex@.take(i as int)) == bytes);
        if bytes == 2 {
            at2 = true;
        }
        proof {
            if !at2 {
                assert forall|j: int| 0 <= j <= i implies #[trigger] utf8_len(hex@.take(j)) != 2 by {
                    if j < i {
                        assert(!old_at2);
                    }
                }
            }
        }
        if bytes == 4 {
            at4 = true;
        }
    }
    at2 && at4
}

/// Whether reading `s` as a color would cut a character in two.
pub fn color_text_would_panic(s: &str) -> (r: bool)
    ensures
        r == color_text_panics(s@),
{
    let n = s.unicode_len();
    let hex = if n > 0 && s.get_char(0) == '#' {
        s.substring_char(1, n)
    } else {
        s
    };
    assert(hex@ == strip_hash(s@));
    let m = hex.unicode_len();
    let mut bytes: usize = 0;
    let mut i: usize = 0;
    while i < m && bytes <= 6
        invariant
            m == hex@.len(),
            i <= m,
            bytes == utf8_len(hex@.take(i as int)),
        decreases m - i,
    {
        let c = hex.get_char(i);
        assert(hex@.take(i + 1).drop_last() == hex@.take(i as int));
        assert(hex@.take(i + 1).last() == c);
        bytes = bytes + char_len_utf8(c);
        i += 1;
    }
    proof {
        lemma_utf8_len_prefix(hex@, i as int);
        assert(hex@.take(m as int) == hex@);
    }
    if bytes != 6 || i < m {
        return false;
    }
    !cuts_between_chars(hex)
}

impl Color {
    /// Reads a hex color, with or without a leading `#`.
    pub fn from_hex(s: &str) -> (r: Result<Color, ParseColorError>)
        requires
            !color_text_panics(s@),
        ensures
            r == spec_color_from_str(s@),
    {
        let n = s.unicode_len();
        let (hex, start) = if n > 0 && s.get_char(0) == '#' {
            (s.substring_char(1, n), 1usize)
        } else {
            (s, 0usize)
        };
        assert(hex@ == strip_hash(s@));
        let m = hex.unicode_len();
        let mut bytes: usize = 0;
        let mut ascii = true;
        let mut i: usize = 0;
        while i < m && bytes <= 6
            invariant
                m == hex@.len(),
                i <= m,
                bytes == utf8_len(hex@.take(i as int)),
                ascii == all_ascii(hex@.take(i as int)),
            decreases m - i,
        {
            let c = hex.get_char(i);
            assert(hex@.take(i + 1).drop_last() == hex@.take(i as int));
            assert(hex@.take(i + 1).last() == c);
            bytes = bytes + char_len_utf8(c);
            if c as u32 >= 0x80 {
                ascii = false;
            }
            proof {
                if ascii {
                    assert forall|j: int| 0 <= j < i + 1 implies (#[trigger] hex@.take(i + 1)[j] as u32)
                        < 0x80 by {
                        if j < i {
                            assert(hex@.take(i + 1)[j] == hex@.take(i as int)[j]);
                        }
                    }
                } else {
                    if c as u32 >= 0x80 {
                        assert((hex@.take(i + 1)[i as int] as u32) >= 0x80);
                    } else {
                        let j = choose|j: int| 0 <= j < i && !((#[trigger] hex@.take(i as int)[j] as u32) < 0x80);
                        assert(hex@.take(i + 1)[j] == hex@.take(i as int)[j]);
                    }
                }
            }
            i += 1;
        }
        proof {
            lemma_utf8_len_prefix(hex@, i as int);
            if i == m {
                assert(hex@.take(m as int) == hex@);
            }
        }
        if bytes != 6 || i < m {
            return Err(ParseColorError::InvalidLength);
        }
        assert(hex@.take(m as int) == hex@);
        if !ascii {
            return Err(ParseColorError::InvalidHex(IntErrorKind::InvalidDigit));
        }
        proof {
            lemma_ascii_utf8_len(hex@);
        }
        let r = hex_byte(hex.get_char(0), hex.get_char(1));
        let g = hex_byte(hex.get_char(2), hex.get_char(3));
        let b = hex_byte(hex.get_char(4), hex.get_char(5));
        match (r, g, b) {
            (Some(r), Some(g), Some(b)) => Ok(Color(r, g, b)),
            _ => Err(ParseColorError::InvalidHex(IntErrorKind::InvalidDigit)),
        }
    }
}

/// The color the first descriptor names.
pub open spec fn spec_color_from_descriptors(ds: Seq<Seq<char>>) -> Result<Color, SpecialErrorView> {
    if ds.len() == 0 {
        Err(SpecialErrorView::MissingArgument("color_hex"@))
    } else {
        match spec_color_from_str(ds[0]) {
            Ok(c) => Ok(c),
            Err(e) => Err(SpecialErrorView::ParseColor(e)),
        }
    }
}

impl TryFromDescriptors for Color {
    open spec fn accepts_descriptors(ds: Seq<Seq<char>>) -> bool {
        ds.len() > 0 ==> !color_text_panics(ds[0])
    }

    /// The color the first descriptor names in hex.
    fn try_from_descriptors(descriptors: Vec<Cow<'_, str>>) -> (r: Result<Color, SpecialError>)
        ensures
            match (r, spec_color_from_descriptors(descriptors_view(descriptors@))) {
                (Ok(c), Ok(d)) => c == d,
                (Err(e), Err(f)) => e@ == f,
                _ => false,
            },
    {
        if descriptors.len() == 0 {
            proof {
                reveal_strlit("color_hex");
            }
            return Err(SpecialError::MissingArgument("color_hex"));
        }
        let s: &str = match &descriptors[0] {
            Cow::Borrowed(b) => b,
            Cow::Owned(o) => o.as_str(),
        };
        match Color::from_hex(s) {
            Ok(c) => Ok(c),
            Err(e) => Err(SpecialError::ParseColor(e)),
        }
    }
}

} // verus!
