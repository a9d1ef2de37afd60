//! What the names of colors and decorations, and hex digits, stand for.
use vstd::prelude::*;

use crate::style::color::{all_ascii, char_utf8_len, spec_color_from_str, strip_hash, utf8_len};
use crate::style::number::{hex_digit, spec_hex_byte};
use crate::style::{decoration_of, named_color_of, Decoration, NamedColor};

verus! {

/// The snake-case name of each named color.
pub open spec fn color_name(c: NamedColor) -> Seq<char> {
    match c {
        NamedColor::Black => "black"@,
        NamedColor::DarkBlue => "dark_blue"@,
        NamedColor::DarkGreen => "dark_green"@,
        NamedColor::DarkAqua => "dark_aqua"@,
        NamedColor::DarkRed => "dark_red"@,
        NamedColor::DarkPurple => "dark_purple"@,
        NamedColor::Gold => "gold"@,
        NamedColor::Gray => "gray"@,
        NamedColor::DarkGray => "dark_gray"@,
        NamedColor::Blue => "blue"@,
        NamedColor::Green => "green"@,
        NamedColor::Aqua => "aqua"@,
        NamedColor::Red => "red"@,
        NamedColor::LightPurple => "light_purple"@,
        NamedColor::Yellow => "yellow"@,
        NamedColor::White => "white"@,
    }
}

/// The snake-case name of each decoration.
pub open spec fn decoration_name(d: Decoration) -> Seq<char> {
    match d {
        Decoration::Bold => "bold"@,
        Decoration::Italic => "italic"@,
        Decoration::Underlined => "underlined"@,
        Decoration::Strikethrough => "strikethrough"@,
        Decoration::Obfuscated => "obfuscated"@,
    }
}

/// Each named color is found by exactly its own snake-case name: the lookup gives `c`
/// for the name of `c`, and a name that gives `c` is the name of `c`.
pub proof fn law_named_color_names(c: NamedColor, s: Seq<char>)
    ensures
        named_color_of(color_name(c)) == Some(c),
        named_color_of(s) == Some(c) ==> s == color_name(c),
{

        reveal_strlit("black");
        reveal_strlit("dark_blue");
        reveal_strlit("dark_green");
        reveal_strlit("dark_aqua");
        reveal_strlit("dark_red");
        reveal_strlit("dark_purple");
        reveal_strlit("gold");
        reveal_strlit("gray");
        reveal_strlit("dark_gray");
        reveal_strlit("blue");
        reveal_strlit("green");
        reveal_strlit("aqua");
        reveal_strlit("red");
        reveal_strlit("light_purple");
        reveal_strlit("yellow");
        reveal_strlit("white");
    assert("black"@.len() == 5);
    assert("dark_blue"@.len() == 9);
    assert("dark_green"@.len() == 10);
    assert("dark_aqua"@.len() == 9);
    assert("dark_red"@.len() == 8);
    assert("dark_purple"@.len() == 11);
    assert("gold"@.len() == 4);
    assert("gray"@.len() == 4);
    assert("dark_gray"@.len() == 9);
    assert("blue"@.len() == 4);
    assert("green"@.len() == 5);
    assert("aqua"@.len() == 4);
    assert("red"@.len() == 3);
    assert("light_purple"@.len() == 12);
    assert("yellow"@.len() == 6);
    assert("white"@.len() == 5);
    assert("gold"@[1] == 'o' && "gray"@[1] == 'r');
    assert("blue"@[0] == 'b' && "aqua"@[0] == 'a' && "gold"@[0] == 'g' && "gray"@[0] == 'g');
    assert("black"@[0] == 'b' && "green"@[0] == 'g' && "white"@[0] == 'w');
    assert("dark_blue"@[5] == 'b' && "dark_aqua"@[5] == 'a' && "dark_gray"@[5] == 'g');
    match c {
        NamedColor::Black => assert(named_color_of(color_name(c)) == Some(c)),
        NamedColor::DarkBlue => assert(named_color_of(color_name(c)) == Some(c)),
        NamedColor::DarkGreen => assert(named_color_of(color_name(c)) == Some(c)),
        NamedColor::DarkAqua => assert(named_color_of(color_name(c)) == Some(c)),
        NamedColor::DarkRed => assert(named_color_of(color_name(c)) == Some(c)),
        NamedColor::DarkPurple => assert(named_color_of(color_name(c)) == Some(c)),
        NamedColor::Gold => assert(named_color_of(color_name(c)) == Some(c)),
        NamedColor::Gray => assert(named_color_of(color_name(c)) == Some(c)),
        NamedColor::DarkGray => assert(named_color_of(color_name(c)) == Some(c)),
        NamedColor::Blue => assert(named_color_of(color_name(c)) == Some(c)),
        NamedColor::Green => assert(named_color_of(color_name(c)) == Some(c)),
        NamedColor::Aqua => assert(named_color_of(color_name(c)) == Some(c)),
        NamedColor::Red => assert(named_color_of(color_name(c)) == Some(c)),
        NamedColor::LightPurple => assert(named_color_of(color_name(c)) == Some(c)),
        NamedColor::Yellow => assert(named_color_of(color_name(c)) == Some(c)),
        NamedColor::White => assert(named_color_of(color_name(c)) == Some(c)),
    }
}

/// Each decoration is found by exactly its own snake-case name: the lookup gives `d` for
/// the name of `d`, and a name that gives `d` is the name of `d`.
pub proof fn law_decoration_names(d: Decoration, s: Seq<char>)
    ensures
        decoration_of(decoration_name(d)) == Some(d),
        decoration_of(s) == Some(d) ==> s == decoration_name(d),
{
    reveal_strlit("bold");
    reveal_strlit("italic");
    reveal_strlit("underlined");
    reveal_strlit("strikethrough");
    reveal_strlit("obfuscated");
    assert("bold"@.len() == 4);
    assert("italic"@.len() == 6);
    assert("underlined"@.len() == 10);
    assert("strikethrough"@.len() == 13);
    assert("obfuscated"@.len() == 10);
    assert("underlined"@[0] == 'u' && "obfuscated"@[0] == 'o');
}

/// A character with ASCII capitals made small.
pub open spec fn ascii_lower(c: char) -> char {
    if 'A' <= c <= 'Z' {
        (c as int + 32) as char
    } else {
        c
    }
}

/// A text with ASCII capitals made small.
pub open spec fn ascii_lower_text(s: Seq<char>) -> Seq<char> {
    s.map_values(|c: char| ascii_lower(c))
}

/// The digit character of value `k` below 16: `0`-`9`, then `a`-`f`, or `A`-`F` when
/// `upper`.
pub open spec fn hex_char(k: int, upper: bool) -> char {
    if k < 10 {
        (k + 48) as char
    } else if upper {
        (k - 10 + 65) as char
    } else {
        (k - 10 + 97) as char
    }
}

/// Every hex digit character, small or capital, has the value it names, and no other
/// character than these sixteen values' digits has one.
pub proof fn law_hex_digit_values(k: int, upper: bool, c: char)
    requires
        0 <= k < 16,
    ensures
        hex_digit(hex_char(k, upper)) == Some(k),
        hex_digit(c) matches Some(v) ==> 0 <= v < 16 && (c == hex_char(v, false) || c == hex_char(v, true)),
{
}

/// Reading a hex digit does not depend on case.
pub proof fn law_hex_digit_case(a: char, b: char)
    ensures
        hex_digit(ascii_lower(a)) == hex_digit(a),
        spec_hex_byte(ascii_lower(a), ascii_lower(b)) == spec_hex_byte(a, b),
{
}

/// Making capitals small leaves the number of bytes of a text as it is.
proof fn lemma_lower_utf8_len(s: Seq<char>)
    ensures
        utf8_len(ascii_lower_text(s)) == utf8_len(s),
        all_ascii(ascii_lower_text(s)) == all_ascii(s),
    decreases s.len(),
{
    let l = ascii_lower_text(s);
    if s.len() > 0 {
        lemma_lower_utf8_len(s.drop_last());
        assert(l.drop_last() == ascii_lower_text(s.drop_last()));
        assert(l.last() == ascii_lower(s.last()));
        assert(char_utf8_len(ascii_lower(s.last())) == char_utf8_len(s.last()));
    }
    assert(all_ascii(l) == all_ascii(s)) by {
        if all_ascii(s) {
            assert forall|i: int| 0 <= i < l.len() implies (#[trigger] l[i] as u32) < 0x80 by {
                assert(l[i] == ascii_lower(s[i]));
                assert((s[i] as u32) < 0x80);
            }
        }
        if all_ascii(l) {
            assert forall|i: int| 0 <= i < s.len() implies (#[trigger] s[i] as u32) < 0x80 by {
                assert(l[i] == ascii_lower(s[i]));
                assert((l[i] as u32) < 0x80);
            }
        }
    }
}

/// A hex color reads the same in either case.
pub proof fn law_color_case(s: Seq<char>)
    ensures
        spec_color_from_str(ascii_lower_text(s)) == spec_color_from_str(s),
{
    let l = ascii_lower_text(s);
    let h = strip_hash(s);
    let hl = strip_hash(l);
    assert(hl == ascii_lower_text(h)) by {
        if s.len() > 0 {
            assert(l[0] == ascii_lower(s[0]));
            if s[0] == '#' {
                assert(l.drop_first() =~= ascii_lower_text(s.drop_first()));
            }
        }
    }
    lemma_lower_utf8_len(h);
    if utf8_len(h) == 6 && all_ascii(h) {
        crate::style::color::lemma_ascii_utf8_len(h);
        assert(h.len() == 6);
        assert forall|i: int| 0 <= i < 6 implies #[trigger] hl[i] == ascii_lower(h[i]) by {}
        assert(spec_hex_byte(hl[0], hl[1]) == spec_hex_byte(h[0], h[1]));
        assert(spec_hex_byte(hl[2], hl[3]) == spec_hex_byte(h[2], h[3]));
        assert(spec_hex_byte(hl[4], hl[5]) == spec_hex_byte(h[4], h[5]));
    }
}

} // verus!
