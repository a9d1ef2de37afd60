//! What the tags of a MiniMessage string mean: colors, decorations and special tags.
pub mod click_event;
pub mod color;
pub mod hover_event;
pub mod item;
pub mod laws;
pub mod number;
pub mod rainbow;
pub mod snbt;
pub mod special;

use std::borrow::Cow;

use vstd::prelude::*;

use crate::parser::descriptors_view;
use crate::text::str_eq;

pub use crate::style::click_event::ClickEvent;
pub use crate::style::color::{Color, ParseColorError};
pub use crate::style::hover_event::HoverEvent;
pub use crate::style::item::{Components, Enchantments, Item};
pub use crate::style::special::{Special, SpecialError};

verus! {

/// A value that a special tag builds from the descriptors of its element.
pub trait TryFromDescriptors: Sized {
    /// Whether building from descriptors `ds` runs without panicking.
    spec fn accepts_descriptors(ds: Seq<Seq<char>>) -> bool;

    /// The value the descriptors describe, or why there is none.
    fn try_from_descriptors(args: Vec<Cow<'_, str>>) -> (r: Result<Self, SpecialError>)
        requires
            Self::accepts_descriptors(descriptors_view(args@)),
    ;
}

/// The sixteen named text colors.
#[derive(Debug, Clone, Copy, PartialEq, Eq)]
pub enum NamedColor {
    Black,
    DarkBlue,
    DarkGreen,
    DarkAqua,
    DarkRed,
    DarkPurple,
    Gold,
    Gray,
    DarkGray,
    Blue,
    Green,
    Aqua,
    Red,
    LightPurple,
    Yellow,
    White,
}

/// The named color a tag names, in snake case, if any.
pub open spec fn named_color_of(tag: Seq<char>) -> Option<NamedColor> {
    if tag == "black"@ {
        Some(NamedColor::Black)
    } else if tag == "dark_blue"@ {
        Some(NamedColor::DarkBlue)
    } else if tag == "dark_green"@ {
        Some(NamedColor::DarkGreen)
    } else if tag == "dark_aqua"@ {
        Some(NamedColor::DarkAqua)
    } else if tag == "dark_red"@ {
        Some(NamedColor::DarkRed)
    } else if tag == "dark_purple"@ {
        Some(NamedColor::DarkPurple)
    } else if tag == "gold"@ {
        Some(NamedColor::Gold)
    } else if tag == "gray"@ {
        Some(NamedColor::Gray)
    } else if tag == "dark_gray"@ {
        Some(NamedColor::DarkGray)
    } else if tag == "blue"@ {
        Some(NamedColor::Blue)
    } else if tag == "green"@ {
        Some(NamedColor::Green)
    } else if tag == "aqua"@ {
        Some(NamedColor::Aqua)
    } else if tag == "red"@ {
        Some(NamedColor::Red)
    } else if tag == "light_purple"@ {
        Some(NamedColor::LightPurple)
    } else if tag == "yellow"@ {
        Some(NamedColor::Yellow)
    } else if tag == "white"@ {
        Some(NamedColor::White)
    } else {
        None
    }
}

/// The named color a tag names, if any.
pub fn tag_to_named_color(tag: &str) -> (r: Option<NamedColor>)
    ensures
        r == named_color_of(tag@),
{
    if str_eq(tag, "black") {
        Some(NamedColor::Black)
    } else if str_eq(tag, "dark_blue") {
        Some(NamedColor::DarkBlue)
    } else if str_eq(tag, "dark_green") {
        Some(NamedColor::DarkGreen)
    } else if str_eq(tag, "dark_aqua") {
        Some(NamedColor::DarkAqua)
    } else if str_eq(tag, "dark_red") {
        Some(NamedColor::DarkRed)
    } else if str_eq(tag, "dark_purple") {
        Some(NamedColor::DarkPurple)
    } else if str_eq(tag, "gold") {
        Some(NamedColor::Gold)
    } else if str_eq(tag, "gray") {
        Some(NamedColor::Gray)
    } else if str_eq(tag, "dark_gray") {
        Some(NamedColor::DarkGray)
    } else if str_eq(tag, "blue") {
        Some(NamedColor::Blue)
    } else if str_eq(tag, "green") {
        Some(NamedColor::Green)
    } else if str_eq(tag, "aqua") {
        Some(NamedColor::Aqua)
    } else if str_eq(tag, "red") {
        Some(NamedColor::Red)
    } else if str_eq(tag, "light_purple") {
        Some(NamedColor::LightPurple)
    } else if str_eq(tag, "yellow") {
        Some(NamedColor::Yellow)
    } else if str_eq(tag, "white") {
        Some(NamedColor::White)
    } else {
        None
    }
}

/// The text decorations.
#[derive(Debug, Clone, Copy, PartialEq, Eq)]
pub enum Decoration {
    Bold,
    Italic,
    Underlined,
    Strikethrough,
    Obfuscated,
}

/// The decoration a tag names, in snake case, if any.
pub open spec fn decoration_of(tag: Seq<char>) -> Option<Decoration> {
    if tag == "bold"@ {
        Some(Decoration::Bold)
    } else if tag == "italic"@ {
        Some(Decoration::Italic)
    } else if tag == "underlined"@ {
        Some(Decoration::Underlined)
    } else if tag == "strikethrough"@ {
        Some(Decoration::Strikethrough)
    } else if tag == "obfuscated"@ {
        Some(Decoration::Obfuscated)
    } else {
        None
    }
}

/// The decoration a tag names, if any.
pub fn tag_to_decoration(tag: &str) -> (r: Option<Decoration>)
    ensures
        r == decoration_of(tag@),
{
    if str_eq(tag, "bold") {
        Some(Decoration::Bold)
    } else if str_eq(tag, "italic") {
        Some(Decoration::Italic)
    } else if str_eq(tag, "underlined") {
        Some(Decoration::Underlined)
    } else if str_eq(tag, "strikethrough") {
        Some(Decoration::Strikethrough)
    } else if str_eq(tag, "obfuscated") {
        Some(Decoration::Obfuscated)
    } else {
        None
    }
}

/// The characters of a descriptor, as an owned string.
pub fn cow_to_string(c: &Cow<'_, str>) -> (r: String)
    ensures
        r@ == c@,
{
    match c {
        Cow::Borrowed(b) => (*b).to_owned(),
        Cow::Owned(o) => o.clone(),
    }
}

/// A result taken by the views of its values.
pub open spec fn result_view<T: View, E: View>(r: Result<T, E>) -> Result<T::V, E::V> {
    match r {
        Ok(t) => Ok(t@),
        Err(e) => Err(e@),
    }
}

} // verus!
