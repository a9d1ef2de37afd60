//! Special tags: click and hover actions, hex colors and rainbows.
use std::borrow::Cow;

use vstd::prelude::*;

use crate::parser::descriptors_view;
use crate::style::click_event::{spec_click_from_descriptors, ClickEvent, ClickEventView};
use crate::style::color::{color_text_panics, color_text_would_panic, spec_color_from_descriptors, Color, ParseColorError};
use crate::style::cow_to_string;
use crate::style::hover_event::{spec_hover_from_descriptors, HoverEvent, HoverEventView};
use crate::style::number::IntErrorKind;
use crate::style::rainbow::{spec_rainbow_from_descriptors, Rainbow, RainbowError, RainbowErrorView};
use crate::style::snbt::SnbtError;
use crate::style::TryFromDescriptors;
use crate::text::str_eq;

verus! {

/// Why a special tag could not be built.
#[derive(Debug)]
pub enum SpecialError {
    /// A click or hover tag had no action.
    MissingSpecialType,
    /// An element's tag is no known tag.
    UnknownTag(String),
    /// A name is no known special tag or action.
    NotFound,
    /// A number argument is not an `i32`.
    ParseInt(IntErrorKind),
    /// A color argument is not a hex color.
    ParseColor(ParseColorError),
    /// An SNBT argument could not be read.
    Snbt(SnbtError),
    /// An item modifier is not known; holds it.
    InvalidModifier(String),
    /// The named argument is missing.
    MissingArgument(&'static str),
    /// There were more arguments than the tag takes; holds them all.
    TooManyArguments(Vec<String>),
    /// The placeholder action was named.
    EmptyEventReached,
    /// A rainbow descriptor could not be read.
    RainbowError(RainbowError),
}

/// The mathematical value of a special-tag error; an SNBT error is taken as is.
pub enum SpecialErrorView {
    MissingSpecialType,
    UnknownTag(Seq<char>),
    NotFound,
    ParseInt(IntErrorKind),
    ParseColor(ParseColorError),
    Snbt,
    InvalidModifier(Seq<char>),
    MissingArgument(Seq<char>),
    TooManyArguments(Seq<Seq<char>>),
    EmptyEventReached,
    RainbowError(RainbowErrorView),
}

/// The characters of each of a list of strings.
pub open spec fn strings_view(v: Seq<String>) -> Seq<Seq<char>> {
    v.map_values(|s: String| s@)
}

impl View for SpecialError {
    type V = SpecialErrorView;

    open spec fn view(&self) -> SpecialErrorView {
        match self {
            SpecialError::MissingSpecialType => SpecialErrorView::MissingSpecialType,
            SpecialError::UnknownTag(s) => SpecialErrorView::UnknownTag(s@),
            SpecialError::NotFound => SpecialErrorView::NotFound,
            SpecialError::ParseInt(k) => SpecialErrorView::ParseInt(*k),
            SpecialError::ParseColor(e) => SpecialErrorView::ParseColor(*e),
            SpecialError::Snbt(_) => SpecialErrorView::Snbt,
            SpecialError::InvalidModifier(s) => SpecialErrorView::InvalidModifier(s@),
            SpecialError::MissingArgument(s) => SpecialErrorView::MissingArgument(s@),
            SpecialError::TooManyArguments(v) => SpecialErrorView::TooManyArguments(strings_view(v@)),
            SpecialError::EmptyEventReached => SpecialErrorView::EmptyEventReached,
            SpecialError::RainbowError(e) => SpecialErrorView::RainbowError(e@),
        }
    }
}

/// The descriptors from position `from` on, as owned strings.
pub fn cows_to_strings(args: &Vec<Cow<'_, str>>, from: usize) -> (r: Vec<String>)
    requires
        from <= args@.len(),
    ensures
        strings_view(r@) == descriptors_view(args@).skip(from as int),
{
    let mut r: Vec<String> = Vec::new();
    let mut i = from;
    while i < args.len()
        invariant
            from <= i <= args@.len(),
            strings_view(r@) == descriptors_view(args@).subrange(from as int, i as int),
        decreases args@.len() - i,
    {
        let s = cow_to_string(&args[i]);
        assert(strings_view(r@.push(s)) == strings_view(r@).push(s@));
        assert(descriptors_view(args@).subrange(from as int, i + 1) == descriptors_view(args@).subrange(
            from as int,
            i as int,
        ).push(args@[i as int]@));
        r.push(s);
        i += 1;
    }
    assert(descriptors_view(args@).subrange(from as int, args@.len() as int) == descriptors_view(
        args@,
    ).skip(from as int));
    r
}

/// Whether building the special tag `tag` from these descriptors would cut a character
/// of a color in two.
pub fn special_would_panic(tag: &str, descriptors: &Vec<Cow<'_, str>>) -> (r: bool)
    ensures
        r == special_panics(tag@, descriptors_view(descriptors@)),
{
    if str_eq(tag, "color") && descriptors.len() > 0 {
        let s: &str = match &descriptors[0] {
            Cow::Borrowed(b) => b,
            Cow::Owned(o) => o.as_str(),
        };
        color_text_would_panic(s)
    } else {
        false
    }
}

/// A special tag with what it carries.
#[derive(Debug, Clone)]
pub enum Special {
    Click(ClickEvent),
    Hover(HoverEvent),
    Color(Color),
    Rainbow(Rainbow),
}

/// The mathematical value of a special tag.
pub enum SpecialView {
    Click(ClickEventView),
    Hover(HoverEventView),
    Color(Color),
    Rainbow(Rainbow),
}

impl View for Special {
    type V = SpecialView;

    open spec fn view(&self) -> SpecialView {
        match self {
            Special::Click(c) => SpecialView::Click(c@),
            Special::Hover(h) => SpecialView::Hover(h@),
            Special::Color(c) => SpecialView::Color(*c),
            Special::Rainbow(r) => SpecialView::Rainbow(*r),
        }
    }
}

/// Whether building the special tag `tag` from descriptors `ds` would cut a character
/// of a color in two.
pub open spec fn special_panics(tag: Seq<char>, ds: Seq<Seq<char>>) -> bool {
    tag == "color"@ && ds.len() > 0 && color_text_panics(ds[0])
}

/// The special tag that tag `tag` with descriptors `ds` stands for, or why there is none;
/// a tag that is no special tag gives `NotFound`.
pub open spec fn spec_special_from(tag: Seq<char>, ds: Seq<Seq<char>>) -> Result<SpecialView, SpecialErrorView> {
    if tag == "click"@ {
        match spec_click_from_descriptors(ds) {
            Ok(c) => Ok(SpecialView::Click(c)),
            Err(e) => Err(e),
        }
    } else if tag == "hover"@ {
        match spec_hover_from_descriptors(ds) {
            Ok(h) => Ok(SpecialView::Hover(h)),
            Err(e) => Err(e),
        }
    } else if tag == "color"@ {
        match spec_color_from_descriptors(ds) {
            Ok(c) => Ok(SpecialView::Color(c)),
            Err(e) => Err(e),
        }
    } else if tag == "rainbow"@ {
        match spec_rainbow_from_descriptors(ds) {
            Ok(c) => Ok(SpecialView::Rainbow(c)),
            Err(e) => Err(e),
        }
    } else {
        Err(SpecialErrorView::NotFound)
    }
}

impl Special {
    /// The special tag an element with tag `tag` and these descriptors stands for.
    pub fn from_descriptor(tag: &str, descriptors: Vec<Cow<'_, str>>) -> (r: Result<Self, SpecialError>)
        requires
            !special_panics(tag@, descriptors_view(descriptors@)),
        ensures
            match (r, spec_special_from(tag@, descriptors_view(descriptors@))) {
                (Ok(a), Ok(b)) => a@ == b,
                (Err(e), Err(f)) => e@ == f,
                _ => false,
            },
    {
        if str_eq(tag, "click") {
            match ClickEvent::try_from_descriptors(descriptors) {
                Ok(c) => Ok(Special::Click(c)),
                Err(e) => Err(e),
            }
        } else if str_eq(tag, "hover") {
            match HoverEvent::try_from_descriptors(descriptors) {
                Ok(h) => Ok(Special::Hover(h)),
                Err(e) => Err(e),
            }
        } else if str_eq(tag, "color") {
            match Color::try_from_descriptors(descriptors) {
                Ok(c) => Ok(Special::Color(c)),
                Err(e) => Err(e),
            }
        } else if str_eq(tag, "rainbow") {
            match Rainbow::try_from_descriptors(descriptors) {
                Ok(r) => Ok(Special::Rainbow(r)),
                Err(e) => Err(e),
            }
        } else {
            Err(SpecialError::NotFound)
        }
    }
}

} // verus!
