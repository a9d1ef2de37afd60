//! The decisions behind generating code for a MiniMessage string at compile time: what
//! each element stands for, and which argument each placeholder takes.
use std::borrow::Cow;

use vstd::prelude::*;
use vstd::string::{StrSliceExecFns, StringExecFns};

use crate::parser::descriptors_view;
use crate::parser_spec::ExpressionView;
use crate::parser::Expression;
use crate::style::number::{parse_usize, spec_parse_usize};
use crate::style::special::{special_panics, spec_special_from, Special, SpecialError, SpecialErrorView, SpecialView};
use crate::style::{decoration_of, tag_to_decoration, Decoration};
use crate::runtime::{apply_decoration_view, apply_special_view, text_component};
use crate::text::str_eq;

verus! {

/// What an element stands for in generated code.
#[derive(Debug)]
pub enum ElementKind {
    Decoration(Decoration),
    Special(Special),
    NamedColor,
}

/// The mathematical value of an element kind.
pub enum ElementKindView {
    Decoration(Decoration),
    Special(SpecialView),
    NamedColor,
}

impl View for ElementKind {
    type V = ElementKindView;

    open spec fn view(&self) -> ElementKindView {
        match self {
            ElementKind::Decoration(d) => ElementKindView::Decoration(*d),
            ElementKind::Special(s) => ElementKindView::Special(s@),
            ElementKind::NamedColor => ElementKindView::NamedColor,
        }
    }
}

/// Whether an element of this kind gives its text a color of its own, so that a
/// surrounding rainbow does not reach it.
pub open spec fn spec_overrides_rainbow(k: ElementKindView) -> bool {
    match k {
        ElementKindView::NamedColor => true,
        ElementKindView::Special(SpecialView::Color(_)) => true,
        ElementKindView::Special(SpecialView::Rainbow(_)) => true,
        _ => false,
    }
}

/// An element shields its text from a rainbow around it exactly when it gives its
/// component a color or a rainbow of its own, as building the component tree does: a named
/// color does, a decoration never does, and a special tag does when the component it
/// styles comes out with a color or a rainbow (a hex color or a rainbow, never a click or
/// hover action).
pub proof fn law_overrides_rainbow_means_own_color(k: ElementKindView)
    ensures
        spec_overrides_rainbow(k) <==> match k {
            ElementKindView::NamedColor => true,
            ElementKindView::Decoration(d) => {
                let c = apply_decoration_view(text_component(Seq::empty()), d);
                c.color is Some || c.rainbow is Some
            },
            ElementKindView::Special(s) => {
                let c = apply_special_view(text_component(Seq::empty()), s);
                c.color is Some || c.rainbow is Some
            },
        },
{
}

impl ElementKind {
    /// Whether an element of this kind gives its text a color of its own.
    pub fn overrides_rainbow(&self) -> (r: bool)
        ensures
            r == spec_overrides_rainbow(self@),
    {
        match self {
            ElementKind::NamedColor => true,
            ElementKind::Special(Special::Color(_)) => true,
            ElementKind::Special(Special::Rainbow(_)) => true,
            _ => false,
        }
    }
}

/// What an element stands for: without descriptors a decoration, a plain rainbow, or
/// else a named color; with descriptors a special tag, or the error that building it
/// gives.
pub open spec fn spec_classify_element(tag: Seq<char>, ds: Seq<Seq<char>>) -> Result<ElementKindView, SpecialErrorView> {
    if ds.len() == 0 {
        match decoration_of(tag) {
            Some(d) => Ok(ElementKindView::Decoration(d)),
            None => match spec_special_from(tag, ds) {
                Ok(SpecialView::Rainbow(r)) => Ok(ElementKindView::Special(SpecialView::Rainbow(r))),
                _ => Ok(ElementKindView::NamedColor),
            },
        }
    } else {
        match spec_special_from(tag, ds) {
            Ok(s) => Ok(ElementKindView::Special(s)),
            Err(e) => Err(e),
        }
    }
}

/// What an element with tag `tag` and these descriptors stands for in generated code.
pub fn classify_element(tag: &str, descriptors: &Vec<Cow<'_, str>>) -> (r: Result<ElementKind, SpecialError>)
    requires
        !special_panics(tag@, descriptors_view(descriptors@)),
    ensures
        match (r, spec_classify_element(tag@, descriptors_view(descriptors@))) {
            (Ok(a), Ok(b)) => a@ == b,
            (Err(e), Err(f)) => e@ == f,
            _ => false,
        },
{
    if descriptors.len() == 0 {
        if let Some(decoration) = tag_to_decoration(tag) {
            return Ok(ElementKind::Decoration(decoration));
        }
        match Special::from_descriptor(tag, Vec::new()) {
            Ok(Special::Rainbow(r)) => {
                return Ok(ElementKind::Special(Special::Rainbow(r)));
            },
            _ => {
                return Ok(ElementKind::NamedColor);
            },
        }
    }
    let mut copy: Vec<Cow<'_, str>> = Vec::new();
    let mut i: usize = 0;
    while i < descriptors.len()
        invariant
            i <= descriptors@.len(),
            descriptors_view(copy@) == descriptors_view(descriptors@).take(i as int),
        decreases descriptors@.len() - i,
    {
        let d = match &descriptors[i] {
            Cow::Borrowed(b) => Cow::Borrowed(*b),
            Cow::Owned(o) => Cow::Owned(o.clone()),
        };
        assert(descriptors_view(copy@.push(d)) == descriptors_view(copy@).push(d@));
        assert(descriptors_view(descriptors@).take(i + 1) == descriptors_view(descriptors@).take(i as int).push(
            descriptors@[i as int]@,
        ));
        copy.push(d);
        i += 1;
    }
    assert(descriptors_view(descriptors@).take(descriptors@.len() as int) == descriptors_view(descriptors@));
    match Special::from_descriptor(tag, copy) {
        Ok(s) => Ok(ElementKind::Special(s)),
        Err(e) => Err(e),
    }
}

/// Where the value for a placeholder comes from: a macro argument by position, or a
/// variable of that name in scope.
#[derive(Debug, PartialEq)]
pub enum ValueSource {
    Argument(usize),
    Capture(String),
}

/// The mathematical value of a value source.
pub enum ValueSourceView {
    Argument(int),
    Capture(Seq<char>),
}

impl View for ValueSource {
    type V = ValueSourceView;

    open spec fn view(&self) -> ValueSourceView {
        match self {
            ValueSource::Argument(i) => ValueSourceView::Argument(*i as int),
            ValueSource::Capture(s) => ValueSourceView::Capture(s@),
        }
    }
}

/// The position of the first `:` in `s`, if any.
pub open spec fn first_colon(s: Seq<char>) -> Option<int> {
    if exists|i: int| 0 <= i < s.len() && s[i] == ':' {
        Some(choose|i: int| 0 <= i < s.len() && s[i] == ':' && forall|j: int| 0 <= j < i ==> s[j] != ':')
    } else {
        None
    }
}

/// The index of the first macro argument called `name`, if any.
pub open spec fn first_named(idents: Seq<Option<Seq<char>>>, name: Seq<char>) -> Option<int> {
    if exists|i: int| 0 <= i < idents.len() && idents[i] == Some(name) {
        Some(choose|i: int| 0 <= i < idents.len() && idents[i] == Some(name) && forall|j: int| 0 <= j < i ==> idents[j] != Some(name))
    } else {
        None
    }
}

/// Why a placeholder cannot be filled: a `:` with no format after it, or a positional
/// argument (at this position) that the macro was not given.
#[derive(Debug, Clone, Copy, PartialEq, Eq)]
pub enum ResolveError {
    EmptyFormatSpec,
    MissingArgument(usize),
}

/// How a placeholder `{name}` is filled, with macro arguments named `idents` (`None` for
/// an unnamed one) and the next positional one at `pos`: the value source, the format
/// string, and the next positional position; or why it cannot be.
pub open spec fn spec_resolve_named(
    name: Seq<char>,
    idents: Seq<Option<Seq<char>>>,
    pos: usize,
) -> Result<(ValueSourceView, Seq<char>, int), ResolveError> {
    let (value, spec) = match first_colon(name) {
        Some(i) => (name.take(i), name.skip(i + 1)),
        None => (name, Seq::<char>::empty()),
    };
    if first_colon(name) is Some && spec.len() == 0 {
        Err(ResolveError::EmptyFormatSpec)
    } else {
        let format = if spec.len() == 0 {
            "{}"@
        } else {
            "{:"@ + spec + "}"@
        };
        if value.len() == 0 {
            if pos < idents.len() {
                Ok((ValueSourceView::Argument(pos as int), format, pos + 1))
            } else {
                Err(ResolveError::MissingArgument(pos))
            }
        } else {
            match spec_parse_usize(value) {
                Ok(idx) => if idx < idents.len() {
                    Ok((ValueSourceView::Argument(idx), format, pos as int))
                } else {
                    Err(ResolveError::MissingArgument(idx as usize))
                },
                Err(_) => match first_named(idents, value) {
                    Some(i) => Ok((ValueSourceView::Argument(i), format, pos as int)),
                    None => Ok((ValueSourceView::Capture(value), format, pos as int)),
                },
            }
        }
    }
}

/// The names of the macro arguments, `None` for unnamed ones.
pub open spec fn idents_view(idents: Seq<Option<String>>) -> Seq<Option<Seq<char>>> {
    idents.map_values(|o: Option<String>| match o {
        Some(s) => Some(s@),
        None => None,
    })
}

/// Whether a result and a new positional position agree with a resolution outcome; on
/// an error the position stays at `pos`.
pub open spec fn resolve_matches(
    r: Result<(ValueSource, String), ResolveError>,
    new_pos: usize,
    pos: usize,
    s: Result<(ValueSourceView, Seq<char>, int), ResolveError>,
) -> bool {
    match (r, s) {
        (Ok(a), Ok(b)) => a.0@ == b.0 && a.1@ == b.1 && new_pos as int == b.2,
        (Err(e), Err(f)) => e == f && new_pos == pos,
        _ => false,
    }
}

/// How the placeholder `{name}` is filled, or why it cannot be (see `spec_resolve_named`).
pub fn try_resolve_named(name: &str, idents: &Vec<Option<String>>, positional_idx: &mut usize) -> (r: Result<
    (ValueSource, String),
    ResolveError,
>)
    ensures
        resolve_matches(
            r,
            *final(positional_idx),
            *old(positional_idx),
            spec_resolve_named(name@, idents_view(idents@), *old(positional_idx)),
        ),
{
    let ghost ids = idents_view(idents@);
    let n = name.unicode_len();
    let mut colon: usize = 0;
    while colon < n && name.get_char(colon) != ':'
        invariant
            n == name@.len(),
            colon <= n,
            forall|j: int| 0 <= j < colon ==> name@[j] != ':',
        decreases n - colon,
    {
        colon += 1;
    }
    proof {
        if colon < n {
            assert(name@[colon as int] == ':');
            assert(first_colon(name@) is Some);
            let k = first_colon(name@)->0;
            assert(k == colon);
        } else {
            assert(!exists|i: int| 0 <= i < name@.len() && name@[i] == ':');
        }
    }
    let (value, spec) = if colon < n {
        (name.substring_char(0, colon), name.substring_char(colon + 1, n))
    } else {
        (name, name.substring_char(n, n))
    };
    assert(colon < n ==> value@ == name@.take(colon as int) && spec@ == name@.skip(colon + 1));
    assert(spec@.len() == 0 ==> spec@ == Seq::<char>::empty());
    if colon < n && spec.unicode_len() == 0 {
        return Err(ResolveError::EmptyFormatSpec);
    }
    let format = if spec.unicode_len() == 0 {
        String::from_str("{}")
    } else {
        let mut f = String::from_str("{:");
        f.append(spec);
        f.append("}");
        f
    };
    let count = idents.len();
    if value.unicode_len() == 0 {
        let idx = *positional_idx;
        if idx >= count {
            return Err(ResolveError::MissingArgument(idx));
        }
        *positional_idx = idx + 1;
        return Ok((ValueSource::Argument(idx), format));
    }
    match parse_usize(value) {
        Ok(idx) => if idx < count {
            Ok((ValueSource::Argument(idx), format))
        } else {
            Err(ResolveError::MissingArgument(idx))
        },
        Err(_) => {
            let mut i: usize = 0;
            let mut found: Option<usize> = None;
            while i < idents.len() && found.is_none()
                invariant
                    i <= idents@.len(),
                    ids == idents_view(idents@),
                    forall|j: int| 0 <= j < i ==> ids[j] != Some(value@),
                    found matches Some(k) ==> k < idents@.len() && ids[k as int] == Some(value@)
                        && forall|j: int| 0 <= j < k ==> ids[j] != Some(value@),
                decreases idents@.len() - i, (if found is None { 1int } else { 0int }),
            {
                let hit = match &idents[i] {
                    Some(id) => str_eq(id.as_str(), value),
                    None => false,
                };
                if hit {
                    found = Some(i);
                } else {
                    i += 1;
                }
            }
            match found {
                Some(k) => {
                    proof {
                        let c = first_named(ids, value@)->0;
                        assert(ids[c] == Some(value@));
                        assert(c == k);
                    }
                    Ok((ValueSource::Argument(k), format))
                },
                None => Ok((ValueSource::Capture(value.to_owned()), format)),
            }
        },
    }
}

/// How the placeholder `{name}` is filled, for a name the macro accepts.
pub fn resolve_named(name: &str, idents: &Vec<Option<String>>, positional_idx: &mut usize) -> (r: (ValueSource, String))
    requires
        spec_resolve_named(name@, idents_view(idents@), *old(positional_idx)) is Ok,
    ensures
        spec_resolve_named(name@, idents_view(idents@), *old(positional_idx)) == Ok::<
            (ValueSourceView, Seq<char>, int),
            ResolveError,
        >((r.0@, r.1@, *final(positional_idx) as int)),
{
    match try_resolve_named(name, idents, positional_idx) {
        Ok(r) => r,
        Err(_) => vstd::pervasive::unreached(),
    }
}

/// How an unnamed placeholder `{}` is filled: the next positional macro argument.
pub fn resolve_unnamed(arg_count: usize, positional_idx: &mut usize) -> (r: usize)
    requires
        *old(positional_idx) < arg_count,
    ensures
        r == *old(positional_idx),
        *final(positional_idx) == *old(positional_idx) + 1,
{
    let idx = *positional_idx;
    *positional_idx = idx + 1;
    idx
}

/// How a placeholder is filled, unnamed or named, or why it cannot be.
pub open spec fn spec_resolve_expression(
    e: ExpressionView,
    idents: Seq<Option<Seq<char>>>,
    pos: usize,
) -> Result<(ValueSourceView, Seq<char>, int), ResolveError> {
    match e {
        ExpressionView::Named(name) => spec_resolve_named(name, idents, pos),
        ExpressionView::Unnamed => if pos < idents.len() {
            Ok((ValueSourceView::Argument(pos as int), "{}"@, pos + 1))
        } else {
            Err(ResolveError::MissingArgument(pos))
        },
    }
}

/// How a placeholder is filled, or why it cannot be: the value source and the format
/// string.
pub fn try_resolve_expression(expr: &Expression<'_>, idents: &Vec<Option<String>>, positional_idx: &mut usize) -> (r: Result<
    (ValueSource, String),
    ResolveError,
>)
    ensures
        resolve_matches(
            r,
            *final(positional_idx),
            *old(positional_idx),
            spec_resolve_expression(expr@, idents_view(idents@), *old(positional_idx)),
        ),
{
    match expr {
        Expression::Named(name) => {
            let s: &str = match name {
                Cow::Borrowed(b) => b,
                Cow::Owned(o) => o.as_str(),
            };
            try_resolve_named(s, idents, positional_idx)
        },
        Expression::Unnamed => {
            if *positional_idx >= idents.len() {
                return Err(ResolveError::MissingArgument(*positional_idx));
            }
            let idx = resolve_unnamed(idents.len(), positional_idx);
            Ok((ValueSource::Argument(idx), String::from_str("{}")))
        },
    }
}

/// How a placeholder the macro accepts is filled: the value source and the format string.
pub fn resolve_expression(expr: &Expression<'_>, idents: &Vec<Option<String>>, positional_idx: &mut usize) -> (r: (ValueSource, String))
    requires
        spec_resolve_expression(expr@, idents_view(idents@), *old(positional_idx)) is Ok,
    ensures
        spec_resolve_expression(expr@, idents_view(idents@), *old(positional_idx)) == Ok::<
            (ValueSourceView, Seq<char>, int),
            ResolveError,
        >((r.0@, r.1@, *final(positional_idx) as int)),
{
    match try_resolve_expression(expr, idents, positional_idx) {
        Ok(r) => r,
        Err(_) => vstd::pervasive::unreached(),
    }
}

} // verus!
