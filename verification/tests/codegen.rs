use std::borrow::Cow;

use minimessage::codegen::{
    classify_element, resolve_expression, resolve_named, resolve_unnamed, try_resolve_expression,
    try_resolve_named, ElementKind, ResolveError, ValueSource,
};
use minimessage::parser::Expression;
use minimessage::style::click_event::ClickEvent;
use minimessage::style::color::Color;
use minimessage::style::rainbow::Rainbow;
use minimessage::style::special::{Special, SpecialError};
use minimessage::style::Decoration;

fn args(items: &[&'static str]) -> Vec<Cow<'static, str>> {
    items.iter().map(|s| Cow::Borrowed(*s)).collect()
}

#[test]
fn elements_without_descriptors() {
    assert!(matches!(
        classify_element("italic", &args(&[])),
        Ok(ElementKind::Decoration(Decoration::Italic))
    ));
    assert!(matches!(
        classify_element("rainbow", &args(&[])),
        Ok(ElementKind::Special(Special::Rainbow(Rainbow { inverted: false, offset: 0 })))
    ));
    assert!(matches!(classify_element("blue", &args(&[])), Ok(ElementKind::NamedColor)));
    assert!(matches!(classify_element("color", &args(&[])), Ok(ElementKind::NamedColor)));
}

#[test]
fn elements_with_descriptors() {
    assert!(matches!(
        classify_element("click", &args(&["open_url", "u"])),
        Ok(ElementKind::Special(Special::Click(ClickEvent::OpenUrl(u)))) if u == "u"
    ));
    assert!(matches!(
        classify_element("color", &args(&["#0a0b0c"])),
        Ok(ElementKind::Special(Special::Color(Color(10, 11, 12))))
    ));
    assert!(matches!(
        classify_element("bold", &args(&["x"])),
        Err(SpecialError::NotFound)
    ));
}

#[test]
fn what_overrides_a_rainbow() {
    assert!(ElementKind::NamedColor.overrides_rainbow());
    assert!(ElementKind::Special(Special::Color(Color(0, 0, 0))).overrides_rainbow());
    assert!(ElementKind::Special(Special::Rainbow(Rainbow::default())).overrides_rainbow());
    assert!(!ElementKind::Decoration(Decoration::Bold).overrides_rainbow());
    assert!(!ElementKind::Special(Special::Click(ClickEvent::RunCommand("/x".to_string())))
        .overrides_rainbow());
}

#[test]
fn named_placeholders() {
    let idents = vec![None, Some("score".to_string()), Some("score".to_string())];
    let mut pos = 0usize;
    assert_eq!(
        resolve_named("score", &idents, &mut pos),
        (ValueSource::Argument(1), "{}".to_string())
    );
    assert_eq!(
        resolve_named("score:.2", &idents, &mut pos),
        (ValueSource::Argument(1), "{:.2}".to_string())
    );
    assert_eq!(
        resolve_named("player", &idents, &mut pos),
        (ValueSource::Capture("player".to_string()), "{}".to_string())
    );
    assert_eq!(
        resolve_named("2:>5", &idents, &mut pos),
        (ValueSource::Argument(2), "{:>5}".to_string())
    );
    assert_eq!(pos, 0);
    assert_eq!(
        resolve_named(":?", &idents, &mut pos),
        (ValueSource::Argument(0), "{:?}".to_string())
    );
    assert_eq!(pos, 1);
}

#[test]
fn unnamed_placeholders_take_the_next_argument() {
    let mut pos = 1usize;
    assert_eq!(resolve_unnamed(3, &mut pos), 1);
    assert_eq!(resolve_unnamed(3, &mut pos), 2);
    assert_eq!(pos, 3);
    let idents = vec![None, None];
    let mut pos = 0usize;
    assert_eq!(
        resolve_expression(&Expression::Unnamed, &idents, &mut pos),
        (ValueSource::Argument(0), "{}".to_string())
    );
    assert_eq!(
        resolve_expression(&Expression::Named(Cow::Borrowed("v:x")), &idents, &mut pos),
        (ValueSource::Capture("v".to_string()), "{:x}".to_string())
    );
    assert_eq!(
        resolve_expression(&Expression::Unnamed, &idents, &mut pos),
        (ValueSource::Argument(1), "{}".to_string())
    );
    assert_eq!(pos, 2);
}

#[test]
fn placeholders_the_macro_refuses() {
    let idents = vec![None];
    let mut pos = 0usize;
    assert_eq!(try_resolve_named("x:", &idents, &mut pos), Err(ResolveError::EmptyFormatSpec));
    assert_eq!(try_resolve_named("3", &idents, &mut pos), Err(ResolveError::MissingArgument(3)));
    assert_eq!(
        try_resolve_named("a::", &idents, &mut pos),
        Ok((ValueSource::Capture("a".to_string()), "{::}".to_string()))
    );
    assert_eq!(pos, 0);
    assert!(try_resolve_expression(&Expression::Unnamed, &idents, &mut pos).is_ok());
    assert_eq!(
        try_resolve_expression(&Expression::Unnamed, &idents, &mut pos),
        Err(ResolveError::MissingArgument(1))
    );
    assert_eq!(
        try_resolve_named("", &idents, &mut pos),
        Err(ResolveError::MissingArgument(1))
    );
    assert_eq!(pos, 1);
}
