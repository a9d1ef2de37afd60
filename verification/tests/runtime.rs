use minimessage::parse_error::ParseError;
use minimessage::runtime::{
    checked_rainbow_char_count, deserialize, deserialize_with_args, rainbow_char_count,
    try_deserialize_with_args,
    ArgumentCollection, Component, ComponentColor, DeserializeError,
};
use minimessage::style::click_event::ClickEvent;
use minimessage::style::hover_event::HoverEvent;
use minimessage::style::rainbow::Rainbow;
use minimessage::style::special::SpecialError;
use minimessage::style::NamedColor;

#[test]
fn rainbow_count_crosses_decorations_and_excludes_colors() {
    let component =
        deserialize("<rainbow>a<bold>b</bold><blue>excluded</blue>c</rainbow>").unwrap();
    let rainbow = &component.children[0];

    assert_eq!(rainbow_char_count(rainbow, true), 3);
}

#[test]
fn rainbow_count_without_root_stops_at_a_rainbow() {
    let component = deserialize("<rainbow>abc<rainbow:!1>de</rainbow></rainbow>").unwrap();
    let outer = &component.children[0];
    assert_eq!(rainbow_char_count(outer, true), 3);
    assert_eq!(rainbow_char_count(outer, false), 0);
    assert_eq!(rainbow_char_count(&outer.children[1], true), 2);
    assert_eq!(outer.children[1].rainbow, Some(Rainbow { inverted: true, offset: 1 }));
    assert_eq!(checked_rainbow_char_count(outer, true), Some(3));
}

#[test]
fn plain_text_is_one_child_of_an_empty_root() {
    let component = deserialize("Hello").unwrap();
    assert_eq!(component.text, "");
    assert_eq!(component.children.len(), 1);
    assert_eq!(component.children[0].text, "Hello");
    assert!(component.children[0].children.is_empty());
    assert!(component.children[0].color.is_none());
}

#[test]
fn component_text_is_unstyled() {
    let c = Component::text("x".to_string());
    assert_eq!(c.text, "x");
    assert!(!c.bold && !c.italic && !c.underlined && !c.strikethrough && !c.obfuscated);
    assert!(c.color.is_none() && c.rainbow.is_none());
    assert!(c.click_event.is_none() && c.hover_event.is_none());
    assert!(c.children.is_empty());
}

#[test]
fn elements_style_their_component() {
    let component = deserialize("<bold><red>hi</red></bold><color:#102030>x</color>").unwrap();
    let bold = &component.children[0];
    assert!(bold.bold);
    assert_eq!(bold.text, "");
    let red = &bold.children[0];
    assert_eq!(red.color, Some(ComponentColor::Named(NamedColor::Red)));
    assert!(!red.bold);
    assert_eq!(red.children[0].text, "hi");
    assert_eq!(component.children[1].color, Some(ComponentColor::Rgb(16, 32, 48)));
}

#[test]
fn click_and_hover_are_attached() {
    let component =
        deserialize("<click:open_url:'https://x.org'>a</click><hover:show_text:'tip'>b</hover>")
            .unwrap();
    assert_eq!(
        component.children[0].click_event,
        Some(ClickEvent::OpenUrl("https://x.org".to_string()))
    );
    assert_eq!(
        component.children[1].hover_event,
        Some(HoverEvent::ShowText("tip".to_string()))
    );
}

#[test]
fn arguments_fill_placeholders() {
    let args = ArgumentCollection::new()
        .positional("one".to_string())
        .named("who", "world".to_string())
        .positional("two".to_string());
    let component = deserialize_with_args("{}<bold>{who}</bold>{}", args).unwrap();
    let texts: Vec<&str> = component.children.iter().map(|c| c.text.as_str()).collect();
    assert_eq!(texts, vec!["one", "", "two"]);
    assert_eq!(component.children[1].children[0].text, "world");
}

#[test]
fn placeholders_inside_text_are_filled() {
    let args = ArgumentCollection::new().named("b", "B".to_string());
    let component = deserialize_with_args("a {b} c", args).unwrap();
    let texts: Vec<&str> = component.children.iter().map(|c| c.text.as_str()).collect();
    assert_eq!(texts, vec!["a ", "B", " c"]);
    let escaped = deserialize("a \\{b} c").unwrap();
    assert_eq!(escaped.children.len(), 1);
    assert_eq!(escaped.children[0].text, "a {b} c");
    let closing = deserialize("a } c").unwrap();
    assert_eq!(closing.children[0].text, "a } c");
}

#[test]
fn readme_example_fills_the_placeholder() {
    let args = ArgumentCollection::new().positional("Steve".to_string());
    let root = deserialize_with_args("<blue>Hello {}!", args).unwrap();
    assert_eq!(root.children.len(), 1);
    assert_eq!(root.children[0].color, Some(ComponentColor::Named(NamedColor::Blue)));
    let texts: Vec<&str> = root.children[0].children.iter().map(|c| c.text.as_str()).collect();
    assert_eq!(texts, vec!["Hello ", "Steve", "!"]);
}

#[test]
fn a_later_named_argument_replaces_an_earlier_one() {
    let args = ArgumentCollection::new()
        .named("x", "first".to_string())
        .named("x", "second".to_string());
    let component = deserialize_with_args("{x}", args).unwrap();
    assert_eq!(component.children[0].text, "second");
}

#[test]
fn missing_arguments_are_errors() {
    assert!(matches!(deserialize("{}"), Err(DeserializeError::PositionalArgNotFound(0))));
    let args = ArgumentCollection::new().positional("a".to_string());
    assert!(matches!(
        deserialize_with_args("{}{}", args),
        Err(DeserializeError::PositionalArgNotFound(1))
    ));
    assert!(matches!(
        deserialize("{name}"),
        Err(DeserializeError::NamedArgNotFound(n)) if n == "name"
    ));
}

#[test]
fn unknown_tags_and_bad_specials_are_errors() {
    assert!(matches!(
        deserialize("<p>x</p>"),
        Err(DeserializeError::Special(SpecialError::UnknownTag(t))) if t == "p"
    ));
    assert!(matches!(
        deserialize("<click:nowhere:x>y</click>"),
        Err(DeserializeError::Special(SpecialError::UnknownTag(t))) if t == "click"
    ));
    assert!(matches!(
        deserialize("<color:#12>y</color>"),
        Err(DeserializeError::Special(SpecialError::ParseColor(_)))
    ));
}

#[test]
fn parse_errors_are_passed_on() {
    assert!(matches!(
        deserialize("<red>x</blue>"),
        Err(DeserializeError::Parser(ParseError::MismatchedTag { expected, found }))
            if expected == "red" && found == "blue"
    ));
}

#[test]
fn a_color_that_would_cut_a_character_is_reported() {
    assert!(try_deserialize_with_args("<color:#aéxyz>t</color>", ArgumentCollection::new()).is_none());
    assert!(try_deserialize_with_args("<color:#abcdef>t</color>", ArgumentCollection::new()).is_some());
}

#[test]
fn two_placeholders_take_two_arguments_in_order() {
    let args = ArgumentCollection::new().positional("a".to_string()).positional("b".to_string());
    let component = deserialize_with_args("{}{}", args).unwrap();
    let texts: Vec<&str> = component.children.iter().map(|c| c.text.as_str()).collect();
    assert_eq!(texts, vec!["a", "b"]);
    let one = ArgumentCollection::new().positional("a".to_string()).named("x", "y".to_string());
    assert!(matches!(
        deserialize_with_args("{}{}", one),
        Err(DeserializeError::PositionalArgNotFound(1))
    ));
}

#[test]
fn plain_text_ignores_arguments() {
    let args = ArgumentCollection::new().positional("unused".to_string());
    let component = deserialize_with_args("plain words", args).unwrap();
    assert_eq!(component.children.len(), 1);
    assert_eq!(component.children[0].text, "plain words");
}
