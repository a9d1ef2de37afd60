use std::borrow::Cow;

use minimessage::style::click_event::ClickEvent;
use minimessage::style::color::{color_text_would_panic, Color, ParseColorError};
use minimessage::style::hover_event::{show_item_from_levels, HoverEvent};
use minimessage::style::item::{Components, Enchantments, Item};
use minimessage::style::number::{parse_i32, parse_usize, IntErrorKind};
use minimessage::style::rainbow::{Rainbow, RainbowError};
use minimessage::style::special::{special_would_panic, Special, SpecialError};
use minimessage::style::{tag_to_decoration, tag_to_named_color, Decoration, NamedColor, TryFromDescriptors};

fn args(items: &[&'static str]) -> Vec<Cow<'static, str>> {
    items.iter().map(|s| Cow::Borrowed(*s)).collect()
}

#[test]
fn named_colors_are_snake_case() {
    assert_eq!(tag_to_named_color("dark_blue"), Some(NamedColor::DarkBlue));
    assert_eq!(tag_to_named_color("light_purple"), Some(NamedColor::LightPurple));
    assert_eq!(tag_to_named_color("white"), Some(NamedColor::White));
    assert_eq!(tag_to_named_color("DarkBlue"), None);
    assert_eq!(tag_to_named_color("orange"), None);
}

#[test]
fn decorations_are_snake_case() {
    assert_eq!(tag_to_decoration("bold"), Some(Decoration::Bold));
    assert_eq!(tag_to_decoration("strikethrough"), Some(Decoration::Strikethrough));
    assert_eq!(tag_to_decoration("obfuscated"), Some(Decoration::Obfuscated));
    assert_eq!(tag_to_decoration("b"), None);
}

#[test]
fn hex_color_with_and_without_hash() {
    assert_eq!(Color::from_hex("#ff8800"), Ok(Color(255, 136, 0)));
    assert_eq!(Color::from_hex("00Aa10"), Ok(Color(0, 170, 16)));
}

#[test]
fn hex_color_wrong_length() {
    assert_eq!(Color::from_hex("#fff"), Err(ParseColorError::InvalidLength));
    assert_eq!(Color::from_hex(""), Err(ParseColorError::InvalidLength));
    assert_eq!(Color::from_hex("##ff8800"), Err(ParseColorError::InvalidLength));
}

#[test]
fn hex_color_bad_digit() {
    assert_eq!(
        Color::from_hex("#gg0000"),
        Err(ParseColorError::InvalidHex(IntErrorKind::InvalidDigit))
    );
    assert_eq!(Color::from_hex("+f0000"), Ok(Color(15, 0, 0)));
}

#[test]
fn hex_color_cutting_a_character_is_detected() {
    assert!(color_text_would_panic("#aéxyz"));
    assert!(!color_text_would_panic("#ff8800"));
    assert!(!color_text_would_panic("#éé"));
    assert_eq!(
        Color::from_hex("#ééé"),
        Err(ParseColorError::InvalidHex(IntErrorKind::InvalidDigit))
    );
}

#[test]
fn color_descriptor() {
    assert_eq!(Color::try_from_descriptors(args(&["#010203"])).unwrap(), Color(1, 2, 3));
    assert!(matches!(
        Color::try_from_descriptors(args(&[])),
        Err(SpecialError::MissingArgument("color_hex"))
    ));
    assert!(matches!(
        Color::try_from_descriptors(args(&["#12"])),
        Err(SpecialError::ParseColor(ParseColorError::InvalidLength))
    ));
}

#[test]
fn rainbow_descriptors() {
    assert_eq!(Rainbow::from_text("!2"), Ok(Rainbow { inverted: true, offset: 2 }));
    assert_eq!(Rainbow::from_text("15"), Ok(Rainbow { inverted: false, offset: 15 }));
    assert_eq!(Rainbow::from_text("!"), Ok(Rainbow { inverted: true, offset: 0 }));
    assert_eq!(Rainbow::from_text(""), Err(RainbowError::EmptyString));
    assert_eq!(
        Rainbow::from_text("!x1"),
        Err(RainbowError::ExpectedInt("x1".to_string()))
    );
    assert_eq!(
        Rainbow::from_text("99999999999999999999999"),
        Err(RainbowError::IntegerOverflow)
    );
    assert_eq!("!3".parse::<Rainbow>(), Ok(Rainbow { inverted: true, offset: 3 }));
}

#[test]
fn rainbow_without_descriptor_is_default() {
    assert_eq!(Rainbow::try_from_descriptors(args(&[])).unwrap(), Rainbow::default());
    assert_eq!(
        Rainbow::try_from_descriptors(args(&["!1"])).unwrap(),
        Rainbow { inverted: true, offset: 1 }
    );
    assert!(matches!(
        Rainbow::try_from_descriptors(args(&["1", "2"])),
        Err(SpecialError::TooManyArguments(v)) if v == vec!["1".to_string(), "2".to_string()]
    ));
    assert!(matches!(
        Rainbow::try_from_descriptors(args(&["a"])),
        Err(SpecialError::RainbowError(RainbowError::ExpectedInt(s))) if s == "a"
    ));
}

#[test]
fn click_takes_the_last_argument() {
    assert_eq!(
        ClickEvent::try_from_descriptors(args(&["open_url", "a", "b"])).unwrap(),
        ClickEvent::OpenUrl("b".to_string())
    );
    assert_eq!(
        ClickEvent::try_from_descriptors(args(&["copy_to_clipboard", "text"])).unwrap(),
        ClickEvent::CopyToClipboard("text".to_string())
    );
    assert_eq!(
        ClickEvent::try_from_descriptors(args(&["run_command", "/help"])).unwrap(),
        ClickEvent::RunCommand("/help".to_string())
    );
    assert_eq!(
        ClickEvent::try_from_descriptors(args(&["suggest_command", "/tp"])).unwrap(),
        ClickEvent::SuggestCommand("/tp".to_string())
    );
}

#[test]
fn click_errors() {
    assert!(matches!(
        ClickEvent::try_from_descriptors(args(&[])),
        Err(SpecialError::MissingSpecialType)
    ));
    assert!(matches!(
        ClickEvent::try_from_descriptors(args(&["open_url"])),
        Err(SpecialError::MissingArgument("url"))
    ));
    assert!(matches!(
        ClickEvent::try_from_descriptors(args(&["suggest_command"])),
        Err(SpecialError::MissingArgument("command"))
    ));
    assert!(matches!(
        ClickEvent::try_from_descriptors(args(&["empty", "x"])),
        Err(SpecialError::EmptyEventReached)
    ));
    assert!(matches!(
        ClickEvent::try_from_descriptors(args(&["open_file", "x"])),
        Err(SpecialError::NotFound)
    ));
}

#[test]
fn hover_show_text_and_entity() {
    assert_eq!(
        HoverEvent::try_from_descriptors(args(&["show_text", "<red>hi", "more"])).unwrap(),
        HoverEvent::ShowText("<red>hi".to_string())
    );
    assert_eq!(
        HoverEvent::try_from_descriptors(args(&["show_entity", "zombie", "1234", "Bob"])).unwrap(),
        HoverEvent::ShowEntity {
            entity_type: "zombie".to_string(),
            id: "1234".to_string(),
            name: Some("Bob".to_string()),
        }
    );
    assert_eq!(
        HoverEvent::try_from_descriptors(args(&["show_entity", "zombie", "1234"])).unwrap(),
        HoverEvent::ShowEntity {
            entity_type: "zombie".to_string(),
            id: "1234".to_string(),
            name: None,
        }
    );
}

#[test]
fn hover_errors() {
    assert!(matches!(
        HoverEvent::try_from_descriptors(args(&["show_text"])),
        Err(SpecialError::MissingArgument("text"))
    ));
    assert!(matches!(
        HoverEvent::try_from_descriptors(args(&["show_item"])),
        Err(SpecialError::MissingArgument("item"))
    ));
    assert!(matches!(
        HoverEvent::try_from_descriptors(args(&["show_entity"])),
        Err(SpecialError::MissingArgument("entity_type"))
    ));
    assert!(matches!(
        HoverEvent::try_from_descriptors(args(&["show_entity", "pig"])),
        Err(SpecialError::MissingArgument("id"))
    ));
    assert!(matches!(
        HoverEvent::try_from_descriptors(args(&["show_item", "stone", "x"])),
        Err(SpecialError::ParseInt(IntErrorKind::InvalidDigit))
    ));
    assert!(matches!(
        HoverEvent::try_from_descriptors(args(&["show_item", "stone", "1", "lore", "{}"])),
        Err(SpecialError::InvalidModifier(m)) if m == "lore"
    ));
    assert!(matches!(
        HoverEvent::try_from_descriptors(args(&["show_item", "stone", "1", "enchantments", "{a:"])),
        Err(SpecialError::Snbt(_))
    ));
    assert!(matches!(
        HoverEvent::try_from_descriptors(args(&["show_item", "a", "b", "c"])),
        Err(SpecialError::TooManyArguments(v)) if v == vec!["a".to_string(), "b".to_string(), "c".to_string()]
    ));
    assert!(matches!(
        HoverEvent::try_from_descriptors(args(&["empty"])),
        Err(SpecialError::EmptyEventReached)
    ));
    assert!(matches!(
        HoverEvent::try_from_descriptors(args(&[])),
        Err(SpecialError::MissingSpecialType)
    ));
}

#[test]
fn hover_show_item_by_id() {
    assert_eq!(
        HoverEvent::try_from_descriptors(args(&["show_item", "stone"])).unwrap(),
        HoverEvent::ShowItem("stone".to_string())
    );
}

#[test]
fn hover_show_item_with_count_is_snbt() {
    assert_eq!(
        HoverEvent::try_from_descriptors(args(&["show_item", "diamond", "5"])).unwrap(),
        HoverEvent::ShowItem(
            r#"{"id":"minecraft:diamond","count":5,"components":{"minecraft:enchantments":{"levels":{}}}}"#
                .to_string()
        )
    );
    assert_eq!(
        HoverEvent::try_from_descriptors(args(&["show_item", "dirt", "-12"])).unwrap(),
        HoverEvent::ShowItem(
            r#"{"id":"minecraft:dirt","count":-12,"components":{"minecraft:enchantments":{"levels":{}}}}"#
                .to_string()
        )
    );
}

#[test]
fn hover_show_item_with_enchantments_is_snbt() {
    assert_eq!(
        HoverEvent::try_from_descriptors(args(&[
            "show_item",
            "diamond_sword",
            "1",
            "enchantments",
            "{sharpness:5}"
        ]))
        .unwrap(),
        HoverEvent::ShowItem(
            r#"{"id":"minecraft:diamond_sword","count":1,"components":{"minecraft:enchantments":{"levels":{"minecraft:sharpness":5}}}}"#
                .to_string()
        )
    );
}

#[test]
fn item_snbt_escapes_quotes() {
    let item = Item::new_with_components(
        "a\"b\\c".to_string(),
        7,
        Components {
            enchantments: Enchantments {
                levels: vec![("x".to_string(), 1), ("y".to_string(), 20)],
            },
        },
    );
    assert_eq!(
        item.to_snbt().unwrap(),
        r#"{"id":"a\"b\\c","count":7,"components":{"minecraft:enchantments":{"levels":{"x":1,"y":20}}}}"#
    );
    let plain = Item::new("i".to_string(), 0);
    assert_eq!(
        plain.to_snbt().unwrap(),
        r#"{"id":"i","count":0,"components":{"minecraft:enchantments":{"levels":{}}}}"#
    );
}

#[test]
fn special_tags() {
    assert!(matches!(
        Special::from_descriptor("color", args(&["#000010"])),
        Ok(Special::Color(Color(0, 0, 16)))
    ));
    assert!(matches!(
        Special::from_descriptor("rainbow", args(&[])),
        Ok(Special::Rainbow(Rainbow { inverted: false, offset: 0 }))
    ));
    assert!(matches!(
        Special::from_descriptor("click", args(&["open_url", "u"])),
        Ok(Special::Click(ClickEvent::OpenUrl(u))) if u == "u"
    ));
    assert!(matches!(
        Special::from_descriptor("hover", args(&["show_text", "t"])),
        Ok(Special::Hover(HoverEvent::ShowText(t))) if t == "t"
    ));
    assert!(matches!(
        Special::from_descriptor("bold", args(&[])),
        Err(SpecialError::NotFound)
    ));
    assert!(matches!(
        Special::from_descriptor("color", args(&[])),
        Err(SpecialError::MissingArgument("color_hex"))
    ));
}

#[test]
fn special_panic_is_detected_before_the_call() {
    assert!(special_would_panic("color", &args(&["#aéxyz"])));
    assert!(!special_would_panic("color", &args(&["#abcdef"])));
    assert!(!special_would_panic("hover", &args(&["#aéxyz"])));
}

#[test]
fn integers_parse_like_std() {
    assert_eq!(parse_i32("42"), Ok(42));
    assert_eq!(parse_i32("-2147483648"), Ok(i32::MIN));
    assert_eq!(parse_i32("+7"), Ok(7));
    assert_eq!(parse_i32("2147483648"), Err(IntErrorKind::PosOverflow));
    assert_eq!(parse_i32("-2147483649"), Err(IntErrorKind::NegOverflow));
    assert_eq!(parse_i32(""), Err(IntErrorKind::Empty));
    assert_eq!(parse_i32("-"), Err(IntErrorKind::InvalidDigit));
    assert_eq!(parse_i32("1a"), Err(IntErrorKind::InvalidDigit));
    assert_eq!(parse_usize("12"), Ok(12));
    assert_eq!(parse_usize("-1"), Err(IntErrorKind::InvalidDigit));
    assert_eq!(parse_usize(""), Err(IntErrorKind::Empty));
}

#[test]
fn show_item_from_parsed_levels() {
    assert_eq!(
        show_item_from_levels(
            "diamond_sword",
            "2",
            vec![("sharpness".to_string(), 5), ("unbreaking".to_string(), -3)]
        )
        .unwrap(),
        HoverEvent::ShowItem(
            r#"{"id":"minecraft:diamond_sword","count":2,"components":{"minecraft:enchantments":{"levels":{"minecraft:sharpness":5,"minecraft:unbreaking":-3}}}}"#
                .to_string()
        )
    );
    assert!(matches!(
        show_item_from_levels("stone", "many", vec![]),
        Err(SpecialError::ParseInt(IntErrorKind::InvalidDigit))
    ));
}
