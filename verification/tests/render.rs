use minimessage::render::{rainbow_plan, RainbowCursor};
use minimessage::runtime::deserialize;
use minimessage::style::rainbow::Rainbow;

fn at(rainbow: Rainbow, total: usize, index: usize) -> Option<RainbowCursor> {
    Some(RainbowCursor { rainbow, total, index })
}

#[test]
fn rainbow_cursor_runs_through_decorations_and_skips_colors() {
    let component =
        deserialize("<rainbow>a<bold>b</bold><blue>excluded</blue>c</rainbow>").unwrap();
    let r = Rainbow::default();
    assert_eq!(
        rainbow_plan(&component).unwrap(),
        vec![None, at(r, 3, 0), at(r, 3, 0), at(r, 3, 1), at(r, 3, 1), None, None, at(r, 3, 2)]
    );
}

#[test]
fn nested_rainbow_has_its_own_cursor() {
    let component = deserialize("<rainbow>ab<rainbow:!2>cd</rainbow>e</rainbow>").unwrap();
    let outer = Rainbow::default();
    let inner = Rainbow { inverted: true, offset: 2 };
    assert_eq!(
        rainbow_plan(&component).unwrap(),
        vec![None, at(outer, 3, 0), at(outer, 3, 0), at(inner, 2, 0), at(inner, 2, 0), at(outer, 3, 2)]
    );
}

#[test]
fn text_without_rainbow_has_no_cursor() {
    let component = deserialize("<bold>plain</bold>").unwrap();
    assert_eq!(rainbow_plan(&component).unwrap(), vec![None, None, None]);
}
