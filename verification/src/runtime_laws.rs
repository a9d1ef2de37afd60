//! What the component builder promises of arguments and plain text, stated over the
//! specifications of parsing and building.
use vstd::prelude::*;

use crate::parse_error::ParseErrorView;
use crate::parser::spec_parse;
use crate::parser_laws::{
    law_named_expression, law_placeholder_in_text, law_plain_text, law_unclosed_element,
};
use crate::parser_spec::{is_void_tag, spec_parse_from, ExpressionView, NodeView};
use crate::runtime::{
    spec_build_node, spec_build_nodes, spec_deserialize, spec_element_style, text_component,
    ComponentView, DeserializeErrorView,
};
use crate::style::laws::{decoration_name, law_decoration_names};
use crate::style::special::{spec_special_from, SpecialErrorView};
use crate::style::{decoration_of, named_color_of, Decoration};
use crate::token::is_special_char;
use crate::token::TokenView;
use crate::tokenizer::{is_plain, lemma_tokenize_special_prefix, tokenize};

verus! {

/// The root component holding these components.
pub open spec fn root_of(cs: Seq<ComponentView>) -> ComponentView {
    ComponentView { children: cs, ..text_component(Seq::empty()) }
}

/// A plain text, whatever the arguments, is a root holding one unstyled text component.
pub proof fn law_plain_text_component(s: Seq<char>, ps: Seq<Seq<char>>, named: Map<Seq<char>, Seq<char>>)
    requires
        is_plain(s),
    ensures
        spec_deserialize(s, ps, named) == Some(
            Ok::<ComponentView, DeserializeErrorView>(root_of(seq![text_component(s)])),
        ),
{
    law_plain_text(s);
    let ns = seq![NodeView::Text(s)];
    assert(ns.subrange(1, 1) == Seq::<NodeView>::empty());
    assert(spec_build_node(ns[0], ps, named, 0) == Some(Ok::<(ComponentView, int), DeserializeErrorView>((text_component(s), 0))));
    assert(spec_build_nodes(Seq::<NodeView>::empty(), ps, named, 0) == Some(Ok::<(Seq<ComponentView>, int), DeserializeErrorView>((Seq::<ComponentView>::empty(), 0))));
    assert(seq![text_component(s)] + Seq::<ComponentView>::empty() == seq![text_component(s)]);
    assert(spec_build_nodes(ns, ps, named, 0) == Some(Ok::<(Seq<ComponentView>, int), DeserializeErrorView>((seq![text_component(s)], 0))));
}

/// A named placeholder is filled with the value last given for its name.
pub proof fn law_named_argument(
    name: Seq<char>,
    value: Seq<char>,
    ps: Seq<Seq<char>>,
    named: Map<Seq<char>, Seq<char>>,
)
    requires
        is_plain(name),
    ensures
        spec_deserialize(seq!['{'] + name + seq!['}'], ps, named.insert(name, value)) == Some(
            Ok::<ComponentView, DeserializeErrorView>(root_of(seq![text_component(value)])),
        ),
{
    law_named_expression(name);
    let m = named.insert(name, value);
    let ns = seq![NodeView::Expression(ExpressionView::Named(name))];
    assert(ns.subrange(1, 1) == Seq::<NodeView>::empty());
    assert(m.contains_key(name) && m[name] == value);
    assert(spec_build_node(ns[0], ps, m, 0) == Some(Ok::<(ComponentView, int), DeserializeErrorView>((text_component(value), 0))));
    assert(spec_build_nodes(Seq::<NodeView>::empty(), ps, m, 0) == Some(Ok::<(Seq<ComponentView>, int), DeserializeErrorView>((Seq::<ComponentView>::empty(), 0))));
    assert(seq![text_component(value)] + Seq::<ComponentView>::empty() == seq![text_component(value)]);
    assert(spec_build_nodes(ns, ps, m, 0) == Some(Ok::<(Seq<ComponentView>, int), DeserializeErrorView>((seq![text_component(value)], 0))));
}

/// A named placeholder without a value for its name is refused, naming it.
pub proof fn law_missing_named_argument(name: Seq<char>, ps: Seq<Seq<char>>, named: Map<Seq<char>, Seq<char>>)
    requires
        is_plain(name),
        !named.contains_key(name),
    ensures
        spec_deserialize(seq!['{'] + name + seq!['}'], ps, named) == Some(
            Err::<ComponentView, DeserializeErrorView>(DeserializeErrorView::NamedArgNotFound(name)),
        ),
{
    law_named_expression(name);
    let ns = seq![NodeView::Expression(ExpressionView::Named(name))];
    assert(spec_build_node(ns[0], ps, named, 0) == Some(Err::<(ComponentView, int), DeserializeErrorView>(DeserializeErrorView::NamedArgNotFound(name))));
}

/// The tokens of `{}{}`.
proof fn lemma_two_placeholders()
    ensures
        spec_parse(seq!['{', '}', '{', '}']) == Ok::<Seq<NodeView>, ParseErrorView>(
            seq![NodeView::Expression(ExpressionView::Unnamed), NodeView::Expression(ExpressionView::Unnamed)],
        ),
{
    lemma_tokenize_special_prefix('}', Seq::empty());
    assert(seq!['}'] + Seq::<char>::empty() == seq!['}']);
    lemma_tokenize_special_prefix('{', seq!['}']);
    assert(seq!['{'] + seq!['}'] == seq!['{', '}']);
    lemma_tokenize_special_prefix('}', seq!['{', '}']);
    assert(seq!['}'] + seq!['{', '}'] == seq!['}', '{', '}']);
    lemma_tokenize_special_prefix('{', seq!['}', '{', '}']);
    assert(seq!['{'] + seq!['}', '{', '}'] == seq!['{', '}', '{', '}']);
    let ts = tokenize(seq!['{', '}', '{', '}']);
    assert(ts == seq![TokenView::CurlyOpen, TokenView::CurlyClose, TokenView::CurlyOpen, TokenView::CurlyClose]);
    let u = NodeView::Expression(ExpressionView::Unnamed);
    assert(spec_parse_from(ts, 4) == Ok::<Seq<NodeView>, ParseErrorView>(Seq::empty()));
    assert(spec_parse_from(ts, 2) == Ok::<Seq<NodeView>, ParseErrorView>(seq![u] + Seq::<NodeView>::empty()));
    assert(seq![u] + Seq::<NodeView>::empty() == seq![u]);
    assert(seq![u] + seq![u] == seq![u, u]);
}

/// Unnamed placeholders take the positional arguments in order, and one past the last
/// argument is refused with its position.
pub proof fn law_positional_arguments_in_order(ps: Seq<Seq<char>>, named: Map<Seq<char>, Seq<char>>)
    ensures
        ps.len() >= 2 ==> spec_deserialize(seq!['{', '}', '{', '}'], ps, named) == Some(
            Ok::<ComponentView, DeserializeErrorView>(
                root_of(seq![text_component(ps[0]), text_component(ps[1])]),
            ),
        ),
        ps.len() == 1 ==> spec_deserialize(seq!['{', '}', '{', '}'], ps, named) == Some(
            Err::<ComponentView, DeserializeErrorView>(DeserializeErrorView::PositionalArgNotFound(1)),
        ),
        ps.len() == 0 ==> spec_deserialize(seq!['{', '}', '{', '}'], ps, named) == Some(
            Err::<ComponentView, DeserializeErrorView>(DeserializeErrorView::PositionalArgNotFound(0)),
        ),
{
    lemma_two_placeholders();
    let u = NodeView::Expression(ExpressionView::Unnamed);
    let ns = seq![u, u];
    assert(ns[0] == u && ns[1] == u);
    assert(ns.subrange(1, 2) == seq![u]);
    assert(seq![u].subrange(1, 1) == Seq::<NodeView>::empty());
    if ps.len() >= 2 {
        let c0 = text_component(ps[0]);
        let c1 = text_component(ps[1]);
        assert(spec_build_node(u, ps, named, 1) == Some(Ok::<(ComponentView, int), DeserializeErrorView>((c1, 2))));
        assert(spec_build_nodes(Seq::<NodeView>::empty(), ps, named, 2) == Some(Ok::<(Seq<ComponentView>, int), DeserializeErrorView>((Seq::<ComponentView>::empty(), 2))));
        assert(spec_build_nodes(seq![u], ps, named, 1) == Some(Ok::<(Seq<ComponentView>, int), DeserializeErrorView>((seq![c1] + Seq::<ComponentView>::empty(), 2))));
        assert(seq![c1] + Seq::<ComponentView>::empty() == seq![c1]);
        assert(seq![c0] + seq![c1] == seq![c0, c1]);
        assert(spec_build_node(u, ps, named, 0) == Some(Ok::<(ComponentView, int), DeserializeErrorView>((c0, 1))));
        assert(spec_build_nodes(ns, ps, named, 0) == Some(Ok::<(Seq<ComponentView>, int), DeserializeErrorView>((seq![c0, c1], 2))));
    } else if ps.len() == 1 {
        let c0 = text_component(ps[0]);
        assert(spec_build_node(u, ps, named, 1) == Some(Err::<(ComponentView, int), DeserializeErrorView>(DeserializeErrorView::PositionalArgNotFound(1))));
        assert(spec_build_nodes(seq![u], ps, named, 1) == Some(Err::<(Seq<ComponentView>, int), DeserializeErrorView>(DeserializeErrorView::PositionalArgNotFound(1))));
        assert(spec_build_node(u, ps, named, 0) == Some(Ok::<(ComponentView, int), DeserializeErrorView>((c0, 1))));
    }
}

/// A placeholder in the middle of text takes the first positional argument, between the
/// two texts; without one it is refused at position 0.
pub proof fn law_positional_argument_in_text(
    a: Seq<char>,
    b: Seq<char>,
    ps: Seq<Seq<char>>,
    named: Map<Seq<char>, Seq<char>>,
)
    requires
        is_plain(a),
        is_plain(b),
    ensures
        ps.len() >= 1 ==> spec_deserialize(a + seq!['{', '}'] + b, ps, named) == Some(
            Ok::<ComponentView, DeserializeErrorView>(
                root_of(seq![text_component(a), text_component(ps[0]), text_component(b)]),
            ),
        ),
        ps.len() == 0 ==> spec_deserialize(a + seq!['{', '}'] + b, ps, named) == Some(
            Err::<ComponentView, DeserializeErrorView>(DeserializeErrorView::PositionalArgNotFound(0)),
        ),
{
    law_placeholder_in_text(a, b);
    let u = NodeView::Expression(ExpressionView::Unnamed);
    let ta = NodeView::Text(a);
    let tb = NodeView::Text(b);
    let ns = seq![ta, u, tb];
    assert(ns[0] == ta && ns[1] == u && ns[2] == tb);
    assert(ns.subrange(1, 3) == seq![u, tb]);
    assert(seq![u, tb].subrange(1, 2) == seq![tb]);
    assert(seq![tb].subrange(1, 1) == Seq::<NodeView>::empty());
    let ca = text_component(a);
    let cb = text_component(b);
    assert(spec_build_node(ta, ps, named, 0) == Some(Ok::<(ComponentView, int), DeserializeErrorView>((ca, 0))));
    if ps.len() >= 1 {
        let cp = text_component(ps[0]);
        assert(spec_build_nodes(Seq::<NodeView>::empty(), ps, named, 1) == Some(Ok::<(Seq<ComponentView>, int), DeserializeErrorView>((Seq::<ComponentView>::empty(), 1))));
        assert(spec_build_node(tb, ps, named, 1) == Some(Ok::<(ComponentView, int), DeserializeErrorView>((cb, 1))));
        assert(seq![cb] + Seq::<ComponentView>::empty() == seq![cb]);
        assert(spec_build_nodes(seq![tb], ps, named, 1) == Some(Ok::<(Seq<ComponentView>, int), DeserializeErrorView>((seq![cb], 1))));
        assert(spec_build_node(u, ps, named, 0) == Some(Ok::<(ComponentView, int), DeserializeErrorView>((cp, 1))));
        assert(seq![cp] + seq![cb] == seq![cp, cb]);
        assert(spec_build_nodes(seq![u, tb], ps, named, 0) == Some(Ok::<(Seq<ComponentView>, int), DeserializeErrorView>((seq![cp, cb], 1))));
        assert(seq![ca] + seq![cp, cb] == seq![ca, cp, cb]);
        assert(spec_build_nodes(ns, ps, named, 0) == Some(Ok::<(Seq<ComponentView>, int), DeserializeErrorView>((seq![ca, cp, cb], 1))));
    } else {
        assert(spec_build_node(u, ps, named, 0) == Some(Err::<(ComponentView, int), DeserializeErrorView>(DeserializeErrorView::PositionalArgNotFound(0))));
        assert(spec_build_nodes(seq![u, tb], ps, named, 0) == Some(Err::<(Seq<ComponentView>, int), DeserializeErrorView>(DeserializeErrorView::PositionalArgNotFound(0))));
    }
}

/// What a decoration's name is not: a special tag, a named color or a line break; and it
/// holds no special character.
proof fn lemma_decoration_tag(d: Decoration)
    ensures
        is_plain(decoration_name(d)),
        !is_void_tag(decoration_name(d)),
        decoration_of(decoration_name(d)) == Some(d),
        named_color_of(decoration_name(d)) is None,
        spec_special_from(decoration_name(d), Seq::empty()) == Err::<crate::style::special::SpecialView, SpecialErrorView>(SpecialErrorView::NotFound),
{
    law_decoration_names(d, decoration_name(d));
    reveal_strlit("bold");
    reveal_strlit("italic");
    reveal_strlit("underlined");
    reveal_strlit("strikethrough");
    reveal_strlit("obfuscated");
    reveal_strlit("newline");
    reveal_strlit("br");
    reveal_strlit("click");
    reveal_strlit("hover");
    reveal_strlit("color");
    reveal_strlit("rainbow");
    reveal_strlit("black");
    reveal_strlit("dark_blue");
    reveal_strlit("dark_green");
    reveal_strlit("dark_aqua");
    reveal_strlit("dark_red");
    reveal_strlit("dark_purple");
    reveal_strlit("gold");
    reveal_strlit("gray");
    reveal_strlit("dark_gray");
    reveal_strlit("blue");
    reveal_strlit("green");
    reveal_strlit("aqua");
    reveal_strlit("red");
    reveal_strlit("light_purple");
    reveal_strlit("yellow");
    reveal_strlit("white");
    let n = decoration_name(d);
    assert(n.len() == 4 || n.len() == 6 || n.len() == 10 || n.len() == 13);
    assert("newline"@.len() == 7 && "br"@.len() == 2);
    assert("click"@.len() == 5 && "hover"@.len() == 5 && "color"@.len() == 5 && "rainbow"@.len() == 7);
    assert("black"@.len() == 5 && "dark_blue"@.len() == 9 && "dark_green"@.len() == 10);
    assert("dark_aqua"@.len() == 9 && "dark_red"@.len() == 8 && "dark_purple"@.len() == 11);
    assert("gold"@.len() == 4 && "gray"@.len() == 4 && "dark_gray"@.len() == 9 && "blue"@.len() == 4);
    assert("green"@.len() == 5 && "aqua"@.len() == 4 && "red"@.len() == 3);
    assert("light_purple"@.len() == 12 && "yellow"@.len() == 6 && "white"@.len() == 5);
    assert("gold"@[0] == 'g' && "gray"@[0] == 'g' && "aqua"@[0] == 'a');
    assert("blue"@[1] == 'l' && "bold"@[1] == 'o' && "bold"@[0] == 'b');
    assert("yellow"@[0] == 'y' && "italic"@[0] == 'i');
    assert("dark_green"@[0] == 'd' && "underlined"@[0] == 'u' && "obfuscated"@[0] == 'o');
    assert forall|i: int| 0 <= i < n.len() implies !is_special_char(#[trigger] n[i]) by {
        assert('a' <= n[i] <= 'z');
        let ill = crate::token::spec_illegal_text_chars();
        if ill.contains(n[i]) {
            let j = choose|j: int| 0 <= j < ill.len() && ill[j] == n[i];
            assert(ill[j] == n[i]);
        }
    }
}

/// A decoration element turns on its own decoration and no other: `<tag>b`, for a
/// decoration's name, is a root holding one component with just that decoration, whose
/// one child is the text `b`.
pub proof fn law_decoration_element(
    d: Decoration,
    b: Seq<char>,
    ps: Seq<Seq<char>>,
    named: Map<Seq<char>, Seq<char>>,
)
    requires
        is_plain(b),
    ensures
        spec_deserialize(seq!['<'] + decoration_name(d) + seq!['>'] + b, ps, named) == Some(
            Ok::<ComponentView, DeserializeErrorView>(
                root_of(
                    seq![
                        ComponentView {
                            bold: d is Bold,
                            italic: d is Italic,
                            underlined: d is Underlined,
                            strikethrough: d is Strikethrough,
                            obfuscated: d is Obfuscated,
                            children: seq![text_component(b)],
                            ..text_component(Seq::empty())
                        },
                    ],
                ),
            ),
        ),
{
    let t = decoration_name(d);
    lemma_decoration_tag(d);
    law_unclosed_element(t, b);
    let tb = NodeView::Text(b);
    let e = NodeView::Element { tag: t, tag_descriptors: Seq::empty(), children: seq![tb] };
    let styled = ComponentView {
        bold: d is Bold,
        italic: d is Italic,
        underlined: d is Underlined,
        strikethrough: d is Strikethrough,
        obfuscated: d is Obfuscated,
        ..text_component(Seq::empty())
    };
    assert(spec_element_style(t, Seq::empty()) == Some(Ok::<ComponentView, DeserializeErrorView>(styled)));
    let cb = text_component(b);
    assert(seq![tb].subrange(1, 1) == Seq::<NodeView>::empty());
    assert(spec_build_nodes(Seq::<NodeView>::empty(), ps, named, 0) == Some(Ok::<(Seq<ComponentView>, int), DeserializeErrorView>((Seq::<ComponentView>::empty(), 0))));
    assert(spec_build_node(tb, ps, named, 0) == Some(Ok::<(ComponentView, int), DeserializeErrorView>((cb, 0))));
    assert(seq![cb] + Seq::<ComponentView>::empty() == seq![cb]);
    assert(spec_build_nodes(seq![tb], ps, named, 0) == Some(Ok::<(Seq<ComponentView>, int), DeserializeErrorView>((seq![cb], 0))));
    let comp = ComponentView { children: seq![cb], ..styled };
    assert(spec_build_node(e, ps, named, 0) == Some(Ok::<(ComponentView, int), DeserializeErrorView>((comp, 0))));
    let ns = seq![e];
    assert(ns.subrange(1, 1) == Seq::<NodeView>::empty());
    assert(seq![comp] + Seq::<ComponentView>::empty() == seq![comp]);
    assert(spec_build_nodes(ns, ps, named, 0) == Some(Ok::<(Seq<ComponentView>, int), DeserializeErrorView>((seq![comp], 0))));
}

} // verus!
