//! Turning a parsed MiniMessage string into a tree of styled text components.
use std::borrow::Cow;

use vstd::prelude::*;

use crate::parse_error::{ParseError, ParseErrorView};
use crate::parser::{descriptors_view, nodes_view, node_view, parse_str, spec_parse, Expression, Node};
use crate::parser_spec::{ExpressionView, NodeView};
use crate::style::click_event::{ClickEvent, ClickEventView};
use crate::style::color::Color;
use crate::style::cow_to_string;
use crate::style::hover_event::{HoverEvent, HoverEventView};
use crate::style::rainbow::Rainbow;
use crate::style::special::{
    special_panics, special_would_panic, spec_special_from, Special, SpecialError, SpecialErrorView,
    SpecialView,
};
use crate::style::{decoration_of, named_color_of, tag_to_decoration, tag_to_named_color, Decoration, NamedColor};
use crate::text::str_eq;
use vstd::string::StrSliceExecFns;

verus! {

/// Why a MiniMessage string could not be turned into components.
#[derive(Debug)]
pub enum DeserializeError {
    /// An unnamed placeholder had no positional argument left; holds its position.
    PositionalArgNotFound(usize),
    /// A named placeholder had no argument of that name; holds the name.
    NamedArgNotFound(String),
    /// A tag could not be read.
    Special(SpecialError),
    /// The string could not be parsed.
    Parser(ParseError),
}

/// The mathematical value of a deserialization error.
pub enum DeserializeErrorView {
    PositionalArgNotFound(int),
    NamedArgNotFound(Seq<char>),
    Special(SpecialErrorView),
    Parser(ParseErrorView),
}

impl View for DeserializeError {
    type V = DeserializeErrorView;

    open spec fn view(&self) -> DeserializeErrorView {
        match self {
            DeserializeError::PositionalArgNotFound(p) => DeserializeErrorView::PositionalArgNotFound(
                *p as int,
            ),
            DeserializeError::NamedArgNotFound(n) => DeserializeErrorView::NamedArgNotFound(n@),
            DeserializeError::Special(e) => DeserializeErrorView::Special(e@),
            DeserializeError::Parser(e) => DeserializeErrorView::Parser(e@),
        }
    }
}

/// The color of a component: named, or by its red, green and blue parts.
#[derive(Debug, Clone, Copy, PartialEq, Eq)]
pub enum ComponentColor {
    Named(NamedColor),
    Rgb(u8, u8, u8),
}

/// A piece of styled text with the components nested in it.
#[derive(Debug)]
pub struct Component {
    pub text: String,
    pub color: Option<ComponentColor>,
    pub bold: bool,
    pub italic: bool,
    pub underlined: bool,
    pub strikethrough: bool,
    pub obfuscated: bool,
    pub click_event: Option<ClickEvent>,
    pub hover_event: Option<HoverEvent>,
    pub rainbow: Option<Rainbow>,
    pub children: Vec<Component>,
}

/// The mathematical value of a component.
pub struct ComponentView {
    pub text: Seq<char>,
    pub color: Option<ComponentColor>,
    pub bold: bool,
    pub italic: bool,
    pub underlined: bool,
    pub strikethrough: bool,
    pub obfuscated: bool,
    pub click_event: Option<ClickEventView>,
    pub hover_event: Option<HoverEventView>,
    pub rainbow: Option<Rainbow>,
    pub children: Seq<ComponentView>,
}

/// The mathematical value of a component.
pub open spec fn component_view(c: Component) -> ComponentView
    decreases c,
{
    ComponentView {
        text: c.text@,
        color: c.color,
        bold: c.bold,
        italic: c.italic,
        underlined: c.underlined,
        strikethrough: c.strikethrough,
        obfuscated: c.obfuscated,
        click_event: match c.click_event {
            Some(e) => Some(e@),
            None => None,
        },
        hover_event: match c.hover_event {
            Some(e) => Some(e@),
            None => None,
        },
        rainbow: c.rainbow,
        children: components_view(c.children@),
    }
}

/// The mathematical values of a sequence of components.
pub open spec fn components_view(cs: Seq<Component>) -> Seq<ComponentView>
    decreases cs,
{
    if cs.len() == 0 {
        Seq::empty()
    } else {
        components_view(cs.subrange(0, cs.len() - 1)).push(component_view(cs[cs.len() - 1]))
    }
}

impl View for Component {
    type V = ComponentView;

    open spec fn view(&self) -> ComponentView {
        component_view(*self)
    }
}

/// Adding a component adds its value.
proof fn lemma_components_view_push(cs: Seq<Component>, c: Component)
    ensures
        components_view(cs.push(c)) == components_view(cs).push(component_view(c)),
{
    assert(cs.push(c).subrange(0, cs.len() as int) == cs);
}

/// An unstyled component holding only text.
pub open spec fn text_component(t: Seq<char>) -> ComponentView {
    ComponentView {
        text: t,
        color: None,
        bold: false,
        italic: false,
        underlined: false,
        strikethrough: false,
        obfuscated: false,
        click_event: None,
        hover_event: None,
        rainbow: None,
        children: Seq::empty(),
    }
}

impl Component {
    /// An unstyled component holding only `text`.
    pub fn text(text: String) -> (r: Component)
        ensures
            r@ == text_component(text@),
    {
        let r = Component {
            text,
            color: None,
            bold: false,
            italic: false,
            underlined: false,
            strikethrough: false,
            obfuscated: false,
            click_event: None,
            hover_event: None,
            rainbow: None,
            children: Vec::new(),
        };
        assert(components_view(r.children@) == Seq::<ComponentView>::empty());
        r
    }
}

/// The value of pairs, later pairs winning over earlier ones with the same key.
pub open spec fn pairs_map(ps: Seq<(Seq<char>, Seq<char>)>) -> Map<Seq<char>, Seq<char>>
    decreases ps.len(),
{
    if ps.len() == 0 {
        Map::empty()
    } else {
        pairs_map(ps.drop_last()).insert(ps.last().0, ps.last().1)
    }
}

/// Arguments for the placeholders of a MiniMessage string, already turned into text:
/// positional ones in order, and named ones by name.
pub struct ArgumentCollection {
    positionals: Vec<String>,
    named: Vec<(String, String)>,
}

impl ArgumentCollection {
    /// The positional arguments, in order.
    pub closed spec fn positionals(&self) -> Seq<Seq<char>> {
        self.positionals@.map_values(|s: String| s@)
    }

    /// The named arguments, by name.
    pub closed spec fn named_args(&self) -> Map<Seq<char>, Seq<char>> {
        pairs_map(self.named@.map_values(|p: (String, String)| (p.0@, p.1@)))
    }

    /// No arguments.
    pub fn new() -> (r: Self)
        ensures
            r.positionals() == Seq::<Seq<char>>::empty(),
            r.named_args() == Map::<Seq<char>, Seq<char>>::empty(),
    {
        let r = ArgumentCollection { positionals: Vec::new(), named: Vec::new() };
        assert(r.positionals() =~= Seq::<Seq<char>>::empty());
        r
    }

    /// These arguments and one more positional argument after them.
    pub fn positional(self, data: String) -> (r: Self)
        ensures
            r.positionals() == self.positionals().push(data@),
            r.named_args() == self.named_args(),
    {
        let mut s = self;
        let ghost old_s = s;
        s.positionals.push(data);
        assert(s.positionals() =~= old_s.positionals().push(data@));
        s
    }

    /// These arguments with `name` standing for `data`, replacing an earlier value.
    pub fn named(self, name: &str, data: String) -> (r: Self)
        ensures
            r.positionals() == self.positionals(),
            r.named_args() == self.named_args().insert(name@, data@),
    {
        let mut s = self;
        let ghost old_s = s;
        let ghost old_pairs = s.named@.map_values(|p: (String, String)| (p.0@, p.1@));
        s.named.push((name.to_owned(), data));
        assert(s.named@.map_values(|p: (String, String)| (p.0@, p.1@)).drop_last() =~= old_pairs);
        s
    }

    /// The text of the named argument `name`, if there is one.
    fn resolve(&self, name: &str) -> (r: Option<String>)
        ensures
            r matches Some(v) ==> self.named_args().contains_key(name@) && v@ == self.named_args()[name@],
            r is None ==> !self.named_args().contains_key(name@),
    {
        let ghost ps = self.named@.map_values(|p: (String, String)| (p.0@, p.1@));
        let mut j = self.named.len();
        assert(ps.take(j as int) == ps);
        while j > 0
            invariant
                j <= self.named@.len(),
                ps == self.named@.map_values(|p: (String, String)| (p.0@, p.1@)),
                pairs_map(ps).contains_key(name@) == pairs_map(ps.take(j as int)).contains_key(name@),
                pairs_map(ps).contains_key(name@) ==> pairs_map(ps)[name@] == pairs_map(ps.take(j as int))[name@],
            decreases j,
        {
            let ghost pre = ps.take(j as int);
            assert(pre.drop_last() == ps.take(j - 1));
            assert(pre.last() == ps[j - 1]);
            if str_eq(self.named[j - 1].0.as_str(), name) {
                return Some(self.named[j - 1].1.clone());
            }
            j -= 1;
        }
        assert(ps.take(0) == Seq::<(Seq<char>, Seq<char>)>::empty());
        assert(ps.take(self.named@.len() as int) == ps);
        None
    }

    /// The text of positional argument `pos`, if there is one.
    fn resolve_unnamed(&self, pos: usize) -> (r: Option<String>)
        ensures
            r matches Some(v) ==> pos < self.positionals().len() && v@ == self.positionals()[pos as int]
                && pos < usize::MAX,
            r is None ==> pos >= self.positionals().len(),
    {
        if pos < self.positionals.len() {
            Some(self.positionals[pos].clone())
        } else {
            None
        }
    }
}

impl Default for ArgumentCollection {
    fn default() -> (r: Self)
        ensures
            r.positionals() == Seq::<Seq<char>>::empty(),
            r.named_args() == Map::<Seq<char>, Seq<char>>::empty(),
    {
        ArgumentCollection::new()
    }
}

/// Arguments for placeholders, with the position of the next positional one to use.
pub struct FormatArgs {
    args: ArgumentCollection,
    pos: usize,
}

impl FormatArgs {
    /// The positional arguments, in order.
    pub closed spec fn positionals(&self) -> Seq<Seq<char>> {
        self.args.positionals()
    }

    /// The named arguments, by name.
    pub closed spec fn named_args(&self) -> Map<Seq<char>, Seq<char>> {
        self.args.named_args()
    }

    /// The position of the next positional argument to use.
    pub closed spec fn position(&self) -> int {
        self.pos as int
    }

    /// No arguments.
    pub fn new() -> (r: Self)
        ensures
            r.positionals() == Seq::<Seq<char>>::empty(),
            r.named_args() == Map::<Seq<char>, Seq<char>>::empty(),
            r.position() == 0,
    {
        FormatArgs { args: ArgumentCollection::new(), pos: 0 }
    }

    /// The given arguments, starting at the first positional one.
    pub fn new_args(args: ArgumentCollection) -> (r: Self)
        ensures
            r.positionals() == args.positionals(),
            r.named_args() == args.named_args(),
            r.position() == 0,
    {
        FormatArgs { args, pos: 0 }
    }

    fn resolve(&mut self, name: &str) -> (r: Option<String>)
        ensures
            *final(self) == *old(self),
            r matches Some(v) ==> old(self).named_args().contains_key(name@) && v@ == old(
                self,
            ).named_args()[name@],
            r is None ==> !old(self).named_args().contains_key(name@),
    {
        self.args.resolve(name)
    }

    fn resolve_unnamed(&mut self) -> (r: Option<String>)
        ensures
            final(self).positionals() == old(self).positionals(),
            final(self).named_args() == old(self).named_args(),
            r matches Some(v) ==> old(self).position() < old(self).positionals().len()
                && v@ == old(self).positionals()[old(self).position()]
                && final(self).position() == old(self).position() + 1,
            r is None ==> old(self).position() >= old(self).positionals().len()
                && final(self).position() == old(self).position(),
    {
        let value = match self.args.resolve_unnamed(self.pos) {
            Some(v) => v,
            None => {
                return None;
            },
        };
        self.pos = self.pos + 1;
        Some(value)
    }
}

impl Default for FormatArgs {
    fn default() -> (r: Self)
        ensures
            r.positionals() == Seq::<Seq<char>>::empty(),
            r.named_args() == Map::<Seq<char>, Seq<char>>::empty(),
            r.position() == 0,
    {
        FormatArgs::new()
    }
}

/// A component styled by a special tag. An empty click or hover action leaves it as is.
pub open spec fn apply_special_view(c: ComponentView, s: SpecialView) -> ComponentView {
    match s {
        SpecialView::Click(e) => if e is Empty {
            c
        } else {
            ComponentView { click_event: Some(e), ..c }
        },
        SpecialView::Hover(e) => if e is Empty {
            c
        } else {
            ComponentView { hover_event: Some(e), ..c }
        },
        SpecialView::Color(Color(r, g, b)) => ComponentView { color: Some(ComponentColor::Rgb(r, g, b)), ..c },
        SpecialView::Rainbow(r) => ComponentView { rainbow: Some(r), ..c },
    }
}

/// A component with a decoration turned on.
pub open spec fn apply_decoration_view(c: ComponentView, d: Decoration) -> ComponentView {
    match d {
        Decoration::Bold => ComponentView { bold: true, ..c },
        Decoration::Italic => ComponentView { italic: true, ..c },
        Decoration::Underlined => ComponentView { underlined: true, ..c },
        Decoration::Strikethrough => ComponentView { strikethrough: true, ..c },
        Decoration::Obfuscated => ComponentView { obfuscated: true, ..c },
    }
}

/// The empty component an element with tag `tag` and descriptors `ds` styles before its
/// children are added: its decoration, then its special tag, then its named color. `None`
/// where reading the special tag would cut a character in two; an error where the special
/// tag fails otherwise than by not being one, or where the tag is none of the three.
pub open spec fn spec_element_style(tag: Seq<char>, ds: Seq<Seq<char>>) -> Option<Result<ComponentView, DeserializeErrorView>> {
    if special_panics(tag, ds) {
        None
    } else {
        let c0 = text_component(Seq::empty());
        let c1 = match decoration_of(tag) {
            Some(d) => apply_decoration_view(c0, d),
            None => c0,
        };
        match spec_special_from(tag, ds) {
            Err(e) => if e is NotFound {
                let c3 = match named_color_of(tag) {
                    Some(col) => ComponentView { color: Some(ComponentColor::Named(col)), ..c1 },
                    None => c1,
                };
                if decoration_of(tag) is None && named_color_of(tag) is None {
                    Some(Err(DeserializeErrorView::Special(SpecialErrorView::UnknownTag(tag))))
                } else {
                    Some(Ok(c3))
                }
            } else {
                Some(Err(DeserializeErrorView::Special(e)))
            },
            Ok(s) => {
                let c2 = apply_special_view(c1, s);
                Some(
                    Ok(
                        match named_color_of(tag) {
                            Some(col) => ComponentView { color: Some(ComponentColor::Named(col)), ..c2 },
                            None => c2,
                        },
                    ),
                )
            },
        }
    }
}

/// A building step: a value and the next positional argument's position, an error, or
/// `None` where building would cut a character in two.
pub type BuildStep<T> = Option<Result<(T, int), DeserializeErrorView>>;

/// The component for a node, with positional arguments `ps` used from position `p` and
/// named arguments `named`.
pub open spec fn spec_build_node(
    n: NodeView,
    ps: Seq<Seq<char>>,
    named: Map<Seq<char>, Seq<char>>,
    p: int,
) -> BuildStep<ComponentView>
    decreases n,
{
    match n {
        NodeView::Text(t) => Some(Ok((text_component(t), p))),
        NodeView::Expression(ExpressionView::Named(name)) => if named.contains_key(name) {
            Some(Ok((text_component(named[name]), p)))
        } else {
            Some(Err(DeserializeErrorView::NamedArgNotFound(name)))
        },
        NodeView::Expression(ExpressionView::Unnamed) => if 0 <= p < ps.len() {
            Some(Ok((text_component(ps[p]), p + 1)))
        } else {
            Some(Err(DeserializeErrorView::PositionalArgNotFound(p)))
        },
        NodeView::Element { tag, tag_descriptors, children } => match spec_element_style(
            tag,
            tag_descriptors,
        ) {
            None => None,
            Some(Err(e)) => Some(Err(e)),
            Some(Ok(c)) => match spec_build_nodes(children, ps, named, p) {
                None => None,
                Some(Err(e)) => Some(Err(e)),
                Some(Ok((cs, q))) => Some(Ok((ComponentView { children: cs, ..c }, q))),
            },
        },
    }
}

/// The components for a sequence of nodes, in order, the positional arguments used in
/// that order too.
pub open spec fn spec_build_nodes(
    ns: Seq<NodeView>,
    ps: Seq<Seq<char>>,
    named: Map<Seq<char>, Seq<char>>,
    p: int,
) -> BuildStep<Seq<ComponentView>>
    decreases ns,
{
    if ns.len() == 0 {
        Some(Ok((Seq::empty(), p)))
    } else {
        match spec_build_node(ns[0], ps, named, p) {
            None => None,
            Some(Err(e)) => Some(Err(e)),
            Some(Ok((c, q))) => match spec_build_nodes(ns.subrange(1, ns.len() as int), ps, named, q) {
                None => None,
                Some(Err(e)) => Some(Err(e)),
                Some(Ok((cs, r))) => Some(Ok((seq![c] + cs, r))),
            },
        }
    }
}

/// Whether a building result agrees with a building step, the next positional argument
/// then being at `pos`.
pub open spec fn build_matches(
    r: Option<Result<Component, DeserializeError>>,
    pos: int,
    s: BuildStep<ComponentView>,
) -> bool {
    match (r, s) {
        (None, None) => true,
        (Some(Ok(c)), Some(Ok((v, q)))) => c@ == v && pos == q,
        (Some(Err(e)), Some(Err(f))) => e@ == f,
        _ => false,
    }
}

/// Puts the components built so far in front of a step that builds more.
pub open spec fn prepend_components(cs: Seq<ComponentView>, s: BuildStep<Seq<ComponentView>>) -> BuildStep<
    Seq<ComponentView>,
> {
    match s {
        None => None,
        Some(Err(e)) => Some(Err(e)),
        Some(Ok((rest, q))) => Some(Ok((cs + rest, q))),
    }
}

/// The value of a node of a sequence is the node's value.
pub proof fn lemma_nodes_view_index<'a>(ns: Seq<Node<'a>>, i: int)
    requires
        0 <= i < ns.len(),
    ensures
        nodes_view(ns).len() == ns.len(),
        nodes_view(ns)[i] == node_view(ns[i]),
    decreases ns.len(),
{
    let init = ns.subrange(0, ns.len() - 1);
    if i < ns.len() - 1 {
        lemma_nodes_view_index(init, i);
        assert(init[i] == ns[i]);
    } else {
        lemma_nodes_view_len(init);
    }
}

/// A sequence of nodes has as many values as nodes.
pub proof fn lemma_nodes_view_len<'a>(ns: Seq<Node<'a>>)
    ensures
        nodes_view(ns).len() == ns.len(),
    decreases ns.len(),
{
    if ns.len() > 0 {
        lemma_nodes_view_len(ns.subrange(0, ns.len() - 1));
    }
}

/// A copy of a list of descriptors.
fn clone_descriptors<'a>(ds: &Vec<Cow<'a, str>>) -> (r: Vec<Cow<'a, str>>)
    ensures
        descriptors_view(r@) == descriptors_view(ds@),
{
    let mut r: Vec<Cow<'a, str>> = Vec::new();
    let mut i: usize = 0;
    while i < ds.len()
        invariant
            i <= ds@.len(),
            descriptors_view(r@) == descriptors_view(ds@).take(i as int),
        decreases ds@.len() - i,
    {
        let d = match &ds[i] {
            Cow::Borrowed(b) => Cow::Borrowed(*b),
            Cow::Owned(o) => Cow::Owned(o.clone()),
        };
        assert(descriptors_view(r@.push(d)) == descriptors_view(r@).push(d@));
        assert(descriptors_view(ds@).take(i + 1) == descriptors_view(ds@).take(i as int).push(ds@[i as int]@));
        r.push(d);
        i += 1;
    }
    assert(descriptors_view(ds@).take(ds@.len() as int) == descriptors_view(ds@));
    r
}

/// Styles a component by a special tag; an empty click or hover action leaves it as is.
pub fn apply_special(comp: &mut Component, special: Special) -> (r: Result<(), DeserializeError>)
    ensures
        r is Ok,
        final(comp)@ == apply_special_view(old(comp)@, special@),
{
    match special {
        Special::Click(click) => {
            match click {
                ClickEvent::__Empty => {},
                other => {
                    comp.click_event = Some(other);
                },
            }
        },
        Special::Hover(hover) => {
            match hover {
                HoverEvent::__Empty => {},
                other => {
                    comp.hover_event = Some(other);
                },
            }
        },
        Special::Color(Color(r, g, b)) => {
            comp.color = Some(ComponentColor::Rgb(r, g, b));
        },
        Special::Rainbow(rainbow) => {
            comp.rainbow = Some(rainbow);
        },
    }
    Ok(())
}

/// The component for a node, using up positional arguments as it meets unnamed
/// placeholders; `None` where reading a color would cut a character in two.
fn build_node(node: &Node<'_>, args: &mut FormatArgs) -> (r: Option<Result<Component, DeserializeError>>)
    ensures
        final(args).positionals() == old(args).positionals(),
        final(args).named_args() == old(args).named_args(),
        build_matches(
            r,
            final(args).position(),
            spec_build_node(node@, old(args).positionals(), old(args).named_args(), old(args).position()),
        ),
    decreases node,
{
    match node {
        Node::Text(text) => Some(Ok(Component::text(cow_to_string(text)))),
        Node::Expression(Expression::Named(name)) => {
            let name_str: &str = match name {
                Cow::Borrowed(b) => b,
                Cow::Owned(o) => o.as_str(),
            };
            match args.resolve(name_str) {
                Some(text) => Some(Ok(Component::text(text))),
                None => Some(Err(DeserializeError::NamedArgNotFound(cow_to_string(name)))),
            }
        },
        Node::Expression(Expression::Unnamed) => {
            match args.resolve_unnamed() {
                Some(text) => Some(Ok(Component::text(text))),
                None => Some(Err(DeserializeError::PositionalArgNotFound(args.pos))),
            }
        },
        Node::Element { tag, children, tag_descriptors } => {
            let ghost ps = args.positionals();
            let ghost named = args.named_args();
            let ghost ds = descriptors_view(tag_descriptors@);
            if special_would_panic(tag, tag_descriptors) {
                return None;
            }
            let mut comp = Component::text(String::new());
            let mut matched = false;
            match tag_to_decoration(tag) {
                Some(decoration) => {
                    matched = true;
                    match decoration {
                        Decoration::Bold => comp.bold = true,
                        Decoration::Italic => comp.italic = true,
                        Decoration::Underlined => comp.underlined = true,
                        Decoration::Strikethrough => comp.strikethrough = true,
                        Decoration::Obfuscated => comp.obfuscated = true,
                    };
                },
                None => {},
            }
            match Special::from_descriptor(tag, clone_descriptors(tag_descriptors)) {
                Ok(special) => {
                    matched = true;
                    let _ = apply_special(&mut comp, special);
                },
                Err(SpecialError::NotFound) => {},
                Err(err) => {
                    return Some(Err(DeserializeError::Special(err)));
                },
            }
            match tag_to_named_color(tag) {
                Some(color) => {
                    matched = true;
                    comp.color = Some(ComponentColor::Named(color));
                },
                None => {},
            }
            if !matched {
                return Some(Err(DeserializeError::Special(SpecialError::UnknownTag((*tag).to_owned()))));
            }
            let ghost styled = comp@;
            assert(spec_element_style(tag@, ds) == Some(Ok::<ComponentView, DeserializeErrorView>(styled)));
            let ghost cns = nodes_view(children@);
            let ghost p0 = args.position();
            proof {
                lemma_nodes_view_len(children@);
                assert(cns.subrange(0, cns.len() as int) == cns);
            }
            let mut i: usize = 0;
            while i < children.len()
                invariant
                    i <= children@.len(),
                    ps == old(args).positionals(),
                    named == old(args).named_args(),
                    p0 == old(args).position(),
                    node@ == (NodeView::Element { tag: tag@, tag_descriptors: ds, children: cns }),
                    *node is Element && (*node)->Element_children == *children,
                    spec_element_style(tag@, ds) == Some(Ok::<ComponentView, DeserializeErrorView>(styled)),
                    cns == nodes_view(children@),
                    cns.len() == children@.len(),
                    args.positionals() == ps,
                    args.named_args() == named,
                    comp@ == (ComponentView { children: components_view(comp.children@), ..styled }),
                    spec_build_nodes(cns, ps, named, p0) == prepend_components(
                        components_view(comp.children@),
                        spec_build_nodes(cns.subrange(i as int, cns.len() as int), ps, named, args.position()),
                    ),
                decreases children@.len() - i,
            {
                let ghost before = components_view(comp.children@);
                let ghost rest = cns.subrange(i as int, cns.len() as int);
                proof {
                    lemma_nodes_view_index(children@, i as int);
                    assert(decreases_to!(*node => (*node)->Element_children));
                    assert((*node)->Element_children == *children);
                    assert(decreases_to!(*children => children@));
                    assert(decreases_to!(children@ => children@[i as int]));
                    assert(decreases_to!(*node => children@[i as int]));
                    assert(rest[0] == node_view(children@[i as int]));
                    assert(rest.subrange(1, rest.len() as int) == cns.subrange(i + 1, cns.len() as int));
                }
                match build_node(&children[i], args) {
                    None => {
                        return None;
                    },
                    Some(Err(e)) => {
                        return Some(Err(e));
                    },
                    Some(Ok(child)) => {
                        proof {
                            lemma_components_view_push(comp.children@, child);
                            match spec_build_nodes(cns.subrange(i + 1, cns.len() as int), ps, named, args.position()) {
                                Some(Ok((x, q))) => {
                                    assert(before + (seq![child@] + x) == before.push(child@) + x);
                                },
                                _ => {},
                            }
                        }
                        comp.children.push(child);
                    },
                }
                i += 1;
            }
            proof {
                assert(cns.subrange(cns.len() as int, cns.len() as int) == Seq::<NodeView>::empty());
                assert(components_view(comp.children@) + Seq::<ComponentView>::empty() == components_view(comp.children@));
            }
            Some(Ok(comp))
        },
    }
}

/// The root component for a list of nodes: an empty one holding their components.
pub open spec fn spec_build_component(
    ns: Seq<NodeView>,
    ps: Seq<Seq<char>>,
    named: Map<Seq<char>, Seq<char>>,
) -> Option<Result<ComponentView, DeserializeErrorView>> {
    match spec_build_nodes(ns, ps, named, 0) {
        None => None,
        Some(Err(e)) => Some(Err(e)),
        Some(Ok((cs, _))) => Some(Ok(ComponentView { children: cs, ..text_component(Seq::empty()) })),
    }
}

/// The root component for a list of nodes, the positional arguments used from the start.
fn build_component(nodes: &Vec<Node<'_>>, args: &mut FormatArgs) -> (r: Option<Result<Component, DeserializeError>>)
    requires
        old(args).position() == 0,
    ensures
        match (r, spec_build_component(nodes_view(nodes@), old(args).positionals(), old(args).named_args())) {
            (None, None) => true,
            (Some(Ok(c)), Some(Ok(v))) => c@ == v,
            (Some(Err(e)), Some(Err(f))) => e@ == f,
            _ => false,
        },
{
    let ghost ps = args.positionals();
    let ghost named = args.named_args();
    let ghost ns = nodes_view(nodes@);
    let mut root = Component::text(String::new());
    let ghost empty = root@;
    proof {
        lemma_nodes_view_len(nodes@);
        assert(ns.subrange(0, ns.len() as int) == ns);
        assert(Seq::<ComponentView>::empty() + Seq::<ComponentView>::empty() == Seq::<ComponentView>::empty());
    }
    let mut i: usize = 0;
    while i < nodes.len()
        invariant
            i <= nodes@.len(),
            ps == old(args).positionals(),
            named == old(args).named_args(),
            ns == nodes_view(nodes@),
            ns.len() == nodes@.len(),
            args.positionals() == ps,
            args.named_args() == named,
            root@ == (ComponentView { children: components_view(root.children@), ..empty }),
            empty == text_component(Seq::empty()),
            spec_build_nodes(ns, ps, named, 0) == prepend_components(
                components_view(root.children@),
                spec_build_nodes(ns.subrange(i as int, ns.len() as int), ps, named, args.position()),
            ),
        decreases nodes@.len() - i,
    {
        let ghost before = components_view(root.children@);
        let ghost rest = ns.subrange(i as int, ns.len() as int);
        proof {
            lemma_nodes_view_index(nodes@, i as int);
            assert(rest[0] == node_view(nodes@[i as int]));
            assert(rest.subrange(1, rest.len() as int) == ns.subrange(i + 1, ns.len() as int));
        }
        match build_node(&nodes[i], args) {
            None => {
                return None;
            },
            Some(Err(e)) => {
                return Some(Err(e));
            },
            Some(Ok(child)) => {
                proof {
                    lemma_components_view_push(root.children@, child);
                    match spec_build_nodes(ns.subrange(i + 1, ns.len() as int), ps, named, args.position()) {
                        Some(Ok((x, q))) => {
                            assert(before + (seq![child@] + x) == before.push(child@) + x);
                        },
                        _ => {},
                    }
                }
                root.children.push(child);
            },
        }
        i += 1;
    }
    proof {
        assert(ns.subrange(ns.len() as int, ns.len() as int) == Seq::<NodeView>::empty());
        assert(components_view(root.children@) + Seq::<ComponentView>::empty() == components_view(root.children@));
    }
    Some(Ok(root))
}

/// The component tree for a MiniMessage string with these arguments; `None` where
/// reading a color of it would cut a character in two.
pub open spec fn spec_deserialize(
    input: Seq<char>,
    ps: Seq<Seq<char>>,
    named: Map<Seq<char>, Seq<char>>,
) -> Option<Result<ComponentView, DeserializeErrorView>> {
    match spec_parse(input) {
        Err(e) => Some(Err(DeserializeErrorView::Parser(e))),
        Ok(ns) => spec_build_component(ns, ps, named),
    }
}

/// Whether a result agrees with a deserialization outcome.
pub open spec fn deserialize_matches(
    r: Result<Component, DeserializeError>,
    s: Option<Result<ComponentView, DeserializeErrorView>>,
) -> bool {
    match (r, s) {
        (Ok(c), Some(Ok(v))) => c@ == v,
        (Err(e), Some(Err(f))) => e@ == f,
        _ => false,
    }
}

/// Builds the component tree for a MiniMessage string, or tells that reading one of its
/// colors would cut a character in two (`None`).
pub fn try_deserialize_with_args(input: &str, args: ArgumentCollection) -> (r: Option<
    Result<Component, DeserializeError>,
>)
    ensures
        r is None <==> spec_deserialize(input@, args.positionals(), args.named_args()) is None,
        r matches Some(res) ==> deserialize_matches(
            res,
            spec_deserialize(input@, args.positionals(), args.named_args()),
        ),
{
    let nodes = match parse_str(input) {
        Ok(n) => n,
        Err(e) => {
            return Some(Err(DeserializeError::Parser(e)));
        },
    };
    let mut fmt_args = FormatArgs::new_args(args);
    build_component(&nodes, &mut fmt_args)
}

/// Builds the component tree for a MiniMessage string with these arguments.
pub fn deserialize_with_args(input: &str, args: ArgumentCollection) -> (r: Result<Component, DeserializeError>)
    requires
        spec_deserialize(input@, args.positionals(), args.named_args()) is Some,
    ensures
        deserialize_matches(r, spec_deserialize(input@, args.positionals(), args.named_args())),
{
    match try_deserialize_with_args(input, args) {
        Some(r) => r,
        None => vstd::pervasive::unreached(),
    }
}

/// Builds the component tree for a MiniMessage string without arguments.
pub fn deserialize(input: &str) -> (r: Result<Component, DeserializeError>)
    requires
        spec_deserialize(input@, Seq::empty(), Map::empty()) is Some,
    ensures
        deserialize_matches(r, spec_deserialize(input@, Seq::empty(), Map::empty())),
{
    deserialize_with_args(input, ArgumentCollection::new())
}

/// How many characters a rainbow on `c` colors: its own text and that of the components
/// below it, except those with a color or rainbow of their own (and what is below them).
/// With `include_root` false, `c` itself counts as below the rainbow.
pub open spec fn spec_rainbow_char_count(c: ComponentView, include_root: bool) -> nat
    decreases c,
{
    if !include_root && (c.color is Some || c.rainbow is Some) {
        0
    } else {
        c.text.len() + spec_rainbow_char_count_all(c.children)
    }
}

/// The rainbow character counts of a sequence of components below a rainbow, added up.
pub open spec fn spec_rainbow_char_count_all(cs: Seq<ComponentView>) -> nat
    decreases cs,
{
    if cs.len() == 0 {
        0
    } else {
        spec_rainbow_char_count(cs[0], false) + spec_rainbow_char_count_all(
            cs.subrange(1, cs.len() as int),
        )
    }
}

/// The value of a component of a sequence is the component's value.
pub proof fn lemma_components_view_index(cs: Seq<Component>, i: int)
    requires
        0 <= i < cs.len(),
    ensures
        components_view(cs).len() == cs.len(),
        components_view(cs)[i] == component_view(cs[i]),
    decreases cs.len(),
{
    let init = cs.subrange(0, cs.len() - 1);
    if i < cs.len() - 1 {
        lemma_components_view_index(init, i);
        assert(init[i] == cs[i]);
    } else {
        lemma_components_view_len(init);
    }
}

/// A sequence of components has as many values as components.
pub proof fn lemma_components_view_len(cs: Seq<Component>)
    ensures
        components_view(cs).len() == cs.len(),
    decreases cs.len(),
{
    if cs.len() > 0 {
        lemma_components_view_len(cs.subrange(0, cs.len() - 1));
    }
}

/// How many characters a rainbow on `comp` colors (see `spec_rainbow_char_count`), or
/// `None` where that number does not fit in a `usize`.
pub fn checked_rainbow_char_count(comp: &Component, include_root: bool) -> (r: Option<usize>)
    ensures
        r matches Some(n) ==> n == spec_rainbow_char_count(comp@, include_root),
        r is None ==> spec_rainbow_char_count(comp@, include_root) > usize::MAX,
    decreases comp,
{
    if !include_root && (comp.color.is_some() || comp.rainbow.is_some()) {
        return Some(0);
    }
    let ghost cs = components_view(comp.children@);
    let ghost total = spec_rainbow_char_count(comp@, include_root);
    let mut count = comp.text.as_str().unicode_len();
    proof {
        lemma_components_view_len(comp.children@);
        assert(cs.subrange(0, cs.len() as int) == cs);
    }
    let mut i: usize = 0;
    while i < comp.children.len()
        invariant
            i <= comp.children@.len(),
            cs == components_view(comp.children@),
            cs.len() == comp.children@.len(),
            total == spec_rainbow_char_count(comp@, include_root),
            total == comp.text@.len() + spec_rainbow_char_count_all(cs),
            count + spec_rainbow_char_count_all(cs.subrange(i as int, cs.len() as int)) == total,
        decreases comp.children@.len() - i,
    {
        let ghost rest = cs.subrange(i as int, cs.len() as int);
        proof {
            lemma_components_view_index(comp.children@, i as int);
            assert(rest[0] == component_view(comp.children@[i as int]));
            assert(rest.subrange(1, rest.len() as int) == cs.subrange(i + 1, cs.len() as int));
            assert(decreases_to!(*comp => comp.children));
            assert(decreases_to!(comp.children => comp.children@));
            assert(decreases_to!(comp.children@ => comp.children@[i as int]));
        }
        let c = match checked_rainbow_char_count(&comp.children[i], false) {
            Some(c) => c,
            None => {
                return None;
            },
        };
        count = match count.checked_add(c) {
            Some(sum) => sum,
            None => {
                return None;
            },
        };
        i += 1;
    }
    assert(cs.subrange(cs.len() as int, cs.len() as int).len() == 0);
    Some(count)
}

/// How many characters a rainbow on `comp` colors (see `spec_rainbow_char_count`).
pub fn rainbow_char_count(comp: &Component, include_root: bool) -> (r: usize)
    requires
        spec_rainbow_char_count(comp@, include_root) <= usize::MAX,
    ensures
        r == spec_rainbow_char_count(comp@, include_root),
{
    match checked_rainbow_char_count(comp, include_root) {
        Some(n) => n,
        None => vstd::pervasive::unreached(),
    }
}

} // verus!
