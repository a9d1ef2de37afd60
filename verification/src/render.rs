//! Which rainbow colors which characters when a component tree is rendered: a rainbow
//! sweeps over its own text and that of the components below it, in order, except where
//! a component has a color or a rainbow of its own.
use vstd::prelude::*;
use vstd::string::StrSliceExecFns;

use crate::runtime::{
    checked_rainbow_char_count, component_view, components_view, lemma_components_view_index,
    lemma_components_view_len, spec_rainbow_char_count, spec_rainbow_char_count_all, Component,
    ComponentView,
};
use crate::style::rainbow::Rainbow;

verus! {

/// Where a rainbow stands while a tree is rendered: the rainbow, how many characters it
/// colors, and the index of the next character it colors.
#[derive(Debug, Clone, Copy, PartialEq, Eq)]
pub struct RainbowCursor {
    pub rainbow: Rainbow,
    pub total: usize,
    pub index: usize,
}

/// The mathematical value of a rainbow cursor.
pub struct CursorView {
    pub rainbow: Rainbow,
    pub total: nat,
    pub index: nat,
}

/// The value of an optional cursor.
pub open spec fn cursor_view(c: Option<RainbowCursor>) -> Option<CursorView> {
    match c {
        Some(k) => Some(CursorView { rainbow: k.rainbow, total: k.total as nat, index: k.index as nat }),
        None => None,
    }
}

/// The values of a list of optional cursors.
pub open spec fn cursors_view(v: Seq<Option<RainbowCursor>>) -> Seq<Option<CursorView>> {
    v.map_values(|c: Option<RainbowCursor>| cursor_view(c))
}

/// A cursor moved on by `n` characters.
pub open spec fn advance(cur: Option<CursorView>, n: nat) -> Option<CursorView> {
    match cur {
        Some(k) => Some(CursorView { index: k.index + n, ..k }),
        None => None,
    }
}

/// The cursor of the rainbow a component starts, at its first character.
pub open spec fn own_cursor(c: ComponentView) -> Option<CursorView> {
    match c.rainbow {
        Some(r) => Some(CursorView { rainbow: r, total: spec_rainbow_char_count(c, true), index: 0 }),
        None => None,
    }
}

/// The cursor that colors a component's text: its own rainbow's, none where it has a
/// color, or else the one it inherits.
pub open spec fn active_cursor(c: ComponentView, inherited: Option<CursorView>) -> Option<CursorView> {
    if c.rainbow is Some {
        own_cursor(c)
    } else if c.color is Some {
        None
    } else {
        inherited
    }
}

/// Rendering a component with the cursor it inherits: the cursor at the start of each
/// component's text, the component first and then those below it in order, and the
/// inherited cursor after the component.
pub open spec fn spec_paint(c: ComponentView, inherited: Option<CursorView>) -> (Seq<Option<CursorView>>, Option<CursorView>)
    decreases c,
{
    let active = active_cursor(c, inherited);
    let below = spec_paint_all(c.children, advance(active, c.text.len()));
    (
        seq![active] + below.0,
        if c.rainbow is Some || c.color is Some {
            inherited
        } else {
            below.1
        },
    )
}

/// Rendering a sequence of components in order, the cursor passed from one to the next.
pub open spec fn spec_paint_all(cs: Seq<ComponentView>, cur: Option<CursorView>) -> (Seq<Option<CursorView>>, Option<CursorView>)
    decreases cs,
{
    if cs.len() == 0 {
        (Seq::empty(), cur)
    } else {
        let first = spec_paint(cs[0], cur);
        let rest = spec_paint_all(cs.subrange(1, cs.len() as int), first.1);
        (first.0 + rest.0, rest.1)
    }
}

/// Whether the character count of every rainbow in a tree fits in a `usize`.
pub open spec fn counts_fit(c: ComponentView) -> bool
    decreases c,
{
    &&& (c.rainbow is Some ==> spec_rainbow_char_count(c, true) <= usize::MAX)
    &&& counts_fit_all(c.children)
}

/// Whether the character count of every rainbow in a sequence of trees fits in a `usize`.
pub open spec fn counts_fit_all(cs: Seq<ComponentView>) -> bool
    decreases cs,
{
    cs.len() == 0 || (counts_fit(cs[0]) && counts_fit_all(cs.subrange(1, cs.len() as int)))
}

/// Rendering a component moves the cursor it inherits on by exactly the characters a
/// rainbow around it counts for it.
pub proof fn lemma_paint_advances(c: ComponentView, inherited: Option<CursorView>)
    ensures
        spec_paint(c, inherited).1 == advance(inherited, spec_rainbow_char_count(c, false)),
    decreases c,
{
    if c.rainbow is Some || c.color is Some {
        assert(advance(inherited, 0) == inherited);
    } else {
        assert(decreases_to!(c => c.children));
        lemma_paint_all_advances(c.children, advance(inherited, c.text.len()));
    }
}

/// Rendering a sequence of components moves the cursor on by their rainbow counts.
pub proof fn lemma_paint_all_advances(cs: Seq<ComponentView>, cur: Option<CursorView>)
    ensures
        spec_paint_all(cs, cur).1 == advance(cur, spec_rainbow_char_count_all(cs)),
    decreases cs,
{
    if cs.len() == 0 {
        assert(advance(cur, 0) == cur);
    } else {
        assert(decreases_to!(cs => cs[0]));
        lemma_paint_advances(cs[0], cur);
        lemma_paint_all_advances(
            cs.subrange(1, cs.len() as int),
            advance(cur, spec_rainbow_char_count(cs[0], false)),
        );
    }
}

/// A rainbow colors exactly the characters it counts: its cursor starts at 0 and, after
/// its own text and everything below it, stands at its character count.
pub proof fn law_rainbow_colors_what_it_counts(c: ComponentView)
    requires
        c.rainbow is Some,
    ensures
        own_cursor(c) matches Some(k) && spec_paint_all(c.children, advance(own_cursor(c), c.text.len())).1
            == Some(CursorView { index: k.total, ..k }),
{
    lemma_paint_all_advances(c.children, advance(own_cursor(c), c.text.len()));
}

/// A component with a color or a rainbow of its own is not colored by the rainbow around
/// it, and leaves that rainbow's cursor where it was.
pub proof fn law_color_shields_from_rainbow(c: ComponentView, inherited: Option<CursorView>)
    requires
        c.color is Some || c.rainbow is Some,
    ensures
        spec_paint(c, inherited).0[0] == (if c.rainbow is Some {
            own_cursor(c)
        } else {
            None::<CursorView>
        }),
        spec_paint(c, inherited).1 == inherited,
{
}

/// Renders `comp` with the cursor it inherits: appends to `plan` the cursor at the start
/// of each component's text, in the order of `spec_paint`, and gives the inherited cursor
/// after it; `None` where the character count of a rainbow does not fit in a `usize`.
fn paint_node(comp: &Component, inherited: Option<RainbowCursor>, plan: &mut Vec<Option<RainbowCursor>>) -> (r:
    Option<Option<RainbowCursor>>)
    requires
        inherited matches Some(k) ==> k.index + spec_rainbow_char_count(comp@, false) <= k.total,
    ensures
        r is Some <==> counts_fit(comp@),
        r matches Some(after) ==> cursors_view(final(plan)@) == cursors_view(old(plan)@) + spec_paint(
            comp@,
            cursor_view(inherited),
        ).0 && cursor_view(after) == spec_paint(comp@, cursor_view(inherited)).1,
    decreases comp,
{
    let ghost c = comp@;
    let ghost cs = c.children;
    let ghost inh = cursor_view(inherited);
    proof {
        lemma_components_view_len(comp.children@);
        assert(cs == components_view(comp.children@));
    }
    let own = match comp.rainbow {
        Some(r) => match checked_rainbow_char_count(comp, true) {
            Some(total) => Some(RainbowCursor { rainbow: r, total, index: 0 }),
            None => {
                return None;
            },
        },
        None => None,
    };
    let active = if own.is_some() {
        own
    } else if comp.color.is_some() {
        None
    } else {
        inherited
    };
    assert(cursor_view(active) == active_cursor(c, inh));
    assert(active matches Some(k) ==> k.index + c.text.len() + spec_rainbow_char_count_all(cs) <= k.total);
    let text_len = comp.text.as_str().unicode_len();
    let mut cur = match active {
        Some(k) => Some(RainbowCursor { rainbow: k.rainbow, total: k.total, index: k.index + text_len }),
        None => None,
    };
    let ghost start = advance(cursor_view(active), c.text.len());
    assert(cursor_view(cur) == start);
    let ghost whole = spec_paint_all(cs, start);
    let ghost before = cursors_view(plan@);
    plan.push(active);
    assert(cursors_view(plan@) == before.push(cursor_view(active)));
    assert(cs.subrange(0, cs.len() as int) == cs);
    let mut i: usize = 0;
    while i < comp.children.len()
        invariant
            i <= comp.children@.len(),
            cs == components_view(comp.children@),
            cs.len() == comp.children@.len(),
            c == comp@,
            whole == spec_paint_all(cs, start),
            cur matches Some(k) ==> k.index + spec_rainbow_char_count_all(cs.subrange(i as int, cs.len() as int))
                <= k.total,
            before.push(cursor_view(active)) + whole.0 == cursors_view(plan@) + spec_paint_all(
                cs.subrange(i as int, cs.len() as int),
                cursor_view(cur),
            ).0,
            whole.1 == spec_paint_all(cs.subrange(i as int, cs.len() as int), cursor_view(cur)).1,
            counts_fit_all(cs) == counts_fit_all(cs.subrange(i as int, cs.len() as int)),
        decreases comp.children@.len() - i,
    {
        let ghost rest = cs.subrange(i as int, cs.len() as int);
        let ghost cur_v = cursor_view(cur);
        let ghost plan_before = cursors_view(plan@);
        proof {
            lemma_components_view_index(comp.children@, i as int);
            assert(rest[0] == component_view(comp.children@[i as int]));
            assert(rest.subrange(1, rest.len() as int) == cs.subrange(i + 1, cs.len() as int));
            assert(decreases_to!(*comp => comp.children));
            assert(decreases_to!(comp.children => comp.children@));
            assert(decreases_to!(comp.children@ => comp.children@[i as int]));
        }
        let after = match paint_node(&comp.children[i], cur, plan) {
            Some(a) => a,
            None => {
                return None;
            },
        };
        proof {
            lemma_paint_advances(rest[0], cur_v);
            let first = spec_paint(rest[0], cur_v);
            let tail = spec_paint_all(rest.subrange(1, rest.len() as int), first.1);
            assert(plan_before + (first.0 + tail.0) == (plan_before + first.0) + tail.0);
        }
        cur = after;
        i += 1;
    }
    proof {
        assert(cs.subrange(cs.len() as int, cs.len() as int) == Seq::<ComponentView>::empty());
        assert(cursors_view(plan@) + Seq::<Option<CursorView>>::empty() == cursors_view(plan@));
        assert(before.push(cursor_view(active)) + whole.0 == before + (seq![cursor_view(active)] + whole.0));
    }
    if own.is_some() || comp.color.is_some() {
        Some(inherited)
    } else {
        Some(cur)
    }
}

/// The cursor at the start of the text of each component of `comp`, in pre-order, as
/// rendering colors them; `None` where the character count of a rainbow in it does not fit
/// in a `usize`.
pub fn rainbow_plan(comp: &Component) -> (r: Option<Vec<Option<RainbowCursor>>>)
    ensures
        r is Some <==> counts_fit(comp@),
        r matches Some(plan) ==> cursors_view(plan@) == spec_paint(comp@, None).0,
{
    let mut plan: Vec<Option<RainbowCursor>> = Vec::new();
    assert(cursors_view(plan@) == Seq::<Option<CursorView>>::empty());
    match paint_node(comp, None, &mut plan) {
        Some(_) => {
            assert(Seq::<Option<CursorView>>::empty() + spec_paint(comp@, None).0 == spec_paint(comp@, None).0);
            Some(plan)
        },
        None => None,
    }
}

} // verus!
