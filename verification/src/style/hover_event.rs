//! What hovering over a piece of text shows.
use std::borrow::Cow;

use vstd::prelude::*;
use vstd::string::StringExecFns;

use crate::parser::descriptors_view;
use crate::style::TryFromDescriptors;
use crate::style::cow_to_string;
use crate::style::item::{item_snbt, Components, Enchantments, Item};
use crate::style::number::{parse_i32, spec_parse_i32};
use crate::style::snbt::{entries_view, snbt_int_compound, snbt_int_map};
use crate::style::special::{cows_to_strings, SpecialError, SpecialErrorView};
use crate::text::str_eq;

verus! {

/// A hover action and what it shows.
#[derive(Debug, Clone, PartialEq)]
#[allow(non_camel_case_types)]
pub enum HoverEvent {
    ShowEntity { entity_type: String, id: String, name: Option<String> },
    ShowItem(String),
    ShowText(String),
    __Empty,
}

/// The mathematical value of a hover action.
pub enum HoverEventView {
    ShowEntity { entity_type: Seq<char>, id: Seq<char>, name: Option<Seq<char>> },
    ShowItem(Seq<char>),
    ShowText(Seq<char>),
    Empty,
}

impl View for HoverEvent {
    type V = HoverEventView;

    open spec fn view(&self) -> HoverEventView {
        match self {
            HoverEvent::ShowEntity { entity_type, id, name } => HoverEventView::ShowEntity {
                entity_type: entity_type@,
                id: id@,
                name: match name {
                    Some(n) => Some(n@),
                    None => None,
                },
            },
            HoverEvent::ShowItem(s) => HoverEventView::ShowItem(s@),
            HoverEvent::ShowText(s) => HoverEventView::ShowText(s@),
            HoverEvent::__Empty => HoverEventView::Empty,
        }
    }
}

impl Default for HoverEvent {
    fn default() -> (r: Self)
        ensures
            r == HoverEvent::__Empty,
    {
        HoverEvent::__Empty
    }
}

/// An item id in the `minecraft` namespace.
pub open spec fn namespaced(id: Seq<char>) -> Seq<char> {
    "minecraft:"@ + id
}

/// Key and value pairs with each key put in the `minecraft` namespace.
pub open spec fn namespaced_entries(es: Seq<(Seq<char>, i32)>) -> Seq<(Seq<char>, i32)> {
    es.map_values(|e: (Seq<char>, i32)| (namespaced(e.0), e.1))
}

/// The item shown with id `id`, count text `count` and the enchantment levels `levels`
/// read from its modifier: the item in SNBT, ids and enchantments in the `minecraft`
/// namespace, or the error that reading the count gives.
pub open spec fn spec_show_item_with_levels(
    id: Seq<char>,
    count: Seq<char>,
    levels: Seq<(Seq<char>, i32)>,
) -> Result<HoverEventView, SpecialErrorView> {
    match spec_parse_i32(count) {
        Err(k) => Err(SpecialErrorView::ParseInt(k)),
        Ok(c) => Ok(HoverEventView::ShowItem(item_snbt(namespaced(id), c as i32, namespaced_entries(levels)))),
    }
}

/// The item shown from arguments `args`: an id, then a count, then a modifier and its
/// value; the item is written in SNBT once it has a count.
pub open spec fn spec_show_item(args: Seq<Seq<char>>) -> Result<HoverEventView, SpecialErrorView> {
    if args.len() == 0 {
        Err(SpecialErrorView::MissingArgument("item"@))
    } else if args.len() == 1 {
        Ok(HoverEventView::ShowItem(args[0]))
    } else if args.len() == 2 {
        match spec_parse_i32(args[1]) {
            Err(k) => Err(SpecialErrorView::ParseInt(k)),
            Ok(c) => Ok(
                HoverEventView::ShowItem(item_snbt(namespaced(args[0]), c as i32, Seq::empty())),
            ),
        }
    } else if args.len() == 4 {
        if args[2] != "enchantments"@ {
            Err(SpecialErrorView::InvalidModifier(args[2]))
        } else {
            match snbt_int_compound(args[3]) {
                None => Err(SpecialErrorView::Snbt),
                Some(es) => spec_show_item_with_levels(args[0], args[1], es),
            }
        }
    } else {
        Err(SpecialErrorView::TooManyArguments(args))
    }
}

/// The hover action descriptors `ds` describe: the action's snake-case name, then its
/// arguments.
pub open spec fn spec_hover_from_descriptors(ds: Seq<Seq<char>>) -> Result<HoverEventView, SpecialErrorView> {
    if ds.len() == 0 {
        Err(SpecialErrorView::MissingSpecialType)
    } else {
        let event = ds[0];
        let args = ds.drop_first();
        if event == "show_text"@ {
            if args.len() == 0 {
                Err(SpecialErrorView::MissingArgument("text"@))
            } else {
                Ok(HoverEventView::ShowText(args[0]))
            }
        } else if event == "show_item"@ {
            spec_show_item(args)
        } else if event == "show_entity"@ {
            if args.len() == 0 {
                Err(SpecialErrorView::MissingArgument("entity_type"@))
            } else if args.len() == 1 {
                Err(SpecialErrorView::MissingArgument("id"@))
            } else {
                Ok(
                    HoverEventView::ShowEntity {
                        entity_type: args[0],
                        id: args[1],
                        name: if args.len() > 2 {
                            Some(args[2])
                        } else {
                            None
                        },
                    },
                )
            }
        } else if event == "empty"@ {
            Err(SpecialErrorView::EmptyEventReached)
        } else {
            Err(SpecialErrorView::NotFound)
        }
    }
}

/// An id put in the `minecraft` namespace.
fn namespaced_id(id: &str) -> (r: String)
    ensures
        r@ == namespaced(id@),
{
    let mut r = String::from_str("minecraft:");
    r.append(id);
    r
}

/// The hover action that shows an item with id `id`, count text `count` and the
/// enchantment levels `levels` read from its modifier, written in SNBT.
pub fn show_item_from_levels(id: &str, count: &str, levels: Vec<(String, i32)>) -> (r: Result<
    HoverEvent,
    SpecialError,
>)
    ensures
        match (r, spec_show_item_with_levels(id@, count@, entries_view(levels@))) {
            (Ok(a), Ok(b)) => a@ == b,
            (Err(e), Err(f)) => e@ == f,
            _ => false,
        },
{
    let ghost es = entries_view(levels@);
    let mut named: Vec<(String, i32)> = Vec::new();
    let mut i: usize = 0;
    while i < levels.len()
        invariant
            i <= levels@.len(),
            es == entries_view(levels@),
            entries_view(named@) == namespaced_entries(es.take(i as int)),
        decreases levels@.len() - i,
    {
        let key = namespaced_id(levels[i].0.as_str());
        let entry = (key, levels[i].1);
        assert(entries_view(named@.push(entry)) == entries_view(named@).push((key@, levels@[i as int].1)));
        assert(namespaced_entries(es.take(i + 1)) == namespaced_entries(es.take(i as int)).push(
            (namespaced(es[i as int].0), es[i as int].1),
        ));
        named.push(entry);
        i += 1;
    }
    assert(es.take(levels@.len() as int) == es);
    let count = match parse_i32(count) {
        Ok(c) => c,
        Err(k) => {
            return Err(SpecialError::ParseInt(k));
        },
    };
    let item = Item::new_with_components(
        namespaced_id(id),
        count,
        Components { enchantments: Enchantments { levels: named } },
    );
    match item.to_snbt() {
        Ok(s) => Ok(HoverEvent::ShowItem(s)),
        Err(e) => Err(SpecialError::Snbt(e)),
    }
}

impl TryFromDescriptors for HoverEvent {
    open spec fn accepts_descriptors(ds: Seq<Seq<char>>) -> bool {
        true
    }

    /// The hover action the descriptors of a `hover` element describe.
    fn try_from_descriptors(descriptors: Vec<Cow<'_, str>>) -> (r: Result<Self, SpecialError>)
        ensures
            match (r, spec_hover_from_descriptors(descriptors_view(descriptors@))) {
                (Ok(a), Ok(b)) => a@ == b,
                (Err(e), Err(f)) => e@ == f,
                _ => false,
            },
    {
        let ghost ds = descriptors_view(descriptors@);
        let n = descriptors.len();
        if n == 0 {
            return Err(SpecialError::MissingSpecialType);
        }
        let ghost args = ds.drop_first();
        assert(args.len() == n - 1);
        assert(forall|i: int| 0 <= i < n - 1 ==> args[i] == #[trigger] descriptors@[i + 1]@);
        let event = cow_to_string(&descriptors[0]);
        let event = event.as_str();
        if str_eq(event, "show_text") {
            if n < 2 {
                return Err(SpecialError::MissingArgument("text"));
            }
            return Ok(HoverEvent::ShowText(cow_to_string(&descriptors[1])));
        } else if str_eq(event, "show_item") {
            if n == 1 {
                return Err(SpecialError::MissingArgument("item"));
            } else if n == 2 {
                return Ok(HoverEvent::ShowItem(cow_to_string(&descriptors[1])));
            } else if n == 3 {
                let id = cow_to_string(&descriptors[1]);
                let count_text = cow_to_string(&descriptors[2]);
                let count = match parse_i32(count_text.as_str()) {
                    Ok(c) => c,
                    Err(k) => {
                        return Err(SpecialError::ParseInt(k));
                    },
                };
                let item = Item::new(namespaced_id(id.as_str()), count);
                assert(entries_view(item.components.enchantments.levels@) == Seq::<(Seq<char>, i32)>::empty());
                return match item.to_snbt() {
                    Ok(s) => Ok(HoverEvent::ShowItem(s)),
                    Err(e) => Err(SpecialError::Snbt(e)),
                };
            } else if n == 5 {
                let modifier = cow_to_string(&descriptors[3]);
                if !str_eq(modifier.as_str(), "enchantments") {
                    return Err(SpecialError::InvalidModifier(modifier));
                }
                let value = cow_to_string(&descriptors[4]);
                let levels = match snbt_int_map(value.as_str()) {
                    Ok(l) => l,
                    Err(e) => {
                        return Err(SpecialError::Snbt(e));
                    },
                };
                let id = cow_to_string(&descriptors[1]);
                let count_text = cow_to_string(&descriptors[2]);
                return show_item_from_levels(id.as_str(), count_text.as_str(), levels);
            } else {
                let all = cows_to_strings(&descriptors, 1);
                return Err(SpecialError::TooManyArguments(all));
            }
        } else if str_eq(event, "show_entity") {
            if n < 2 {
                return Err(SpecialError::MissingArgument("entity_type"));
            }
            if n < 3 {
                return Err(SpecialError::MissingArgument("id"));
            }
            let name = if n > 3 {
                Some(cow_to_string(&descriptors[3]))
            } else {
                None
            };
            return Ok(
                HoverEvent::ShowEntity {
                    entity_type: cow_to_string(&descriptors[1]),
                    id: cow_to_string(&descriptors[2]),
                    name,
                },
            );
        } else if str_eq(event, "empty") {
            return Err(SpecialError::EmptyEventReached);
        } else {
            return Err(SpecialError::NotFound);
        }
    }
}

} // verus!
