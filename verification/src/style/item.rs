//! Items shown when hovering over text, and their SNBT form.
use vstd::prelude::*;
use vstd::string::StringExecFns;

use crate::style::snbt::{entries_view, snbt_of_str, snbt_quote, SnbtError};

verus! {

/// The enchantment levels of an item, by enchantment name.
pub struct Enchantments {
    pub levels: Vec<(String, i32)>,
}

/// The data components of an item.
pub struct Components {
    pub enchantments: Enchantments,
}

/// An item stack: its id, its count and its components.
pub struct Item {
    pub id: String,
    pub count: i32,
    pub components: Components,
}

impl Default for Enchantments {
    fn default() -> (r: Self)
        ensures
            r.levels@.len() == 0,
    {
        Enchantments { levels: Vec::new() }
    }
}

impl Default for Components {
    fn default() -> (r: Self)
        ensures
            r.enchantments.levels@.len() == 0,
    {
        Components { enchantments: Enchantments::default() }
    }
}

/// The digits of a natural number in base 10.
pub open spec fn digits_text(n: nat) -> Seq<char>
    decreases n,
{
    if n < 10 {
        seq![(n + 48) as char]
    } else {
        digits_text(n / 10) + seq![((n % 10) + 48) as char]
    }
}

/// An integer in base 10, with a `-` in front when negative.
pub open spec fn decimal_text(v: int) -> Seq<char> {
    if v < 0 {
        seq!['-'] + digits_text((-v) as nat)
    } else {
        digits_text(v as nat)
    }
}

/// One key and value pair of an SNBT compound of integers.
pub open spec fn entry_text(e: (Seq<char>, i32)) -> Seq<char> {
    snbt_quote(e.0) + seq![':'] + decimal_text(e.1 as int)
}

/// The pairs of an SNBT compound, comma separated.
pub open spec fn entries_text(es: Seq<(Seq<char>, i32)>) -> Seq<char>
    decreases es.len(),
{
    if es.len() == 0 {
        Seq::empty()
    } else if es.len() == 1 {
        entry_text(es[0])
    } else {
        entries_text(es.drop_last()) + seq![','] + entry_text(es.last())
    }
}

/// An item in SNBT, its fields in declaration order and the enchantment levels in the
/// order given.
pub open spec fn item_snbt(id: Seq<char>, count: i32, levels: Seq<(Seq<char>, i32)>) -> Seq<char> {
    "{\"id\":"@ + snbt_quote(id) + ",\"count\":"@ + decimal_text(count as int)
        + ",\"components\":{\"minecraft:enchantments\":{\"levels\":{"@ + entries_text(levels)
        + "}}}}"@
}

/// A string holding one decimal digit.
fn digit_str(d: u32) -> (r: &'static str)
    requires
        d < 10,
    ensures
        r@ == seq![(d + 48) as char],
{
    let r = if d == 0 {
        proof { reveal_strlit("0"); }
        "0"
    } else if d == 1 {
        proof { reveal_strlit("1"); }
        "1"
    } else if d == 2 {
        proof { reveal_strlit("2"); }
        "2"
    } else if d == 3 {
        proof { reveal_strlit("3"); }
        "3"
    } else if d == 4 {
        proof { reveal_strlit("4"); }
        "4"
    } else if d == 5 {
        proof { reveal_strlit("5"); }
        "5"
    } else if d == 6 {
        proof { reveal_strlit("6"); }
        "6"
    } else if d == 7 {
        proof { reveal_strlit("7"); }
        "7"
    } else if d == 8 {
        proof { reveal_strlit("8"); }
        "8"
    } else {
        proof { reveal_strlit("9"); }
        "9"
    };
    assert(r@ =~= seq![(d + 48) as char]);
    r
}

/// Appends the base-10 digits of `n`.
fn append_digits(out: &mut String, n: u32)
    ensures
        final(out)@ == old(out)@ + digits_text(n as nat),
    decreases n,
{
    if n >= 10 {
        append_digits(out, n / 10);
    }
    let d = digit_str(n % 10);
    out.append(d);
    proof {
        if n >= 10 {
            assert(old(out)@ + digits_text((n / 10) as nat) + d@ == old(out)@ + digits_text(n as nat));
        } else {
            assert(n % 10 == n);
        }
    }
}

/// Appends an integer in base 10.
fn append_decimal(out: &mut String, v: i32)
    ensures
        final(out)@ == old(out)@ + decimal_text(v as int),
{
    if v < 0 {
        proof {
            reveal_strlit("-");
        }
        out.append("-");
        let m = (0i64 - v as i64) as u32;
        append_digits(out, m);
        assert(old(out)@ + "-"@ + digits_text(m as nat) == old(out)@ + decimal_text(v as int));
    } else {
        append_digits(out, v as u32);
    }
}

impl Item {
    /// An item without components.
    pub fn new(id: String, count: i32) -> (r: Self)
        ensures
            r.id@ == id@,
            r.count == count,
            r.components.enchantments.levels@.len() == 0,
    {
        Item { id, count, components: Components::default() }
    }

    /// An item with the given components.
    pub fn new_with_components(id: String, count: i32, components: Components) -> (r: Self)
        ensures
            r.id@ == id@,
            r.count == count,
            r.components == components,
    {
        Item { id, count, components }
    }

    /// This item in SNBT, as `fastsnbt` writes it.
    pub fn to_snbt(&self) -> (r: Result<String, SnbtError>)
        ensures
            r matches Ok(s) && s@ == item_snbt(
                self.id@,
                self.count,
                entries_view(self.components.enchantments.levels@),
            ),
    {
        let ghost es = entries_view(self.components.enchantments.levels@);
        let mut out = String::from_str("{\"id\":");
        let id = match snbt_of_str(self.id.as_str()) {
            Ok(s) => s,
            Err(e) => {
                return Err(e);
            },
        };
        out.append(id.as_str());
        out.append(",\"count\":");
        append_decimal(&mut out, self.count);
        out.append(",\"components\":{\"minecraft:enchantments\":{\"levels\":{");
        let levels = &self.components.enchantments.levels;
        let ghost prefix = out@;
        let mut i: usize = 0;
        while i < levels.len()
            invariant
                i <= levels@.len(),
                es == entries_view(levels@),
                out@ == prefix + entries_text(es.take(i as int)),
            decreases levels@.len() - i,
        {
            assert(es.take(i + 1).drop_last() == es.take(i as int));
            assert(es.take(i + 1).last() == es[i as int]);
            let ghost before = out@;
            if i > 0 {
                proof {
                    reveal_strlit(",");
                }
                out.append(",");
            }
            let key = match snbt_of_str(levels[i].0.as_str()) {
                Ok(s) => s,
                Err(e) => {
                    return Err(e);
                },
            };
            out.append(key.as_str());
            proof {
                reveal_strlit(":");
            }
            out.append(":");
            append_decimal(&mut out, levels[i].1);
            proof {
                if i == 0 {
                    assert(es.take(1) == seq![es[0]]);
                    assert(entries_text(es.take(0)) == Seq::<char>::empty());
                    assert(before == prefix + Seq::<char>::empty());
                    assert(out@ == prefix + entry_text(es[0]));
                } else {
                    assert(out@ == before + seq![','] + entry_text(es[i as int]));
                }
            }
            i += 1;
        }
        assert(es.take(levels@.len() as int) == es);
        out.append("}}}}");
        Ok(out)
    }
}

} // verus!
