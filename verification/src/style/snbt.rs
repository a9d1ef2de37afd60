//! The SNBT text format, through the `fastsnbt` crate.
use std::collections::BTreeMap;

use vstd::prelude::*;

verus! {

#[verifier::external_type_specification]
#[verifier::external_body]
pub struct ExSnbtError(fastsnbt::error::Error);

/// The error type of the `fastsnbt` crate.
pub type SnbtError = fastsnbt::error::Error;

/// A string escaped for SNBT: `"` and `\` get a backslash in front.
pub open spec fn snbt_escape(s: Seq<char>) -> Seq<char>
    decreases s.len(),
{
    if s.len() == 0 {
        Seq::empty()
    } else {
        let c = s[0];
        let head = if c == '"' {
            seq!['\\', '"']
        } else if c == '\\' {
            seq!['\\', '\\']
        } else {
            seq![c]
        };
        head + snbt_escape(s.drop_first())
    }
}

/// A string as an SNBT string: escaped, in double quotes.
pub open spec fn snbt_quote(s: Seq<char>) -> Seq<char> {
    seq!['"'] + snbt_escape(s) + seq!['"']
}

/// A list of key and value pairs, read by their characters.
pub open spec fn entries_view(v: Seq<(String, i32)>) -> Seq<(Seq<char>, i32)> {
    v.map_values(|e: (String, i32)| (e.0@, e.1))
}

/// What `fastsnbt::from_str::<BTreeMap<String, i32>>` reads from a text: the pairs of
/// the compound of integers it holds, in key order, or `None` where it fails.
pub uninterp spec fn snbt_int_compound(s: Seq<char>) -> Option<Seq<(Seq<char>, i32)>>;

/// Calls `fastsnbt::to_string` on a string slice. Its serializer writes the string in
/// double quotes, with a backslash before each `"` and `\`, into a byte vector, and that
/// write cannot fail: the contract states that the call succeeds with that text.
#[verifier::external_body]
pub(crate) fn snbt_of_str(s: &str) -> (r: Result<String, SnbtError>)
    ensures
        r is Ok,
        r matches Ok(out) ==> out@ == snbt_quote(s@),
{
    fastsnbt::to_string(s)
}

/// Calls `fastsnbt::from_str` to read a compound of integers into a `BTreeMap`, and lists
/// its pairs in the map's (key) order. The contract states that the list is the one named
/// by `snbt_int_compound`, and that the call fails exactly where that name is `None`.
#[verifier::external_body]
pub(crate) fn snbt_int_map(s: &str) -> (r: Result<Vec<(String, i32)>, SnbtError>)
    ensures
        r matches Ok(v) ==> snbt_int_compound(s@) == Some(entries_view(v@)),
        r is Err ==> snbt_int_compound(s@) is None,
{
    match fastsnbt::from_str::<BTreeMap<String, i32>>(s) {
        Ok(m) => Ok(m.into_iter().collect()),
        Err(e) => Err(e),
    }
}

} // verus!
