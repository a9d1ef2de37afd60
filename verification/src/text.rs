use vstd::prelude::*;
use vstd::string::StrSliceExecFns;

verus! {

/// Whether two strings hold the same characters.
pub fn str_eq(a: &str, b: &str) -> (r: bool)
    ensures
        r == (a@ == b@),
{
    let n = a.unicode_len();
    let m = b.unicode_len();
    if n != m {
        return false;
    }
    let mut i: usize = 0;
    while i < n
        invariant
            n == a@.len(),
            m == b@.len(),
            n == m,
            i <= n,
            forall|j: int| 0 <= j < i ==> a@[j] == b@[j],
        decreases n - i,
    {
        if a.get_char(i) != b.get_char(i) {
            return false;
        }
        i += 1;
    }
    assert(a@ =~= b@);
    true
}

/// The concatenation of a sequence of strings, first to last.
pub open spec fn concat_all(parts: Seq<Seq<char>>) -> Seq<char>
    decreases parts.len(),
{
    if parts.len() == 0 {
        Seq::empty()
    } else {
        concat_all(parts.drop_last()) + parts.last()
    }
}

/// Concatenating a list of strings adds up the parts one after another.
pub proof fn lemma_concat_all_push(parts: Seq<Seq<char>>, p: Seq<char>)
    ensures
        concat_all(parts.push(p)) == concat_all(parts) + p,
{
    assert(parts.push(p).drop_last() == parts);
}

/// Concatenating a single string gives it back.
pub proof fn lemma_concat_all_single(p: Seq<char>)
    ensures
        concat_all(seq![p]) == p,
{
    let e = Seq::<Seq<char>>::empty();
    assert(seq![p].drop_last() == e);
    assert(concat_all(e) == Seq::<char>::empty());
    assert(seq![p].last() == p);
    assert(Seq::<char>::empty() + p == p);
}

} // verus!
