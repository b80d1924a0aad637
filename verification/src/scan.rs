//! Finding the first character of a class in a string.

use vstd::prelude::*;

verus! {

/// Index of the first character satisfying `pred`, or -1 if none does.
pub open spec fn find_first(s: Seq<char>, pred: spec_fn(char) -> bool) -> int
    decreases s.len(),
{
    if s.len() == 0 {
        -1
    } else if pred(s[0]) {
        0
    } else {
        let r = find_first(s.drop_first(), pred);
        if r == -1 {
            -1
        } else {
            r + 1
        }
    }
}

/// `find_first` returns -1 exactly when no character satisfies `pred`,
/// and otherwise the least index that does.
pub proof fn lemma_find_first(s: Seq<char>, pred: spec_fn(char) -> bool)
    ensures
        find_first(s, pred) == -1 ==> forall|i: int| 0 <= i < s.len() ==> !pred(#[trigger] s[i]),
        find_first(s, pred) != -1 ==> {
            let r = find_first(s, pred);
            &&& 0 <= r < s.len()
            &&& pred(s[r])
            &&& forall|i: int| 0 <= i < r ==> !pred(#[trigger] s[i])
        },
    decreases s.len(),
{
    if s.len() > 0 && !pred(s[0]) {
        lemma_find_first(s.drop_first(), pred);
        assert(forall|i: int| 1 <= i < s.len() ==> s.drop_first()[i - 1] == #[trigger] s[i]);
    }
}

/// A witness at index `i`, with nothing satisfying `pred` before it,
/// pins `find_first` to `i`.
pub proof fn lemma_find_first_is(s: Seq<char>, pred: spec_fn(char) -> bool, i: int)
    requires
        0 <= i < s.len(),
        pred(s[i]),
        forall|k: int| 0 <= k < i ==> !pred(#[trigger] s[k]),
    ensures
        find_first(s, pred) == i,
{
    lemma_find_first(s, pred);
}

/// No witness at all pins `find_first` to -1.
pub proof fn lemma_find_first_none(s: Seq<char>, pred: spec_fn(char) -> bool)
    requires
        forall|k: int| 0 <= k < s.len() ==> !pred(#[trigger] s[k]),
    ensures
        find_first(s, pred) == -1,
{
    lemma_find_first(s, pred);
}

} // verus!
