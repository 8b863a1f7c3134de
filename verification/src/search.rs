//! The first element of a sequence that meets a condition.

use vstd::prelude::*;

verus! {

/// The position at or after `from` of the first element of `s` for which `p` holds, or the
/// length of `s` where there is none.
pub open spec fn first_from<A>(s: Seq<A>, p: spec_fn(A) -> bool, from: int) -> int
    decreases s.len() - from,
{
    if from < 0 || from >= s.len() {
        s.len() as int
    } else if p(s[from]) {
        from
    } else {
        first_from(s, p, from + 1)
    }
}

/// The first element of `s` for which `p` holds.
pub open spec fn first_where<A>(s: Seq<A>, p: spec_fn(A) -> bool) -> Option<A> {
    let i = first_from(s, p, 0);
    if i < s.len() {
        Some(s[i])
    } else {
        None
    }
}

/// One step of a search: where `p` fails at `from`, the search goes on behind it; where it
/// holds, the search ends there.
pub proof fn lemma_first_from_step<A>(s: Seq<A>, p: spec_fn(A) -> bool, from: int)
    requires
        0 <= from < s.len(),
    ensures
        p(s[from]) ==> first_from(s, p, from) == from,
        !p(s[from]) ==> first_from(s, p, from) == first_from(s, p, from + 1),
        first_from(s, p, s.len() as int) == s.len(),
{
}

/// Where a search ends: at the first element from `from` on for which `p` holds, with none
/// before it, or at the length of `s`.
pub proof fn lemma_first_from<A>(s: Seq<A>, p: spec_fn(A) -> bool, from: int)
    requires
        0 <= from <= s.len(),
    ensures
        from <= first_from(s, p, from) <= s.len(),
        first_from(s, p, from) < s.len() ==> p(s[first_from(s, p, from)]),
        forall|k: int| from <= k < first_from(s, p, from) ==> !p(#[trigger] s[k]),
    decreases s.len() - from,
{
    if from < s.len() && !p(s[from]) {
        lemma_first_from(s, p, from + 1);
    }
}

/// What a search finds satisfies `p`, and it finds nothing exactly where no element does.
pub proof fn lemma_first_where<A>(s: Seq<A>, p: spec_fn(A) -> bool)
    ensures
        first_where(s, p) matches Some(x) ==> p(x),
        first_where(s, p) is None <==> forall|k: int| 0 <= k < s.len() ==> !p(#[trigger] s[k]),
{
    lemma_first_from(s, p, 0);
    if first_where(s, p) is Some {
        let i = first_from(s, p, 0);
        assert(p(s[i]));
    }
}

} // verus!
