//! The first entry of a sequence that meets a condition.

use vstd::prelude::*;

verus! {

/// The first place of `s` whose entry meets `p`, or the length of `s` where
/// no entry does.
pub open spec fn first_where<A>(s: Seq<A>, p: spec_fn(A) -> bool) -> int
    decreases s.len(),
{
    if s.len() == 0 {
        0
    } else if p(s[0]) {
        0
    } else {
        1 + first_where(s.drop_first(), p)
    }
}

/// Whether some entry of `s` meets `p`.
pub open spec fn any_where<A>(s: Seq<A>, p: spec_fn(A) -> bool) -> bool {
    exists|i: int| 0 <= i < s.len() && p(s[i])
}

/// `first_where` is a place of `s` exactly when some entry meets `p`; the
/// entry there meets `p` and none before it does.
pub proof fn lemma_first_where<A>(s: Seq<A>, p: spec_fn(A) -> bool)
    ensures
        0 <= first_where(s, p) <= s.len(),
        first_where(s, p) < s.len() <==> any_where(s, p),
        first_where(s, p) < s.len() ==> p(s[first_where(s, p)]),
        forall|j: int| 0 <= j < first_where(s, p) ==> !p(s[j]),
    decreases s.len(),
{
    if s.len() > 0 && !p(s[0]) {
        let rest = s.drop_first();
        lemma_first_where(rest, p);
        let f = first_where(rest, p);
        if f < rest.len() {
            assert(s[f + 1] == rest[f]);
        }
        if any_where(s, p) {
            let i = choose|i: int| 0 <= i < s.len() && p(s[i]);
            assert(rest[i - 1] == s[i]);
        }
        assert forall|j: int| 0 <= j < first_where(s, p) implies !p(s[j]) by {
            if j > 0 {
                assert(rest[j - 1] == s[j]);
            }
        }
    }
}

/// A place whose entry meets `p`, with no such place before it, is the first.
pub proof fn lemma_first_where_is<A>(s: Seq<A>, p: spec_fn(A) -> bool, i: int)
    requires
        0 <= i < s.len(),
        p(s[i]),
        forall|j: int| 0 <= j < i ==> !p(s[j]),
    ensures
        first_where(s, p) == i,
{
    lemma_first_where(s, p);
}

/// Where no entry before `n` meets `p` and `n` is the length, none does.
pub proof fn lemma_none_where<A>(s: Seq<A>, p: spec_fn(A) -> bool)
    requires
        forall|j: int| 0 <= j < s.len() ==> !p(s[j]),
    ensures
        first_where(s, p) == s.len(),
        !any_where(s, p),
{
    lemma_first_where(s, p);
}

/// Two sequences of one length whose entries meet two conditions at the
/// same places have their first such entry at the same place.
pub proof fn lemma_first_where_same<A, B>(
    s: Seq<A>,
    p: spec_fn(A) -> bool,
    t: Seq<B>,
    q: spec_fn(B) -> bool,
)
    requires
        s.len() == t.len(),
        forall|i: int| 0 <= i < s.len() ==> p(s[i]) == q(t[i]),
    ensures
        first_where(s, p) == first_where(t, q),
        any_where(s, p) == any_where(t, q),
{
    lemma_first_where(s, p);
    lemma_first_where(t, q);
    let f = first_where(s, p);
    let g = first_where(t, q);
    if f < s.len() {
        assert forall|j: int| 0 <= j < f implies !q(t[j]) by {
            assert(!p(s[j]));
        }
        lemma_first_where_is(t, q, f);
    }
    if g < t.len() {
        assert(p(s[g]));
    }
}

} // verus!
