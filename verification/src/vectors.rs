//! Moving scalars between vectors: copies, slices and concatenations.

use vstd::prelude::*;

verus! {

/// The parts laid end to end.
pub open spec fn concat<T>(parts: Seq<Seq<T>>) -> Seq<T>
    decreases parts.len(),
{
    if parts.len() == 0 {
        Seq::empty()
    } else {
        concat(parts.drop_last()) + parts.last()
    }
}

/// The sum of the lengths of the parts.
pub open spec fn total_len<T>(parts: Seq<Seq<T>>) -> nat
    decreases parts.len(),
{
    if parts.len() == 0 {
        0
    } else {
        total_len(parts.drop_last()) + parts.last().len()
    }
}

/// The sum of the first `n` widths.
pub open spec fn sum_to(widths: Seq<usize>, n: int) -> int
    decreases n,
{
    if n <= 0 {
        0
    } else {
        sum_to(widths, n - 1) + widths[n - 1]
    }
}

/// The sum of all the widths.
pub open spec fn sum(widths: Seq<usize>) -> int {
    sum_to(widths, widths.len() as int)
}

/// A concatenation is as long as its parts together.
pub proof fn lemma_concat_len<T>(parts: Seq<Seq<T>>)
    ensures
        concat(parts).len() == total_len(parts),
    decreases parts.len(),
{
    if parts.len() > 0 {
        lemma_concat_len(parts.drop_last());
    }
}

/// One more part at the end of a concatenation.
pub proof fn lemma_concat_push<T>(parts: Seq<Seq<T>>, part: Seq<T>)
    ensures
        concat(parts.push(part)) == concat(parts) + part,
        total_len(parts.push(part)) == total_len(parts) + part.len(),
{
    assert(parts.push(part).drop_last() == parts);
}

/// The partial sums of widths grow with the number of widths summed.
pub proof fn lemma_sum_to_monotone(widths: Seq<usize>, i: int, j: int)
    requires
        0 <= i <= j <= widths.len(),
    ensures
        0 <= sum_to(widths, i) <= sum_to(widths, j),
    decreases j,
{
    if i < j {
        lemma_sum_to_monotone(widths, i, j - 1);
    } else if i > 0 {
        lemma_sum_to_monotone(widths, i - 1, i - 1);
    }
}

/// A copy of `v`.
pub fn copy_of<T: Copy>(v: &Vec<T>) -> (r: Vec<T>)
    ensures
        r@ == v@,
{
    let mut r: Vec<T> = Vec::new();
    let mut i: usize = 0;
    while i < v.len()
        invariant
            i <= v.len(),
            r@ == v@.subrange(0, i as int),
        decreases v.len() - i,
    {
        r.push(v[i]);
        i += 1;
    }
    r
}

/// The entries of `v` from `from` up to, not including, `to`.
pub fn slice_of<T: Copy>(v: &Vec<T>, from: usize, to: usize) -> (r: Vec<T>)
    requires
        from <= to <= v.len(),
    ensures
        r@ == v@.subrange(from as int, to as int),
{
    let mut r: Vec<T> = Vec::new();
    let mut i: usize = from;
    while i < to
        invariant
            from <= i <= to <= v.len(),
            r@ == v@.subrange(from as int, i as int),
        decreases to - i,
    {
        r.push(v[i]);
        assert(v@.subrange(from as int, i + 1) == v@.subrange(from as int, i as int).push(
            v@[i as int],
        ));
        i += 1;
    }
    r
}

/// Lays `src` at the end of `dst`.
pub fn append_to<T: Copy>(dst: &mut Vec<T>, src: &Vec<T>)
    ensures
        final(dst)@ == old(dst)@ + src@,
{
    let mut i: usize = 0;
    while i < src.len()
        invariant
            i <= src.len(),
            dst@ == old(dst)@ + src@.subrange(0, i as int),
        decreases src.len() - i,
    {
        dst.push(src[i]);
        i += 1;
    }
}

/// A vector of `n` entries, each of them `value`.
pub fn filled<T: Copy>(value: T, n: usize) -> (r: Vec<T>)
    ensures
        r.len() == n,
        forall|i: int| 0 <= i < n ==> r[i] == value,
{
    let mut r: Vec<T> = Vec::new();
    let mut i: usize = 0;
    while i < n
        invariant
            i <= n,
            r.len() == i,
            forall|j: int| 0 <= j < i ==> r[j] == value,
        decreases n - i,
    {
        r.push(value);
        i += 1;
    }
    r
}

/// The views of the vectors of `parts`.
pub open spec fn views_of<T>(parts: Seq<Vec<T>>) -> Seq<Seq<T>> {
    Seq::new(parts.len(), |i: int| parts[i]@)
}

/// The vectors of `parts` laid end to end.
pub fn flatten<T: Copy>(parts: &Vec<Vec<T>>) -> (r: Vec<T>)
    ensures
        r@ == concat(views_of(parts@)),
{
    let ghost views = views_of(parts@);
    let mut r: Vec<T> = Vec::new();
    let mut i: usize = 0;
    while i < parts.len()
        invariant
            i <= parts.len(),
            views == views_of(parts@),
            r@ == concat(views.take(i as int)),
        decreases parts.len() - i,
    {
        proof {
            lemma_concat_push(views.take(i as int), parts[i as int]@);
            assert(views.take(i as int).push(parts[i as int]@) == views.take(i + 1));
        }
        append_to(&mut r, &parts[i]);
        i += 1;
    }
    assert(views.take(parts.len() as int) == views);
    r
}

/// Two lists of parts laid end to end, one list after the other.
pub proof fn lemma_concat_add<T>(x: Seq<Seq<T>>, y: Seq<Seq<T>>)
    ensures
        concat(x + y) == concat(x) + concat(y),
    decreases y.len(),
{
    if y.len() == 0 {
        assert(x + y == x);
    } else {
        lemma_concat_add(x, y.drop_last());
        assert((x + y).drop_last() == x + y.drop_last());
        assert(concat(x) + concat(y.drop_last()) + y.last() == concat(x) + (concat(y.drop_last())
            + y.last()));
    }
}

} // verus!
