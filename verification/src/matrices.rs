//! Rows and columns drawn from the participation matrices of the model.

use vstd::prelude::*;
use crate::fem::{
    all_matched, find_port, first_unmatched, has_port, indices_by_tag, is_port, port_indices,
    ports_within, selected, within, FemPort,
};
use crate::search::{lemma_first_where_is, lemma_first_where};
use crate::tags::Tag;
use crate::vectors::{concat, lemma_concat_add};

verus! {

/// Row `k` of the input matrix `b`, of `n` columns, at the columns `cols`.
pub open spec fn row_at<T>(b: Seq<T>, n: int, k: int, cols: Seq<u32>) -> Seq<T> {
    Seq::new(cols.len(), |j: int| b[k * n + cols[j] - 1])
}

/// The rows `rows` of the output matrix `c`, of `m` columns, row after row.
pub open spec fn rows_at<T>(c: Seq<T>, m: int, rows: Seq<u32>) -> Seq<T> {
    concat(Seq::new(rows.len(), |r: int| c.subrange((rows[r] - 1) * m, rows[r] * m)))
}

/// Column `k` of the output matrix `c`, of `m` columns, at the rows `rows`.
pub open spec fn column_at<T>(c: Seq<T>, m: int, k: int, rows: Seq<u32>) -> Seq<T> {
    Seq::new(rows.len(), |r: int| c[(rows[r] - 1) * m + k])
}

/// The entry at row `k`, column `j` of a matrix of `m` rows and `n` columns
/// stored row by row is an entry of the matrix.
pub proof fn lemma_cell(k: int, j: int, m: int, n: int)
    requires
        0 <= k < m,
        1 <= j <= n,
    ensures
        0 <= k * n,
        0 <= k * n + j - 1 < m * n,
        (k + 1) * n <= m * n,
        k * n + n == (k + 1) * n,
{
    assert(0 <= k * n) by (nonlinear_arith)
        requires
            0 <= k,
            0 <= n,
    ;
    assert((k + 1) * n <= m * n) by (nonlinear_arith)
        requires
            k + 1 <= m,
            0 <= n,
    ;
    assert(k * n + n == (k + 1) * n) by (nonlinear_arith);
}

/// Parts of one length `w` laid end to end: the length of the whole, and
/// where the entries of each part stand in it.
pub proof fn lemma_concat_uniform<T>(parts: Seq<Seq<T>>, w: int)
    requires
        0 <= w,
        forall|i: int| 0 <= i < parts.len() ==> (#[trigger] parts[i]).len() == w,
    ensures
        concat(parts).len() == parts.len() * w,
        forall|i: int, j: int|
            0 <= i < parts.len() && 0 <= j < w ==> concat(parts)[i * w + j] == #[trigger] parts[i][j],
    decreases parts.len(),
{
    if parts.len() == 0 {
        assert(parts.len() * w == 0) by (nonlinear_arith)
            requires
                parts.len() == 0,
        ;
    } else {
        let front = parts.drop_last();
        lemma_concat_uniform(front, w);
        let n = front.len() as int;
        assert((n + 1) * w == n * w + w) by (nonlinear_arith);
        assert forall|i: int, j: int| 0 <= i < parts.len() && 0 <= j < w implies concat(
            parts,
        )[i * w + j] == #[trigger] parts[i][j] by {
            if i < n {
                assert(front[i] == parts[i]);
                assert(i * w + j < n * w) by (nonlinear_arith)
                    requires
                        0 <= i < n,
                        0 <= j < w,
                ;
                assert(0 <= i * w) by (nonlinear_arith)
                    requires
                        0 <= i,
                        0 <= w,
                ;
            }
        }
    }
}

/// Parts whose indices lie within a bound, laid end to end, lie within it.
pub proof fn lemma_concat_within(parts: Seq<Seq<u32>>, n: int)
    requires
        forall|i: int| 0 <= i < parts.len() ==> within(#[trigger] parts[i], n),
    ensures
        within(concat(parts), n),
    decreases parts.len(),
{
    if parts.len() > 0 {
        assert forall|i: int| 0 <= i < parts.drop_last().len() implies within(
            #[trigger] parts.drop_last()[i],
            n,
        ) by {
            assert(parts.drop_last()[i] == parts[i]);
        }
        lemma_concat_within(parts.drop_last(), n);
        assert(within(parts.last(), n));
    }
}

/// The indices in use of a port that is present lie within the bound of the
/// ports.
pub proof fn lemma_port_within(ports: Seq<Option<FemPort>>, tag: Tag, n: int)
    requires
        ports_within(ports, n),
        has_port(ports, tag),
    ensures
        within(port_indices(ports, tag), n),
{
    lemma_first_where(ports, is_port(tag));
}

/// The indices in use of the ports that `tags` name lie within the bound of
/// the ports.
pub proof fn lemma_selected_within(ports: Seq<Option<FemPort>>, tags: Seq<Tag>, n: int)
    requires
        ports_within(ports, n),
        all_matched(ports, tags),
    ensures
        within(selected(ports, tags), n),
        forall|i: int| 0 <= i < tags.len() ==> within(port_indices(ports, #[trigger] tags[i]), n),
{
    assert forall|i: int| 0 <= i < tags.len() implies within(
        port_indices(ports, #[trigger] tags[i]),
        n,
    ) by {
        lemma_port_within(ports, tags[i], n);
    }
    let parts = indices_by_tag(ports, tags);
    assert forall|i: int| 0 <= i < parts.len() implies within(#[trigger] parts[i], n) by {
        lemma_port_within(ports, tags[i], n);
    }
    lemma_concat_within(parts, n);
}

/// For each of `tags`, the indices in use of the port that it names; or the
/// first of `tags` that names no port.
pub fn indices_of(ports: &Vec<Option<FemPort>>, tags: &Vec<Tag>) -> (r: Result<Vec<Vec<u32>>, Tag>)
    ensures
        match r {
            Ok(v) => all_matched(ports@, tags@) && v.len() == tags.len() && forall|i: int|
                0 <= i < tags.len() ==> (#[trigger] v[i])@ == port_indices(ports@, tags[i]),
            Err(t) => !all_matched(ports@, tags@) && t == first_unmatched(ports@, tags@),
        },
{
    let mut v: Vec<Vec<u32>> = Vec::new();
    let mut i: usize = 0;
    while i < tags.len()
        invariant
            i <= tags.len(),
            v.len() == i,
            forall|j: int| 0 <= j < i ==> has_port(ports@, #[trigger] tags[j]),
            forall|j: int| 0 <= j < i ==> (#[trigger] v[j])@ == port_indices(ports@, tags[j]),
        decreases tags.len() - i,
    {
        match find_port(ports, tags[i]) {
            Some(indices) => {
                v.push(indices);
            },
            None => {
                proof {
                    let p = |t: Tag| !has_port(ports@, t);
                    assert forall|j: int| 0 <= j < i implies !p(tags@[j]) by {
                        assert(has_port(ports@, tags[j]));
                    }
                    lemma_first_where_is(tags@, p, i as int);
                }
                return Err(tags[i]);
            },
        }
        i += 1;
    }
    Ok(v)
}

/// A multiple of `m` divided by `m`.
pub proof fn lemma_exact_div(a: int, m: int)
    requires
        0 <= a,
        0 < m,
    ensures
        (a * m) / m == a,
        (m * a) / m == a,
        0 <= a * m,
{
    vstd::arithmetic::div_mod::lemma_div_by_multiple(a, m);
    assert(m * a == a * m) by (nonlinear_arith);
    assert(0 <= a * m) by (nonlinear_arith)
        requires
            0 <= a,
            0 < m,
    ;
}

/// The rows drawn from an output matrix: how many entries they have, and
/// where the entries of the matrix stand among them.
pub proof fn lemma_rows_at<T>(c: Seq<T>, m: int, rows: Seq<u32>, total: int)
    requires
        0 < m,
        c.len() == total * m,
        within(rows, total),
    ensures
        rows_at(c, m, rows).len() == rows.len() * m,
        rows_at(c, m, rows).len() as int / m == rows.len(),
        forall|r: int, k: int|
            0 <= r < rows.len() && 0 <= k < m ==> rows_at(c, m, rows)[r * m + k]
                == #[trigger] column_at(c, m, k, rows)[r],
{
    let parts = Seq::new(rows.len(), |r: int| c.subrange((rows[r] - 1) * m, rows[r] * m));
    assert forall|r: int| 0 <= r < parts.len() implies (#[trigger] parts[r]).len() == m by {
        lemma_cell(rows[r] - 1, 1, total, m);
    }
    lemma_concat_uniform(parts, m);
    lemma_exact_div(rows.len() as int, m);
    assert forall|r: int, k: int| 0 <= r < rows.len() && 0 <= k < m implies rows_at(
        c,
        m,
        rows,
    )[r * m + k] == #[trigger] column_at(c, m, k, rows)[r] by {
        lemma_cell(rows[r] - 1, 1, total, m);
        assert(concat(parts)[r * m + k] == parts[r][k]);
    }
}

/// The rows drawn at two lists of indices, one list after the other, are
/// the rows drawn at the two lists laid end to end.
pub proof fn lemma_rows_at_add<T>(c: Seq<T>, m: int, a: Seq<u32>, b: Seq<u32>)
    ensures
        rows_at(c, m, a + b) == rows_at(c, m, a) + rows_at(c, m, b),
{
    let pa = Seq::new(a.len(), |r: int| c.subrange((a[r] - 1) * m, a[r] * m));
    let pb = Seq::new(b.len(), |r: int| c.subrange((b[r] - 1) * m, b[r] * m));
    let pab = Seq::new((a + b).len(), |r: int| c.subrange(((a + b)[r] - 1) * m, (a + b)[r] * m));
    assert(pab =~= pa + pb);
    lemma_concat_add(pa, pb);
}

/// The rows drawn for each list of indices, list after list, are the rows
/// drawn at all the lists laid end to end.
pub proof fn lemma_rows_at_concat<T>(c: Seq<T>, m: int, lists: Seq<Seq<u32>>)
    ensures
        concat(Seq::new(lists.len(), |i: int| rows_at(c, m, lists[i]))) == rows_at(
            c,
            m,
            concat(lists),
        ),
    decreases lists.len(),
{
    let by_list = Seq::new(lists.len(), |i: int| rows_at(c, m, lists[i]));
    if lists.len() == 0 {
        assert(rows_at(c, m, Seq::<u32>::empty()) =~= Seq::<T>::empty());
    } else {
        let front = lists.drop_last();
        lemma_rows_at_concat(c, m, front);
        assert(by_list.drop_last() =~= Seq::new(front.len(), |i: int| rows_at(c, m, front[i])));
        lemma_rows_at_add(c, m, concat(front), lists.last());
    }
}

/// The columns of the matrix of `nrows` rows and `ncols` columns that
/// `data` holds row by row, column after column: `DMatrix::from_row_slice`
/// and `Matrix::as_slice` of `nalgebra`.
///
/// Claimed: the entry at row `i` and column `j`, which `from_row_slice`
/// takes at place `i * ncols + j` of `data`, stands at place
/// `j * nrows + i` of the result, `as_slice` giving the entries column by
/// column. `from_row_slice` panics unless `data` has `nrows * ncols`
/// entries.
#[verifier::external_body]
pub(crate) fn columns_of<T: 'static + Copy + PartialEq + core::fmt::Debug>(
    nrows: usize,
    ncols: usize,
    data: &Vec<T>,
) -> (r: Vec<T>)
    requires
        data.len() == nrows * ncols,
    ensures
        r.len() == data.len(),
        forall|i: int, j: int|
            #![trigger r[j * nrows + i]]
            #![trigger data[i * ncols + j]]
            0 <= i < nrows && 0 <= j < ncols ==> r[j * nrows + i] == data[i * ncols + j],
{
    nalgebra::DMatrix::from_row_slice(nrows, ncols, data).as_slice().to_vec()
}

} // verus!
