//! The builder of the discrete modal state space: from the modal model, the
//! declared inputs and outputs and the sampling rate to one second order
//! system for each retained mode.

use vstd::prelude::*;
use crate::fem::{
    all_matched, first_unmatched, has_port, indices_by_tag, is_port, matched_places, on_indices,
    port_indices, ports_within, restricted, selected, within, FemPort, FEM,
};
use crate::matrices::{
    column_at, columns_of, indices_of, lemma_cell, lemma_concat_uniform, lemma_exact_div,
    lemma_rows_at, lemma_rows_at_concat, lemma_selected_within, row_at, rows_at,
};
use crate::order::{count_within, le, ordered};
use crate::search::{first_where, lemma_first_where, lemma_first_where_is};
use crate::tags::{are_distinct, distinct, occurs, Tag};
use crate::vectors::{append_to, concat, flatten, lemma_concat_push, slice_of, views_of};

verus! {

/// Why a state space could not be built.
#[derive(Debug)]
pub enum StateSpaceError {
    /// No input port of the model is named as this declared input is.
    FemInputs(Tag),
    /// No output port of the model is named as this declared output is.
    FemOutputs(Tag),
    /// The builder was not given this.
    MissingArguments(String),
}

/// The rows of the input matrix of `fem`, at the columns of the ports that
/// `tags` name, row after row: one row for each mode.
pub open spec fn forces_to_modes<T>(fem: FEM<T>, tags: Seq<Tag>) -> Seq<T> {
    concat(
        Seq::new(
            fem.modes() as nat,
            |k: int|
                row_at(fem.inputs_to_modal_forces@, fem.columns(), k, selected(fem.inputs@, tags)),
        ),
    )
}

/// The rows of the output matrix of `fem` that belong to the port that `tag`
/// names, row after row.
pub open spec fn modes_to_nodes<T>(fem: FEM<T>, tag: Tag) -> Seq<T> {
    rows_at(fem.modal_disp_to_outputs@, fem.modes(), port_indices(fem.outputs@, tag))
}

/// A port named by one of `tags` is still there after the ports have been
/// restricted to `tags`, with the same indices.
pub proof fn lemma_restricted_keeps(ports: Seq<Option<FemPort>>, tags: Seq<Tag>, tag: Tag)
    requires
        occurs(tags, tag),
    ensures
        has_port(restricted(ports, tags), tag) == has_port(ports, tag),
        has_port(ports, tag) ==> port_indices(restricted(ports, tags), tag) == port_indices(
            ports,
            tag,
        ),
{
    let kept = restricted(ports, tags);
    let p = is_port(tag);
    lemma_first_where(ports, p);
    lemma_first_where(kept, p);
    if has_port(ports, tag) {
        let f = first_where(ports, p);
        assert forall|j: int| 0 <= j < f implies !p(kept[j]) by {
            assert(!p(ports[j]));
        }
        lemma_first_where_is(kept, p, f);
    }
    if has_port(kept, tag) {
        let f = first_where(kept, p);
        assert(p(ports[f]));
    }
}

/// Restricting the ports keeps their indices within the bound.
pub proof fn lemma_restricted_within(ports: Seq<Option<FemPort>>, tags: Seq<Tag>, n: int)
    requires
        ports_within(ports, n),
    ensures
        ports_within(restricted(ports, tags), n),
{
    let kept = restricted(ports, tags);
    assert forall|k: int| 0 <= k < kept.len() && (#[trigger] kept[k]) is Some implies within(
        on_indices(kept[k]->0.elements@),
        n,
    ) by {
        assert(ports[k] is Some);
    }
}

/// Restricting the ports to `tags` changes nothing for `tags`: the same tags
/// are matched, and the same indices are selected.
pub proof fn lemma_restricted_selects(ports: Seq<Option<FemPort>>, tags: Seq<Tag>)
    ensures
        all_matched(restricted(ports, tags), tags) == all_matched(ports, tags),
        all_matched(ports, tags) ==> indices_by_tag(restricted(ports, tags), tags)
            == indices_by_tag(ports, tags),
        !all_matched(ports, tags) ==> first_unmatched(restricted(ports, tags), tags)
            == first_unmatched(ports, tags),
{
    let kept = restricted(ports, tags);
    assert forall|i: int| 0 <= i < tags.len() implies has_port(kept, #[trigger] tags[i])
        == has_port(ports, tags[i]) && (has_port(ports, tags[i]) ==> port_indices(kept, tags[i])
        == port_indices(ports, tags[i])) by {
        lemma_restricted_keeps(ports, tags, tags[i]);
    }
    if all_matched(ports, tags) {
        assert(indices_by_tag(kept, tags) =~= indices_by_tag(ports, tags));
    } else {
        let p = |t: Tag| !has_port(ports, t);
        let q = |t: Tag| !has_port(kept, t);
        lemma_first_where(tags, p);
        let i = choose|i: int| 0 <= i < tags.len() && !has_port(ports, #[trigger] tags[i]);
        assert(p(tags[i]));
        let f = first_where(tags, p);
        assert forall|j: int| 0 <= j < f implies !q(tags[j]) by {
            assert(!p(tags[j]));
        }
        lemma_first_where_is(tags, q, f);
    }
}

/// Drops from the model every port that none of the declared tags names.
pub fn select_fem_io<T>(fem: &mut FEM<T>, dos_inputs: &Vec<Tag>, dos_outputs: &Vec<Tag>)
    ensures
        final(fem).inputs@ == restricted(old(fem).inputs@, dos_inputs@),
        final(fem).outputs@ == restricted(old(fem).outputs@, dos_outputs@),
        final(fem).eigen_frequencies == old(fem).eigen_frequencies,
        final(fem).proportional_damping_vec == old(fem).proportional_damping_vec,
        final(fem).inputs_to_modal_forces == old(fem).inputs_to_modal_forces,
        final(fem).modal_disp_to_outputs == old(fem).modal_disp_to_outputs,
        old(fem).wf() ==> final(fem).wf(),
{
    let inputs_idx = matched_places(&fem.inputs, dos_inputs);
    let outputs_idx = matched_places(&fem.outputs, dos_outputs);
    fem.keep_inputs(&inputs_idx);
    fem.keep_outputs(&outputs_idx);
    proof {
        if old(fem).wf() {
            lemma_restricted_within(old(fem).inputs@, dos_inputs@, old(fem).columns());
            lemma_restricted_within(old(fem).outputs@, dos_outputs@, old(fem).rows());
        }
    }
}

/// The input matrix restricted to the columns of the declared inputs, in
/// the order in which they are declared, row by row; or the first declared
/// input that names no port.
pub fn io2modes<T: Copy>(fem: &FEM<T>, dos_inputs: &Vec<Tag>) -> (r: Result<
    Vec<T>,
    StateSpaceError,
>)
    requires
        fem.wf(),
    ensures
        match r {
            Ok(m) => all_matched(fem.inputs@, dos_inputs@) && m@ == forces_to_modes(
                *fem,
                dos_inputs@,
            ),
            Err(e) => !all_matched(fem.inputs@, dos_inputs@) && e == StateSpaceError::FemInputs(
                first_unmatched(fem.inputs@, dos_inputs@),
            ),
        },
{
    let by_tag = match indices_of(&fem.inputs, dos_inputs) {
        Ok(v) => v,
        Err(t) => {
            return Err(StateSpaceError::FemInputs(t));
        },
    };
    let indices = flatten(&by_tag);
    let n_modes = fem.n_modes();
    let n = fem.inputs_to_modal_forces.len() / n_modes;
    let ghost cols = selected(fem.inputs@, dos_inputs@);
    let ghost b = fem.inputs_to_modal_forces@;
    let ghost rows = Seq::new(n_modes as nat, |k: int| row_at(b, n as int, k, cols));
    proof {
        assert(views_of(by_tag@) =~= indices_by_tag(fem.inputs@, dos_inputs@));
        lemma_selected_within(fem.inputs@, dos_inputs@, n as int);
    }
    let mut m: Vec<T> = Vec::new();
    let mut k: usize = 0;
    while k < n_modes
        invariant
            k <= n_modes,
            n_modes == fem.modes(),
            n == fem.columns(),
            b == fem.inputs_to_modal_forces@,
            b.len() == n_modes * n,
            b.len() <= usize::MAX,
            indices@ == cols,
            within(cols, n as int),
            rows == Seq::new(n_modes as nat, |k: int| row_at(b, n as int, k, cols)),
            m@ == concat(rows.take(k as int)),
        decreases n_modes - k,
    {
        let ghost before = m@;
        let mut j: usize = 0;
        while j < indices.len()
            invariant
                j <= indices.len(),
                k < n_modes,
                b == fem.inputs_to_modal_forces@,
                b.len() == n_modes * n,
                b.len() <= usize::MAX,
                indices@ == cols,
                within(cols, n as int),
                m@ == before + row_at(b, n as int, k as int, cols).take(j as int),
            decreases indices.len() - j,
        {
            let c = indices[j];
            proof {
                lemma_cell(k as int, c as int, n_modes as int, n as int);
            }
            let at = k * n + (c as usize - 1);
            m.push(fem.inputs_to_modal_forces[at]);
            assert(row_at(b, n as int, k as int, cols).take(j + 1) == row_at(
                b,
                n as int,
                k as int,
                cols,
            ).take(j as int).push(b[at as int]));
            j += 1;
        }
        proof {
            let row = row_at(b, n as int, k as int, cols);
            lemma_concat_push(rows.take(k as int), row);
            assert(rows.take(k as int).push(row) == rows.take(k + 1));
        }
        k += 1;
    }
    assert(rows.take(n_modes as int) == rows);
    Ok(m)
}

/// For each declared output, the rows of the output matrix that belong to
/// it, row after row; or the first declared output that names no port.
pub fn modes2io<T: Copy>(fem: &FEM<T>, dos_outputs: &Vec<Tag>) -> (r: Result<
    Vec<Vec<T>>,
    StateSpaceError,
>)
    requires
        fem.wf(),
    ensures
        match r {
            Ok(v) => all_matched(fem.outputs@, dos_outputs@) && v.len() == dos_outputs.len()
                && forall|i: int|
                0 <= i < dos_outputs.len() ==> (#[trigger] v[i])@ == modes_to_nodes(
                    *fem,
                    dos_outputs[i],
                ),
            Err(e) => !all_matched(fem.outputs@, dos_outputs@) && e == StateSpaceError::FemOutputs(
                first_unmatched(fem.outputs@, dos_outputs@),
            ),
        },
{
    let by_tag = match indices_of(&fem.outputs, dos_outputs) {
        Ok(v) => v,
        Err(t) => {
            return Err(StateSpaceError::FemOutputs(t));
        },
    };
    let n = fem.n_modes();
    let ghost c = fem.modal_disp_to_outputs@;
    proof {
        lemma_selected_within(fem.outputs@, dos_outputs@, fem.rows());
    }
    let mut v: Vec<Vec<T>> = Vec::new();
    let mut i: usize = 0;
    while i < dos_outputs.len()
        invariant
            i <= dos_outputs.len(),
            v.len() == i,
            by_tag.len() == dos_outputs.len(),
            n == fem.modes(),
            n > 0,
            c == fem.modal_disp_to_outputs@,
            c.len() == fem.rows() * n,
            forall|j: int|
                0 <= j < dos_outputs.len() ==> (#[trigger] by_tag[j])@ == port_indices(
                    fem.outputs@,
                    dos_outputs[j],
                ),
            forall|j: int|
                0 <= j < dos_outputs.len() ==> within(
                    port_indices(fem.outputs@, #[trigger] dos_outputs[j]),
                    fem.rows(),
                ),
            forall|j: int|
                0 <= j < i ==> (#[trigger] v[j])@ == modes_to_nodes(*fem, dos_outputs[j]),
        decreases dos_outputs.len() - i,
    {
        let indices = &by_tag[i];
        let ghost idx = port_indices(fem.outputs@, dos_outputs[i as int]);
        let ghost parts = Seq::new(
            idx.len(),
            |r: int| c.subrange((idx[r] - 1) * n, idx[r] * n),
        );
        let mut q: Vec<T> = Vec::new();
        let mut r: usize = 0;
        while r < indices.len()
            invariant
                r <= indices.len(),
                indices@ == idx,
                within(idx, fem.rows()),
                n == fem.modes(),
                n > 0,
                c == fem.modal_disp_to_outputs@,
                c.len() == fem.rows() * n,
                parts == Seq::new(idx.len(), |r: int| c.subrange((idx[r] - 1) * n, idx[r] * n)),
                q@ == concat(parts.take(r as int)),
            decreases indices.len() - r,
        {
            let row = indices[r];
            proof {
                lemma_cell(row - 1, 1, fem.rows(), n as int);
                lemma_concat_push(parts.take(r as int), parts[r as int]);
                assert(parts.take(r as int).push(parts[r as int]) == parts.take(r + 1));
            }
            let from = (row as usize - 1) * n;
            let part = slice_of(&fem.modal_disp_to_outputs, from, from + n);
            append_to(&mut q, &part);
            r += 1;
        }
        assert(parts.take(idx.len() as int) == parts);
        v.push(q);
        i += 1;
    }
    Ok(v)
}

/// The list of the inputs and of the outputs of a component.
pub trait IOTags {
    /// The names of the outputs, in order.
    fn outputs_tags(&self) -> Vec<Tag>;

    /// The names of the inputs, in order.
    fn inputs_tags(&self) -> Vec<Tag>;
}

/// One mode of the structure in continuous time: a second order system of
/// eigenfrequency `eigen_frequency`, in Hz, and damping `zeta`, driven by
/// the inputs through the weights `b` and read at the outputs through the
/// weights `c`.
#[derive(Debug)]
pub struct SecondOrder<T> {
    pub eigen_frequency: T,
    pub zeta: T,
    pub b: Vec<T>,
    pub c: Vec<T>,
}

/// The modal model restricted to the declared inputs and outputs and to the
/// retained modes, before it is made discrete.
#[derive(Debug)]
pub struct ModalModel<T> {
    /// the sampling rate, in Hz
    pub sampling: T,
    pub modes: Vec<SecondOrder<T>>,
    pub u_tags: Vec<Tag>,
    pub y_tags: Vec<Tag>,
    /// the width of each declared output
    pub y_sizes: Vec<usize>,
    /// the width of all the declared inputs together
    pub n_inputs: usize,
}

/// The builder of a discrete modal state space.
#[derive(Debug)]
pub struct DiscreteStateSpace<T> {
    pub sampling: Option<T>,
    pub fem: Option<FEM<T>>,
    pub u: Option<Vec<Tag>>,
    pub y: Option<Vec<Tag>>,
    pub zeta: Option<T>,
    pub eigen_frequencies: Option<Vec<(usize, T)>>,
    pub max_eigen_frequency: Option<T>,
}

/// The eigenfrequency of mode `k`: the last of `overrides` for `k`, or that
/// of the model where no override names `k`.
pub open spec fn frequency<T>(ef: Seq<T>, overrides: Seq<(usize, T)>, k: int) -> T
    decreases overrides.len(),
{
    if overrides.len() == 0 {
        ef[k]
    } else if overrides.last().0 == k {
        overrides.last().1
    } else {
        frequency(ef, overrides.drop_last(), k)
    }
}

/// The widths of the ports that `tags` name.
pub open spec fn widths(ports: Seq<Option<FemPort>>, tags: Seq<Tag>) -> Seq<usize> {
    Seq::new(tags.len(), |i: int| port_indices(ports, tags[i]).len() as usize)
}

/// Column `k` of the output matrix of `fem` at the rows of the ports that
/// `tags` name, tag after tag.
pub open spec fn output_column<T>(fem: FEM<T>, tags: Seq<Tag>, k: int) -> Seq<T> {
    column_at(fem.modal_disp_to_outputs@, fem.modes(), k, selected(fem.outputs@, tags))
}

/// Row `k` of the input matrix of `fem` at the columns of the ports that
/// `tags` name, tag after tag.
pub open spec fn input_row<T>(fem: FEM<T>, tags: Seq<Tag>, k: int) -> Seq<T> {
    row_at(fem.inputs_to_modal_forces@, fem.columns(), k, selected(fem.inputs@, tags))
}

impl<T> From<FEM<T>> for DiscreteStateSpace<T> {
    /// The builder that has been given the model `fem` and nothing else.
    fn from(fem: FEM<T>) -> (r: Self) {
        DiscreteStateSpace {
            sampling: None,
            fem: Some(fem),
            u: None,
            y: None,
            zeta: None,
            eigen_frequencies: None,
            max_eigen_frequency: None,
        }
    }
}

impl<T> vstd::std_specs::convert::FromSpecImpl<FEM<T>> for DiscreteStateSpace<T> {
    open spec fn obeys_from_spec() -> bool {
        true
    }

    open spec fn from_spec(fem: FEM<T>) -> Self {
        DiscreteStateSpace {
            sampling: None,
            fem: Some(fem),
            u: None,
            y: None,
            zeta: None,
            eigen_frequencies: None,
            max_eigen_frequency: None,
        }
    }
}

impl<T> DiscreteStateSpace<T> {
    /// A builder that has been given nothing yet.
    pub fn new() -> (r: Self)
        ensures
            r.sampling is None,
            r.fem is None,
            r.u is None,
            r.y is None,
            r.zeta is None,
            r.eigen_frequencies is None,
            r.max_eigen_frequency is None,
    {
        DiscreteStateSpace {
            sampling: None,
            fem: None,
            u: None,
            y: None,
            zeta: None,
            eigen_frequencies: None,
            max_eigen_frequency: None,
        }
    }

    /// Whether what the builder holds hangs together: no name is declared
    /// twice as an input, the model is well formed, and each eigenfrequency
    /// override names a mode of the model.
    pub open spec fn wf(&self) -> bool {
        &&& self.u is Some ==> distinct(self.u->0@)
        &&& self.fem is Some ==> self.fem->0.wf()
        &&& self.fem is Some && self.eigen_frequencies is Some ==> forall|i: int|
            0 <= i < self.eigen_frequencies->0.len() ==> (#[trigger] self.eigen_frequencies->0[i]).0
                < self.fem->0.modes()
    }

    /// Whether what the builder holds hangs together.
    pub fn is_well_formed(&self) -> (r: bool)
        ensures
            r == self.wf(),
    {
        match &self.u {
            Some(tags) => {
                if !are_distinct(tags) {
                    return false;
                }
            },
            None => {},
        }
        let fem = match &self.fem {
            Some(fem) => fem,
            None => {
                return true;
            },
        };
        if !fem.is_well_formed() {
            return false;
        }
        let overrides = match &self.eigen_frequencies {
            Some(overrides) => overrides,
            None => {
                return true;
            },
        };
        let mut i: usize = 0;
        while i < overrides.len()
            invariant
                i <= overrides.len(),
                fem.wf(),
                self.u is Some ==> distinct(self.u->0@),
                self.fem == Some(*fem),
                self.eigen_frequencies == Some(*overrides),
                forall|j: int| 0 <= j < i ==> (#[trigger] overrides[j]).0 < fem.modes(),
            decreases overrides.len() - i,
        {
            if overrides[i].0 >= fem.n_modes() {
                assert(self.eigen_frequencies->0[i as int].0 >= self.fem->0.modes());
                return false;
            }
            i += 1;
        }
        true
    }

    /// Sets the sampling rate, in Hz.
    pub fn sampling(self, sampling: T) -> (r: Self)
        ensures
            r == (DiscreteStateSpace { sampling: Some(sampling), ..self }),
    {
        DiscreteStateSpace { sampling: Some(sampling), ..self }
    }

    /// Sets one damping coefficient for all the modes.
    pub fn proportional_damping(self, zeta: T) -> (r: Self)
        ensures
            r == (DiscreteStateSpace { zeta: Some(zeta), ..self }),
    {
        DiscreteStateSpace { zeta: Some(zeta), ..self }
    }

    /// Replaces the eigenfrequency, in Hz, of each mode that the list names.
    pub fn eigen_frequencies(self, eigen_frequencies: Vec<(usize, T)>) -> (r: Self)
        ensures
            r == (DiscreteStateSpace { eigen_frequencies: Some(eigen_frequencies), ..self }),
    {
        DiscreteStateSpace { eigen_frequencies: Some(eigen_frequencies), ..self }
    }

    /// Retains as many of the first modes as there are eigenfrequencies, in
    /// Hz, that do not exceed `max_eigen_frequency`.
    pub fn max_eigen_frequency(self, max_eigen_frequency: T) -> (r: Self)
        ensures
            r == (DiscreteStateSpace { max_eigen_frequency: Some(max_eigen_frequency), ..self }),
    {
        DiscreteStateSpace { max_eigen_frequency: Some(max_eigen_frequency), ..self }
    }

    /// The declared tags once `more` have been declared after them.
    pub open spec fn declared(before: Option<Vec<Tag>>, more: Seq<Tag>) -> Seq<Tag> {
        match before {
            Some(tags) => tags@ + more,
            None => more,
        }
    }

    /// Declares more inputs, after those that are declared already.
    pub fn inputs(self, v_u: Vec<Tag>) -> (r: Self)
        ensures
            r.u is Some,
            r.u->0@ == Self::declared(self.u, v_u@),
            r.sampling == self.sampling,
            r.fem == self.fem,
            r.y == self.y,
            r.zeta == self.zeta,
            r.eigen_frequencies == self.eigen_frequencies,
            r.max_eigen_frequency == self.max_eigen_frequency,
    {
        let DiscreteStateSpace { sampling, fem, u, y, zeta, eigen_frequencies, max_eigen_frequency } =
            self;
        let u = match u {
            Some(mut tags) => {
                append_to(&mut tags, &v_u);
                tags
            },
            None => v_u,
        };
        DiscreteStateSpace {
            sampling,
            fem,
            u: Some(u),
            y,
            zeta,
            eigen_frequencies,
            max_eigen_frequency,
        }
    }

    /// Declares more outputs, after those that are declared already.
    pub fn outputs(self, v_y: Vec<Tag>) -> (r: Self)
        ensures
            r.y is Some,
            r.y->0@ == Self::declared(self.y, v_y@),
            r.sampling == self.sampling,
            r.fem == self.fem,
            r.u == self.u,
            r.zeta == self.zeta,
            r.eigen_frequencies == self.eigen_frequencies,
            r.max_eigen_frequency == self.max_eigen_frequency,
    {
        let DiscreteStateSpace { sampling, fem, u, y, zeta, eigen_frequencies, max_eigen_frequency } =
            self;
        let y = match y {
            Some(mut tags) => {
                append_to(&mut tags, &v_y);
                tags
            },
            None => v_y,
        };
        DiscreteStateSpace {
            sampling,
            fem,
            u,
            y: Some(y),
            zeta,
            eigen_frequencies,
            max_eigen_frequency,
        }
    }

    /// Declares as inputs the outputs of `element`, whatever it says they
    /// are.
    pub fn inputs_from<E: IOTags>(self, element: &E) -> (r: Self)
        ensures
            r.u is Some,
            exists|tags: Vec<Tag>|
                call_ensures(E::outputs_tags, (element,), tags) && r.u->0@ == Self::declared(
                    self.u,
                    tags@,
                ),
            r.sampling == self.sampling,
            r.fem == self.fem,
            r.y == self.y,
            r.zeta == self.zeta,
            r.eigen_frequencies == self.eigen_frequencies,
            r.max_eigen_frequency == self.max_eigen_frequency,
    {
        self.inputs(element.outputs_tags())
    }

    /// Declares as outputs the inputs of `element`, whatever it says they
    /// are.
    pub fn outputs_to<E: IOTags>(self, element: &E) -> (r: Self)
        ensures
            r.y is Some,
            exists|tags: Vec<Tag>|
                call_ensures(E::inputs_tags, (element,), tags) && r.y->0@ == Self::declared(
                    self.y,
                    tags@,
                ),
            r.sampling == self.sampling,
            r.fem == self.fem,
            r.u == self.u,
            r.zeta == self.zeta,
            r.eigen_frequencies == self.eigen_frequencies,
            r.max_eigen_frequency == self.max_eigen_frequency,
    {
        self.outputs(element.inputs_tags())
    }
}

impl<T: Copy> DiscreteStateSpace<T> {
    /// Lays the eigenfrequencies of the model, as they are before any mode
    /// is dropped or any eigenfrequency replaced, at the end of `sink`.
    pub fn dump_eigen_frequencies(self, sink: &mut Vec<T>) -> (r: Self)
        requires
            self.fem is Some,
        ensures
            r == self,
            final(sink)@ == old(sink)@ + self.fem->0.eigen_frequencies@,
    {
        match &self.fem {
            Some(fem) => {
                append_to(sink, &fem.eigen_frequencies);
            },
            None => {},
        }
        self
    }
}

/// The eigenfrequency of mode `k` once `overrides` have been applied.
pub fn frequency_of<T: Copy>(ef: &Vec<T>, overrides: &Vec<(usize, T)>, k: usize) -> (f: T)
    requires
        k < ef.len(),
    ensures
        f == frequency(ef@, overrides@, k as int),
{
    let mut f = ef[k];
    let mut i: usize = 0;
    while i < overrides.len()
        invariant
            i <= overrides.len(),
            k < ef.len(),
            f == frequency(ef@, overrides@.take(i as int), k as int),
        decreases overrides.len() - i,
    {
        assert(overrides@.take(i + 1).drop_last() == overrides@.take(i as int));
        if overrides[i].0 == k {
            f = overrides[i].1;
        }
        i += 1;
    }
    assert(overrides@.take(overrides.len() as int) == overrides@);
    f
}

/// How many of the eigenfrequencies `ef` do not exceed `cap`.
pub fn retained_modes<T: PartialOrd>(ef: &Vec<T>, cap: &T) -> (n: usize)
    ensures
        n <= ef.len(),
        ordered::<T>() ==> n == count_within(ef@, *cap, ef.len() as int),
{
    let mut n: usize = 0;
    let mut i: usize = 0;
    while i < ef.len()
        invariant
            i <= ef.len(),
            n <= i,
            ordered::<T>() ==> n == count_within(ef@, *cap, i as int),
        decreases ef.len() - i,
    {
        if le(&ef[i], cap) {
            n += 1;
        }
        i += 1;
    }
    n
}

impl<T: PartialOrd> DiscreteStateSpace<T> {
    /// The eigenfrequency overrides, none where none was given.
    pub open spec fn overrides(&self) -> Seq<(usize, T)> {
        match self.eigen_frequencies {
            Some(o) => o@,
            None => Seq::empty(),
        }
    }

    /// Whether the builder has been given all that it needs, and each
    /// declared tag names a port of the model.
    pub open spec fn complete(&self) -> bool {
        &&& self.sampling is Some
        &&& self.fem is Some
        &&& self.u is Some
        &&& self.y is Some
        &&& all_matched(self.fem->0.inputs@, self.u->0@)
        &&& all_matched(self.fem->0.outputs@, self.y->0@)
    }

    /// Whether `e` is the reason for which nothing can be built: the first
    /// thing missing among the sampling rate, the model, the inputs and the
    /// outputs; else the first declared input that names no port; else the
    /// first declared output that names no port.
    pub open spec fn fails_with(&self, e: StateSpaceError) -> bool {
        if self.sampling is None {
            e matches StateSpaceError::MissingArguments(s) && s@ == "sampling"@
        } else if self.fem is None {
            e matches StateSpaceError::MissingArguments(s) && s@ == "FEM"@
        } else if self.u is None {
            e matches StateSpaceError::MissingArguments(s) && s@ == "inputs"@
        } else if self.y is None {
            e matches StateSpaceError::MissingArguments(s) && s@ == "outputs"@
        } else if !all_matched(self.fem->0.inputs@, self.u->0@) {
            e == StateSpaceError::FemInputs(first_unmatched(self.fem->0.inputs@, self.u->0@))
        } else if !all_matched(self.fem->0.outputs@, self.y->0@) {
            e == StateSpaceError::FemOutputs(first_unmatched(self.fem->0.outputs@, self.y->0@))
        } else {
            false
        }
    }

    /// Whether `n` modes may be retained: all of them where no bound on the
    /// eigenfrequency was given, else as many as there are eigenfrequencies
    /// of the model that do not exceed the bound.
    pub open spec fn retains(&self, n: int) -> bool {
        let ef = self.fem->0.eigen_frequencies@;
        &&& 0 <= n <= ef.len()
        &&& self.max_eigen_frequency is None ==> n == ef.len()
        &&& self.max_eigen_frequency is Some && ordered::<T>() ==> n == count_within(
            ef,
            self.max_eigen_frequency->0,
            ef.len() as int,
        )
    }

    /// Whether `mode` is mode `k` of what the builder describes.
    pub open spec fn describes(&self, mode: SecondOrder<T>, k: int) -> bool {
        let fem = self.fem->0;
        &&& mode.eigen_frequency == frequency(fem.eigen_frequencies@, self.overrides(), k)
        &&& mode.zeta == (match self.zeta {
            Some(zeta) => zeta,
            None => fem.proportional_damping_vec[k],
        })
        &&& mode.b@ == input_row(fem, self.u->0@, k)
        &&& mode.c@ == output_column(fem, self.y->0@, k)
    }

    /// Whether `model` is what the builder describes.
    pub open spec fn reduces_to(&self, model: ModalModel<T>) -> bool {
        let fem = self.fem->0;
        &&& model.sampling == self.sampling->0
        &&& model.u_tags@ == self.u->0@
        &&& model.y_tags@ == self.y->0@
        &&& model.y_sizes@ == widths(fem.outputs@, self.y->0@)
        &&& model.n_inputs == selected(fem.inputs@, self.u->0@).len()
        &&& self.retains(model.modes.len() as int)
        &&& forall|k: int| 0 <= k < model.modes.len() ==> self.describes(#[trigger] model.modes[k], k)
    }
}

impl<T: 'static + Copy + PartialOrd + core::fmt::Debug> DiscreteStateSpace<T> {
    /// Restricts the model to the declared inputs and outputs, retains the
    /// first modes, and applies to them the eigenfrequency overrides and the
    /// damping.
    pub fn reduce(self) -> (r: Result<ModalModel<T>, StateSpaceError>)
        requires
            self.wf(),
        ensures
            r is Ok == self.complete(),
            r is Ok ==> self.reduces_to(r->Ok_0),
            r is Err ==> self.fails_with(r->Err_0),
    {
        let ghost this = self;
        let DiscreteStateSpace { sampling, fem, u, y, zeta, eigen_frequencies, max_eigen_frequency } =
            self;
        let sampling = match sampling {
            Some(s) => s,
            None => {
                return Err(StateSpaceError::MissingArguments("sampling".to_owned()));
            },
        };
        let mut fem = match fem {
            Some(f) => f,
            None => {
                return Err(StateSpaceError::MissingArguments("FEM".to_owned()));
            },
        };
        let dos_inputs = match u {
            Some(tags) => tags,
            None => {
                return Err(StateSpaceError::MissingArguments("inputs".to_owned()));
            },
        };
        let dos_outputs = match y {
            Some(tags) => tags,
            None => {
                return Err(StateSpaceError::MissingArguments("outputs".to_owned()));
            },
        };
        let ghost whole = fem;
        select_fem_io(&mut fem, &dos_inputs, &dos_outputs);
        proof {
            lemma_restricted_selects(whole.inputs@, dos_inputs@);
            lemma_restricted_selects(whole.outputs@, dos_outputs@);
        }
        let forces_2_modes = match io2modes(&fem, &dos_inputs) {
            Ok(b) => b,
            Err(e) => {
                return Err(e);
            },
        };
        let fem_modes2io = match modes2io(&fem, &dos_outputs) {
            Ok(c) => c,
            Err(e) => {
                return Err(e);
            },
        };
        let n_modes = fem.n_modes();
        let ghost cols = selected(whole.inputs@, dos_inputs@);
        let ghost rows = Seq::new(
            n_modes as nat,
            |k: int| row_at(whole.inputs_to_modal_forces@, whole.columns(), k, cols),
        );
        proof {
            lemma_concat_uniform(rows, cols.len() as int);
            lemma_exact_div(cols.len() as int, n_modes as int);
            lemma_selected_within(whole.outputs@, dos_outputs@, whole.rows());
        }
        let n_inputs = forces_2_modes.len() / n_modes;
        let mut sizes: Vec<usize> = Vec::new();
        let mut i: usize = 0;
        while i < fem_modes2io.len()
            invariant
                i <= fem_modes2io.len(),
                fem_modes2io.len() == dos_outputs.len(),
                n_modes == whole.modes(),
                whole.wf(),
                fem.outputs@ == restricted(whole.outputs@, dos_outputs@),
                fem.modal_disp_to_outputs == whole.modal_disp_to_outputs,
                fem.eigen_frequencies == whole.eigen_frequencies,
                indices_by_tag(fem.outputs@, dos_outputs@) == indices_by_tag(
                    whole.outputs@,
                    dos_outputs@,
                ),
                forall|j: int|
                    0 <= j < dos_outputs.len() ==> within(
                        port_indices(whole.outputs@, #[trigger] dos_outputs[j]),
                        whole.rows(),
                    ),
                forall|j: int|
                    0 <= j < dos_outputs.len() ==> (#[trigger] fem_modes2io[j])@ == modes_to_nodes(
                        fem,
                        dos_outputs[j],
                    ),
                sizes@ == widths(whole.outputs@, dos_outputs@).take(i as int),
            decreases fem_modes2io.len() - i,
        {
            proof {
                let idx = port_indices(whole.outputs@, dos_outputs[i as int]);
                assert(indices_by_tag(fem.outputs@, dos_outputs@)[i as int] == indices_by_tag(
                    whole.outputs@,
                    dos_outputs@,
                )[i as int]);
                lemma_rows_at(whole.modal_disp_to_outputs@, n_modes as int, idx, whole.rows());
            }
            sizes.push(fem_modes2io[i].len() / n_modes);
            assert(widths(whole.outputs@, dos_outputs@).take(i + 1) == widths(
                whole.outputs@,
                dos_outputs@,
            ).take(i as int).push(sizes[i as int]));
            i += 1;
        }
        assert(widths(whole.outputs@, dos_outputs@).take(dos_outputs.len() as int) == widths(
            whole.outputs@,
            dos_outputs@,
        ));
        let nodes = flatten(&fem_modes2io);
        let ghost out = selected(whole.outputs@, dos_outputs@);
        let ghost c = whole.modal_disp_to_outputs@;
        proof {
            let lists = indices_by_tag(whole.outputs@, dos_outputs@);
            assert(views_of(fem_modes2io@) =~= Seq::new(
                lists.len(),
                |i: int| rows_at(c, n_modes as int, lists[i]),
            )) by {
                assert forall|i: int| 0 <= i < lists.len() implies views_of(fem_modes2io@)[i]
                    == rows_at(c, n_modes as int, lists[i]) by {
                    assert(indices_by_tag(fem.outputs@, dos_outputs@)[i] == lists[i]);
                    assert(fem_modes2io[i]@ == modes_to_nodes(fem, dos_outputs[i]));
                }
            }
            lemma_rows_at_concat(c, n_modes as int, lists);
            lemma_rows_at(c, n_modes as int, out, whole.rows());
        }
        let n_outputs = nodes.len() / n_modes;
        let modes_2_nodes = columns_of(n_outputs, n_modes, &nodes);
        let n_kept = match &max_eigen_frequency {
            Some(max_ef) => retained_modes(&fem.eigen_frequencies, max_ef),
            None => n_modes,
        };
        let mut modes: Vec<SecondOrder<T>> = Vec::new();
        let mut k: usize = 0;
        while k < n_kept
            invariant
                k <= n_kept <= n_modes,
                modes.len() == k,
                n_modes == whole.modes(),
                this.wf(),
                this.fem == Some(whole),
                this.u == Some(dos_inputs),
                this.y == Some(dos_outputs),
                this.zeta == zeta,
                this.eigen_frequencies == eigen_frequencies,
                fem.modal_disp_to_outputs == whole.modal_disp_to_outputs,
                fem.eigen_frequencies == whole.eigen_frequencies,
                fem.proportional_damping_vec == whole.proportional_damping_vec,
                out == selected(whole.outputs@, dos_outputs@),
                c == whole.modal_disp_to_outputs@,
                n_outputs == out.len(),
                modes_2_nodes.len() == n_modes * n_outputs,
                forall|i: int, j: int|
                    0 <= i < n_outputs && 0 <= j < n_modes ==> #[trigger] modes_2_nodes[j
                        * n_outputs + i] == column_at(c, n_modes as int, j, out)[i],
                cols == selected(whole.inputs@, dos_inputs@),
                rows == Seq::new(
                    n_modes as nat,
                    |k: int| row_at(whole.inputs_to_modal_forces@, whole.columns(), k, cols),
                ),
                forces_2_modes@ == concat(rows),
                forces_2_modes.len() == n_modes * cols.len(),
                n_inputs == cols.len(),
                forall|i: int, j: int|
                    0 <= i < rows.len() && 0 <= j < cols.len() ==> concat(rows)[i * cols.len() + j]
                        == #[trigger] rows[i][j],
                forall|j: int| 0 <= j < k ==> this.describes(#[trigger] modes[j], j),
            decreases n_kept - k,
        {
            proof {
                lemma_cell(k as int, 1, n_modes as int, n_inputs as int + 1);
                assert(k * n_inputs + n_inputs <= n_modes * n_inputs) by (nonlinear_arith)
                    requires
                        k < n_modes,
                        0 <= n_inputs,
                ;
                assert(0 <= k * n_inputs) by (nonlinear_arith)
                    requires
                        0 <= k,
                        0 <= n_inputs,
                ;
            }
            proof {
                lemma_cell(k as int, 1, n_modes as int, n_outputs as int + 1);
                assert(k * n_outputs + n_outputs <= n_modes * n_outputs) by (nonlinear_arith)
                    requires
                        k < n_modes,
                        0 <= n_outputs,
                ;
                assert(0 <= k * n_outputs) by (nonlinear_arith)
                    requires
                        0 <= k,
                        0 <= n_outputs,
                ;
            }
            let from = k * n_inputs;
            let b = slice_of(&forces_2_modes, from, from + n_inputs);
            let at = k * n_outputs;
            let column = slice_of(&modes_2_nodes, at, at + n_outputs);
            let eigen_frequency = match &eigen_frequencies {
                Some(o) => frequency_of(&fem.eigen_frequencies, o, k),
                None => fem.eigen_frequencies[k],
            };
            let zeta_k = match zeta {
                Some(z) => z,
                None => fem.proportional_damping_vec[k],
            };
            proof {
                let row = rows[k as int];
                assert forall|j: int| 0 <= j < row.len() implies b@[j] == row[j] by {
                    assert(concat(rows)[k * cols.len() + j] == rows[k as int][j]);
                }
                assert(b@ =~= input_row(whole, dos_inputs@, k as int));
                let want = output_column(whole, dos_outputs@, k as int);
                assert forall|i: int| 0 <= i < n_outputs implies column@[i] == want[i] by {
                    assert(modes_2_nodes[k * n_outputs + i] == column_at(
                        c,
                        n_modes as int,
                        k as int,
                        out,
                    )[i]);
                }
                assert(column@ =~= want);
            }
            modes.push(SecondOrder { eigen_frequency, zeta: zeta_k, b, c: column });
            k += 1;
        }
        Ok(
            ModalModel {
                sampling,
                modes,
                u_tags: dos_inputs,
                y_tags: dos_outputs,
                y_sizes: sizes,
                n_inputs,
            },
        )
    }
}

} // verus!
