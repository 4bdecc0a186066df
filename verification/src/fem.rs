//! The modal description of the finite element model.

use vstd::prelude::*;
use crate::io::IO;
use crate::search::{any_where, first_where, lemma_first_where_is, lemma_none_where};
use crate::tags::{occurs, position, Tag};
use crate::vectors::{append_to, concat};

verus! {

/// One element of a port: the columns, or rows, that it occupies in a
/// participation matrix, counted from 1, and whether it is in use.
#[derive(Debug)]
pub struct PortElement {
    pub on: bool,
    pub indices: Vec<u32>,
}

/// A named group of columns of the input matrix, or of rows of the output
/// matrix.
#[derive(Debug)]
pub struct FemPort {
    pub tag: Tag,
    pub elements: Vec<PortElement>,
}

/// The modal model of the structure.
///
/// `inputs_to_modal_forces` holds, row by row, one row for each mode and one
/// column for each input of the model. `modal_disp_to_outputs` holds, row by
/// row, one row for each output of the model and one column for each mode.
#[derive(Debug)]
pub struct FEM<T> {
    /// the eigenfrequency of each mode, in Hz
    pub eigen_frequencies: Vec<T>,
    /// the damping coefficient of each mode
    pub proportional_damping_vec: Vec<T>,
    pub inputs_to_modal_forces: Vec<T>,
    pub modal_disp_to_outputs: Vec<T>,
    pub inputs: Vec<Option<FemPort>>,
    pub outputs: Vec<Option<FemPort>>,
}

/// The indices of the elements that are in use, element after element.
pub open spec fn on_indices(elements: Seq<PortElement>) -> Seq<u32>
    decreases elements.len(),
{
    if elements.len() == 0 {
        Seq::empty()
    } else {
        on_indices(elements.drop_last()) + (if elements.last().on {
            elements.last().indices@
        } else {
            Seq::empty()
        })
    }
}

/// Whether each of `indices` is at least 1 and at most `n`.
pub open spec fn within(indices: Seq<u32>, n: int) -> bool {
    forall|i: int| 0 <= i < indices.len() ==> 1 <= #[trigger] indices[i] <= n
}

/// The condition of being a port named `tag`.
pub open spec fn is_port(tag: Tag) -> spec_fn(Option<FemPort>) -> bool {
    |p: Option<FemPort>| p is Some && p->0.tag == tag
}

/// Whether a port named `tag` stands in `ports`.
pub open spec fn has_port(ports: Seq<Option<FemPort>>, tag: Tag) -> bool {
    any_where(ports, is_port(tag))
}

/// The indices in use of the first port named `tag`.
pub open spec fn port_indices(ports: Seq<Option<FemPort>>, tag: Tag) -> Seq<u32> {
    on_indices(ports[first_where(ports, is_port(tag))]->0.elements@)
}

/// Whether every one of `tags` names a port of `ports`.
pub open spec fn all_matched(ports: Seq<Option<FemPort>>, tags: Seq<Tag>) -> bool {
    forall|i: int| 0 <= i < tags.len() ==> has_port(ports, #[trigger] tags[i])
}

/// The first of `tags` that names no port of `ports`.
pub open spec fn first_unmatched(ports: Seq<Option<FemPort>>, tags: Seq<Tag>) -> Tag {
    tags[first_where(tags, |t: Tag| !has_port(ports, t))]
}

/// For each of `tags`, the indices in use of the port that it names.
pub open spec fn indices_by_tag(ports: Seq<Option<FemPort>>, tags: Seq<Tag>) -> Seq<Seq<u32>> {
    Seq::new(tags.len(), |i: int| port_indices(ports, tags[i]))
}

/// The indices in use of the ports that `tags` name, tag after tag.
pub open spec fn selected(ports: Seq<Option<FemPort>>, tags: Seq<Tag>) -> Seq<u32> {
    concat(indices_by_tag(ports, tags))
}

/// Whether the indices in use of every port lie between 1 and `n`.
pub open spec fn ports_within(ports: Seq<Option<FemPort>>, n: int) -> bool {
    forall|k: int|
        0 <= k < ports.len() && (#[trigger] ports[k]) is Some ==> within(
            on_indices(ports[k]->0.elements@),
            n,
        )
}

/// The ports of `ports` that one of `tags` names; `None` in place of the others.
pub open spec fn restricted(ports: Seq<Option<FemPort>>, tags: Seq<Tag>) -> Seq<Option<FemPort>> {
    Seq::new(
        ports.len(),
        |k: int|
            if ports[k] is Some && occurs(tags, ports[k]->0.tag) {
                ports[k]
            } else {
                None
            },
    )
}

impl PortElement {
    /// An element in use that occupies `indices`.
    pub fn on(indices: Vec<u32>) -> (e: Self)
        ensures
            e.on,
            e.indices == indices,
    {
        PortElement { on: true, indices }
    }

    /// An element out of use that occupies `indices`.
    pub fn off(indices: Vec<u32>) -> (e: Self)
        ensures
            !e.on,
            e.indices == indices,
    {
        PortElement { on: false, indices }
    }
}

impl FemPort {
    /// The port named `tag` made of `elements`.
    pub fn new(tag: Tag, elements: Vec<PortElement>) -> (p: Self)
        ensures
            p.tag == tag,
            p.elements == elements,
    {
        FemPort { tag, elements }
    }

    /// The indices of the elements in use, element after element.
    pub fn indices(&self) -> (r: Vec<u32>)
        ensures
            r@ == on_indices(self.elements@),
    {
        let mut r: Vec<u32> = Vec::new();
        let mut k: usize = 0;
        while k < self.elements.len()
            invariant
                k <= self.elements.len(),
                r@ == on_indices(self.elements@.take(k as int)),
            decreases self.elements.len() - k,
        {
            assert(self.elements@.take(k + 1).drop_last() == self.elements@.take(k as int));
            if self.elements[k].on {
                append_to(&mut r, &self.elements[k].indices);
            }
            k += 1;
        }
        assert(self.elements@.take(self.elements.len() as int) == self.elements@);
        r
    }
}

/// The indices in use of the first port of `ports` named `tag`, if there is one.
pub fn find_port(ports: &Vec<Option<FemPort>>, tag: Tag) -> (r: Option<Vec<u32>>)
    ensures
        r is Some == has_port(ports@, tag),
        r is Some ==> r->0@ == port_indices(ports@, tag),
{
    let mut k: usize = 0;
    while k < ports.len()
        invariant
            k <= ports.len(),
            forall|j: int| 0 <= j < k ==> !is_port(tag)(#[trigger] ports[j]),
        decreases ports.len() - k,
    {
        match &ports[k] {
            Some(port) => {
                if port.tag == tag {
                    proof {
                        lemma_first_where_is(ports@, is_port(tag), k as int);
                    }
                    return Some(port.indices());
                }
            },
            None => {},
        }
        k += 1;
    }
    proof {
        lemma_none_where(ports@, is_port(tag));
    }
    None
}

/// Matching a tagged value, or a tag, with a port of the model: they match
/// where the names are equal, and what comes back is the port's indices in
/// use.
pub trait MatchFEM {
    /// The name that is held against the port's.
    spec fn name(&self) -> Tag;

    fn match_fem_inputs(&self, fem_inputs: &FemPort) -> (r: Option<Vec<u32>>)
        ensures
            r is Some == (self.name() == fem_inputs.tag),
            r is Some ==> r->0@ == on_indices(fem_inputs.elements@),
    ;

    fn match_fem_outputs(&self, fem_outputs: &FemPort) -> (r: Option<Vec<u32>>)
        ensures
            r is Some == (self.name() == fem_outputs.tag),
            r is Some ==> r->0@ == on_indices(fem_outputs.elements@),
    ;
}

impl MatchFEM for Tag {
    open spec fn name(&self) -> Tag {
        *self
    }

    fn match_fem_inputs(&self, fem_inputs: &FemPort) -> (r: Option<Vec<u32>>) {
        if *self == fem_inputs.tag {
            Some(fem_inputs.indices())
        } else {
            None
        }
    }

    fn match_fem_outputs(&self, fem_outputs: &FemPort) -> (r: Option<Vec<u32>>) {
        if *self == fem_outputs.tag {
            Some(fem_outputs.indices())
        } else {
            None
        }
    }
}

impl<T> MatchFEM for IO<T> {
    open spec fn name(&self) -> Tag {
        self.tag
    }

    fn match_fem_inputs(&self, fem_inputs: &FemPort) -> (r: Option<Vec<u32>>) {
        self.tag.match_fem_inputs(fem_inputs)
    }

    fn match_fem_outputs(&self, fem_outputs: &FemPort) -> (r: Option<Vec<u32>>) {
        self.tag.match_fem_outputs(fem_outputs)
    }
}

/// Puts `None` in each place of `ports` that `id` does not hold.
fn keep_ports(ports: &mut Vec<Option<FemPort>>, id: &Vec<usize>)
    ensures
        final(ports).len() == old(ports).len(),
        forall|k: int|
            0 <= k < old(ports).len() ==> #[trigger] final(ports)[k] == (if id@.contains(
                k as usize,
            ) {
                old(ports)[k]
            } else {
                None
            }),
{
    let mut k: usize = 0;
    while k < ports.len()
        invariant
            k <= ports.len(),
            ports.len() == old(ports).len(),
            forall|j: int|
                0 <= j < k ==> #[trigger] ports[j] == (if id@.contains(j as usize) {
                    old(ports)[j]
                } else {
                    None
                }),
            forall|j: int| k <= j < ports.len() ==> #[trigger] ports[j] == old(ports)[j],
        decreases ports.len() - k,
    {
        let mut held = false;
        let mut i: usize = 0;
        while i < id.len()
            invariant
                i <= id.len(),
                held == exists|j: int| 0 <= j < i && id[j] == k,
            decreases id.len() - i,
        {
            if id[i] == k {
                held = true;
            }
            i += 1;
        }
        assert(held == id@.contains(k)) by {
            if held {
                let j = choose|j: int| 0 <= j < id.len() && id[j] == k;
                assert(id@[j] == k);
            }
        }
        if !held {
            ports.set(k, None);
        }
        k += 1;
    }
}

/// The places of `ports` that hold a port named by one of `tags`, in order.
pub(crate) fn matched_places(ports: &Vec<Option<FemPort>>, tags: &Vec<Tag>) -> (id: Vec<usize>)
    ensures
        forall|k: int|
            0 <= k < ports.len() ==> (id@.contains(k as usize) <==> (#[trigger] ports[k]) is Some
                && occurs(tags@, ports[k]->0.tag)),
{
    let mut id: Vec<usize> = Vec::new();
    let mut k: usize = 0;
    while k < ports.len()
        invariant
            k <= ports.len(),
            forall|j: int|
                0 <= j < k ==> (id@.contains(j as usize) <==> (#[trigger] ports[j]) is Some
                    && occurs(tags@, ports[j]->0.tag)),
            forall|i: int| 0 <= i < id.len() ==> id[i] < k,
        decreases ports.len() - k,
    {
        let ghost before = id@;
        let named = match &ports[k] {
            Some(port) => position(tags, port.tag).is_some(),
            None => false,
        };
        if named {
            id.push(k);
            assert(id@[id.len() - 1] == k);
        }
        assert forall|j: int| 0 <= j < k + 1 implies (id@.contains(j as usize) <==> (
        #[trigger] ports[j]) is Some && occurs(tags@, ports[j]->0.tag)) by {
            if j < k {
                if before.contains(j as usize) {
                    let i = choose|i: int| 0 <= i < before.len() && before[i] == j as usize;
                    assert(id@[i] == j as usize);
                }
                if id@.contains(j as usize) {
                    let i = choose|i: int| 0 <= i < id.len() && id[i] == j as usize;
                    assert(before[i] == j as usize);
                }
            } else {
                if id@.contains(k) {
                    let i = choose|i: int| 0 <= i < id.len() && id[i] == k;
                    assert(i == id.len() - 1);
                }
            }
        }
        k += 1;
    }
    id
}

impl<T> FEM<T> {
    /// The number of modes.
    pub open spec fn modes(&self) -> int {
        self.eigen_frequencies.len() as int
    }

    /// The number of columns of the input matrix.
    pub open spec fn columns(&self) -> int {
        self.inputs_to_modal_forces.len() as int / self.modes()
    }

    /// The number of rows of the output matrix.
    pub open spec fn rows(&self) -> int {
        self.modal_disp_to_outputs.len() as int / self.modes()
    }

    /// Whether the model hangs together: it has a mode, a damping
    /// coefficient for each mode, matrices of whole rows, and ports whose
    /// indices in use lie within the matrices.
    pub open spec fn wf(&self) -> bool {
        &&& self.modes() > 0
        &&& self.proportional_damping_vec.len() == self.modes()
        &&& self.inputs_to_modal_forces.len() == self.modes() * self.columns()
        &&& self.modal_disp_to_outputs.len() == self.rows() * self.modes()
        &&& ports_within(self.inputs@, self.columns())
        &&& ports_within(self.outputs@, self.rows())
    }

    /// The number of modes.
    pub fn n_modes(&self) -> (n: usize)
        ensures
            n == self.modes(),
    {
        self.eigen_frequencies.len()
    }

    /// Keeps the input ports whose places `id` holds, and drops the others.
    pub fn keep_inputs(&mut self, id: &Vec<usize>)
        ensures
            final(self).inputs.len() == old(self).inputs.len(),
            forall|k: int|
                0 <= k < old(self).inputs.len() ==> #[trigger] final(self).inputs[k] == (
                if id@.contains(k as usize) {
                    old(self).inputs[k]
                } else {
                    None
                }),
            final(self).outputs == old(self).outputs,
            final(self).eigen_frequencies == old(self).eigen_frequencies,
            final(self).proportional_damping_vec == old(self).proportional_damping_vec,
            final(self).inputs_to_modal_forces == old(self).inputs_to_modal_forces,
            final(self).modal_disp_to_outputs == old(self).modal_disp_to_outputs,
    {
        keep_ports(&mut self.inputs, id);
    }

    /// Keeps the output ports whose places `id` holds, and drops the others.
    pub fn keep_outputs(&mut self, id: &Vec<usize>)
        ensures
            final(self).outputs.len() == old(self).outputs.len(),
            forall|k: int|
                0 <= k < old(self).outputs.len() ==> #[trigger] final(self).outputs[k] == (
                if id@.contains(k as usize) {
                    old(self).outputs[k]
                } else {
                    None
                }),
            final(self).inputs == old(self).inputs,
            final(self).eigen_frequencies == old(self).eigen_frequencies,
            final(self).proportional_damping_vec == old(self).proportional_damping_vec,
            final(self).inputs_to_modal_forces == old(self).inputs_to_modal_forces,
            final(self).modal_disp_to_outputs == old(self).modal_disp_to_outputs,
    {
        keep_ports(&mut self.outputs, id);
    }
}

/// Whether each of `indices` is at least 1 and at most `n`.
pub fn are_within(indices: &Vec<u32>, n: usize) -> (r: bool)
    ensures
        r == within(indices@, n as int),
{
    let mut i: usize = 0;
    while i < indices.len()
        invariant
            i <= indices.len(),
            forall|j: int| 0 <= j < i ==> 1 <= #[trigger] indices[j] <= n,
        decreases indices.len() - i,
    {
        if indices[i] < 1 || indices[i] as usize > n {
            return false;
        }
        i += 1;
    }
    true
}

/// Whether the indices in use of every port lie between 1 and `n`.
pub fn are_ports_within(ports: &Vec<Option<FemPort>>, n: usize) -> (r: bool)
    ensures
        r == ports_within(ports@, n as int),
{
    let mut k: usize = 0;
    while k < ports.len()
        invariant
            k <= ports.len(),
            forall|j: int|
                0 <= j < k && (#[trigger] ports[j]) is Some ==> within(
                    on_indices(ports[j]->0.elements@),
                    n as int,
                ),
        decreases ports.len() - k,
    {
        match &ports[k] {
            Some(port) => {
                let indices = port.indices();
                if !are_within(&indices, n) {
                    return false;
                }
            },
            None => {},
        }
        k += 1;
    }
    true
}

impl<T> FEM<T> {
    /// Whether the model hangs together.
    pub fn is_well_formed(&self) -> (r: bool)
        ensures
            r == self.wf(),
    {
        let n_modes = self.eigen_frequencies.len();
        if n_modes == 0 || self.proportional_damping_vec.len() != n_modes {
            return false;
        }
        let columns = self.inputs_to_modal_forces.len() / n_modes;
        let rows = self.modal_disp_to_outputs.len() / n_modes;
        if self.inputs_to_modal_forces.len() % n_modes != 0 || self.modal_disp_to_outputs.len()
            % n_modes != 0 {
            proof {
                if self.inputs_to_modal_forces.len() % n_modes != 0 {
                    vstd::arithmetic::div_mod::lemma_fundamental_div_mod(
                        self.inputs_to_modal_forces.len() as int,
                        n_modes as int,
                    );
                } else {
                    vstd::arithmetic::div_mod::lemma_fundamental_div_mod(
                        self.modal_disp_to_outputs.len() as int,
                        n_modes as int,
                    );
                    assert(rows * n_modes == n_modes * rows) by (nonlinear_arith);
                }
            }
            return false;
        }
        proof {
            vstd::arithmetic::div_mod::lemma_fundamental_div_mod(
                self.inputs_to_modal_forces.len() as int,
                n_modes as int,
            );
            vstd::arithmetic::div_mod::lemma_fundamental_div_mod(
                self.modal_disp_to_outputs.len() as int,
                n_modes as int,
            );
        }
        are_ports_within(&self.inputs, columns) && are_ports_within(&self.outputs, rows)
    }
}

} // verus!
