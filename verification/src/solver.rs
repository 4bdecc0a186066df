//! The discrete modal solver: the retained modes, each advanced by one
//! sample at every step, between an input vector and an output vector.

use vstd::prelude::*;
use vstd::std_specs::ops::AddSpec;
use rayon::iter::{IntoParallelRefMutIterator, ParallelIterator};
use crate::error::DOSError;
use crate::io::{
    find_given, gives, given, lemma_missing, lemma_missing_same, missing, payload, same_values,
    supplied, tags_of, view_of, IO,
};
use crate::search::{first_where, lemma_first_where};
use crate::state_space::{DiscreteStateSpace, IOTags, ModalModel, SecondOrder, StateSpaceError};
use crate::tags::{are_distinct, distinct, occurs, position, Tag};
use crate::vectors::{
    append_to, concat, copy_of, filled, lemma_concat_push, lemma_sum_to_monotone, slice_of, sum,
    sum_to,
};

verus! {

/// One mode of the structure in discrete time.
///
/// What a mode computes is its own business: the library hands it what it
/// is built from and the input vector at each step, and takes what comes
/// back.
pub trait Solver<T>: Sized {
    /// The mode of eigenfrequency `eigen_frequency`, in Hz, and damping
    /// `zeta`, sampled at the rate `sampling`, in Hz, that the inputs drive
    /// through the weights `b` and that the outputs read through the
    /// weights `c`.
    fn from_second_order(sampling: T, eigen_frequency: T, zeta: T, b: Vec<T>, c: Vec<T>) -> Self;

    /// Advances the mode by one sample under the inputs `u`, and gives what
    /// the mode adds to each output.
    fn solve(&mut self, u: &Vec<T>) -> Vec<T>;

    /// Whether the state of the mode is made of finite numbers.
    fn is_finite(&self) -> bool;
}

/// The discrete modal state space of the structure.
#[derive(Debug)]
pub struct DiscreteModalSolver<T, M> {
    /// the inputs, the declared inputs one after the other
    pub u: Vec<T>,
    pub u_tags: Vec<Tag>,
    /// the outputs, the declared outputs one after the other
    pub y: Vec<T>,
    /// the width of each declared output
    pub y_sizes: Vec<usize>,
    pub y_tags: Vec<Tag>,
    /// the retained modes
    pub state_space: Vec<M>,
}

/// Whether `data` holds as many values as there are `tags`, each of them
/// under one of `tags`, and each carrying something.
pub open spec fn expected<T>(tags: Seq<Tag>, data: Seq<IO<Vec<T>>>) -> bool {
    &&& data.len() == tags.len()
    &&& forall|j: int|
        0 <= j < data.len() ==> occurs(tags, (#[trigger] data[j]).tag) && data[j].data is Some
}

/// Whether `data` is what a component that declares the inputs `tags`
/// takes: something for each declared input, and nothing else.
pub open spec fn accepted<T>(tags: Seq<Tag>, data: Seq<IO<Vec<T>>>) -> bool {
    missing(tags, data).len() == 0 && expected(tags, data)
}

/// What `data` carries under each of `tags`, in the order of `tags`.
pub open spec fn routed<T>(tags: Seq<Tag>, data: Seq<IO<Vec<T>>>) -> Seq<T> {
    concat(Seq::new(tags.len(), |i: int| payload(data, tags[i])))
}

/// The part of `y` that belongs to output `i`, where the outputs have the
/// widths `sizes`.
pub open spec fn chunk<T>(y: Seq<T>, sizes: Seq<usize>, i: int) -> Seq<T> {
    y.subrange(sum_to(sizes, i), sum_to(sizes, i + 1))
}

/// Whether `out` is `y` cut into parts of the widths `sizes`, each part
/// under the tag of its place in `tags`.
pub open spec fn sliced<T>(out: Seq<IO<Vec<T>>>, tags: Seq<Tag>, sizes: Seq<usize>, y: Seq<T>) -> bool {
    &&& out.len() == tags.len()
    &&& forall|i: int|
        0 <= i < tags.len() ==> (#[trigger] out[i]).tag == tags[i] && out[i].data is Some
            && out[i].data->0@ == chunk(y, sizes, i)
}

impl<T, M> DiscreteModalSolver<T, M> {
    /// Whether the solver hangs together: no name is declared twice as an
    /// input, each declared output has a width, and the outputs are as wide
    /// as the widths together.
    pub open spec fn wf(&self) -> bool {
        &&& distinct(self.u_tags@)
        &&& self.y_tags.len() == self.y_sizes.len()
        &&& sum(self.y_sizes@) == self.y.len()
    }
}

impl<T, M> DiscreteModalSolver<T, M> {
    /// Whether the solver hangs together.
    pub fn is_well_formed(&self) -> (r: bool)
        ensures
            r == self.wf(),
    {
        if !are_distinct(&self.u_tags) || self.y_tags.len() != self.y_sizes.len() {
            return false;
        }
        let mut n: usize = 0;
        let mut i: usize = 0;
        while i < self.y_sizes.len()
            invariant
                i <= self.y_sizes.len(),
                n == sum_to(self.y_sizes@, i as int),
                n <= self.y.len(),
                distinct(self.u_tags@),
                self.y_tags.len() == self.y_sizes.len(),
            decreases self.y_sizes.len() - i,
        {
            if self.y_sizes[i] > self.y.len() - n {
                proof {
                    lemma_sum_to_monotone(self.y_sizes@, i + 1, self.y_sizes.len() as int);
                }
                return false;
            }
            n = n + self.y_sizes[i];
            i += 1;
        }
        n == self.y.len()
    }
}

impl<T, M> IOTags for DiscreteModalSolver<T, M> {
    fn outputs_tags(&self) -> (tags: Vec<Tag>)
        ensures
            tags@ == self.y_tags@,
    {
        copy_of(&self.y_tags)
    }

    fn inputs_tags(&self) -> (tags: Vec<Tag>)
        ensures
            tags@ == self.u_tags@,
    {
        copy_of(&self.u_tags)
    }
}

impl<T: Copy, M> DiscreteModalSolver<T, M> {
    /// Routes each payload of `data` to the place of its name among the
    /// declared inputs, and lays the payloads in the input vector in the
    /// order in which the inputs are declared.
    ///
    /// `data` must hold one value for each declared input, each carrying
    /// something, and nothing else; otherwise the solver is left as it is,
    /// and the error holds the declared inputs for which `data` supplies
    /// nothing.
    pub fn inputs(&mut self, data: Vec<IO<Vec<T>>>) -> (r: Result<(), DOSError>)
        requires
            old(self).wf(),
        ensures
            final(self).wf(),
            accepted(old(self).u_tags@, data@) ==> r is Ok && final(self).u@ == routed(
                old(self).u_tags@,
                data@,
            ),
            !accepted(old(self).u_tags@, data@) ==> (r matches Err(DOSError::Inputs(m)) && m@
                == missing(old(self).u_tags@, data@) && final(self).u == old(self).u),
            final(self).u_tags == old(self).u_tags,
            final(self).y == old(self).y,
            final(self).y_sizes == old(self).y_sizes,
            final(self).y_tags == old(self).y_tags,
            final(self).state_space == old(self).state_space,
    {
        let ghost tags = self.u_tags@;
        let ghost parts = Seq::new(tags.len(), |i: int| payload(data@, tags[i]));
        let mut u: Vec<T> = Vec::new();
        let mut absent: Vec<Tag> = Vec::new();
        let mut i: usize = 0;
        while i < self.u_tags.len()
            invariant
                i <= self.u_tags.len(),
                tags == self.u_tags@,
                parts == Seq::new(tags.len(), |i: int| payload(data@, tags[i])),
                absent@ == missing(tags.take(i as int), data@),
                absent.len() == 0 ==> u@ == concat(parts.take(i as int)),
            decreases self.u_tags.len() - i,
        {
            let tag = self.u_tags[i];
            proof {
                assert(tags.take(i + 1).drop_last() == tags.take(i as int));
                lemma_concat_push(parts.take(i as int), parts[i as int]);
                assert(parts.take(i as int).push(parts[i as int]) == parts.take(i + 1));
            }
            match find_given(&data, tag) {
                Some(at) => {
                    match &data[at].data {
                        Some(values) => {
                            append_to(&mut u, values);
                        },
                        None => {},
                    }
                },
                None => {
                    absent.push(tag);
                },
            }
            i += 1;
        }
        proof {
            assert(tags.take(tags.len() as int) == tags);
            assert(parts.take(tags.len() as int) == parts);
        }
        let mut known = data.len() == self.u_tags.len();
        let mut j: usize = 0;
        while j < data.len()
            invariant
                j <= data.len(),
                tags == self.u_tags@,
                known == (data.len() == tags.len() && forall|k: int|
                    0 <= k < j ==> occurs(tags, (#[trigger] data[k]).tag) && data[k].data
                        is Some),
            decreases data.len() - j,
        {
            if position(&self.u_tags, data[j].tag).is_none() || data[j].data.is_none() {
                known = false;
            }
            j += 1;
        }
        if absent.len() > 0 || !known {
            return Err(DOSError::Inputs(absent));
        }
        self.u = u;
        Ok(())
    }

    /// The output vector cut into the declared outputs: one tagged value
    /// for each, in the order in which they are declared.
    pub fn outputs(&self) -> (r: Option<Vec<IO<Vec<T>>>>)
        requires
            self.wf(),
        ensures
            r is Some,
            sliced(r->0@, self.y_tags@, self.y_sizes@, self.y@),
    {
        let mut out: Vec<IO<Vec<T>>> = Vec::new();
        let mut pos: usize = 0;
        let mut i: usize = 0;
        while i < self.y_tags.len()
            invariant
                i <= self.y_tags.len(),
                self.wf(),
                pos == sum_to(self.y_sizes@, i as int),
                out.len() == i,
                forall|k: int|
                    0 <= k < i ==> (#[trigger] out[k]).tag == self.y_tags[k] && out[k].data is Some
                        && out[k].data->0@ == chunk(self.y@, self.y_sizes@, k),
            decreases self.y_tags.len() - i,
        {
            let n = self.y_sizes[i];
            proof {
                lemma_sum_to_monotone(self.y_sizes@, i + 1, self.y_sizes.len() as int);
            }
            let part = slice_of(&self.y, pos, pos + n);
            out.push(IO::with(self.y_tags[i], part));
            pos = pos + n;
            i += 1;
        }
        Some(out)
    }
}

/// Whether `z` is a zero of `T`: what `T` gives by default.
pub open spec fn is_zero<T: Default>(z: T) -> bool {
    call_ensures(T::default, (), z)
}

/// Whether any two scalars of type `T` can be added. This holds of numbers
/// that cannot overflow, floating point numbers among them; it does not
/// hold of the machine integers.
pub open spec fn adds_freely<T: core::ops::Add<Output = T>>() -> bool {
    forall|a: T, b: T| #[trigger] a.add_req(b)
}

/// A vector of `n` zeros.
pub fn zeros<T: Copy + Default>(n: usize) -> (r: Vec<T>)
    ensures
        r.len() == n,
        forall|i: int| 0 <= i < n ==> is_zero(#[trigger] r[i]),
        exists|zero: T| #[trigger] is_zero(zero) && forall|i: int| 0 <= i < n ==> r[i] == zero,
{
    let zero = T::default();
    assert(is_zero(zero));
    filled(zero, n)
}

/// Adds to each entry of `a` the entry of `b` at the same place, as far as
/// `b` reaches.
pub fn accumulate<T: Copy + core::ops::Add<Output = T>>(a: Vec<T>, b: &Vec<T>) -> (r: Vec<T>)
    requires
        adds_freely::<T>(),
    ensures
        r.len() == a.len(),
        forall|i: int| b.len() <= i < a.len() ==> r[i] == a[i],
        T::obeys_add_spec() ==> forall|i: int|
            0 <= i < a.len() && i < b.len() ==> r[i] == a[i].add_spec(b[i]),
{
    let mut r = a;
    let mut i: usize = 0;
    while i < r.len() && i < b.len()
        invariant
            r.len() == a.len(),
            i <= r.len(),
            i <= b.len(),
            adds_freely::<T>(),
            forall|j: int| i <= j < a.len() ==> r[j] == a[j],
            T::obeys_add_spec() ==> forall|j: int| 0 <= j < i ==> r[j] == a[j].add_spec(b[j]),
        decreases r.len() - i,
    {
        let x = r[i];
        let y = b[i];
        r.set(i, x + y);
        i += 1;
    }
    r
}

/// Advances `mode` by one sample under the inputs `u`, and adds what it
/// gives to `a`.
pub fn accumulate_mode<T: Copy + core::ops::Add<Output = T>, M: Solver<T>>(
    a: Vec<T>,
    mode: &mut M,
    u: &Vec<T>,
) -> (r: Vec<T>)
    requires
        adds_freely::<T>(),
    ensures
        r.len() == a.len(),
        exists|solver: &mut M, gave: Vec<T>|
            mut_ref_current(solver) == *old(mode) && mut_ref_future(solver) == *final(mode)
                && #[trigger] call_ensures(M::solve, (solver, u), gave) && accumulated(
                a@,
                gave@,
                r@,
            ),
{
    let y = mode.solve(u);
    accumulate(a, &y)
}

/// Advances every mode by one sample under the inputs `u`, the modes shared
/// out among the threads of `rayon`, and adds up what the modes give: calls
/// `par_iter_mut` on the modes, `fold` from a vector of `n` zeros with
/// `accumulate_mode`, and `reduce` from a vector of `n` zeros with
/// `accumulate`.
///
/// Claimed of the modes: there are as many as before, and each has been
/// handed to `accumulate_mode` once, so that `solve` has been called on
/// each of them once, with `u`; `par_iter_mut` gives each entry of the
/// vector once. Claimed of the sum: it has `n` entries, because every
/// accumulator starts with `n` entries and neither function changes the
/// length of its first argument. Its values are claimed only for scalars
/// whose sums do not depend on the order and the grouping in which they are
/// taken, and on how many zeros are added, neither of which `fold` and
/// `reduce` fix: there each entry is the sum of what the modes give at
/// that entry.
#[verifier::external_body]
fn fold_modes<T, M>(modes: &mut Vec<M>, u: &Vec<T>, n: usize) -> (y: Vec<T>) where
    T: Copy + Default + core::ops::Add<Output = T> + Send + Sync,
    M: Solver<T> + Send,

    requires
        adds_freely::<T>(),
    ensures
        y.len() == n,
        final(modes).len() == old(modes).len(),
        exists|gave: Seq<Vec<T>>, solvers: Seq<&mut M>|
            #![trigger sums_to(gave, y@), solvers.len()]
            gave.len() == old(modes).len()
                && solvers.len() == old(modes).len()
                && sums_to(gave, y@)
                && forall|k: int|
                0 <= k < old(modes).len() ==> {
                    &&& mut_ref_current(#[trigger] solvers[k]) == old(modes)[k]
                    &&& mut_ref_future(solvers[k]) == final(modes)[k]
                    &&& call_ensures(M::solve, (solvers[k], u), gave[k])
                },
{
    modes.par_iter_mut().fold(|| zeros(n), |a, m| accumulate_mode(a, m, u)).reduce(
        || zeros(n),
        |a, b| accumulate(a, &b),
    )
}

impl<T, M> DiscreteModalSolver<T, M> where
    T: Copy + Default + core::ops::Add<Output = T> + Send + Sync,
    M: Solver<T> + Send,
 {
    /// Advances every mode by one sample under the inputs, and replaces the
    /// outputs by the sum of what the modes give: `solve` is called on each
    /// mode once, with the inputs, and the outputs are as wide as before.
    /// Their values are stated for scalars whose sums do not depend on the
    /// order and the grouping in which they are taken; with no mode they are
    /// zeros. Gives nothing where a mode then reports a state that is not
    /// finite.
    pub fn next(&mut self) -> (r: Option<()>)
        requires
            adds_freely::<T>(),
        ensures
            reported(final(self).state_space@, r is Some),
            old(self).state_space.len() == 0 ==> forall|i: int|
                0 <= i < final(self).y.len() ==> is_zero(#[trigger] final(self).y[i]),
            final(self).y.len() == old(self).y.len(),
            final(self).state_space.len() == old(self).state_space.len(),
            final(self).u == old(self).u,
            final(self).u_tags == old(self).u_tags,
            final(self).y_sizes == old(self).y_sizes,
            final(self).y_tags == old(self).y_tags,
            exists|gave: Seq<Vec<T>>, solvers: Seq<&mut M>|
                #![trigger sums_to(gave, final(self).y@), solvers.len()]
                gave.len() == old(self).state_space.len()
                    && solvers.len() == old(self).state_space.len()
                    && sums_to(gave, final(self).y@)
                    && forall|k: int|
                    0 <= k < old(self).state_space.len() ==> {
                        &&& mut_ref_current(#[trigger] solvers[k]) == old(self).state_space[k]
                        &&& mut_ref_future(solvers[k]) == final(self).state_space[k]
                        &&& call_ensures(M::solve, (solvers[k], &old(self).u), gave[k])
                    },
    {
        let n = self.y.len();
        if self.state_space.len() == 0 {
            self.y = zeros(n);
            proof {
                let gave = Seq::<Vec<T>>::empty();
                let solvers = Seq::<&mut M>::empty();
                assert(sums_to(gave, self.y@));
                assert(solvers.len() == 0);
            }
        } else {
            self.y = fold_modes(&mut self.state_space, &self.u, n);
        }
        if all_finite(&self.state_space) {
            Some(())
        } else {
            None
        }
    }

    /// Advances the solver by one sample, as [`Self::next`] does; fails with
    /// `NumericOverflow` where a mode then reports a state that is not
    /// finite.
    pub fn step(&mut self) -> (r: Result<(), DOSError>)
        requires
            adds_freely::<T>(),
        ensures
            reported(final(self).state_space@, r is Ok),
            r is Err ==> r->Err_0 == DOSError::NumericOverflow,
            old(self).state_space.len() == 0 ==> forall|i: int|
                0 <= i < final(self).y.len() ==> is_zero(#[trigger] final(self).y[i]),
            final(self).y.len() == old(self).y.len(),
            final(self).state_space.len() == old(self).state_space.len(),
            final(self).u == old(self).u,
            final(self).u_tags == old(self).u_tags,
            final(self).y_sizes == old(self).y_sizes,
            final(self).y_tags == old(self).y_tags,
            exists|gave: Seq<Vec<T>>, solvers: Seq<&mut M>|
                #![trigger sums_to(gave, final(self).y@), solvers.len()]
                gave.len() == old(self).state_space.len()
                    && solvers.len() == old(self).state_space.len()
                    && sums_to(gave, final(self).y@)
                    && forall|k: int|
                    0 <= k < old(self).state_space.len() ==> {
                        &&& mut_ref_current(#[trigger] solvers[k]) == old(self).state_space[k]
                        &&& mut_ref_future(solvers[k]) == final(self).state_space[k]
                        &&& call_ensures(M::solve, (solvers[k], &old(self).u), gave[k])
                    },
    {
        match self.next() {
            Some(_) => Ok(()),
            None => Err(DOSError::NumericOverflow),
        }
    }

    /// Hands the inputs over, advances the solver by one sample, and gives
    /// the outputs: [`Self::inputs`], then [`Self::step`], then
    /// [`Self::outputs`], and nothing else.
    ///
    /// Where the inputs are not accepted the solver is left as it is; where
    /// a mode reports a state that is not finite after the step, the step
    /// has been made and no outputs are given.
    pub fn in_step_out(&mut self, data: Vec<IO<Vec<T>>>) -> (r: Result<
        Option<Vec<IO<Vec<T>>>>,
        DOSError,
    >)
        requires
            old(self).wf(),
            adds_freely::<T>(),
        ensures
            accepted(old(self).u_tags@, data@) ==> final(self).u@ == routed(
                old(self).u_tags@,
                data@,
            ),
            accepted(old(self).u_tags@, data@) ==> reported(final(self).state_space@, r is Ok),
            accepted(old(self).u_tags@, data@) && r is Ok ==> (r matches Ok(Some(out)) && sliced(
                out@,
                old(self).y_tags@,
                old(self).y_sizes@,
                final(self).y@,
            )),
            accepted(old(self).u_tags@, data@) && r is Err ==> r->Err_0
                == DOSError::NumericOverflow,
            accepted(old(self).u_tags@, data@) ==> exists|
                gave: Seq<Vec<T>>,
                solvers: Seq<&mut M>,
            |
                #![trigger sums_to(gave, final(self).y@), solvers.len()]
                gave.len() == old(self).state_space.len()
                    && solvers.len() == old(self).state_space.len()
                    && sums_to(gave, final(self).y@)
                    && forall|k: int|
                    0 <= k < old(self).state_space.len() ==> {
                        &&& mut_ref_current(#[trigger] solvers[k]) == old(self).state_space[k]
                        &&& mut_ref_future(solvers[k]) == final(self).state_space[k]
                        &&& call_ensures(M::solve, (solvers[k], &final(self).u), gave[k])
                    },
            !accepted(old(self).u_tags@, data@) ==> (r matches Err(DOSError::Inputs(m)) && m@
                == missing(old(self).u_tags@, data@) && *final(self) == *old(self)),
            final(self).wf(),
            final(self).y.len() == old(self).y.len(),
            final(self).state_space.len() == old(self).state_space.len(),
            final(self).u_tags == old(self).u_tags,
            final(self).y_sizes == old(self).y_sizes,
            final(self).y_tags == old(self).y_tags,
    {
        match self.inputs(data) {
            Ok(_) => {},
            Err(e) => {
                return Err(e);
            },
        }
        match self.step() {
            Ok(_) => {},
            Err(e) => {
                return Err(e);
            },
        }
        Ok(self.outputs())
    }
}

/// The widths laid out as zeros: a vector of as many zeros as the widths
/// come to.
pub fn zeros_of<T: Copy + Default>(sizes: &Vec<usize>) -> (r: Vec<T>)
    ensures
        r.len() == sum(sizes@),
        forall|i: int| 0 <= i < r.len() ==> is_zero(#[trigger] r[i]),
{
    let mut r: Vec<T> = Vec::new();
    let mut i: usize = 0;
    while i < sizes.len()
        invariant
            i <= sizes.len(),
            r.len() == sum_to(sizes@, i as int),
            forall|j: int| 0 <= j < r.len() ==> is_zero(#[trigger] r[j]),
        decreases sizes.len() - i,
    {
        let part: Vec<T> = zeros(sizes[i]);
        append_to(&mut r, &part);
        i += 1;
    }
    r
}

/// Whether `discrete` is what the solver `M` makes of the mode `mode`
/// sampled at the rate `sampling`: what its constructor may give when it is
/// handed the sampling rate, the eigenfrequency, the damping and copies of
/// the weights of the mode.
pub open spec fn made_of<T, M: Solver<T>>(discrete: M, sampling: T, mode: SecondOrder<T>) -> bool {
    exists|b: Vec<T>, c: Vec<T>|
        b@ == mode.b@ && c@ == mode.c@ && #[trigger] call_ensures(
            M::from_second_order,
            (sampling, mode.eigen_frequency, mode.zeta, b, c),
            discrete,
        )
}

impl<T: Copy + Default> ModalModel<T> {
    /// The discrete solver of the model: one discrete mode for each mode of
    /// the model, made of what the model says of that mode, between an input
    /// vector and an output vector of zeros.
    pub fn discretize<M: Solver<T>>(self) -> (r: DiscreteModalSolver<T, M>)
        requires
            distinct(self.u_tags@),
            self.y_tags.len() == self.y_sizes.len(),
        ensures
            r.wf(),
            r.u_tags == self.u_tags,
            r.y_tags == self.y_tags,
            r.y_sizes == self.y_sizes,
            r.u.len() == self.n_inputs,
            r.y.len() == sum(self.y_sizes@),
            forall|i: int| 0 <= i < r.u.len() ==> is_zero(#[trigger] r.u[i]),
            forall|i: int| 0 <= i < r.y.len() ==> is_zero(#[trigger] r.y[i]),
            r.state_space.len() == self.modes.len(),
            forall|k: int|
                0 <= k < self.modes.len() ==> made_of(
                    #[trigger] r.state_space[k],
                    self.sampling,
                    self.modes[k],
                ),
    {
        let mut state_space: Vec<M> = Vec::new();
        let mut k: usize = 0;
        while k < self.modes.len()
            invariant
                k <= self.modes.len(),
                state_space.len() == k,
                forall|j: int|
                    0 <= j < k ==> made_of(#[trigger] state_space[j], self.sampling, self.modes[j]),
            decreases self.modes.len() - k,
        {
            let mode = &self.modes[k];
            let b = copy_of(&mode.b);
            let c = copy_of(&mode.c);
            let discrete = M::from_second_order(
                self.sampling,
                mode.eigen_frequency,
                mode.zeta,
                b,
                c,
            );
            state_space.push(discrete);
            k += 1;
        }
        let u: Vec<T> = zeros(self.n_inputs);
        let y: Vec<T> = zeros_of(&self.y_sizes);
        DiscreteModalSolver {
            u,
            u_tags: self.u_tags,
            y,
            y_sizes: self.y_sizes,
            y_tags: self.y_tags,
            state_space,
        }
    }
}

impl<T: PartialOrd> DiscreteStateSpace<T> {
    /// Whether `discrete` is what the solver `M` makes of mode `k` of what
    /// the builder describes.
    pub open spec fn makes<M: Solver<T>>(&self, discrete: M, k: int) -> bool {
        exists|mode: SecondOrder<T>| #[trigger]
            self.describes(mode, k) && made_of(discrete, self.sampling->0, mode)
    }
}

impl<T: 'static + Copy + Default + PartialOrd + core::fmt::Debug> DiscreteStateSpace<T> {
    /// Builds the discrete solver: reduces the model as [`Self::reduce`]
    /// does, and makes each retained mode discrete.
    ///
    /// The input vector is as wide as the declared inputs together, the
    /// output vector as wide as the declared outputs together, and both
    /// hold zeros.
    pub fn build<M: Solver<T>>(self) -> (r: Result<DiscreteModalSolver<T, M>, StateSpaceError>)
        requires
            self.wf(),
        ensures
            r is Ok == self.complete(),
            r is Err ==> self.fails_with(r->Err_0),
            r is Ok ==> {
                let solver = r->Ok_0;
                let fem = self.fem->0;
                &&& solver.wf()
                &&& solver.u_tags@ == self.u->0@
                &&& solver.y_tags@ == self.y->0@
                &&& solver.y_sizes@ == crate::state_space::widths(fem.outputs@, self.y->0@)
                &&& solver.u.len() == crate::vectors::total_len(
                    crate::fem::indices_by_tag(fem.inputs@, self.u->0@),
                )
                &&& solver.y.len() == sum(solver.y_sizes@)
                &&& forall|i: int| 0 <= i < solver.u.len() ==> is_zero(#[trigger] solver.u[i])
                &&& forall|i: int| 0 <= i < solver.y.len() ==> is_zero(#[trigger] solver.y[i])
                &&& self.retains(solver.state_space.len() as int)
                &&& forall|k: int|
                    0 <= k < solver.state_space.len() ==> self.makes(
                        #[trigger] solver.state_space[k],
                        k,
                    )
            },
    {
        proof {
            if self.fem is Some && self.u is Some {
                crate::vectors::lemma_concat_len(
                    crate::fem::indices_by_tag(self.fem->0.inputs@, self.u->0@),
                );
            }
        }
        match self.reduce() {
            Ok(model) => {
                let solver: DiscreteModalSolver<T, M> = model.discretize();
                proof {
                    assert forall|k: int| 0 <= k < solver.state_space.len() implies self.makes(
                        #[trigger] solver.state_space[k],
                        k,
                    ) by {
                        assert(self.describes(model.modes[k], k));
                        assert(made_of(solver.state_space[k], self.sampling->0, model.modes[k]));
                    }
                }
                Ok(solver)
            },
            Err(e) => Err(e),
        }
    }
}

/// The widths of the parts.
pub open spec fn lens<T>(parts: Seq<Seq<T>>) -> Seq<usize> {
    Seq::new(parts.len(), |i: int| parts[i].len() as usize)
}

/// The first `i` parts are as long together as the first `i` widths come to.
pub proof fn lemma_sum_of_lens<T>(parts: Seq<Seq<T>>, i: int)
    requires
        0 <= i <= parts.len(),
        forall|k: int| 0 <= k < parts.len() ==> (#[trigger] parts[k]).len() <= usize::MAX,
    ensures
        sum_to(lens(parts), i) == concat(parts.take(i)).len(),
    decreases i,
{
    if i > 0 {
        lemma_sum_of_lens(parts, i - 1);
        lemma_concat_push(parts.take(i - 1), parts[i - 1]);
        assert(parts.take(i - 1).push(parts[i - 1]) == parts.take(i));
    }
}

/// Cutting a concatenation at the widths of its parts gives the parts back:
/// what is routed into a vector in the declared order comes out of it, cut
/// at the declared widths, at the place of its name.
pub proof fn lemma_chunk_of_concat<T>(parts: Seq<Seq<T>>, i: int)
    requires
        0 <= i < parts.len(),
        forall|k: int| 0 <= k < parts.len() ==> (#[trigger] parts[k]).len() <= usize::MAX,
    ensures
        chunk(concat(parts), lens(parts), i) == parts[i],
{
    lemma_sum_of_lens(parts, i);
    lemma_sum_of_lens(parts, i + 1);
    lemma_concat_push(parts.take(i), parts[i]);
    lemma_concat_prefix(parts, i + 1);
    assert(concat(parts).subrange(0, concat(parts.take(i + 1)).len() as int) == concat(
        parts.take(i + 1),
    ));
    let whole = concat(parts);
    let from = concat(parts.take(i)).len() as int;
    let to = concat(parts.take(i + 1)).len() as int;
    assert forall|k: int| 0 <= k < parts[i].len() implies whole[from + k] == parts[i][k] by {
        assert(whole.subrange(0, to)[from + k] == whole[from + k]);
    }
}

/// The first parts laid end to end are the beginning of all the parts laid
/// end to end.
pub proof fn lemma_concat_prefix<T>(parts: Seq<Seq<T>>, i: int)
    requires
        0 <= i <= parts.len(),
    ensures
        concat(parts.take(i)).len() <= concat(parts).len(),
        concat(parts).subrange(0, concat(parts.take(i)).len() as int) == concat(parts.take(i)),
    decreases parts.len() - i,
{
    if i == parts.len() {
        assert(parts.take(i) == parts);
    } else {
        lemma_concat_prefix(parts, i + 1);
        lemma_concat_push(parts.take(i), parts[i]);
        assert(parts.take(i).push(parts[i]) == parts.take(i + 1));
        assert(concat(parts).subrange(0, concat(parts.take(i)).len() as int) =~= concat(
            parts.take(i + 1),
        ).subrange(0, concat(parts.take(i)).len() as int));
        assert(concat(parts.take(i + 1)).subrange(0, concat(parts.take(i)).len() as int)
            =~= concat(parts.take(i)));
    }
}

/// What one list of tagged values supplies, another list that holds the
/// same values supplies too, where no name stands twice in the second list.
pub proof fn lemma_same_values_supply<T>(a: Seq<IO<Vec<T>>>, b: Seq<IO<Vec<T>>>, tag: Tag)
    requires
        a.to_multiset() == b.to_multiset(),
        distinct(tags_of(b)),
        supplied(a, tag),
    ensures
        supplied(b, tag),
        given(b, tag) == given(a, tag),
{
    lemma_first_where(a, gives(tag));
    lemma_first_where(b, gives(tag));
    let fa = first_where(a, gives(tag));
    let x = a[fa];
    vstd::seq_lib::to_multiset_contains(a, x);
    vstd::seq_lib::to_multiset_contains(b, x);
    let j = choose|j: int| 0 <= j < b.len() && b[j] == x;
    assert(gives::<Vec<T>>(tag)(b[j]));
    let fb = first_where(b, gives(tag));
    if fb != j {
        assert(tags_of(b)[fb] == tags_of(b)[j]);
    }
}

/// The order in which the tagged inputs are handed over does not matter:
/// two lists that hold the same tagged values, each name at most once, are
/// accepted or not together, miss the same declared inputs, and are routed
/// to the same input vector.
pub proof fn lemma_routing_ignores_order<T>(
    tags: Seq<Tag>,
    a: Seq<IO<Vec<T>>>,
    b: Seq<IO<Vec<T>>>,
)
    requires
        a.to_multiset() == b.to_multiset(),
        distinct(tags_of(a)),
        distinct(tags_of(b)),
    ensures
        missing(tags, a) == missing(tags, b),
        accepted(tags, a) == accepted(tags, b),
        accepted(tags, a) ==> routed(tags, a) == routed(tags, b),
{
    vstd::seq_lib::to_multiset_len(a);
    vstd::seq_lib::to_multiset_len(b);
    assert forall|tag: Tag| supplied(a, tag) == supplied(b, tag) by {
        if supplied(a, tag) {
            lemma_same_values_supply(a, b, tag);
        }
        if supplied(b, tag) {
            lemma_same_values_supply(b, a, tag);
        }
    }
    lemma_missing_same(tags, a, b);
    assert(expected(tags, a) == expected(tags, b)) by {
        if expected(tags, a) {
            assert forall|j: int| 0 <= j < b.len() implies occurs(tags, (#[trigger] b[j]).tag)
                && b[j].data is Some by {
                vstd::seq_lib::to_multiset_contains(a, b[j]);
                vstd::seq_lib::to_multiset_contains(b, b[j]);
                let i = choose|i: int| 0 <= i < a.len() && a[i] == b[j];
                assert(occurs(tags, a[i].tag) && a[i].data is Some);
            }
        }
        if expected(tags, b) {
            assert forall|j: int| 0 <= j < a.len() implies occurs(tags, (#[trigger] a[j]).tag)
                && a[j].data is Some by {
                vstd::seq_lib::to_multiset_contains(a, a[j]);
                vstd::seq_lib::to_multiset_contains(b, a[j]);
                let i = choose|i: int| 0 <= i < b.len() && b[i] == a[j];
                assert(occurs(tags, b[i].tag) && b[i].data is Some);
            }
        }
    }
    if accepted(tags, a) {
        lemma_missing(tags, a);
        assert forall|i: int| 0 <= i < tags.len() implies payload(a, tags[i]) == payload(
            b,
            tags[i],
        ) by {
            lemma_same_values_supply(a, b, tags[i]);
        }
        assert(Seq::new(tags.len(), |i: int| payload(a, tags[i])) =~= Seq::new(
            tags.len(),
            |i: int| payload(b, tags[i]),
        ));
    }
}

/// Whether `r` is `a` with the entries of `b` added to its entries at the
/// same places, as far as `b` reaches.
pub open spec fn accumulated<T: core::ops::Add<Output = T>>(a: Seq<T>, b: Seq<T>, r: Seq<T>) -> bool {
    &&& r.len() == a.len()
    &&& forall|i: int| b.len() <= i < a.len() ==> r[i] == a[i]
    &&& T::obeys_add_spec() ==> forall|i: int|
        0 <= i < a.len() && i < b.len() ==> r[i] == a[i].add_spec(b[i])
}

/// Whether the sums of scalars of type `T` are those of numbers: adding at
/// run time gives the sum, the sum of three scalars does not depend on how
/// they are grouped nor that of two on their order, and adding a zero
/// changes nothing.
pub open spec fn adds_as_numbers<T: Default + core::ops::Add<Output = T>>() -> bool {
    &&& T::obeys_add_spec()
    &&& forall|a: T, b: T, c: T| #[trigger] a.add_spec(b).add_spec(c) == a.add_spec(b.add_spec(c))
    &&& forall|a: T, b: T| #[trigger] a.add_spec(b) == b.add_spec(a)
    &&& forall|z: T, a: T| is_zero(z) ==> #[trigger] z.add_spec(a) == a
}

/// Entry `i` of the sum, from `zero` on, of what the first `k` modes gave:
/// each mode adds its entry `i`, if it gave that many entries.
pub open spec fn sum_at<T: core::ops::Add<Output = T>>(
    zero: T,
    gave: Seq<Vec<T>>,
    k: int,
    i: int,
) -> T
    decreases k,
{
    if k <= 0 {
        zero
    } else if i < gave[k - 1].len() {
        sum_at(zero, gave, k - 1, i).add_spec(gave[k - 1][i])
    } else {
        sum_at(zero, gave, k - 1, i)
    }
}

/// Whether `y` is, entry by entry, the sum from zero on of what the modes
/// gave; this is said only of scalars whose sums are those of numbers.
pub open spec fn sums_to<T: Default + core::ops::Add<Output = T>>(
    gave: Seq<Vec<T>>,
    y: Seq<T>,
) -> bool {
    adds_as_numbers::<T>() ==> exists|zero: T| #[trigger]
        is_zero(zero) && forall|i: int|
            0 <= i < y.len() ==> #[trigger] y[i] == sum_at(zero, gave, gave.len() as int, i)
}

/// The outputs can be cut in one way only: two lists of tagged values cut
/// from the same outputs at the same widths, under the same tags, hold the
/// same values. So what a step gives together with the inputs is what the
/// solver gives when asked for its outputs after that step.
pub proof fn lemma_one_cut<T>(
    a: Seq<IO<Vec<T>>>,
    b: Seq<IO<Vec<T>>>,
    tags: Seq<Tag>,
    sizes: Seq<usize>,
    y: Seq<T>,
)
    requires
        sliced(a, tags, sizes, y),
        sliced(b, tags, sizes, y),
    ensures
        same_values(a, b),
{
    assert forall|i: int| 0 <= i < a.len() implies (#[trigger] b[i]).tag == a[i].tag
        && view_of(b[i]) == view_of(a[i]) by {
        assert(a[i].data->0@ == chunk(y, sizes, i));
        assert(b[i].data->0@ == chunk(y, sizes, i));
    }
}

/// Scalars whose sums are those of numbers have one zero.
pub proof fn lemma_one_zero<T: Default + core::ops::Add<Output = T>>(a: T, b: T)
    requires
        adds_as_numbers::<T>(),
        is_zero(a),
        is_zero(b),
    ensures
        a == b,
{
    assert(a.add_spec(b) == b);
    assert(b.add_spec(a) == a);
    assert(a.add_spec(b) == b.add_spec(a));
}

/// The sum of what the first `k` modes gave is the same for two lists of
/// modes that agree on these.
pub proof fn lemma_sum_at_of_the_first<T: core::ops::Add<Output = T>>(
    zero: T,
    a: Seq<Vec<T>>,
    b: Seq<Vec<T>>,
    k: int,
    i: int,
)
    requires
        k <= a.len(),
        k <= b.len(),
        forall|j: int| 0 <= j < k ==> a[j] == b[j],
    ensures
        sum_at(zero, a, k, i) == sum_at(zero, b, k, i),
    decreases k,
{
    if k > 0 {
        lemma_sum_at_of_the_first(zero, a, b, k - 1, i);
    }
}

/// The sum of what the first `k` modes gave is the sum of what the first
/// `n` of them gave and of what the others gave.
pub proof fn lemma_sum_at_splits<T: Default + core::ops::Add<Output = T>>(
    zero: T,
    gave: Seq<Vec<T>>,
    n: int,
    k: int,
    i: int,
)
    requires
        adds_as_numbers::<T>(),
        is_zero(zero),
        0 <= n <= k <= gave.len(),
    ensures
        sum_at(zero, gave, k, i) == sum_at(zero, gave, n, i).add_spec(
            sum_at(zero, gave.skip(n), k - n, i),
        ),
    decreases k - n,
{
    let first = sum_at(zero, gave, n, i);
    if k == n {
        assert(first.add_spec(zero) == zero.add_spec(first));
    } else {
        lemma_sum_at_splits(zero, gave, n, k - 1, i);
        let others = sum_at(zero, gave.skip(n), k - 1 - n, i);
        assert(gave.skip(n)[k - 1 - n] == gave[k - 1]);
        if i < gave[k - 1].len() {
            assert(first.add_spec(others).add_spec(gave[k - 1][i]) == first.add_spec(
                others.add_spec(gave[k - 1][i]),
            ));
        }
    }
}

/// Dropping modes takes from the outputs what the dropped modes give, and
/// nothing else: where the modes kept are the first `n` and give what they
/// give among all the modes, each output of all the modes is the output of
/// the modes kept with the sum of what the others give added to it.
pub proof fn lemma_dropped_modes_take_their_part<T: Default + core::ops::Add<Output = T>>(
    gave: Seq<Vec<T>>,
    n: int,
    all: Seq<T>,
    kept: Seq<T>,
)
    requires
        adds_as_numbers::<T>(),
        0 <= n <= gave.len(),
        sums_to(gave, all),
        sums_to(gave.take(n), kept),
        kept.len() == all.len(),
    ensures
        exists|zero: T| #[trigger]
            is_zero(zero) && forall|i: int|
                0 <= i < all.len() ==> #[trigger] all[i] == kept[i].add_spec(
                    sum_at(zero, gave.skip(n), gave.len() - n, i),
                ),
{
    let zero = choose|zero: T| #[trigger]
        is_zero(zero) && forall|i: int|
            0 <= i < all.len() ==> #[trigger] all[i] == sum_at(zero, gave, gave.len() as int, i);
    let other = choose|other: T| #[trigger]
        is_zero(other) && forall|i: int|
            0 <= i < kept.len() ==> #[trigger] kept[i] == sum_at(
                other,
                gave.take(n),
                gave.take(n).len() as int,
                i,
            );
    lemma_one_zero(zero, other);
    assert forall|i: int| 0 <= i < all.len() implies #[trigger] all[i] == kept[i].add_spec(
        sum_at(zero, gave.skip(n), gave.len() - n, i),
    ) by {
        assert(kept[i] == sum_at(zero, gave.take(n), n, i));
        lemma_sum_at_of_the_first(zero, gave.take(n), gave, n, i);
        lemma_sum_at_splits(zero, gave, n, gave.len() as int, i);
    }
}

/// Modes that give zeros leave the outputs at zero.
pub proof fn lemma_zeros_sum_to_zeros<T: Default + core::ops::Add<Output = T>>(
    gave: Seq<Vec<T>>,
    y: Seq<T>,
)
    requires
        adds_as_numbers::<T>(),
        sums_to(gave, y),
        forall|k: int, i: int|
            0 <= k < gave.len() && 0 <= i < gave[k].len() ==> is_zero(#[trigger] gave[k][i]),
    ensures
        forall|i: int| 0 <= i < y.len() ==> is_zero(#[trigger] y[i]),
{
    let zero = choose|zero: T| #[trigger]
        is_zero(zero) && forall|i: int|
            0 <= i < y.len() ==> #[trigger] y[i] == sum_at(zero, gave, gave.len() as int, i);
    assert forall|i: int| 0 <= i < y.len() implies is_zero(#[trigger] y[i]) by {
        lemma_sum_at_of_zeros(zero, gave, gave.len() as int, i);
    }
}

/// The sum of zeros is the zero.
pub proof fn lemma_sum_at_of_zeros<T: Default + core::ops::Add<Output = T>>(
    zero: T,
    gave: Seq<Vec<T>>,
    k: int,
    i: int,
)
    requires
        adds_as_numbers::<T>(),
        is_zero(zero),
        0 <= i,
        k <= gave.len(),
        forall|j: int, i: int|
            0 <= j < gave.len() && 0 <= i < gave[j].len() ==> is_zero(#[trigger] gave[j][i]),
    ensures
        sum_at(zero, gave, k, i) == zero,
    decreases k,
{
    if k > 0 {
        lemma_sum_at_of_zeros(zero, gave, k - 1, i);
        if i < gave[k - 1].len() {
            lemma_one_zero(zero, gave[k - 1][i]);
            assert(zero.add_spec(zero) == zero);
        }
    }
}

/// Whether `all` says that every mode reports a finite state: each mode
/// has been asked once, and `all` holds exactly where none has reported a
/// state that is not finite.
pub open spec fn reported<T, M: Solver<T>>(modes: Seq<M>, all: bool) -> bool {
    exists|reports: Seq<bool>| #[trigger]
        reports.len() == modes.len() && (forall|k: int|
            0 <= k < modes.len() ==> call_ensures(
                M::is_finite,
                (&modes[k],),
                #[trigger] reports[k],
            )) && all == (forall|k: int| 0 <= k < reports.len() ==> #[trigger] reports[k])
}

/// Whether every mode reports a finite state.
pub fn all_finite<T, M: Solver<T>>(modes: &Vec<M>) -> (all: bool)
    ensures
        reported(modes@, all),
{
    let mut all = true;
    let ghost mut reports = Seq::<bool>::empty();
    let mut k: usize = 0;
    while k < modes.len()
        invariant
            k <= modes.len(),
            reports.len() == k,
            forall|j: int|
                0 <= j < k ==> call_ensures(M::is_finite, (&modes[j],), #[trigger] reports[j]),
            all == (forall|j: int| 0 <= j < k ==> #[trigger] reports[j]),
        decreases modes.len() - k,
    {
        let finite = modes[k].is_finite();
        proof {
            let before = reports;
            reports = reports.push(finite);
            assert forall|j: int| 0 <= j < k + 1 implies call_ensures(
                M::is_finite,
                (&modes[j],),
                #[trigger] reports[j],
            ) by {
                if j < k {
                    assert(reports[j] == before[j]);
                }
            }
            if all && finite {
                assert forall|j: int| 0 <= j < k + 1 implies #[trigger] reports[j] by {
                    if j < k {
                        assert(before[j]);
                    }
                }
            } else if !finite {
                assert(!reports[k as int]);
            } else {
                let j = choose|j: int| 0 <= j < k && !before[j];
                assert(!reports[j]);
            }
        }
        if !finite {
            all = false;
        }
        k += 1;
    }
    all
}

} // verus!
