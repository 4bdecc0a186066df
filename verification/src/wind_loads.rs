//! The wind loads: the time series of the forces and moments that the wind
//! applies at different places of the structure.

use vstd::prelude::*;
use crate::io::{same_values, view_of, IOError, IO};
use crate::search::{any_where, first_where, lemma_first_where_is, lemma_none_where};
use crate::state_space::IOTags;
use crate::tags::Tag;
use crate::vectors::copy_of;

verus! {

/// What may go wrong with the wind loads.
#[derive(Clone, Copy, Debug, PartialEq, Eq, Structural)]
pub enum WindLoadsError {
    /// There is no wind load, or no sample of it.
    EmptyWindLoads,
    /// A wind load carries nothing.
    Outputs(IOError),
}

/// The wind load at one place of the structure: one vector of forces and
/// moments for each sample.
#[derive(Debug)]
pub struct Loads<T> {
    pub tag: Tag,
    pub samples: Vec<Vec<T>>,
}

/// The vectors of a time series.
pub open spec fn deep<T>(samples: Seq<Vec<T>>) -> Seq<Seq<T>> {
    Seq::new(samples.len(), |i: int| samples[i]@)
}

/// A copy of the first `n` vectors of `samples`.
pub fn first_samples<T: Copy>(samples: &Vec<Vec<T>>, n: usize) -> (r: Vec<Vec<T>>)
    requires
        n <= samples.len(),
    ensures
        deep(r@) == deep(samples@).take(n as int),
{
    let mut r: Vec<Vec<T>> = Vec::new();
    let mut i: usize = 0;
    while i < n
        invariant
            i <= n <= samples.len(),
            r.len() == i,
            deep(r@) == deep(samples@).take(i as int),
        decreases n - i,
    {
        let ghost before = r@;
        r.push(copy_of(&samples[i]));
        assert forall|j: int| 0 <= j < i + 1 implies deep(r@)[j] == deep(samples@).take(i + 1)[j] by {
            if j < i {
                assert(deep(before)[j] == deep(samples@).take(i as int)[j]);
            }
        }
        i += 1;
    }
    r
}

impl<T> Loads<T> {
    /// The number of samples.
    pub fn len(&self) -> (n: usize)
        ensures
            n == self.samples.len(),
    {
        self.samples.len()
    }

    /// The time series.
    pub fn io(self) -> (samples: Vec<Vec<T>>)
        ensures
            samples == self.samples,
    {
        self.samples
    }
}

/// Matching a tagged value, or a tag, with a wind load: they match where the
/// names are equal, and what comes back is the time series of the load.
pub trait MatchWindLoads {
    /// The name that is held against the load's.
    spec fn load_name(&self) -> Tag;

    /// The whole time series.
    fn data<T: Copy>(&self, wind_loads: &Loads<T>) -> (r: Option<Vec<Vec<T>>>)
        ensures
            r is Some == (self.load_name() == wind_loads.tag),
            r is Some ==> deep(r->0@) == deep(wind_loads.samples@),
    ;

    /// The first `n` samples of the time series.
    fn ndata<T: Copy>(&self, wind_loads: &Loads<T>, n: usize) -> (r: Option<Vec<Vec<T>>>)
        requires
            n <= wind_loads.samples.len(),
        ensures
            r is Some == (self.load_name() == wind_loads.tag),
            r is Some ==> deep(r->0@) == deep(wind_loads.samples@).take(n as int),
    ;
}

impl MatchWindLoads for Tag {
    open spec fn load_name(&self) -> Tag {
        *self
    }

    fn data<T: Copy>(&self, wind_loads: &Loads<T>) -> (r: Option<Vec<Vec<T>>>) {
        if *self == wind_loads.tag {
            let r = first_samples(&wind_loads.samples, wind_loads.samples.len());
            assert(deep(wind_loads.samples@).take(wind_loads.samples.len() as int) == deep(
                wind_loads.samples@,
            ));
            Some(r)
        } else {
            None
        }
    }

    fn ndata<T: Copy>(&self, wind_loads: &Loads<T>, n: usize) -> (r: Option<Vec<Vec<T>>>) {
        if *self == wind_loads.tag {
            Some(first_samples(&wind_loads.samples, n))
        } else {
            None
        }
    }
}

impl<U> MatchWindLoads for IO<U> {
    open spec fn load_name(&self) -> Tag {
        self.tag
    }

    fn data<T: Copy>(&self, wind_loads: &Loads<T>) -> (r: Option<Vec<Vec<T>>>) {
        self.tag.data(wind_loads)
    }

    fn ndata<T: Copy>(&self, wind_loads: &Loads<T>, n: usize) -> (r: Option<Vec<Vec<T>>>) {
        self.tag.ndata(wind_loads, n)
    }
}

/// The wind loads as they are read, and the builder of the wind loading.
#[derive(Debug)]
pub struct WindLoads<T> {
    /// the time series of the forces and moments
    pub loads: Vec<Option<Loads<T>>>,
    /// the time of each sample
    pub time: Vec<T>,
    /// how many samples to take; all of them where nothing is said
    pub n_sample: Option<usize>,
    /// the loads selected so far, each under the name of the input it drives
    pub tagged_loads: Vec<IO<Vec<Vec<T>>>>,
}

/// The wind loading: the selected loads, given sample after sample.
#[derive(Debug)]
pub struct WindLoading<T> {
    pub loads: Vec<IO<Vec<Vec<T>>>>,
    pub n_sample: usize,
    /// the number of samples given so far
    pub tick: usize,
}

/// The condition of being a load present.
pub open spec fn is_present<T>() -> spec_fn(Option<Loads<T>>) -> bool {
    |l: Option<Loads<T>>| l is Some
}

/// The condition of being the load named `tag`.
pub open spec fn is_load<T>(tag: Tag) -> spec_fn(Option<Loads<T>>) -> bool {
    |l: Option<Loads<T>>| l is Some && l->0.tag == tag
}

/// Whether there is a load named `tag` among `loads`.
pub open spec fn has_load<T>(loads: Seq<Option<Loads<T>>>, tag: Tag) -> bool {
    any_where(loads, is_load(tag))
}

/// The time series of the first load named `tag` among `loads`.
pub open spec fn load_samples<T>(loads: Seq<Option<Loads<T>>>, tag: Tag) -> Seq<Seq<T>> {
    deep(loads[first_where(loads, is_load(tag))]->0.samples@)
}

/// A load under each name, as selected: the name under which it is put, and
/// the name of the load.
pub struct Selection {
    pub put: Tag,
    pub load: Tag,
}

impl<T> WindLoads<T> {
    /// The wind loads as read: nothing selected, all the samples.
    pub fn new(loads: Vec<Option<Loads<T>>>, time: Vec<T>) -> (r: Self)
        ensures
            r.loads == loads,
            r.time == time,
            r.n_sample is None,
            r.tagged_loads@.len() == 0,
    {
        WindLoads { loads, time, n_sample: None, tagged_loads: Vec::new() }
    }

    /// The number of samples of the first load present.
    pub open spec fn samples(&self) -> int {
        self.loads[first_where(self.loads@, is_present())]->0.samples.len() as int
    }

    /// Whether there is a load.
    pub open spec fn any_load(&self) -> bool {
        any_where(self.loads@, is_present())
    }

    /// Whether the loads hang together: all the loads present have as many
    /// samples, each load selected holds as many, and no more samples are
    /// asked for than there are.
    pub open spec fn wf(&self) -> bool {
        &&& forall|k: int|
            0 <= k < self.loads.len() && (#[trigger] self.loads[k]) is Some
                ==> self.loads[k]->0.samples.len() == self.samples()
        &&& forall|i: int|
            0 <= i < self.tagged_loads.len() ==> (#[trigger] self.tagged_loads[i]).data is Some
                && self.tagged_loads[i].data->0.len() == self.samples()
        &&& self.tagged_loads.len() > 0 ==> self.any_load()
        &&& self.n_sample is Some ==> self.any_load() && self.n_sample->0 <= self.samples()
    }

    /// How many samples are taken of each load.
    pub open spec fn taken(&self) -> int {
        match self.n_sample {
            Some(n) => n as int,
            None => self.samples(),
        }
    }

    /// The samples of the load named `tag`, all of them.
    pub open spec fn carried(&self, tag: Tag) -> Seq<Seq<T>> {
        load_samples(self.loads@, tag)
    }

    /// Whether `after` is `self` with the loads of `selections` selected
    /// after those that were selected before, and nothing else changed.
    pub open spec fn selected(&self, after: Self, selections: Seq<Selection>) -> bool {
        &&& after.loads == self.loads
        &&& after.time == self.time
        &&& after.n_sample == self.n_sample
        &&& after.tagged_loads@.len() == self.tagged_loads@.len() + selections.len()
        &&& after.tagged_loads@.take(self.tagged_loads@.len() as int) == self.tagged_loads@
        &&& forall|i: int|
            0 <= i < selections.len() ==> {
                let io = #[trigger] after.tagged_loads@[self.tagged_loads@.len() + i];
                &&& io.tag == selections[i].put
                &&& io.data is Some
                &&& deep(io.data->0@) == self.carried(selections[i].load)
            }
    }

    /// Whether there is a load for each of `selections`.
    pub open spec fn available(&self, selections: Seq<Selection>) -> bool {
        forall|i: int|
            0 <= i < selections.len() ==> has_load(self.loads@, (#[trigger] selections[i]).load)
    }

    /// The number of samples of the time series: that of the first load
    /// present.
    pub fn len(&self) -> (r: Result<usize, WindLoadsError>)
        ensures
            r is Ok == self.any_load(),
            r is Ok ==> r->Ok_0 == self.samples(),
            r is Err ==> r->Err_0 == WindLoadsError::EmptyWindLoads,
    {
        let mut k: usize = 0;
        while k < self.loads.len()
            invariant
                k <= self.loads.len(),
                forall|j: int| 0 <= j < k ==> !is_present::<T>()(#[trigger] self.loads[j]),
            decreases self.loads.len() - k,
        {
            match &self.loads[k] {
                Some(load) => {
                    proof {
                        lemma_first_where_is(self.loads@, is_present(), k as int);
                    }
                    return Ok(load.len());
                },
                None => {},
            }
            k += 1;
        }
        proof {
            lemma_none_where(self.loads@, is_present());
        }
        Err(WindLoadsError::EmptyWindLoads)
    }

    /// Whether all the loads present have as many samples, and no more
    /// samples are asked for than there are.
    pub fn is_well_formed(&self) -> (r: bool)
        ensures
            r == self.wf(),
    {
        let n = match self.len() {
            Ok(n) => n,
            Err(_) => {
                proof {
                    crate::search::lemma_first_where(self.loads@, is_present::<T>());
                    assert forall|k: int| 0 <= k < self.loads.len() implies !(
                    #[trigger] self.loads[k] is Some) by {
                        if self.loads[k] is Some {
                            assert(is_present::<T>()(self.loads[k]));
                        }
                    }
                }
                return self.n_sample.is_none() && self.tagged_loads.len() == 0;
            },
        };
        let mut k: usize = 0;
        while k < self.loads.len()
            invariant
                k <= self.loads.len(),
                n == self.samples(),
                forall|j: int|
                    0 <= j < k && (#[trigger] self.loads[j]) is Some
                        ==> self.loads[j]->0.samples.len() == n,
            decreases self.loads.len() - k,
        {
            match &self.loads[k] {
                Some(load) => {
                    if load.len() != n {
                        return false;
                    }
                },
                None => {},
            }
            k += 1;
        }
        let mut i: usize = 0;
        while i < self.tagged_loads.len()
            invariant
                i <= self.tagged_loads.len(),
                n == self.samples(),
                forall|j: int|
                    0 <= j < self.loads.len() && (#[trigger] self.loads[j]) is Some
                        ==> self.loads[j]->0.samples.len() == n,
                forall|j: int|
                    0 <= j < i ==> (#[trigger] self.tagged_loads[j]).data is Some
                        && self.tagged_loads[j].data->0.len() == n,
            decreases self.tagged_loads.len() - i,
        {
            match &self.tagged_loads[i].data {
                Some(samples) => {
                    if samples.len() != n {
                        return false;
                    }
                },
                None => {
                    return false;
                },
            }
            i += 1;
        }
        match self.n_sample {
            Some(m) => m <= n,
            None => true,
        }
    }
}

/// The selection of the load named `load` under the name `put`.
pub open spec fn one(put: Tag, load: Tag) -> Seq<Selection> {
    seq![Selection { put, load }]
}

/// All the loads, each under its own name.
pub open spec fn all_loads() -> Seq<Selection> {
    one(Tag::OSSTopEnd6F, Tag::OSSTopEnd6F) + one(Tag::MCM2Lcl6F, Tag::MCM2Lcl6F) + one(
        Tag::OSSTruss6F,
        Tag::OSSTruss6F,
    ) + one(Tag::OSSM1Lcl6F, Tag::OSSM1Lcl6F) + one(Tag::OSSCellLcl6F, Tag::OSSCellLcl6F) + one(
        Tag::OSSGIR6F,
        Tag::OSSGIR6F,
    ) + one(Tag::OSSCRING6F, Tag::OSSCRING6F)
}

/// All the loads, those of the top end and of the secondary mirror segments
/// under the names of the inputs of the adaptive secondary mirror.
pub open spec fn all_loads_with_asm() -> Seq<Selection> {
    one(Tag::MCM2TE6F, Tag::OSSTopEnd6F) + one(Tag::MCM2RB6F, Tag::MCM2Lcl6F) + one(
        Tag::OSSTruss6F,
        Tag::OSSTruss6F,
    ) + one(Tag::OSSM1Lcl6F, Tag::OSSM1Lcl6F) + one(Tag::OSSCellLcl6F, Tag::OSSCellLcl6F) + one(
        Tag::OSSGIR6F,
        Tag::OSSGIR6F,
    ) + one(Tag::OSSCRING6F, Tag::OSSCRING6F)
}

/// Selecting some loads and then some more selects them all, in that order.
pub proof fn lemma_selected_then<T>(
    before: WindLoads<T>,
    between: WindLoads<T>,
    after: WindLoads<T>,
    first: Seq<Selection>,
    then: Seq<Selection>,
)
    requires
        before.selected(between, first),
        between.selected(after, then),
    ensures
        before.selected(after, first + then),
{
    let n = before.tagged_loads@.len() as int;
    let m = between.tagged_loads@.len() as int;
    assert(after.tagged_loads@.take(n) =~= between.tagged_loads@.take(n));
    assert forall|i: int| 0 <= i < (first + then).len() implies {
        let io = #[trigger] after.tagged_loads@[n + i];
        &&& io.tag == (first + then)[i].put
        &&& io.data is Some
        &&& deep(io.data->0@) == before.carried((first + then)[i].load)
    } by {
        if i < first.len() {
            assert(after.tagged_loads@[n + i] == after.tagged_loads@.take(m)[n + i]);
        } else {
            assert(after.tagged_loads@[n + i] == after.tagged_loads@[m + (i - first.len())]);
        }
    }
}

/// There is a load for each of two lists of selections exactly where there
/// is one for each of the two lists laid end to end.
pub proof fn lemma_available_then<T>(loads: WindLoads<T>, first: Seq<Selection>, then: Seq<Selection>)
    ensures
        loads.available(first + then) == (loads.available(first) && loads.available(then)),
{
    let both = first + then;
    if loads.available(both) {
        assert forall|i: int| 0 <= i < first.len() implies has_load(
            loads.loads@,
            (#[trigger] first[i]).load,
        ) by {
            assert(both[i] == first[i]);
        }
        assert forall|i: int| 0 <= i < then.len() implies has_load(
            loads.loads@,
            (#[trigger] then[i]).load,
        ) by {
            assert(both[first.len() + i] == then[i]);
        }
    }
    if loads.available(first) && loads.available(then) {
        assert forall|i: int| 0 <= i < both.len() implies has_load(
            loads.loads@,
            (#[trigger] both[i]).load,
        ) by {
            if i < first.len() {
                assert(both[i] == first[i]);
            } else {
                assert(both[i] == then[i - first.len()]);
            }
        }
    }
}

impl<T: Copy> WindLoads<T> {
    /// The first load named `io`, if there is one.
    fn load_named(&self, io: Tag) -> (r: Option<&Loads<T>>)
        ensures
            r is Some == has_load(self.loads@, io),
            r is Some ==> r->0.tag == io && deep(r->0.samples@) == self.carried(io)
                && self.loads@[first_where(self.loads@, is_load::<T>(io))] == Some(*r->0),
    {
        let mut k: usize = 0;
        while k < self.loads.len()
            invariant
                k <= self.loads.len(),
                forall|j: int| 0 <= j < k ==> !is_load::<T>(io)(#[trigger] self.loads[j]),
            decreases self.loads.len() - k,
        {
            match &self.loads[k] {
                Some(load) => {
                    if load.tag == io {
                        proof {
                            lemma_first_where_is(self.loads@, is_load(io), k as int);
                        }
                        return Some(load);
                    }
                },
                None => {},
            }
            k += 1;
        }
        proof {
            lemma_none_where(self.loads@, is_load(io));
        }
        None
    }

    /// The samples taken of the load named `io`: all of them, or as many as
    /// were asked for; fails where there is no such load.
    pub fn tagged_load(&self, io: Tag) -> (r: Result<Option<Vec<Vec<T>>>, WindLoadsError>)
        requires
            self.wf(),
        ensures
            r is Ok == has_load(self.loads@, io),
            r is Ok ==> r->Ok_0 is Some && deep(r->Ok_0->0@) == self.carried(io).take(
                self.taken(),
            ),
            r is Err ==> r->Err_0 == WindLoadsError::EmptyWindLoads,
    {
        match self.load_named(io) {
            Some(load) => {
                proof {
                    crate::search::lemma_first_where(self.loads@, is_load::<T>(io));
                    let k = first_where(self.loads@, is_load::<T>(io));
                    assert(self.loads[k] is Some);
                    assert(self.loads[k]->0.samples.len() == self.samples());
                    assert(deep(load.samples@).len() == load.samples.len());
                }
                let found = match self.n_sample {
                    Some(n) => io.ndata(load, n),
                    None => io.data(load),
                };
                proof {
                    assert(deep(load.samples@).take(load.samples.len() as int) == deep(
                        load.samples@,
                    ));
                }
                Ok(found)
            },
            None => Err(WindLoadsError::EmptyWindLoads),
        }
    }

    /// Takes no more than the first `n_sample` samples of each load.
    pub fn n_sample(self, n_sample: usize) -> (r: Result<Self, WindLoadsError>)
        requires
            self.wf(),
            n_sample > 0,
            self.any_load() ==> n_sample <= self.samples(),
        ensures
            r is Ok == self.any_load(),
            r is Ok ==> r->Ok_0 == (WindLoads { n_sample: Some(n_sample), ..self })
                && r->Ok_0.wf(),
            r is Err ==> r->Err_0 == WindLoadsError::EmptyWindLoads,
    {
        let n = match self.len() {
            Ok(n) => n,
            Err(e) => {
                return Err(e);
            },
        };
        Ok(WindLoads { n_sample: Some(if n_sample <= n { n_sample } else { n }), ..self })
    }

    /// Selects the load named `load` under the name `put`.
    fn select(self, put: Tag, load: Tag) -> (r: Result<Self, WindLoadsError>)
        requires
            self.wf(),
        ensures
            r is Ok == has_load(self.loads@, load),
            r is Ok ==> self.selected(r->Ok_0, one(put, load)) && r->Ok_0.wf(),
            r is Err ==> r->Err_0 == WindLoadsError::EmptyWindLoads,
    {
        let data = match self.load_named(load) {
            Some(found) => load.data(found),
            None => {
                return Err(WindLoadsError::EmptyWindLoads);
            },
        };
        let ghost before = self;
        let mut after = self;
        after.tagged_loads.push(IO { tag: put, data });
        proof {
            assert(after.tagged_loads@.take(before.tagged_loads@.len() as int)
                =~= before.tagged_loads@);
            crate::search::lemma_first_where(before.loads@, is_load::<T>(load));
            assert(before.loads@[first_where(before.loads@, is_load::<T>(load))] is Some);
            assert forall|i: int| 0 <= i < after.tagged_loads.len() implies (
            #[trigger] after.tagged_loads[i]).data is Some && after.tagged_loads[i].data->0.len()
                == after.samples() by {
                if i < before.tagged_loads.len() {
                    assert(after.tagged_loads[i] == before.tagged_loads[i]);
                } else {
                    assert(deep(after.tagged_loads[i].data->0@).len()
                        == after.tagged_loads[i].data->0.len());
                }
            }
        }
        Ok(after)
    }

    /// Selects the loads on the truss.
    pub fn truss(self) -> (r: Result<Self, WindLoadsError>)
        requires
            self.wf(),
        ensures
            r is Ok == has_load(self.loads@, Tag::OSSTruss6F),
            r is Ok ==> self.selected(r->Ok_0, one(Tag::OSSTruss6F, Tag::OSSTruss6F))
                && r->Ok_0.wf(),
            r is Err ==> r->Err_0 == WindLoadsError::EmptyWindLoads,
    {
        self.select(Tag::OSSTruss6F, Tag::OSSTruss6F)
    }

    /// Selects the loads on the top end.
    pub fn topend(self) -> (r: Result<Self, WindLoadsError>)
        requires
            self.wf(),
        ensures
            r is Ok == has_load(self.loads@, Tag::OSSTopEnd6F),
            r is Ok ==> self.selected(r->Ok_0, one(Tag::OSSTopEnd6F, Tag::OSSTopEnd6F))
                && r->Ok_0.wf(),
            r is Err ==> r->Err_0 == WindLoadsError::EmptyWindLoads,
    {
        self.select(Tag::OSSTopEnd6F, Tag::OSSTopEnd6F)
    }

    /// Selects the loads on the top end, as the input of the top end of the
    /// adaptive secondary mirror.
    pub fn m2_asm_topend(self) -> (r: Result<Self, WindLoadsError>)
        requires
            self.wf(),
        ensures
            r is Ok == has_load(self.loads@, Tag::OSSTopEnd6F),
            r is Ok ==> self.selected(r->Ok_0, one(Tag::MCM2TE6F, Tag::OSSTopEnd6F))
                && r->Ok_0.wf(),
            r is Err ==> r->Err_0 == WindLoadsError::EmptyWindLoads,
    {
        self.select(Tag::MCM2TE6F, Tag::OSSTopEnd6F)
    }

    /// Selects the loads on the C-ring.
    pub fn cring(self) -> (r: Result<Self, WindLoadsError>)
        requires
            self.wf(),
        ensures
            r is Ok == has_load(self.loads@, Tag::OSSCRING6F),
            r is Ok ==> self.selected(r->Ok_0, one(Tag::OSSCRING6F, Tag::OSSCRING6F))
                && r->Ok_0.wf(),
            r is Err ==> r->Err_0 == WindLoadsError::EmptyWindLoads,
    {
        self.select(Tag::OSSCRING6F, Tag::OSSCRING6F)
    }

    /// Selects the loads on the instrument rotator.
    pub fn gir(self) -> (r: Result<Self, WindLoadsError>)
        requires
            self.wf(),
        ensures
            r is Ok == has_load(self.loads@, Tag::OSSGIR6F),
            r is Ok ==> self.selected(r->Ok_0, one(Tag::OSSGIR6F, Tag::OSSGIR6F)) && r->Ok_0.wf(),
            r is Err ==> r->Err_0 == WindLoadsError::EmptyWindLoads,
    {
        self.select(Tag::OSSGIR6F, Tag::OSSGIR6F)
    }

    /// Selects the loads on the cells of the primary mirror.
    pub fn m1_cell(self) -> (r: Result<Self, WindLoadsError>)
        requires
            self.wf(),
        ensures
            r is Ok == has_load(self.loads@, Tag::OSSCellLcl6F),
            r is Ok ==> self.selected(r->Ok_0, one(Tag::OSSCellLcl6F, Tag::OSSCellLcl6F))
                && r->Ok_0.wf(),
            r is Err ==> r->Err_0 == WindLoadsError::EmptyWindLoads,
    {
        self.select(Tag::OSSCellLcl6F, Tag::OSSCellLcl6F)
    }

    /// Selects the loads on the segments of the primary mirror.
    pub fn m1_segments(self) -> (r: Result<Self, WindLoadsError>)
        requires
            self.wf(),
        ensures
            r is Ok == has_load(self.loads@, Tag::OSSM1Lcl6F),
            r is Ok ==> self.selected(r->Ok_0, one(Tag::OSSM1Lcl6F, Tag::OSSM1Lcl6F))
                && r->Ok_0.wf(),
            r is Err ==> r->Err_0 == WindLoadsError::EmptyWindLoads,
    {
        self.select(Tag::OSSM1Lcl6F, Tag::OSSM1Lcl6F)
    }

    /// Selects the loads on the segments of the secondary mirror.
    pub fn m2_segments(self) -> (r: Result<Self, WindLoadsError>)
        requires
            self.wf(),
        ensures
            r is Ok == has_load(self.loads@, Tag::MCM2Lcl6F),
            r is Ok ==> self.selected(r->Ok_0, one(Tag::MCM2Lcl6F, Tag::MCM2Lcl6F))
                && r->Ok_0.wf(),
            r is Err ==> r->Err_0 == WindLoadsError::EmptyWindLoads,
    {
        self.select(Tag::MCM2Lcl6F, Tag::MCM2Lcl6F)
    }

    /// Selects the loads on the segments of the secondary mirror, as the
    /// input of the reference bodies of the adaptive secondary mirror.
    pub fn m2_asm_reference_bodies(self) -> (r: Result<Self, WindLoadsError>)
        requires
            self.wf(),
        ensures
            r is Ok == has_load(self.loads@, Tag::MCM2Lcl6F),
            r is Ok ==> self.selected(r->Ok_0, one(Tag::MCM2RB6F, Tag::MCM2Lcl6F))
                && r->Ok_0.wf(),
            r is Err ==> r->Err_0 == WindLoadsError::EmptyWindLoads,
    {
        self.select(Tag::MCM2RB6F, Tag::MCM2Lcl6F)
    }
}

impl<T: Copy> WindLoads<T> {
    /// Selects one load after the other.
    fn select_each(self, selections: &Vec<Selection>) -> (r: Result<Self, WindLoadsError>)
        requires
            self.wf(),
        ensures
            r is Ok == self.available(selections@),
            r is Ok ==> self.selected(r->Ok_0, selections@) && r->Ok_0.wf(),
            r is Err ==> r->Err_0 == WindLoadsError::EmptyWindLoads,
    {
        let ghost before = self;
        let mut loads = self;
        let mut i: usize = 0;
        proof {
            assert(before.tagged_loads@.take(before.tagged_loads@.len() as int)
                == before.tagged_loads@);
        }
        while i < selections.len()
            invariant
                i <= selections.len(),
                before == self,
                before.wf(),
                loads.wf(),
                before.available(selections@.take(i as int)),
                before.selected(loads, selections@.take(i as int)),
            decreases selections.len() - i,
        {
            let ghost done = selections@.take(i as int);
            let ghost next = one(selections[i as int].put, selections[i as int].load);
            proof {
                lemma_available_then(before, done, next);
                assert(before.available(next) == has_load(
                    before.loads@,
                    selections[i as int].load,
                )) by {
                    assert(next[0].load == selections[i as int].load);
                }
            }
            let ghost between = loads;
            loads = match loads.select(selections[i].put, selections[i].load) {
                Ok(loads) => loads,
                Err(e) => {
                    proof {
                        if before.available(selections@) {
                            assert(has_load(before.loads@, selections@[i as int].load));
                        }
                    }
                    return Err(e);
                },
            };
            proof {
                lemma_selected_then(before, between, loads, done, next);
            }
            i += 1;
        }
        proof {
            assert(selections@.take(selections.len() as int) == selections@);
        }
        Ok(loads)
    }

    /// Selects all the loads: on the top end, on the segments of the
    /// secondary mirror, on the truss, on the segments and on the cells of
    /// the primary mirror, on the instrument rotator and on the C-ring.
    pub fn select_all(self) -> (r: Result<Self, WindLoadsError>)
        requires
            self.wf(),
        ensures
            r is Ok == self.available(all_loads()),
            r is Ok ==> self.selected(r->Ok_0, all_loads()) && r->Ok_0.wf(),
            r is Err ==> r->Err_0 == WindLoadsError::EmptyWindLoads,
    {
        let mut selections: Vec<Selection> = Vec::new();
        selections.push(Selection { put: Tag::OSSTopEnd6F, load: Tag::OSSTopEnd6F });
        selections.push(Selection { put: Tag::MCM2Lcl6F, load: Tag::MCM2Lcl6F });
        selections.push(Selection { put: Tag::OSSTruss6F, load: Tag::OSSTruss6F });
        selections.push(Selection { put: Tag::OSSM1Lcl6F, load: Tag::OSSM1Lcl6F });
        selections.push(Selection { put: Tag::OSSCellLcl6F, load: Tag::OSSCellLcl6F });
        selections.push(Selection { put: Tag::OSSGIR6F, load: Tag::OSSGIR6F });
        selections.push(Selection { put: Tag::OSSCRING6F, load: Tag::OSSCRING6F });
        assert(selections@ =~= all_loads());
        self.select_each(&selections)
    }

    /// Selects all the loads, those of the top end and of the segments of
    /// the secondary mirror as the inputs of the adaptive secondary mirror.
    pub fn select_all_with_asm(self) -> (r: Result<Self, WindLoadsError>)
        requires
            self.wf(),
        ensures
            r is Ok == self.available(all_loads_with_asm()),
            r is Ok ==> self.selected(r->Ok_0, all_loads_with_asm()) && r->Ok_0.wf(),
            r is Err ==> r->Err_0 == WindLoadsError::EmptyWindLoads,
    {
        let mut selections: Vec<Selection> = Vec::new();
        selections.push(Selection { put: Tag::MCM2TE6F, load: Tag::OSSTopEnd6F });
        selections.push(Selection { put: Tag::MCM2RB6F, load: Tag::MCM2Lcl6F });
        selections.push(Selection { put: Tag::OSSTruss6F, load: Tag::OSSTruss6F });
        selections.push(Selection { put: Tag::OSSM1Lcl6F, load: Tag::OSSM1Lcl6F });
        selections.push(Selection { put: Tag::OSSCellLcl6F, load: Tag::OSSCellLcl6F });
        selections.push(Selection { put: Tag::OSSGIR6F, load: Tag::OSSGIR6F });
        selections.push(Selection { put: Tag::OSSCRING6F, load: Tag::OSSCRING6F });
        assert(selections@ =~= all_loads_with_asm());
        self.select_each(&selections)
    }
}

impl<T: Copy> WindLoads<T> {
    /// The wind loading of the selected loads, before its first sample:
    /// the selected loads in the order of selection, each cut to the samples
    /// taken, whenever their number was set; fails where there is no load,
    /// or no sample to take.
    pub fn build(self) -> (r: Result<WindLoading<T>, WindLoadsError>)
        requires
            self.wf(),
        ensures
            r is Ok == (self.any_load() && self.taken() > 0),
            r is Ok ==> r->Ok_0.n_sample == self.taken() && r->Ok_0.tick == 0 && r->Ok_0.wf()
                && self.cut(r->Ok_0.loads@),
            r is Err ==> r->Err_0 == WindLoadsError::EmptyWindLoads,
    {
        let n = match self.len() {
            Ok(n) => n,
            Err(e) => {
                return Err(e);
            },
        };
        let n_sample = match self.n_sample {
            Some(n_sample) => n_sample,
            None => n,
        };
        if n_sample == 0 {
            return Err(WindLoadsError::EmptyWindLoads);
        }
        let mut loads: Vec<IO<Vec<Vec<T>>>> = Vec::new();
        let mut i: usize = 0;
        while i < self.tagged_loads.len()
            invariant
                i <= self.tagged_loads.len(),
                self.wf(),
                n_sample == self.taken(),
                loads.len() == i,
                forall|j: int|
                    0 <= j < i ==> (#[trigger] loads[j]).tag == self.tagged_loads[j].tag
                        && loads[j].data is Some && loads[j].data->0.len() == n_sample && deep(
                        loads[j].data->0@,
                    ) == deep(self.tagged_loads[j].data->0@).take(n_sample as int),
            decreases self.tagged_loads.len() - i,
        {
            match &self.tagged_loads[i].data {
                Some(samples) => {
                    let taken = first_samples(samples, n_sample);
                    assert(deep(taken@).len() == taken.len());
                    loads.push(IO { tag: self.tagged_loads[i].tag, data: Some(taken) });
                },
                None => {},
            }
            i += 1;
        }
        Ok(WindLoading { n_sample, loads, tick: 0 })
    }
}

impl<T> WindLoads<T> {
    /// Whether `loads` are the selected loads, in the order of selection,
    /// each cut to the samples taken.
    pub open spec fn cut(&self, loads: Seq<IO<Vec<Vec<T>>>>) -> bool {
        &&& loads.len() == self.tagged_loads.len()
        &&& forall|i: int|
            0 <= i < loads.len() ==> (#[trigger] loads[i]).tag == self.tagged_loads[i].tag
                && loads[i].data is Some && deep(loads[i].data->0@) == deep(
                self.tagged_loads[i].data->0@,
            ).take(self.taken())
    }
}

impl<T> WindLoading<T> {
    /// Whether the loading hangs together: every load holds as many samples
    /// as are taken.
    pub open spec fn wf(&self) -> bool {
        forall|i: int|
            0 <= i < self.loads.len() ==> (#[trigger] self.loads[i]).data is Some
                && self.loads[i].data->0.len() == self.n_sample
    }
}

/// The names of the loads, in order.
pub open spec fn load_tags<T>(loads: Seq<IO<Vec<Vec<T>>>>) -> Seq<Tag> {
    Seq::new(loads.len(), |i: int| loads[i].tag)
}

impl<T> IOTags for WindLoading<T> {
    fn outputs_tags(&self) -> (tags: Vec<Tag>)
        ensures
            tags@ == load_tags(self.loads@),
    {
        let mut tags: Vec<Tag> = Vec::new();
        let mut i: usize = 0;
        while i < self.loads.len()
            invariant
                i <= self.loads.len(),
                tags@ == load_tags(self.loads@).take(i as int),
            decreases self.loads.len() - i,
        {
            tags.push(self.loads[i].tag);
            i += 1;
        }
        tags
    }

    /// The wind loading takes no inputs.
    fn inputs_tags(&self) -> (tags: Vec<Tag>)
        ensures
            tags@.len() == 0,
    {
        Vec::new()
    }
}

impl<T> WindLoading<T> {
    /// Whether every load has a sample to give at the present tick, and the
    /// tick is one of the samples taken.
    pub open spec fn ready(&self) -> bool {
        &&& self.tick < self.n_sample
        &&& forall|i: int|
            0 <= i < self.loads.len() ==> (#[trigger] self.loads[i]).data is Some
                && self.tick < self.loads[i].data->0.len()
    }

    /// The sample of each load at the present tick, under the name of the
    /// load.
    pub open spec fn sample(&self) -> Seq<IO<Vec<T>>> {
        Seq::new(
            self.loads@.len(),
            |i: int|
                (IO { tag: self.loads[i].tag, data: Some(self.loads[i].data->0[self.tick as int]) }),
        )
    }

    /// Goes back to the first sample.
    pub fn restart(&mut self)
        ensures
            final(self).tick == 0,
            final(self).loads == old(self).loads,
            final(self).n_sample == old(self).n_sample,
    {
        self.tick = 0;
    }
}

impl<T: Copy> WindLoading<T> {
    /// The next sample of each load, under the name of the load, and in the
    /// order of the loads; nothing once a load has no sample left, or all
    /// the samples taken have been given.
    pub fn outputs(&mut self) -> (r: Option<Vec<IO<Vec<T>>>>)
        ensures
            r is Some == old(self).ready(),
            old(self).ready() ==> final(self).tick == old(self).tick + 1 && same_values(
                old(self).sample(),
                r->0@,
            ),
            !old(self).ready() ==> final(self).tick == old(self).tick,
            final(self).loads == old(self).loads,
            final(self).n_sample == old(self).n_sample,
    {
        if self.tick >= self.n_sample {
            return None;
        }
        let mut out: Vec<IO<Vec<T>>> = Vec::new();
        let mut i: usize = 0;
        while i < self.loads.len()
            invariant
                i <= self.loads.len(),
                out.len() == i,
                *self == *old(self),
                forall|j: int|
                    0 <= j < i ==> (#[trigger] self.loads[j]).data is Some && self.tick
                        < self.loads[j].data->0.len(),
                forall|j: int|
                    0 <= j < i ==> (#[trigger] out[j]).tag == self.loads[j].tag && out[j].data
                        is Some && out[j].data->0@ == self.loads[j].data->0[self.tick as int]@,
            decreases self.loads.len() - i,
        {
            match &self.loads[i].data {
                Some(samples) => {
                    if self.tick < samples.len() {
                        out.push(IO::with(self.loads[i].tag, copy_of(&samples[self.tick])));
                    } else {
                        return None;
                    }
                },
                None => {
                    return None;
                },
            }
            i += 1;
        }
        proof {
            assert forall|j: int| 0 <= j < out.len() implies (#[trigger] out[j]).tag
                == self.sample()[j].tag && view_of(out[j]) == view_of(self.sample()[j]) by {
                assert(out[j].tag == self.loads[j].tag);
            }
        }
        self.tick = self.tick + 1;
        Some(out)
    }
}

} // verus!
