//! The data logger: what the components tell at each tick, kept tick by
//! tick, and given back as the series of what was told under one name.

use std::collections::BTreeMap;
use vstd::prelude::*;
use crate::io::{find_given, given, same_values, supplied, view_of, IO};
use crate::tags::{occurs, position, Tag};
use crate::vectors::copy_of;

verus! {

broadcast use {vstd::std_specs::btree::group_btree_axioms, vstd::laws_cmp::group_laws_cmp};

/// What may go wrong with the logger.
#[derive(Clone, Copy, Debug, PartialEq, Eq, Structural)]
pub enum TellTaleError {
    /// The tick index cannot grow any more.
    Step,
    /// Something was told before the first tick.
    Tale,
}

/// The logger.
pub struct TellTale<T> {
    /// the number of ticks in a second; one where none is given
    pub sampling_rate: Option<T>,
    pub keys: Vec<Tag>,
    /// what was told, tick by tick, in the order of telling
    pub entries: BTreeMap<usize, Vec<IO<Vec<T>>>>,
    /// the tick that is being logged; none before the first tick
    pub index: Option<usize>,
}

/// The builder of a logger.
pub struct DataLogging<T> {
    pub sampling_rate: Option<T>,
    pub keys: Vec<Tag>,
}

/// What was first told under `key` among `tales`.
pub open spec fn told<T>(tales: Seq<IO<Vec<T>>>, key: Tag) -> Seq<T> {
    given(tales, key)@
}

/// The series of what was told under `key` at the ticks before `n`, each
/// with its tick, in the order of the ticks; nothing where at one of these
/// ticks something was told, but not under `key`.
pub open spec fn series<T>(
    entries: Map<usize, Vec<IO<Vec<T>>>>,
    key: Tag,
    n: int,
) -> Option<Seq<(usize, Seq<T>)>>
    decreases n,
{
    if n <= 0 {
        Some(Seq::empty())
    } else {
        let t = (n - 1) as usize;
        match series(entries, key, n - 1) {
            None => None,
            Some(s) => if !entries.contains_key(t) {
                Some(s)
            } else if supplied(entries[t]@, key) {
                Some(s.push((t, told(entries[t]@, key))))
            } else {
                None
            },
        }
    }
}

/// Those of `tales` that are told under one of `keys`, in order.
pub open spec fn kept<T>(tales: Seq<IO<Vec<T>>>, keys: Seq<Tag>) -> Seq<IO<Vec<T>>>
    decreases tales.len(),
{
    if tales.len() == 0 {
        Seq::empty()
    } else if occurs(keys, tales.last().tag) {
        kept(tales.drop_last(), keys).push(tales.last())
    } else {
        kept(tales.drop_last(), keys)
    }
}

/// The ticks of a series come one after the other, each before `n`.
pub proof fn lemma_series_increases<T>(entries: Map<usize, Vec<IO<Vec<T>>>>, key: Tag, n: int)
    requires
        0 <= n <= usize::MAX + 1,
    ensures
        series(entries, key, n) is Some ==> {
            let s = series(entries, key, n)->0;
            &&& forall|i: int| 0 <= i < s.len() ==> (#[trigger] s[i]).0 < n
            &&& forall|i: int, j: int| 0 <= i < j < s.len() ==> (#[trigger] s[i]).0 < (#[trigger] s[j]).0
        },
    decreases n,
{
    if n > 0 {
        lemma_series_increases(entries, key, n - 1);
    }
}

/// The views of the payloads of a series.
pub open spec fn views<T>(s: Seq<(usize, Vec<T>)>) -> Seq<(usize, Seq<T>)> {
    Seq::new(s.len(), |i: int| (s[i].0, s[i].1@))
}

impl<T> DataLogging<T> {
    /// The builder of a logger of one tick in a second that logs under no
    /// name yet.
    pub fn new() -> (r: Self)
        ensures
            r.sampling_rate is None,
            r.keys@ == Seq::<Tag>::empty(),
    {
        DataLogging { sampling_rate: None, keys: Vec::new() }
    }

    /// Sets the number of ticks in a second.
    pub fn sampling_rate(self, sampling_rate: T) -> (r: Self)
        ensures
            r.sampling_rate == Some(sampling_rate),
            r.keys == self.keys,
    {
        DataLogging { sampling_rate: Some(sampling_rate), keys: self.keys }
    }

    /// Adds a name under which to log.
    pub fn key(self, key: Tag) -> (r: Self)
        ensures
            r.sampling_rate == self.sampling_rate,
            r.keys@ == self.keys@.push(key),
    {
        let mut keys = self.keys;
        keys.push(key);
        DataLogging { sampling_rate: self.sampling_rate, keys }
    }

    /// The logger, before its first tick and with nothing told.
    pub fn build(self) -> (r: TellTale<T>)
        ensures
            r.sampling_rate == self.sampling_rate,
            r.keys == self.keys,
            r.entries@ == Map::<usize, Vec<IO<Vec<T>>>>::empty(),
            r.index is None,
            r.wf(),
    {
        TellTale {
            sampling_rate: self.sampling_rate,
            keys: self.keys,
            entries: BTreeMap::new(),
            index: None,
        }
    }
}

impl<T> TellTale<T> {
    /// Whether the logger hangs together: nothing is told at a tick that
    /// has not come yet.
    pub open spec fn wf(&self) -> bool {
        forall|t: usize| #[trigger]
            self.entries@.contains_key(t) ==> self.index is Some && t <= self.index->0
    }

    /// Goes to the next tick: the first tick is tick 0.
    pub fn next(&mut self) -> (r: Option<()>)
        ensures
            match old(self).index {
                None => r is Some && final(self).index == Some(0usize),
                Some(i) => if i < usize::MAX {
                    r is Some && final(self).index == Some((i + 1) as usize)
                } else {
                    r is None && final(self).index == old(self).index
                },
            },
            final(self).entries == old(self).entries,
            final(self).keys == old(self).keys,
            final(self).sampling_rate == old(self).sampling_rate,
            old(self).wf() ==> final(self).wf(),
    {
        match self.index {
            None => {
                self.index = Some(0);
                Some(())
            },
            Some(i) => {
                if i < usize::MAX {
                    self.index = Some(i + 1);
                    Some(())
                } else {
                    None
                }
            },
        }
    }

    /// Goes to the next tick, or fails where the tick index cannot grow.
    pub fn step(&mut self) -> (r: Result<(), TellTaleError>)
        ensures
            match old(self).index {
                None => r is Ok && final(self).index == Some(0usize),
                Some(i) => if i < usize::MAX {
                    r is Ok && final(self).index == Some((i + 1) as usize)
                } else {
                    r == Err::<(), TellTaleError>(TellTaleError::Step) && final(self).index == old(
                        self,
                    ).index
                },
            },
            final(self).entries == old(self).entries,
            final(self).keys == old(self).keys,
            final(self).sampling_rate == old(self).sampling_rate,
            old(self).wf() ==> final(self).wf(),
    {
        match self.next() {
            Some(_) => Ok(()),
            None => Err(TellTaleError::Step),
        }
    }
}

impl<T: Copy> TellTale<T> {
    /// Logs `tale` at the present tick, after what was told at this tick
    /// before; fails before the first tick.
    pub fn tell(&mut self, tale: &IO<Vec<T>>) -> (r: Result<(), TellTaleError>)
        ensures
            match old(self).index {
                None => r == Err::<(), TellTaleError>(TellTaleError::Tale) && final(self).entries
                    == old(self).entries,
                Some(i) => {
                    &&& r is Ok
                    &&& final(self).entries@.dom() == old(self).entries@.dom().insert(i)
                    &&& forall|t: usize|
                        t != i && old(self).entries@.contains_key(t) ==> final(self).entries@[t]
                            == old(self).entries@[t]
                    &&& final(self).entries@[i]@.len() == told_at(old(self).entries@, i).len() + 1
                    &&& final(self).entries@[i]@.drop_last() == told_at(old(self).entries@, i)
                    &&& final(self).entries@[i]@.last().tag == tale.tag
                    &&& final(self).entries@[i]@.last().data is Some == tale.data is Some
                    &&& tale.data is Some ==> final(self).entries@[i]@.last().data->0@
                        == tale.data->0@
                },
            },
            final(self).index == old(self).index,
            final(self).keys == old(self).keys,
            final(self).sampling_rate == old(self).sampling_rate,
            old(self).wf() ==> final(self).wf(),
    {
        match self.index {
            None => Err(TellTaleError::Tale),
            Some(i) => {
                let mut tales = match self.entries.remove(&i) {
                    Some(tales) => tales,
                    None => Vec::new(),
                };
                tales.push(tale.duplicate());
                self.entries.insert(i, tales);
                Ok(())
            },
        }
    }
}

/// What was told at tick `t`, nothing where nothing was.
pub open spec fn told_at<T>(entries: Map<usize, Vec<IO<Vec<T>>>>, t: usize) -> Seq<IO<Vec<T>>> {
    if entries.contains_key(t) {
        entries[t]@
    } else {
        Seq::empty()
    }
}

/// What was first told under `key` among `tales`, if anything was.
pub fn first_told<T: Copy>(tales: &Vec<IO<Vec<T>>>, key: Tag) -> (r: Option<Vec<T>>)
    ensures
        r is Some == supplied(tales@, key),
        r is Some ==> r->0@ == told(tales@, key),
{
    match find_given(tales, key) {
        Some(at) => match &tales[at].data {
            Some(values) => Some(copy_of(values)),
            None => None,
        },
        None => None,
    }
}

impl<T: Copy> TellTale<T> {
    /// The series of what was told under `key`, each entry with its tick,
    /// in the order of the ticks; a value that carries nothing where at some
    /// tick something was told, but not under `key`.
    ///
    /// The time of an entry, in seconds, is its tick divided by the
    /// sampling rate.
    pub fn time_series(&self, key: Tag) -> (r: IO<Vec<(usize, Vec<T>)>>)
        ensures
            r.tag == key,
            match self.index {
                None => r.data is Some && r.data->0@.len() == 0,
                Some(i) => match series(self.entries@, key, i + 1) {
                    Some(s) => r.data is Some && views(r.data->0@) == s,
                    None => r.data is None,
                },
            },
            r.data is Some ==> forall|a: int, b: int|
                0 <= a < b < r.data->0.len() ==> (#[trigger] r.data->0[a]).0 < (
                #[trigger] r.data->0[b]).0,
    {
        let last = match self.index {
            Some(i) => i,
            None => {
                return IO::with(key, Vec::new());
            },
        };
        let mut out: Vec<(usize, Vec<T>)> = Vec::new();
        let mut t: usize = 0;
        loop
            invariant_except_break
                t <= last,
                series(self.entries@, key, t as int) == Some(views(out@)),
            invariant
                self.index == Some(last),
            ensures
                series(self.entries@, key, last + 1) == Some(views(out@)),
            decreases last - t,
        {
            match self.entries.get(&t) {
                Some(tales) => {
                    match first_told(tales, key) {
                        Some(values) => {
                            out.push((t, values));
                        },
                        None => {
                            proof {
                                lemma_series_none(self.entries@, key, t + 1, last + 1);
                            }
                            return IO::new(key);
                        },
                    }
                },
                None => {},
            }
            if t == last {
                break ;
            }
            t += 1;
        }
        proof {
            lemma_series_increases(self.entries@, key, last + 1);
            let s = series(self.entries@, key, last + 1)->0;
            assert forall|a: int, b: int| 0 <= a < b < out.len() implies (#[trigger] out[a]).0 < (
            #[trigger] out[b]).0 by {
                assert(s[a].0 < s[b].0);
            }
        }
        IO::with(key, out)
    }
}

/// A series that fails before some tick fails before every later tick.
pub proof fn lemma_series_none<T>(entries: Map<usize, Vec<IO<Vec<T>>>>, key: Tag, m: int, n: int)
    requires
        m <= n,
        series(entries, key, m) is None,
    ensures
        series(entries, key, n) is None,
    decreases n - m,
{
    if m < n {
        lemma_series_none(entries, key, m, n - 1);
    }
}

impl<T: Copy> TellTale<T> {
    /// Goes to the next tick and logs at it those of `tales` that are told
    /// under one of the names that the logger keeps, in order; fails, and
    /// leaves the logger as it is, where the tick index cannot grow.
    pub fn log(&mut self, tales: &Vec<IO<Vec<T>>>) -> (r: Result<(), TellTaleError>)
        ensures
            old(self).wf() ==> final(self).wf(),
            final(self).keys == old(self).keys,
            final(self).sampling_rate == old(self).sampling_rate,
            r is Ok == (old(self).index != Some(usize::MAX)),
            r is Err ==> r->Err_0 == TellTaleError::Step && *final(self) == *old(self),
            r is Ok ==> old(self).logged(tales@, final(self)),
    {
        match self.step() {
            Ok(_) => {},
            Err(e) => {
                return Err(e);
            },
        }
        let ghost t = self.index->0;
        let ghost before = self.entries@;
        let mut i: usize = 0;
        while i < tales.len()
            invariant
                i <= tales.len(),
                old(self).wf() ==> self.wf(),
                self.keys == old(self).keys,
                self.sampling_rate == old(self).sampling_rate,
                self.index == stepped(old(self).index),
                self.index == Some(t),
                before == old(self).entries@,
                forall|s: usize| s != t ==> (#[trigger] self.entries@.contains_key(s))
                    == before.contains_key(s),
                forall|s: usize| s != t && before.contains_key(s) ==> self.entries@[s] == before[s],
                same_values(
                    told_at(before, t) + kept(tales@.take(i as int), self.keys@),
                    told_at(self.entries@, t),
                ),
                self.entries@.contains_key(t) == (before.contains_key(t) || kept(
                    tales@.take(i as int),
                    self.keys@,
                ).len() > 0),
            decreases tales.len() - i,
        {
            proof {
                assert(tales@.take(i + 1).drop_last() == tales@.take(i as int));
            }
            if position(&self.keys, tales[i].tag).is_some() {
                let ghost told = told_at(self.entries@, t);
                match self.tell(&tales[i]) {
                    Ok(_) => {},
                    Err(e) => {
                        return Err(e);
                    },
                }
                proof {
                    let now = told_at(self.entries@, t);
                    let want = told_at(before, t) + kept(tales@.take(i + 1), self.keys@);
                    assert forall|j: int| 0 <= j < want.len() implies (#[trigger] now[j]).tag
                        == want[j].tag && view_of(now[j]) == view_of(want[j]) by {
                        if j < told.len() {
                            assert(now[j] == now.drop_last()[j]);
                        }
                    }
                }
            }
            i += 1;
        }
        proof {
            assert(tales@.take(tales.len() as int) == tales@);
        }
        Ok(())
    }
}

/// The tick index after one more tick.
pub open spec fn stepped(index: Option<usize>) -> Option<usize> {
    match index {
        None => Some(0usize),
        Some(i) => Some((i + 1) as usize),
    }
}

impl<T> TellTale<T> {
    /// Whether `after` is the logger one tick further, with those of
    /// `tales` that are told under one of its names logged at the new tick,
    /// after what was logged at that tick before, if anything was, and the
    /// other ticks as they were.
    pub open spec fn logged(&self, tales: Seq<IO<Vec<T>>>, after: &Self) -> bool {
        let t = stepped(self.index)->0;
        &&& after.index == stepped(self.index)
        &&& forall|s: usize| s != t ==> (#[trigger] after.entries@.contains_key(s))
            == self.entries@.contains_key(s)
        &&& forall|s: usize|
            s != t && self.entries@.contains_key(s) ==> after.entries@[s] == self.entries@[s]
        &&& after.entries@.contains_key(t) == (self.entries@.contains_key(t) || kept(
            tales,
            self.keys@,
        ).len() > 0)
        &&& same_values(
            told_at(self.entries@, t) + kept(tales, self.keys@),
            told_at(after.entries@, t),
        )
    }
}

} // verus!
