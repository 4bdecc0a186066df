//! Folding the forces of the controllers into the forces on the structure,
//! and holding what a slower component gave until it runs again.

use vstd::prelude::*;
use vstd::std_specs::ops::{AddSpec, SubSpec};
use crate::io::{view_of, IO};
use crate::solver::adds_freely;

verus! {

/// Whether any scalar of type `T` can be subtracted from any other. This
/// holds of numbers that cannot overflow, floating point numbers among
/// them; it does not hold of the machine integers.
pub open spec fn subtracts_freely<T: core::ops::Sub<Output = T>>() -> bool {
    forall|a: T, b: T| #[trigger] a.sub_req(b)
}

/// The shorter of two lengths.
pub open spec fn shorter(a: int, b: int) -> int {
    if a <= b {
        a
    } else {
        b
    }
}

/// The sums of the entries of `x` and `y` at the same places, as far as
/// both reach.
pub fn sums<T: Copy + core::ops::Add<Output = T>>(x: &Vec<T>, y: &Vec<T>) -> (z: Vec<T>)
    requires
        adds_freely::<T>(),
    ensures
        z.len() == shorter(x.len() as int, y.len() as int),
        T::obeys_add_spec() ==> forall|i: int| 0 <= i < z.len() ==> z[i] == x[i].add_spec(y[i]),
{
    let mut z: Vec<T> = Vec::new();
    let mut i: usize = 0;
    while i < x.len() && i < y.len()
        invariant
            i <= x.len(),
            i <= y.len(),
            z.len() == i,
            adds_freely::<T>(),
            T::obeys_add_spec() ==> forall|j: int| 0 <= j < i ==> z[j] == x[j].add_spec(y[j]),
        decreases x.len() - i,
    {
        let a = x[i];
        let b = y[i];
        z.push(a + b);
        i += 1;
    }
    z
}

/// The differences of the entries of `x` and `y` at the same places, as
/// far as both reach.
pub fn differences<T: Copy + core::ops::Sub<Output = T>>(x: &Vec<T>, y: &Vec<T>) -> (z: Vec<T>)
    requires
        subtracts_freely::<T>(),
    ensures
        z.len() == shorter(x.len() as int, y.len() as int),
        T::obeys_sub_spec() ==> forall|i: int| 0 <= i < z.len() ==> z[i] == x[i].sub_spec(y[i]),
{
    let mut z: Vec<T> = Vec::new();
    let mut i: usize = 0;
    while i < x.len() && i < y.len()
        invariant
            i <= x.len(),
            i <= y.len(),
            z.len() == i,
            subtracts_freely::<T>(),
            T::obeys_sub_spec() ==> forall|j: int| 0 <= j < i ==> z[j] == x[j].sub_spec(y[j]),
        decreases x.len() - i,
    {
        let a = x[i];
        let b = y[i];
        z.push(a - b);
        i += 1;
    }
    z
}

/// Whether `z` is `x` with what `y` carries added to what it carries, entry
/// by entry and as far as both reach; `x` itself where one of the two
/// carries nothing.
pub open spec fn is_sum<T: core::ops::Add<Output = T>>(
    x: IO<Vec<T>>,
    y: IO<Vec<T>>,
    z: IO<Vec<T>>,
) -> bool {
    &&& z.tag == x.tag
    &&& x.data is None || y.data is None ==> z.data == x.data
    &&& x.data is Some && y.data is Some ==> {
        &&& z.data is Some
        &&& z.data->0.len() == shorter(x.data->0.len() as int, y.data->0.len() as int)
        &&& T::obeys_add_spec() ==> forall|i: int|
            0 <= i < z.data->0.len() ==> z.data->0[i] == x.data->0[i].add_spec(y.data->0[i])
    }
}

/// Whether `z` is `x` with what `y` carries subtracted from what it
/// carries, entry by entry and as far as both reach; `x` itself where one of
/// the two carries nothing.
pub open spec fn is_difference<T: core::ops::Sub<Output = T>>(
    x: IO<Vec<T>>,
    y: IO<Vec<T>>,
    z: IO<Vec<T>>,
) -> bool {
    &&& z.tag == x.tag
    &&& x.data is None || y.data is None ==> z.data == x.data
    &&& x.data is Some && y.data is Some ==> {
        &&& z.data is Some
        &&& z.data->0.len() == shorter(x.data->0.len() as int, y.data->0.len() as int)
        &&& T::obeys_sub_spec() ==> forall|i: int|
            0 <= i < z.data->0.len() ==> z.data->0[i] == x.data->0[i].sub_spec(y.data->0[i])
    }
}

/// Whether `z` carries `x` with what `y` carries added to it, entry by
/// entry and as far as both reach; `x` itself where there is no `x` or `y`
/// carries nothing.
pub open spec fn carries_sum<T: core::ops::Add<Output = T>>(
    x: Option<Seq<T>>,
    y: IO<Vec<T>>,
    z: IO<Vec<T>>,
) -> bool {
    &&& x is None || y.data is None ==> view_of(z) == x
    &&& x is Some && y.data is Some ==> {
        &&& z.data is Some
        &&& z.data->0.len() == shorter(x->0.len() as int, y.data->0.len() as int)
        &&& T::obeys_add_spec() ==> forall|i: int|
            0 <= i < z.data->0.len() ==> z.data->0[i] == x->0[i].add_spec(y.data->0[i])
    }
}

/// Whether `z` carries `x` with what `y` carries subtracted from it, entry
/// by entry and as far as both reach; `x` itself where there is no `x` or
/// `y` carries nothing.
pub open spec fn carries_difference<T: core::ops::Sub<Output = T>>(
    x: Option<Seq<T>>,
    y: IO<Vec<T>>,
    z: IO<Vec<T>>,
) -> bool {
    &&& x is None || y.data is None ==> view_of(z) == x
    &&& x is Some && y.data is Some ==> {
        &&& z.data is Some
        &&& z.data->0.len() == shorter(x->0.len() as int, y.data->0.len() as int)
        &&& T::obeys_sub_spec() ==> forall|i: int|
            0 <= i < z.data->0.len() ==> z.data->0[i] == x->0[i].sub_spec(y.data->0[i])
    }
}

impl<T: Copy + core::ops::Add<Output = T>> IO<Vec<T>> {
    /// Adds to what the value carries what `other` carries, entry by entry
    /// and as far as both reach; leaves the value as it is where one of the
    /// two carries nothing.
    pub fn add_assign(&mut self, other: &IO<Vec<T>>)
        requires
            adds_freely::<T>(),
        ensures
            is_sum(*old(self), *other, *final(self)),
    {
        let z = match (&self.data, &other.data) {
            (Some(x), Some(y)) => Some(sums(x, y)),
            _ => None,
        };
        match z {
            Some(z) => {
                self.data = Some(z);
            },
            None => {},
        }
    }
}

impl<T: Copy + core::ops::Sub<Output = T>> IO<Vec<T>> {
    /// Subtracts from what the value carries what `other` carries, entry by
    /// entry and as far as both reach; leaves the value as it is where one
    /// of the two carries nothing.
    pub fn sub_assign(&mut self, other: &IO<Vec<T>>)
        requires
            subtracts_freely::<T>(),
        ensures
            is_difference(*old(self), *other, *final(self)),
    {
        let z = match (&self.data, &other.data) {
            (Some(x), Some(y)) => Some(differences(x, y)),
            _ => None,
        };
        match z {
            Some(z) => {
                self.data = Some(z);
            },
            None => {},
        }
    }
}

/// Whether a component that runs every `period` ticks runs at tick `tick`.
pub fn is_due(tick: usize, period: usize) -> (due: bool)
    requires
        period > 0,
    ensures
        due == (tick % period == 0),
{
    tick % period == 0
}

/// What a component gave when it last ran, held for those that read it
/// until it runs again.
#[derive(Debug)]
pub struct Hold<V> {
    /// every how many ticks the component runs
    pub period: usize,
    /// what the component last gave; nothing before it has run
    pub last: Option<V>,
}

impl<V> Hold<V> {
    /// The hold of a component that runs every `period` ticks and has not
    /// run yet.
    pub fn new(period: usize) -> (r: Self)
        ensures
            r.period == period,
            r.last is None,
    {
        Hold { period, last: None }
    }

    /// Whether the component runs at tick `tick`.
    pub fn is_due(&self, tick: usize) -> (due: bool)
        requires
            self.period > 0,
        ensures
            due == (tick % self.period == 0),
    {
        tick % self.period == 0
    }

    /// Keeps what the component has just given.
    pub fn store(&mut self, value: V)
        ensures
            final(self).last == Some(value),
            final(self).period == old(self).period,
    {
        self.last = Some(value);
    }

    /// What the component last gave.
    pub fn held(&self) -> (r: Option<&V>)
        ensures
            r is Some == self.last is Some,
            r is Some ==> *r->0 == self.last->0,
    {
        self.last.as_ref()
    }
}

} // verus!
