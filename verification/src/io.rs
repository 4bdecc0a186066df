//! Tagged values: a name from the catalog with what is carried under it.

use vstd::prelude::*;
use crate::search::{
    any_where, first_where, lemma_first_where_is, lemma_first_where_same, lemma_none_where,
};
use crate::tags::Tag;
use crate::vectors::copy_of;

verus! {

/// A value that travels between components under a name.
///
/// A value made by [`IO::new`] carries nothing; one that travels at run time
/// carries a vector; one that carries a size serves to agree on the width of
/// a port.
#[derive(Debug)]
pub struct IO<T> {
    pub tag: Tag,
    pub data: Option<T>,
}

/// What went wrong with a tagged value.
#[derive(Clone, Copy, Debug, PartialEq, Eq, Structural)]
pub enum IOError {
    /// The value under this name carries nothing.
    Missing(Tag),
}

/// The names of a list of tagged values, in order.
pub open spec fn tags_of<T>(data: Seq<IO<T>>) -> Seq<Tag> {
    Seq::new(data.len(), |i: int| data[i].tag)
}

impl<T> IO<T> {
    /// The value named `tag` that carries nothing.
    pub fn new(tag: Tag) -> (io: Self)
        ensures
            io.tag == tag,
            io.data is None,
    {
        IO { tag, data: None }
    }

    /// The value named `tag` that carries `data`.
    pub fn with(tag: Tag, data: T) -> (io: Self)
        ensures
            io.tag == tag,
            io.data == Some(data),
    {
        IO { tag, data: Some(data) }
    }

    /// The name of the value.
    pub fn tag(&self) -> (tag: Tag)
        ensures
            tag == self.tag,
    {
        self.tag
    }

    /// Whether the two values have the same name, whatever they carry.
    pub fn same_tag<U>(&self, other: &IO<U>) -> (same: bool)
        ensures
            same == (self.tag == other.tag),
    {
        self.tag == other.tag
    }

    /// Whether the value carries something.
    pub fn is_some(&self) -> (some: bool)
        ensures
            some == (self.data is Some),
    {
        self.data.is_some()
    }

    /// What the value carries.
    pub fn into_option(self) -> (data: Option<T>)
        ensures
            data == self.data,
    {
        self.data
    }

    /// What the value carries, or the name under which something is missing.
    pub fn into_result(self) -> (data: Result<T, IOError>)
        ensures
            data == match self.data {
                Some(d) => Ok::<T, IOError>(d),
                None => Err::<T, IOError>(IOError::Missing(self.tag)),
            },
    {
        match self.data {
            Some(d) => Ok(d),
            None => Err(IOError::Missing(self.tag)),
        }
    }
}

impl IO<usize> {
    /// Lets the value carry the size `n`.
    pub fn assign(&mut self, n: usize)
        ensures
            final(self).tag == old(self).tag,
            final(self).data == Some(n),
    {
        self.data = Some(n);
    }
}

impl<T: Copy> IO<Vec<T>> {
    /// A copy of the value and of the vector it carries.
    pub fn duplicate(&self) -> (io: Self)
        ensures
            io.tag == self.tag,
            io.data is Some == self.data is Some,
            self.data is Some ==> io.data->0@ == self.data->0@,
    {
        match &self.data {
            Some(v) => IO { tag: self.tag, data: Some(copy_of(v)) },
            None => IO { tag: self.tag, data: None },
        }
    }
}

/// The condition of being named `tag`.
pub open spec fn named<T>(tag: Tag) -> spec_fn(IO<T>) -> bool {
    |io: IO<T>| io.tag == tag
}

/// Whether a value named `tag` stands in `data`.
pub open spec fn carries<T>(data: Seq<IO<T>>, tag: Tag) -> bool {
    any_where(data, named(tag))
}

/// The first place of `data` at which a value named `tag` stands, or the
/// length of `data` where none does.
pub open spec fn first_named<T>(data: Seq<IO<T>>, tag: Tag) -> int {
    first_where(data, named(tag))
}

/// Where the first value named `tag` stands in `data`, if one does.
pub fn find<T>(data: &Vec<IO<T>>, tag: Tag) -> (place: Option<usize>)
    ensures
        match place {
            Some(i) => i == first_named(data@, tag) && i < data.len() && data[i as int].tag == tag,
            None => !carries(data@, tag),
        },
{
    let mut i: usize = 0;
    while i < data.len()
        invariant
            i <= data.len(),
            forall|j: int| 0 <= j < i ==> !named::<T>(tag)(#[trigger] data[j]),
        decreases data.len() - i,
    {
        if data[i].tag == tag {
            proof {
                lemma_first_where_is(data@, named(tag), i as int);
            }
            return Some(i);
        }
        i += 1;
    }
    proof {
        lemma_none_where(data@, named(tag));
    }
    None
}

/// The condition of being named `tag` and carrying something.
pub open spec fn gives<T>(tag: Tag) -> spec_fn(IO<T>) -> bool {
    |io: IO<T>| io.tag == tag && io.data is Some
}

/// Whether `data` supplies something under the name `tag`.
pub open spec fn supplied<T>(data: Seq<IO<T>>, tag: Tag) -> bool {
    any_where(data, gives(tag))
}

/// What the first value of `data` that is named `tag` and carries something
/// carries.
pub open spec fn given<T>(data: Seq<IO<T>>, tag: Tag) -> T {
    data[first_where(data, gives(tag))].data->0
}

/// Where the first value named `tag` that carries something stands in
/// `data`, if one does.
pub fn find_given<T>(data: &Vec<IO<T>>, tag: Tag) -> (place: Option<usize>)
    ensures
        place is Some == supplied(data@, tag),
        place is Some ==> place->0 == first_where(data@, gives(tag)) && place->0 < data.len()
            && data[place->0 as int].data is Some && data[place->0 as int].tag == tag,
{
    let mut i: usize = 0;
    while i < data.len()
        invariant
            i <= data.len(),
            forall|j: int| 0 <= j < i ==> !gives::<T>(tag)(#[trigger] data[j]),
        decreases data.len() - i,
    {
        if data[i].tag == tag && data[i].data.is_some() {
            proof {
                lemma_first_where_is(data@, gives(tag), i as int);
            }
            return Some(i);
        }
        i += 1;
    }
    proof {
        lemma_none_where(data@, gives(tag));
    }
    None
}

/// What `data` carries under the name `tag`.
pub open spec fn payload<T>(data: Seq<IO<Vec<T>>>, tag: Tag) -> Seq<T> {
    given(data, tag)@
}

/// Those of `tags` for which `data` supplies nothing, in order.
pub open spec fn missing<T>(tags: Seq<Tag>, data: Seq<IO<Vec<T>>>) -> Seq<Tag>
    decreases tags.len(),
{
    if tags.len() == 0 {
        Seq::empty()
    } else if supplied(data, tags.last()) {
        missing(tags.drop_last(), data)
    } else {
        missing(tags.drop_last(), data).push(tags.last())
    }
}

/// Nothing is missing exactly where something is supplied for every tag.
pub proof fn lemma_missing<T>(tags: Seq<Tag>, data: Seq<IO<Vec<T>>>)
    ensures
        missing(tags, data).len() == 0 <==> forall|i: int|
            0 <= i < tags.len() ==> supplied(data, #[trigger] tags[i]),
    decreases tags.len(),
{
    if tags.len() > 0 {
        let front = tags.drop_last();
        lemma_missing(front, data);
        if missing(tags, data).len() == 0 {
            assert forall|i: int| 0 <= i < tags.len() implies supplied(
                data,
                #[trigger] tags[i],
            ) by {
                if i < front.len() {
                    assert(front[i] == tags[i]);
                }
            }
        }
        if forall|i: int| 0 <= i < tags.len() ==> supplied(data, #[trigger] tags[i]) {
            assert forall|i: int| 0 <= i < front.len() implies supplied(
                data,
                #[trigger] front[i],
            ) by {
                assert(front[i] == tags[i]);
            }
        }
    }
}

/// Two lists that supply something under the same names miss the same
/// declared inputs.
pub proof fn lemma_missing_same<T>(tags: Seq<Tag>, a: Seq<IO<Vec<T>>>, b: Seq<IO<Vec<T>>>)
    requires
        forall|tag: Tag| supplied(a, tag) == supplied(b, tag),
    ensures
        missing(tags, a) == missing(tags, b),
    decreases tags.len(),
{
    if tags.len() > 0 {
        lemma_missing_same(tags.drop_last(), a, b);
    }
}

/// What a value carries, as a sequence.
pub open spec fn view_of<T>(io: IO<Vec<T>>) -> Option<Seq<T>> {
    match io.data {
        Some(v) => Some(v@),
        None => None,
    }
}

/// Whether `b` holds the values of `a`: the same names, and under them the
/// same sequences.
pub open spec fn same_values<T>(a: Seq<IO<Vec<T>>>, b: Seq<IO<Vec<T>>>) -> bool {
    &&& a.len() == b.len()
    &&& forall|i: int|
        0 <= i < a.len() ==> (#[trigger] b[i]).tag == a[i].tag && view_of(b[i]) == view_of(a[i])
}

/// Two lists that hold the same values supply the same under every name.
pub proof fn lemma_same_values<T>(a: Seq<IO<Vec<T>>>, b: Seq<IO<Vec<T>>>, tag: Tag)
    requires
        same_values(a, b),
    ensures
        carries(b, tag) == carries(a, tag),
        first_named(b, tag) == first_named(a, tag),
        supplied(b, tag) == supplied(a, tag),
        supplied(a, tag) ==> payload(b, tag) == payload(a, tag),
{
    assert forall|i: int| 0 <= i < a.len() implies named::<Vec<T>>(tag)(a[i]) == named::<Vec<T>>(
        tag,
    )(b[i]) && gives::<Vec<T>>(tag)(a[i]) == gives::<Vec<T>>(tag)(b[i]) by {
        assert(b[i].tag == a[i].tag && view_of(b[i]) == view_of(a[i]));
    }
    lemma_first_where_same(a, named(tag), b, named(tag));
    lemma_first_where_same(a, gives(tag), b, gives(tag));
    if supplied(a, tag) {
        crate::search::lemma_first_where(a, gives(tag));
        let f = first_where(a, gives(tag));
        assert(view_of(b[f]) == view_of(a[f]));
    }
}

/// Two lists that hold the same values miss the same declared inputs.
pub proof fn lemma_same_values_missing<T>(tags: Seq<Tag>, a: Seq<IO<Vec<T>>>, b: Seq<IO<Vec<T>>>)
    requires
        same_values(a, b),
    ensures
        missing(tags, a) == missing(tags, b),
{
    assert forall|tag: Tag| supplied(a, tag) == supplied(b, tag) by {
        lemma_same_values(a, b, tag);
    }
    lemma_missing_same(tags, a, b);
}

} // verus!
