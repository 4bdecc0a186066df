//! The controllers: a step function with named input and output ports of
//! fixed widths, between tagged inputs and tagged outputs.

use vstd::prelude::*;
use crate::error::DOSError;
use crate::io::{find_given, missing, payload, supplied, IO};
use crate::search::{any_where, first_where, lemma_first_where_is, lemma_none_where};
use crate::solver::zeros;
use crate::state_space::IOTags;
use crate::tags::Tag;
use crate::vectors::copy_of;

verus! {

/// A port of a controller: its name and how many scalars it takes or gives.
#[derive(Clone, Copy, Debug, PartialEq, Eq, Structural)]
pub struct Port {
    pub tag: Tag,
    pub width: usize,
}

/// The discrete step of a controller.
///
/// What a step computes is the controller's own business: the library hands
/// it the inputs, port by port, and takes what comes back, port by port.
pub trait StepFunction<T> {
    /// Advances the controller by one step under the inputs `u`, and gives
    /// its outputs.
    fn advance(&mut self, u: &Vec<Vec<T>>) -> Vec<Vec<T>>;
}

/// A controller: its ports, the inputs that it was last handed, the outputs
/// that it last gave, and its step function.
#[derive(Debug)]
pub struct Controller<T, K> {
    pub u_ports: Vec<Port>,
    pub y_ports: Vec<Port>,
    /// the inputs, port by port
    pub u: Vec<Vec<T>>,
    /// the outputs, port by port
    pub y: Vec<Vec<T>>,
    pub kernel: K,
}

/// The names of the ports, in order.
pub open spec fn port_tags(ports: Seq<Port>) -> Seq<Tag> {
    Seq::new(ports.len(), |i: int| ports[i].tag)
}

/// Whether `v` holds one vector for each port, of the width of the port.
pub open spec fn shaped<T>(v: Seq<Vec<T>>, ports: Seq<Port>) -> bool {
    &&& v.len() == ports.len()
    &&& forall|i: int| 0 <= i < ports.len() ==> (#[trigger] v[i]).len() == ports[i].width
}

/// `old` with its first entries replaced by those of `new`, as far as `new`
/// reaches.
pub open spec fn overlay<T>(old: Seq<T>, new: Seq<T>) -> Seq<T> {
    Seq::new(
        old.len(),
        |k: int|
            if k < new.len() {
                new[k]
            } else {
                old[k]
            },
    )
}

/// The inputs `old` of the port named `tag` once `data` has been handed
/// over: overlaid with what `data` supplies under that name, if anything.
pub open spec fn fed<T>(old: Seq<T>, data: Seq<IO<Vec<T>>>, tag: Tag) -> Seq<T> {
    if supplied(data, tag) {
        overlay(old, payload(data, tag))
    } else {
        old
    }
}

/// The condition of being the port named `tag`.
pub open spec fn is_named(tag: Tag) -> spec_fn(Port) -> bool {
    |p: Port| p.tag == tag
}

/// Whether `out` holds, for each of `tags`, what the first port of that
/// name gives.
pub open spec fn gives_for<T>(out: Seq<IO<Vec<T>>>, tags: Seq<Tag>, ports: Seq<Port>, y: Seq<Vec<T>>) -> bool {
    &&& out.len() == tags.len()
    &&& forall|i: int|
        0 <= i < tags.len() ==> (#[trigger] out[i]).tag == tags[i] && out[i].data is Some
            && out[i].data->0@ == y[first_where(ports, is_named(tags[i]))]@
}

/// Whether `out` holds what each port gives, under the name of the port.
pub open spec fn gives_all<T>(out: Seq<IO<Vec<T>>>, ports: Seq<Port>, y: Seq<Vec<T>>) -> bool {
    &&& out.len() == ports.len()
    &&& forall|i: int|
        0 <= i < ports.len() ==> (#[trigger] out[i]).tag == ports[i].tag && out[i].data is Some
            && out[i].data->0@ == y[i]@
}

/// What the ports give, as a list of tagged values, holds the values of
/// any list that holds what each port gives under the name of the port.
pub proof fn lemma_given_out<T, K>(c: Controller<T, K>, out: Seq<IO<Vec<T>>>)
    requires
        gives_all(out, c.y_ports@, c.y@),
    ensures
        crate::io::same_values(c.given_out(), out),
{
    assert forall|i: int| 0 <= i < out.len() implies (#[trigger] out[i]).tag == c.given_out()[i].tag
        && crate::io::view_of(out[i]) == crate::io::view_of(c.given_out()[i]) by {
        assert(out[i].tag == c.y_ports[i].tag && out[i].data is Some && out[i].data->0@
            == c.y[i]@);
    }
}

/// Replaces the first entries of `old` by those of `new`, as far as `new`
/// reaches.
pub fn overlaid<T: Copy>(old: &Vec<T>, new: &Vec<T>) -> (r: Vec<T>)
    ensures
        r@ == overlay(old@, new@),
{
    let mut r = copy_of(old);
    let mut k: usize = 0;
    while k < r.len() && k < new.len()
        invariant
            k <= r.len(),
            k <= new.len(),
            r.len() == old.len(),
            forall|j: int| 0 <= j < k ==> r[j] == new[j],
            forall|j: int| k <= j < r.len() ==> r[j] == old[j],
        decreases r.len() - k,
    {
        r.set(k, new[k]);
        k += 1;
    }
    r
}

/// Where the first port named `tag` stands in `ports`, if one does.
pub fn port_position(ports: &Vec<Port>, tag: Tag) -> (place: Option<usize>)
    ensures
        place is Some == any_where(ports@, is_named(tag)),
        place is Some ==> place->0 == first_where(ports@, is_named(tag)) && place->0
            < ports.len(),
{
    let mut i: usize = 0;
    while i < ports.len()
        invariant
            i <= ports.len(),
            forall|j: int| 0 <= j < i ==> !is_named(tag)(#[trigger] ports[j]),
        decreases ports.len() - i,
    {
        if ports[i].tag == tag {
            proof {
                lemma_first_where_is(ports@, is_named(tag), i as int);
            }
            return Some(i);
        }
        i += 1;
    }
    proof {
        lemma_none_where(ports@, is_named(tag));
    }
    None
}

/// The names of the ports, in order.
pub fn tags_of_ports(ports: &Vec<Port>) -> (tags: Vec<Tag>)
    ensures
        tags@ == port_tags(ports@),
{
    let mut tags: Vec<Tag> = Vec::new();
    let mut i: usize = 0;
    while i < ports.len()
        invariant
            i <= ports.len(),
            tags@ == port_tags(ports@).take(i as int),
        decreases ports.len() - i,
    {
        tags.push(ports[i].tag);
        i += 1;
    }
    tags
}

/// One vector of zeros for each port, of the width of the port.
pub fn scratch<T: Copy + Default>(ports: &Vec<Port>) -> (v: Vec<Vec<T>>)
    ensures
        shaped(v@, ports@),
{
    let mut v: Vec<Vec<T>> = Vec::new();
    let mut i: usize = 0;
    while i < ports.len()
        invariant
            i <= ports.len(),
            v.len() == i,
            forall|j: int| 0 <= j < i ==> (#[trigger] v[j]).len() == ports[j].width,
        decreases ports.len() - i,
    {
        v.push(zeros(ports[i].width));
        i += 1;
    }
    v
}

/// Whether `v` holds one vector for each port, of the width of the port.
pub fn is_shaped<T>(v: &Vec<Vec<T>>, ports: &Vec<Port>) -> (r: bool)
    ensures
        r == shaped(v@, ports@),
{
    if v.len() != ports.len() {
        return false;
    }
    let mut i: usize = 0;
    while i < ports.len()
        invariant
            i <= ports.len(),
            v.len() == ports.len(),
            forall|j: int| 0 <= j < i ==> (#[trigger] v[j]).len() == ports[j].width,
        decreases ports.len() - i,
    {
        if v[i].len() != ports[i].width {
            return false;
        }
        i += 1;
    }
    true
}

impl<T, K> Controller<T, K> {
    /// Whether the controller hangs together: it holds inputs and outputs
    /// for each port, of the width of the port.
    pub open spec fn wf(&self) -> bool {
        shaped(self.u@, self.u_ports@) && shaped(self.y@, self.y_ports@)
    }

    /// Whether the inputs of `after` are those of `self` once `data` has
    /// been handed over.
    pub open spec fn takes(&self, data: Seq<IO<Vec<T>>>, after: &Self) -> bool {
        forall|i: int|
            0 <= i < self.u_ports.len() ==> (#[trigger] after.u[i])@ == fed(
                self.u[i]@,
                data,
                self.u_ports[i].tag,
            )
    }

    /// The outputs of every port, each under the name of its port.
    pub open spec fn given_out(&self) -> Seq<IO<Vec<T>>> {
        Seq::new(
            self.y_ports@.len(),
            |i: int| (IO { tag: self.y_ports[i].tag, data: Some(self.y[i]) }),
        )
    }

    /// Whether the controller hangs together.
    pub fn is_well_formed(&self) -> (r: bool)
        ensures
            r == self.wf(),
    {
        is_shaped(&self.u, &self.u_ports) && is_shaped(&self.y, &self.y_ports)
    }
}

impl<T, K> IOTags for Controller<T, K> {
    fn outputs_tags(&self) -> (tags: Vec<Tag>)
        ensures
            tags@ == port_tags(self.y_ports@),
    {
        tags_of_ports(&self.y_ports)
    }

    fn inputs_tags(&self) -> (tags: Vec<Tag>)
        ensures
            tags@ == port_tags(self.u_ports@),
    {
        tags_of_ports(&self.u_ports)
    }
}

impl<T: Copy + Default, K: StepFunction<T>> Controller<T, K> {
    /// The controller of the step function `kernel` with the ports
    /// `u_ports` and `y_ports`, its inputs and outputs at zero.
    pub fn new(u_ports: Vec<Port>, y_ports: Vec<Port>, kernel: K) -> (r: Self)
        ensures
            r.wf(),
            r.u_ports == u_ports,
            r.y_ports == y_ports,
            r.kernel == kernel,
    {
        let u = scratch(&u_ports);
        let y = scratch(&y_ports);
        Controller { u_ports, y_ports, u, y, kernel }
    }
}

impl<T: Copy, K: StepFunction<T>> Controller<T, K> {
    /// Copies into the inputs of each port what `data` supplies under the
    /// name of the port, as far as the port is wide; fails where `data`
    /// supplies nothing for some port, with the names of these ports.
    pub fn inputs(&mut self, data: Vec<IO<Vec<T>>>) -> (r: Result<(), DOSError>)
        requires
            old(self).wf(),
        ensures
            final(self).wf(),
            old(self).takes(data@, final(self)),
            r is Ok == (missing(port_tags(old(self).u_ports@), data@).len() == 0),
            r is Err ==> (r matches Err(DOSError::Inputs(m)) && m@ == missing(
                port_tags(old(self).u_ports@),
                data@,
            )),
            final(self).u_ports == old(self).u_ports,
            final(self).y_ports == old(self).y_ports,
            final(self).y == old(self).y,
            final(self).kernel == old(self).kernel,
    {
        let ghost tags = port_tags(self.u_ports@);
        let mut absent: Vec<Tag> = Vec::new();
        let mut i: usize = 0;
        while i < self.u_ports.len()
            invariant
                i <= self.u_ports.len(),
                self.wf(),
                self.u_ports == old(self).u_ports,
                self.y_ports == old(self).y_ports,
                self.y == old(self).y,
                self.kernel == old(self).kernel,
                tags == port_tags(self.u_ports@),
                absent@ == missing(tags.take(i as int), data@),
                forall|j: int|
                    0 <= j < i ==> (#[trigger] self.u[j])@ == fed(
                        old(self).u[j]@,
                        data@,
                        self.u_ports[j].tag,
                    ),
                forall|j: int| i <= j < self.u_ports.len() ==> (#[trigger] self.u[j]) == old(self).u[j],
            decreases self.u_ports.len() - i,
        {
            let tag = self.u_ports[i].tag;
            proof {
                assert(tags.take(i + 1).drop_last() == tags.take(i as int));
            }
            match find_given(&data, tag) {
                Some(at) => {
                    match &data[at].data {
                        Some(values) => {
                            let held = overlaid(&self.u[i], values);
                            self.u.set(i, held);
                        },
                        None => {},
                    }
                },
                None => {
                    absent.push(tag);
                },
            }
            i += 1;
        }
        proof {
            assert(tags.take(tags.len() as int) == tags);
        }
        if absent.len() > 0 {
            Err(DOSError::Inputs(absent))
        } else {
            Ok(())
        }
    }

    /// Advances the controller by one step: hands the inputs that it holds
    /// to its step function, once, and keeps what the step gives as its
    /// outputs; fails, and keeps its outputs as they are, where the step does
    /// not give one vector for each output port, of the width of the port.
    pub fn step(&mut self) -> (r: Result<(), DOSError>)
        requires
            old(self).wf(),
        ensures
            final(self).wf(),
            r is Err ==> r->Err_0 == DOSError::Step && final(self).y == old(self).y,
            final(self).u_ports == old(self).u_ports,
            final(self).y_ports == old(self).y_ports,
            final(self).u == old(self).u,
            exists|kernel: &mut K, y: Vec<Vec<T>>|
                mut_ref_current(kernel) == old(self).kernel
                    && mut_ref_future(kernel) == final(self).kernel
                    && #[trigger] call_ensures(K::advance, (kernel, &old(self).u), y)
                    && old(self).keeps(y, final(self), r),
    {
        let y = self.kernel.advance(&self.u);
        if is_shaped(&y, &self.y_ports) {
            self.y = y;
            Ok(())
        } else {
            Err(DOSError::Step)
        }
    }

    /// The outputs of every port, each under the name of its port, in the
    /// order of the ports.
    pub fn outputs(&self) -> (r: Option<Vec<IO<Vec<T>>>>)
        requires
            self.wf(),
        ensures
            r is Some,
            gives_all(r->0@, self.y_ports@, self.y@),
    {
        let mut out: Vec<IO<Vec<T>>> = Vec::new();
        let mut i: usize = 0;
        while i < self.y_ports.len()
            invariant
                i <= self.y_ports.len(),
                self.wf(),
                out.len() == i,
                forall|j: int|
                    0 <= j < i ==> (#[trigger] out[j]).tag == self.y_ports[j].tag && out[j].data
                        is Some && out[j].data->0@ == self.y[j]@,
            decreases self.y_ports.len() - i,
        {
            out.push(IO::with(self.y_ports[i].tag, copy_of(&self.y[i])));
            i += 1;
        }
        Some(out)
    }

    /// The outputs asked for by `tags`, in the order of `tags`; fails at
    /// the first of `tags` that names no output port.
    pub fn outputs_for(&self, tags: &Vec<Tag>) -> (r: Result<Vec<IO<Vec<T>>>, DOSError>)
        requires
            self.wf(),
        ensures
            r is Ok == (forall|i: int|
                0 <= i < tags.len() ==> any_where(self.y_ports@, is_named(#[trigger] tags[i]))),
            r is Ok ==> gives_for(r->Ok_0@, tags@, self.y_ports@, self.y@),
            r is Err ==> r->Err_0 == DOSError::OutputUnavailable(
                tags[first_where(tags@, |t: Tag| !any_where(self.y_ports@, is_named(t)))],
            ),
    {
        let mut out: Vec<IO<Vec<T>>> = Vec::new();
        let mut i: usize = 0;
        while i < tags.len()
            invariant
                i <= tags.len(),
                self.wf(),
                out.len() == i,
                forall|j: int| 0 <= j < i ==> any_where(self.y_ports@, is_named(#[trigger] tags[j])),
                forall|j: int|
                    0 <= j < i ==> (#[trigger] out[j]).tag == tags[j] && out[j].data is Some
                        && out[j].data->0@ == self.y[first_where(
                        self.y_ports@,
                        is_named(tags[j]),
                    )]@,
            decreases tags.len() - i,
        {
            match port_position(&self.y_ports, tags[i]) {
                Some(at) => {
                    out.push(IO::with(tags[i], copy_of(&self.y[at])));
                },
                None => {
                    proof {
                        let p = |t: Tag| !any_where(self.y_ports@, is_named(t));
                        assert forall|j: int| 0 <= j < i implies !p(tags@[j]) by {
                            assert(any_where(self.y_ports@, is_named(tags[j])));
                        }
                        lemma_first_where_is(tags@, p, i as int);
                    }
                    return Err(DOSError::OutputUnavailable(tags[i]));
                },
            }
            i += 1;
        }
        Ok(out)
    }

    /// Hands the inputs over, advances the controller by one step, and gives
    /// the outputs: [`Self::inputs`], then [`Self::step`], then
    /// [`Self::outputs`], and nothing else. Where an input is missing the
    /// step function is not called.
    pub fn in_step_out(&mut self, data: Vec<IO<Vec<T>>>) -> (r: Result<
        Option<Vec<IO<Vec<T>>>>,
        DOSError,
    >)
        requires
            old(self).wf(),
        ensures
            final(self).wf(),
            final(self).u_ports == old(self).u_ports,
            final(self).y_ports == old(self).y_ports,
            missing(port_tags(old(self).u_ports@), data@).len() > 0 ==> (r matches Err(
                DOSError::Inputs(m),
            ) && m@ == missing(port_tags(old(self).u_ports@), data@) && final(self).y == old(
                self,
            ).y),
            r is Ok ==> r->Ok_0 is Some && gives_all(
                r->Ok_0->0@,
                old(self).y_ports@,
                final(self).y@,
            ),
            r is Err && missing(port_tags(old(self).u_ports@), data@).len() == 0 ==> r->Err_0
                == DOSError::Step && final(self).y == old(self).y,
            old(self).takes(data@, final(self)),
            missing(port_tags(old(self).u_ports@), data@).len() > 0 ==> final(self).kernel == old(
                self,
            ).kernel,
            missing(port_tags(old(self).u_ports@), data@).len() == 0 ==> exists|
                kernel: &mut K,
                y: Vec<Vec<T>>,
            |
                mut_ref_current(kernel) == old(self).kernel
                    && mut_ref_future(kernel) == final(self).kernel
                    && #[trigger] call_ensures(K::advance, (kernel, &final(self).u), y)
                    && old(self).steps(y, final(self), r),
    {
        match self.inputs(data) {
            Ok(_) => {},
            Err(e) => {
                return Err(e);
            },
        }
        match self.step() {
            Ok(_) => {},
            Err(e) => {
                return Err(e);
            },
        }
        Ok(self.outputs())
    }
}

/// The port named `tag` of width `width`.
pub open spec fn port(tag: Tag, width: usize) -> Port {
    Port { tag, width }
}

/// The input ports of the controller of the mount: the angles of the
/// encoders of the three axes.
pub fn mount_controller_inputs() -> (ports: Vec<Port>)
    ensures
        ports@ == seq![
            port(Tag::OSSAzEncoderAngle, 6),
            port(Tag::OSSElEncoderAngle, 4),
            port(Tag::OSSRotEncoderAngle, 4),
        ],
{
    let mut ports: Vec<Port> = Vec::new();
    ports.push(Port { tag: Tag::OSSAzEncoderAngle, width: 6 });
    ports.push(Port { tag: Tag::OSSElEncoderAngle, width: 4 });
    ports.push(Port { tag: Tag::OSSRotEncoderAngle, width: 4 });
    ports
}

/// The output port of the controller of the mount: the command to the
/// drives.
pub fn mount_controller_outputs() -> (ports: Vec<Port>)
    ensures
        ports@ == seq![port(Tag::MountCmd, 3)],
{
    let mut ports: Vec<Port> = Vec::new();
    ports.push(Port { tag: Tag::MountCmd, width: 3 });
    ports
}

/// The input ports of the drives of the mount: the command, and the angles
/// of the encoders of the three axes.
pub fn mount_drives_inputs() -> (ports: Vec<Port>)
    ensures
        ports@ == seq![
            port(Tag::MountCmd, 3),
            port(Tag::OSSAzEncoderAngle, 6),
            port(Tag::OSSElEncoderAngle, 4),
            port(Tag::OSSRotEncoderAngle, 4),
        ],
{
    let mut ports: Vec<Port> = Vec::new();
    ports.push(Port { tag: Tag::MountCmd, width: 3 });
    ports.push(Port { tag: Tag::OSSAzEncoderAngle, width: 6 });
    ports.push(Port { tag: Tag::OSSElEncoderAngle, width: 4 });
    ports.push(Port { tag: Tag::OSSRotEncoderAngle, width: 4 });
    ports
}

/// The output ports of the drives of the mount: the torques on the three
/// axes.
pub fn mount_drives_outputs() -> (ports: Vec<Port>)
    ensures
        ports@ == seq![
            port(Tag::OSSAzDriveTorque, 12),
            port(Tag::OSSElDriveTorque, 4),
            port(Tag::OSSRotDriveTorque, 4),
        ],
{
    let mut ports: Vec<Port> = Vec::new();
    ports.push(Port { tag: Tag::OSSAzDriveTorque, width: 12 });
    ports.push(Port { tag: Tag::OSSElDriveTorque, width: 4 });
    ports.push(Port { tag: Tag::OSSRotDriveTorque, width: 4 });
    ports
}

/// The input ports of the load cells of the hardpoints of the primary
/// mirror: the command to the hardpoints, and their displacements.
pub fn m1_hardpoints_inputs() -> (ports: Vec<Port>)
    ensures
        ports@ == seq![port(Tag::M1HPCmd, 42), port(Tag::OSSHardpointD, 42)],
{
    let mut ports: Vec<Port> = Vec::new();
    ports.push(Port { tag: Tag::M1HPCmd, width: 42 });
    ports.push(Port { tag: Tag::OSSHardpointD, width: 42 });
    ports
}

/// The output port of the load cells of the hardpoints of the primary
/// mirror.
pub fn m1_hardpoints_outputs() -> (ports: Vec<Port>)
    ensures
        ports@ == seq![port(Tag::M1HPLC, 42)],
{
    let mut ports: Vec<Port> = Vec::new();
    ports.push(Port { tag: Tag::M1HPLC, width: 42 });
    ports
}

/// The input port of the controller of the centre of gravity of the
/// primary mirror: the load cells of the hardpoints.
pub fn m1_cg_inputs() -> (ports: Vec<Port>)
    ensures
        ports@ == seq![port(Tag::M1HPLC, 42)],
{
    let mut ports: Vec<Port> = Vec::new();
    ports.push(Port { tag: Tag::M1HPLC, width: 42 });
    ports
}

/// The output port of the controller of the centre of gravity of the
/// primary mirror: the forces and moments on the mirror.
pub fn m1_cg_outputs() -> (ports: Vec<Port>)
    ensures
        ports@ == seq![port(Tag::M1CGFM, 42)],
{
    let mut ports: Vec<Port> = Vec::new();
    ports.push(Port { tag: Tag::M1CGFM, width: 42 });
    ports
}

impl<T, K> Controller<T, K> {
    /// Whether `after` keeps the outputs `y` that the step function has
    /// given, where they hold one vector for each output port, of the width
    /// of the port, and the outputs of `self` where they do not.
    pub open spec fn settles(&self, y: Vec<Vec<T>>, after: &Self) -> bool {
        if shaped(y@, self.y_ports@) {
            after.y == y
        } else {
            after.y == self.y
        }
    }

    /// Whether `after` and `r` are what the controller makes of the outputs
    /// `y` that its step function has given: it keeps and gives them, each
    /// under the name of its port, where they hold one vector for each
    /// output port, of the width of the port; it keeps its outputs as they
    /// are and fails where they do not.
    pub open spec fn gives(
        &self,
        y: Vec<Vec<T>>,
        after: &Self,
        r: Result<Vec<IO<Vec<T>>>, DOSError>,
    ) -> bool {
        if shaped(y@, self.y_ports@) {
            &&& r matches Ok(out)
            &&& after.y == y
            &&& gives_all(out@, self.y_ports@, after.y@)
        } else {
            r == Err::<Vec<IO<Vec<T>>>, DOSError>(DOSError::Step) && after.y == self.y
        }
    }

    /// Whether `after` and `r` are what the controller makes of the outputs
    /// `y` that its step function has given, once it has been handed its
    /// inputs: it keeps them and gives them, each under the name of its
    /// port, where they hold one vector for each output port, of the width
    /// of the port; it keeps its outputs as they are and fails where they do
    /// not.
    pub open spec fn steps(
        &self,
        y: Vec<Vec<T>>,
        after: &Self,
        r: Result<Option<Vec<IO<Vec<T>>>>, DOSError>,
    ) -> bool {
        if shaped(y@, self.y_ports@) {
            &&& r matches Ok(Some(out))
            &&& after.y == y
            &&& gives_all(out@, self.y_ports@, after.y@)
        } else {
            r == Err::<Option<Vec<IO<Vec<T>>>>, DOSError>(DOSError::Step) && after.y == self.y
        }
    }

    /// Whether `after` and `r` are what the controller makes of the outputs
    /// `y` that its step function has given: it keeps them and succeeds
    /// where they hold one vector for each output port, of the width of the
    /// port; it keeps its outputs as they are and fails where they do not.
    pub open spec fn keeps(&self, y: Vec<Vec<T>>, after: &Self, r: Result<(), DOSError>) -> bool {
        if shaped(y@, self.y_ports@) {
            r is Ok && after.y == y
        } else {
            r == Err::<(), DOSError>(DOSError::Step) && after.y == self.y
        }
    }
}

} // verus!
