//! The simulation loop: at each tick the wind loads and the forces of the
//! controllers go into the structure, the structure is advanced by one
//! sample, and what it gives goes to the controllers, each at its own rate.

use vstd::prelude::*;
use crate::controllers::{
    gives_all, is_named, lemma_given_out, port_position, port_tags, shaped, Controller,
    StepFunction,
};
use crate::error::DOSError;
use crate::feedback::{
    carries_difference, carries_sum, is_difference, is_sum, subtracts_freely, Hold,
};
use crate::io::{
    carries, find, first_named, lemma_same_values, lemma_same_values_missing, missing, named,
    same_values, view_of, IOError, IO,
};
use crate::search::{any_where, first_where, lemma_first_where, lemma_first_where_same};
use crate::solver::{
    accepted, adds_freely, is_zero, reported, routed, sliced, sums_to, zeros,
    DiscreteModalSolver, Solver,
};
use crate::tags::{occurs, Tag};
use crate::telltale::TellTale;
use crate::vectors::copy_of;
use crate::wind_loads::WindLoading;

verus! {

/// Lays copies of the values of `more` at the end of `data`.
pub fn extend_with<T: Copy>(data: &mut Vec<IO<Vec<T>>>, more: &Vec<IO<Vec<T>>>)
    ensures
        final(data).len() == old(data).len() + more.len(),
        final(data)@.take(old(data).len() as int) == old(data)@,
        same_values(more@, final(data)@.skip(old(data).len() as int)),
{
    let ghost n = data.len();
    let mut i: usize = 0;
    while i < more.len()
        invariant
            i <= more.len(),
            n == old(data).len(),
            data.len() == n + i,
            data@.take(n as int) == old(data)@,
            same_values(more@.take(i as int), data@.skip(n as int)),
        decreases more.len() - i,
    {
        let ghost before = data@;
        data.push(more[i].duplicate());
        proof {
            let a = more@.take(i + 1);
            let b = data@.skip(n as int);
            assert forall|j: int| 0 <= j < i + 1 implies (#[trigger] b[j]).tag == a[j].tag
                && view_of(b[j]) == view_of(a[j]) by {
                if j < i {
                    assert(before.skip(n as int)[j] == data@.skip(n as int)[j]);
                }
            }
        }
        i += 1;
    }
}

/// Copies of the values of `data`.
pub fn copies<T: Copy>(data: &Vec<IO<Vec<T>>>) -> (r: Vec<IO<Vec<T>>>)
    ensures
        same_values(data@, r@),
{
    let mut r: Vec<IO<Vec<T>>> = Vec::new();
    extend_with(&mut r, data);
    assert(r@.skip(0) == r@);
    r
}

/// Adds what `other` carries to what the first value named `tag` carries;
/// fails where no value of `data` is named `tag`.
pub fn add_at<T: Copy + core::ops::Add<Output = T>>(
    data: &mut Vec<IO<Vec<T>>>,
    tag: Tag,
    other: &IO<Vec<T>>,
) -> (r: Result<(), IOError>)
    requires
        adds_freely::<T>(),
    ensures
        final(data).len() == old(data).len(),
        r is Ok == carries(old(data)@, tag),
        r is Err ==> r->Err_0 == IOError::Missing(tag) && final(data)@ == old(data)@,
        forall|i: int| 0 <= i < old(data).len() ==> (#[trigger] final(data)[i]).tag == old(data)[i].tag,
        forall|i: int|
            0 <= i < old(data).len() && i != first_named(old(data)@, tag) ==> (
            #[trigger] final(data)[i]) == old(data)[i],
        r is Ok ==> is_sum(
            old(data)[first_named(old(data)@, tag)],
            *other,
            final(data)[first_named(old(data)@, tag)],
        ),
{
    match find(data, tag) {
        Some(at) => {
            if data[at].data.is_some() && other.data.is_some() {
                let mut io = data[at].duplicate();
                io.add_assign(other);
                data.set(at, io);
            }
            Ok(())
        },
        None => Err(IOError::Missing(tag)),
    }
}

/// Subtracts what `other` carries from what the first value named `tag`
/// carries; fails where no value of `data` is named `tag`.
pub fn sub_at<T: Copy + core::ops::Sub<Output = T>>(
    data: &mut Vec<IO<Vec<T>>>,
    tag: Tag,
    other: &IO<Vec<T>>,
) -> (r: Result<(), IOError>)
    requires
        subtracts_freely::<T>(),
    ensures
        final(data).len() == old(data).len(),
        r is Ok == carries(old(data)@, tag),
        r is Err ==> r->Err_0 == IOError::Missing(tag) && final(data)@ == old(data)@,
        forall|i: int| 0 <= i < old(data).len() ==> (#[trigger] final(data)[i]).tag == old(data)[i].tag,
        forall|i: int|
            0 <= i < old(data).len() && i != first_named(old(data)@, tag) ==> (
            #[trigger] final(data)[i]) == old(data)[i],
        r is Ok ==> is_difference(
            old(data)[first_named(old(data)@, tag)],
            *other,
            final(data)[first_named(old(data)@, tag)],
        ),
{
    match find(data, tag) {
        Some(at) => {
            if data[at].data.is_some() && other.data.is_some() {
                let mut io = data[at].duplicate();
                io.sub_assign(other);
                data.set(at, io);
            }
            Ok(())
        },
        None => Err(IOError::Missing(tag)),
    }
}

/// Whether the forces that a controller last gave are to be folded in: it
/// has given some.
pub open spec fn folding<T>(held: Option<Vec<IO<Vec<T>>>>) -> bool {
    held is Some && held->0.len() > 0
}

/// Whether `forces` are the forces `base` with what the controller of the
/// primary mirror last gave folded in: added to the forces named
/// `OSSM1Lcl6F` and subtracted from those named `OSSCellLcl6F`, the other
/// forces as they are; `base` itself where the controller has given
/// nothing.
pub open spec fn folded<T: core::ops::Add<Output = T> + core::ops::Sub<Output = T>>(
    base: Seq<IO<Vec<T>>>,
    held: Option<Vec<IO<Vec<T>>>>,
    forces: Seq<IO<Vec<T>>>,
) -> bool {
    if !folding(held) {
        same_values(base, forces)
    } else {
        let p = first_named(base, Tag::OSSM1Lcl6F);
        let q = first_named(base, Tag::OSSCellLcl6F);
        &&& carries(base, Tag::OSSM1Lcl6F)
        &&& carries(base, Tag::OSSCellLcl6F)
        &&& forces.len() == base.len()
        &&& forall|i: int| 0 <= i < base.len() ==> (#[trigger] forces[i]).tag == base[i].tag
        &&& forall|i: int|
            0 <= i < base.len() && i != p && i != q ==> view_of(#[trigger] forces[i]) == view_of(
                base[i],
            )
        &&& carries_sum(view_of(base[p]), held->0[0], forces[p])
        &&& carries_difference(view_of(base[q]), held->0[0], forces[q])
    }
}

/// Whether folding in fails for want of the forces named `tag`: there is
/// something to fold in, and `tag` is the first of `OSSM1Lcl6F` and
/// `OSSCellLcl6F` under which `base` holds nothing.
pub open spec fn unfoldable<T>(base: Seq<IO<Vec<T>>>, held: Option<Vec<IO<Vec<T>>>>, tag: Tag) -> bool {
    &&& folding(held)
    &&& if !carries(base, Tag::OSSM1Lcl6F) {
        tag == Tag::OSSM1Lcl6F
    } else {
        !carries(base, Tag::OSSCellLcl6F) && tag == Tag::OSSCellLcl6F
    }
}

/// Values of the same names stand first under each name at the same place.
pub proof fn lemma_same_tags<T>(a: Seq<IO<Vec<T>>>, b: Seq<IO<Vec<T>>>, tag: Tag)
    requires
        a.len() == b.len(),
        forall|i: int| 0 <= i < a.len() ==> (#[trigger] b[i]).tag == a[i].tag,
    ensures
        carries(b, tag) == carries(a, tag),
        first_named(b, tag) == first_named(a, tag),
{
    assert forall|i: int| 0 <= i < a.len() implies named::<Vec<T>>(tag)(a[i]) == named::<Vec<T>>(
        tag,
    )(b[i]) by {
        assert(b[i].tag == a[i].tag);
    }
    lemma_first_where_same(a, named(tag), b, named(tag));
}

/// What is folded into forces is folded into any forces that hold the same
/// values.
pub proof fn lemma_folded_same<T: core::ops::Add<Output = T> + core::ops::Sub<Output = T>>(
    base: Seq<IO<Vec<T>>>,
    other: Seq<IO<Vec<T>>>,
    held: Option<Vec<IO<Vec<T>>>>,
    forces: Seq<IO<Vec<T>>>,
)
    requires
        same_values(base, other),
        folded(base, held, forces),
    ensures
        folded(other, held, forces),
{
    lemma_same_values(base, other, Tag::OSSM1Lcl6F);
    lemma_same_values(base, other, Tag::OSSCellLcl6F);
    if folding(held) {
        lemma_first_where(base, named(Tag::OSSM1Lcl6F));
        lemma_first_where(base, named(Tag::OSSCellLcl6F));
        let p = first_named(base, Tag::OSSM1Lcl6F);
        let q = first_named(base, Tag::OSSCellLcl6F);
        assert forall|i: int| 0 <= i < other.len() implies (#[trigger] forces[i]).tag
            == other[i].tag by {
            assert(other[i].tag == base[i].tag);
        }
        assert forall|i: int| 0 <= i < other.len() && i != p && i != q implies view_of(
            #[trigger] forces[i],
        ) == view_of(other[i]) by {
            assert(view_of(other[i]) == view_of(base[i]));
        }
    } else {
        assert forall|i: int| 0 <= i < other.len() implies (#[trigger] forces[i]).tag
            == other[i].tag && view_of(forces[i]) == view_of(other[i]) by {
            assert(other[i].tag == base[i].tag && view_of(other[i]) == view_of(base[i]));
        }
    }
}

/// What is folded into forces carries something where the forces do, under
/// the same names: the structure accepts the one where it accepts the other,
/// and misses the same inputs.
pub proof fn lemma_folded_accepts<T: core::ops::Add<Output = T> + core::ops::Sub<Output = T>>(
    tags: Seq<Tag>,
    base: Seq<IO<Vec<T>>>,
    held: Option<Vec<IO<Vec<T>>>>,
    forces: Seq<IO<Vec<T>>>,
)
    requires
        folded(base, held, forces),
    ensures
        accepted(tags, forces) == accepted(tags, base),
        missing(tags, forces) == missing(tags, base),
{
    lemma_first_where(base, named(Tag::OSSM1Lcl6F));
    lemma_first_where(base, named(Tag::OSSCellLcl6F));
    assert forall|i: int| 0 <= i < base.len() implies (#[trigger] forces[i]).tag == base[i].tag
        && forces[i].data is Some == base[i].data is Some by {
        if folding(held) {
            let p = first_named(base, Tag::OSSM1Lcl6F);
            let q = first_named(base, Tag::OSSCellLcl6F);
            if i != p && i != q {
                assert(view_of(forces[i]) == view_of(base[i]));
            }
        } else {
            assert(view_of(forces[i]) == view_of(base[i]));
        }
    }
    assert forall|tag: Tag| crate::io::supplied(forces, tag) == crate::io::supplied(
        base,
        tag,
    ) by {
        assert forall|i: int| 0 <= i < base.len() implies crate::io::gives::<Vec<T>>(tag)(base[i])
            == crate::io::gives::<Vec<T>>(tag)(forces[i]) by {
            assert(forces[i].tag == base[i].tag);
        }
        lemma_first_where_same(base, crate::io::gives(tag), forces, crate::io::gives(tag));
    }
    crate::io::lemma_missing_same(tags, forces, base);
    assert(crate::solver::expected(tags, forces) == crate::solver::expected(tags, base)) by {
        assert forall|j: int| 0 <= j < base.len() implies (#[trigger] forces[j]).tag
            == base[j].tag && forces[j].data is Some == base[j].data is Some by {}
        if crate::solver::expected(tags, base) {
            assert forall|j: int| 0 <= j < forces.len() implies occurs(
                tags,
                (#[trigger] forces[j]).tag,
            ) && forces[j].data is Some by {
                assert(occurs(tags, base[j].tag) && base[j].data is Some);
            }
        }
        if crate::solver::expected(tags, forces) {
            assert forall|j: int| 0 <= j < base.len() implies occurs(
                tags,
                (#[trigger] base[j]).tag,
            ) && base[j].data is Some by {
                assert(occurs(tags, forces[j].tag) && forces[j].data is Some);
            }
        }
    }
}

/// The forces on the structure at a tick: the wind loads `wind`, then the
/// torques that the drives gave at the tick before, with the forces that
/// the controller of the primary mirror last gave, if it gave any, added to
/// those on the segments of the primary mirror and subtracted from those on
/// its cells.
pub fn fold_in<T: Copy + core::ops::Add<Output = T> + core::ops::Sub<Output = T>>(
    wind: Vec<IO<Vec<T>>>,
    torques: &Vec<IO<Vec<T>>>,
    held: &Hold<Vec<IO<Vec<T>>>>,
) -> (r: Result<Vec<IO<Vec<T>>>, IOError>)
    requires
        adds_freely::<T>(),
        subtracts_freely::<T>(),
    ensures
        r is Ok ==> folded(wind@ + torques@, held.last, r->Ok_0@),
        r is Err ==> (r->Err_0 matches IOError::Missing(tag) && unfoldable(
            wind@ + torques@,
            held.last,
            tag,
        )),
{
    let ghost base = wind@ + torques@;
    let mut forces = wind;
    extend_with(&mut forces, torques);
    let ghost laid = forces@;
    proof {
        assert forall|i: int| 0 <= i < base.len() implies (#[trigger] laid[i]).tag == base[i].tag
            && view_of(laid[i]) == view_of(base[i]) by {
            if i < wind.len() {
                assert(laid.take(wind.len() as int)[i] == laid[i]);
            } else {
                assert(laid.skip(wind.len() as int)[i - wind.len()] == laid[i]);
            }
        }
        lemma_same_values(base, laid, Tag::OSSM1Lcl6F);
        lemma_same_values(base, laid, Tag::OSSCellLcl6F);
    }
    match held.held() {
        Some(x) => {
            if x.len() > 0 {
                match add_at(&mut forces, Tag::OSSM1Lcl6F, &x[0]) {
                    Ok(_) => {},
                    Err(e) => {
                        return Err(e);
                    },
                }
                let ghost added = forces@;
                proof {
                    lemma_same_tags(laid, added, Tag::OSSCellLcl6F);
                }
                match sub_at(&mut forces, Tag::OSSCellLcl6F, &x[0]) {
                    Ok(_) => {},
                    Err(e) => {
                        return Err(e);
                    },
                }
                proof {
                    let p = first_named(base, Tag::OSSM1Lcl6F);
                    let q = first_named(base, Tag::OSSCellLcl6F);
                    lemma_first_where(base, named(Tag::OSSM1Lcl6F));
                    lemma_first_where(base, named(Tag::OSSCellLcl6F));
                    assert forall|i: int| 0 <= i < base.len() && i != p && i != q implies view_of(
                        #[trigger] forces@[i],
                    ) == view_of(base[i]) by {
                        assert(forces@[i] == added[i]);
                    }
                    assert forall|i: int| 0 <= i < base.len() implies (#[trigger] forces@[i]).tag
                        == base[i].tag by {
                        assert(added[i].tag == laid[i].tag);
                    }
                }
            }
        },
        None => {},
    }
    Ok(forces)
}

/// Runs the controller of the mount on what the structure gave, then the
/// drives on the command of the controller and on what the structure gave,
/// and gives the torques of the drives. The drives are left as they are
/// where the controller is not handed all its inputs or its step fails.
pub fn run_mount<T: Copy, C: StepFunction<T>, D: StepFunction<T>>(
    mnt_ctrl: &mut Controller<T, C>,
    mnt_drives: &mut Controller<T, D>,
    fem_outputs: &Vec<IO<Vec<T>>>,
) -> (r: Result<Vec<IO<Vec<T>>>, DOSError>)
    requires
        old(mnt_ctrl).wf(),
        old(mnt_drives).wf(),
    ensures
        final(mnt_ctrl).wf(),
        final(mnt_drives).wf(),
        final(mnt_ctrl).u_ports == old(mnt_ctrl).u_ports,
        final(mnt_ctrl).y_ports == old(mnt_ctrl).y_ports,
        final(mnt_drives).u_ports == old(mnt_drives).u_ports,
        final(mnt_drives).y_ports == old(mnt_drives).y_ports,
        old(mnt_ctrl).takes(fem_outputs@, final(mnt_ctrl)),
        missing(port_tags(old(mnt_ctrl).u_ports@), fem_outputs@).len() > 0 ==> (r matches Err(
            DOSError::Inputs(m),
        ) && m@ == missing(port_tags(old(mnt_ctrl).u_ports@), fem_outputs@)),
        missing(port_tags(old(mnt_ctrl).u_ports@), fem_outputs@).len() > 0 ==> {
            &&& final(mnt_ctrl).kernel == old(mnt_ctrl).kernel
            &&& final(mnt_ctrl).y == old(mnt_ctrl).y
            &&& *final(mnt_drives) == *old(mnt_drives)
        },
        missing(port_tags(old(mnt_ctrl).u_ports@), fem_outputs@).len() == 0 ==> exists|
            k1: &mut C,
            y1: Vec<Vec<T>>,
        |
            mut_ref_current(k1) == old(mnt_ctrl).kernel
                && mut_ref_future(k1) == final(mnt_ctrl).kernel
                && #[trigger] call_ensures(C::advance, (k1, &final(mnt_ctrl).u), y1)
                && old(mnt_ctrl).settles(y1, final(mnt_ctrl))
                && if !shaped(y1@, old(mnt_ctrl).y_ports@) {
                r == Err::<Vec<IO<Vec<T>>>, DOSError>(DOSError::Step)
                    && *final(mnt_drives) == *old(mnt_drives)
            } else {
                old(mnt_drives).takes(
                    final(mnt_ctrl).given_out() + fem_outputs@,
                    final(mnt_drives),
                ) && if missing(
                    port_tags(old(mnt_drives).u_ports@),
                    final(mnt_ctrl).given_out() + fem_outputs@,
                ).len() > 0 {
                    (r matches Err(DOSError::Inputs(m)) && m@ == missing(
                        port_tags(old(mnt_drives).u_ports@),
                        final(mnt_ctrl).given_out() + fem_outputs@,
                    )) && final(mnt_drives).kernel == old(mnt_drives).kernel
                        && final(mnt_drives).y == old(mnt_drives).y
                } else {
                    exists|k2: &mut D, y2: Vec<Vec<T>>|
                        mut_ref_current(k2) == old(mnt_drives).kernel
                            && mut_ref_future(k2) == final(mnt_drives).kernel
                            && #[trigger] call_ensures(D::advance, (k2, &final(mnt_drives).u), y2)
                            && old(mnt_drives).gives(y2, final(mnt_drives), r)
                }
            },
        r is Err ==> (r->Err_0 is Inputs || r->Err_0 == DOSError::Step),
        r is Ok ==> {
            let command = final(mnt_ctrl).given_out() + fem_outputs@;
            &&& missing(port_tags(old(mnt_ctrl).u_ports@), fem_outputs@).len() == 0
            &&& missing(port_tags(old(mnt_drives).u_ports@), command).len() == 0
            &&& old(mnt_drives).takes(command, final(mnt_drives))
            &&& gives_all(r->Ok_0@, final(mnt_drives).y_ports@, final(mnt_drives).y@)
        },
{
    let outputs = copies(fem_outputs);
    proof {
        lemma_same_values_missing(port_tags(mnt_ctrl.u_ports@), fem_outputs@, outputs@);
    }
    let ghost ctrl = *mnt_ctrl;
    let mut command = match mnt_ctrl.in_step_out(outputs) {
        Ok(Some(out)) => out,
        Ok(None) => {
            return Err(DOSError::Outputs);
        },
        Err(e) => {
            proof {
                lemma_takes_to(ctrl, outputs@, fem_outputs@, *mnt_ctrl);
            }
            return Err(e);
        },
    };
    proof {
        lemma_takes_to(ctrl, outputs@, fem_outputs@, *mnt_ctrl);
    }
    let ghost given = command@;
    extend_with(&mut command, fem_outputs);
    let ghost want = mnt_ctrl.given_out() + fem_outputs@;
    proof {
        lemma_given_out(*mnt_ctrl, given);
        assert forall|i: int| 0 <= i < want.len() implies (#[trigger] command@[i]).tag
            == want[i].tag && view_of(command@[i]) == view_of(want[i]) by {
            if i < given.len() {
                assert(command@.take(given.len() as int)[i] == command@[i]);
            } else {
                assert(command@.skip(given.len() as int)[i - given.len()] == command@[i]);
            }
        }
        lemma_same_values_missing(port_tags(mnt_drives.u_ports@), want, command@);
    }
    let ghost drives = *mnt_drives;
    let ghost handed = command@;
    let torques = mnt_drives.in_step_out(command);
    proof {
        lemma_takes_to(drives, handed, want, *mnt_drives);
    }
    match torques {
        Ok(Some(out)) => Ok(out),
        Ok(None) => Err(DOSError::Outputs),
        Err(e) => Err(e),
    }
}

/// What a controller takes of a list of values, it takes of any list that
/// holds the same values.
pub proof fn lemma_takes_to<T, K>(
    before: Controller<T, K>,
    data: Seq<IO<Vec<T>>>,
    other: Seq<IO<Vec<T>>>,
    after: Controller<T, K>,
)
    requires
        same_values(other, data) || same_values(data, other),
        before.takes(data, &after),
    ensures
        before.takes(other, &after),
{
    assert forall|i: int| 0 <= i < before.u_ports.len() implies (#[trigger] after.u[i])@
        == crate::controllers::fed(before.u[i]@, other, before.u_ports[i].tag) by {
        if same_values(other, data) {
            lemma_same_values(other, data, before.u_ports[i].tag);
        } else {
            lemma_same_values(data, other, before.u_ports[i].tag);
        }
    }
}

/// Whether `z` is a command of zeros to the hardpoints: as wide as the
/// first of `ports` named `M1HPCmd`, of no width where there is none.
pub open spec fn zero_command<T: Default>(ports: Seq<crate::controllers::Port>, z: Vec<T>) -> bool {
    &&& z.len() == (if any_where(ports, is_named(Tag::M1HPCmd)) {
        ports[first_where(ports, is_named(Tag::M1HPCmd))].width
    } else {
        0
    })
    &&& forall|i: int| 0 <= i < z.len() ==> is_zero(#[trigger] z[i])
}

/// Whether `after` is the load cells of the hardpoints once they have been
/// handed a command of zeros and then `outputs`.
pub open spec fn commanded<T: Default, H>(
    before: Controller<T, H>,
    outputs: Seq<IO<Vec<T>>>,
    after: Controller<T, H>,
) -> bool {
    exists|z: Vec<T>| #[trigger]
        zero_command(before.u_ports@, z) && before.takes(
            seq![(IO { tag: Tag::M1HPCmd, data: Some(z) })] + outputs,
            &after,
        )
}

/// Runs the load cells of the hardpoints of the primary mirror on a command
/// of zeros and on what the structure gave, then the controller of the
/// centre of gravity on what the load cells give, and gives the forces of
/// the controller. The controller is left as it is where the load cells are
/// not handed all their inputs or their step fails.
pub fn run_m1<T: Copy + Default, H: StepFunction<T>, G: StepFunction<T>>(
    m1_hardpoints: &mut Controller<T, H>,
    m1_ctrl: &mut Controller<T, G>,
    fem_outputs: &Vec<IO<Vec<T>>>,
) -> (r: Result<Vec<IO<Vec<T>>>, DOSError>)
    requires
        old(m1_hardpoints).wf(),
        old(m1_ctrl).wf(),
    ensures
        final(m1_hardpoints).wf(),
        final(m1_ctrl).wf(),
        final(m1_hardpoints).u_ports == old(m1_hardpoints).u_ports,
        final(m1_hardpoints).y_ports == old(m1_hardpoints).y_ports,
        final(m1_ctrl).u_ports == old(m1_ctrl).u_ports,
        final(m1_ctrl).y_ports == old(m1_ctrl).y_ports,
        commanded(*old(m1_hardpoints), fem_outputs@, *final(m1_hardpoints)),
        exists|z: Vec<T>| #[trigger]
            zero_command(old(m1_hardpoints).u_ports@, z) && old(m1_hardpoints).takes(
                seq![(IO { tag: Tag::M1HPCmd, data: Some(z) })] + fem_outputs@,
                final(m1_hardpoints),
            ) && if missing(
                port_tags(old(m1_hardpoints).u_ports@),
                seq![(IO { tag: Tag::M1HPCmd, data: Some(z) })] + fem_outputs@,
            ).len() > 0 {
                (r matches Err(DOSError::Inputs(m)) && m@ == missing(
                    port_tags(old(m1_hardpoints).u_ports@),
                    seq![(IO { tag: Tag::M1HPCmd, data: Some(z) })] + fem_outputs@,
                )) && final(m1_hardpoints).kernel == old(m1_hardpoints).kernel
                    && final(m1_hardpoints).y == old(m1_hardpoints).y
                    && *final(m1_ctrl) == *old(m1_ctrl)
            } else {
                exists|k1: &mut H, y1: Vec<Vec<T>>|
                    mut_ref_current(k1) == old(m1_hardpoints).kernel
                        && mut_ref_future(k1) == final(m1_hardpoints).kernel
                        && #[trigger] call_ensures(H::advance, (k1, &final(m1_hardpoints).u), y1)
                        && old(m1_hardpoints).settles(y1, final(m1_hardpoints))
                        && if !shaped(y1@, old(m1_hardpoints).y_ports@) {
                        r == Err::<Vec<IO<Vec<T>>>, DOSError>(DOSError::Step)
                            && *final(m1_ctrl) == *old(m1_ctrl)
                    } else {
                        old(m1_ctrl).takes(final(m1_hardpoints).given_out(), final(m1_ctrl))
                            && if missing(
                            port_tags(old(m1_ctrl).u_ports@),
                            final(m1_hardpoints).given_out(),
                        ).len() > 0 {
                            (r matches Err(DOSError::Inputs(m)) && m@ == missing(
                                port_tags(old(m1_ctrl).u_ports@),
                                final(m1_hardpoints).given_out(),
                            )) && final(m1_ctrl).kernel == old(m1_ctrl).kernel
                                && final(m1_ctrl).y == old(m1_ctrl).y
                        } else {
                            exists|k2: &mut G, y2: Vec<Vec<T>>|
                                mut_ref_current(k2) == old(m1_ctrl).kernel
                                    && mut_ref_future(k2) == final(m1_ctrl).kernel
                                    && #[trigger] call_ensures(
                                    G::advance,
                                    (k2, &final(m1_ctrl).u),
                                    y2,
                                ) && old(m1_ctrl).gives(y2, final(m1_ctrl), r)
                        }
                    }
            },
        r is Err ==> (r->Err_0 is Inputs || r->Err_0 == DOSError::Step),
        r is Ok ==> {
            &&& missing(port_tags(old(m1_ctrl).u_ports@), final(m1_hardpoints).given_out()).len()
                == 0
            &&& old(m1_ctrl).takes(final(m1_hardpoints).given_out(), final(m1_ctrl))
            &&& gives_all(r->Ok_0@, final(m1_ctrl).y_ports@, final(m1_ctrl).y@)
        },
{
    let width = match port_position(&m1_hardpoints.u_ports, Tag::M1HPCmd) {
        Some(at) => m1_hardpoints.u_ports[at].width,
        None => 0,
    };
    let z: Vec<T> = zeros(width);
    let ghost command = seq![(IO { tag: Tag::M1HPCmd, data: Some(z) })] + fem_outputs@;
    let mut m1_hp: Vec<IO<Vec<T>>> = Vec::new();
    m1_hp.push(IO::with(Tag::M1HPCmd, copy_of(&z)));
    extend_with(&mut m1_hp, fem_outputs);
    proof {
        assert(zero_command(m1_hardpoints.u_ports@, z));
        assert forall|i: int| 0 <= i < command.len() implies (#[trigger] m1_hp@[i]).tag
            == command[i].tag && view_of(m1_hp@[i]) == view_of(command[i]) by {
            if i < 1 {
                assert(m1_hp@.take(1)[i] == m1_hp@[i]);
            } else {
                assert(m1_hp@.skip(1)[i - 1] == m1_hp@[i]);
            }
        }
    }
    let ghost hardpoints = *m1_hardpoints;
    let ghost handed = m1_hp@;
    proof {
        lemma_same_values_missing(port_tags(m1_hardpoints.u_ports@), command, handed);
    }
    let cells = m1_hardpoints.in_step_out(m1_hp);
    proof {
        lemma_takes_to(hardpoints, handed, command, *m1_hardpoints);
    }
    let load_cells = match cells {
        Ok(Some(out)) => out,
        Ok(None) => {
            return Err(DOSError::Outputs);
        },
        Err(e) => {
            return Err(e);
        },
    };
    proof {
        lemma_given_out(*m1_hardpoints, load_cells@);
        lemma_same_values_missing(
            port_tags(m1_ctrl.u_ports@),
            m1_hardpoints.given_out(),
            load_cells@,
        );
    }
    let ghost ctrl = *m1_ctrl;
    let ghost told = load_cells@;
    let forces = m1_ctrl.in_step_out(load_cells);
    proof {
        lemma_takes_to(ctrl, told, m1_hardpoints.given_out(), *m1_ctrl);
    }
    match forces {
        Ok(Some(out)) => Ok(out),
        Ok(None) => Err(DOSError::Outputs),
        Err(e) => Err(e),
    }
}

/// The structure in closed loop with the controllers of the mount and of
/// the primary mirror, under the wind loads.
pub struct ControlLoop<T, M, C, D, H, G> {
    pub wind_loading: WindLoading<T>,
    pub fem: DiscreteModalSolver<T, M>,
    /// the controller of the mount, from the encoders to the command
    pub mnt_ctrl: Controller<T, C>,
    /// the drives of the mount, from the command and the encoders to the
    /// torques
    pub mnt_drives: Controller<T, D>,
    /// the load cells of the hardpoints of the primary mirror
    pub m1_hardpoints: Controller<T, H>,
    /// the controller of the centre of gravity of the primary mirror
    pub m1_ctrl: Controller<T, G>,
    pub data: TellTale<T>,
    /// the torques that the drives gave at the tick before
    pub mount_drives_forces: Vec<IO<Vec<T>>>,
    /// the forces that the controller of the primary mirror last gave
    pub m1_cg_fm: Hold<Vec<IO<Vec<T>>>>,
}

impl<T, M, C, D, H, G> ControlLoop<T, M, C, D, H, G> {
    /// Whether the loop hangs together: each of its components does, and
    /// the controller of the primary mirror runs every so many ticks.
    pub open spec fn wf(&self) -> bool {
        &&& self.fem.wf()
        &&& self.mnt_ctrl.wf()
        &&& self.mnt_drives.wf()
        &&& self.m1_hardpoints.wf()
        &&& self.m1_ctrl.wf()
        &&& self.m1_cg_fm.period > 0
    }

    /// Whether the loop hangs together.
    pub fn is_well_formed(&self) -> (r: bool)
        ensures
            r == self.wf(),
    {
        self.fem.is_well_formed() && self.mnt_ctrl.is_well_formed()
            && self.mnt_drives.is_well_formed() && self.m1_hardpoints.is_well_formed()
            && self.m1_ctrl.is_well_formed() && self.m1_cg_fm.period > 0
    }

    /// Whether the ports of the components of `after` are those of `self`.
    pub open spec fn same_ports(&self, after: &Self) -> bool {
        &&& after.fem.u_tags == self.fem.u_tags
        &&& after.fem.y_tags == self.fem.y_tags
        &&& after.fem.y_sizes == self.fem.y_sizes
        &&& after.mnt_ctrl.u_ports == self.mnt_ctrl.u_ports
        &&& after.mnt_ctrl.y_ports == self.mnt_ctrl.y_ports
        &&& after.mnt_drives.u_ports == self.mnt_drives.u_ports
        &&& after.mnt_drives.y_ports == self.mnt_drives.y_ports
        &&& after.m1_hardpoints.u_ports == self.m1_hardpoints.u_ports
        &&& after.m1_hardpoints.y_ports == self.m1_hardpoints.y_ports
        &&& after.m1_ctrl.u_ports == self.m1_ctrl.u_ports
        &&& after.m1_ctrl.y_ports == self.m1_ctrl.y_ports
        &&& after.m1_cg_fm.period == self.m1_cg_fm.period
        &&& after.wind_loading.loads == self.wind_loading.loads
        &&& after.wind_loading.n_sample == self.wind_loading.n_sample
        &&& after.data.keys == self.data.keys
    }

    /// Whether the controllers of the primary mirror run at the present
    /// tick: the tick is a multiple of their period.
    pub open spec fn due(&self) -> bool {
        self.wind_loading.tick as int % self.m1_cg_fm.period as int == 0
    }

    /// The forces of the present tick before anything is folded in: the
    /// wind loads, then the torques that the drives gave at the tick before.
    pub open spec fn base(&self) -> Seq<IO<Vec<T>>> {
        self.wind_loading.sample() + self.mount_drives_forces@
    }

    /// Whether the forces on the primary mirror can be folded in: there are
    /// none, or the forces of the tick hold those on the segments and those
    /// on the cells of the primary mirror.
    pub open spec fn foldable(&self) -> bool {
        folding(self.m1_cg_fm.last) ==> carries(self.base(), Tag::OSSM1Lcl6F) && carries(
            self.base(),
            Tag::OSSCellLcl6F,
        )
    }

    /// Whether the structure is run at the present tick: the wind loads
    /// have a sample left, the forces on the primary mirror can be folded
    /// in, and the forces hold one value for each input of the structure,
    /// each carrying something, and nothing else.
    pub open spec fn structure_runs(&self) -> bool {
        self.wind_loading.ready() && self.foldable() && accepted(self.fem.u_tags@, self.base())
    }

    /// Whether the logger and the forces held for the primary mirror are in
    /// `after` as they are in `self`.
    pub open spec fn stays_after_m1(&self, after: &Self) -> bool {
        after.m1_cg_fm == self.m1_cg_fm && after.data == self.data
    }

    /// Whether the controllers of the primary mirror, the forces held for
    /// it and the logger are in `after` as they are in `self`.
    pub open spec fn stays_after_mount(&self, after: &Self) -> bool {
        &&& after.m1_hardpoints == self.m1_hardpoints
        &&& after.m1_ctrl == self.m1_ctrl
        &&& self.stays_after_m1(after)
    }

    /// Whether all but the wind loads and the structure is in `after` as it
    /// is in `self`.
    pub open spec fn stays_after_structure(&self, after: &Self) -> bool {
        &&& after.mnt_ctrl == self.mnt_ctrl
        &&& after.mnt_drives == self.mnt_drives
        &&& after.mount_drives_forces == self.mount_drives_forces
        &&& self.stays_after_mount(after)
    }

    /// Whether all but the wind loads is in `after` as it is in `self`.
    pub open spec fn only_wind_moved(&self, after: &Self) -> bool {
        after.fem == self.fem && self.stays_after_structure(after)
    }

    /// Whether `after` and `r` are what a tick makes of `self` once the
    /// structure has given `out`, the mount has ended with `rm` and, at a
    /// tick at which they run, the controllers of the primary mirror with
    /// `r1`: a failure of either ends the tick with that failure and leaves
    /// what comes after it as it is; else the torques of the drives are kept
    /// for the next tick, the forces of the controller of the primary
    /// mirror are kept where it has run and held where it has not, and the
    /// logger goes to its next tick and logs `out`, or fails where its tick
    /// index cannot grow.
    pub open spec fn outcome(
        &self,
        after: &Self,
        out: Seq<IO<Vec<T>>>,
        rm: Result<Vec<IO<Vec<T>>>, DOSError>,
        r1: Result<Vec<IO<Vec<T>>>, DOSError>,
        r: Result<Option<Vec<IO<Vec<T>>>>, DOSError>,
    ) -> bool {
        &&& sliced(out, self.fem.y_tags@, self.fem.y_sizes@, after.fem.y@)
        &&& r matches Ok(Some(o)) ==> o@ == out
        &&& rm is Err ==> r is Err && r->Err_0 == rm->Err_0 && self.stays_after_mount(after)
            && after.mount_drives_forces == self.mount_drives_forces
        &&& rm matches Ok(torques) ==> after.mount_drives_forces == torques
        &&& rm is Ok && self.due() && r1 is Err ==> r is Err && r->Err_0 == r1->Err_0
            && self.stays_after_m1(after)
        &&& rm is Ok && self.due() ==> (r1 matches Ok(forces) ==> after.m1_cg_fm.last == Some(
            forces,
        ))
        &&& rm is Ok && !self.due() ==> after.m1_hardpoints == self.m1_hardpoints && after.m1_ctrl
            == self.m1_ctrl && after.m1_cg_fm == self.m1_cg_fm
        &&& rm is Ok && (self.due() ==> r1 is Ok) ==> if self.data.index == Some(usize::MAX) {
            r == Err::<Option<Vec<IO<Vec<T>>>>, DOSError>(
                DOSError::TellTale(crate::telltale::TellTaleError::Step),
            ) && after.data == self.data
        } else {
            r is Ok && self.data.logged(out, &after.data)
        }
    }
}

impl<T, M, C, D, H, G> ControlLoop<T, M, C, D, H, G> where
    T: Default + core::ops::Add<Output = T> + core::ops::Sub<Output = T>,
 {
    /// Whether the structure of `after` has been handed the forces of the
    /// present tick: the wind loads, then the torques that the drives gave
    /// at the tick before, with the forces on the primary mirror folded in.
    pub open spec fn forced(&self, after: &Self) -> bool {
        exists|forces: Seq<IO<Vec<T>>>| #[trigger]
            folded(
                self.wind_loading.sample() + self.mount_drives_forces@,
                self.m1_cg_fm.last,
                forces,
            ) && accepted(self.fem.u_tags@, forces) && after.fem.u@ == routed(
                self.fem.u_tags@,
                forces,
            )
    }

    /// Whether `after` is what a tick that has run to its end makes of
    /// `self`, the structure having given `out`.
    pub open spec fn ran(&self, after: &Self, out: Seq<IO<Vec<T>>>) -> bool {
        &&& self.forced(after)
        &&& sliced(out, self.fem.y_tags@, self.fem.y_sizes@, after.fem.y@)
        &&& self.mnt_ctrl.takes(out, &after.mnt_ctrl)
        &&& self.mnt_drives.takes(after.mnt_ctrl.given_out() + out, &after.mnt_drives)
        &&& gives_all(after.mount_drives_forces@, after.mnt_drives.y_ports@, after.mnt_drives.y@)
        &&& if self.due() {
            &&& commanded(self.m1_hardpoints, out, after.m1_hardpoints)
            &&& self.m1_ctrl.takes(after.m1_hardpoints.given_out(), &after.m1_ctrl)
            &&& after.m1_cg_fm.last is Some
            &&& gives_all(after.m1_cg_fm.last->0@, after.m1_ctrl.y_ports@, after.m1_ctrl.y@)
        } else {
            &&& after.m1_hardpoints == self.m1_hardpoints
            &&& after.m1_ctrl == self.m1_ctrl
            &&& after.m1_cg_fm == self.m1_cg_fm
        }
        &&& self.data.logged(out, &after.data)
    }
}

impl<T, M, C, D, H, G> ControlLoop<T, M, C, D, H, G> where
    T: Copy + Default + core::ops::Add<Output = T> + core::ops::Sub<Output = T> + Send + Sync,
    M: Solver<T> + Send,
    C: StepFunction<T>,
    D: StepFunction<T>,
    H: StepFunction<T>,
    G: StepFunction<T>,
 {
    /// The loop before its first tick: the drives have given `torques`, the
    /// controller of the primary mirror runs every `period` ticks and has
    /// given nothing yet.
    pub fn new(
        wind_loading: WindLoading<T>,
        fem: DiscreteModalSolver<T, M>,
        mnt_ctrl: Controller<T, C>,
        mnt_drives: Controller<T, D>,
        m1_hardpoints: Controller<T, H>,
        m1_ctrl: Controller<T, G>,
        data: TellTale<T>,
        torques: Vec<IO<Vec<T>>>,
        period: usize,
    ) -> (r: Self)
        ensures
            r.wind_loading == wind_loading,
            r.fem == fem,
            r.mnt_ctrl == mnt_ctrl,
            r.mnt_drives == mnt_drives,
            r.m1_hardpoints == m1_hardpoints,
            r.m1_ctrl == m1_ctrl,
            r.data == data,
            r.mount_drives_forces == torques,
            r.m1_cg_fm.period == period,
            r.m1_cg_fm.last is None,
    {
        ControlLoop {
            wind_loading,
            fem,
            mnt_ctrl,
            mnt_drives,
            m1_hardpoints,
            m1_ctrl,
            data,
            mount_drives_forces: torques,
            m1_cg_fm: Hold::new(period),
        }
    }

    /// One tick of the simulation: gives what the structure gave at this
    /// tick, or nothing once the wind loads have no sample left, and then
    /// nothing has changed.
    ///
    /// The wind loads of the tick and the torques of the drives at the tick
    /// before, with the forces on the primary mirror folded in, go into the
    /// structure, which is advanced by one sample. What it gives goes to the
    /// controller of the mount and to the drives, and, at the ticks that are
    /// a multiple of the period of the controllers of the primary mirror, to
    /// these; at the other ticks their forces are held. The logger goes to
    /// its next tick and is told what the structure gave under the names
    /// that it keeps.
    ///
    /// A tick fails where something to fold into is missing, where a
    /// component is not handed all its inputs, where a mode of the structure
    /// reports a state that is not finite, where a step function gives
    /// outputs of another shape than its ports, and where the tick index of
    /// the logger cannot grow; the components that have run by then have
    /// run, and those that come after have not.
    pub fn tick(&mut self) -> (r: Result<Option<Vec<IO<Vec<T>>>>, DOSError>)
        requires
            old(self).wf(),
            adds_freely::<T>(),
            subtracts_freely::<T>(),
        ensures
            final(self).wf(),
            old(self).same_ports(final(self)),
            !old(self).wind_loading.ready() ==> (r matches Ok(None)) && *final(self) == *old(self),
            old(self).wind_loading.ready() ==> !(r matches Ok(None)),
            old(self).wind_loading.ready() ==> final(self).wind_loading.tick == old(
                self,
            ).wind_loading.tick + 1,
            r matches Ok(Some(out)) ==> old(self).ran(final(self), out@),
            forall|tag: Tag|
                old(self).wind_loading.ready() && #[trigger] unfoldable(
                    old(self).base(),
                    old(self).m1_cg_fm.last,
                    tag,
                ) ==> r == Err::<Option<Vec<IO<Vec<T>>>>, DOSError>(
                    DOSError::IO(IOError::Missing(tag)),
                ) && old(self).only_wind_moved(final(self)),
            old(self).wind_loading.ready() && old(self).foldable() && !accepted(
                old(self).fem.u_tags@,
                old(self).base(),
            ) ==> (r matches Err(DOSError::Inputs(m)) && m@ == missing(
                old(self).fem.u_tags@,
                old(self).base(),
            )) && old(self).only_wind_moved(final(self)),
            old(self).structure_runs() ==> old(self).forced(final(self)),
            old(self).structure_runs() ==> exists|gave: Seq<Vec<T>>, solvers: Seq<&mut M>|
                #![trigger sums_to(gave, final(self).fem.y@), solvers.len()]
                gave.len() == old(self).fem.state_space.len()
                    && solvers.len() == old(self).fem.state_space.len()
                    && sums_to(gave, final(self).fem.y@)
                    && forall|k: int|
                    0 <= k < old(self).fem.state_space.len() ==> {
                        &&& mut_ref_current(#[trigger] solvers[k]) == old(self).fem.state_space[k]
                        &&& mut_ref_future(solvers[k]) == final(self).fem.state_space[k]
                        &&& call_ensures(M::solve, (solvers[k], &final(self).fem.u), gave[k])
                    },
            old(self).structure_runs() ==> reported(
                final(self).fem.state_space@,
                !(r matches Err(DOSError::NumericOverflow)),
            ),
            old(self).structure_runs() && (r matches Err(DOSError::NumericOverflow)) ==> old(
                self,
            ).stays_after_structure(final(self)),
            old(self).structure_runs() && !(r matches Err(DOSError::NumericOverflow)) ==> exists|
                out: Seq<IO<Vec<T>>>,
                rm: Result<Vec<IO<Vec<T>>>, DOSError>,
                r1: Result<Vec<IO<Vec<T>>>, DOSError>,
            | #[trigger]
                old(self).outcome(final(self), out, rm, r1, r) && (old(self).mnt_ctrl.takes(out, &final(self).mnt_ctrl)
                    && if missing(port_tags(old(self).mnt_ctrl.u_ports@), out).len() > 0 {
                    (rm matches Err(DOSError::Inputs(m)) && m@ == missing(
                        port_tags(old(self).mnt_ctrl.u_ports@),
                        out,
                    )) && final(self).mnt_ctrl.kernel == old(self).mnt_ctrl.kernel
                        && final(self).mnt_ctrl.y == old(self).mnt_ctrl.y
                        && final(self).mnt_drives == old(self).mnt_drives
                } else {
                    exists|k1: &mut C, y1: Vec<Vec<T>>|
                        mut_ref_current(k1) == old(self).mnt_ctrl.kernel
                            && mut_ref_future(k1) == final(self).mnt_ctrl.kernel
                            && #[trigger] call_ensures(
                            C::advance,
                            (k1, &final(self).mnt_ctrl.u),
                            y1,
                        ) && old(self).mnt_ctrl.settles(y1, &final(self).mnt_ctrl)
                            && if !shaped(y1@, old(self).mnt_ctrl.y_ports@) {
                            rm == Err::<Vec<IO<Vec<T>>>, DOSError>(DOSError::Step)
                                && final(self).mnt_drives == old(self).mnt_drives
                        } else {
                            old(self).mnt_drives.takes(
                                final(self).mnt_ctrl.given_out() + out,
                                &final(self).mnt_drives,
                            ) && if missing(
                                port_tags(old(self).mnt_drives.u_ports@),
                                final(self).mnt_ctrl.given_out() + out,
                            ).len() > 0 {
                                (rm matches Err(DOSError::Inputs(m)) && m@ == missing(
                                    port_tags(old(self).mnt_drives.u_ports@),
                                    final(self).mnt_ctrl.given_out() + out,
                                )) && final(self).mnt_drives.kernel == old(self).mnt_drives.kernel
                                    && final(self).mnt_drives.y == old(self).mnt_drives.y
                            } else {
                                exists|k2: &mut D, y2: Vec<Vec<T>>|
                                    mut_ref_current(k2) == old(self).mnt_drives.kernel
                                        && mut_ref_future(k2) == final(self).mnt_drives.kernel
                                        && #[trigger] call_ensures(
                                        D::advance,
                                        (k2, &final(self).mnt_drives.u),
                                        y2,
                                    ) && old(self).mnt_drives.gives(y2, &final(self).mnt_drives, rm)
                            }
                        }
                }) && (rm is Ok && old(
                    self,
                ).due() ==> (exists|z: Vec<T>| #[trigger]
                    zero_command(old(self).m1_hardpoints.u_ports@, z) && old(
                        self,
                    ).m1_hardpoints.takes(
                        seq![(IO { tag: Tag::M1HPCmd, data: Some(z) })] + out,
                        &final(self).m1_hardpoints,
                    ) && if missing(
                        port_tags(old(self).m1_hardpoints.u_ports@),
                        seq![(IO { tag: Tag::M1HPCmd, data: Some(z) })] + out,
                    ).len() > 0 {
                        (r1 matches Err(DOSError::Inputs(m)) && m@ == missing(
                            port_tags(old(self).m1_hardpoints.u_ports@),
                            seq![(IO { tag: Tag::M1HPCmd, data: Some(z) })] + out,
                        )) && final(self).m1_hardpoints.kernel == old(self).m1_hardpoints.kernel
                            && final(self).m1_hardpoints.y == old(self).m1_hardpoints.y
                            && final(self).m1_ctrl == old(self).m1_ctrl
                    } else {
                        exists|k3: &mut H, y3: Vec<Vec<T>>|
                            mut_ref_current(k3) == old(self).m1_hardpoints.kernel
                                && mut_ref_future(k3) == final(self).m1_hardpoints.kernel
                                && #[trigger] call_ensures(
                                H::advance,
                                (k3, &final(self).m1_hardpoints.u),
                                y3,
                            ) && old(self).m1_hardpoints.settles(y3, &final(self).m1_hardpoints)
                                && if !shaped(y3@, old(self).m1_hardpoints.y_ports@) {
                                r1 == Err::<Vec<IO<Vec<T>>>, DOSError>(DOSError::Step)
                                    && final(self).m1_ctrl == old(self).m1_ctrl
                            } else {
                                old(self).m1_ctrl.takes(
                                    final(self).m1_hardpoints.given_out(),
                                    &final(self).m1_ctrl,
                                ) && if missing(
                                    port_tags(old(self).m1_ctrl.u_ports@),
                                    final(self).m1_hardpoints.given_out(),
                                ).len() > 0 {
                                    (r1 matches Err(DOSError::Inputs(m)) && m@ == missing(
                                        port_tags(old(self).m1_ctrl.u_ports@),
                                        final(self).m1_hardpoints.given_out(),
                                    )) && final(self).m1_ctrl.kernel == old(self).m1_ctrl.kernel
                                        && final(self).m1_ctrl.y == old(self).m1_ctrl.y
                                } else {
                                    exists|k4: &mut G, y4: Vec<Vec<T>>|
                                        mut_ref_current(k4) == old(self).m1_ctrl.kernel
                                            && mut_ref_future(k4) == final(self).m1_ctrl.kernel
                                            && #[trigger] call_ensures(
                                            G::advance,
                                            (k4, &final(self).m1_ctrl.u),
                                            y4,
                                        ) && old(self).m1_ctrl.gives(y4, &final(self).m1_ctrl, r1)
                                }
                            }
                    })),
            r is Err ==> (r->Err_0 is IO || r->Err_0 is Inputs || r->Err_0 == DOSError::Step
                || r->Err_0 == DOSError::NumericOverflow || r->Err_0 is TellTale),
            r matches Err(DOSError::IO(e)) ==> (e matches IOError::Missing(tag) && unfoldable(
                old(self).wind_loading.sample() + old(self).mount_drives_forces@,
                old(self).m1_cg_fm.last,
                tag,
            )),
            r matches Err(DOSError::TellTale(e)) ==> old(self).data.index == Some(usize::MAX),
    {
        let tick = self.wind_loading.tick;
        let ghost sample = self.wind_loading.sample();
        let wind = match self.wind_loading.outputs() {
            Some(wind) => wind,
            None => {
                return Ok(None);
            },
        };
        let ghost blown = wind@;
        proof {
            let base = blown + self.mount_drives_forces@;
            let other = sample + self.mount_drives_forces@;
            assert forall|i: int| 0 <= i < base.len() implies (#[trigger] other[i]).tag
                == base[i].tag && view_of(other[i]) == view_of(base[i]) by {
                if i < blown.len() {
                    assert(blown[i].tag == sample[i].tag);
                }
            }
            lemma_same_values(base, other, Tag::OSSM1Lcl6F);
            lemma_same_values(base, other, Tag::OSSCellLcl6F);
        }
        let fem_forces = match fold_in(wind, &self.mount_drives_forces, &self.m1_cg_fm) {
            Ok(forces) => forces,
            Err(e) => {
                return Err(DOSError::IO(e));
            },
        };
        proof {
            lemma_folded_same(
                blown + self.mount_drives_forces@,
                sample + self.mount_drives_forces@,
                self.m1_cg_fm.last,
                fem_forces@,
            );
            lemma_folded_accepts(
                self.fem.u_tags@,
                old(self).base(),
                self.m1_cg_fm.last,
                fem_forces@,
            );
        }
        let ghost forces = fem_forces@;
        let fem_outputs = match self.fem.in_step_out(fem_forces) {
            Ok(Some(out)) => out,
            Ok(None) => {
                return Err(DOSError::Outputs);
            },
            Err(e) => {
                return Err(e);
            },
        };
        assert(old(self).forced(self)) by {
            assert(folded(
                old(self).wind_loading.sample() + old(self).mount_drives_forces@,
                old(self).m1_cg_fm.last,
                forces,
            ));
        }
        let ghost out = fem_outputs@;
        let ghost unused = Err::<Vec<IO<Vec<T>>>, DOSError>(DOSError::Step);
        let mounted = run_mount(&mut self.mnt_ctrl, &mut self.mnt_drives, &fem_outputs);
        let ghost rm = mounted;
        let torques = match mounted {
            Ok(torques) => torques,
            Err(e) => {
                assert(old(self).outcome(self, out, rm, unused, Err(e)));
                return Err(e);
            },
        };
        self.mount_drives_forces = torques;
        let ghost mut r1 = unused;
        let due = self.m1_cg_fm.is_due(tick);
        assert(due == old(self).due());
        if due {
            let ran = run_m1(&mut self.m1_hardpoints, &mut self.m1_ctrl, &fem_outputs);
            proof {
                r1 = ran;
            }
            let forces = match ran {
                Ok(forces) => forces,
                Err(e) => {
                    assert(old(self).outcome(self, out, rm, r1, Err(e)));
                    return Err(e);
                },
            };
            self.m1_cg_fm.store(forces);
        }
        let ghost mid = *self;
        match self.data.log(&fem_outputs) {
            Ok(_) => {},
            Err(e) => {
                assert(old(self).outcome(self, out, rm, r1, Err(DOSError::TellTale(e))));
                return Err(DOSError::TellTale(e));
            },
        }
        let result = Ok(Some(fem_outputs));
        assert(self.m1_hardpoints == mid.m1_hardpoints);
        assert(self.m1_ctrl == mid.m1_ctrl);
        assert(self.mnt_ctrl == mid.mnt_ctrl);
        assert(self.mnt_drives == mid.mnt_drives);
        assert(old(self).outcome(self, out, rm, r1, result));
        result
    }
}

} // verus!
