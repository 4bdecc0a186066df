//! The closed catalog of names by which components are wired together.

use vstd::prelude::*;
use crate::search::{any_where, first_where, lemma_first_where_is, lemma_none_where};

verus! {

/// The name of an input or an output port.
///
/// Two ports are the same port exactly when their names are equal; what a
/// tagged value carries plays no part in its identity.
#[derive(Clone, Copy, Debug, PartialEq, Eq, Structural, Hash)]
pub enum Tag {
    // forces and moments applied to the structure
    SlewTorques,
    MCM2TE6F,
    MCM2TEIF6F,
    MCM2SmHexF,
    MCM2PMA1F,
    MCM2CP6F,
    MCM2RB6F,
    MCASMCOG6F,
    OSSTrussTEIF6f,
    M1ActuatorsSegment1,
    M1ActuatorsSegment2,
    M1ActuatorsSegment3,
    M1ActuatorsSegment4,
    M1ActuatorsSegment5,
    M1ActuatorsSegment6,
    M1ActuatorsSegment7,
    M1DistributedWindf,
    MCM2GravCS0,
    MCM2PZTS1F,
    MCM2PZTS2F,
    MCM2PZTS3F,
    MCM2PZTS4F,
    MCM2PZTS5F,
    MCM2PZTS6F,
    MCM2PZTS7F,
    MCM2Lcl6F,
    MCM2SmallS16F,
    MCM2SmallS26F,
    MCM2SmallS36F,
    MCM2SmallS46F,
    MCM2SmallS56F,
    MCM2SmallS66F,
    MCM2SmallS76F,
    OSSAzDriveF,
    OSSBASE6F,
    OSSCRING6F,
    OSSCellLcl6F,
    OSSElDriveF,
    OSSGIRDriveF,
    OSSGIR6F,
    OSSGravCS0,
    OSSM1Lcl6F,
    OSSTopEnd6F,
    OSSTruss6F,
    OSSM1FansLcl6F,
    OSSPayloads6F,
    OSSAzDriveTorque,
    OSSElDriveTorque,
    OSSRotDriveTorque,
    OSSHarpointDeltaF,
    // displacements and angles read from the structure
    OSSTrussIF6D,
    OSSGIR6D,
    OSSCRING6D,
    OSSAzDriveD,
    OSSElDriveD,
    OSSGIRDriveD,
    OSSBASE6D,
    OSSM1Lcl,
    OSSM1LOS,
    OSSIMUs6d,
    OSSTruss6d,
    OSSCellLcl,
    MCM2SmallS16D,
    MCM2PZTS1D,
    MCM2SmallS26D,
    MCM2PZTS2D,
    MCM2SmallS36D,
    MCM2PZTS3D,
    MCM2SmallS46D,
    MCM2PZTS4D,
    MCM2SmallS56D,
    MCM2PZTS5D,
    MCM2SmallS66D,
    MCM2PZTS6D,
    MCM2SmallS76D,
    MCM2PZTS7D,
    MCM2Lcl6D,
    MCM2LOS6D,
    M1SurfacesD,
    M1EdgeSensors,
    M1Segment1AxialD,
    M1Segment2AxialD,
    M1Segment3AxialD,
    M1Segment4AxialD,
    M1Segment5AxialD,
    M1Segment6AxialD,
    M1Segment7AxialD,
    MCM2RB6D,
    MCASMCOG6D,
    MCM2CP6D,
    MCM2CP1D,
    MCM2SmHexD,
    M2edgesensors,
    MCM2TEIF6D,
    MCM2TE6D,
    M2ReferenceBody1AxialD,
    M2ReferenceBody2AxialD,
    M2ReferenceBody3AxialD,
    M2ReferenceBody4AxialD,
    M2ReferenceBody5AxialD,
    M2ReferenceBody6AxialD,
    M2ReferenceBody7AxialD,
    OSSM1FansLcl6D,
    OSSPayloads6D,
    OSSAzEncoderAngle,
    OSSElEncoderAngle,
    OSSRotEncoderAngle,
    OSSHardpointD,
    // controllers
    MountCmd,
    M1HPCmd,
    M1HPLC,
    M1CGFM,
}

/// The condition of being the tag `tag`.
pub open spec fn is_tag(tag: Tag) -> spec_fn(Tag) -> bool {
    |t: Tag| t == tag
}

/// Whether `tag` stands in `tags`.
pub open spec fn occurs(tags: Seq<Tag>, tag: Tag) -> bool {
    any_where(tags, is_tag(tag))
}

/// The first place at which `tag` stands in `tags`, or the length of `tags`
/// where it stands nowhere.
pub open spec fn first_place(tags: Seq<Tag>, tag: Tag) -> int {
    first_where(tags, is_tag(tag))
}

/// Where `tag` first stands in `tags`, if anywhere.
pub fn position(tags: &Vec<Tag>, tag: Tag) -> (place: Option<usize>)
    ensures
        match place {
            Some(i) => i == first_place(tags@, tag) && i < tags.len() && tags[i as int] == tag,
            None => !occurs(tags@, tag),
        },
{
    let mut i: usize = 0;
    while i < tags.len()
        invariant
            i <= tags.len(),
            forall|j: int| 0 <= j < i ==> !is_tag(tag)(#[trigger] tags[j]),
        decreases tags.len() - i,
    {
        if tags[i] == tag {
            proof {
                lemma_first_where_is(tags@, is_tag(tag), i as int);
            }
            return Some(i);
        }
        i += 1;
    }
    proof {
        lemma_none_where(tags@, is_tag(tag));
    }
    None
}

/// Whether no tag stands twice in `tags`.
pub open spec fn distinct(tags: Seq<Tag>) -> bool {
    forall|i: int, j: int| 0 <= i < j < tags.len() ==> tags[i] != tags[j]
}

/// Whether no tag stands twice in `tags`.
pub fn are_distinct(tags: &Vec<Tag>) -> (r: bool)
    ensures
        r == distinct(tags@),
{
    let mut j: usize = 0;
    while j < tags.len()
        invariant
            j <= tags.len(),
            forall|a: int, b: int| 0 <= a < b < j ==> tags[a] != tags[b],
        decreases tags.len() - j,
    {
        let mut i: usize = 0;
        while i < j
            invariant
                i <= j < tags.len(),
                forall|a: int| 0 <= a < i ==> tags[a] != tags[j as int],
            decreases j - i,
        {
            if tags[i] == tags[j] {
                return false;
            }
            i += 1;
        }
        j += 1;
    }
    true
}

} // verus!
