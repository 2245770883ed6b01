//! Declarations that let the library carry glam's vector and transform
//! types through its logic. The values are opaque: nothing here reads them.
use vstd::prelude::*;

verus! {

/// glam::Vec3, a 3D point: the position of a voxel item.
#[verifier::external_type_specification]
#[verifier::external_body]
pub struct ExVec3(glam::Vec3);

/// glam::Vec4, a homogeneous point: planner samples, targets and tree nodes.
#[verifier::external_type_specification]
#[verifier::external_body]
pub struct ExVec4(glam::Vec4);

/// glam::Affine3A, a rigid or affine placement: the transform of an instance.
#[verifier::external_type_specification]
#[verifier::external_body]
pub struct ExAffine3A(glam::Affine3A);

} // verus!
