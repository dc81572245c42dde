//! A scene: camera, primitive aggregate and material table.

use vstd::prelude::*;
use crate::camera::{camera_wf, Camera};
use crate::material::{any_material_wf, AnyMaterial};
use crate::primitive::{list_wf, PrimitiveList};
use crate::raw::EDGE_MAX;

verus! {

pub struct Scene {
    pub width: u32,
    pub height: u32,
    pub camera: Camera,
    pub primitives: PrimitiveList,
    pub materials: Vec<AnyMaterial>,
}

/// Every part well formed, and every material index any primitive
/// carries valid for the material table: an out-of-range index would
/// be a programming error, not a recoverable state.
pub open spec fn scene_wf(s: Scene) -> bool {
    &&& 1 <= s.width <= EDGE_MAX
    &&& 1 <= s.height <= EDGE_MAX
    &&& camera_wf(s.camera)
    &&& list_wf(s.primitives)
    &&& forall|i: int| 0 <= i < s.materials@.len() ==> any_material_wf(#[trigger] s.materials@[i])
    &&& forall|i: int|
        0 <= i < s.primitives.bounded@.len() ==> (#[trigger] s.primitives.bounded@[i]).material
            < s.materials@.len()
    &&& forall|i: int|
        0 <= i < s.primitives.unbounded@.len() ==> (#[trigger] s.primitives.unbounded@[i]).material
            < s.materials@.len()
}

} // verus!
