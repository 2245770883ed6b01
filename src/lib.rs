//! Range-sensor simulation and sampling-based planning on a ray-traced scene:
//! the host-side logic of the scene manager, the sensor pipelines, the dense
//! voxel index and the tree planner.

pub mod dispatch;
pub mod glam_types;
pub mod planner;
pub mod scene;
pub mod voxel;
