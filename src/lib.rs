//! A small charged-particle simulation on a fixed-point integer lattice:
//! vector arithmetic, particle storage, a pairwise force step, the
//! tessellation of every particle into a closed box-shaped mesh, and the
//! camera and held-key controls that fly through the scene.

pub mod vec3;
pub mod anomaly;
pub mod magma_ocean;
pub mod moving_around;
pub mod controls;
