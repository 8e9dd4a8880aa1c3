//! A 2D grid-based ray casting engine.
//!
//! The engine renders a pseudo-3D first-person view of a boolean occupancy
//! grid. All geometry is carried out in a fixed-point representation (values
//! scaled by [`fixed::FX_ONE`]), so every step of the pipeline — grid queries,
//! trigonometry, the dual-sweep ray traversal and the perspective projection —
//! is ordinary integer arithmetic with a proved contract.

pub mod fixed;
pub mod project;
pub mod trig;
pub mod world;

pub use crate::fixed::FX_HALF_PI;
pub use crate::fixed::FX_ONE;
pub use crate::fixed::FX_PI;
pub use crate::fixed::FX_TWO_PI;
pub use crate::project::project_columns;
pub use crate::project::ray_fan;
pub use crate::project::Column;
pub use crate::world::World;
pub use crate::world::WorldError;
pub use crate::world::FX_MAX_COORD;
pub use crate::world::GRID_DIM_LIMIT;
