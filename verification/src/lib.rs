//! A collision engine for large numbers of discs on a uniform grid.
//!
//! The engine runs on a device, in kernels that this crate does not hold.
//! This crate holds everything about it that is a matter of whole numbers:
//!
//! - the steps of a frame, made on the host, as a reference for the
//!   kernels: the Morton codes of the cells, the slots of
//!   the particles, the radix sort, the prefix sum, the list of collision
//!   cells, the colours of the solver's passes, and the reordering of the
//!   particles (`morton`, `cells`, `grid`, `radix_sort`, `prefix_sum`,
//!   `collision_cells`, `collision_solver`, `particles`, `state`);
//! - what the host decides when it drives the device: the sizes of the
//!   buffers and of the launches, the parameters of the kernels, the
//!   bindings, and the order of the steps (`dispatch`, `compute_shader`,
//!   `gpu_buffer`, `bindings`, `push_constants`);
//! - the laws that make the engine right: a sort is a stable rearrangement
//!   (`sort_spec`), a rearrangement keeps what it moves (`permutation`), no
//!   object stands in two cells of one colour, and no collision is missed
//!   (`overlap`).
//!
//! Positions, radii and the size of the cells are whole numbers of one
//! unit of length, which the host chooses.  What the kernels compute in
//! floating point, the integration step and the correction of
//! overlapping discs, is not part of this crate.

pub mod bindings;
pub mod cells;
pub mod collision_cells;
pub mod collision_solver;
pub mod collision_system;
pub mod compute_shader;
pub mod dispatch;
pub mod gpu_buffer;
pub mod grid;
pub mod input_manager;
pub mod morton;
pub mod overlap;
pub mod particles;
pub mod permutation;
pub mod prefix_sum;
pub mod push_constants;
pub mod radix_sort;
pub mod render_timer;
pub mod sort_spec;
pub mod state;
