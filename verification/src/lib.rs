//! The integer core of a 2-D material-point simulator and of the bitonic
//! sort that runs beside it on the same devices.
//!
//! The simulator scatters the mass and momentum of particles onto a grid.
//! All of its arithmetic on positions, weights and stresses is done in
//! floating point by its driver; what is exact lives here: which cells of
//! the grid a particle reaches ([`shared::grid`]), what each material asks
//! of the constitutive model ([`shared::particles`]), how work is split
//! into groups of threads ([`shared`]), and how buffers and kernels are
//! named and laid out ([`runners::dispatch`]).
//!
//! The sort is a bitonic network. [`kernel`] holds the step of one thread,
//! [`network`] what a whole pass and all passes together make of the data,
//! [`zero_one`] the proof that the network sorts, [`sort`] the driver that
//! pads the keys and hands each pass to a runner, and [`runners::cpu`] the
//! runner that executes a pass on the processor.
pub mod blocks;
pub mod error;
pub mod kernel;
pub mod network;
pub mod runners;
pub mod shaders;
pub mod shared;
pub mod sort;
pub mod zero_one;

pub use shared::{
    add_update, div_ceil_u32, num_workgroups_1d, num_workgroups_2d, BitonicParams,
    CompareDirection, FloatBits, Pass, PushConstants, SortOrder, SortableKey, Stage, ThreadId,
};
pub use sort::{verify_sorted, SortRunner};
