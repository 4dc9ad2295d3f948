//! Runners: what executes the kernels.
pub mod cpu;
pub mod device;
pub mod dispatch;
