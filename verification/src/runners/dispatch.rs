//! Plans for a chain of kernel invocations, as far as they are plain data:
//! which buffer has which binding, and which invocation uses which entry
//! point and which buffers. Devices, pipelines and descriptor sets are
//! made from these plans elsewhere.
pub mod buffer;
pub mod buffer_specs;
pub mod mapping;
pub mod pipeline_builder;
pub mod unified;
