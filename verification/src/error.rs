//! Errors of the runners.
use vstd::prelude::*;

verus! {

/// What can go wrong while the picture of a step is drawn.
#[derive(Debug)]
pub enum GraphicsError {
    /// No physical device can draw.
    NoSuitableDevice,
    /// The shader module has no vertex entry point of this name.
    VertexShaderEntryPointNotFound(String),
    /// The shader module has no fragment entry point of this name.
    FragmentShaderEntryPointNotFound(String),
    /// The render pass has no subpass.
    SubpassCreationFailed,
    /// The device offers no queue.
    NoQueueAvailable,
    /// The surface offers no format.
    NoSurfaceFormatsAvailable,
    /// The surface offers no composite alpha mode.
    NoCompositeAlphaModesAvailable,
    /// The queue family with this index cannot present to the surface.
    QueueDoesNotSupportPresentation(u32),
    /// The pipeline has no descriptor set layout at this index.
    NoDescriptorSetLayout(usize),
}

/// What can go wrong while a runner prepares or runs a kernel.
#[derive(Debug)]
pub enum ChimeraError {
    /// No adapter can run compute kernels.
    NoAdapter,
    /// None of this many devices is suitable.
    NoVulkanDevice(usize),
    /// This many elements of this many bytes each do not fit in a buffer.
    BufferSizeOverflow(usize, usize),
    /// The mapped memory is smaller than what was asked for.
    InsufficientMappedMemory { mapped: u64, expected: u64 },
    /// No kernel module of this name.
    KernelNotFound(String),
    /// No queue family can run compute kernels.
    NoComputeQueue,
    /// No buffer of this name among those handed in.
    DescriptorSetNameNotFound(String),
    /// The drawing side failed.
    Graphics(GraphicsError),
    /// Anything else, in words.
    Other(String),
}

} // verus!
