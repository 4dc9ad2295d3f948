//! Kernels that find their buffers inside one large buffer: each logical
//! buffer starts at an offset that the push constants give.
use vstd::prelude::*;
use crate::shared::spec_wrapping_sum;

verus! {

/// Push constants of the adder: where the logical buffers `a` and `b` start
/// in the unified buffer, and how long each is.
#[derive(Copy, Clone, Debug)]
pub struct AdderPushConstants {
    /// Offset, in elements, at which buffer `a` starts.
    pub a_offset: u32,
    /// Offset, in elements, at which buffer `b` starts.
    pub b_offset: u32,
    /// Number of elements of each logical buffer.
    pub buffer_size: u32,
    /// Fills the struct up to sixteen bytes.
    pub _padding: u32,
}

/// Push constants of the particle kernels: where the positions and the
/// velocities start in the unified buffer, and how many there are.
#[derive(Copy, Clone, Debug)]
pub struct ParticlePushConstants {
    /// Offset, in elements, at which the positions start.
    pub x_offset: u32,
    /// Offset, in elements, at which the velocities start.
    pub v_offset: u32,
    /// Number of elements of each logical buffer.
    pub buffer_size: u32,
    /// Fills the struct up to sixteen bytes.
    pub _padding: u32,
}

/// What thread `i` of the adder makes of the unified buffer `s`: within the
/// logical buffers, element `i` of `b` is added to element `i` of `a`.
pub open spec fn spec_adder(s: Seq<u32>, i: u32, pc: AdderPushConstants) -> Seq<u32> {
    if i < pc.buffer_size {
        s.update(
            pc.a_offset + i,
            spec_wrapping_sum(s[pc.a_offset + i], s[pc.b_offset + i]),
        )
    } else {
        s
    }
}

/// Thread `i` of the adder over the unified buffer. Threads beyond the
/// logical buffers do nothing.
pub fn adder(i: u32, unified_u32_buffer: &mut [u32], push_constants: &AdderPushConstants)
    requires
        i < push_constants.buffer_size ==> {
            &&& push_constants.a_offset + i < old(unified_u32_buffer)@.len()
            &&& push_constants.b_offset + i < old(unified_u32_buffer)@.len()
        },
    ensures
        final(unified_u32_buffer)@ == spec_adder(old(unified_u32_buffer)@, i, *push_constants),
{
    let index: usize = i as usize;
    let a_offset: usize = push_constants.a_offset as usize;
    let b_offset: usize = push_constants.b_offset as usize;
    let buffer_size: usize = push_constants.buffer_size as usize;

    let len: usize = unified_u32_buffer.len();

    if index < buffer_size {
        assert(a_offset + index < len && b_offset + index < len);
        let a: u32 = unified_u32_buffer[a_offset + index];
        let b: u32 = unified_u32_buffer[b_offset + index];
        unified_u32_buffer[a_offset + index] = a.wrapping_add(b);
    }
}

} // verus!
