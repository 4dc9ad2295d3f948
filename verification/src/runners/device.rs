//! Choices a runner makes from what a device reports about itself.
use vstd::prelude::*;
use crate::error::ChimeraError;

verus! {

/// The most memory types a device reports.
pub const MAX_MEMORY_TYPES: usize = 32;

/// Whether the memory type `i` is admitted by `type_filter`, which has one
/// bit per memory type, and has all the properties asked for.
pub open spec fn spec_memory_type_suits(
    memory_type_flags: Seq<u32>,
    type_filter: u32,
    properties: u32,
    i: int,
) -> bool {
    &&& (type_filter & (1u32 << (i as u32))) != 0
    &&& memory_type_flags[i] & properties == properties
}

/// The first memory type that `type_filter` admits and that has all of
/// `properties`; `memory_type_flags` holds the property flags of each
/// memory type of the device.
pub fn find_memory_type(memory_type_flags: &[u32], type_filter: u32, properties: u32) -> (r:
    Result<u32, ChimeraError>)
    requires
        memory_type_flags@.len() <= MAX_MEMORY_TYPES,
    ensures
        r is Ok ==> {
            &&& r->Ok_0 < memory_type_flags@.len()
            &&& spec_memory_type_suits(
                memory_type_flags@,
                type_filter,
                properties,
                r->Ok_0 as int,
            )
            &&& forall|k: int|
                0 <= k < r->Ok_0 ==> !spec_memory_type_suits(
                    memory_type_flags@,
                    type_filter,
                    properties,
                    k,
                )
        },
        r is Err ==> forall|k: int|
            0 <= k < memory_type_flags@.len() ==> !spec_memory_type_suits(
                memory_type_flags@,
                type_filter,
                properties,
                k,
            ),
        r is Err ==> (r->Err_0 matches ChimeraError::Other(msg) && msg@
            == "Failed to find suitable memory type"@),
{
    let count: usize = memory_type_flags.len();
    let mut i: u32 = 0;
    while (i as usize) < count
        invariant
            i <= count <= MAX_MEMORY_TYPES,
            count == memory_type_flags@.len(),
            forall|k: int|
                0 <= k < i ==> !spec_memory_type_suits(
                    memory_type_flags@,
                    type_filter,
                    properties,
                    k,
                ),
        decreases count - i,
    {
        if (type_filter & (1u32 << i)) != 0 && memory_type_flags[i as usize] & properties
            == properties {
            return Ok(i);
        }
        i = i + 1;
    }
    Err(ChimeraError::Other("Failed to find suitable memory type".to_owned()))
}

} // verus!
