//! Running the kernels on the processor, thread after thread.
use vstd::prelude::*;
use vstd::arithmetic::power2::lemma_pow2_pos;
use crate::error::ChimeraError;
use crate::kernel::{bitonic_sort_step, spec_distance, spec_step_defined};
use crate::network::{
    lemma_partner_involution, lemma_step_extends_prefix, spec_pass, spec_pass_at,
    spec_pass_defined, spec_pass_prefix_at,
};
use crate::shared::{BitonicParams, SortOrder, ThreadId};
use crate::sort::{spec_order_of, SortRunner};

verus! {

/// Runner that executes a pass on the processor itself: the threads of the
/// pass run their steps one after the other.
pub struct CpuRunner;

impl SortRunner for CpuRunner {
    /// The processor never fails a pass.
    open spec fn spec_infallible(&self) -> bool {
        true
    }

    fn backend_info(&self) -> (r: (
        &'static str,
        Option<&'static str>,
        Option<String>,
        Option<String>,
    ))
        ensures
            r.0@ == "cpu"@,
            r.1 is Some && r.1->Some_0@ == "Native"@,
            r.2 is None,
            r.3 is None,
    {
        ("cpu", Some("Native"), None, None)
    }

    fn execute_kernel_pass(&self, data: &mut [u32], params: BitonicParams) -> (r: Result<
        (),
        ChimeraError,
    >) {
        let ghost orig: Seq<u32> = data@;
        let ghost order = spec_order_of(params.sort_order);
        let mut thread_idx: u32 = 0;
        while thread_idx < params.num_elements
            invariant
                thread_idx <= params.num_elements,
                params.sort_order <= 1,
                order == spec_order_of(params.sort_order),
                data@.len() == orig.len(),
                spec_pass_defined(
                    orig.len(),
                    params.stage.0,
                    params.pass_of_stage.0,
                    params.num_elements,
                ),
                forall|i: int|
                    0 <= i < orig.len() ==> data@[i] == spec_pass_prefix_at(
                        orig,
                        i,
                        thread_idx as int,
                        params.stage.0,
                        params.pass_of_stage.0,
                        params.num_elements,
                        order,
                    ),
            decreases params.num_elements - thread_idx,
        {
            let thread_id = ThreadId::new(thread_idx);
            let sort_order = SortOrder::try_from_u32(params.sort_order).unwrap();
            proof {
                assert(spec_step_defined(
                    thread_idx,
                    orig.len(),
                    params.stage.0,
                    params.pass_of_stage.0,
                    params.num_elements,
                ));
                lemma_step_extends_prefix(
                    orig,
                    data@,
                    thread_idx,
                    params.stage.0,
                    params.pass_of_stage.0,
                    params.num_elements,
                    order,
                );
            }
            bitonic_sort_step(
                thread_id,
                data,
                params.stage,
                params.pass_of_stage,
                params.num_elements,
                sort_order,
            );
            thread_idx = thread_idx + 1;
        }
        proof {
            let d = spec_distance(params.stage.0, params.pass_of_stage.0) as int;
            assert forall|i: int| 0 <= i < orig.len() implies data@[i] == spec_pass_at(
                orig,
                i,
                params.stage.0,
                params.pass_of_stage.0,
                params.num_elements,
                order,
            ) by {
                if params.num_elements > 0 {
                    assert(spec_step_defined(
                        0,
                        orig.len(),
                        params.stage.0,
                        params.pass_of_stage.0,
                        params.num_elements,
                    ));
                    lemma_pow2_pos((params.stage.0 - params.pass_of_stage.0) as nat);
                    lemma_partner_involution(i, d);
                }
            }
            assert(data@ =~= spec_pass(
                orig,
                params.stage.0,
                params.pass_of_stage.0,
                params.num_elements,
                order,
            ));
        }
        Ok(())
    }
}

} // verus!
