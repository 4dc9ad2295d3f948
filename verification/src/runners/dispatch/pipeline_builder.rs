//! A shader pipeline is built in steps; the first step only records what
//! is to be built.
use vstd::prelude::*;

verus! {

/// What one pipeline is built from: the invocation's name, the entry
/// point, the buffers by name, their bindings in the shader and the number
/// of work groups along each axis.
#[derive(Debug)]
pub struct ShaderPipelineSpec {
    pub invocation_name: String,
    pub entry_point_name: String,
    pub buf_names: Vec<String>,
    pub binding_nums_in_shader: Vec<u32>,
    pub num_workgroups: [u32; 3],
}

/// State of a builder for which nothing has been made yet.
#[derive(Clone, Copy, Debug)]
pub struct InitialSpec {}

/// Builder of a shader pipeline in the state `S`.
#[derive(Debug)]
pub struct ShaderPipelineBuilder<S> {
    pub spec: ShaderPipelineSpec,
    pub builder_state: S,
}

impl ShaderPipelineBuilder<InitialSpec> {
    /// A builder that has recorded what is to be built and made nothing yet.
    pub fn new(
        invocation_name: &str,
        entry_point_name: &str,
        buf_names: Vec<String>,
        binding_nums_in_shader: Vec<u32>,
        num_workgroups: [u32; 3],
    ) -> (r: Self)
        ensures
            r.spec.invocation_name@ == invocation_name@,
            r.spec.entry_point_name@ == entry_point_name@,
            r.spec.buf_names == buf_names,
            r.spec.binding_nums_in_shader == binding_nums_in_shader,
            r.spec.num_workgroups == num_workgroups,
    {
        Self {
            spec: ShaderPipelineSpec {
                invocation_name: invocation_name.to_owned(),
                entry_point_name: entry_point_name.to_owned(),
                buf_names,
                binding_nums_in_shader,
                num_workgroups,
            },
            builder_state: InitialSpec {  },
        }
    }
}

} // verus!
