//! Which invocation of a compute pass runs which entry point on which buffers.
use vstd::prelude::*;
use crate::runners::dispatch::buffer::spec_names_distinct;

verus! {

/// One invocation of a kernel: its own name, the entry point it runs, the
/// buffers it uses and the bindings under which the shader knows them.
#[derive(Debug)]
pub struct ShaderInvocationTemplate {
    pub invocation_name: String,
    pub entry_point_name: String,
    pub buf_names: Vec<String>,
    pub binding_nums_in_shader: Vec<u32>,
}

/// The invocations of one compute pass, in the order in which they run.
#[derive(Debug)]
pub struct ComputePassInvocationInfo {
    pub pipelines: Vec<ShaderInvocationTemplate>,
}

/// The invocation names of a list of invocations.
pub open spec fn spec_invocation_names(
    lists: Seq<(&str, Vec<&str>, (&str, Vec<u32>))>,
) -> Seq<Seq<char>> {
    Seq::new(lists.len(), |i: int| lists[i].0@)
}

/// Whether `t` is the template of the invocation `entry`.
pub open spec fn spec_is_template(
    t: ShaderInvocationTemplate,
    entry: (&str, Vec<&str>, (&str, Vec<u32>)),
) -> bool {
    &&& t.invocation_name@ == entry.0@
    &&& t.entry_point_name@ == entry.2.0@
    &&& t.binding_nums_in_shader@ == entry.2.1@
    &&& t.buf_names@.len() == entry.1@.len()
    &&& forall|k: int| 0 <= k < entry.1@.len() ==> t.buf_names@[k]@ == entry.1@[k]@
}

/// Owned copies of the names in `names`.
pub fn owned_names(names: &Vec<&str>) -> (r: Vec<String>)
    ensures
        r@.len() == names@.len(),
        forall|k: int| 0 <= k < names@.len() ==> r@[k]@ == names@[k]@,
{
    let mut out: Vec<String> = Vec::new();
    let mut k: usize = 0;
    while k < names.len()
        invariant
            k <= names@.len(),
            out@.len() == k,
            forall|j: int| 0 <= j < k ==> out@[j]@ == names@[j]@,
        decreases names@.len() - k,
    {
        out.push(names[k].to_owned());
        k = k + 1;
    }
    out
}

/// A copy of `nums`.
pub fn copied_bindings(nums: &Vec<u32>) -> (r: Vec<u32>)
    ensures
        r@ == nums@,
{
    let mut out: Vec<u32> = Vec::new();
    let mut k: usize = 0;
    while k < nums.len()
        invariant
            k <= nums@.len(),
            out@ == nums@.take(k as int),
        decreases nums@.len() - k,
    {
        out.push(nums[k]);
        proof {
            assert(nums@.take(k + 1) =~= nums@.take(k as int).push(nums@[k as int]));
        }
        k = k + 1;
    }
    assert(nums@.take(nums@.len() as int) =~= nums@);
    out
}

impl ComputePassInvocationInfo {
    /// Whether the invocation names of `lists` are all different.
    pub fn invocation_names_distinct(lists: &Vec<(&str, Vec<&str>, (&str, Vec<u32>))>) -> (r:
        bool)
        ensures
            r == spec_names_distinct(spec_invocation_names(lists@)),
    {
        let ghost names = spec_invocation_names(lists@);
        let mut j: usize = 0;
        while j < lists.len()
            invariant
                j <= lists@.len(),
                names == spec_invocation_names(lists@),
                forall|a: int, b: int| 0 <= a < b < j ==> names[a] != names[b],
            decreases lists@.len() - j,
        {
            let mut i: usize = 0;
            while i < j
                invariant
                    i <= j < lists@.len(),
                    names == spec_invocation_names(lists@),
                    forall|a: int| 0 <= a < i ==> names[a] != names[j as int],
                decreases j - i,
            {
                let a: String = lists[i].0.to_owned();
                let b: String = lists[j].0.to_owned();
                if a == b {
                    assert(names[i as int] == names[j as int]);
                    return false;
                }
                i = i + 1;
            }
            j = j + 1;
        }
        true
    }

    /// Builds the plan of a compute pass from a list of invocations, each an
    /// invocation name, the names of its buffers, and its entry point with
    /// the bindings of the buffers in the shader.
    pub fn from_lists(lists: Vec<(&str, Vec<&str>, (&str, Vec<u32>))>) -> (r: Self)
        requires
            spec_names_distinct(spec_invocation_names(lists@)),
        ensures
            r.pipelines@.len() == lists@.len(),
            forall|i: int| 0 <= i < lists@.len() ==> spec_is_template(r.pipelines@[i], lists@[i]),
    {
        let mut pipelines: Vec<ShaderInvocationTemplate> = Vec::new();
        let mut i: usize = 0;
        while i < lists.len()
            invariant
                i <= lists@.len(),
                pipelines@.len() == i,
                forall|k: int| 0 <= k < i ==> spec_is_template(pipelines@[k], lists@[k]),
            decreases lists@.len() - i,
        {
            let entry = &lists[i];
            let template = ShaderInvocationTemplate {
                invocation_name: entry.0.to_owned(),
                entry_point_name: entry.2.0.to_owned(),
                buf_names: owned_names(&entry.1),
                binding_nums_in_shader: copied_bindings(&entry.2.1),
            };
            pipelines.push(template);
            i = i + 1;
        }
        ComputePassInvocationInfo { pipelines }
    }
}

} // verus!
