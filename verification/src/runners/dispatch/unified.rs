//! Logical buffers packed into one unified buffer: each starts at an
//! offset, and the kernels are told the offsets through push constants.
use vstd::prelude::*;
use crate::runners::dispatch::buffer::BufNameToBinding;

verus! {

/// Where each logical buffer starts in its unified buffer, in elements.
/// The integer buffers `a`, `b`, `c` and `d` share one unified buffer, the
/// vector buffers `x` and `v` another.
#[derive(Debug)]
pub struct UnifiedLayout {
    /// Offsets of the integer buffers.
    pub u32_offsets: BufNameToBinding,
    /// Offsets of the vector buffers.
    pub vec2_offsets: BufNameToBinding,
    /// Length of every logical buffer.
    pub logical_buffer_size: usize,
}

/// The most elements of a logical buffer whose offsets fit in 32 bits.
pub const MAX_LOGICAL_SIZE: usize = 0x3FFF_FFFF;

/// Push constants of a bindless kernel: the offsets of its first two
/// buffers and the length of each.
#[derive(Copy, Clone, Debug, PartialEq, Eq, Structural)]
pub struct BindlessPushConstants {
    pub offset_0: u32,
    pub offset_1: u32,
    pub buffer_size: u32,
    pub _padding: u32,
}

impl UnifiedLayout {
    /// The offset of the buffer `name`: that of an integer buffer of this
    /// name, else that of a vector buffer of this name.
    pub open spec fn spec_offset(&self, name: Seq<char>) -> Option<u32> {
        match self.u32_offsets.spec_get(name) {
            Some(offset) => Some(offset),
            None => self.vec2_offsets.spec_get(name),
        }
    }

    /// The layout of logical buffers of `size` elements each.
    pub fn new(size: usize) -> (r: Self)
        requires
            size <= MAX_LOGICAL_SIZE,
        ensures
            r.logical_buffer_size == size,
            r.spec_offset("a"@) == Some(0u32),
            r.spec_offset("b"@) == Some(size as u32),
            r.spec_offset("c"@) == Some((2 * size) as u32),
            r.spec_offset("d"@) == Some((3 * size) as u32),
            r.spec_offset("x"@) == Some(0u32),
            r.spec_offset("v"@) == Some(size as u32),
    {
        let n: u32 = size as u32;
        proof {
            reveal_strlit("a");
            reveal_strlit("b");
            reveal_strlit("c");
            reveal_strlit("d");
            reveal_strlit("x");
            reveal_strlit("v");
            assert("a"@ != "b"@ && "a"@ != "c"@ && "a"@ != "d"@ && "b"@ != "c"@ && "b"@ != "d"@
                && "c"@ != "d"@ && "x"@ != "v"@) by {
                assert("a"@[0] == 'a' && "b"@[0] == 'b' && "c"@[0] == 'c' && "d"@[0] == 'd'
                    && "x"@[0] == 'x' && "v"@[0] == 'v');
            }
            assert("a"@ != "x"@ && "a"@ != "v"@ && "b"@ != "x"@ && "b"@ != "v"@ && "c"@ != "x"@
                && "c"@ != "v"@ && "d"@ != "x"@ && "d"@ != "v"@) by {
                assert("a"@[0] == 'a' && "b"@[0] == 'b' && "c"@[0] == 'c' && "d"@[0] == 'd'
                    && "x"@[0] == 'x' && "v"@[0] == 'v');
            }
        }
        let ints: Vec<(&str, u32)> = vec![("a", 0u32), ("b", n), ("c", 2 * n), ("d", 3 * n)];
        let vecs: Vec<(&str, u32)> = vec![("x", 0u32), ("v", n)];
        let u32_offsets = BufNameToBinding::from_list(ints);
        let vec2_offsets = BufNameToBinding::from_list(vecs);
        proof {
            assert(ints@[0].0@ == "a"@ && ints@[1].0@ == "b"@ && ints@[2].0@ == "c"@
                && ints@[3].0@ == "d"@);
            assert(vecs@[0].0@ == "x"@ && vecs@[1].0@ == "v"@);
            crate::runners::dispatch::buffer::lemma_lookup_absent(u32_offsets.0@, "x"@);
            crate::runners::dispatch::buffer::lemma_lookup_absent(u32_offsets.0@, "v"@);
        }
        UnifiedLayout { u32_offsets, vec2_offsets, logical_buffer_size: size }
    }

    /// The offset of the buffer `buffer_name`, if the layout holds it.
    pub fn offset_of(&self, buffer_name: &str) -> (r: Option<u32>)
        ensures
            r == self.spec_offset(buffer_name@),
    {
        match self.u32_offsets.get(buffer_name) {
            Some(offset) => Some(offset),
            None => self.vec2_offsets.get(buffer_name),
        }
    }
}

/// The offset that stands at place `k` of the push constants of a kernel
/// that uses the buffers `names`: the offset of the `k`-th buffer, or zero
/// where the kernel has fewer buffers.
pub open spec fn spec_push_offset(layout: UnifiedLayout, names: Seq<String>, k: int) -> u32 {
    if k < names.len() {
        layout.spec_offset(names[k]@)->Some_0
    } else {
        0
    }
}

/// The push constants of a kernel that uses the buffers `buffer_names`.
pub fn calculate_push_constants(buffer_names: &Vec<String>, layout: &UnifiedLayout) -> (r:
    BindlessPushConstants)
    requires
        layout.logical_buffer_size <= u32::MAX,
        forall|k: int|
            0 <= k < buffer_names@.len() ==> layout.spec_offset(buffer_names@[k]@) is Some,
    ensures
        r.offset_0 == spec_push_offset(*layout, buffer_names@, 0),
        r.offset_1 == spec_push_offset(*layout, buffer_names@, 1),
        r.buffer_size == layout.logical_buffer_size,
        r._padding == 0,
{
    let offset_0: u32 = if buffer_names.len() > 0 {
        layout.offset_of(buffer_names[0].as_str()).unwrap()
    } else {
        0
    };
    let offset_1: u32 = if buffer_names.len() > 1 {
        layout.offset_of(buffer_names[1].as_str()).unwrap()
    } else {
        0
    };
    BindlessPushConstants {
        offset_0,
        offset_1,
        buffer_size: layout.logical_buffer_size as u32,
        _padding: 0,
    }
}

/// Whether the layout holds every buffer of `buffer_names`.
pub fn holds_all(buffer_names: &Vec<String>, layout: &UnifiedLayout) -> (r: bool)
    ensures
        r == (forall|k: int|
            0 <= k < buffer_names@.len() ==> layout.spec_offset(buffer_names@[k]@) is Some),
{
    let mut i: usize = 0;
    while i < buffer_names.len()
        invariant
            i <= buffer_names@.len(),
            forall|k: int| 0 <= k < i ==> layout.spec_offset(buffer_names@[k]@) is Some,
        decreases buffer_names@.len() - i,
    {
        if layout.offset_of(buffer_names[i].as_str()).is_none() {
            return false;
        }
        i = i + 1;
    }
    true
}

/// The four integer buffers one behind the other, as they lie in the
/// unified buffer.
pub fn unify_u32(a: &[u32], b: &[u32], c: &[u32], d: &[u32]) -> (r: Vec<u32>)
    requires
        b@.len() == a@.len(),
        c@.len() == a@.len(),
        d@.len() == a@.len(),
    ensures
        r@ == a@ + b@ + c@ + d@,
{
    let mut unified: Vec<u32> = Vec::new();
    append(&mut unified, a);
    append(&mut unified, b);
    append(&mut unified, c);
    append(&mut unified, d);
    unified
}

/// Appends the elements of `part` to `whole`.
pub fn append(whole: &mut Vec<u32>, part: &[u32])
    ensures
        final(whole)@ == old(whole)@ + part@,
{
    let ghost start = whole@;
    let n: usize = part.len();
    let mut i: usize = 0;
    while i < n
        invariant
            i <= n,
            n == part@.len(),
            whole@ == start + part@.take(i as int),
        decreases n - i,
    {
        whole.push(part[i]);
        proof {
            assert(part@.take(i + 1) =~= part@.take(i as int).push(part@[i as int]));
            assert(whole@ =~= start + part@.take(i + 1));
        }
        i = i + 1;
    }
    assert(part@.take(n as int) =~= part@);
}

/// The logical buffer of `size` elements that starts at `offset` in the
/// unified buffer.
pub fn read_u32_buffer(unified: &[u32], offset: u32, size: usize) -> (r: Vec<u32>)
    requires
        offset + size <= unified@.len(),
    ensures
        r@ == unified@.subrange(offset as int, offset + size),
{
    let start: usize = offset as usize;
    let len: usize = unified.len();
    let mut out: Vec<u32> = Vec::new();
    let mut i: usize = 0;
    while i < size
        invariant
            i <= size,
            start == offset,
            start + size <= unified@.len(),
            len == unified@.len(),
            out@ == unified@.subrange(start as int, start + i),
        decreases size - i,
    {
        out.push(unified[start + i]);
        proof {
            assert(unified@.subrange(start as int, start + i + 1) =~= unified@.subrange(
                start as int,
                start + i,
            ).push(unified@[start + i]));
        }
        i = i + 1;
    }
    out
}

} // verus!
