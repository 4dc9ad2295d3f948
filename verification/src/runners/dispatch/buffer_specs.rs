//! Data that is to become a buffer, with the name and the binding of the buffer.
use vstd::prelude::*;

verus! {

/// Data on the host, the name of the buffer it fills and the binding of
/// that buffer.
pub struct DataAndBindingSpec<'a, T> {
    pub name: &'static str,
    pub binding: u32,
    pub data: &'a mut [T],
}

/// Names `data` and gives it a binding.
pub fn buf_spec<'a, T>(name: &'static str, binding: u32, data: &'a mut [T]) -> (r:
    DataAndBindingSpec<'a, T>)
    ensures
        r.name@ == name@,
        r.binding == binding,
        r.data@ == old(data)@,
        final(data)@ == final(r.data)@,
{
    DataAndBindingSpec { name, binding, data }
}

} // verus!
