use vstd::prelude::*;
use crate::errors::VecAddError;

verus! {

/// Kind of one resource binding of the compute kernel.
#[derive(Clone, Copy, Debug, PartialEq, Eq, Structural)]
pub enum BindingKind {
    /// A read-only storage buffer (an input vector).
    ReadOnlyStorage,
    /// A read-write storage buffer (the output vector).
    ReadWriteStorage,
    /// A small uniform holding one dispatch's chunk-relative element offset.
    OffsetUniform,
}

/// The resource-binding layout a kernel declares, in binding order.
pub struct KernelLayout {
    pub bindings: Vec<BindingKind>,
}

/// The fixed layout the engine binds buffers to: binding 0 = read-only input
/// A, binding 1 = read-only input B, binding 2 = read-write output, optional
/// binding 3 = offset uniform. The uniform is required whenever some chunk
/// needs more than one dispatch.
pub open spec fn layout_ok(bindings: Seq<BindingKind>, needs_offset: bool) -> bool {
    &&& (bindings.len() == 3 || bindings.len() == 4)
    &&& bindings[0] == BindingKind::ReadOnlyStorage
    &&& bindings[1] == BindingKind::ReadOnlyStorage
    &&& bindings[2] == BindingKind::ReadWriteStorage
    &&& bindings.len() == 4 ==> bindings[3] == BindingKind::OffsetUniform
    &&& needs_offset ==> bindings.len() == 4
}

/// Checks a kernel's declared bindings against the fixed layout, with
/// `needs_offset` saying whether some chunk of the present plan needs more
/// than one dispatch and hence the offset uniform. Returns `LayoutMismatch`
/// exactly on the layouts the engine cannot bind.
pub fn check_layout(layout: &KernelLayout, needs_offset: bool) -> (r: Result<(), VecAddError>)
    ensures
        r is Ok <==> layout_ok(layout.bindings@, needs_offset),
        r is Err ==> r == Err::<(), VecAddError>(VecAddError::LayoutMismatch),
{
    let n = layout.bindings.len();
    if n != 3 && n != 4 {
        return Err(VecAddError::LayoutMismatch);
    }
    if needs_offset && n != 4 {
        return Err(VecAddError::LayoutMismatch);
    }
    if layout.bindings[0] != BindingKind::ReadOnlyStorage {
        return Err(VecAddError::LayoutMismatch);
    }
    if layout.bindings[1] != BindingKind::ReadOnlyStorage {
        return Err(VecAddError::LayoutMismatch);
    }
    if layout.bindings[2] != BindingKind::ReadWriteStorage {
        return Err(VecAddError::LayoutMismatch);
    }
    if n == 4 && layout.bindings[3] != BindingKind::OffsetUniform {
        return Err(VecAddError::LayoutMismatch);
    }
    Ok(())
}

} // verus!
