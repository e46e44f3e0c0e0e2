use vstd::prelude::*;

verus! {

/// Errors of the chunked vector-add engine.
///
/// `InputError` is reported before any device resource is requested; all other
/// variants classify failures of device acquisition, kernel setup, buffer
/// allocation, submission, or result readback. No variant is ever retried:
/// the first failing step aborts the whole call.
#[derive(Clone, Copy, Debug, PartialEq, Eq, Structural)]
pub enum VecAddError {
    /// The two input vectors differ in length.
    InputError,
    /// No compute-capable adapter matched the requested backends.
    DeviceUnavailable,
    /// The adapter rejected the device or queue request.
    DeviceRequestFailed,
    /// The compute kernel failed to compile.
    KernelCompileError,
    /// The kernel's resource bindings do not match the fixed layout.
    LayoutMismatch,
    /// The device refused to allocate a buffer.
    AllocationError,
    /// Submitting the recorded command sequence failed.
    SubmissionError,
    /// Mapping the staging buffer for readback failed.
    BufferMapError,
}

} // verus!
