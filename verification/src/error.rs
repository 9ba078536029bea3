use vstd::prelude::*;

verus! {

/// Failure conditions of the render-graph core.
///
/// None of these is transient: each one indicates either exhausted device
/// memory or a structural mistake in how the graph was described, so the
/// policy is fail-fast — the error is surfaced to the top-level caller and
/// the enclosing build or frame step is abandoned.
#[derive(Clone, Copy, Debug, PartialEq, Eq, Structural)]
pub enum RenderError {
    /// The device has no memory left for the requested allocation.
    Allocation { requested: u64, available: u64 },
    /// A host-visible write would run past the end of the allocation.
    Upload { offset: u64, len: u64, size: u64 },
    /// A requested descriptor-set layout differs from the one the allocator
    /// was configured with.
    LayoutMismatch,
    /// A binding index is not below the layout's declared binding count.
    BindingOutOfRange { binding: usize, count: usize },
    /// A resource view's kind does not match the binding's declared
    /// descriptor type.
    TypeMismatch { binding: usize },
    /// A declared binding was never written before the set was bound.
    BindingIncomplete { binding: usize },
    /// The shader set's reflected interface does not match the pipeline's
    /// declared vertex format or descriptor-set layout.
    PipelineBuild,
    /// Decoded image data cannot be turned into a texture on this device.
    TextureBuild,
    /// The graph breaks a structural rule: the named node either depends on
    /// a present node or touches an already-presented resource.
    GraphValidation { node: usize },
    /// The node dependencies contain a cycle; the named node is one that can
    /// never be scheduled.
    CyclicGraph { node: usize },
    /// `run` was invoked while a previous frame was still in flight.
    ConcurrentRun,
}

} // verus!
