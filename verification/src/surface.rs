use vstd::prelude::*;

verus! {

/// The width and height of a surface, in pixels.
#[derive(Clone, Copy, PartialEq, Eq, Structural, Debug, Hash)]
pub struct Size {
    pub width: i32,
    pub height: i32,
}

impl Size {
    pub fn new(width: i32, height: i32) -> (s: Size)
        ensures
            s == (Size { width, height }),
    {
        Size { width, height }
    }
}

/// Access mode requested for new surfaces; interpreted by the device backend.
#[derive(Clone, Copy, PartialEq, Eq, Structural, Debug)]
pub enum SurfaceAccess {
    /// The surface is accessed by the GPU only.
    GPUOnly,
    /// The surface is accessed by both the GPU and the CPU.
    GPUCPU,
    /// GPU and CPU access, with CPU writes sent over the bus using
    /// write-combining if available.
    GPUCPUWriteCombined,
}

/// A render-target surface: a handle to one renderable buffer, together with
/// the facts about it that the protocol reads (its identity and size).
///
/// A `Surface` is deliberately neither `Clone` nor `Copy`: at any instant it
/// is owned by exactly one slot (a context binding, an unattached back-buffer
/// slot, the pending front buffer, or the recycle pool), and every transfer
/// between slots moves it.
#[derive(Debug)]
pub struct Surface {
    id: u64,
    size: Size,
}

impl Surface {
    /// The surface's identity, as assigned by the device that created it.
    pub closed spec fn spec_id(&self) -> u64 {
        self.id
    }

    /// The surface's size.
    pub closed spec fn spec_size(&self) -> Size {
        self.size
    }

    /// Package a device-created buffer's identity and size as a `Surface`.
    pub fn new(id: u64, size: Size) -> (s: Surface)
        ensures
            s.spec_id() == id,
            s.spec_size() == size,
    {
        Surface { id, size }
    }

    #[verifier::when_used_as_spec(spec_id)]
    pub fn id(&self) -> (r: u64)
        ensures
            r == self.spec_id(),
    {
        self.id
    }

    #[verifier::when_used_as_spec(spec_size)]
    pub fn size(&self) -> (r: Size)
        ensures
            r == self.spec_size(),
    {
        self.size
    }
}

} // verus!
