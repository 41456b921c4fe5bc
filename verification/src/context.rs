use vstd::prelude::*;

use crate::surface::Surface;

verus! {

/// The identity of a producer context, stable for the context's lifetime.
#[derive(Clone, Copy, PartialEq, Eq, Structural, Debug, Hash)]
pub struct ContextId(pub u64);

/// The producer-side state of a rendering context that the protocol observes:
/// its identity, and the surface currently bound into it, if any.
///
/// A device backend keeps this in step with the platform context it stands
/// for: binding a surface into the platform context installs it in `surface`,
/// and unbinding removes it.
#[derive(Debug)]
pub struct Context {
    /// The context's identity.
    pub id: ContextId,
    /// The surface currently bound into the context, if any.
    pub surface: Option<Surface>,
}

impl Context {
    /// A context with the given identity and no surface bound.
    pub fn new(id: ContextId) -> (c: Context)
        ensures
            c.id == id,
            c.surface is None,
    {
        Context { id, surface: None }
    }

    /// The context's identity.
    pub fn context_id(&self) -> (r: ContextId)
        ensures
            r == self.id,
    {
        self.id
    }

    /// Whether a surface is currently bound into the context.
    pub fn has_surface(&self) -> (b: bool)
        ensures
            b == (self.surface is Some),
    {
        self.surface.is_some()
    }
}

} // verus!
