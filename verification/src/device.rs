use vstd::prelude::*;

use crate::context::Context;
use crate::error::Error;
use crate::surface::Size;
use crate::surface::Surface;
use crate::surface::SurfaceAccess;

verus! {

/// The device capability: everything the swap-chain protocol asks of a
/// graphics backend.
///
/// A backend implements these four operations over its platform surfaces and
/// keeps the [`Context`] value in step with the platform context it stands
/// for. The contracts below are the whole interface the verified protocol
/// relies on; a backend is free to fail any operation with a
/// [`Error::Backend`] value, and the protocol performs its documented
/// rollback in that case.
pub trait Device: Sized {
    /// Allocate a fresh surface of the given size, renderable in `context`.
    ///
    /// On success the returned surface has exactly the requested size.
    fn create_surface(
        &mut self,
        context: &Context,
        access: SurfaceAccess,
        size: Size,
    ) -> (r: Result<Surface, Error>)
        ensures
            r matches Ok(s) ==> s.spec_size() == size,
            r matches Err(e) ==> e is Backend,
    ;

    /// Destroy a surface, reclaiming its buffer. The surface is consumed
    /// whether or not the backend reports success.
    fn destroy_surface(&mut self, context: &Context, surface: Surface) -> (r: Result<(), Error>)
        ensures
            r matches Err(e) ==> e is Backend,
    ;

    /// Remove and return the surface currently bound into `context`, if any.
    /// On failure the context is left unchanged.
    fn unbind_surface_from_context(&mut self, context: &mut Context) -> (r: Result<
        Option<Surface>,
        Error,
    >)
        ensures
            r matches Ok(s) ==> s == old(context).surface && final(context).id == old(context).id
                && final(context).surface is None,
            r matches Err(e) ==> e is Backend && *final(context) == *old(context),
    ;

    /// Bind `surface` into `context`, making it the context's current
    /// surface. On failure the surface is handed back to the caller for
    /// cleanup and the context is left unchanged.
    fn bind_surface_to_context(&mut self, context: &mut Context, surface: Surface) -> (r: Result<
        (),
        (Error, Surface),
    >)
        requires
            old(context).surface is None,
        ensures
            r is Ok ==> final(context).id == old(context).id && final(context).surface == Some(
                surface,
            ),
            r matches Err((e, s)) ==> e is Backend && s == surface && *final(context) == *old(
                context,
            ),
    ;
}

} // verus!
