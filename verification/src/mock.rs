use vstd::prelude::*;

use crate::context::Context;
use crate::device::Device;
use crate::error::Error;
use crate::surface::Size;
use crate::surface::Surface;
use crate::surface::SurfaceAccess;

verus! {

/// Backend code reported by [`MockDevice`] when a surface allocation was
/// refused.
pub const MOCK_CREATE_FAILURE: u64 = 1;

/// Backend code reported by [`MockDevice`] when a bind was refused.
pub const MOCK_BIND_FAILURE: u64 = 2;

/// An in-memory [`Device`]: it allocates surfaces by numbering them, binds
/// and unbinds by moving them in and out of the [`Context`] value, and counts
/// allocations and destructions. Failures can be injected one call at a time,
/// to exercise the protocol's rollback paths.
pub struct MockDevice {
    next_id: u64,
    created: u64,
    destroyed: u64,
    fail_next_create: bool,
    fail_next_bind: bool,
}

impl MockDevice {
    /// A fresh device: no surfaces allocated yet, no failures scheduled.
    pub fn new() -> (d: MockDevice)
        ensures
            d.spec_created() == 0,
            d.spec_destroyed() == 0,
    {
        MockDevice {
            next_id: 1,
            created: 0,
            destroyed: 0,
            fail_next_create: false,
            fail_next_bind: false,
        }
    }

    /// How many surfaces this device has allocated so far.
    pub closed spec fn spec_created(&self) -> u64 {
        self.created
    }

    /// How many surfaces this device has destroyed so far.
    pub closed spec fn spec_destroyed(&self) -> u64 {
        self.destroyed
    }

    #[verifier::when_used_as_spec(spec_created)]
    pub fn surfaces_created(&self) -> (n: u64)
        ensures
            n == self.spec_created(),
    {
        self.created
    }

    #[verifier::when_used_as_spec(spec_destroyed)]
    pub fn surfaces_destroyed(&self) -> (n: u64)
        ensures
            n == self.spec_destroyed(),
    {
        self.destroyed
    }

    /// Make the next `create_surface` call fail with
    /// [`MOCK_CREATE_FAILURE`]. The counters are unaffected.
    pub fn fail_next_create(&mut self)
        ensures
            final(self).spec_created() == old(self).spec_created(),
            final(self).spec_destroyed() == old(self).spec_destroyed(),
    {
        self.fail_next_create = true;
    }

    /// Make the next `bind_surface_to_context` call fail with
    /// [`MOCK_BIND_FAILURE`]. The counters are unaffected.
    pub fn fail_next_bind(&mut self)
        ensures
            final(self).spec_created() == old(self).spec_created(),
            final(self).spec_destroyed() == old(self).spec_destroyed(),
    {
        self.fail_next_bind = true;
    }
}

impl Device for MockDevice {
    fn create_surface(
        &mut self,
        _context: &Context,
        _access: SurfaceAccess,
        size: Size,
    ) -> (r: Result<Surface, Error>) {
        if self.fail_next_create {
            self.fail_next_create = false;
            return Err(Error::Backend(MOCK_CREATE_FAILURE));
        }
        if self.next_id == u64::MAX || self.created == u64::MAX {
            return Err(Error::Backend(MOCK_CREATE_FAILURE));
        }
        let id = self.next_id;
        self.next_id = self.next_id + 1;
        self.created = self.created + 1;
        Ok(Surface::new(id, size))
    }

    fn destroy_surface(&mut self, _context: &Context, _surface: Surface) -> (r: Result<(), Error>) {
        if self.destroyed < u64::MAX {
            self.destroyed = self.destroyed + 1;
        }
        Ok(())
    }

    fn unbind_surface_from_context(&mut self, context: &mut Context) -> (r: Result<
        Option<Surface>,
        Error,
    >) {
        Ok(context.surface.take())
    }

    fn bind_surface_to_context(&mut self, context: &mut Context, surface: Surface) -> (r: Result<
        (),
        (Error, Surface),
    >) {
        if self.fail_next_bind {
            self.fail_next_bind = false;
            return Err((Error::Backend(MOCK_BIND_FAILURE), surface));
        }
        context.surface = Some(surface);
        Ok(())
    }
}

} // verus!
