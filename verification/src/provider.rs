use vstd::prelude::*;

use crate::context::Context;
use crate::device::Device;
use crate::error::Error;
use crate::surface::Size;
use crate::surface::Surface;
use crate::surface::SurfaceAccess;

verus! {

/// Whether the pool holds a surface of the given size.
pub open spec fn has_size_match(pool: Seq<Surface>, size: Size) -> bool {
    exists|i: int| 0 <= i < pool.len() && pool[i].spec_size() == size
}

/// The index of the first pool entry of the given size (meaningful when
/// `has_size_match(pool, size)` holds).
pub open spec fn first_match(pool: Seq<Surface>, size: Size) -> int
    decreases pool.len(),
{
    if pool.len() == 0 {
        0
    } else if pool[0].spec_size() == size {
        0
    } else {
        1 + first_match(pool.skip(1), size)
    }
}

/// The pool after removing entry `i` by swapping the last entry into its
/// place, as `Vec::swap_remove` does.
pub open spec fn swap_removed(pool: Seq<Surface>, i: int) -> Seq<Surface> {
    pool.update(i, pool.last()).drop_last()
}

/// The pool after the pending front buffer, if any, has been recycled into
/// it.
pub open spec fn with_pending_recycled(pool: Seq<Surface>, pending: Option<Surface>) -> Seq<
    Surface,
> {
    match pending {
        Some(s) => pool.push(s),
        None => pool,
    }
}

/// `first_match` really is the first match: it lands on an entry of the
/// requested size, and nothing before it has that size.
pub proof fn lemma_first_match(pool: Seq<Surface>, size: Size)
    requires
        has_size_match(pool, size),
    ensures
        0 <= first_match(pool, size) < pool.len(),
        pool[first_match(pool, size)].spec_size() == size,
        forall|j: int| 0 <= j < first_match(pool, size) ==> pool[j].spec_size() != size,
    decreases pool.len(),
{
    if pool.len() == 0 {
    } else if pool[0].spec_size() == size {
    } else {
        let w = choose|i: int| 0 <= i < pool.len() && pool[i].spec_size() == size;
        assert(pool.skip(1)[w - 1] == pool[w]);
        assert(has_size_match(pool.skip(1), size));
        lemma_first_match(pool.skip(1), size);
        let f = first_match(pool, size);
        assert forall|j: int| 0 <= j < f implies pool[j].spec_size() != size by {
            if j > 0 {
                assert(pool.skip(1)[j - 1] == pool[j]);
            }
        }
        assert(pool.skip(1)[f - 1] == pool[f]);
    }
}

/// An entry of the requested size with no earlier match pins down
/// `first_match`.
pub proof fn lemma_first_match_at(pool: Seq<Surface>, size: Size, i: int)
    requires
        0 <= i < pool.len(),
        pool[i].spec_size() == size,
        forall|j: int| 0 <= j < i ==> pool[j].spec_size() != size,
    ensures
        has_size_match(pool, size),
        first_match(pool, size) == i,
    decreases pool.len(),
{
    assert(has_size_match(pool, size));
    if i == 0 {
    } else {
        assert(pool.skip(1)[i - 1] == pool[i]);
        assert forall|j: int| 0 <= j < i - 1 implies pool.skip(1)[j].spec_size() != size by {
            assert(pool.skip(1)[j] == pool[j + 1]);
        }
        lemma_first_match_at(pool.skip(1), size, i - 1);
    }
}

/// The backend-abstraction contract: the policy for obtaining, recycling and
/// destroying surfaces for one swap chain.
///
/// A provider holds at most one *pending* surface (the front buffer awaiting
/// consumption) and a *pool* of recycled surfaces, eligible for size-matched
/// reuse. The contracts below pin the policy down exactly; what varies per
/// backend is only where fresh surfaces come from.
pub trait SurfaceProvider: Sized {
    /// The pending front buffer: a surface the producer has finished drawing
    /// that no consumer has taken yet.
    spec fn pending(&self) -> Option<Surface>;

    /// The recycle pool: surfaces returned by consumers, in arrival order.
    spec fn pool(&self) -> Seq<Surface>;

    /// Any previous front buffer can be recycled: move the pending surface,
    /// if there is one, into the pool.
    fn recycle_front_buffer<D: Device>(&mut self, device: &mut D)
        ensures
            final(self).pending() is None,
            final(self).pool() == with_pending_recycled(old(self).pool(), old(self).pending()),
            *final(device) == *old(device),
    ;

    /// A consumer has returned `surface`: it enters the recycle pool.
    fn recycle_surface(&mut self, surface: Surface)
        ensures
            final(self).pending() == old(self).pending(),
            final(self).pool() == old(self).pool().push(surface),
    ;

    /// The swap chain requires a back buffer of the given size: the first
    /// pool entry of that size is reused (removed by swapping with the last
    /// entry); when none matches, a fresh surface of that size is obtained.
    fn provide_surface<D: Device>(
        &mut self,
        device: &mut D,
        context: &Context,
        size: Size,
    ) -> (r: Result<Surface, Error>)
        ensures
            final(self).pending() == old(self).pending(),
            has_size_match(old(self).pool(), size) ==> {
                &&& r matches Ok(s) && s == old(self).pool()[first_match(
                    old(self).pool(),
                    size,
                )]
                &&& final(self).pool() == swap_removed(
                    old(self).pool(),
                    first_match(old(self).pool(), size),
                )
                &&& *final(device) == *old(device)
            },
            !has_size_match(old(self).pool(), size) ==> {
                &&& final(self).pool() == old(self).pool()
                &&& (r matches Ok(s) ==> s.spec_size() == size)
                &&& (r matches Err(e) ==> e is Backend)
            },
    ;

    /// Take the current front buffer: the pending surface if present, else
    /// the most recently pooled surface, else nothing. Never blocks.
    fn take_front_buffer(&mut self) -> (r: Option<Surface>)
        ensures
            final(self).pending() is None,
            old(self).pending() matches Some(s) ==> r == Some(s) && final(self).pool() == old(self).pool(),
            old(self).pending() is None && old(self).pool().len() > 0 ==> r == Some(
                old(self).pool().last(),
            ) && final(self).pool() == old(self).pool().drop_last(),
            old(self).pending() is None && old(self).pool().len() == 0 ==> r is None && final(self).pool() == old(self).pool(),
    ;

    /// Install `new_front_buffer` as pending, then destroy every surface
    /// still in the pool (aggressive eviction: after a successful swap any
    /// leftover pooled surfaces are stale and are destroyed rather than
    /// retained). The pool is empty afterwards even if a destruction fails.
    fn set_front_buffer<D: Device>(
        &mut self,
        device: &mut D,
        context: &Context,
        new_front_buffer: Surface,
    ) -> (r: Result<(), Error>)
        ensures
            final(self).pending() == Some(new_front_buffer),
            final(self).pool() == Seq::<Surface>::empty(),
            r matches Err(e) ==> e is Backend,
            old(self).pool().len() == 0 ==> r is Ok && *final(device) == *old(device),
    ;

    /// A fresh surface of the given size, bypassing the recycle pool (used by
    /// resize, which must not hand back a stale-size buffer).
    fn create_sized_surface<D: Device>(
        &mut self,
        device: &mut D,
        context: &Context,
        size: Size,
    ) -> (r: Result<Surface, Error>)
        ensures
            final(self).pending() == old(self).pending(),
            final(self).pool() == old(self).pool(),
            r matches Ok(s) ==> s.spec_size() == size,
            r matches Err(e) ==> e is Backend,
    ;

    /// Destroy the pending surface and the entire pool (used at teardown).
    /// Both are empty afterwards even if a destruction fails; with nothing
    /// to destroy, the call succeeds and changes nothing.
    fn destroy_all_surfaces<D: Device>(&mut self, device: &mut D, context: &Context) -> (r: Result<
        (),
        Error,
    >)
        ensures
            final(self).pending() is None,
            final(self).pool() == Seq::<Surface>::empty(),
            r matches Err(e) ==> e is Backend,
            old(self).pending() is None && old(self).pool().len() == 0 ==> r is Ok && *final(device) == *old(device),
    ;
}

/// The provider used with real device backends: fresh surfaces come straight
/// from the device, allocated with a fixed access mode.
pub struct SurfmanProvider {
    /// The access mode requested for every surface this provider allocates.
    surface_access: SurfaceAccess,
    /// The pending front buffer, if any.
    pending_surface: Option<Surface>,
    /// Surfaces returned by consumers, ready to be reused or destroyed.
    recycled_surfaces: Vec<Surface>,
}

impl SurfmanProvider {
    /// A provider with no pending surface and an empty pool.
    pub fn new(surface_access: SurfaceAccess) -> (p: SurfmanProvider)
        ensures
            p.pending() is None,
            p.pool() == Seq::<Surface>::empty(),
    {
        SurfmanProvider { surface_access, pending_surface: None, recycled_surfaces: Vec::new() }
    }

    /// Destroy every pooled surface. The pool is empty afterwards even if a
    /// destruction fails (a failed surface is already consumed, and the rest
    /// are released without a further device call, as a dropped drain would
    /// release them).
    fn destroy_pool<D: Device>(&mut self, device: &mut D, context: &Context) -> (r: Result<
        (),
        Error,
    >)
        ensures
            final(self).pending_surface == old(self).pending_surface,
            final(self).recycled_surfaces@ == Seq::<Surface>::empty(),
            r matches Err(e) ==> e is Backend,
            old(self).recycled_surfaces@.len() == 0 ==> r is Ok && *final(device) == *old(device),
    {
        if self.recycled_surfaces.is_empty() {
            return Ok(());
        }
        loop
            invariant
                self.pending_surface == old(self).pending_surface,
                old(self).recycled_surfaces@.len() > 0,
            decreases self.recycled_surfaces.len(),
        {
            match self.recycled_surfaces.pop() {
                Some(surface) => {
                    match device.destroy_surface(context, surface) {
                        Ok(()) => {},
                        Err(e) => {
                            self.recycled_surfaces.clear();
                            return Err(e);
                        },
                    }
                },
                None => {
                    return Ok(());
                },
            }
        }
    }
}

impl SurfaceProvider for SurfmanProvider {
    closed spec fn pending(&self) -> Option<Surface> {
        self.pending_surface
    }

    closed spec fn pool(&self) -> Seq<Surface> {
        self.recycled_surfaces@
    }

    fn recycle_front_buffer<D: Device>(&mut self, _device: &mut D) {
        if let Some(old_front_buffer) = self.pending_surface.take() {
            self.recycled_surfaces.push(old_front_buffer);
        }
    }

    fn recycle_surface(&mut self, surface: Surface) {
        self.recycled_surfaces.push(surface);
    }

    fn provide_surface<D: Device>(
        &mut self,
        device: &mut D,
        context: &Context,
        size: Size,
    ) -> (r: Result<Surface, Error>) {
        let n = self.recycled_surfaces.len();
        let mut i: usize = 0;
        while i < n
            invariant
                i <= n,
                n == self.recycled_surfaces.len(),
                *self == *old(self),
                forall|j: int| 0 <= j < i ==> self.recycled_surfaces@[j].spec_size() != size,
            decreases n - i,
        {
            if self.recycled_surfaces[i].size() == size {
                proof {
                    lemma_first_match_at(self.recycled_surfaces@, size, i as int);
                }
                return Ok(self.recycled_surfaces.swap_remove(i));
            }
            i = i + 1;
        }
        assert(!has_size_match(self.recycled_surfaces@, size));
        device.create_surface(context, self.surface_access, size)
    }

    fn take_front_buffer(&mut self) -> (r: Option<Surface>) {
        match self.pending_surface.take() {
            Some(s) => Some(s),
            None => self.recycled_surfaces.pop(),
        }
    }

    fn set_front_buffer<D: Device>(
        &mut self,
        device: &mut D,
        context: &Context,
        new_front_buffer: Surface,
    ) -> (r: Result<(), Error>) {
        self.pending_surface = Some(new_front_buffer);
        self.destroy_pool(device, context)
    }

    fn create_sized_surface<D: Device>(
        &mut self,
        device: &mut D,
        context: &Context,
        size: Size,
    ) -> (r: Result<Surface, Error>) {
        device.create_surface(context, self.surface_access, size)
    }

    fn destroy_all_surfaces<D: Device>(&mut self, device: &mut D, context: &Context) -> (r: Result<
        (),
        Error,
    >) {
        if let Some(surface) = self.pending_surface.take() {
            match device.destroy_surface(context, surface) {
                Ok(()) => {},
                Err(e) => {
                    self.recycled_surfaces.clear();
                    return Err(e);
                },
            }
        }
        self.destroy_pool(device, context)
    }
}

} // verus!
