use vstd::prelude::*;

use std::sync::Arc;

use vstd::rwlock::RwLock;
use vstd::rwlock::RwLockPredicate;

use crate::context::Context;
use crate::context::ContextId;
use crate::device::Device;
use crate::error::Error;
use crate::provider::first_match;
use crate::provider::has_size_match;
use crate::provider::swap_removed;
use crate::provider::with_pending_recycled;
use crate::provider::SurfaceProvider;
use crate::surface::Size;
use crate::surface::Surface;

verus! {

/// How many surfaces an optional slot holds.
pub open spec fn opt_count(o: Option<Surface>) -> int {
    if o is Some {
        1
    } else {
        0
    }
}

/// One swap chain's buffer and attachment state: the state machine behind
/// [`SwapChain`]. All operations take the caller exclusively (`&mut self`),
/// so their contracts can relate the state before and after the call
/// exactly; [`SwapChain`] adds the lock that serializes callers.
pub struct SwapChainCore<P: SurfaceProvider> {
    /// The backend policy that obtains, recycles and destroys surfaces.
    provider: P,
    /// The size of the back buffer.
    size: Size,
    /// The identity of the producer context, fixed for the chain's lifetime.
    context_id: ContextId,
    /// The back buffer when the chain is detached; `None` when the chain is
    /// attached (the producer context then owns the back buffer).
    unattached_surface: Option<Surface>,
}

impl<P: SurfaceProvider> SwapChainCore<P> {
    /// The identity of the producer context.
    pub closed spec fn spec_context_id(&self) -> ContextId {
        self.context_id
    }

    /// The size of the back buffer.
    pub closed spec fn spec_size(&self) -> Size {
        self.size
    }

    /// The surface held in the unattached slot, if the chain is detached.
    pub closed spec fn unattached(&self) -> Option<Surface> {
        self.unattached_surface
    }

    /// Whether the chain is attached: its back buffer is the producer
    /// context's current surface, and the unattached slot is empty.
    pub open spec fn spec_is_attached(&self) -> bool {
        self.unattached() is None
    }

    /// The pending front buffer held by the provider.
    pub closed spec fn pending(&self) -> Option<Surface> {
        self.provider.pending()
    }

    /// The provider's recycle pool.
    pub closed spec fn pool(&self) -> Seq<Surface> {
        self.provider.pool()
    }

    /// How many live surfaces the chain itself accounts for (unattached slot,
    /// pending front buffer, and pool; an attached back buffer is owned by
    /// the context and counted there).
    pub open spec fn surface_count(&self) -> int {
        opt_count(self.unattached()) + opt_count(self.pending()) + self.pool().len()
    }

    /// The state after a completed buffer swap: the old back buffer has
    /// become the pending front buffer, the new back buffer is the first
    /// size-matched pool entry (if the pool had one), and the pool has been
    /// evicted.
    pub open spec fn swap_complete(pre: Self, pre_ctx: Context, post: Self, post_ctx: Context) -> bool {
        let pool1 = with_pending_recycled(pre.pool(), pre.pending());
        let sz = pre.spec_size();
        let nb = if pre.spec_is_attached() {
            post_ctx.surface->0
        } else {
            post.unattached()->0
        };
        &&& post.spec_size() == sz
        &&& post.spec_is_attached() == pre.spec_is_attached()
        &&& post.pool() == Seq::<Surface>::empty()
        &&& post.pending() == Some(
            if pre.spec_is_attached() {
                pre_ctx.surface->0
            } else {
                pre.unattached()->0
            },
        )
        &&& (pre.spec_is_attached() ==> post_ctx.surface is Some)
        &&& (!pre.spec_is_attached() ==> post_ctx == pre_ctx && post.unattached() is Some)
        &&& nb.spec_size() == sz
        &&& (has_size_match(pool1, sz) ==> nb == pool1[first_match(pool1, sz)])
    }

    /// The state after a buffer swap stopped on a backend failure: the old
    /// front buffer has already been recycled (and possibly reused), the
    /// unattached slot is untouched, and the context is either untouched or
    /// left unbound by a failed bind (the single rollback step: the fresh
    /// back buffer is destroyed, spec-wise it simply disappears).
    pub open spec fn swap_interrupted(
        pre: Self,
        pre_ctx: Context,
        post: Self,
        post_ctx: Context,
    ) -> bool {
        let pool1 = with_pending_recycled(pre.pool(), pre.pending());
        let sz = pre.spec_size();
        &&& post.spec_size() == sz
        &&& post.pending() is None
        &&& post.unattached() == pre.unattached()
        &&& post.pool() == (if has_size_match(pool1, sz) {
            swap_removed(pool1, first_match(pool1, sz))
        } else {
            pool1
        })
        &&& (post_ctx == pre_ctx || (pre.spec_is_attached() && post_ctx.id == pre_ctx.id
            && post_ctx.surface is None))
    }

    /// The state after a completed attachment transfer: the taking chain's
    /// stored surface is bound into the context, the other chain holds the
    /// surface the context gave up, and the number of live surfaces across
    /// the three slots is conserved.
    pub open spec fn attachment_transferred(
        pre_self: Self,
        pre_other: Self,
        pre_ctx: Context,
        post_self: Self,
        post_other: Self,
        post_ctx: Context,
    ) -> bool {
        &&& post_self.unattached() is None
        &&& post_ctx.surface == Some(pre_self.unattached()->0)
        &&& post_other.unattached() == Some(pre_ctx.surface->0)
        &&& opt_count(post_self.unattached()) + opt_count(post_other.unattached()) + opt_count(
            post_ctx.surface,
        ) == opt_count(pre_self.unattached()) + opt_count(pre_other.unattached()) + opt_count(
            pre_ctx.surface,
        )
    }

    /// A completed attachment transfer flips exactly the roles: from
    /// (detached, attached) the two chains go to (attached, detached), the
    /// context receives the taking chain's stored surface, the other chain
    /// receives the surface the context gave up, and no surface is created
    /// or destroyed in the three slots. (The pending front buffers and the
    /// recycle pools of both chains are framed untouched by
    /// [`Self::take_attachment_from`]'s contract.)
    pub proof fn lemma_attachment_transfer(
        pre_self: Self,
        pre_other: Self,
        pre_ctx: Context,
        post_self: Self,
        post_other: Self,
        post_ctx: Context,
    )
        requires
            !pre_self.spec_is_attached(),
            pre_other.spec_is_attached(),
            pre_ctx.surface is Some,
            Self::attachment_transferred(
                pre_self,
                pre_other,
                pre_ctx,
                post_self,
                post_other,
                post_ctx,
            ),
        ensures
            post_self.spec_is_attached(),
            !post_other.spec_is_attached(),
            post_ctx.surface == Some(pre_self.unattached()->0),
            post_other.unattached() == Some(pre_ctx.surface->0),
            opt_count(post_self.unattached()) + opt_count(post_other.unattached()) + opt_count(
                post_ctx.surface,
            ) == 2,
    {
    }

    /// A rejected resize leaves the chain exactly as it was (see
    /// [`Self::resize`]: a dimension smaller than 1 fails with `Failed` and
    /// changes nothing), so a buffer swap completed afterwards still
    /// produces a back buffer and a front buffer of the pre-resize size.
    pub proof fn lemma_swap_after_rejected_resize(
        pre: Self,
        pre_ctx: Context,
        post: Self,
        post_ctx: Context,
    )
        requires
            Self::swap_complete(pre, pre_ctx, post, post_ctx),
        ensures
            post.spec_size() == pre.spec_size(),
            post.pending() matches Some(front) && front == (if pre.spec_is_attached() {
                pre_ctx.surface->0
            } else {
                pre.unattached()->0
            }),
            (if post.spec_is_attached() {
                post_ctx.surface->0
            } else {
                post.unattached()->0
            }).spec_size() == pre.spec_size(),
    {
    }

    /// A chain created attached: the producer context already owns its back
    /// buffer, whose size the chain inherits.
    pub fn new_attached(context: &Context, provider: P) -> (c: Self)
        requires
            context.surface is Some,
        ensures
            c.spec_context_id() == context.id,
            c.spec_is_attached(),
            c.spec_size() == context.surface->0.spec_size(),
            c.pending() == provider.pending(),
            c.pool() == provider.pool(),
    {
        let size = context.surface.as_ref().unwrap().size();
        SwapChainCore { provider, size, context_id: context.id, unattached_surface: None }
    }

    /// A chain created detached: a back buffer of the given size is obtained
    /// from the provider (reusing a pooled surface of that size if the
    /// provider holds one) and stored in the unattached slot.
    pub fn new_detached<D: Device>(
        device: &mut D,
        context: &Context,
        provider: P,
        size: Size,
    ) -> (r: Result<Self, Error>)
        ensures
            r matches Ok(c) ==> {
                &&& c.spec_context_id() == context.id
                &&& !c.spec_is_attached()
                &&& c.spec_size() == size
                &&& c.unattached() matches Some(s) && s.spec_size() == size
                &&& c.pending() == provider.pending()
                &&& (if has_size_match(provider.pool(), size) {
                    c.unattached() == Some(
                        provider.pool()[first_match(provider.pool(), size)],
                    ) && c.pool() == swap_removed(
                        provider.pool(),
                        first_match(provider.pool(), size),
                    )
                } else {
                    c.pool() == provider.pool()
                })
            },
            r matches Err(e) ==> e is Backend,
            has_size_match(provider.pool(), size) ==> r is Ok,
    {
        let mut provider = provider;
        let ghost pool0 = provider.pool();
        let surface = match provider.provide_surface(device, context, size) {
            Ok(s) => s,
            Err(e) => {
                return Err(e);
            },
        };
        proof {
            if has_size_match(pool0, size) {
                crate::provider::lemma_first_match(pool0, size);
            }
        }
        Ok(SwapChainCore { provider, size, context_id: context.id, unattached_surface: Some(surface) })
    }

    /// The identity of the producer context.
    pub fn context_id(&self) -> (r: ContextId)
        ensures
            r == self.spec_context_id(),
    {
        self.context_id
    }

    /// The current back-buffer size.
    pub fn size(&self) -> (r: Size)
        ensures
            r == self.spec_size(),
    {
        self.size
    }

    /// Whether this chain is attached to its producer context.
    pub fn is_attached(&self) -> (b: bool)
        ensures
            b == self.spec_is_attached(),
    {
        self.unattached_surface.is_none()
    }

    /// `Ok` exactly when `context` is this chain's producer context.
    pub fn validate_context(&self, context: &Context) -> (r: Result<(), Error>)
        ensures
            r is Ok <==> context.id == self.spec_context_id(),
            r matches Err(e) ==> e == Error::IncompatibleContext,
    {
        if context.id == self.context_id {
            Ok(())
        } else {
            Err(Error::IncompatibleContext)
        }
    }

    /// Swap the back and front buffers: recycle any previous front buffer,
    /// obtain a back buffer of the chain's size (reusing the first
    /// size-matched pool entry when there is one), install it as the current
    /// back buffer, and hand the old back buffer to the provider as the new
    /// front buffer, which also evicts stale pooled surfaces.
    ///
    /// Called by the producer; fails with `IncompatibleContext` and changes
    /// nothing when `context` is not the producer context. Fails with
    /// `Failed` and changes nothing when the chain is attached but the
    /// context holds no surface. A backend failure mid-swap rolls back the
    /// one buffer in flight and is passed through.
    pub fn swap_buffers<D: Device>(&mut self, device: &mut D, context: &mut Context) -> (r: Result<
        (),
        Error,
    >)
        ensures
            final(self).spec_context_id() == old(self).spec_context_id(),
            final(context).id == old(context).id,
            r == Err::<(), Error>(Error::IncompatibleContext) <==> old(context).id != old(self).spec_context_id(),
            r == Err::<(), Error>(Error::Failed) <==> (old(context).id == old(self).spec_context_id() && old(self).spec_is_attached() && old(context).surface is None),
            (r == Err::<(), Error>(Error::IncompatibleContext) || r == Err::<(), Error>(
                Error::Failed,
            )) ==> *final(self) == *old(self) && *final(context) == *old(context) && *final(device)
                == *old(device),
            r is Ok ==> Self::swap_complete(*old(self), *old(context), *final(self), *final(context)),
            r matches Err(e) && e is Backend ==> Self::swap_complete(
                *old(self),
                *old(context),
                *final(self),
                *final(context),
            ) || Self::swap_interrupted(*old(self), *old(context), *final(self), *final(context)),
            ({
                let pool1 = with_pending_recycled(old(self).pool(), old(self).pending());
                &&& old(context).id == old(self).spec_context_id()
                &&& !old(self).spec_is_attached()
                &&& pool1.len() == 1
                &&& pool1[0].spec_size() == old(self).spec_size()
            }) ==> r is Ok && *final(device) == *old(device),
    {
        if context.id != self.context_id {
            return Err(Error::IncompatibleContext);
        }
        if self.unattached_surface.is_none() && context.surface.is_none() {
            return Err(Error::Failed);
        }

        // Recycle the old front buffer.
        self.provider.recycle_front_buffer(device);

        // Fetch a new back buffer, reusing a pooled surface if possible.
        let ghost pool1 = self.pool();
        let new_back_buffer = match self.provider.provide_surface(device, context, self.size) {
            Ok(s) => s,
            Err(e) => {
                return Err(e);
            },
        };
        proof {
            if has_size_match(pool1, self.size) {
                crate::provider::lemma_first_match(pool1, self.size);
            }
        }

        // Swap the buffers.
        let new_front_buffer = match self.unattached_surface.take() {
            Some(surface) => {
                self.unattached_surface = Some(new_back_buffer);
                surface
            },
            None => {
                let unbound = match device.unbind_surface_from_context(context) {
                    Ok(s) => s,
                    Err(e) => {
                        return Err(e);
                    },
                };
                let front = unbound.unwrap();
                match device.bind_surface_to_context(context, new_back_buffer) {
                    Ok(()) => {},
                    Err((e, fresh)) => {
                        let _ = device.destroy_surface(context, fresh);
                        return Err(e);
                    },
                }
                front
            },
        };

        // The old back buffer becomes the new front buffer; stale pooled
        // surfaces are destroyed.
        self.provider.set_front_buffer(device, context, new_front_buffer)
    }

    /// Take the attachment from `other`: succeeds only when this chain is
    /// detached and `other` is attached (and both belong to `context`), and
    /// then binds this chain's surface into the context while `other`
    /// receives the surface the context gave up. The total number of live
    /// surfaces is conserved on success.
    ///
    /// If the bind fails, the surface being attached is destroyed and the
    /// error returned; `other` is left attached and unchanged, and this
    /// chain is left without a surface.
    pub fn take_attachment_from<D: Device>(
        &mut self,
        device: &mut D,
        context: &mut Context,
        other: &mut SwapChainCore<P>,
    ) -> (r: Result<(), Error>)
        ensures
            final(self).spec_context_id() == old(self).spec_context_id(),
            final(other).spec_context_id() == old(other).spec_context_id(),
            final(context).id == old(context).id,
            final(self).spec_size() == old(self).spec_size(),
            final(other).spec_size() == old(other).spec_size(),
            final(self).pending() == old(self).pending(),
            final(self).pool() == old(self).pool(),
            final(other).pending() == old(other).pending(),
            final(other).pool() == old(other).pool(),
            r == Err::<(), Error>(Error::IncompatibleContext) <==> (old(context).id != old(self).spec_context_id() || old(context).id != old(other).spec_context_id()),
            r == Err::<(), Error>(Error::Failed) <==> (old(context).id == old(self).spec_context_id() && old(context).id == old(other).spec_context_id() && !(old(self).unattached() is Some && old(other).unattached() is None && old(context).surface is Some)),
            (r == Err::<(), Error>(Error::IncompatibleContext) || r == Err::<(), Error>(
                Error::Failed,
            )) ==> *final(self) == *old(self) && *final(other) == *old(other) && *final(context)
                == *old(context) && *final(device) == *old(device),
            r is Ok ==> Self::attachment_transferred(
                *old(self),
                *old(other),
                *old(context),
                *final(self),
                *final(other),
                *final(context),
            ),
            r matches Err(e) && e is Backend ==> (*final(self) == *old(self) && *final(other)
                == *old(other) && *final(context) == *old(context)) || (final(self).unattached() is None && *final(other) == *old(other) && final(context).surface is None),
    {
        if context.id != self.context_id {
            return Err(Error::IncompatibleContext);
        }
        if context.id != other.context_id {
            return Err(Error::IncompatibleContext);
        }
        if !(self.unattached_surface.is_some() && other.unattached_surface.is_none()
            && context.surface.is_some()) {
            return Err(Error::Failed);
        }
        let surface = self.unattached_surface.take().unwrap();
        let unbound = match device.unbind_surface_from_context(context) {
            Ok(s) => s,
            Err(e) => {
                // Nothing has moved yet: restore the unattached slot.
                self.unattached_surface = Some(surface);
                return Err(e);
            },
        };
        let old_surface = unbound.unwrap();
        match device.bind_surface_to_context(context, surface) {
            Ok(()) => {},
            Err((e, s)) => {
                let _ = device.destroy_surface(context, s);
                return Err(e);
            },
        }
        other.unattached_surface = Some(old_surface);
        Ok(())
    }

    /// Resize the chain: force-allocate a back buffer of the new size (never
    /// reused from the pool), swap it in, destroy the displaced back buffer,
    /// and record the new size. The pending front buffer and the pool are
    /// never touched: a consumer still holding an old-size front buffer is
    /// unaffected until the next swap.
    ///
    /// Fails with `Failed` and changes nothing when either dimension is
    /// smaller than 1, or when the chain is attached but the context holds
    /// no surface.
    pub fn resize<D: Device>(
        &mut self,
        device: &mut D,
        context: &mut Context,
        size: Size,
    ) -> (r: Result<(), Error>)
        ensures
            final(self).spec_context_id() == old(self).spec_context_id(),
            final(context).id == old(context).id,
            final(self).pending() == old(self).pending(),
            final(self).pool() == old(self).pool(),
            final(self).spec_is_attached() == old(self).spec_is_attached(),
            r == Err::<(), Error>(Error::IncompatibleContext) <==> old(context).id != old(self).spec_context_id(),
            r == Err::<(), Error>(Error::Failed) <==> (old(context).id == old(self).spec_context_id() && (size.width < 1 || size.height < 1 || (old(self).spec_is_attached() && old(context).surface is None))),
            (r == Err::<(), Error>(Error::IncompatibleContext) || r == Err::<(), Error>(
                Error::Failed,
            )) ==> *final(self) == *old(self) && *final(context) == *old(context) && *final(device)
                == *old(device),
            r is Ok ==> {
                &&& final(self).spec_size() == size
                &&& (old(self).spec_is_attached() ==> (final(context).surface matches Some(nb)
                    && nb.spec_size() == size))
                &&& (!old(self).spec_is_attached() ==> (*final(context) == *old(context) && (final(self).unattached() matches Some(nb) && nb.spec_size() == size)))
            },
            r matches Err(e) && e is Backend ==> (final(self).spec_size() == old(self).spec_size()
                && final(self).unattached() == old(self).unattached() && *final(context) == *old(context)) || (old(self).spec_is_attached() && final(self).spec_size() == old(self).spec_size()
                && final(context).surface is None) || ({
                &&& final(self).spec_size() == old(self).spec_size()
                &&& (old(self).spec_is_attached() ==> (final(context).surface matches Some(nb)
                    && nb.spec_size() == size))
                &&& (!old(self).spec_is_attached() ==> (*final(context) == *old(context) && (final(self).unattached() matches Some(nb) && nb.spec_size() == size)))
            }),
    {
        if context.id != self.context_id {
            return Err(Error::IncompatibleContext);
        }
        if size.width < 1 || size.height < 1 {
            return Err(Error::Failed);
        }
        if self.unattached_surface.is_none() && context.surface.is_none() {
            return Err(Error::Failed);
        }
        let new_back_buffer = match self.provider.create_sized_surface(device, context, size) {
            Ok(s) => s,
            Err(e) => {
                return Err(e);
            },
        };
        let old_back_buffer = match self.unattached_surface.take() {
            Some(surface) => {
                self.unattached_surface = Some(new_back_buffer);
                surface
            },
            None => {
                let unbound = match device.unbind_surface_from_context(context) {
                    Ok(s) => s,
                    Err(e) => {
                        return Err(e);
                    },
                };
                let front = unbound.unwrap();
                match device.bind_surface_to_context(context, new_back_buffer) {
                    Ok(()) => {},
                    Err((e, fresh)) => {
                        let _ = device.destroy_surface(context, fresh);
                        return Err(e);
                    },
                }
                front
            },
        };
        match device.destroy_surface(context, old_back_buffer) {
            Ok(()) => {},
            Err(e) => {
                return Err(e);
            },
        }
        self.size = size;
        Ok(())
    }

    /// Take the current front buffer: the pending surface if present, else
    /// the most recently pooled surface, else nothing. Called by a consumer;
    /// no context validation, and absence is a normal state, not an error.
    pub fn take_surface(&mut self) -> (r: Option<Surface>)
        ensures
            final(self).spec_context_id() == old(self).spec_context_id(),
            final(self).spec_size() == old(self).spec_size(),
            final(self).unattached() == old(self).unattached(),
            final(self).pending() is None,
            old(self).pending() matches Some(s) ==> r == Some(s) && final(self).pool() == old(self).pool(),
            old(self).pending() is None && old(self).pool().len() > 0 ==> r == Some(
                old(self).pool().last(),
            ) && final(self).pool() == old(self).pool().drop_last(),
            old(self).pending() is None && old(self).pool().len() == 0 ==> r is None && final(self).pool() == old(self).pool(),
    {
        self.provider.take_front_buffer()
    }

    /// A consumer returns a surface for reuse: it enters the recycle pool.
    /// No context validation.
    pub fn recycle_surface(&mut self, surface: Surface)
        ensures
            final(self).spec_context_id() == old(self).spec_context_id(),
            final(self).spec_size() == old(self).spec_size(),
            final(self).unattached() == old(self).unattached(),
            final(self).pending() == old(self).pending(),
            final(self).pool() == old(self).pool().push(surface),
    {
        self.provider.recycle_surface(surface);
    }

    /// Make the chain's back buffer the context's current surface so that it
    /// can be cleared (or otherwise drawn to through the context), following
    /// the same bind/unbind discipline as a buffer swap. For an attached
    /// chain this is a no-op; for a detached chain the stored back buffer is
    /// bound and the surface the context gave up is returned, to be restored
    /// by [`Self::finish_clear`]. If the bind fails, both the chain's
    /// surface and the displaced one are destroyed and the error returned.
    pub fn begin_clear<D: Device>(&mut self, device: &mut D, context: &mut Context) -> (r: Result<
        Option<Surface>,
        Error,
    >)
        ensures
            final(self).spec_context_id() == old(self).spec_context_id(),
            final(self).spec_size() == old(self).spec_size(),
            final(self).pending() == old(self).pending(),
            final(self).pool() == old(self).pool(),
            final(context).id == old(context).id,
            r == Err::<Option<Surface>, Error>(Error::IncompatibleContext) <==> old(context).id
                != old(self).spec_context_id(),
            r == Err::<Option<Surface>, Error>(Error::Failed) <==> (old(context).id == old(self).spec_context_id() && old(self).spec_is_attached() && old(context).surface is None),
            (r == Err::<Option<Surface>, Error>(Error::IncompatibleContext) || r == Err::<
                Option<Surface>,
                Error,
            >(Error::Failed)) ==> *final(self) == *old(self) && *final(context) == *old(context)
                && *final(device) == *old(device),
            r matches Ok(reattach) ==> {
                &&& final(context).surface is Some
                &&& (old(self).spec_is_attached() ==> reattach is None && *final(self) == *old(self)
                    && *final(context) == *old(context))
                &&& (!old(self).spec_is_attached() ==> final(self).unattached() is None && final(context).surface == Some(old(self).unattached()->0) && reattach == old(context).surface)
            },
            r matches Err(e) && e is Backend ==> (*final(self) == *old(self) && *final(context)
                == *old(context)) || (!old(self).spec_is_attached() && final(self).unattached() is None && final(context).id == old(context).id && final(context).surface is None),
    {
        if context.id != self.context_id {
            return Err(Error::IncompatibleContext);
        }
        match self.unattached_surface.take() {
            None => {
                if context.surface.is_none() {
                    return Err(Error::Failed);
                }
                Ok(None)
            },
            Some(surface) => {
                let reattach = match device.unbind_surface_from_context(context) {
                    Ok(s) => s,
                    Err(e) => {
                        // Nothing has moved yet: restore the unattached slot.
                        self.unattached_surface = Some(surface);
                        return Err(e);
                    },
                };
                match device.bind_surface_to_context(context, surface) {
                    Ok(()) => {},
                    Err((e, s)) => {
                        let _ = device.destroy_surface(context, s);
                        if let Some(displaced) = reattach {
                            let _ = device.destroy_surface(context, displaced);
                        }
                        return Err(e);
                    },
                }
                Ok(reattach)
            },
        }
    }

    /// Undo [`Self::begin_clear`]: when it displaced a surface, unbind the
    /// chain's back buffer from the context into the unattached slot again
    /// and bind the displaced surface back. If that bind fails, the
    /// displaced surface is destroyed and the error returned.
    ///
    /// Call with the same context that `begin_clear` succeeded with, and with
    /// the surface it returned.
    pub fn finish_clear<D: Device>(
        &mut self,
        device: &mut D,
        context: &mut Context,
        reattach: Option<Surface>,
    ) -> (r: Result<(), Error>)
        requires
            old(context).id == old(self).spec_context_id(),
            reattach is Some ==> old(context).surface is Some,
        ensures
            final(self).spec_context_id() == old(self).spec_context_id(),
            final(self).spec_size() == old(self).spec_size(),
            final(self).pending() == old(self).pending(),
            final(self).pool() == old(self).pool(),
            final(context).id == old(context).id,
            reattach is None ==> r is Ok && *final(self) == *old(self) && *final(context) == *old(context) && *final(device) == *old(device),
            reattach is Some && r is Ok ==> final(self).unattached() == old(context).surface
                && final(context).surface == reattach,
            r matches Err(e) ==> e is Backend && final(self).unattached() == old(self).unattached()
                && (*final(context) == *old(context) || final(context).surface is None),
    {
        match reattach {
            None => Ok(()),
            Some(surface) => {
                let unbound = match device.unbind_surface_from_context(context) {
                    Ok(s) => s,
                    Err(e) => {
                        return Err(e);
                    },
                };
                let back_buffer = unbound.unwrap();
                match device.bind_surface_to_context(context, surface) {
                    Ok(()) => {},
                    Err((e, s)) => {
                        let _ = device.destroy_surface(context, s);
                        return Err(e);
                    },
                }
                self.unattached_surface = Some(back_buffer);
                Ok(())
            },
        }
    }

    /// Destroy the chain's surfaces: the unattached back buffer if present,
    /// then the pending front buffer and the whole pool. After success the
    /// chain observes empty state, and a second call succeeds as a no-op.
    pub fn destroy<D: Device>(&mut self, device: &mut D, context: &Context) -> (r: Result<
        (),
        Error,
    >)
        ensures
            final(self).spec_context_id() == old(self).spec_context_id(),
            final(self).spec_size() == old(self).spec_size(),
            r == Err::<(), Error>(Error::IncompatibleContext) <==> context.id != old(self).spec_context_id(),
            r == Err::<(), Error>(Error::IncompatibleContext) ==> *final(self) == *old(self)
                && *final(device) == *old(device),
            r is Err ==> r->Err_0 == Error::IncompatibleContext || r->Err_0 is Backend,
            r is Ok ==> final(self).unattached() is None && final(self).pending() is None && final(self).pool() == Seq::<Surface>::empty(),
            r matches Err(e) && e is Backend ==> final(self).unattached() is None && ((final(self).pending() == old(self).pending() && final(self).pool() == old(self).pool()) || (final(self).pending() is None && final(self).pool() == Seq::<Surface>::empty())),
            context.id == old(self).spec_context_id() && old(self).unattached() is None && old(self).pending() is None && old(self).pool().len() == 0 ==> r is Ok && *final(device) == *old(
                device,
            ),
    {
        if context.id != self.context_id {
            return Err(Error::IncompatibleContext);
        }
        if let Some(surface) = self.unattached_surface.take() {
            match device.destroy_surface(context, surface) {
                Ok(()) => {},
                Err(e) => {
                    return Err(e);
                },
            }
        }
        self.provider.destroy_all_surfaces(device, context)
    }
}

/// The lock invariant of a [`SwapChain`]: the producer context's identity is
/// fixed for the chain's lifetime.
pub struct ChainPred {
    /// The identity every state stored in the lock must carry.
    pub ctx: ContextId,
}

impl<P: SurfaceProvider> RwLockPredicate<SwapChainCore<P>> for ChainPred {
    open spec fn inv(self, v: SwapChainCore<P>) -> bool {
        v.spec_context_id() == self.ctx
    }
}

/// A shared borrow of the value behind an `Arc` handle (in specifications an
/// `Arc` is identified with its contents).
pub(crate) fn arc_borrow<'a, T>(v: &'a Arc<T>) -> (r: &'a T)
    ensures
        *r == **v,
{
    &**v
}

/// Another `Arc` handle to the same allocation, hence to the same value.
pub(crate) fn arc_clone<T>(v: &Arc<T>) -> (r: Arc<T>)
    ensures
        r == *v,
{
    Arc::clone(v)
}

/// A thread-safe swap chain: a cloneable handle sharing one
/// [`SwapChainCore`] behind an exclusive lock. Every operation locks the
/// core for the duration of one state transition, so operations on one swap
/// chain are linearizable.
pub struct SwapChain<P: SurfaceProvider> {
    inner: Arc<RwLock<SwapChainCore<P>, ChainPred>>,
}

impl<P: SurfaceProvider> Clone for SwapChain<P> {
    /// Another handle to the same swap chain.
    fn clone(&self) -> (r: Self)
        ensures
            r == *self,
    {
        SwapChain { inner: arc_clone(&self.inner) }
    }
}

impl<P: SurfaceProvider> SwapChain<P> {
    /// The identity of the producer context, fixed for the chain's lifetime.
    pub closed spec fn spec_context_id(&self) -> ContextId {
        (*self.inner).pred().ctx
    }

    /// The identity of the producer context.
    pub fn context_id(&self) -> (r: ContextId)
        ensures
            r == self.spec_context_id(),
    {
        let read_handle = arc_borrow(&self.inner).acquire_read();
        let id = read_handle.borrow().context_id();
        read_handle.release_read();
        id
    }

    /// Create a new attached swap chain: the producer context keeps its
    /// current surface as the chain's back buffer, whose size the chain
    /// inherits.
    pub fn create_attached<D: Device>(
        _device: &mut D,
        context: &Context,
        provider: P,
    ) -> (r: Result<SwapChain<P>, Error>)
        requires
            context.surface is Some,
        ensures
            r matches Ok(c) ==> c.spec_context_id() == context.id,
            r is Ok,
    {
        let core = SwapChainCore::new_attached(context, provider);
        let ctx = context.context_id();
        Ok(SwapChain { inner: Arc::new(RwLock::new(core, Ghost(ChainPred { ctx }))) })
    }

    /// Create a new detached swap chain with a back buffer of the given
    /// size, obtained from the provider.
    pub fn create_detached<D: Device>(
        device: &mut D,
        context: &Context,
        provider: P,
        size: Size,
    ) -> (r: Result<SwapChain<P>, Error>)
        ensures
            r matches Ok(c) ==> c.spec_context_id() == context.id,
            r matches Err(e) ==> e is Backend,
            has_size_match(provider.pool(), size) ==> r is Ok,
    {
        let core = match SwapChainCore::new_detached(device, context, provider, size) {
            Ok(c) => c,
            Err(e) => {
                return Err(e);
            },
        };
        let ctx = context.context_id();
        Ok(SwapChain { inner: Arc::new(RwLock::new(core, Ghost(ChainPred { ctx }))) })
    }

    /// Swap the back and front buffers. Called by the producer; see
    /// [`SwapChainCore::swap_buffers`] for the exact transition.
    pub fn swap_buffers<D: Device>(&self, device: &mut D, context: &mut Context) -> (r: Result<
        (),
        Error,
    >)
        ensures
            final(context).id == old(context).id,
            r == Err::<(), Error>(Error::IncompatibleContext) <==> old(context).id
                != self.spec_context_id(),
            r == Err::<(), Error>(Error::IncompatibleContext) ==> *final(context) == *old(context)
                && *final(device) == *old(device),
            old(context).surface is Some ==> r != Err::<(), Error>(Error::Failed),
    {
        let (mut core, handle) = arc_borrow(&self.inner).acquire_write();
        let r = core.swap_buffers(device, context);
        handle.release_write(core);
        r
    }

    /// Take the attachment from `other`: this chain becomes attached, the
    /// other detached. Locks this chain, then the other, in that order (not
    /// by identity), so invoking it concurrently with the roles reversed on
    /// the same pair can deadlock; see
    /// [`SwapChainCore::take_attachment_from`] for the exact transition.
    pub fn take_attachment_from<D: Device>(
        &self,
        device: &mut D,
        context: &mut Context,
        other: &SwapChain<P>,
    ) -> (r: Result<(), Error>)
        ensures
            final(context).id == old(context).id,
            r == Err::<(), Error>(Error::IncompatibleContext) <==> (old(context).id
                != self.spec_context_id() || old(context).id != other.spec_context_id()),
            r == Err::<(), Error>(Error::IncompatibleContext) ==> *final(context) == *old(context)
                && *final(device) == *old(device),
    {
        let (mut core, handle) = arc_borrow(&self.inner).acquire_write();
        let (mut other_core, other_handle) = arc_borrow(&other.inner).acquire_write();
        let r = core.take_attachment_from(device, context, &mut other_core);
        other_handle.release_write(other_core);
        handle.release_write(core);
        r
    }

    /// Resize the chain's back buffer. Called by the producer; rejects any
    /// dimension smaller than 1 with `Failed`, changing nothing; see
    /// [`SwapChainCore::resize`] for the exact transition.
    pub fn resize<D: Device>(&self, device: &mut D, context: &mut Context, size: Size) -> (r:
        Result<(), Error>)
        ensures
            final(context).id == old(context).id,
            r == Err::<(), Error>(Error::IncompatibleContext) <==> old(context).id
                != self.spec_context_id(),
            old(context).id == self.spec_context_id() && (size.width < 1 || size.height < 1) ==> r
                == Err::<(), Error>(Error::Failed),
            size.width >= 1 && size.height >= 1 && old(context).surface is Some ==> r != Err::<
                (),
                Error,
            >(Error::Failed),
            (r == Err::<(), Error>(Error::IncompatibleContext) || r == Err::<(), Error>(
                Error::Failed,
            )) ==> *final(context) == *old(context) && *final(device) == *old(device),
    {
        let (mut core, handle) = arc_borrow(&self.inner).acquire_write();
        let r = core.resize(device, context, size);
        handle.release_write(core);
        r
    }

    /// The current back-buffer size. Called by a consumer; no validation.
    pub fn size(&self) -> Size {
        let read_handle = arc_borrow(&self.inner).acquire_read();
        let size = read_handle.borrow().size();
        read_handle.release_read();
        size
    }

    /// Take the current front buffer. Called by a consumer; absence is a
    /// normal state, not an error.
    pub fn take_surface(&self) -> Option<Surface> {
        let (mut core, handle) = arc_borrow(&self.inner).acquire_write();
        let r = core.take_surface();
        handle.release_write(core);
        r
    }

    /// Recycle a consumer-returned surface into the pool.
    pub fn recycle_surface(&self, surface: Surface) {
        let (mut core, handle) = arc_borrow(&self.inner).acquire_write();
        core.recycle_surface(surface);
        handle.release_write(core);
    }

    /// Whether this chain is attached to its producer context.
    pub fn is_attached(&self) -> bool {
        let read_handle = arc_borrow(&self.inner).acquire_read();
        let b = read_handle.borrow().is_attached();
        read_handle.release_read();
        b
    }

    /// Make the chain's back buffer the context's current surface, for a
    /// clear. Called by the producer; hand the returned surface to
    /// [`Self::finish_clear`] afterwards. See [`SwapChainCore::begin_clear`].
    pub fn begin_clear<D: Device>(&self, device: &mut D, context: &mut Context) -> (r: Result<
        Option<Surface>,
        Error,
    >)
        ensures
            final(context).id == old(context).id,
            r == Err::<Option<Surface>, Error>(Error::IncompatibleContext) <==> old(context).id
                != self.spec_context_id(),
            (r == Err::<Option<Surface>, Error>(Error::IncompatibleContext) || r == Err::<
                Option<Surface>,
                Error,
            >(Error::Failed)) ==> *final(context) == *old(context) && *final(device) == *old(device),
            old(context).surface is Some ==> r != Err::<Option<Surface>, Error>(Error::Failed),
            r matches Ok(reattach) ==> final(context).surface is Some,
    {
        let (mut core, handle) = arc_borrow(&self.inner).acquire_write();
        let r = core.begin_clear(device, context);
        handle.release_write(core);
        r
    }

    /// Undo [`Self::begin_clear`], restoring the surface it displaced.
    /// Called by the producer, with the same context `begin_clear` succeeded
    /// with. See [`SwapChainCore::finish_clear`].
    pub fn finish_clear<D: Device>(
        &self,
        device: &mut D,
        context: &mut Context,
        reattach: Option<Surface>,
    ) -> (r: Result<(), Error>)
        requires
            old(context).id == self.spec_context_id(),
            reattach is Some ==> old(context).surface is Some,
        ensures
            final(context).id == old(context).id,
            reattach is None ==> r is Ok && *final(context) == *old(context) && *final(device)
                == *old(device),
            reattach is Some && r is Ok ==> final(context).surface == reattach,
            r matches Err(e) ==> e is Backend,
    {
        let (mut core, handle) = arc_borrow(&self.inner).acquire_write();
        let r = core.finish_clear(device, context, reattach);
        handle.release_write(core);
        r
    }

    /// Destroy the chain's surfaces. Called by the producer; see
    /// [`SwapChainCore::destroy`].
    pub fn destroy<D: Device>(&self, device: &mut D, context: &Context) -> (r: Result<(), Error>)
        ensures
            r == Err::<(), Error>(Error::IncompatibleContext) <==> context.id
                != self.spec_context_id(),
            r is Err ==> r->Err_0 == Error::IncompatibleContext || r->Err_0 is Backend,
    {
        let (mut core, handle) = arc_borrow(&self.inner).acquire_write();
        let r = core.destroy(device, context);
        handle.release_write(core);
        r
    }
}

} // verus!
