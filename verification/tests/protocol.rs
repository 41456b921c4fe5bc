use swap_chains::chain::SwapChain;
use swap_chains::context::Context;
use swap_chains::context::ContextId;
use swap_chains::device::Device;
use swap_chains::error::Error;
use swap_chains::mock::MockDevice;
use swap_chains::mock::MOCK_BIND_FAILURE;
use swap_chains::mock::MOCK_CREATE_FAILURE;
use swap_chains::provider::SurfmanProvider;
use swap_chains::surface::Size;
use swap_chains::surface::SurfaceAccess;

fn provider() -> SurfmanProvider {
    SurfmanProvider::new(SurfaceAccess::GPUOnly)
}

/// A context that already owns a surface, as a producer context does.
fn context_with_surface(device: &mut MockDevice, id: u64, size: Size) -> Context {
    let mut context = Context::new(ContextId(id));
    let surface = device
        .create_surface(&context, SurfaceAccess::GPUOnly, size)
        .unwrap();
    device
        .bind_surface_to_context(&mut context, surface)
        .unwrap();
    context
}

#[test]
fn detached_swap_recycles_surfaces() {
    // Create a detached swap chain, size (100, 100).
    let mut device = MockDevice::new();
    let mut context = Context::new(ContextId(1));
    let chain =
        SwapChain::create_detached(&mut device, &context, provider(), Size::new(100, 100))
            .unwrap();
    assert_eq!(device.surfaces_created(), 1);
    assert!(!chain.is_attached());

    // Swap: a second surface is allocated for the back buffer, the first
    // becomes the front buffer.
    assert_eq!(chain.swap_buffers(&mut device, &mut context), Ok(()));
    assert_eq!(device.surfaces_created(), 2);

    // The front buffer has the requested size.
    let front = chain.take_surface().unwrap();
    assert_eq!(front.size(), Size::new(100, 100));
    let front_id = front.id();
    assert_eq!(front_id, 1);

    // Recycle it and swap again at the same size: the provider must hand
    // back the recycled surface, not allocate a new one.
    chain.recycle_surface(front);
    assert_eq!(chain.swap_buffers(&mut device, &mut context), Ok(()));
    assert_eq!(device.surfaces_created(), 2);

    // The new front buffer is the surface that was the back buffer before.
    let front2 = chain.take_surface().unwrap();
    assert_eq!(front2.id(), 2);
    assert_eq!(front2.size(), Size::new(100, 100));
}

#[test]
fn swap_with_wrong_context_changes_nothing() {
    // Swap chain attached to context 1; swap_buffers called with context 2.
    let mut device = MockDevice::new();
    let context = context_with_surface(&mut device, 1, Size::new(64, 64));
    let chain = SwapChain::create_attached(&mut device, &context, provider()).unwrap();
    assert!(chain.is_attached());

    let mut wrong = Context::new(ContextId(2));
    let created_before = device.surfaces_created();
    assert_eq!(
        chain.swap_buffers(&mut device, &mut wrong),
        Err(Error::IncompatibleContext)
    );

    // Nothing observable has moved: the chain is still attached at the same
    // size, no surface was created or destroyed, the wrong context gained
    // nothing, and there is still no front buffer.
    assert!(chain.is_attached());
    assert_eq!(chain.size(), Size::new(64, 64));
    assert_eq!(device.surfaces_created(), created_before);
    assert_eq!(device.surfaces_destroyed(), 0);
    assert!(!wrong.has_surface());
    assert!(chain.take_surface().is_none());
}

#[test]
fn attached_swap_hands_out_old_surface() {
    let mut device = MockDevice::new();
    let mut context = context_with_surface(&mut device, 1, Size::new(64, 64));
    let chain = SwapChain::create_attached(&mut device, &context, provider()).unwrap();

    assert_eq!(chain.swap_buffers(&mut device, &mut context), Ok(()));
    assert!(chain.is_attached());
    assert!(context.has_surface());

    // The surface originally bound into the context is now the front buffer.
    let front = chain.take_surface().unwrap();
    assert_eq!(front.id(), 1);
    assert_eq!(front.size(), Size::new(64, 64));
}

#[test]
fn resize_rejects_non_positive_dimensions() {
    let mut device = MockDevice::new();
    let mut context = Context::new(ContextId(1));
    let chain =
        SwapChain::create_detached(&mut device, &context, provider(), Size::new(100, 100))
            .unwrap();

    // Width < 1 and height < 1 both fail with `Failed` and change nothing.
    assert_eq!(
        chain.resize(&mut device, &mut context, Size::new(0, 50)),
        Err(Error::Failed)
    );
    assert_eq!(
        chain.resize(&mut device, &mut context, Size::new(50, -3)),
        Err(Error::Failed)
    );
    assert_eq!(chain.size(), Size::new(100, 100));

    // A subsequent swap still succeeds and yields the pre-resize size.
    assert_eq!(chain.swap_buffers(&mut device, &mut context), Ok(()));
    let front = chain.take_surface().unwrap();
    assert_eq!(front.size(), Size::new(100, 100));
}

#[test]
fn resize_replaces_back_buffer() {
    let mut device = MockDevice::new();
    let mut context = Context::new(ContextId(1));
    let chain =
        SwapChain::create_detached(&mut device, &context, provider(), Size::new(100, 100))
            .unwrap();

    assert_eq!(
        chain.resize(&mut device, &mut context, Size::new(10, 20)),
        Ok(())
    );
    assert_eq!(chain.size(), Size::new(10, 20));
    // The displaced back buffer was destroyed, never pooled.
    assert_eq!(device.surfaces_destroyed(), 1);

    assert_eq!(chain.swap_buffers(&mut device, &mut context), Ok(()));
    let front = chain.take_surface().unwrap();
    assert_eq!(front.size(), Size::new(10, 20));
}

#[test]
fn resize_with_wrong_context_is_rejected() {
    let mut device = MockDevice::new();
    let context = Context::new(ContextId(1));
    let chain =
        SwapChain::create_detached(&mut device, &context, provider(), Size::new(100, 100))
            .unwrap();
    let mut wrong = Context::new(ContextId(9));
    assert_eq!(
        chain.resize(&mut device, &mut wrong, Size::new(10, 20)),
        Err(Error::IncompatibleContext)
    );
    assert_eq!(chain.size(), Size::new(100, 100));
}

#[test]
fn take_attachment_swaps_roles() {
    let mut device = MockDevice::new();
    let mut context = context_with_surface(&mut device, 1, Size::new(64, 64));
    let attached = SwapChain::create_attached(&mut device, &context, provider()).unwrap();
    let detached =
        SwapChain::create_detached(&mut device, &context, provider(), Size::new(32, 32)).unwrap();
    assert!(attached.is_attached());
    assert!(!detached.is_attached());

    let created_before = device.surfaces_created();
    assert_eq!(
        detached.take_attachment_from(&mut device, &mut context, &attached),
        Ok(())
    );

    // The roles are exactly swapped, and no surface was created or
    // destroyed: the total number of live surfaces is conserved.
    assert!(detached.is_attached());
    assert!(!attached.is_attached());
    assert!(context.has_surface());
    assert_eq!(device.surfaces_created(), created_before);
    assert_eq!(device.surfaces_destroyed(), 0);
}

#[test]
fn take_attachment_requires_detached_self_and_attached_other() {
    let mut device = MockDevice::new();
    let mut context = context_with_surface(&mut device, 1, Size::new(64, 64));
    let attached = SwapChain::create_attached(&mut device, &context, provider()).unwrap();
    let detached_a =
        SwapChain::create_detached(&mut device, &context, provider(), Size::new(32, 32)).unwrap();
    let detached_b =
        SwapChain::create_detached(&mut device, &context, provider(), Size::new(32, 32)).unwrap();

    // Taking from a detached chain fails.
    assert_eq!(
        detached_a.take_attachment_from(&mut device, &mut context, &detached_b),
        Err(Error::Failed)
    );
    // An attached chain cannot take an attachment.
    assert_eq!(
        attached.take_attachment_from(&mut device, &mut context, &detached_b),
        Err(Error::Failed)
    );
    // Nothing moved.
    assert!(attached.is_attached());
    assert!(!detached_a.is_attached());
    assert!(!detached_b.is_attached());
    assert_eq!(device.surfaces_destroyed(), 0);
}

#[test]
fn take_attachment_with_wrong_context_is_rejected() {
    let mut device = MockDevice::new();
    let mut context = context_with_surface(&mut device, 1, Size::new(64, 64));
    let attached = SwapChain::create_attached(&mut device, &context, provider()).unwrap();
    let detached =
        SwapChain::create_detached(&mut device, &context, provider(), Size::new(32, 32)).unwrap();

    let mut wrong = Context::new(ContextId(2));
    assert_eq!(
        detached.take_attachment_from(&mut device, &mut wrong, &attached),
        Err(Error::IncompatibleContext)
    );
    assert!(attached.is_attached());
    assert!(!detached.is_attached());
    assert!(context.has_surface());
}

#[test]
fn bind_failure_rolls_back_one_buffer() {
    let mut device = MockDevice::new();
    let mut context = context_with_surface(&mut device, 1, Size::new(64, 64));
    let chain = SwapChain::create_attached(&mut device, &context, provider()).unwrap();

    device.fail_next_bind();
    assert_eq!(
        chain.swap_buffers(&mut device, &mut context),
        Err(Error::Backend(MOCK_BIND_FAILURE))
    );

    // The single rollback step: the fresh back buffer was destroyed. The
    // context is left without a surface, its old surface already unbound.
    assert_eq!(device.surfaces_destroyed(), 1);
    assert!(!context.has_surface());
    assert!(chain.is_attached());
}

#[test]
fn create_failure_is_passed_through() {
    let mut device = MockDevice::new();
    let context = Context::new(ContextId(1));
    device.fail_next_create();
    let r = SwapChain::create_detached(&mut device, &context, provider(), Size::new(8, 8));
    assert!(matches!(r, Err(Error::Backend(MOCK_CREATE_FAILURE))));
}

#[test]
fn take_surface_prefers_pending_then_pool() {
    let mut device = MockDevice::new();
    let mut context = Context::new(ContextId(1));
    let chain =
        SwapChain::create_detached(&mut device, &context, provider(), Size::new(16, 16)).unwrap();

    // No front buffer yet: absence is a normal state.
    assert!(chain.take_surface().is_none());

    // Produce a front buffer, and put one extra surface in the pool.
    assert_eq!(chain.swap_buffers(&mut device, &mut context), Ok(()));
    let extra = device
        .create_surface(&context, SurfaceAccess::GPUOnly, Size::new(16, 16))
        .unwrap();
    let extra_id = extra.id();
    chain.recycle_surface(extra);

    // The pending surface comes first, then the pooled one, then nothing.
    let first = chain.take_surface().unwrap();
    assert_eq!(first.id(), 1);
    let second = chain.take_surface().unwrap();
    assert_eq!(second.id(), extra_id);
    assert!(chain.take_surface().is_none());
}

#[test]
fn swap_evicts_stale_pooled_surfaces() {
    let mut device = MockDevice::new();
    let mut context = Context::new(ContextId(1));
    let chain =
        SwapChain::create_detached(&mut device, &context, provider(), Size::new(16, 16)).unwrap();

    // Pool a surface of another size: it can never be reused at (16, 16).
    let stale = device
        .create_surface(&context, SurfaceAccess::GPUOnly, Size::new(99, 99))
        .unwrap();
    chain.recycle_surface(stale);

    // After a successful swap the leftover pooled surface is destroyed.
    assert_eq!(chain.swap_buffers(&mut device, &mut context), Ok(()));
    assert_eq!(device.surfaces_destroyed(), 1);
    // Only the front buffer remains to take.
    assert!(chain.take_surface().is_some());
    assert!(chain.take_surface().is_none());
}

#[test]
fn destroy_reclaims_everything_and_is_idempotent() {
    let mut device = MockDevice::new();
    let mut context = Context::new(ContextId(1));
    let chain =
        SwapChain::create_detached(&mut device, &context, provider(), Size::new(16, 16)).unwrap();
    assert_eq!(chain.swap_buffers(&mut device, &mut context), Ok(()));
    // Live surfaces now: the back buffer and the pending front buffer.
    assert_eq!(device.surfaces_created(), 2);

    assert_eq!(chain.destroy(&mut device, &context), Ok(()));
    assert_eq!(device.surfaces_destroyed(), 2);

    // A second destroy observes empty state and succeeds as a no-op.
    assert_eq!(chain.destroy(&mut device, &context), Ok(()));
    assert_eq!(device.surfaces_destroyed(), 2);
}

#[test]
fn destroy_with_wrong_context_is_rejected() {
    let mut device = MockDevice::new();
    let context = Context::new(ContextId(1));
    let chain =
        SwapChain::create_detached(&mut device, &context, provider(), Size::new(16, 16)).unwrap();
    let wrong = Context::new(ContextId(2));
    assert_eq!(
        chain.destroy(&mut device, &wrong),
        Err(Error::IncompatibleContext)
    );
    assert_eq!(device.surfaces_destroyed(), 0);
}

#[test]
fn clear_discipline_binds_and_restores() {
    let mut device = MockDevice::new();
    let mut context = context_with_surface(&mut device, 1, Size::new(64, 64));
    let original_id = 1;
    let chain =
        SwapChain::create_detached(&mut device, &context, provider(), Size::new(32, 32)).unwrap();

    // begin_clear binds the chain's back buffer, displacing the context's
    // surface.
    let reattach = chain.begin_clear(&mut device, &mut context).unwrap();
    assert!(context.has_surface());
    assert!(chain.is_attached());
    assert!(reattach.is_some());

    // finish_clear restores the displaced surface and detaches the chain
    // again.
    assert_eq!(
        chain.finish_clear(&mut device, &mut context, reattach),
        Ok(())
    );
    assert!(!chain.is_attached());
    assert!(context.has_surface());
    // The restored surface is the one that was displaced.
    let restored = device.unbind_surface_from_context(&mut context).unwrap();
    assert_eq!(restored.unwrap().id(), original_id);
}

#[test]
fn clear_on_attached_chain_is_a_no_op() {
    let mut device = MockDevice::new();
    let mut context = context_with_surface(&mut device, 1, Size::new(64, 64));
    let chain = SwapChain::create_attached(&mut device, &context, provider()).unwrap();

    let reattach = chain.begin_clear(&mut device, &mut context).unwrap();
    assert!(reattach.is_none());
    assert_eq!(
        chain.finish_clear(&mut device, &mut context, reattach),
        Ok(())
    );
    assert!(chain.is_attached());
    assert!(context.has_surface());
}

#[test]
fn clear_with_wrong_context_is_rejected() {
    let mut device = MockDevice::new();
    let context = Context::new(ContextId(1));
    let chain =
        SwapChain::create_detached(&mut device, &context, provider(), Size::new(32, 32)).unwrap();
    let mut wrong = Context::new(ContextId(2));
    assert!(matches!(
        chain.begin_clear(&mut device, &mut wrong),
        Err(Error::IncompatibleContext)
    ));
    assert!(!chain.is_attached());
}

#[test]
fn attached_chain_with_empty_context_is_rejected() {
    // An attached chain whose producer context has lost its surface cannot
    // swap or resize: the precondition violation is reported as `Failed`
    // and nothing changes.
    let mut device = MockDevice::new();
    let mut context = context_with_surface(&mut device, 1, Size::new(64, 64));
    let chain = SwapChain::create_attached(&mut device, &context, provider()).unwrap();
    let taken = device.unbind_surface_from_context(&mut context).unwrap();
    assert!(taken.is_some());

    assert_eq!(
        chain.swap_buffers(&mut device, &mut context),
        Err(Error::Failed)
    );
    assert_eq!(
        chain.resize(&mut device, &mut context, Size::new(10, 10)),
        Err(Error::Failed)
    );
    assert!(chain.is_attached());
    assert_eq!(chain.size(), Size::new(64, 64));
}

#[test]
fn take_attachment_bind_failure_destroys_moving_surface() {
    let mut device = MockDevice::new();
    let mut context = context_with_surface(&mut device, 1, Size::new(64, 64));
    let attached = SwapChain::create_attached(&mut device, &context, provider()).unwrap();
    let detached =
        SwapChain::create_detached(&mut device, &context, provider(), Size::new(32, 32)).unwrap();

    device.fail_next_bind();
    assert_eq!(
        detached.take_attachment_from(&mut device, &mut context, &attached),
        Err(Error::Backend(MOCK_BIND_FAILURE))
    );

    // The surface being attached was destroyed; the other chain is left
    // attached and unchanged, and the context is left unbound.
    assert_eq!(device.surfaces_destroyed(), 1);
    assert!(attached.is_attached());
    assert!(!context.has_surface());
}

#[test]
fn cloned_handle_shares_state() {
    let mut device = MockDevice::new();
    let mut context = Context::new(ContextId(1));
    let chain =
        SwapChain::create_detached(&mut device, &context, provider(), Size::new(16, 16)).unwrap();
    let consumer = chain.clone();

    assert_eq!(chain.swap_buffers(&mut device, &mut context), Ok(()));
    // The clone observes the swap made through the original handle.
    let front = consumer.take_surface().unwrap();
    assert_eq!(front.size(), Size::new(16, 16));
    assert!(chain.take_surface().is_none());
}
