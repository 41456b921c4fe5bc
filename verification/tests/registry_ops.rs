use swap_chains::context::Context;
use swap_chains::context::ContextId;
use swap_chains::device::Device;
use swap_chains::error::Error;
use swap_chains::mock::MockDevice;
use swap_chains::provider::SurfmanProvider;
use swap_chains::registry::SwapChainId;
use swap_chains::registry::SwapChains;
use swap_chains::surface::Size;
use swap_chains::surface::SurfaceAccess;

fn provider() -> SurfmanProvider {
    SurfmanProvider::new(SurfaceAccess::GPUOnly)
}

fn context_with_surface(device: &mut MockDevice, id: u64, size: Size) -> Context {
    let mut context = Context::new(ContextId(id));
    let surface = device
        .create_surface(&context, SurfaceAccess::GPUOnly, size)
        .unwrap();
    device
        .bind_surface_to_context(&mut context, surface)
        .unwrap();
    context
}

#[test]
fn get_returns_registered_chains_only() {
    let mut device = MockDevice::new();
    let context = Context::new(ContextId(1));
    let chains: SwapChains<SurfmanProvider> = SwapChains::new();

    assert!(chains.get(SwapChainId(7)).is_none());
    assert_eq!(
        chains.create_detached_swap_chain(
            SwapChainId(7),
            Size::new(100, 100),
            &mut device,
            &context,
            provider(),
        ),
        Ok(())
    );
    let chain = chains.get(SwapChainId(7)).unwrap();
    assert_eq!(chain.size(), Size::new(100, 100));
    assert!(chains.get(SwapChainId(8)).is_none());
}

#[test]
fn duplicate_id_fails_and_keeps_existing_entry() {
    let mut device = MockDevice::new();
    let context = Context::new(ContextId(1));
    let chains: SwapChains<SurfmanProvider> = SwapChains::new();

    assert_eq!(
        chains.create_detached_swap_chain(
            SwapChainId(1),
            Size::new(100, 100),
            &mut device,
            &context,
            provider(),
        ),
        Ok(())
    );
    let created_before = device.surfaces_created();

    // A second creation under the same identity always fails with `Failed`,
    // never overwrites, and allocates nothing.
    assert_eq!(
        chains.create_detached_swap_chain(
            SwapChainId(1),
            Size::new(50, 50),
            &mut device,
            &context,
            provider(),
        ),
        Err(Error::Failed)
    );
    assert_eq!(device.surfaces_created(), created_before);

    // The existing entry is untouched: it still has its original size.
    let chain = chains.get(SwapChainId(1)).unwrap();
    assert_eq!(chain.size(), Size::new(100, 100));

    // The same holds for attached creation over an existing id.
    let context2 = context_with_surface(&mut device, 1, Size::new(64, 64));
    assert_eq!(
        chains.create_attached_swap_chain(SwapChainId(1), &mut device, &context2, provider()),
        Err(Error::Failed)
    );
    assert_eq!(chains.get(SwapChainId(1)).unwrap().size(), Size::new(100, 100));
}

#[test]
fn create_attached_requires_a_bound_surface() {
    let mut device = MockDevice::new();
    let bare = Context::new(ContextId(1));
    let chains: SwapChains<SurfmanProvider> = SwapChains::new();
    assert_eq!(
        chains.create_attached_swap_chain(SwapChainId(1), &mut device, &bare, provider()),
        Err(Error::Failed)
    );
    assert!(chains.get(SwapChainId(1)).is_none());
}

#[test]
fn create_attached_inherits_context_size() {
    let mut device = MockDevice::new();
    let context = context_with_surface(&mut device, 1, Size::new(640, 480));
    let chains: SwapChains<SurfmanProvider> = SwapChains::new();
    assert_eq!(
        chains.create_attached_swap_chain(SwapChainId(1), &mut device, &context, provider()),
        Ok(())
    );
    let chain = chains.get(SwapChainId(1)).unwrap();
    assert!(chain.is_attached());
    assert_eq!(chain.size(), Size::new(640, 480));
}

#[test]
fn destroy_removes_one_chain() {
    let mut device = MockDevice::new();
    let context = Context::new(ContextId(1));
    let chains: SwapChains<SurfmanProvider> = SwapChains::new();
    for id in 1..=2u64 {
        assert_eq!(
            chains.create_detached_swap_chain(
                SwapChainId(id),
                Size::new(10, 10),
                &mut device,
                &context,
                provider(),
            ),
            Ok(())
        );
    }

    assert_eq!(chains.destroy(SwapChainId(1), &mut device, &context), Ok(()));
    assert!(chains.get(SwapChainId(1)).is_none());
    assert!(chains.get(SwapChainId(2)).is_some());
    // The removed chain's back buffer was destroyed.
    assert_eq!(device.surfaces_destroyed(), 1);

    // A missing identity is a silent no-op, not an error.
    assert_eq!(chains.destroy(SwapChainId(42), &mut device, &context), Ok(()));
    assert_eq!(device.surfaces_destroyed(), 1);
}

#[test]
fn destroy_with_wrong_context_changes_nothing() {
    let mut device = MockDevice::new();
    let context = Context::new(ContextId(1));
    let chains: SwapChains<SurfmanProvider> = SwapChains::new();
    assert_eq!(
        chains.create_detached_swap_chain(
            SwapChainId(1),
            Size::new(100, 100),
            &mut device,
            &context,
            provider(),
        ),
        Ok(())
    );

    // A context mismatch fails fast with zero mutation: the registration
    // stays, and no surface is destroyed.
    let wrong = Context::new(ContextId(2));
    assert_eq!(
        chains.destroy(SwapChainId(1), &mut device, &wrong),
        Err(Error::IncompatibleContext)
    );
    let chain = chains.get(SwapChainId(1)).unwrap();
    assert_eq!(chain.size(), Size::new(100, 100));
    assert_eq!(device.surfaces_destroyed(), 0);

    // The producer context can still destroy it afterwards.
    assert_eq!(chains.destroy(SwapChainId(1), &mut device, &context), Ok(()));
    assert!(chains.get(SwapChainId(1)).is_none());
    assert_eq!(device.surfaces_destroyed(), 1);
}

#[test]
fn destroy_all_clears_table_and_index_for_one_context() {
    let mut device = MockDevice::new();
    let mut context_a = Context::new(ContextId(1));
    let context_b = Context::new(ContextId(2));
    let chains: SwapChains<SurfmanProvider> = SwapChains::new();

    for id in 1..=2u64 {
        assert_eq!(
            chains.create_detached_swap_chain(
                SwapChainId(id),
                Size::new(10, 10),
                &mut device,
                &context_a,
                provider(),
            ),
            Ok(())
        );
    }
    assert_eq!(
        chains.create_detached_swap_chain(
            SwapChainId(3),
            Size::new(10, 10),
            &mut device,
            &context_b,
            provider(),
        ),
        Ok(())
    );

    assert_eq!(chains.destroy_all(&mut device, &context_a), Ok(()));

    // Every id created under context 1 is gone from the table...
    assert!(chains.get(SwapChainId(1)).is_none());
    assert!(chains.get(SwapChainId(2)).is_none());
    // ...and from the index: a snapshot of that context is empty.
    assert!(chains.iter(&mut device, &mut context_a).is_empty());
    // Chains of other contexts are untouched.
    assert!(chains.get(SwapChainId(3)).is_some());
    // The destroyed chains' surfaces were reclaimed.
    assert_eq!(device.surfaces_destroyed(), 2);

    // Destroying again for the same context is a no-op.
    assert_eq!(chains.destroy_all(&mut device, &context_a), Ok(()));
    assert_eq!(device.surfaces_destroyed(), 2);
}

#[test]
fn iter_snapshots_one_context() {
    let mut device = MockDevice::new();
    let mut context_a = Context::new(ContextId(1));
    let mut context_b = Context::new(ContextId(2));
    let chains: SwapChains<SurfmanProvider> = SwapChains::new();

    for id in 1..=3u64 {
        let owner = if id == 3 { &context_b } else { &context_a };
        assert_eq!(
            chains.create_detached_swap_chain(
                SwapChainId(id),
                Size::new(10, 10),
                &mut device,
                owner,
                provider(),
            ),
            Ok(())
        );
    }

    let snapshot_a = chains.iter(&mut device, &mut context_a);
    let ids_a: Vec<u64> = snapshot_a.iter().map(|(id, _)| id.0).collect();
    assert_eq!(ids_a, vec![1, 2]);

    let snapshot_b = chains.iter(&mut device, &mut context_b);
    let ids_b: Vec<u64> = snapshot_b.iter().map(|(id, _)| id.0).collect();
    assert_eq!(ids_b, vec![3]);

    // A snapshot is not a live cursor: it still holds usable handles.
    let (_, chain) = &snapshot_a[0];
    assert_eq!(chain.size(), Size::new(10, 10));

    // Re-calling produces a fresh snapshot reflecting later changes.
    assert_eq!(chains.destroy(SwapChainId(1), &mut device, &context_a), Ok(()));
    let snapshot_a2 = chains.iter(&mut device, &mut context_a);
    let ids_a2: Vec<u64> = snapshot_a2.iter().map(|(id, _)| id.0).collect();
    assert_eq!(ids_a2, vec![2]);
}

#[test]
fn cloned_collection_shares_state() {
    let mut device = MockDevice::new();
    let context = Context::new(ContextId(1));
    let chains: SwapChains<SurfmanProvider> = SwapChains::new();
    let view = chains.clone();

    assert_eq!(
        chains.create_detached_swap_chain(
            SwapChainId(5),
            Size::new(10, 10),
            &mut device,
            &context,
            provider(),
        ),
        Ok(())
    );
    assert!(view.get(SwapChainId(5)).is_some());
}
