use nobro_kernel::{
    IpcPriority, IpcPushError, IpcReceiveError, IpcRouter, ModuleId, PayloadPool, PayloadPoolError,
};
use std::sync::atomic::{AtomicUsize, Ordering};

#[test]
fn exclusive_payload_transfer_rejects_stale_and_wrong_owner_handles() {
    let mut pool = PayloadPool::<u32, 1>::new();
    let first = pool.allocate(ModuleId::Sensor, 7, 100, 0).unwrap();
    assert_eq!(*pool.borrow(first, ModuleId::Sensor, 0).unwrap(), 7);
    pool.transfer(first, ModuleId::Sensor, ModuleId::Radio, 0).unwrap();
    assert_eq!(pool.borrow(first, ModuleId::Sensor, 0), Err(PayloadPoolError::WrongOwner));
    pool.release(first, ModuleId::Radio).unwrap();
    let second = pool.allocate(ModuleId::Sensor, 9, 100, 0).unwrap();
    assert_eq!(first.slot(), second.slot());
    assert_ne!(first.generation(), second.generation());
    assert_eq!(pool.borrow(first, ModuleId::Sensor, 0), Err(PayloadPoolError::InvalidHandle));
}

#[test]
fn destination_queues_preserve_fair_capacity_priority_and_control_reserve() {
    let mut router = IpcRouter::<u32, 4, 2, 3, 4>::new(1);
    router.register_destination(ModuleId::Sensor, 2).unwrap();
    router.register_destination(ModuleId::Radio, 2).unwrap();
    router
        .publish(ModuleId::Kernel, &[ModuleId::Sensor], IpcPriority::Normal, 100, 0, 1)
        .unwrap();
    router
        .publish(ModuleId::Kernel, &[ModuleId::Sensor], IpcPriority::Urgent, 100, 0, 2)
        .unwrap();
    assert_eq!(
        router.publish(ModuleId::Kernel, &[ModuleId::Sensor], IpcPriority::Normal, 100, 0, 3),
        Err(IpcPushError::DestinationQuota(ModuleId::Sensor))
    );
    router
        .publish(ModuleId::Kernel, &[ModuleId::Radio], IpcPriority::Normal, 100, 0, 4)
        .unwrap();
    assert_eq!(
        router.publish(ModuleId::Kernel, &[ModuleId::Radio], IpcPriority::Normal, 100, 0, 5),
        Err(IpcPushError::ControlReserve)
    );
    router
        .publish(ModuleId::Kernel, &[ModuleId::Radio], IpcPriority::Control, 100, 0, 6)
        .unwrap();
    let first = router.receive_with(ModuleId::Sensor, 0, |_, _, value| *value).unwrap();
    assert_eq!(first, Some(2));
    let second = router.receive_with(ModuleId::Sensor, 0, |_, _, value| *value).unwrap();
    assert_eq!(second, Some(1));
    let radio = router
        .receive_with(ModuleId::Radio, 0, |_, priority, value| (priority, *value))
        .unwrap();
    assert_eq!(radio, Some((IpcPriority::Control, 6)));
}

static DROPS: AtomicUsize = AtomicUsize::new(0);

struct CountDrop;

impl Drop for CountDrop {
    fn drop(&mut self) {
        DROPS.fetch_add(1, Ordering::AcqRel);
    }
}

#[test]
fn multicast_uses_one_payload_and_expiry_or_cancellation_releases_every_ref() {
    DROPS.store(0, Ordering::Release);
    let mut router = IpcRouter::<CountDrop, 1, 2, 2, 4>::new(0);
    router.register_destination(ModuleId::Sensor, 2).unwrap();
    router.register_destination(ModuleId::Radio, 2).unwrap();
    router
        .publish(
            ModuleId::Kernel,
            &[ModuleId::Sensor, ModuleId::Radio],
            IpcPriority::Normal,
            10,
            0,
            CountDrop,
        )
        .unwrap();
    assert_eq!(router.snapshot().payloads, 1);
    assert_eq!(router.snapshot().queued, 2);
    assert_eq!(router.expire(10), 2);
    assert_eq!(router.snapshot().payloads, 0);
    assert_eq!(DROPS.load(Ordering::Acquire), 1);

    router
        .publish(
            ModuleId::Sensor,
            &[ModuleId::Sensor, ModuleId::Radio],
            IpcPriority::Normal,
            20,
            10,
            CountDrop,
        )
        .unwrap();
    assert_eq!(router.cancel_for(ModuleId::Sensor), 2);
    assert_eq!(router.snapshot().payloads, 0);
    assert_eq!(DROPS.load(Ordering::Acquire), 2);
}

#[test]
fn typed_admission_errors_leave_router_state_unchanged() {
    let mut router = IpcRouter::<u32, 4, 1, 4, 1>::new(0);
    router.register_destination(ModuleId::Sensor, 4).unwrap();
    assert_eq!(
        router.register_destination(ModuleId::Radio, 1),
        Err(IpcPushError::DestinationRegistryFull)
    );
    assert_eq!(
        router.publish(ModuleId::Kernel, &[ModuleId::Sensor], IpcPriority::Normal, 0, 0, 1),
        Err(IpcPushError::InvalidExpiry)
    );
    router
        .publish(ModuleId::Kernel, &[ModuleId::Sensor], IpcPriority::Normal, 10, 0, 2)
        .unwrap();
    assert_eq!(
        router.publish(ModuleId::Kernel, &[ModuleId::Sensor], IpcPriority::Control, 10, 0, 3),
        Err(IpcPushError::GlobalCapacity)
    );
    assert_eq!(router.snapshot().queued, 1);
    assert_eq!(router.snapshot().payloads, 1);
    assert_eq!(router.snapshot().rejected_global, 1);
}

#[test]
fn cancelling_one_multicast_destination_retains_the_other_reference() {
    let mut router = IpcRouter::<u32, 1, 2, 2, 2>::new(0);
    router.register_destination(ModuleId::Sensor, 2).unwrap();
    router.register_destination(ModuleId::Radio, 2).unwrap();
    router
        .publish(
            ModuleId::Kernel,
            &[ModuleId::Sensor, ModuleId::Radio],
            IpcPriority::Normal,
            10,
            0,
            77,
        )
        .unwrap();
    assert_eq!(router.cancel_for(ModuleId::Sensor), 1);
    assert_eq!(router.snapshot().payloads, 1);
    assert_eq!(router.snapshot().queued, 1);
    assert_eq!(router.receive_with(ModuleId::Radio, 0, |_, _, value| *value).unwrap(), Some(77));
    assert_eq!(router.snapshot().payloads, 0);
    assert_eq!(router.snapshot().queued, 0);
}

// ---------------------------------------------------------------- own tests

#[test]
fn publication_refusals_are_typed_and_counted() {
    let mut router = IpcRouter::<u32, 2, 2, 2, 8>::new(100);
    assert_eq!(router.snapshot().control_reserve, 8);
    assert_eq!(router.register_destination(ModuleId::Sensor, 0), Err(IpcPushError::DestinationQuota(ModuleId::Sensor)));
    assert_eq!(router.register_destination(ModuleId::Sensor, 3), Err(IpcPushError::DestinationQuota(ModuleId::Sensor)));
    router.register_destination(ModuleId::Sensor, 1).unwrap();
    assert_eq!(
        router.register_destination(ModuleId::Sensor, 1),
        Err(IpcPushError::DuplicateDestination(ModuleId::Sensor))
    );
    assert_eq!(
        router.publish(ModuleId::Kernel, &[], IpcPriority::Control, 10, 0, 1),
        Err(IpcPushError::NoDestination)
    );
    assert_eq!(
        router.publish(ModuleId::Kernel, &[ModuleId::Sensor, ModuleId::Sensor], IpcPriority::Control, 10, 0, 1),
        Err(IpcPushError::DuplicateDestination(ModuleId::Sensor))
    );
    assert_eq!(
        router.publish(ModuleId::Kernel, &[ModuleId::Radio], IpcPriority::Control, 10, 0, 1),
        Err(IpcPushError::DestinationUnknown(ModuleId::Radio))
    );
    assert_eq!(
        router.publish(ModuleId::Kernel, &[ModuleId::Sensor], IpcPriority::Normal, 10, 0, 1),
        Err(IpcPushError::ControlReserve)
    );
    assert_eq!(router.snapshot().rejected_reserve, 1);
    let receipt = router
        .publish(ModuleId::Kernel, &[ModuleId::Sensor], IpcPriority::Control, 10, 0, 1)
        .unwrap();
    assert_eq!(receipt.destinations, 1);
    assert_eq!(
        router.publish(ModuleId::Kernel, &[ModuleId::Sensor], IpcPriority::Control, 10, 0, 2),
        Err(IpcPushError::DestinationQuota(ModuleId::Sensor))
    );
    assert_eq!(router.snapshot().rejected_destination, 1);
    assert_eq!(
        router.receive_with(ModuleId::Radio, 0, |_, _, value| *value),
        Err(IpcReceiveError::DestinationUnknown(ModuleId::Radio))
    );
    assert_eq!(router.receive_with(ModuleId::Sensor, 10, |_, _, value| *value), Ok(None));
    assert_eq!(router.snapshot().expired, 1);
    assert_eq!(router.snapshot().payloads, 0);
}

#[test]
fn pool_exhaustion_and_shared_payload_errors() {
    let mut pool = PayloadPool::<u8, 1>::new();
    assert_eq!(pool.capacity(), 1);
    assert!(pool.is_empty());
    assert_eq!(pool.allocate(ModuleId::Sensor, 1, 5, 5), Err(PayloadPoolError::InvalidExpiry));
    let handle = pool.allocate(ModuleId::Sensor, 1, 5, 0).unwrap();
    assert_eq!(handle.epoch(), 0);
    assert_eq!(handle.generation(), 1);
    assert_eq!(pool.len(), 1);
    assert_eq!(pool.allocate(ModuleId::Sensor, 2, 5, 0), Err(PayloadPoolError::Full));
    assert_eq!(pool.borrow(handle, ModuleId::Sensor, 5), Err(PayloadPoolError::Expired));
    assert_eq!(pool.release(handle, ModuleId::Radio), Err(PayloadPoolError::WrongOwner));
    pool.release(handle, ModuleId::Sensor).unwrap();
    assert_eq!(pool.release(handle, ModuleId::Sensor), Err(PayloadPoolError::InvalidHandle));
}
