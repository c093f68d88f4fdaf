use binderbinder::binder_object::{
    BinderObjectId, BinderObjectOrRef, BinderRef, ContextManagerBinderRef, ToBinderObjectOrRef,
    TransactionTarget, TransactionTargetHandle, UntypedBinderObject, WeakBinderRef, BinderObject,
    WeakBinderObject,
};
use binderbinder::command::DriverCommand;
use binderbinder::device::BinderDevice;
use binderbinder::error::Error;
use binderbinder::looper::ReturnMessage;
use binderbinder::payload::PayloadBuilder;
use binderbinder::sys::{
    BinderHandleCookie, BinderPtrCookie, BinderTransactionData, BinderTransactionDataPtrs,
    BinderType, FlatBinderFlags, TransactionFlags,
};
use binderbinder::transact::{OneWayStep, Outgoing, Started};

fn strong_count(device: &BinderDevice, id: &BinderObjectId) -> u32 {
    device.refcounts(id).unwrap().subscribe()
}

fn acquire(device: &mut BinderDevice, id: &BinderObjectId) {
    let v = BinderPtrCookie { ptr: id.id, cookie: id.cookie };
    device.on_return(&ReturnMessage::Acquire(v));
}

fn release(device: &mut BinderDevice, id: &BinderObjectId) {
    let v = BinderPtrCookie { ptr: id.id, cookie: id.cookie };
    device.on_return(&ReturnMessage::Release(v));
}

fn payload_with(device: &mut BinderDevice, id: &BinderObjectId) -> PayloadBuilder<'static> {
    let mut payload = PayloadBuilder::new();
    payload.push_service(device, id);
    payload
}

fn send_one_way(device: &mut BinderDevice, id: &BinderObjectId) -> Outgoing {
    let payload = payload_with(device, id);
    let target = ContextManagerBinderRef(0);
    let started = device.transact_one_way(&target, 1, &payload, &[], 7, 8).unwrap();
    payload.release(device);
    match started {
        Started::Remote(out) => out,
        Started::Local(_, _) => panic!("a handle is not local"),
    }
}

#[test]
fn binder_object_drops_cleanly() {
    let mut dev = BinderDevice::new();
    let id = dev.register_object(5);
    assert_eq!(dev.get_handler(&id), Some(5));
    assert!(dev.refcounts(&id).is_some());
    dev.remove_binder_object(&id);
    assert!(dev.get_handler(&id).is_none(), "object still in objects after drop");
    assert!(dev.refcounts(&id).is_none(), "refcounts still present after drop");
}

#[test]
fn service_drops_when_last_ref_gone() {
    let mut dev = BinderDevice::new();
    let id = dev.register_object(5);
    dev.to_service(&id);
    assert!(dev.is_retained(&id), "service not retained after to_service");
    assert!(dev.get_handler(&id).is_some());
    assert!(!dev.collect_service(&id), "handler dropped too early");
    dev.drop_service_ref(&id);
    assert!(dev.collect_service(&id));
    assert!(
        !dev.is_retained(&id),
        "retained_services not cleaned up after last ref dropped"
    );
    assert!(dev.get_handler(&id).is_none(), "objects not cleaned up");
}

#[test]
fn strong_refs_hit_zero_fires_on_last_drop() {
    let mut dev = BinderDevice::new();
    let id = dev.register_object(5);
    dev.to_service(&id);
    assert_eq!(strong_count(&dev, &id), 1);
    dev.drop_service_ref(&id);
    assert_eq!(strong_count(&dev, &id), 0);
}

#[test]
fn service_survives_until_all_clones_dropped() {
    let mut dev = BinderDevice::new();
    let id = dev.register_object(5);
    dev.to_service(&id);
    dev.clone_service_ref(&id);
    dev.drop_service_ref(&id);
    assert!(!dev.collect_service(&id));
    assert!(dev.is_retained(&id), "service cleaned up while a clone still exists");
    assert!(dev.get_handler(&id).is_some(), "handler dropped while ref_b is alive");
    dev.drop_service_ref(&id);
    assert!(dev.collect_service(&id));
    assert!(
        !dev.is_retained(&id),
        "retained_services not cleaned up after all clones dropped"
    );
    assert!(dev.get_handler(&id).is_none(), "handler Arc not fully dropped");
}

/// The service puts a fresh object into its reply and keeps no reference of its own.
fn reply_with_fresh_object(dev: &mut BinderDevice) -> BinderObjectId {
    let id = dev.register_object(5);
    dev.to_service(&id);
    let payload = payload_with(dev, &id);
    dev.drop_service_ref(&id);
    assert!(!dev.collect_service(&id), "service seen unreferenced before the reply is sent");
    let t = BinderTransactionData {
        target: binderbinder::sys::TransactionTarget::from_binder(1),
        cookie: 0,
        code: 1,
        flags: TransactionFlags(0),
        sender_pid: 0,
        sender_euid: 0,
        data_size: 0,
        offsets_size: 0,
        data: BinderTransactionDataPtrs { buffer: 0, offsets: 0 },
    };
    let sent = dev.reply(&t, &payload, 7, 8);
    assert_eq!(sent.objects, vec![id]);
    acquire(dev, &id);
    assert!(dev.after_reply_exchange(&sent, None).is_none());
    assert_eq!(strong_count(dev, &id), 2);
    payload.release(dev);
    id
}

#[test]
fn dropped_ref_releases_promptly() {
    let mut dev = BinderDevice::new();
    let id = reply_with_fresh_object(&mut dev);
    release(&mut dev, &id);
    assert_eq!(strong_count(&dev, &id), 0);
    assert!(dev.collect_service(&id));
}

#[test]
fn held_ref_delays_release_until_dropped() {
    let mut dev = BinderDevice::new();
    let id = reply_with_fresh_object(&mut dev);
    for _ in 0..10 {
        assert_eq!(
            strong_count(&dev, &id),
            1,
            "service saw strong_refs_hit_zero while the client still held the ref"
        );
        assert!(!dev.collect_service(&id));
    }
    release(&mut dev, &id);
    assert_eq!(strong_count(&dev, &id), 0);
}

#[test]
fn concurrent_create_and_drop_cycles() {
    let mut dev = BinderDevice::new();
    let mut ids = Vec::new();
    for _ in 0..16 {
        ids.push(reply_with_fresh_object(&mut dev));
    }
    let mut hit_zero = 0;
    for id in &ids {
        release(&mut dev, id);
        if dev.collect_service(id) {
            hit_zero += 1;
        }
    }
    assert_eq!(hit_zero, 16);
    assert!(dev.object_keys().is_empty());
}

#[test]
fn oneway_dropped_ref_releases_promptly() {
    let mut dev = BinderDevice::new();
    let id = dev.register_object(5);
    dev.to_service(&id);
    let out = send_one_way(&mut dev, &id);
    acquire(&mut dev, &id);
    assert!(matches!(dev.after_one_way_exchange(&out, None), OneWayStep::Done(Ok(()), _)));
    dev.drop_service_ref(&id);
    assert_eq!(strong_count(&dev, &id), 1);
    release(&mut dev, &id);
    assert_eq!(strong_count(&dev, &id), 0);
}

#[test]
fn oneway_held_ref_delays_release_until_dropped() {
    let mut dev = BinderDevice::new();
    let id = dev.register_object(5);
    dev.to_service(&id);
    let out = send_one_way(&mut dev, &id);
    acquire(&mut dev, &id);
    dev.after_one_way_exchange(&out, None);
    for _ in 0..5 {
        assert!(
            strong_count(&dev, &id) > 0,
            "strong_refs_hit_zero fired while we still held our own ref"
        );
    }
    release(&mut dev, &id);
    assert_eq!(strong_count(&dev, &id), 1);
    dev.drop_service_ref(&id);
    assert_eq!(strong_count(&dev, &id), 0);
}

#[test]
fn oneway_concurrent_create_and_drop_cycles() {
    let mut dev = BinderDevice::new();
    let mut sent = Vec::new();
    for _ in 0..16 {
        let id = dev.register_object(5);
        dev.to_service(&id);
        let out = send_one_way(&mut dev, &id);
        sent.push((id, out));
    }
    for (id, out) in &sent {
        acquire(&mut dev, id);
        dev.after_one_way_exchange(out, None);
        dev.drop_service_ref(id);
    }
    for (id, _) in &sent {
        release(&mut dev, id);
        assert_eq!(strong_count(&dev, id), 0);
    }
}

#[test]
fn oneway_repeated_sends_of_same_object() {
    let mut dev = BinderDevice::new();
    let id = dev.register_object(5);
    dev.to_service(&id);
    let out = send_one_way(&mut dev, &id);
    acquire(&mut dev, &id);
    dev.after_one_way_exchange(&out, None);
    for _ in 0..16 {
        dev.clone_service_ref(&id);
        let out = send_one_way(&mut dev, &id);
        assert!(matches!(dev.after_one_way_exchange(&out, None), OneWayStep::Done(Ok(()), _)));
        dev.drop_service_ref(&id);
    }
    release(&mut dev, &id);
    assert_eq!(strong_count(&dev, &id), 1);
    dev.drop_service_ref(&id);
    assert_eq!(strong_count(&dev, &id), 0);
}

#[test]
fn payloads_hold_their_services() {
    let mut dev = BinderDevice::new();
    let plain = dev.register_object(4);
    let id = dev.register_object(5);
    dev.to_service(&id);
    let mut payload = PayloadBuilder::new();
    payload.push_service(&mut dev, &id);
    payload.push_service(&mut dev, &plain);
    payload.push_service(&mut dev, &id);
    assert_eq!(payload.offset_buffer_len(), 3);
    assert_eq!(strong_count(&dev, &id), 3);
    assert_eq!(strong_count(&dev, &plain), 0);
    dev.drop_service_ref(&id);
    assert_eq!(strong_count(&dev, &id), 2);
    assert!(!dev.collect_service(&id));
    let mut same = PayloadBuilder::new();
    same.push_port(&BinderObjectOrRef::Object(UntypedBinderObject(id)));
    let at = (payload.offsets()[0], same.offsets()[0]);
    assert_eq!(payload.data()[at.0..at.0 + 24], same.data()[at.1..at.1 + 24]);
    payload.release(&mut dev);
    assert_eq!(strong_count(&dev, &id), 0);
    assert!(dev.collect_service(&id));
    same.release(&mut dev);
}

#[test]
fn marked_services_outlive_their_payload() {
    let mut dev = BinderDevice::new();
    let id = dev.register_object(5);
    dev.to_service(&id);
    let payload = payload_with(&mut dev, &id);
    dev.drop_service_ref(&id);
    dev.mark_pending_remote(&id);
    payload.release(&mut dev);
    assert_eq!(strong_count(&dev, &id), 1);
    assert!(!dev.collect_service(&id));
    dev.clear_pending_remote(&id);
    assert!(dev.collect_service(&id));
}

#[test]
fn objects_are_numbered_from_one() {
    let mut dev = BinderDevice::new();
    assert_eq!(dev.register_object(3), BinderObjectId { id: 1, cookie: 0 });
    assert_eq!(dev.register_object(4), BinderObjectId { id: 2, cookie: 0 });
    let mut keys = dev.object_keys();
    keys.sort();
    assert_eq!(keys, vec![(1, 0), (2, 0)]);
    assert!(dev.service_keys().is_empty());
}

#[test]
fn numbers_are_not_used_again() {
    let mut dev = BinderDevice::new();
    for k in 1..=5 {
        let id = dev.register_object(3);
        assert_eq!(id, BinderObjectId { id: k, cookie: 0 });
        dev.remove_binder_object(&id);
        assert!(dev.get_handler(&id).is_none());
    }
    assert!(dev.object_keys().is_empty());
}

#[test]
fn cookies_are_not_used_again() {
    let mut dev = BinderDevice::new();
    for k in 1..=4 {
        let (weak, told) = WeakBinderRef::get_and_dedup_from_raw(&mut dev, 9);
        assert_eq!(weak.cookie, k);
        assert_eq!(told.len(), 2);
        let (shared, told) = WeakBinderRef::get_and_dedup_from_raw(&mut dev, 9);
        assert_eq!(shared.cookie, k);
        assert!(told.is_empty());
        assert!(weak.release(&mut dev).is_empty());
        assert_eq!(shared.release(&mut dev), vec![DriverCommand::DecRefs(9)]);
    }
    let (other, _) = WeakBinderRef::get_and_dedup_from_raw(&mut dev, 10);
    assert_eq!(other.cookie, 5);
    assert!(dev.can_share_weak(10));
    assert!(dev.can_share_strong(10));
}

#[test]
fn pending_sends_are_rolled_back() {
    let mut dev = BinderDevice::new();
    let id = dev.register_object(5);
    dev.to_service(&id);
    let before = dev.refcounts(&id).unwrap();
    assert!(dev.objects_can_be_marked(&[id]));
    dev.mark_objects_as_pending_remote(&[id, id]);
    let marked = dev.refcounts(&id).unwrap();
    assert!(marked.new_in_remote);
    assert_eq!(marked.subscribe(), 2);
    dev.unmark_objects_as_pending_remote(&[id, id]);
    assert_eq!(dev.refcounts(&id).unwrap(), before);
}

#[test]
fn arrival_takes_the_place_of_the_mark() {
    let mut dev = BinderDevice::new();
    let id = dev.register_object(5);
    dev.mark_pending_remote(&id);
    assert_eq!(strong_count(&dev, &id), 1);
    acquire(&mut dev, &id);
    assert_eq!(strong_count(&dev, &id), 1);
    assert!(!dev.refcounts(&id).unwrap().new_in_remote);
    dev.clear_pending_remote(&id);
    assert_eq!(strong_count(&dev, &id), 1);
    release(&mut dev, &id);
    assert_eq!(strong_count(&dev, &id), 0);
}

#[test]
fn handles_are_deduplicated() {
    let mut dev = BinderDevice::new();
    let (first, told) = BinderRef::get_and_dedup_from_raw(&mut dev, 9);
    let death = BinderHandleCookie { handle: 9, cookie: 1 };
    assert_eq!(
        told,
        vec![
            DriverCommand::IncRefs(9),
            DriverCommand::RequestDeathNotification(death),
            DriverCommand::Acquire(9),
        ]
    );
    let (second, told) = BinderRef::get_and_dedup_from_raw(&mut dev, 9);
    assert!(told.is_empty());
    assert_eq!(first, second);
    assert_eq!(dev.ref_keys(), vec![9]);
    assert_eq!(dev.weak_ref_keys(), vec![9]);
    let third = first.share(&mut dev);
    assert!(first.release(&mut dev).is_empty());
    assert!(second.release(&mut dev).is_empty());
    let weak = third.downgrade(&mut dev);
    assert!(weak.upgrade(&mut dev).unwrap().release(&mut dev).is_empty());
    assert_eq!(third.release(&mut dev), vec![DriverCommand::Release(9)]);
    assert!(weak.upgrade(&mut dev).is_none());
    assert_eq!(weak.release(&mut dev), vec![DriverCommand::DecRefs(9)]);
    let (again, told) = BinderRef::get_and_dedup_from_raw(&mut dev, 9);
    assert_eq!(again.weak.cookie, 2);
    assert_eq!(told.len(), 3);
    assert_eq!(
        again.release(&mut dev),
        vec![DriverCommand::Release(9), DriverCommand::DecRefs(9)]
    );
}

#[test]
fn death_is_noticed() {
    let mut dev = BinderDevice::new();
    let (weak, _) = WeakBinderRef::get_and_dedup_from_raw(&mut dev, 3);
    assert!(weak.alive(&dev));
    dev.on_return(&ReturnMessage::DeadBinder(weak.cookie));
    assert!(!weak.alive(&dev));
    assert!(!BinderObjectOrRef::WeakRef(weak).alive(&dev));
}

#[test]
fn targets() {
    let id = BinderObjectId::from_raw(4, 0);
    let local = TransactionTargetHandle::Local(id);
    assert_eq!(ContextManagerBinderRef(0).get_transaction_target_handle(),
        TransactionTargetHandle::Remote(0));
    assert_eq!(ContextManagerBinderRef(4).get_transaction_target_handle(), local);
    assert_eq!(UntypedBinderObject(id).get_transaction_target_handle(), local);
    assert_eq!(WeakBinderObject::from_id(id).get_transaction_target_handle(), local);
    let weak = WeakBinderRef { id: 8, cookie: 1 };
    assert_eq!(weak.get_transaction_target_handle(), TransactionTargetHandle::Remote(8));
    assert_eq!(BinderRef { weak }.get_transaction_target_handle(),
        TransactionTargetHandle::Remote(8));
}

#[test]
fn context_manager_is_remembered() {
    let mut dev = BinderDevice::new();
    assert_eq!(dev.context_manager(), ContextManagerBinderRef(0));
    let id = dev.register_object(5);
    let request = dev.set_context_manager(&id);
    assert_eq!(request.0.hdr.type_, BinderType(BinderType::BINDER));
    assert_eq!(request.0.flags, FlatBinderFlags(FlatBinderFlags::ACCEPTS_FDS));
    assert_eq!((request.0.data.word, request.0.cookie), (1, 0));
    assert_eq!(dev.context_manager(), ContextManagerBinderRef(1));
    assert!(BinderDevice::context_manager_result(true).is_ok());
    assert!(matches!(
        BinderDevice::context_manager_result(false),
        Err(Error::PermissionDenied)
    ));
}

#[test]
fn typed_objects_count_their_references() {
    let mut object = BinderObject::new(6, "handler");
    assert_eq!(*object.id(), BinderObjectId { id: 6, cookie: 0 });
    assert_eq!(*object.handler(), "handler");
    object.strong_increase();
    object.strong_increase();
    assert!(!object.strong_decrease());
    assert!(object.strong_decrease());
    assert_eq!(object.get_flat_binder_object().data.word, 6);
    let mut dev = BinderDevice::new();
    assert_eq!(
        object.to_binder_object_or_ref(&mut dev),
        BinderObjectOrRef::Object(UntypedBinderObject(BinderObjectId { id: 6, cookie: 0 }))
    );
}
