//! What the operations on references, objects, ports and threads do, said of what they are given
//! and of what they give.
use crate::binder_object::{
    BinderObject, BinderObjectId, BinderObjectOrRef, BinderRef, ContextManagerBinderRef,
    ToBinderObjectOrRef, UntypedBinderObject, WeakBinderObject, WeakBinderRef,
};
use crate::binder_ports::{
    BinderPort, BinderPortHandle, OwnedBinderPort, OwnedBinderPortId, PortTable,
    WeakBinderPortHandle, WeakOwnedBinderPort,
};
use crate::binder_thread::{
    command_request, handle_command, parse_br_transaction, read_words, transaction_write,
    worker_count, DeviceKey, Ensured, ThreadBinderState, TransactionInfo, WorkerAction,
};
use crate::command::DriverCommand;
use crate::device::BinderDevice;
use crate::error::Error;
use crate::object::ServiceHandlers;
use crate::refcount::ObjectRefState;
use crate::sys::{BinderHandleCookie, BinderWriteRead, FlatBinderObject, RawFd, SetContextMGR};
use vstd::prelude::*;

verus! {

use crate::binder_object::{
    driver_is_told_of_both_references, dropping_counts_one_share, flat_object, ports_in_memory,
    taking_counts_one_share,
};
use crate::binder_ports::shares;
use crate::device::service_lives_while_referenced;
use crate::sys::BinderType;
use crate::wire::{le32, le32_facts, le_u32_at, le_u64_at, u32_at, u64_at, widened};

/// A strong reference to a handle that is received is one to that handle, and counted once. The
/// driver is told only when it is the first: that there is a strong reference, and before that,
/// if there was no weak one, of the weak one and of the cookie by which its death is reported.
pub proof fn received_references_are_counted(
    device: &mut BinderDevice,
    handle: u32,
    other: u32,
    r: (BinderRef, Vec<DriverCommand>),
)
    requires
        old(device)@.wf(),
        old(device)@.strong(handle) < u64::MAX,
        old(device)@.weak(handle) < u64::MAX,
        call_ensures(BinderRef::get_and_dedup_from_raw, (device, handle), r),
    ensures
        ({
            let (d, e) = (old(device)@, final(device)@);
            let cookie = r.0.weak.cookie;
            &&& r.0.weak.id == handle
            &&& e.strong(handle) == d.strong(handle) + 1
            &&& e.weak(handle) == d.weak(handle) + (if d.strong(handle) == 0 {
                1int
            } else {
                0
            })
            &&& other != handle ==> e.strong(other) == d.strong(other) && e.weak(other) == d.weak(
                other,
            )
            &&& e.same_objects(d)
            &&& d.strong(handle) > 0 ==> r.1@.len() == 0 && cookie == d.refs[handle as u64].1
            &&& d.strong(handle) == 0 && d.weak(handle) > 0 ==> r.1@ == seq![
                DriverCommand::Acquire(handle),
            ] && cookie == d.weak_refs[handle as u64].1
            &&& d.strong(handle) == 0 && d.weak(handle) == 0 ==> r.1@ == seq![
                DriverCommand::IncRefs(handle),
                DriverCommand::RequestDeathNotification(BinderHandleCookie { handle, cookie }),
                DriverCommand::Acquire(handle),
            ] && e.alive(cookie)
        }),
{
    taking_counts_one_share(old(device)@, handle, handle);
    taking_counts_one_share(old(device)@, handle, other);
    driver_is_told_of_both_references(old(device)@, handle);
}

/// A weak reference to a handle that is received is one to that handle, and counted once. The
/// driver is told only when it is the first, of the reference and of its cookie.
pub proof fn received_weak_references_are_counted(
    device: &mut BinderDevice,
    handle: u32,
    other: u32,
    r: (WeakBinderRef, Vec<DriverCommand>),
)
    requires
        old(device)@.wf(),
        old(device)@.strong(handle) < u64::MAX,
        old(device)@.weak(handle) < u64::MAX,
        call_ensures(WeakBinderRef::get_and_dedup_from_raw, (device, handle), r),
    ensures
        ({
            let (d, e) = (old(device)@, final(device)@);
            let cookie = r.0.cookie;
            &&& r.0.id == handle
            &&& e.weak(handle) == d.weak(handle) + 1
            &&& e.strong(handle) == d.strong(handle)
            &&& other != handle ==> e.strong(other) == d.strong(other) && e.weak(other) == d.weak(
                other,
            )
            &&& e.same_objects(d)
            &&& d.weak(handle) > 0 ==> r.1@.len() == 0 && cookie == d.weak_refs[handle as u64].1
            &&& d.weak(handle) == 0 ==> r.1@ == seq![
                DriverCommand::IncRefs(handle),
                DriverCommand::RequestDeathNotification(BinderHandleCookie { handle, cookie }),
            ] && e.alive(cookie)
        }),
{
    taking_counts_one_share(old(device)@, handle, handle);
    taking_counts_one_share(old(device)@, handle, other);
}

/// A reference that is released is counted once less. The driver is told when it was the last
/// one, of the strong one first, and with it goes the weak one that it held.
pub proof fn released_references_are_counted(
    device: &mut BinderDevice,
    reference: BinderRef,
    other: u32,
    r: Vec<DriverCommand>,
)
    requires
        old(device)@.wf(),
        old(device)@.strong(reference.weak.id) > 0,
        call_ensures(BinderRef::release, (reference, device), r),
    ensures
        ({
            let (d, e) = (old(device)@, final(device)@);
            let handle = reference.weak.id;
            &&& e.strong(handle) == d.strong(handle) - 1
            &&& e.weak(handle) == d.weak(handle) - (if d.strong(handle) == 1 {
                1int
            } else {
                0
            })
            &&& other != handle ==> e.strong(other) == d.strong(other) && e.weak(other) == d.weak(
                other,
            )
            &&& e.same_objects(d)
            &&& d.strong(handle) > 1 ==> r@.len() == 0
            &&& d.strong(handle) == 1 ==> r@.len() > 0 && r@[0] == DriverCommand::Release(handle)
            &&& d.strong(handle) == 1 && d.weak(handle) == 1 ==> r@.len() == 2 && r@[1]
                == DriverCommand::DecRefs(handle)
            &&& d.strong(handle) == 1 && d.weak(handle) > 1 ==> r@.len() == 1
        }),
{
    let handle = reference.weak.id;
    assert(old(device)@.weak(handle) > 0);
    dropping_counts_one_share(old(device)@, handle, handle);
    dropping_counts_one_share(old(device)@, handle, other);
    driver_is_told_of_both_references(old(device)@, handle);
}

/// A weak reference that is released is counted once less, and the driver is told when it was
/// the last one.
pub proof fn released_weak_references_are_counted(
    device: &mut BinderDevice,
    reference: WeakBinderRef,
    other: u32,
    r: Vec<DriverCommand>,
)
    requires
        old(device)@.wf(),
        old(device)@.weak(reference.id) > 0,
        call_ensures(WeakBinderRef::release, (reference, device), r),
    ensures
        ({
            let (d, e) = (old(device)@, final(device)@);
            let handle = reference.id;
            &&& e.weak(handle) == d.weak(handle) - 1
            &&& e.strong(handle) == d.strong(handle)
            &&& other != handle ==> e.strong(other) == d.strong(other) && e.weak(other) == d.weak(
                other,
            )
            &&& e.same_objects(d)
            &&& d.weak(handle) > 1 ==> r@.len() == 0
            &&& d.weak(handle) == 1 ==> r@ == seq![DriverCommand::DecRefs(handle)]
        }),
{
    dropping_counts_one_share(old(device)@, reference.id, reference.id);
    dropping_counts_one_share(old(device)@, reference.id, other);
}

/// A share of a reference is a reference to the same handle with the same cookie, and is counted
/// once: a shared weak reference as a weak one, a shared strong one as a strong one, and a
/// downgraded strong one as a weak one.
pub proof fn shares_are_of_the_same_reference(
    device: &mut BinderDevice,
    strong: &BinderRef,
    weak: &WeakBinderRef,
    s: BinderRef,
    w: WeakBinderRef,
)
    requires
        old(device)@.wf(),
        0 < old(device)@.strong(strong.weak.id) < u64::MAX,
        0 < old(device)@.weak(strong.weak.id) < u64::MAX,
        0 < old(device)@.weak(weak.id) < u64::MAX,
        old(device)@.strong(weak.id) < u64::MAX,
    ensures
        call_ensures(BinderRef::share, (strong, device), s) ==> s == *strong && final(
            device
        )@.strong(s.weak.id) == old(device)@.strong(s.weak.id) + 1 && final(device)@.weak(s.weak.id)
            == old(device)@.weak(s.weak.id),
        call_ensures(WeakBinderRef::share, (weak, device), w) ==> w == *weak && final(device)@.weak(
            w.id,
        ) == old(device)@.weak(w.id) + 1 && final(device)@.strong(w.id) == old(device)@.strong(w.id),
        call_ensures(BinderRef::downgrade, (strong, device), w) ==> w == strong.weak && final(
            device
        )@.weak(w.id) == old(device)@.weak(w.id) + 1 && final(device)@.strong(w.id) == old(
            device
        )@.strong(w.id),
{
    taking_counts_one_share(old(device)@, strong.weak.id, strong.weak.id);
    taking_counts_one_share(old(device)@, weak.id, weak.id);
}

/// A weak reference becomes a strong one to the same handle exactly if there is a strong one
/// already, which is then counted once more. It is alive exactly until its death is reported.
pub proof fn weak_references_are_upgraded(
    device: &mut BinderDevice,
    reference: &WeakBinderRef,
    r: Option<BinderRef>,
)
    requires
        old(device)@.wf(),
        old(device)@.strong(reference.id) < u64::MAX,
        old(device)@.weak(reference.id) < u64::MAX,
        call_ensures(WeakBinderRef::upgrade, (reference, device), r),
    ensures
        r is Some <==> old(device)@.strong(reference.id) > 0,
        r is None ==> final(device)@ == old(device)@,
        r matches Some(s) ==> s.weak.id == reference.id && s.weak.cookie == old(
            device
        )@.refs[reference.id as u64].1 && final(device)@.strong(reference.id) == old(
            device
        )@.strong(reference.id) + 1 && final(device)@.weak(reference.id) == old(device)@.weak(
            reference.id,
        ),
{
    taking_counts_one_share(old(device)@, reference.id, reference.id);
}

/// A reference is alive exactly as long as the death that goes with its cookie is awaited, and
/// an object of this process always is.
pub proof fn references_live_until_their_death(
    device: &BinderDevice,
    weak: &WeakBinderRef,
    port: &BinderObjectOrRef,
    r: bool,
)
    ensures
        call_ensures(WeakBinderRef::alive, (weak, device), r) ==> r
            == device@.death_notifications.dom().contains(weak.cookie),
        call_ensures(BinderObjectOrRef::alive, (port, device), r) ==> match *port {
            BinderObjectOrRef::Ref(v) => r == device@.death_notifications.dom().contains(
                v.weak.cookie,
            ),
            BinderObjectOrRef::WeakRef(v) => r == device@.death_notifications.dom().contains(
                v.cookie,
            ),
            _ => r,
        },
{
}

/// What is put into a payload in place of an object or a reference is that object or reference.
/// Of a reference there is one share more.
pub proof fn what_goes_into_a_payload_is_the_same<H>(
    device: &mut BinderDevice,
    object: &BinderObject<H>,
    untyped: &UntypedBinderObject,
    weak_object: &WeakBinderObject,
    strong: &BinderRef,
    weak: &WeakBinderRef,
    port: &BinderObjectOrRef,
    r: BinderObjectOrRef,
)
    ensures
        call_ensures(
            <BinderObject<H> as ToBinderObjectOrRef>::to_binder_object_or_ref,
            (object, device),
            r,
        ) ==> r == BinderObjectOrRef::Object(UntypedBinderObject(object.id)) && final(device)@
            == old(device)@,
        call_ensures(
            <UntypedBinderObject as ToBinderObjectOrRef>::to_binder_object_or_ref,
            (untyped, device),
            r,
        ) ==> r == BinderObjectOrRef::Object(*untyped) && final(device)@ == old(device)@,
        call_ensures(
            <WeakBinderObject as ToBinderObjectOrRef>::to_binder_object_or_ref,
            (weak_object, device),
            r,
        ) ==> r == BinderObjectOrRef::WeakObject(*weak_object) && final(device)@ == old(device)@,
        call_ensures(
            <BinderRef as ToBinderObjectOrRef>::to_binder_object_or_ref,
            (strong, device),
            r,
        ) ==> r == BinderObjectOrRef::Ref(*strong),
        call_ensures(
            <WeakBinderRef as ToBinderObjectOrRef>::to_binder_object_or_ref,
            (weak, device),
            r,
        ) ==> r == BinderObjectOrRef::WeakRef(*weak),
        call_ensures(
            <BinderObjectOrRef as ToBinderObjectOrRef>::to_binder_object_or_ref,
            (port, device),
            r,
        ) ==> r == *port,
{
}

/// Whether the bytes of an object in a payload are those of one of a type that accepts open
/// files, with the two words of a local object.
pub open spec fn names_object(flat: FlatBinderObject, type_: u32, id: u64, cookie: u64) -> bool {
    let bytes = flat.bytes();
    &&& bytes.len() == 24
    &&& u32_at(bytes, 0) == type_
    &&& u32_at(bytes, 4) == 0x100
    &&& u64_at(bytes, 8) == id
    &&& u64_at(bytes, 16) == cookie
}

/// Whether the bytes of an object in a payload are those of one of a type that accepts open
/// files, with a handle.
pub open spec fn names_handle(flat: FlatBinderObject, type_: u32, handle: u32) -> bool {
    let bytes = flat.bytes();
    &&& bytes.len() == 24
    &&& u32_at(bytes, 0) == type_
    &&& u32_at(bytes, 4) == 0x100
    &&& u32_at(bytes, 8) == handle
    &&& u32_at(bytes, 12) == 0
    &&& u64_at(bytes, 16) == 0
}

/// What stands for an object or a reference in a payload names it, by its own type, and accepts
/// open files.
pub proof fn flat_objects_name_what_they_stand_for<H>(
    object: &BinderObject<H>,
    untyped: &UntypedBinderObject,
    weak_object: &WeakBinderObject,
    strong: &BinderRef,
    weak: &WeakBinderRef,
    port: &BinderObjectOrRef,
    r: FlatBinderObject,
)
    ensures
        call_ensures(BinderObject::<H>::get_flat_binder_object, (object,), r) ==> names_object(
            r,
            0x7362_2a85,
            object.id.id,
            object.id.cookie,
        ),
        call_ensures(UntypedBinderObject::get_flat_binder_object, (untyped,), r) ==> names_object(
            r,
            0x7362_2a85,
            untyped.0.id,
            untyped.0.cookie,
        ),
        call_ensures(WeakBinderObject::get_flat_binder_object, (weak_object,), r) ==> names_object(
            r,
            0x7762_2a85,
            weak_object.id.id,
            weak_object.id.cookie,
        ),
        call_ensures(BinderRef::get_flat_binder_object, (strong,), r) ==> names_handle(
            r,
            0x7368_2a85,
            strong.weak.id,
        ),
        call_ensures(WeakBinderRef::get_flat_binder_object, (weak,), r) ==> names_handle(
            r,
            0x7768_2a85,
            weak.id,
        ),
        call_ensures(BinderObjectOrRef::get_flat_binder_object, (port,), r) ==> match *port {
            BinderObjectOrRef::Object(v) => names_object(r, 0x7362_2a85, v.0.id, v.0.cookie),
            BinderObjectOrRef::WeakObject(v) => names_object(
                r,
                0x7762_2a85,
                v.id.id,
                v.id.cookie,
            ),
            BinderObjectOrRef::Ref(v) => names_handle(r, 0x7368_2a85, v.weak.id),
            BinderObjectOrRef::WeakRef(v) => names_handle(r, 0x7768_2a85, v.id),
        },
{
    ports_in_memory(BinderObjectOrRef::Object(UntypedBinderObject(object.id)));
    ports_in_memory(BinderObjectOrRef::Object(*untyped));
    ports_in_memory(BinderObjectOrRef::WeakObject(*weak_object));
    ports_in_memory(BinderObjectOrRef::Ref(*strong));
    ports_in_memory(BinderObjectOrRef::WeakRef(*weak));
    ports_in_memory(*port);
}

/// What stands for a port in a payload names it, by its own type, and accepts open files.
pub proof fn flat_ports_name_what_they_stand_for(
    owned: &OwnedBinderPort,
    weak_owned: &WeakOwnedBinderPort,
    handle: &BinderPortHandle,
    weak_handle: &WeakBinderPortHandle,
    port: &BinderPort,
    r: FlatBinderObject,
)
    ensures
        call_ensures(OwnedBinderPort::get_flat_binder_object, (owned,), r) ==> names_object(
            r,
            0x7362_2a85,
            owned.id.id,
            owned.id.cookie,
        ),
        call_ensures(WeakOwnedBinderPort::get_flat_binder_object, (weak_owned,), r)
            ==> names_object(r, 0x7762_2a85, weak_owned.id.id, weak_owned.id.cookie),
        call_ensures(BinderPortHandle::get_flat_binder_object, (handle,), r) ==> names_handle(
            r,
            0x7368_2a85,
            handle.id,
        ),
        call_ensures(WeakBinderPortHandle::get_flat_binder_object, (weak_handle,), r)
            ==> names_handle(r, 0x7768_2a85, weak_handle.id),
        call_ensures(BinderPort::get_flat_binder_object, (port,), r) ==> match *port {
            BinderPort::Owned(p) => names_object(r, 0x7362_2a85, p.id.id, p.id.cookie),
            BinderPort::Handle(p) => names_handle(r, 0x7368_2a85, p.id),
            BinderPort::WeakHandle(p) => names_handle(r, 0x7768_2a85, p.id),
            BinderPort::WeakOwned(p) => names_object(r, 0x7762_2a85, p.id.id, p.id.cookie),
        },
{
    lemma_flat_port(BinderPort::Owned(*owned));
    lemma_flat_port(BinderPort::WeakOwned(*weak_owned));
    lemma_flat_port(BinderPort::Handle(*handle));
    lemma_flat_port(BinderPort::WeakHandle(*weak_handle));
    lemma_flat_port(*port);
}

proof fn lemma_flat_port(port: BinderPort)
    ensures
        match port {
            BinderPort::Owned(p) => names_object(
                flat_object(BinderType::BINDER, p.id.id, p.id.cookie),
                0x7362_2a85,
                p.id.id,
                p.id.cookie,
            ),
            BinderPort::Handle(p) => names_handle(
                flat_object(BinderType::HANDLE, widened(p.id), 0),
                0x7368_2a85,
                p.id,
            ),
            BinderPort::WeakHandle(p) => names_handle(
                flat_object(BinderType::WEAK_HANDLE, widened(p.id), 0),
                0x7768_2a85,
                p.id,
            ),
            BinderPort::WeakOwned(p) => names_object(
                flat_object(BinderType::WEAK_BINDER, p.id.id, p.id.cookie),
                0x7762_2a85,
                p.id.id,
                p.id.cookie,
            ),
        },
{
    match port {
        BinderPort::Owned(p) => {
            let id = BinderObjectId { id: p.id.id, cookie: p.id.cookie };
            ports_in_memory(BinderObjectOrRef::Object(UntypedBinderObject(id)));
        },
        BinderPort::WeakOwned(p) => {
            let id = BinderObjectId { id: p.id.id, cookie: p.id.cookie };
            ports_in_memory(BinderObjectOrRef::WeakObject(WeakBinderObject { id }));
        },
        BinderPort::Handle(p) => {
            let weak = WeakBinderRef { id: p.id, cookie: 0 };
            ports_in_memory(BinderObjectOrRef::Ref(BinderRef { weak }));
        },
        BinderPort::WeakHandle(p) => {
            ports_in_memory(BinderObjectOrRef::WeakRef(WeakBinderRef { id: p.id, cookie: 0 }));
        },
    }
}

/// A handler that is registered is found under the identity that it got, and no other handler
/// has become another one. Nobody refers to the new object.
pub proof fn registered_handlers_are_found(
    device: &mut BinderDevice,
    handler: u64,
    id: BinderObjectId,
    other: &BinderObjectId,
    found: Option<u64>,
)
    requires
        old(device)@.wf(),
        old(device)@.registrations < u64::MAX,
        call_ensures(BinderDevice::register_object, (device, handler), id),
        call_ensures(BinderDevice::get_handler, (&*final(device), other), found),
    ensures
        *other == id ==> found == Some(handler),
        *other != id ==> (found is Some <==> old(device)@.objects.dom().contains(
            (other.id, other.cookie),
        )),
        *other != id && found is Some ==> found->0 == old(device)@.objects[(
            other.id,
            other.cookie,
        )],
        !old(device)@.objects.dom().contains((id.id, id.cookie)),
        id.id == old(device)@.registrations + 1,
        id.cookie == 0,
        final(device)@.registrations == old(device)@.registrations + 1,
        final(device)@.object_refcounts[(id.id, id.cookie)].strong_count == 0,
        final(device)@.object_refcounts[(id.id, id.cookie)].obj_id == id,
        final(device)@.retained_services == old(device)@.retained_services,
        final(device)@.ctx_manager == old(device)@.ctx_manager,
        final(device)@.refs == old(device)@.refs,
{
}

/// An object that is removed is not found any more, and everything else is as before.
pub proof fn removed_objects_are_gone(
    device: &mut BinderDevice,
    id: &BinderObjectId,
    other: &BinderObjectId,
    found: Option<u64>,
    counts: Option<ObjectRefState>,
)
    requires
        call_ensures(BinderDevice::remove_binder_object, (device, id), ()),
        call_ensures(BinderDevice::get_handler, (&*final(device), other), found),
        call_ensures(BinderDevice::refcounts, (&*final(device), other), counts),
    ensures
        other == id ==> found is None && counts is None,
        other != id ==> (found is Some <==> old(device)@.objects.dom().contains(
            (other.id, other.cookie),
        )) && (found is Some ==> found->0 == old(device)@.objects[(other.id, other.cookie)]),
        other != id ==> (counts is Some <==> old(device)@.object_refcounts.dom().contains(
            (other.id, other.cookie),
        )) && (counts is Some ==> counts->0 == old(device)@.object_refcounts[(
            other.id,
            other.cookie,
        )]),
        final(device)@.retained_services == old(device)@.retained_services,
        final(device)@.object_id_counter == old(device)@.object_id_counter,
{
}

/// An object that becomes a service is kept, with the handler that it has, and the one who made
/// it has a reference to it, so that it cannot be given up.
pub proof fn services_are_kept(
    device: &mut BinderDevice,
    id: &BinderObjectId,
    retained: bool,
)
    requires
        old(device)@.wf(),
        old(device)@.objects.dom().contains((id.id, id.cookie)),
        old(device)@.object_refcounts[(id.id, id.cookie)].strong_count < u32::MAX,
        call_ensures(BinderDevice::to_service, (device, id), ()),
        call_ensures(BinderDevice::is_retained, (&*final(device), id), retained),
    ensures
        ({
            let key = (id.id, id.cookie);
            let (d, e) = (old(device)@, final(device)@);
            let (s, t) = (d.object_refcounts[key], e.object_refcounts[key]);
            &&& retained
            &&& e.retained_services[key] == d.objects[key]
            &&& e.objects == d.objects
            &&& t.local_strong_count == s.local_strong_count + 1
            &&& t.remote_strong_count == s.remote_strong_count
            &&& t.strong_count > 0
            &&& !e.collectable(key)
        }),
{
    assert(old(device)@.object_refcounts.dom().contains((id.id, id.cookie)));
    assert(old(device)@.object_refcounts[(id.id, id.cookie)].wf());
}

/// References to an object are counted, one by one, where they are: those of this process apart
/// from those of other processes. An object that is not known stays unknown, and nothing else
/// changes.
pub proof fn references_are_counted_where_they_are(
    device: &mut BinderDevice,
    id: &BinderObjectId,
    other: (u64, u64),
)
    requires
        old(device)@.wf(),
        old(device)@.object_refcounts.dom().contains((id.id, id.cookie)),
        old(device)@.object_refcounts[(id.id, id.cookie)].strong_count < u32::MAX,
        other != (id.id, id.cookie),
    ensures
        ({
            let key = (id.id, id.cookie);
            let (d, e) = (old(device)@, final(device)@);
            let (s, t) = (d.object_refcounts[key], e.object_refcounts[key]);
            &&& call_ensures(BinderDevice::clone_service_ref, (device, id), ()) ==> {
                &&& t.local_strong_count == s.local_strong_count + 1
                &&& t.remote_strong_count == s.remote_strong_count
                &&& t.new_in_remote == s.new_in_remote
                &&& e.leaves(d, other) && e.objects == d.objects
            }
            &&& call_ensures(BinderDevice::drop_service_ref, (device, id), ())
                && s.local_strong_count > 0 ==> {
                &&& t.local_strong_count == s.local_strong_count - 1
                &&& t.remote_strong_count == s.remote_strong_count
                &&& t.new_in_remote == s.new_in_remote
                &&& e.leaves(d, other) && e.objects == d.objects
            }
            &&& call_ensures(BinderDevice::remote_acquired, (device, id), ()) ==> {
                &&& t.local_strong_count == s.local_strong_count
                &&& t.remote_strong_count == s.remote_strong_count + 1
                &&& !t.new_in_remote
                &&& e.leaves(d, other) && e.objects == d.objects
            }
            &&& call_ensures(BinderDevice::remote_released, (device, id), ())
                && s.remote_strong_count > 0 ==> {
                &&& t.local_strong_count == s.local_strong_count
                &&& t.remote_strong_count == s.remote_strong_count - 1
                &&& t.new_in_remote == s.new_in_remote
                &&& e.leaves(d, other) && e.objects == d.objects
            }
            &&& call_ensures(BinderDevice::mark_pending_remote, (device, id), ()) ==> {
                &&& t.local_strong_count == s.local_strong_count
                &&& t.remote_strong_count == s.remote_strong_count
                &&& t.new_in_remote <==> s.remote_strong_count == 0
                &&& e.leaves(d, other) && e.objects == d.objects
            }
            &&& call_ensures(BinderDevice::clear_pending_remote, (device, id), ()) ==> {
                &&& t.local_strong_count == s.local_strong_count
                &&& t.remote_strong_count == s.remote_strong_count
                &&& !t.new_in_remote
                &&& e.leaves(d, other) && e.objects == d.objects
            }
        }),
{
    assert(old(device)@.object_refcounts[(id.id, id.cookie)].wf());
}

/// A service is given up exactly if nobody refers to it: not in this process, not in another one,
/// and not on the way to one. It is gone then, and everything else stays.
pub proof fn services_are_given_up(
    device: &mut BinderDevice,
    id: &BinderObjectId,
    other: (u64, u64),
    r: bool,
)
    requires
        old(device)@.wf(),
        call_ensures(BinderDevice::collect_service, (device, id), r),
        other != (id.id, id.cookie),
    ensures
        ({
            let key = (id.id, id.cookie);
            let (d, e) = (old(device)@, final(device)@);
            let s = d.object_refcounts[key];
            &&& r <==> d.retained_services.dom().contains(key) && s.local_strong_count == 0
                && s.remote_strong_count == 0 && !s.new_in_remote
            &&& !r ==> e == d
            &&& r ==> {
                &&& !e.objects.dom().contains(key)
                &&& !e.object_refcounts.dom().contains(key)
                &&& !e.retained_services.dom().contains(key)
            }
            &&& e.leaves(d, other)
        }),
{
    let key = (id.id, id.cookie);
    if old(device)@.retained_services.dom().contains(key) {
        service_lives_while_referenced(old(device)@, key);
    }
}

/// Whoever becomes the context manager is the object that was asked for: the driver is told of
/// it, and transactions to the context manager go there from now on.
pub proof fn the_context_manager_is_set(
    device: &mut BinderDevice,
    id: &BinderObjectId,
    r: SetContextMGR,
    manager: ContextManagerBinderRef,
    accepted: bool,
    outcome: core::result::Result<(), Error>,
)
    requires
        call_ensures(BinderDevice::set_context_manager, (device, id), r),
        call_ensures(BinderDevice::context_manager, (&*final(device),), manager),
        call_ensures(BinderDevice::context_manager_result, (accepted,), outcome),
    ensures
        names_object(r.0, 0x7362_2a85, id.id, id.cookie),
        manager.0 == id.id,
        final(device)@.objects == old(device)@.objects,
        final(device)@.object_refcounts == old(device)@.object_refcounts,
        outcome is Ok <==> accepted,
        outcome matches Err(e) ==> e is PermissionDenied,
{
    ports_in_memory(BinderObjectOrRef::Object(UntypedBinderObject(*id)));
}

/// What is listed is what there is, each once.
pub proof fn everything_is_listed(
    device: &BinderDevice,
    objects: Vec<(u64, u64)>,
    services: Vec<(u64, u64)>,
    strong: Vec<u64>,
    weak: Vec<u64>,
    key: (u64, u64),
    handle: u64,
)
    requires
        call_ensures(BinderDevice::object_keys, (device,), objects),
        call_ensures(BinderDevice::service_keys, (device,), services),
        call_ensures(BinderDevice::ref_keys, (device,), strong),
        call_ensures(BinderDevice::weak_ref_keys, (device,), weak),
    ensures
        objects@.contains(key) <==> device@.objects.dom().contains(key),
        services@.contains(key) <==> device@.retained_services.dom().contains(key),
        strong@.contains(handle) <==> device@.refs.dom().contains(handle),
        weak@.contains(handle) <==> device@.weak_refs.dom().contains(handle),
        objects@.no_duplicates() && services@.no_duplicates(),
        strong@.no_duplicates() && weak@.no_duplicates(),
{
    assert(objects@.to_set().contains(key) <==> objects@.contains(key));
    assert(services@.to_set().contains(key) <==> services@.contains(key));
    assert(strong@.to_set().contains(handle) <==> strong@.contains(handle));
    assert(weak@.to_set().contains(handle) <==> weak@.contains(handle));
}

/// A port is there after it was added, with its handler, and gone after it was removed or
/// released; other ports are as before.
pub proof fn local_ports_come_and_go(
    ports: &mut PortTable,
    port: OwnedBinderPort,
    id: &OwnedBinderPortId,
    found: Option<u64>,
)
    requires
        call_ensures(PortTable::get_binder_port, (&*final(ports), id), found),
    ensures
        call_ensures(PortTable::add_binder_port, (ports, &port), ()) && *id == port.id ==> found
            == Some(port.handler),
        call_ensures(PortTable::remove_binder_port, (ports, id), ()) ==> found is None,
        call_ensures(OwnedBinderPort::release, (port, ports), ()) && *id == port.id ==> found
            is None,
        (call_ensures(PortTable::add_binder_port, (ports, &port), ()) || call_ensures(
            PortTable::remove_binder_port,
            (ports, &port.id),
            (),
        ) || call_ensures(OwnedBinderPort::release, (port, ports), ())) && *id != port.id ==> (
        found is Some <==> old(ports)@.owned_ports.dom().contains((id.id, id.cookie))) && (found
            is Some ==> found->0 == old(ports)@.owned_ports[(id.id, id.cookie)]),
{
}

/// Shares of the port of a handle are counted, one by one, apart from those of its weak port and
/// from those of other handles. A weak port becomes a port, and the other way round, exactly if
/// there is one already.
pub proof fn port_shares_are_counted(
    ports: &mut PortTable,
    handle: u32,
    other: u32,
    strong: BinderPortHandle,
    weak: WeakBinderPortHandle,
    upgraded: Option<BinderPortHandle>,
    downgraded: Option<WeakBinderPortHandle>,
)
    requires
        strong.id == handle,
        weak.id == handle,
        shares(old(ports)@.port_handles, handle) < u64::MAX,
        shares(old(ports)@.weak_port_handles, handle) < u64::MAX,
    ensures
        ({
            let (d, e) = (old(ports)@, final(ports)@);
            let (s, w) = (shares(d.port_handles, handle), shares(d.weak_port_handles, handle));
            let (t, x) = (shares(e.port_handles, handle), shares(e.weak_port_handles, handle));
            let rest = other != handle ==> shares(e.port_handles, other) == shares(
                d.port_handles,
                other,
            ) && shares(e.weak_port_handles, other) == shares(d.weak_port_handles, other);
            &&& call_ensures(BinderPortHandle::get_and_dedup_from_raw, (ports, handle), strong)
                ==> t == s + 1 && x == w && rest
            &&& call_ensures(WeakBinderPortHandle::get_and_dedup_from_raw, (ports, handle), weak)
                ==> t == s && x == w + 1 && rest
            &&& call_ensures(BinderPortHandle::release, (strong, ports), ()) && s > 0 ==> t == s - 1
                && x == w && rest
            &&& call_ensures(WeakBinderPortHandle::release, (weak, ports), ()) && w > 0 ==> t == s
                && x == w - 1 && rest
            &&& call_ensures(WeakBinderPortHandle::upgrade, (&weak, ports), upgraded) ==> {
                &&& upgraded is Some <==> s > 0
                &&& upgraded matches Some(p) ==> p.id == handle && t == s + 1 && x == w && rest
                &&& upgraded is None ==> e == d
            }
            &&& call_ensures(BinderPortHandle::downgrade, (&strong, ports), downgraded) ==> {
                &&& downgraded is Some <==> w > 0
                &&& downgraded matches Some(p) ==> p.id == handle && t == s && x == w + 1 && rest
                &&& downgraded is None ==> e == d
            }
        }),
{
}

/// A port handle that is received is one for that handle.
pub proof fn received_ports_are_of_their_handle(
    ports: &mut PortTable,
    handle: u32,
    strong: BinderPortHandle,
    weak: WeakBinderPortHandle,
)
    ensures
        call_ensures(BinderPortHandle::get_and_dedup_from_raw, (ports, handle), strong)
            ==> strong.id == handle,
        call_ensures(WeakBinderPortHandle::get_and_dedup_from_raw, (ports, handle), weak)
            ==> weak.id == handle,
{
}

/// A service handler is found under its cookie once it is registered, and not any more once it
/// is unregistered, unless the device was gone before.
pub proof fn service_handlers_come_and_go(
    handlers: &mut ServiceHandlers,
    object: crate::object::BinderObject,
    owners: usize,
    cookie: u64,
    found: Option<u64>,
)
    requires
        call_ensures(ServiceHandlers::get, (&*final(handlers), cookie), found),
    ensures
        call_ensures(ServiceHandlers::register, (handlers, &object), ()) && cookie == object.cookie
            ==> found == Some(object.handler),
        call_ensures(crate::object::BinderObject::unregister, (object, handlers, owners), ())
            && owners > 0 && cookie == object.cookie ==> found is None,
        call_ensures(crate::object::BinderObject::unregister, (object, handlers, owners), ())
            && owners == 0 ==> final(handlers)@ == old(handlers)@,
        (call_ensures(ServiceHandlers::register, (handlers, &object), ()) || call_ensures(
            crate::object::BinderObject::unregister,
            (object, handlers, owners),
            (),
        )) && cookie != object.cookie ==> (found is Some <==> old(handlers)@.dom().contains(cookie))
            && (found is Some ==> found->0 == old(handlers)@[cookie].0),
{
}

/// A thread registers with a device once: before that it is told to, and after that it has the
/// duplicate that it added. In the end it is told to leave each of its devices.
pub proof fn threads_register_once(
    state: &mut ThreadBinderState,
    key: DeviceKey,
    slot: u64,
    other: DeviceKey,
    before: Ensured,
    after: Ensured,
)
    requires
        call_ensures(ThreadBinderState::ensure_device, (&*old(state), other), before),
        call_ensures(ThreadBinderState::add, (state, key, slot), ()),
        call_ensures(ThreadBinderState::ensure_device, (&*final(state), other), after),
    ensures
        other == key ==> after == Ensured::Ready(slot),
        other != key ==> after == before,
        before is Ready <==> old(state)@.dom().contains(other.0),
        before matches Ensured::Register(c) ==> c == DriverCommand::RegisterLooper,
{
}

/// A thread that ends leaves each of its devices once, and has none afterwards.
pub proof fn threads_leave_every_device(
    state: &mut ThreadBinderState,
    key: RawFd,
    r: (Vec<RawFd>, DriverCommand),
)
    requires
        call_ensures(ThreadBinderState::drain, (state,), r),
    ensures
        r.0@.contains(key) <==> old(state)@.dom().contains(key),
        r.0@.no_duplicates(),
        r.1 == DriverCommand::ExitLooper,
        !final(state)@.dom().contains(key),
{
    assert(r.0@.to_set().contains(key) <==> r.0@.contains(key));
}

/// What a worker does about a word: only a transaction is read, two kinds of errors are
/// reported, what is expected is passed over, and anything else is reported as it is.
pub proof fn workers_heed_the_words(cmd: u32, r: WorkerAction)
    requires
        call_ensures(handle_command, (cmd,), r),
    ensures
        r is ReadTransaction <==> cmd == 0x8040_7202,
        r is ReportDeadReply <==> cmd == 0x7205,
        r is ReportError <==> cmd == 0x8004_7200,
        r is Ignore <==> cmd == 0x720c || cmd == 0x7206 || cmd == 0x8040_7203 || cmd == 0x720d,
        r matches WorkerAction::ReportUnknown(word) ==> word == cmd,
{
}

/// What a worker reads and writes: as many words as are whole, each from its four bytes; the code
/// and the payload of a transaction from their places in it; a command of one word; and a
/// transaction behind the driver's code for one.
pub proof fn workers_read_and_write(
    buffer: &[u8],
    consumed: usize,
    words: Vec<u32>,
    data: &[u8],
    info: Option<TransactionInfo>,
    address: u64,
    request: BinderWriteRead,
    written: Vec<u8>,
    parallelism: Option<usize>,
    workers: usize,
    i: int,
)
    requires
        call_ensures(read_words, (buffer, consumed), words),
        call_ensures(parse_br_transaction, (data,), info),
        call_ensures(command_request, (address,), request),
        call_ensures(transaction_write, (data,), written),
        call_ensures(worker_count, (parallelism,), workers),
    ensures
        4 * words@.len() <= consumed < 4 * words@.len() + 4,
        0 <= i < words@.len() ==> words@[i] == u32_at(buffer@, 4 * i),
        info is Some <==> data@.len() >= 64,
        info matches Some(t) ==> t.code == le_u32_at(data@, 32),
        info matches Some(t) ==> 64 + le_u64_at(data@, 56) <= data@.len() ==> t.payload@.len()
            == le_u64_at(data@, 56) && (0 <= i < t.payload@.len() ==> t.payload@[i] == data@[64
            + i]),
        request.write_buffer == address && request.write_size == 4 && request.write_consumed == 0,
        request.read_buffer == 0 && request.read_size == 0 && request.read_consumed == 0,
        written@.len() == data@.len() + 4,
        le_u32_at(written@, 0) == 0x4040_6300,
        written@.subrange(4, written@.len() as int) == data@,
        workers == (match parallelism {
            Some(n) => n,
            None => 4,
        }),
{
    broadcast use le32_facts;

    assert(written@.subrange(0, 4) =~= le32(0x4040_6300));
    assert(written@.subrange(4, written@.len() as int) =~= data@);
}

/// What is made from an identity has it, and says it.
pub proof fn identities_are_kept<H>(
    binder: u64,
    cookie: u64,
    id: BinderObjectId,
    handler: H,
    object: BinderObject<H>,
    object_id: &BinderObjectId,
    object_handler: &H,
    weak: WeakBinderObject,
    weak_id: &BinderObjectId,
)
    requires
        call_ensures(BinderObjectId::from_raw, (binder, cookie), id),
        call_ensures(BinderObject::<H>::new, (binder, handler), object),
        call_ensures(BinderObject::<H>::id, (&object,), object_id),
        call_ensures(BinderObject::<H>::handler, (&object,), object_handler),
        call_ensures(WeakBinderObject::from_id, (id,), weak),
        call_ensures(WeakBinderObject::id, (&weak,), weak_id),
    ensures
        id.id == binder && id.cookie == cookie,
        object_id.id == binder && object_id.cookie == 0,
        *object_handler == handler,
        object.strong_count == 0,
        weak_id.id == binder && weak_id.cookie == cookie,
{
}

/// What is made from the identity of a port has it, and says it.
pub proof fn port_identities_are_kept(
    binder: u64,
    cookie: u64,
    handler: u64,
    id: OwnedBinderPortId,
    port: OwnedBinderPort,
    port_id: &OwnedBinderPortId,
    slot: u64,
    weak: WeakOwnedBinderPort,
    weak_id: &OwnedBinderPortId,
)
    requires
        call_ensures(OwnedBinderPortId::from_raw, (binder, cookie), id),
        call_ensures(OwnedBinderPort::new, (binder, handler), port),
        call_ensures(OwnedBinderPort::id, (&port,), port_id),
        call_ensures(OwnedBinderPort::handler, (&port,), slot),
        call_ensures(WeakOwnedBinderPort::from_id, (id,), weak),
        call_ensures(WeakOwnedBinderPort::id, (&weak,), weak_id),
    ensures
        id.id == binder && id.cookie == cookie,
        port_id.id == binder && port_id.cookie == 0,
        slot == handler,
        weak_id.id == binder && weak_id.cookie == cookie,
{
}

/// The handle of a reference is its own, and the counts of a local object go up and down by one.
pub proof fn handles_and_counts<H>(
    strong: &BinderRef,
    weak: &WeakBinderRef,
    h: u32,
    object: &mut BinderObject<H>,
    last: bool,
)
    ensures
        call_ensures(BinderRef::handle, (strong,), h) ==> h == strong.weak.id,
        call_ensures(WeakBinderRef::handle, (weak,), h) ==> h == weak.id,
        call_ensures(BinderObject::<H>::strong_increase, (object,), ()) ==> final(object).id
            == old(object).id && final(object).handler == old(object).handler && (
        final(object).strong_count == old(object).strong_count + 1 || old(object).strong_count
            == u32::MAX && final(object).strong_count == 0),
        call_ensures(BinderObject::<H>::strong_decrease, (object,), last) && old(
            object
        ).strong_count > 0 ==> final(object).id == old(object).id && final(object).handler == old(
            object
        ).handler && final(object).strong_count == old(object).strong_count - 1 && (last
            <==> old(object).strong_count == 1),
{
}

/// One more share can be counted exactly if there is room for it.
pub proof fn shares_can_be_counted(device: &BinderDevice, handle: u32, r: bool)
    ensures
        call_ensures(BinderDevice::can_share_strong, (device, handle), r) ==> (r
            <==> device@.strong(handle) + 1 <= u64::MAX),
        call_ensures(BinderDevice::can_share_weak, (device, handle), r) ==> (r <==> device@.weak(
            handle,
        ) + 1 <= u64::MAX),
{
}

/// A new device, a new table of ports, a new table of handlers and a new thread have nothing.
pub proof fn everything_starts_empty(
    device: BinderDevice,
    ports: PortTable,
    handlers: ServiceHandlers,
    state: ThreadBinderState,
    handle: u32,
    key: (u64, u64),
)
    requires
        call_ensures(BinderDevice::new, (), device),
        call_ensures(PortTable::new, (), ports),
        call_ensures(ServiceHandlers::new, (), handlers),
        call_ensures(ThreadBinderState::new, (), state),
    ensures
        device@.wf(),
        !device@.objects.dom().contains(key),
        !device@.retained_services.dom().contains(key),
        device@.strong(handle) == 0 && device@.weak(handle) == 0,
        !device@.alive(key.0),
        device@.registrations == 0 && device@.cookies == 0 && device@.ctx_manager == 0,
        shares(ports@.port_handles, handle) == 0 && shares(ports@.weak_port_handles, handle) == 0,
        !ports@.owned_ports.dom().contains(key),
        !handlers@.dom().contains(key.0),
        !state@.dom().contains(handle as i32),
{
}

} // verus!
