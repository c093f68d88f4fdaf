//! Local objects and references to remote ones.
//!
//! A reference to a remote object is shared: however many shares of it there are, the driver
//! knows of one strong and one weak reference per handle. The shares are counted in the
//! device's tables, and what the driver has to be told when the first share is made or the
//! last one is gone is handed back as commands.
use crate::command::DriverCommand;
use crate::device::BinderDevice;
use crate::sys::{
    BinderHandleCookie, BinderObjectHeader, BinderType, FlatBinderFlags, FlatBinderObject,
    FlatBinderObjectData,
};
use crate::wire::widen;
use vstd::prelude::*;

verus! {

use crate::device::{drawn, DeviceView};
use crate::wire::{ne32, ne32_facts, ne64_facts, u32_at, u64_at, u64_at_bytes, widened};

/// The id of a local object.
#[derive(Debug, Clone, Copy, Hash, PartialEq, Eq, PartialOrd, Ord, Structural)]
pub struct BinderObjectId {
    pub id: u64,
    pub cookie: u64,
}

impl BinderObjectId {
    pub fn from_raw(binder: u64, cookie: u64) -> (r: BinderObjectId)
        ensures
            r == (BinderObjectId { id: binder, cookie }),
    {
        BinderObjectId { id: binder, cookie }
    }
}

/// Where a transaction goes: to an object of this process, or to a handle.
#[derive(Debug, Clone, Copy, PartialEq, Eq, Structural)]
pub enum TransactionTargetHandle {
    Local(BinderObjectId),
    Remote(u32),
}

/// Something that a transaction can be sent to.
pub trait TransactionTarget {
    spec fn target(&self) -> TransactionTargetHandle;

    fn get_transaction_target_handle(&self) -> (r: TransactionTargetHandle)
        ensures
            r == self.target(),
    ;
}

/// The object that stands for a reference or a local object in a payload.
pub open spec fn flat_object(type_: u32, word: u64, cookie: u64) -> FlatBinderObject {
    FlatBinderObject {
        hdr: BinderObjectHeader { type_: BinderType(type_) },
        flags: FlatBinderFlags(FlatBinderFlags::ACCEPTS_FDS),
        data: FlatBinderObjectData { word },
        cookie,
    }
}

/// The object that stands for a reference or a local object in a payload.
pub(crate) fn make_flat_object(type_: u32, word: u64, cookie: u64) -> (r: FlatBinderObject)
    ensures
        r == flat_object(type_, word, cookie),
{
    FlatBinderObject {
        hdr: BinderObjectHeader { type_: BinderType(type_) },
        flags: FlatBinderFlags(FlatBinderFlags::ACCEPTS_FDS),
        data: FlatBinderObjectData { word },
        cookie,
    }
}

impl DeviceView {
    /// Making one more share of the weak reference to a handle: the device afterwards, what
    /// the driver has to be told, and the cookie of the reference.
    pub open spec fn weak_taken(self, handle: u32) -> (DeviceView, Seq<DriverCommand>, u64) {
        let h = handle as u64;
        if self.weak(handle) > 0 {
            let (count, cookie) = self.weak_refs[h];
            (
                DeviceView {
                    weak_refs: self.weak_refs.insert(h, ((count + 1) as u64, cookie)),
                    ..self
                },
                Seq::empty(),
                cookie,
            )
        } else {
            let cookie = self.death_counter;
            (
                DeviceView {
                    death_counter: drawn(cookie),
                    cookies: self.cookies + 1,
                    death_notifications: self.death_notifications.insert(cookie, (h, 0)),
                    weak_refs: self.weak_refs.insert(h, (1, cookie)),
                    ..self
                },
                seq![
                    DriverCommand::IncRefs(handle),
                    DriverCommand::RequestDeathNotification(BinderHandleCookie { handle, cookie }),
                ],
                cookie,
            )
        }
    }

    /// Making one more share of the strong reference to a handle: the device afterwards, what
    /// the driver has to be told, and the cookie of the weak reference that goes with it.
    pub open spec fn strong_taken(self, handle: u32) -> (DeviceView, Seq<DriverCommand>, u64) {
        let h = handle as u64;
        if self.strong(handle) > 0 {
            let (count, cookie) = self.refs[h];
            (
                DeviceView { refs: self.refs.insert(h, ((count + 1) as u64, cookie)), ..self },
                Seq::empty(),
                cookie,
            )
        } else {
            let (d, commands, cookie) = self.weak_taken(handle);
            (
                DeviceView { refs: d.refs.insert(h, (1, cookie)), ..d },
                commands.push(DriverCommand::Acquire(handle)),
                cookie,
            )
        }
    }

    /// Giving up one share of the weak reference to a handle.
    pub open spec fn weak_dropped(self, handle: u32) -> (DeviceView, Seq<DriverCommand>) {
        let h = handle as u64;
        let (count, cookie) = self.weak_refs[h];
        (
            DeviceView {
                weak_refs: self.weak_refs.insert(h, ((count - 1) as u64, cookie)),
                ..self
            },
            if count == 1 {
                seq![DriverCommand::DecRefs(handle)]
            } else {
                Seq::empty()
            },
        )
    }

    /// Giving up one share of the strong reference to a handle. The last one takes the weak
    /// reference that it holds along.
    pub open spec fn strong_dropped(self, handle: u32) -> (DeviceView, Seq<DriverCommand>) {
        let h = handle as u64;
        let (count, cookie) = self.refs[h];
        let d = DeviceView { refs: self.refs.insert(h, ((count - 1) as u64, cookie)), ..self };
        if count == 1 {
            let (e, commands) = d.weak_dropped(handle);
            (e, seq![DriverCommand::Release(handle)] + commands)
        } else {
            (d, Seq::empty())
        }
    }

    /// Whether the driver has not reported the death that belongs to a cookie.
    pub open spec fn alive(self, cookie: u64) -> bool {
        self.death_notifications.dom().contains(cookie)
    }
}

/// A share of the weak reference to a remote object.
#[derive(Debug, PartialEq, Eq, Structural)]
pub struct WeakBinderRef {
    pub id: u32,
    pub cookie: u64,
}

/// A share of the strong reference to a remote object.
#[derive(Debug, PartialEq, Eq, Structural)]
pub struct BinderRef {
    pub weak: WeakBinderRef,
}

impl WeakBinderRef {
    /// Whether the driver has not reported that the object died.
    pub fn alive(&self, device: &BinderDevice) -> (r: bool)
        ensures
            r == device@.alive(self.cookie),
    {
        device.awaits_death(self.cookie)
    }

    /// A share of the strong reference, if there still is one.
    pub fn upgrade(&self, device: &mut BinderDevice) -> (r: Option<BinderRef>)
        requires
            old(device)@.wf(),
            old(device)@.strong(self.id) < u64::MAX,
        ensures
            r is Some <==> old(device)@.strong(self.id) > 0,
            r is Some ==> r == Some(
                BinderRef {
                    weak: WeakBinderRef { id: self.id, cookie: old(device)@.strong_taken(self.id).2 },
                },
            ) && final(device)@ == old(device)@.strong_taken(self.id).0,
            r is None ==> final(device)@ == old(device)@,
            final(device)@.wf(),
    {
        match device.strong_entry(self.id) {
            Some((count, cookie)) => if count > 0 {
                device.set_strong_entry(self.id, (count + 1, cookie));
                proof {
                    old(device)@.lemma_strong_taken_wf(self.id);
                    assert(device@ =~= old(device)@.strong_taken(self.id).0);
                }
                Some(BinderRef { weak: WeakBinderRef { id: self.id, cookie } })
            } else {
                None
            },
            None => None,
        }
    }

    pub fn handle(&self) -> (r: u32)
        ensures
            r == self.id,
    {
        self.id
    }

    /// A share of the weak reference to a handle that was received. If it is the first one,
    /// the driver is told, and asked to report the death of the object.
    pub fn get_and_dedup_from_raw(device: &mut BinderDevice, handle: u32) -> (r: (
        WeakBinderRef,
        Vec<DriverCommand>,
    ))
        requires
            old(device)@.wf(),
            old(device)@.weak(handle) < u64::MAX,
        ensures
            r.0 == (WeakBinderRef { id: handle, cookie: old(device)@.weak_taken(handle).2 }),
            r.1@ == old(device)@.weak_taken(handle).1,
            final(device)@ == old(device)@.weak_taken(handle).0,
            final(device)@.wf(),
    {
        let ghost before = device@;
        let mut commands: Vec<DriverCommand> = Vec::new();
        proof {
            before.lemma_weak_taken_wf(handle);
        }
        if let Some((count, cookie)) = device.weak_entry(handle) {
            if count > 0 {
                device.set_weak_entry(handle, (count + 1, cookie));
                assert(device@ =~= before.weak_taken(handle).0);
                return (WeakBinderRef { id: handle, cookie }, commands);
            }
        }
        let cookie: u64 = device.await_death(handle);
        commands.push(DriverCommand::IncRefs(handle));
        commands.push(
            DriverCommand::RequestDeathNotification(BinderHandleCookie { handle, cookie }),
        );
        device.set_weak_entry(handle, (1, cookie));
        proof {
            assert(device@ =~= before.weak_taken(handle).0);
            assert(commands@ =~= before.weak_taken(handle).1);
        }
        (WeakBinderRef { id: handle, cookie }, commands)
    }

    /// One more share of the same reference.
    pub fn share(&self, device: &mut BinderDevice) -> (r: WeakBinderRef)
        requires
            old(device)@.wf(),
            0 < old(device)@.weak(self.id) < u64::MAX,
        ensures
            r == *self,
            final(device)@ == old(device)@.weak_taken(self.id).0,
            final(device)@.wf(),
    {
        proof {
            old(device)@.lemma_weak_taken_wf(self.id);
        }
        if let Some((count, cookie)) = device.weak_entry(self.id) {
            device.set_weak_entry(self.id, (count + 1, cookie));
        }
        assert(device@ =~= old(device)@.weak_taken(self.id).0);
        WeakBinderRef { id: self.id, cookie: self.cookie }
    }

    /// Gives the share up. With the last one the driver is told. A strong reference holds one
    /// share of its own, which only goes with it.
    pub fn release(self, device: &mut BinderDevice) -> (r: Vec<DriverCommand>)
        requires
            old(device)@.wf(),
            old(device)@.weak(self.id) > 0,
            old(device)@.strong(self.id) > 0 ==> old(device)@.weak(self.id) > 1,
        ensures
            r@ == old(device)@.weak_dropped(self.id).1,
            final(device)@ == old(device)@.weak_dropped(self.id).0,
            final(device)@.wf(),
    {
        let ghost before = device@;
        let mut commands: Vec<DriverCommand> = Vec::new();
        if let Some((count, cookie)) = device.weak_entry(self.id) {
            device.set_weak_entry(self.id, (count - 1, cookie));
            if count == 1 {
                commands.push(DriverCommand::DecRefs(self.id));
            }
        }
        proof {
            assert(device@ =~= before.weak_dropped(self.id).0);
            assert(commands@ =~= before.weak_dropped(self.id).1);
            before.lemma_weak_dropped_wf(self.id);
        }
        commands
    }

    pub fn get_flat_binder_object(&self) -> (r: FlatBinderObject)
        ensures
            r == flat_object(BinderType::WEAK_HANDLE, widened(self.id), 0),
    {
        make_flat_object(BinderType::WEAK_HANDLE, widen(self.id), 0)
    }
}

impl TransactionTarget for WeakBinderRef {
    open spec fn target(&self) -> TransactionTargetHandle {
        TransactionTargetHandle::Remote(self.id)
    }

    fn get_transaction_target_handle(&self) -> (r: TransactionTargetHandle)
        ensures
            r == TransactionTargetHandle::Remote(self.id),
    {
        TransactionTargetHandle::Remote(self.handle())
    }
}

impl BinderRef {
    /// A share of the weak reference that the strong one holds.
    pub fn downgrade(&self, device: &mut BinderDevice) -> (r: WeakBinderRef)
        requires
            old(device)@.wf(),
            0 < old(device)@.weak(self.weak.id) < u64::MAX,
        ensures
            r == self.weak,
            final(device)@ == old(device)@.weak_taken(self.weak.id).0,
            final(device)@.wf(),
    {
        self.weak.share(device)
    }

    pub fn handle(&self) -> (r: u32)
        ensures
            r == self.weak.id,
    {
        self.weak.handle()
    }

    /// A share of the strong reference to a handle that was received. If it is the first one,
    /// the driver is told.
    pub fn get_and_dedup_from_raw(device: &mut BinderDevice, handle: u32) -> (r: (
        BinderRef,
        Vec<DriverCommand>,
    ))
        requires
            old(device)@.wf(),
            old(device)@.strong(handle) < u64::MAX,
            old(device)@.weak(handle) < u64::MAX,
        ensures
            r.0 == (BinderRef {
                weak: WeakBinderRef { id: handle, cookie: old(device)@.strong_taken(handle).2 },
            }),
            r.1@ == old(device)@.strong_taken(handle).1,
            final(device)@ == old(device)@.strong_taken(handle).0,
            final(device)@.wf(),
    {
        let ghost before = device@;
        proof {
            before.lemma_strong_taken_wf(handle);
        }
        if let Some((count, cookie)) = device.strong_entry(handle) {
            if count > 0 {
                device.set_strong_entry(handle, (count + 1, cookie));
                assert(device@ =~= before.strong_taken(handle).0);
                return (BinderRef { weak: WeakBinderRef { id: handle, cookie } }, Vec::new());
            }
        }
        let (weak, mut commands) = WeakBinderRef::get_and_dedup_from_raw(device, handle);
        commands.push(DriverCommand::Acquire(handle));
        let cookie: u64 = weak.cookie;
        device.set_strong_entry(handle, (1, cookie));
        proof {
            assert(device@ =~= before.strong_taken(handle).0);
        }
        (BinderRef { weak }, commands)
    }

    /// One more share of the same reference.
    pub fn share(&self, device: &mut BinderDevice) -> (r: BinderRef)
        requires
            old(device)@.wf(),
            0 < old(device)@.strong(self.weak.id) < u64::MAX,
        ensures
            r == *self,
            final(device)@ == old(device)@.strong_taken(self.weak.id).0,
            final(device)@.wf(),
    {
        proof {
            old(device)@.lemma_strong_taken_wf(self.weak.id);
        }
        if let Some((count, cookie)) = device.strong_entry(self.weak.id) {
            device.set_strong_entry(self.weak.id, (count + 1, cookie));
        }
        assert(device@ =~= old(device)@.strong_taken(self.weak.id).0);
        BinderRef { weak: WeakBinderRef { id: self.weak.id, cookie: self.weak.cookie } }
    }

    /// Gives the share up. With the last one the driver is told, and the share of the weak
    /// reference that it held goes too.
    pub fn release(self, device: &mut BinderDevice) -> (r: Vec<DriverCommand>)
        requires
            old(device)@.wf(),
            old(device)@.strong(self.weak.id) > 0,
        ensures
            r@ == old(device)@.strong_dropped(self.weak.id).1,
            final(device)@ == old(device)@.strong_dropped(self.weak.id).0,
            final(device)@.wf(),
    {
        let ghost before = device@;
        let handle: u32 = self.weak.id;
        let mut commands: Vec<DriverCommand> = Vec::new();
        proof {
            before.lemma_strong_dropped_wf(handle);
        }
        if let Some((count, cookie)) = device.strong_entry(handle) {
            device.set_strong_entry(handle, (count - 1, cookie));
            if count == 1 {
                commands.push(DriverCommand::Release(handle));
                proof {
                    assert(device@ =~= DeviceView {
                        refs: before.refs.insert(handle as u64, (0, cookie)),
                        ..before
                    });
                    before.lemma_last_strong_wf(handle);
                }
                let mut last: Vec<DriverCommand> = self.weak.release(device);
                commands.append(&mut last);
            }
        }
        proof {
            assert(device@ =~= before.strong_dropped(handle).0);
            assert(commands@ =~= before.strong_dropped(handle).1);
        }
        commands
    }

    pub fn get_flat_binder_object(&self) -> (r: FlatBinderObject)
        ensures
            r == flat_object(BinderType::HANDLE, widened(self.weak.id), 0),
    {
        make_flat_object(BinderType::HANDLE, widen(self.weak.id), 0)
    }
}

impl TransactionTarget for BinderRef {
    open spec fn target(&self) -> TransactionTargetHandle {
        TransactionTargetHandle::Remote(self.weak.id)
    }

    fn get_transaction_target_handle(&self) -> (r: TransactionTargetHandle)
        ensures
            r == TransactionTargetHandle::Remote(self.weak.id),
    {
        TransactionTargetHandle::Remote(self.handle())
    }
}

/// A local object of unknown type.
#[derive(Debug, Clone, Copy, PartialEq, Eq, Structural)]
pub struct UntypedBinderObject(pub BinderObjectId);

impl TransactionTarget for UntypedBinderObject {
    open spec fn target(&self) -> TransactionTargetHandle {
        TransactionTargetHandle::Local(self.0)
    }

    fn get_transaction_target_handle(&self) -> (r: TransactionTargetHandle)
        ensures
            r == TransactionTargetHandle::Local(self.0),
    {
        TransactionTargetHandle::Local(self.0)
    }
}

impl UntypedBinderObject {
    pub fn get_flat_binder_object(&self) -> (r: FlatBinderObject)
        ensures
            r == flat_object(BinderType::BINDER, self.0.id, self.0.cookie),
    {
        make_flat_object(BinderType::BINDER, self.0.id, self.0.cookie)
    }
}

/// A local object, with its handler and the number of strong references to it that the
/// driver has reported.
#[derive(Debug)]
pub struct BinderObject<H> {
    pub id: BinderObjectId,
    pub strong_count: u32,
    pub handler: H,
}

impl<H> BinderObject<H> {
    pub fn new(id: u64, handler: H) -> (r: Self)
        ensures
            r == (BinderObject { id: BinderObjectId { id, cookie: 0 }, strong_count: 0, handler }),
    {
        BinderObject { id: BinderObjectId { id, cookie: 0 }, strong_count: 0, handler }
    }

    pub fn id(&self) -> (r: &BinderObjectId)
        ensures
            *r == self.id,
    {
        &self.id
    }

    pub fn handler(&self) -> (r: &H)
        ensures
            *r == self.handler,
    {
        &self.handler
    }

    pub fn strong_increase(&mut self)
        ensures
            final(self).strong_count == drawn32(old(self).strong_count),
            final(self).id == old(self).id,
            final(self).handler == old(self).handler,
    {
        self.strong_count = self.strong_count.wrapping_add(1);
    }

    /// There is one strong reference less. The result says whether it was the last one, so
    /// that those who wait for this have to be woken.
    pub fn strong_decrease(&mut self) -> (r: bool)
        requires
            old(self).strong_count > 0,
        ensures
            final(self).strong_count == old(self).strong_count - 1,
            final(self).id == old(self).id,
            final(self).handler == old(self).handler,
            r == (final(self).strong_count == 0),
    {
        self.strong_count = self.strong_count - 1;
        self.strong_count == 0
    }

    pub fn get_flat_binder_object(&self) -> (r: FlatBinderObject)
        ensures
            r == flat_object(BinderType::BINDER, self.id.id, self.id.cookie),
    {
        make_flat_object(BinderType::BINDER, self.id.id, self.id.cookie)
    }
}

/// A count after one more, counting modulo its size.
pub open spec fn drawn32(count: u32) -> u32 {
    if count == u32::MAX {
        0
    } else {
        (count + 1) as u32
    }
}

impl<H> TransactionTarget for BinderObject<H> {
    open spec fn target(&self) -> TransactionTargetHandle {
        TransactionTargetHandle::Local(self.id)
    }

    fn get_transaction_target_handle(&self) -> (r: TransactionTargetHandle)
        ensures
            r == TransactionTargetHandle::Local(self.id),
    {
        TransactionTargetHandle::Local(*self.id())
    }
}

/// A weak reference of another process to a local object, come back to this process.
#[derive(Debug, Clone, Copy, PartialEq, Eq, Structural)]
pub struct WeakBinderObject {
    pub id: BinderObjectId,
}

impl WeakBinderObject {
    pub fn id(&self) -> (r: &BinderObjectId)
        ensures
            *r == self.id,
    {
        &self.id
    }

    pub fn from_id(id: BinderObjectId) -> (r: Self)
        ensures
            r.id == id,
    {
        WeakBinderObject { id }
    }

    pub fn get_flat_binder_object(&self) -> (r: FlatBinderObject)
        ensures
            r == flat_object(BinderType::WEAK_BINDER, self.id.id, self.id.cookie),
    {
        make_flat_object(BinderType::WEAK_BINDER, self.id.id, self.id.cookie)
    }
}

impl TransactionTarget for WeakBinderObject {
    open spec fn target(&self) -> TransactionTargetHandle {
        TransactionTargetHandle::Local(self.id)
    }

    fn get_transaction_target_handle(&self) -> (r: TransactionTargetHandle)
        ensures
            r == TransactionTargetHandle::Local(self.id),
    {
        TransactionTargetHandle::Local(*self.id())
    }
}

/// The context manager: a local object of this number, or, if the number is zero, the
/// object behind handle zero.
#[derive(Debug, Clone, Copy, PartialEq, Eq, Structural)]
pub struct ContextManagerBinderRef(pub u64);

impl TransactionTarget for ContextManagerBinderRef {
    open spec fn target(&self) -> TransactionTargetHandle {
        if self.0 != 0 {
            TransactionTargetHandle::Local(BinderObjectId { id: self.0, cookie: 0 })
        } else {
            TransactionTargetHandle::Remote(0)
        }
    }

    fn get_transaction_target_handle(&self) -> (r: TransactionTargetHandle)
        ensures
            self.0 != 0 ==> r == TransactionTargetHandle::Local(
                BinderObjectId { id: self.0, cookie: 0 },
            ),
            self.0 == 0 ==> r == TransactionTargetHandle::Remote(0),
    {
        let id: u64 = self.0;
        if id != 0 {
            TransactionTargetHandle::Local(BinderObjectId { id, cookie: 0 })
        } else {
            TransactionTargetHandle::Remote(0)
        }
    }
}

/// What a payload can carry in place of an object.
#[derive(Debug, PartialEq, Eq, Structural)]
pub enum BinderObjectOrRef {
    Object(UntypedBinderObject),
    WeakObject(WeakBinderObject),
    Ref(BinderRef),
    WeakRef(WeakBinderRef),
}

impl BinderObjectOrRef {
    /// The object that stands for it in a payload.
    pub open spec fn flat(self) -> FlatBinderObject {
        match self {
            BinderObjectOrRef::Object(p) => flat_object(BinderType::BINDER, p.0.id, p.0.cookie),
            BinderObjectOrRef::WeakObject(p) => flat_object(
                BinderType::WEAK_BINDER,
                p.id.id,
                p.id.cookie,
            ),
            BinderObjectOrRef::Ref(p) => flat_object(BinderType::HANDLE, widened(p.weak.id), 0),
            BinderObjectOrRef::WeakRef(p) => flat_object(BinderType::WEAK_HANDLE, widened(p.id), 0),
        }
    }

    pub fn get_flat_binder_object(&self) -> (r: FlatBinderObject)
        ensures
            r == self.flat(),
    {
        match self {
            BinderObjectOrRef::Object(p) => p.get_flat_binder_object(),
            BinderObjectOrRef::Ref(p) => p.get_flat_binder_object(),
            BinderObjectOrRef::WeakRef(p) => p.get_flat_binder_object(),
            BinderObjectOrRef::WeakObject(p) => p.get_flat_binder_object(),
        }
    }

    /// True for an object of this process; for a reference, whether its object is alive.
    pub fn alive(&self, device: &BinderDevice) -> (r: bool)
        ensures
            r == (match *self {
                BinderObjectOrRef::Object(_) => true,
                BinderObjectOrRef::WeakObject(_) => true,
                BinderObjectOrRef::Ref(p) => device@.alive(p.weak.cookie),
                BinderObjectOrRef::WeakRef(p) => device@.alive(p.cookie),
            }),
    {
        match self {
            BinderObjectOrRef::Object(_) => true,
            BinderObjectOrRef::WeakObject(_) => true,
            BinderObjectOrRef::Ref(p) => p.weak.alive(device),
            BinderObjectOrRef::WeakRef(p) => p.alive(device),
        }
    }
}

impl TransactionTarget for BinderObjectOrRef {
    open spec fn target(&self) -> TransactionTargetHandle {
        match *self {
            BinderObjectOrRef::Object(v) => TransactionTargetHandle::Local(v.0),
            BinderObjectOrRef::WeakObject(v) => TransactionTargetHandle::Local(v.id),
            BinderObjectOrRef::Ref(v) => TransactionTargetHandle::Remote(v.weak.id),
            BinderObjectOrRef::WeakRef(v) => TransactionTargetHandle::Remote(v.id),
        }
    }

    fn get_transaction_target_handle(&self) -> (r: TransactionTargetHandle) {
        match self {
            BinderObjectOrRef::Object(v) => v.get_transaction_target_handle(),
            BinderObjectOrRef::WeakObject(v) => v.get_transaction_target_handle(),
            BinderObjectOrRef::Ref(v) => v.get_transaction_target_handle(),
            BinderObjectOrRef::WeakRef(v) => v.get_transaction_target_handle(),
        }
    }
}

/// Something that can be put into a payload. A reference is put there by one more share of it.
pub trait ToBinderObjectOrRef {
    /// What goes into the payload.
    spec fn object_or_ref(&self) -> BinderObjectOrRef;

    fn to_binder_object_or_ref(&self, device: &mut BinderDevice) -> (r: BinderObjectOrRef)
        requires
            old(device)@.wf(),
            self.object_or_ref().can_share(old(device)@),
        ensures
            r == self.object_or_ref(),
            final(device)@ == self.object_or_ref().shared(old(device)@),
            final(device)@.wf(),
    ;
}

impl BinderObjectOrRef {
    /// Whether one more share can be counted.
    pub open spec fn can_share(self, d: DeviceView) -> bool {
        match self {
            BinderObjectOrRef::Object(_) => true,
            BinderObjectOrRef::WeakObject(_) => true,
            BinderObjectOrRef::Ref(v) => 0 < d.strong(v.weak.id) < u64::MAX,
            BinderObjectOrRef::WeakRef(v) => 0 < d.weak(v.id) < u64::MAX,
        }
    }

    /// The device after one more share was made.
    pub open spec fn shared(self, d: DeviceView) -> DeviceView {
        match self {
            BinderObjectOrRef::Object(_) => d,
            BinderObjectOrRef::WeakObject(_) => d,
            BinderObjectOrRef::Ref(v) => d.strong_taken(v.weak.id).0,
            BinderObjectOrRef::WeakRef(v) => d.weak_taken(v.id).0,
        }
    }
}

impl<H> ToBinderObjectOrRef for BinderObject<H> {
    open spec fn object_or_ref(&self) -> BinderObjectOrRef {
        BinderObjectOrRef::Object(UntypedBinderObject(self.id))
    }

    fn to_binder_object_or_ref(&self, device: &mut BinderDevice) -> (r: BinderObjectOrRef) {
        BinderObjectOrRef::Object(UntypedBinderObject(self.id))
    }
}

impl ToBinderObjectOrRef for WeakBinderObject {
    open spec fn object_or_ref(&self) -> BinderObjectOrRef {
        BinderObjectOrRef::WeakObject(*self)
    }

    fn to_binder_object_or_ref(&self, device: &mut BinderDevice) -> (r: BinderObjectOrRef) {
        BinderObjectOrRef::WeakObject(WeakBinderObject { id: self.id })
    }
}

impl ToBinderObjectOrRef for BinderRef {
    open spec fn object_or_ref(&self) -> BinderObjectOrRef {
        BinderObjectOrRef::Ref(*self)
    }

    fn to_binder_object_or_ref(&self, device: &mut BinderDevice) -> (r: BinderObjectOrRef) {
        BinderObjectOrRef::Ref(self.share(device))
    }
}

impl ToBinderObjectOrRef for WeakBinderRef {
    open spec fn object_or_ref(&self) -> BinderObjectOrRef {
        BinderObjectOrRef::WeakRef(*self)
    }

    fn to_binder_object_or_ref(&self, device: &mut BinderDevice) -> (r: BinderObjectOrRef) {
        BinderObjectOrRef::WeakRef(self.share(device))
    }
}

impl ToBinderObjectOrRef for UntypedBinderObject {
    open spec fn object_or_ref(&self) -> BinderObjectOrRef {
        BinderObjectOrRef::Object(*self)
    }

    fn to_binder_object_or_ref(&self, device: &mut BinderDevice) -> (r: BinderObjectOrRef) {
        BinderObjectOrRef::Object(*self)
    }
}

impl ToBinderObjectOrRef for BinderObjectOrRef {
    open spec fn object_or_ref(&self) -> BinderObjectOrRef {
        *self
    }

    fn to_binder_object_or_ref(&self, device: &mut BinderDevice) -> (r: BinderObjectOrRef) {
        match self {
            BinderObjectOrRef::Object(v) => v.to_binder_object_or_ref(device),
            BinderObjectOrRef::WeakObject(v) => v.to_binder_object_or_ref(device),
            BinderObjectOrRef::Ref(v) => v.to_binder_object_or_ref(device),
            BinderObjectOrRef::WeakRef(v) => v.to_binder_object_or_ref(device),
        }
    }
}

impl DeviceView {
    pub(crate) proof fn lemma_weak_taken_wf(self, handle: u32)
        requires
            self.wf(),
            self.weak(handle) < u64::MAX,
        ensures
            self.weak_taken(handle).0.wf(),
    {
        let e = self.weak_taken(handle).0;
        assert forall|h: u32| #[trigger] e.strong(h) > 0 implies e.weak(h) > 0 && e.refs[h as u64].1
            == e.weak_refs[h as u64].1 by {
            assert(self.strong(h) > 0);
        }
    }

    pub(crate) proof fn lemma_strong_taken_wf(self, handle: u32)
        requires
            self.wf(),
            self.strong(handle) < u64::MAX,
            self.strong(handle) == 0 ==> self.weak(handle) < u64::MAX,
        ensures
            self.strong_taken(handle).0.wf(),
    {
        let e = self.strong_taken(handle).0;
        if self.strong(handle) == 0 {
            self.lemma_weak_taken_wf(handle);
        }
        assert forall|h: u32| #[trigger] e.strong(h) > 0 implies e.weak(h) > 0 && e.refs[h as u64].1
            == e.weak_refs[h as u64].1 by {
            if h != handle {
                assert(self.strong(h) > 0);
            } else if self.strong(handle) > 0 {
                assert(self.strong(h) > 0);
            }
        }
    }

    pub(crate) proof fn lemma_weak_dropped_wf(self, handle: u32)
        requires
            self.wf(),
            self.weak(handle) > 0,
            self.strong(handle) > 0 ==> self.weak(handle) > 1,
        ensures
            self.weak_dropped(handle).0.wf(),
    {
        let e = self.weak_dropped(handle).0;
        assert forall|h: u32| #[trigger] e.strong(h) > 0 implies e.weak(h) > 0 && e.refs[h as u64].1
            == e.weak_refs[h as u64].1 by {
            assert(self.strong(h) > 0);
        }
    }

    pub(crate) proof fn lemma_last_strong_wf(self, handle: u32)
        requires
            self.wf(),
            self.strong(handle) == 1,
        ensures
            ({
                let d = DeviceView {
                    refs: self.refs.insert(handle as u64, (0, self.refs[handle as u64].1)),
                    ..self
                };
                d.wf() && d.strong(handle) == 0 && d.weak(handle) == self.weak(handle)
            }),
    {
        let d = DeviceView {
            refs: self.refs.insert(handle as u64, (0, self.refs[handle as u64].1)),
            ..self
        };
        assert forall|h: u32| #[trigger] d.strong(h) > 0 implies d.weak(h) > 0 && d.refs[h as u64].1
            == d.weak_refs[h as u64].1 by {
            assert(self.strong(h) > 0);
        }
    }

    pub(crate) proof fn lemma_strong_dropped_wf(self, handle: u32)
        requires
            self.wf(),
            self.strong(handle) > 0,
        ensures
            self.strong_dropped(handle).0.wf(),
    {
        let e = self.strong_dropped(handle).0;
        if self.strong(handle) == 1 {
            self.lemma_last_strong_wf(handle);
            let d = DeviceView {
                refs: self.refs.insert(handle as u64, (0, self.refs[handle as u64].1)),
                ..self
            };
            assert(self.strong(handle) > 0);
            d.lemma_weak_dropped_wf(handle);
        } else {
            assert forall|h: u32| #[trigger] e.strong(h) > 0 implies e.weak(h) > 0
                && e.refs[h as u64].1 == e.weak_refs[h as u64].1 by {
                assert(self.strong(h) > 0);
            }
        }
    }
}

/// How many strong references to a handle a run of commands takes, less those it drops.
pub open spec fn strong_net(commands: Seq<DriverCommand>, handle: u32) -> int
    decreases commands.len(),
{
    if commands.len() == 0 {
        0
    } else {
        let c = commands.last();
        strong_net(commands.drop_last(), handle) + (if c == DriverCommand::Acquire(handle) {
            1int
        } else if c == DriverCommand::Release(handle) {
            -1int
        } else {
            0
        })
    }
}

/// How many weak references to a handle a run of commands takes, less those it drops.
pub open spec fn weak_net(commands: Seq<DriverCommand>, handle: u32) -> int
    decreases commands.len(),
{
    if commands.len() == 0 {
        0
    } else {
        let c = commands.last();
        weak_net(commands.drop_last(), handle) + (if c == DriverCommand::IncRefs(handle) {
            1int
        } else if c == DriverCommand::DecRefs(handle) {
            -1int
        } else {
            0
        })
    }
}

/// One if there is a share, however many there are.
pub open spec fn one_if_any(shares: u64) -> int {
    if shares > 0 {
        1
    } else {
        0
    }
}

/// Whether a run of commands keeps the driver in step with the shares: for every handle the
/// driver is told of one reference when there come to be shares of it and of none when there
/// are no more.
pub open spec fn in_step(d: DeviceView, e: DeviceView, commands: Seq<DriverCommand>) -> bool {
    forall|h: u32|
        #![trigger e.strong(h)]
        #![trigger e.weak(h)]
        strong_net(commands, h) == one_if_any(e.strong(h)) - one_if_any(d.strong(h)) && weak_net(
            commands,
            h,
        ) == one_if_any(e.weak(h)) - one_if_any(d.weak(h))
}

/// Taking a share keeps the driver in step.
pub proof fn taking_keeps_driver_in_step(d: DeviceView, handle: u32)
    requires
        d.wf(),
        d.weak(handle) < u64::MAX,
    ensures
        in_step(d, d.weak_taken(handle).0, d.weak_taken(handle).1),
        d.strong(handle) < u64::MAX ==> in_step(
            d,
            d.strong_taken(handle).0,
            d.strong_taken(handle).1,
        ),
{
    reveal_with_fuel(strong_net, 4);
    reveal_with_fuel(weak_net, 4);
    let cookie = d.death_counter;
    let first = seq![
        DriverCommand::IncRefs(handle),
        DriverCommand::RequestDeathNotification(BinderHandleCookie { handle, cookie }),
    ];
    assert(first.drop_last() =~= seq![DriverCommand::IncRefs(handle)]);
    assert(first.drop_last().drop_last() =~= Seq::empty());
    assert(first.push(DriverCommand::Acquire(handle)).drop_last() =~= first);
    let only = Seq::<DriverCommand>::empty().push(DriverCommand::Acquire(handle));
    assert(only.drop_last() =~= Seq::empty());
}

/// Giving a share up keeps the driver in step.
pub proof fn dropping_keeps_driver_in_step(d: DeviceView, handle: u32)
    requires
        d.wf(),
    ensures
        d.weak(handle) > 0 ==> in_step(d, d.weak_dropped(handle).0, d.weak_dropped(handle).1),
        d.strong(handle) > 0 ==> in_step(d, d.strong_dropped(handle).0, d.strong_dropped(handle).1),
{
    reveal_with_fuel(strong_net, 3);
    reveal_with_fuel(weak_net, 3);
    let last = seq![DriverCommand::DecRefs(handle)];
    assert(last.drop_last() =~= Seq::empty());
    let release = seq![DriverCommand::Release(handle)];
    assert(release.drop_last() =~= Seq::empty());
    assert((release + last).drop_last() =~= release);
    assert((release + last).last() == DriverCommand::DecRefs(handle));
    assert(release + Seq::<DriverCommand>::empty() =~= release);
    if d.strong(handle) > 0 {
        assert(d.weak(handle) > 0);
    }
}

/// A handle that is received while there are shares of its reference is deduplicated: it gets
/// the cookie that the others have, and the driver is told nothing.
pub proof fn received_handle_is_shared(d: DeviceView, handle: u32)
    requires
        d.strong(handle) > 0,
    ensures
        d.strong_taken(handle).1 == Seq::<DriverCommand>::empty(),
        d.strong_taken(handle).2 == d.refs[handle as u64].1,
        d.strong_taken(handle).0.death_notifications == d.death_notifications,
{
}

/// The first share of a weak reference gets a cookie that was never drawn since the device was
/// made, until the counter comes round: nobody waits for its death and no handle has it. The
/// driver is told of the reference and then of the cookie. Another share gets the same cookie,
/// and the driver is told nothing.
pub proof fn first_share_draws_a_fresh_cookie(d: DeviceView, handle: u32)
    requires
        d.wf(),
        d.weak(handle) == 0,
        d.cookies < u64::MAX,
    ensures
        ({
            let (e, told, cookie) = d.weak_taken(handle);
            let (f, again, other) = e.weak_taken(handle);
            &&& cookie == d.cookies + 1
            &&& !d.death_notifications.dom().contains(cookie)
            &&& forall|h: u64| #[trigger] d.refs.dom().contains(h) ==> d.refs[h].1 != cookie
            &&& forall|h: u64| #[trigger]
                d.weak_refs.dom().contains(h) ==> d.weak_refs[h].1 != cookie
            &&& told == seq![
                DriverCommand::IncRefs(handle),
                DriverCommand::RequestDeathNotification(BinderHandleCookie { handle, cookie }),
            ]
            &&& e.death_notifications == d.death_notifications.insert(cookie, (handle as u64, 0))
            &&& e.weak(handle) == 1
            &&& other == cookie
            &&& again == Seq::<DriverCommand>::empty()
            &&& f.death_notifications == e.death_notifications
            &&& f.weak(handle) == 2
        }),
{
}

/// Taking one more share and giving it up again changes nothing, and the driver is told
/// nothing.
pub proof fn shared_and_released(d: DeviceView, handle: u32)
    requires
        d.wf(),
        0 < d.strong(handle) < u64::MAX,
    ensures
        d.strong_taken(handle).0.strong_dropped(handle) == (d, Seq::<DriverCommand>::empty()),
{
    assert(d.strong_taken(handle).0.strong_dropped(handle).0 =~= d);
}

/// The first share of a reference, given up again, leaves no share, and what the driver was
/// told of strong references is undone.
pub proof fn first_share_released(d: DeviceView, handle: u32)
    requires
        d.wf(),
        d.strong(handle) == 0,
        d.weak(handle) < u64::MAX,
    ensures
        ({
            let (e, taken, _) = d.strong_taken(handle);
            let (f, dropped) = e.strong_dropped(handle);
            &&& f.strong(handle) == 0
            &&& f.weak(handle) == d.weak(handle)
            &&& taken.last() == DriverCommand::Acquire(handle)
            &&& dropped[0] == DriverCommand::Release(handle)
            &&& dropped.len() == 2 <==> d.weak(handle) == 0
        }),
{
}

/// Dying is for good: a share that was taken for a cookie is alive until its death is
/// reported, and not after that, until the counter comes round.
pub proof fn death_is_final(d: DeviceView, handle: u32)
    ensures
        d.weak(handle) == 0 ==> d.weak_taken(handle).0.alive(d.weak_taken(handle).2),
        forall|cookie: u64|
            (DeviceView {
                death_notifications: d.death_notifications.remove(cookie),
                ..d
            }).alive(cookie) == false,
        forall|cookie: u64|
            cookie != d.death_counter && !d.alive(cookie) ==> !(#[trigger] d.weak_taken(
                handle,
            ).0.alive(cookie)),
{
}

/// Where a transaction goes is said by the fields of what it is sent to: to the object itself,
/// if it is one of this process, and to the handle, if it is a reference.
pub proof fn targets_go_by_fields<H>(
    object: BinderObject<H>,
    untyped: UntypedBinderObject,
    weak_object: WeakBinderObject,
    strong: BinderRef,
    weak: WeakBinderRef,
    manager: ContextManagerBinderRef,
)
    ensures
        object.target() == TransactionTargetHandle::Local(object.id),
        untyped.target() == TransactionTargetHandle::Local(untyped.0),
        weak_object.target() == TransactionTargetHandle::Local(weak_object.id),
        strong.target() == TransactionTargetHandle::Remote(strong.weak.id),
        weak.target() == TransactionTargetHandle::Remote(weak.id),
        manager.target() is Remote <==> manager.0 == 0,
        manager.target() matches TransactionTargetHandle::Remote(handle) ==> handle == 0,
        manager.target() matches TransactionTargetHandle::Local(id) ==> id.id == manager.0
            && id.cookie == 0,
        BinderObjectOrRef::Object(untyped).target() == untyped.target(),
        BinderObjectOrRef::WeakObject(weak_object).target() == weak_object.target(),
        BinderObjectOrRef::Ref(strong).target() == strong.target(),
        BinderObjectOrRef::WeakRef(weak).target() == weak.target(),
{
}

/// What goes into a payload is sent to like what it was made from, and it is the same object
/// or reference: a typed object goes as an untyped one with its identity, everything else goes
/// as it is.
pub proof fn ports_keep_their_target<H>(
    object: BinderObject<H>,
    untyped: UntypedBinderObject,
    weak_object: WeakBinderObject,
    strong: BinderRef,
    weak: WeakBinderRef,
    port: BinderObjectOrRef,
)
    ensures
        object.object_or_ref() == BinderObjectOrRef::Object(UntypedBinderObject(object.id)),
        untyped.object_or_ref() == BinderObjectOrRef::Object(untyped),
        weak_object.object_or_ref() == BinderObjectOrRef::WeakObject(weak_object),
        strong.object_or_ref() == BinderObjectOrRef::Ref(strong),
        weak.object_or_ref() == BinderObjectOrRef::WeakRef(weak),
        port.object_or_ref() == port,
        object.object_or_ref().target() == object.target(),
        untyped.object_or_ref().target() == untyped.target(),
        weak_object.object_or_ref().target() == weak_object.target(),
        strong.object_or_ref().target() == strong.target(),
        weak.object_or_ref().target() == weak.target(),
        port.object_or_ref().target() == port.target(),
{
}

/// An object in a payload accepts open files, whatever port it stands for. Its type says which
/// of the four kinds it is, and its data which object or handle: the identity of a local one
/// takes both words, and a handle the first half of the first.
pub proof fn ports_in_memory(port: BinderObjectOrRef)
    ensures
        ({
            let bytes = port.flat().bytes();
            &&& bytes.len() == 24
            &&& u32_at(bytes, 4) == 0x100
            &&& port.flat().flags.0 & FlatBinderFlags::ACCEPTS_FDS != 0
            &&& match port {
                BinderObjectOrRef::Object(v) => u32_at(bytes, 0) == 0x7362_2a85 && u64_at(bytes, 8)
                    == v.0.id && u64_at(bytes, 16) == v.0.cookie,
                BinderObjectOrRef::WeakObject(v) => u32_at(bytes, 0) == 0x7762_2a85 && u64_at(
                    bytes,
                    8,
                ) == v.id.id && u64_at(bytes, 16) == v.id.cookie,
                BinderObjectOrRef::Ref(v) => u32_at(bytes, 0) == 0x7368_2a85 && u32_at(bytes, 8)
                    == v.weak.id && u32_at(bytes, 12) == 0 && u64_at(bytes, 16) == 0,
                BinderObjectOrRef::WeakRef(v) => u32_at(bytes, 0) == 0x7768_2a85 && u32_at(bytes, 8)
                    == v.id && u32_at(bytes, 12) == 0 && u64_at(bytes, 16) == 0,
            }
        }),
{
    broadcast use ne32_facts, ne64_facts;

    let flat = port.flat();
    let bytes = flat.bytes();
    flat.words_in_memory();
    assert(0x100u32 & 0x100u32 != 0) by (bit_vector);
    match port {
        BinderObjectOrRef::Ref(v) => lemma_handle_in_memory(flat, v.weak.id),
        BinderObjectOrRef::WeakRef(v) => lemma_handle_in_memory(flat, v.id),
        _ => {},
    }
}

proof fn lemma_handle_in_memory(flat: FlatBinderObject, handle: u32)
    requires
        flat.data.word == widened(handle),
    ensures
        u32_at(flat.bytes(), 8) == handle,
        u32_at(flat.bytes(), 12) == 0,
{
    broadcast use ne32_facts, ne64_facts;

    let s = ne32(handle) + ne32(0);
    let bytes = flat.bytes();
    u64_at_bytes(s, 0);
    assert(s.subrange(0, 8) =~= s);
    assert(bytes.subrange(8, 12) =~= ne32(handle));
    assert(bytes.subrange(12, 16) =~= ne32(0));
}

/// Whoever made an object or a reference flat, it comes to the same object in a payload.
pub proof fn flat_objects_agree<H>(object: BinderObject<H>)
    ensures
        flat_object(BinderType::BINDER, object.id.id, object.id.cookie)
            == object.object_or_ref().flat(),
{
}

/// A share is counted for its own handle and no other, and each share once: a weak one as a
/// weak one, a strong one as a strong one, and with the first strong one goes a weak one. The
/// other tables stay.
pub proof fn taking_counts_one_share(d: DeviceView, handle: u32, other: u32)
    requires
        d.wf(),
        d.weak(handle) < u64::MAX,
        d.strong(handle) < u64::MAX,
    ensures
        ({
            let (e, _, cookie) = d.weak_taken(handle);
            &&& e.weak(other) == d.weak(other) + (if other == handle {
                1int
            } else {
                0
            })
            &&& e.weak_refs[handle as u64].1 == cookie
            &&& d.weak(handle) > 0 ==> cookie == d.weak_refs[handle as u64].1
            &&& e.strong(other) == d.strong(other)
            &&& e.same_objects(d)
        }),
        ({
            let (e, _, cookie) = d.strong_taken(handle);
            &&& e.strong(other) == d.strong(other) + (if other == handle {
                1int
            } else {
                0
            })
            &&& e.weak(other) == d.weak(other) + (if other == handle && d.strong(handle) == 0 {
                1int
            } else {
                0
            })
            &&& e.refs[handle as u64].1 == cookie
            &&& d.strong(handle) > 0 ==> cookie == d.refs[handle as u64].1
            &&& e.same_objects(d)
        }),
{
}

/// A share that is given up was counted for its own handle and no other: what was counted when
/// it was taken is taken back. The other tables stay, and nobody stops waiting for a death.
pub proof fn dropping_counts_one_share(d: DeviceView, handle: u32, other: u32)
    requires
        d.wf(),
    ensures
        d.weak(handle) > 0 ==> {
            let (e, _) = d.weak_dropped(handle);
            &&& e.weak(other) == d.weak(other) - (if other == handle {
                1int
            } else {
                0
            })
            &&& e.strong(other) == d.strong(other)
            &&& e.same_objects(d)
            &&& e.death_notifications == d.death_notifications
        },
        d.strong(handle) > 0 ==> {
            let (e, _) = d.strong_dropped(handle);
            &&& e.strong(other) == d.strong(other) - (if other == handle {
                1int
            } else {
                0
            })
            &&& e.weak(other) == d.weak(other) - (if other == handle && d.strong(handle) == 1 {
                1int
            } else {
                0
            })
            &&& e.same_objects(d)
            &&& e.death_notifications == d.death_notifications
        },
{
    if d.strong(handle) > 0 {
        assert(d.weak(handle) > 0);
    }
}

/// What the driver is told when the first strong share of a handle is taken, and when the last
/// one is given up: with no weak share besides, that there is a weak reference, whose death is
/// awaited, and then a strong one; and in the end that both are gone, the strong one first.
pub proof fn driver_is_told_of_both_references(d: DeviceView, handle: u32)
    requires
        d.wf(),
    ensures
        d.weak(handle) == 0 ==> d.strong_taken(handle).1 == seq![
            DriverCommand::IncRefs(handle),
            DriverCommand::RequestDeathNotification(
                BinderHandleCookie { handle, cookie: d.death_counter },
            ),
            DriverCommand::Acquire(handle),
        ],
        d.strong(handle) == 0 && d.weak(handle) > 0 ==> d.strong_taken(handle).1 == seq![
            DriverCommand::Acquire(handle),
        ],
        d.strong(handle) == 1 && d.weak(handle) == 1 ==> d.strong_dropped(handle).1 == seq![
            DriverCommand::Release(handle),
            DriverCommand::DecRefs(handle),
        ],
        d.strong(handle) == 1 && d.weak(handle) > 1 ==> d.strong_dropped(handle).1 == seq![
            DriverCommand::Release(handle),
        ],
        d.strong(handle) > 1 ==> d.strong_dropped(handle).1.len() == 0,
        d.weak(handle) == 1 ==> d.weak_dropped(handle).1 == seq![DriverCommand::DecRefs(handle)],
        d.weak(handle) > 1 ==> d.weak_dropped(handle).1.len() == 0,
{
    if d.strong(handle) > 0 {
        assert(d.weak(handle) > 0);
    }
}

/// Counting modulo the size of a count.
pub proof fn counts_come_round(count: u32)
    ensures
        drawn32(count) == (count + 1) % 0x1_0000_0000,
{
}

} // verus!
