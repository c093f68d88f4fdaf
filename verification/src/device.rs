//! What a process keeps about one binder device.
//!
//! A [`BinderDevice`] holds the local objects and their reference counts, the services that
//! outlive their guards, the references to remote objects, and the deaths that the driver
//! was asked to report. All of it is reached through a mutable reference.
use crate::binder_object::{BinderObjectId, ContextManagerBinderRef};
use crate::error::Error;
use crate::refcount::ObjectRefState;
use crate::sys::{
    BinderObjectHeader, BinderType, FlatBinderFlags, FlatBinderObject, FlatBinderObjectData,
    SetContextMGR,
};
use crate::tables::{
    counts_get, counts_insert, counts_new, counts_remove, entries_get, entries_insert, entries_keys,
    entries_new, entries_remove, slots_get, slots_insert, slots_keys, slots_new, slots_remove,
    CountTable, HandleTable, IdTable,
};
use vstd::prelude::*;

verus! {

use crate::refcount::references_add_up;
use crate::tables::{counts, entries, slots};

/// How many loopers a device starts with.
pub const LOOPERS: usize = 5;

/// How many loopers more the driver may ask for.
pub const MAX_THREADS: u32 = 5;

/// How much room the driver is given for what it lends.
pub const BACKING_SIZE: usize = 1048576;

/// What a [`BinderDevice`] holds.
#[verifier::ext_equal]
pub struct DeviceView {
    /// For each local object, the slot of its handler.
    pub objects: Map<(u64, u64), u64>,
    /// For each local object, its reference counts.
    pub object_refcounts: Map<(u64, u64), ObjectRefState>,
    /// The objects that are kept for those who refer to them, with the slots of their handlers.
    pub retained_services: Map<(u64, u64), u64>,
    /// For each handle, how many shares of its strong reference there are, and the cookie of
    /// its weak reference.
    pub refs: Map<u64, (u64, u64)>,
    /// For each handle, how many shares of its weak reference there are, and its cookie.
    pub weak_refs: Map<u64, (u64, u64)>,
    /// For each cookie whose death was not reported yet, the handle that it is for.
    pub death_notifications: Map<u64, (u64, u64)>,
    pub object_id_counter: u64,
    pub death_counter: u64,
    /// The number of the local object that is the context manager, or zero.
    pub ctx_manager: u64,
    /// How many objects have been registered since the device was made.
    pub registrations: nat,
    /// How many cookies have been drawn since the device was made.
    pub cookies: nat,
}

/// The counter after one more number was drawn from it.
pub open spec fn drawn(counter: u64) -> u64 {
    if counter == u64::MAX {
        0
    } else {
        (counter + 1) as u64
    }
}

/// The identity of a local object as the tables have it.
pub open spec fn key_of(id: BinderObjectId) -> (u64, u64) {
    (id.id, id.cookie)
}

impl DeviceView {
    /// A device on which nothing has happened yet.
    pub open spec fn initial() -> Self {
        DeviceView {
            objects: Map::empty(),
            object_refcounts: Map::empty(),
            retained_services: Map::empty(),
            refs: Map::empty(),
            weak_refs: Map::empty(),
            death_notifications: Map::empty(),
            object_id_counter: 1,
            death_counter: 1,
            ctx_manager: 0,
            registrations: 0,
            cookies: 0,
        }
    }

    /// Every local object has counts and nothing else has, the counts hold together, and
    /// what is kept is an object.
    pub open spec fn objects_wf(self) -> bool {
        &&& self.object_refcounts.dom() == self.objects.dom()
        &&& self.retained_services.dom().subset_of(self.objects.dom())
        &&& forall|k: (u64, u64)| #[trigger]
            self.object_refcounts.dom().contains(k) ==> self.object_refcounts[k].wf()
    }

    /// How many shares of a strong reference to a handle there are.
    pub open spec fn strong(self, handle: u32) -> u64 {
        if self.refs.dom().contains(handle as u64) {
            self.refs[handle as u64].0
        } else {
            0
        }
    }

    /// How many shares of a weak reference to a handle there are.
    pub open spec fn weak(self, handle: u32) -> u64 {
        if self.weak_refs.dom().contains(handle as u64) {
            self.weak_refs[handle as u64].0
        } else {
            0
        }
    }

    /// A strong reference holds a weak one, and the two have one cookie.
    pub open spec fn remote_wf(self) -> bool {
        forall|h: u32| #[trigger]
            self.strong(h) > 0 ==> self.weak(h) > 0 && self.refs[h as u64].1
                == self.weak_refs[h as u64].1
    }

    /// Objects are numbered as they are registered, from one on. Until the counter comes
    /// round, no object has a number that has not been given yet.
    pub open spec fn numbers_wf(self) -> bool {
        &&& self.object_id_counter == (self.registrations + 1) % 0x1_0000_0000_0000_0000
        &&& self.registrations <= u64::MAX ==> forall|k: (u64, u64)| #[trigger]
            self.objects.dom().contains(k) ==> 0 < k.0 <= self.registrations && k.1 == 0
    }

    /// Cookies are numbered as they are drawn, from one on. Until the counter comes round, none
    /// is in use that has not been drawn yet.
    pub open spec fn cookies_wf(self) -> bool {
        &&& self.death_counter == (self.cookies + 1) % 0x1_0000_0000_0000_0000
        &&& self.cookies <= u64::MAX ==> {
            &&& forall|c: u64| #[trigger]
                self.death_notifications.dom().contains(c) ==> 0 < c <= self.cookies
            &&& forall|h: u64| #[trigger]
                self.refs.dom().contains(h) ==> 0 < self.refs[h].1 <= self.cookies
            &&& forall|h: u64| #[trigger]
                self.weak_refs.dom().contains(h) ==> 0 < self.weak_refs[h].1 <= self.cookies
        }
    }

    /// Whether nothing has happened to the local objects.
    pub open spec fn same_objects(self, d: Self) -> bool {
        &&& self.objects == d.objects
        &&& self.object_refcounts == d.object_refcounts
        &&& self.retained_services == d.retained_services
        &&& self.object_id_counter == d.object_id_counter
        &&& self.registrations == d.registrations
        &&& self.ctx_manager == d.ctx_manager
    }

    pub open spec fn wf(self) -> bool {
        self.objects_wf() && self.remote_wf() && self.numbers_wf() && self.cookies_wf()
    }

    /// The device after the counts of one object changed, if it is known.
    pub open spec fn recounted(
        self,
        key: (u64, u64),
        change: spec_fn(ObjectRefState) -> ObjectRefState,
    ) -> Self {
        if self.object_refcounts.dom().contains(key) {
            DeviceView {
                object_refcounts: self.object_refcounts.insert(
                    key,
                    change(self.object_refcounts[key]),
                ),
                ..self
            }
        } else {
            self
        }
    }

    /// The device after a handler was registered.
    pub open spec fn registered(self, handler: u64) -> Self {
        let id = BinderObjectId { id: self.object_id_counter, cookie: 0 };
        DeviceView {
            objects: self.objects.insert(key_of(id), handler),
            object_refcounts: self.object_refcounts.insert(key_of(id), ObjectRefState::fresh(id)),
            object_id_counter: drawn(self.object_id_counter),
            registrations: self.registrations + 1,
            ..self
        }
    }

    /// The device after an object was removed.
    pub open spec fn without_object(self, key: (u64, u64)) -> Self {
        DeviceView {
            objects: self.objects.remove(key),
            object_refcounts: self.object_refcounts.remove(key),
            ..self
        }
    }

    /// The device after an object became a service: it is kept, and there is one local
    /// reference more.
    pub open spec fn with_service(self, key: (u64, u64)) -> Self {
        let kept = DeviceView {
            retained_services: self.retained_services.insert(key, self.objects[key]),
            ..self
        };
        kept.recounted(key, |s: ObjectRefState| s.after_increase_local())
    }

    /// The device after this process took one more reference to an object.
    pub open spec fn with_local_ref(self, key: (u64, u64)) -> Self {
        self.recounted(key, |s: ObjectRefState| s.after_increase_local())
    }

    /// The device after this process dropped a reference to an object.
    pub open spec fn without_local_ref(self, key: (u64, u64)) -> Self {
        self.recounted(key, |s: ObjectRefState| s.after_decrease_local())
    }

    /// Whether an object is kept although nobody refers to it any more.
    pub open spec fn collectable(self, key: (u64, u64)) -> bool {
        &&& self.retained_services.dom().contains(key)
        &&& self.object_refcounts.dom().contains(key)
        &&& self.object_refcounts[key].strong_count == 0
    }

    /// The device after a service was given up.
    pub open spec fn without_service(self, key: (u64, u64)) -> Self {
        let released = DeviceView {
            retained_services: self.retained_services.remove(key),
            ..self
        };
        released.without_object(key)
    }
}

/// The state of one binder device.
pub struct BinderDevice {
    pub(crate) object_id_counter: u64,
    pub(crate) death_counter: u64,
    pub(crate) objects: IdTable,
    pub(crate) object_refcounts: CountTable,
    pub(crate) retained_services: IdTable,
    pub(crate) refs: HandleTable,
    pub(crate) weak_refs: HandleTable,
    pub(crate) death_notifications: HandleTable,
    pub(crate) ctx_manager: ContextManagerBinderRef,
    pub(crate) registrations: Ghost<nat>,
    pub(crate) cookies: Ghost<nat>,
}

impl View for BinderDevice {
    type V = DeviceView;

    closed spec fn view(&self) -> DeviceView {
        DeviceView {
            objects: slots(self.objects),
            object_refcounts: counts(self.object_refcounts),
            retained_services: slots(self.retained_services),
            refs: entries(self.refs),
            weak_refs: entries(self.weak_refs),
            death_notifications: entries(self.death_notifications),
            object_id_counter: self.object_id_counter,
            death_counter: self.death_counter,
            ctx_manager: self.ctx_manager.0,
            registrations: self.registrations@,
            cookies: self.cookies@,
        }
    }
}

impl BinderDevice {
    pub fn new() -> (r: Self)
        ensures
            r@ == DeviceView::initial(),
            r@.wf(),
    {
        let r = BinderDevice {
            object_id_counter: 1,
            death_counter: 1,
            objects: slots_new(),
            object_refcounts: counts_new(),
            retained_services: slots_new(),
            refs: entries_new(),
            weak_refs: entries_new(),
            death_notifications: entries_new(),
            ctx_manager: ContextManagerBinderRef(0),
            registrations: Ghost(0),
            cookies: Ghost(0),
        };
        assert(r@ =~= DeviceView::initial());
        r
    }

    /// Registers the handler in a slot as a local object and gives the identity of the object.
    pub fn register_object(&mut self, handler: u64) -> (id: BinderObjectId)
        ensures
            id == (BinderObjectId { id: old(self)@.object_id_counter, cookie: 0 }),
            final(self)@ == old(self)@.registered(handler),
            old(self)@.wf() ==> final(self)@.wf(),
            old(self)@.wf() && old(self)@.registrations < u64::MAX ==> id.id == old(
                self,
            )@.registrations + 1 && !old(self)@.objects.dom().contains(key_of(id)),
    {
        let id = BinderObjectId { id: self.object_id_counter, cookie: 0 };
        self.object_id_counter = self.object_id_counter.wrapping_add(1);
        self.registrations = Ghost(self.registrations@ + 1);
        slots_insert(&mut self.objects, (id.id, id.cookie), handler);
        counts_insert(&mut self.object_refcounts, (id.id, id.cookie), ObjectRefState::new(id));
        proof {
            assert(self@ =~= old(self)@.registered(handler));
            if old(self)@.wf() {
                lemma_remote_wf_kept(old(self)@, self@);
                assert(self@.object_refcounts.dom() =~= self@.objects.dom());
            }
        }
        id
    }

    /// The slot of the handler of an object.
    pub fn get_handler(&self, id: &BinderObjectId) -> (r: Option<u64>)
        ensures
            r == (if self@.objects.dom().contains(key_of(*id)) {
                Some(self@.objects[key_of(*id)])
            } else {
                None
            }),
    {
        slots_get(&self.objects, (id.id, id.cookie))
    }

    /// The reference counts of an object.
    pub fn refcounts(&self, id: &BinderObjectId) -> (r: Option<ObjectRefState>)
        ensures
            r == (if self@.object_refcounts.dom().contains(key_of(*id)) {
                Some(self@.object_refcounts[key_of(*id)])
            } else {
                None
            }),
    {
        counts_get(&self.object_refcounts, (id.id, id.cookie))
    }

    /// Whether an object is kept for those who refer to it.
    pub fn is_retained(&self, id: &BinderObjectId) -> (r: bool)
        ensures
            r == self@.retained_services.dom().contains(key_of(*id)),
    {
        slots_get(&self.retained_services, (id.id, id.cookie)).is_some()
    }

    pub fn remove_binder_object(&mut self, id: &BinderObjectId)
        ensures
            final(self)@ == old(self)@.without_object(key_of(*id)),
            old(self)@.wf() && !old(self)@.retained_services.dom().contains(key_of(*id))
                ==> final(self)@.wf(),
    {
        slots_remove(&mut self.objects, (id.id, id.cookie));
        counts_remove(&mut self.object_refcounts, (id.id, id.cookie));
        proof {
            assert(self@ =~= old(self)@.without_object(key_of(*id)));
            if old(self)@.wf() {
                lemma_remote_wf_kept(old(self)@, self@);
                assert(self@.object_refcounts.dom() =~= self@.objects.dom());
            }
        }
    }

    /// Makes an object a service: it stays registered until the last reference to it is gone.
    /// The caller has the first of these references.
    pub fn to_service(&mut self, id: &BinderObjectId)
        requires
            old(self)@.wf(),
            old(self)@.objects.dom().contains(key_of(*id)),
            old(self)@.object_refcounts[key_of(*id)].strong_count < u32::MAX,
        ensures
            final(self)@ == old(self)@.with_service(key_of(*id)),
            final(self)@.wf(),
    {
        let key: (u64, u64) = (id.id, id.cookie);
        assert(old(self)@.object_refcounts.dom().contains(key));
        if let Some(handler) = slots_get(&self.objects, key) {
            slots_insert(&mut self.retained_services, key, handler);
        }
        if let Some(state) = counts_get(&self.object_refcounts, key) {
            let mut state: ObjectRefState = state;
            state.increase_local();
            counts_insert(&mut self.object_refcounts, key, state);
        }
        proof {
            let kept = DeviceView {
                retained_services: old(self)@.retained_services.insert(key, old(self)@.objects[key]),
                ..old(self)@
            };
            lemma_remote_wf_kept(old(self)@, kept);
            lemma_recounted_wf(kept, key, |s: ObjectRefState| s.after_increase_local());
            assert(self@ =~= old(self)@.with_service(key));
        }
    }

    /// There is one more reference to a service.
    pub fn clone_service_ref(&mut self, id: &BinderObjectId)
        requires
            old(self)@.wf(),
            old(self)@.object_refcounts.dom().contains(key_of(*id)) ==> old(
                self,
            )@.object_refcounts[key_of(*id)].strong_count < u32::MAX,
        ensures
            final(self)@ == old(self)@.with_local_ref(key_of(*id)),
            final(self)@.wf(),
    {
        let key: (u64, u64) = (id.id, id.cookie);
        if let Some(state) = counts_get(&self.object_refcounts, key) {
            let mut state: ObjectRefState = state;
            state.increase_local();
            counts_insert(&mut self.object_refcounts, key, state);
        }
        proof {
            let change = |s: ObjectRefState| s.after_increase_local();
            lemma_recounted_wf(old(self)@, key, change);
            assert(self@ =~= old(self)@.recounted(key, change));
        }
    }

    /// A reference to a service is gone.
    pub fn drop_service_ref(&mut self, id: &BinderObjectId)
        requires
            old(self)@.wf(),
            old(self)@.object_refcounts.dom().contains(key_of(*id)) ==> old(
                self,
            )@.object_refcounts[key_of(*id)].local_strong_count > 0,
        ensures
            final(self)@ == old(self)@.without_local_ref(key_of(*id)),
            final(self)@.wf(),
    {
        let key: (u64, u64) = (id.id, id.cookie);
        if let Some(state) = counts_get(&self.object_refcounts, key) {
            let mut state: ObjectRefState = state;
            state.decrease_local();
            counts_insert(&mut self.object_refcounts, key, state);
        }
        proof {
            let change = |s: ObjectRefState| s.after_decrease_local();
            lemma_recounted_wf(old(self)@, key, change);
            assert(self@ =~= old(self)@.recounted(key, change));
        }
    }

    /// Another process has taken a strong reference to an object.
    pub fn remote_acquired(&mut self, id: &BinderObjectId)
        requires
            old(self)@.wf(),
            old(self)@.object_refcounts.dom().contains(key_of(*id))
                ==> old(self)@.object_refcounts[key_of(*id)].local_strong_count
                + old(self)@.object_refcounts[key_of(*id)].remote_strong_count < u32::MAX,
        ensures
            final(self)@ == old(self)@.recounted(
                key_of(*id),
                (|s: ObjectRefState| s.after_increase_remote()),
            ),
            final(self)@.wf(),
    {
        let key: (u64, u64) = (id.id, id.cookie);
        if let Some(state) = counts_get(&self.object_refcounts, key) {
            let mut state: ObjectRefState = state;
            state.increase_remote();
            counts_insert(&mut self.object_refcounts, key, state);
        }
        proof {
            let change = (|s: ObjectRefState| s.after_increase_remote());
            lemma_recounted_wf(old(self)@, key, change);
            assert(self@ =~= old(self)@.recounted(key, change));
        }
    }

    /// Another process has dropped a strong reference to an object.
    pub fn remote_released(&mut self, id: &BinderObjectId)
        requires
            old(self)@.wf(),
            old(self)@.object_refcounts.dom().contains(key_of(*id))
                ==> old(self)@.object_refcounts[key_of(*id)].remote_strong_count > 0,
        ensures
            final(self)@ == old(self)@.recounted(
                key_of(*id),
                (|s: ObjectRefState| s.after_decrease_remote()),
            ),
            final(self)@.wf(),
    {
        let key: (u64, u64) = (id.id, id.cookie);
        if let Some(state) = counts_get(&self.object_refcounts, key) {
            let mut state: ObjectRefState = state;
            state.decrease_remote();
            counts_insert(&mut self.object_refcounts, key, state);
        }
        proof {
            let change = (|s: ObjectRefState| s.after_decrease_remote());
            lemma_recounted_wf(old(self)@, key, change);
            assert(self@ =~= old(self)@.recounted(key, change));
        }
    }

    /// An object is about to be handed to another process.
    pub fn mark_pending_remote(&mut self, id: &BinderObjectId)
        requires
            old(self)@.wf(),
            old(self)@.object_refcounts.dom().contains(key_of(*id))
                ==> old(self)@.object_refcounts[key_of(*id)].can_mark(),
        ensures
            final(self)@ == old(self)@.recounted(
                key_of(*id),
                (|s: ObjectRefState| s.after_mark_pending_remote()),
            ),
            final(self)@.wf(),
    {
        let key: (u64, u64) = (id.id, id.cookie);
        if let Some(state) = counts_get(&self.object_refcounts, key) {
            let mut state: ObjectRefState = state;
            state.mark_pending_remote();
            counts_insert(&mut self.object_refcounts, key, state);
        }
        proof {
            let change = (|s: ObjectRefState| s.after_mark_pending_remote());
            lemma_recounted_wf(old(self)@, key, change);
            assert(self@ =~= old(self)@.recounted(key, change));
        }
    }

    /// An object will not arrive after all.
    pub fn clear_pending_remote(&mut self, id: &BinderObjectId)
        requires
            old(self)@.wf(),
        ensures
            final(self)@ == old(self)@.recounted(
                key_of(*id),
                (|s: ObjectRefState| s.after_clear_pending_remote()),
            ),
            final(self)@.wf(),
    {
        let key: (u64, u64) = (id.id, id.cookie);
        if let Some(state) = counts_get(&self.object_refcounts, key) {
            let mut state: ObjectRefState = state;
            state.clear_pending_remote();
            counts_insert(&mut self.object_refcounts, key, state);
        }
        proof {
            let change = (|s: ObjectRefState| s.after_clear_pending_remote());
            lemma_recounted_wf(old(self)@, key, change);
            assert(self@ =~= old(self)@.recounted(key, change));
        }
    }

    /// Gives a service up if nobody refers to it any more, and says whether it did.
    pub fn collect_service(&mut self, id: &BinderObjectId) -> (r: bool)
        requires
            old(self)@.wf(),
        ensures
            r == old(self)@.collectable(key_of(*id)),
            final(self)@ == (if r {
                old(self)@.without_service(key_of(*id))
            } else {
                old(self)@
            }),
            final(self)@.wf(),
    {
        let unreferenced: bool = match self.refcounts(id) {
            Some(state) => state.subscribe() == 0,
            None => false,
        };
        if !unreferenced || !self.is_retained(id) {
            return false;
        }
        slots_remove(&mut self.retained_services, (id.id, id.cookie));
        self.remove_binder_object(id);
        proof {
            assert(self@ =~= old(self)@.without_service(key_of(*id)));
            lemma_remote_wf_kept(old(self)@, self@);
        }
        true
    }

    /// The request that makes a local object the context manager. From now on transactions
    /// to the context manager go to the object.
    pub fn set_context_manager(&mut self, id: &BinderObjectId) -> (r: SetContextMGR)
        ensures
            r.0 == (FlatBinderObject {
                hdr: BinderObjectHeader { type_: BinderType(BinderType::BINDER) },
                flags: FlatBinderFlags(FlatBinderFlags::ACCEPTS_FDS),
                data: FlatBinderObjectData { word: id.id },
                cookie: id.cookie,
            }),
            final(self)@ == (DeviceView { ctx_manager: id.id, ..old(self)@ }),
            old(self)@.wf() ==> final(self)@.wf(),
    {
        self.ctx_manager = ContextManagerBinderRef(id.id);
        proof {
            assert(self@ =~= DeviceView { ctx_manager: id.id, ..old(self)@ });
            if old(self)@.wf() {
                lemma_remote_wf_kept(old(self)@, self@);
            }
        }
        SetContextMGR(
            FlatBinderObject {
                hdr: BinderObjectHeader { type_: BinderType(BinderType::BINDER) },
                flags: FlatBinderFlags(FlatBinderFlags::ACCEPTS_FDS),
                data: FlatBinderObjectData { word: id.id },
                cookie: id.cookie,
            },
        )
    }

    /// What became of the request to be the context manager.
    pub fn context_manager_result(accepted: bool) -> (r: Result<(), Error>)
        ensures
            r == (if accepted {
                Ok::<(), Error>(())
            } else {
                Err(Error::PermissionDenied)
            }),
    {
        if accepted {
            Ok(())
        } else {
            Err(Error::PermissionDenied)
        }
    }

    /// The identities of the local objects, in no particular order.
    pub fn object_keys(&self) -> (r: Vec<(u64, u64)>)
        ensures
            r@.to_set() == self@.objects.dom(),
            r@.no_duplicates(),
    {
        slots_keys(&self.objects)
    }

    /// The identities of the objects that are kept for those who refer to them, in no
    /// particular order.
    pub fn service_keys(&self) -> (r: Vec<(u64, u64)>)
        ensures
            r@.to_set() == self@.retained_services.dom(),
            r@.no_duplicates(),
    {
        slots_keys(&self.retained_services)
    }

    /// The handles that there is or was a strong reference to, in no particular order.
    pub fn ref_keys(&self) -> (r: Vec<u64>)
        ensures
            r@.to_set() == self@.refs.dom(),
            r@.no_duplicates(),
    {
        entries_keys(&self.refs)
    }

    /// The handles that there is or was a weak reference to, in no particular order.
    pub fn weak_ref_keys(&self) -> (r: Vec<u64>)
        ensures
            r@.to_set() == self@.weak_refs.dom(),
            r@.no_duplicates(),
    {
        entries_keys(&self.weak_refs)
    }

    /// Whether one more share of the strong reference to a handle can be counted.
    pub fn can_share_strong(&self, handle: u32) -> (r: bool)
        ensures
            r == (self@.strong(handle) < u64::MAX),
    {
        match self.strong_entry(handle) {
            Some((count, _)) => count < u64::MAX,
            None => true,
        }
    }

    /// Whether one more share of the weak reference to a handle can be counted.
    pub fn can_share_weak(&self, handle: u32) -> (r: bool)
        ensures
            r == (self@.weak(handle) < u64::MAX),
    {
        match self.weak_entry(handle) {
            Some((count, _)) => count < u64::MAX,
            None => true,
        }
    }

    pub(crate) fn strong_entry(&self, handle: u32) -> (r: Option<(u64, u64)>)
        ensures
            r == (if self@.refs.dom().contains(handle as u64) {
                Some(self@.refs[handle as u64])
            } else {
                None
            }),
    {
        entries_get(&self.refs, handle as u64)
    }

    pub(crate) fn set_strong_entry(&mut self, handle: u32, entry: (u64, u64))
        ensures
            final(self)@ == (DeviceView {
                refs: old(self)@.refs.insert(handle as u64, entry),
                ..old(self)@
            }),
    {
        entries_insert(&mut self.refs, handle as u64, entry);
    }

    pub(crate) fn weak_entry(&self, handle: u32) -> (r: Option<(u64, u64)>)
        ensures
            r == (if self@.weak_refs.dom().contains(handle as u64) {
                Some(self@.weak_refs[handle as u64])
            } else {
                None
            }),
    {
        entries_get(&self.weak_refs, handle as u64)
    }

    pub(crate) fn set_weak_entry(&mut self, handle: u32, entry: (u64, u64))
        ensures
            final(self)@ == (DeviceView {
                weak_refs: old(self)@.weak_refs.insert(handle as u64, entry),
                ..old(self)@
            }),
    {
        entries_insert(&mut self.weak_refs, handle as u64, entry);
    }

    /// Draws a new cookie and notes that its death has not been reported.
    pub(crate) fn await_death(&mut self, handle: u32) -> (cookie: u64)
        ensures
            cookie == old(self)@.death_counter,
            final(self)@ == (DeviceView {
                death_counter: drawn(cookie),
                cookies: old(self)@.cookies + 1,
                death_notifications: old(self)@.death_notifications.insert(
                    cookie,
                    (handle as u64, 0),
                ),
                ..old(self)@
            }),
    {
        let cookie: u64 = self.death_counter;
        self.death_counter = self.death_counter.wrapping_add(1);
        self.cookies = Ghost(self.cookies@ + 1);
        entries_insert(&mut self.death_notifications, cookie, (handle as u64, 0));
        cookie
    }

    /// Whether the death that belongs to a cookie has not been reported.
    pub(crate) fn awaits_death(&self, cookie: u64) -> (r: bool)
        ensures
            r == self@.death_notifications.dom().contains(cookie),
    {
        entries_get(&self.death_notifications, cookie).is_some()
    }

    /// Notes that a death was reported, and says whether it was awaited.
    pub(crate) fn note_death(&mut self, cookie: u64) -> (r: bool)
        ensures
            r == old(self)@.death_notifications.dom().contains(cookie),
            final(self)@ == (DeviceView {
                death_notifications: old(self)@.death_notifications.remove(cookie),
                ..old(self)@
            }),
    {
        entries_remove(&mut self.death_notifications, cookie)
    }

    pub fn context_manager(&self) -> (r: ContextManagerBinderRef)
        ensures
            r.0 == self@.ctx_manager,
    {
        ContextManagerBinderRef(self.ctx_manager.0)
    }
}

/// Changing the counts of one object keeps the device sound if the new counts hold together.
pub(crate) proof fn lemma_recounted_wf(
    d: DeviceView,
    key: (u64, u64),
    change: spec_fn(ObjectRefState) -> ObjectRefState,
)
    requires
        d.wf(),
        d.object_refcounts.dom().contains(key) ==> change(d.object_refcounts[key]).wf(),
    ensures
        d.recounted(key, change).wf(),
{
    let e = d.recounted(key, change);
    if d.object_refcounts.dom().contains(key) {
        assert(e.object_refcounts.dom() =~= d.object_refcounts.dom());
    }
    lemma_remote_wf_kept(d, e);
}

/// What holds of the references to remote objects depends on their tables alone.
pub(crate) proof fn lemma_remote_wf_kept(d: DeviceView, e: DeviceView)
    requires
        d.remote_wf(),
        e.refs == d.refs,
        e.weak_refs == d.weak_refs,
    ensures
        e.remote_wf(),
{
    assert forall|h: u32| #[trigger] e.strong(h) > 0 implies e.weak(h) > 0 && e.refs[h as u64].1
        == e.weak_refs[h as u64].1 by {
        assert(d.strong(h) > 0);
    }
}

/// An object that is registered gets a number that no object has had since the device was
/// made: the first one gets one, and each the next number, whatever was removed in between.
/// This holds until the counter comes round. Removing the object undoes the registration but
/// for the counter.
pub proof fn registration_is_fresh(d: DeviceView, handler: u64)
    requires
        d.wf(),
        d.registrations < u64::MAX,
    ensures
        ({
            let key = ((d.registrations + 1) as u64, 0u64);
            let e = d.registered(handler);
            &&& d.object_id_counter == d.registrations + 1
            &&& !d.objects.dom().contains(key)
            &&& !d.object_refcounts.dom().contains(key)
            &&& !d.retained_services.dom().contains(key)
            &&& e.objects == d.objects.insert(key, handler)
            &&& e.object_refcounts[key].strong_count == 0
            &&& e.without_object(key) == (DeviceView {
                object_id_counter: e.object_id_counter,
                registrations: e.registrations,
                ..d
            })
        }),
{
    let key = ((d.registrations + 1) as u64, 0u64);
    let e = d.registered(handler);
    assert(!d.objects.dom().contains(key));
    assert(!d.object_refcounts.dom().contains(key));
    assert(e.without_object(key).objects =~= d.objects);
    assert(e.without_object(key).object_refcounts =~= d.object_refcounts);
    assert(e.without_object(key) =~= DeviceView {
        object_id_counter: e.object_id_counter,
        registrations: e.registrations,
        ..d
    });
}

/// What is registered later gets another number, and what is awaited later gets another cookie,
/// whatever happens in between. This holds until the counters come round.
pub proof fn nothing_is_given_twice(d: DeviceView, e: DeviceView)
    requires
        d.wf(),
        e.wf(),
    ensures
        d.registrations < e.registrations <= u64::MAX ==> d.object_id_counter
            != e.object_id_counter,
        d.cookies < e.cookies <= u64::MAX ==> d.death_counter != e.death_counter,
{
}

/// A service is kept exactly as long as someone refers to it: in this process, in another
/// one, or on the way there.
pub proof fn service_lives_while_referenced(d: DeviceView, key: (u64, u64))
    requires
        d.wf(),
        d.retained_services.dom().contains(key),
    ensures
        d.collectable(key) <==> d.object_refcounts[key].local_strong_count == 0
            && d.object_refcounts[key].remote_strong_count == 0
            && !d.object_refcounts[key].new_in_remote,
{
    assert(d.object_refcounts.dom().contains(key));
    assert(d.object_refcounts[key].wf());
}

/// A service that was given up is gone from every table, and nothing else is.
pub proof fn collected_service_is_gone(d: DeviceView, key: (u64, u64), other: (u64, u64))
    requires
        other != key,
    ensures
        ({
            let e = d.without_service(key);
            &&& !e.objects.dom().contains(key)
            &&& !e.object_refcounts.dom().contains(key)
            &&& !e.retained_services.dom().contains(key)
            &&& e.objects.dom().contains(other) == d.objects.dom().contains(other)
            &&& e.object_refcounts.dom().contains(other) == d.object_refcounts.dom().contains(other)
            &&& e.retained_services.dom().contains(other) == d.retained_services.dom().contains(
                other,
            )
        }),
{
}

/// A new service survives until the last of its references is dropped: with a number of
/// further references, it can be given up after as many drops and one more, and not before.
pub proof fn service_survives_its_clones(d: DeviceView, key: (u64, u64), clones: nat, drops: nat)
    requires
        d.wf(),
        d.objects.dom().contains(key),
        d.object_refcounts[key] == ObjectRefState::fresh(d.object_refcounts[key].obj_id),
        clones < u32::MAX,
        drops <= clones + 1,
    ensures
        ({
            let s = d.with_service(key).object_refcounts[key];
            let e = d.with_service(key).recounted(
                key,
                |s: ObjectRefState| s.increased_local(clones).decreased_local(drops),
            );
            &&& s.local_strong_count == 1
            &&& e.collectable(key) <==> drops == clones + 1
        }),
{
    assert(d.object_refcounts.dom().contains(key));
    assert(d.object_refcounts[key].wf());
    references_add_up(d.with_service(key).object_refcounts[key], clones, drops);
}

/// A change to one object leaves every other object as it was, and with it everything that is
/// not about objects. To make an object a service is to keep it and to count one reference.
pub proof fn changes_stay_with_their_object(
    d: DeviceView,
    key: (u64, u64),
    other: (u64, u64),
    handler: u64,
)
    requires
        d.wf(),
        other != key,
    ensures
        d.with_local_ref(key).leaves(d, other),
        d.without_local_ref(key).leaves(d, other),
        d.with_service(key).leaves(d, other),
        d.without_service(key).leaves(d, other),
        d.without_object(key).leaves(d, other),
        other != (d.object_id_counter, 0u64) ==> d.registered(handler).leaves(d, other),
        d.objects.dom().contains(key) && d.object_refcounts[key].strong_count < u32::MAX ==> {
            let e = d.with_service(key);
            &&& e.retained_services.dom().contains(key)
            &&& e.retained_services[key] == d.objects[key]
            &&& e.objects == d.objects
            &&& e.object_refcounts[key].local_strong_count
                == d.object_refcounts[key].local_strong_count + 1
        },
        !d.without_service(key).objects.dom().contains(key),
        !d.without_object(key).objects.dom().contains(key),
{
    assert(d.objects.dom().contains(key) ==> d.object_refcounts.dom().contains(key));
    assert(d.object_refcounts.dom().contains(key) ==> d.object_refcounts[key].wf());
}

impl DeviceView {
    /// Whether an object and what is not about objects is as it was.
    pub open spec fn leaves(self, d: Self, key: (u64, u64)) -> bool {
        &&& self.objects.dom().contains(key) == d.objects.dom().contains(key)
        &&& d.objects.dom().contains(key) ==> self.objects[key] == d.objects[key]
        &&& self.object_refcounts.dom().contains(key) == d.object_refcounts.dom().contains(key)
        &&& d.object_refcounts.dom().contains(key) ==> self.object_refcounts[key]
            == d.object_refcounts[key]
        &&& self.retained_services.dom().contains(key) == d.retained_services.dom().contains(key)
        &&& self.refs == d.refs && self.weak_refs == d.weak_refs
        &&& self.death_notifications == d.death_notifications
        &&& self.death_counter == d.death_counter && self.cookies == d.cookies
        &&& self.ctx_manager == d.ctx_manager
    }
}

/// A device starts empty: there are no objects and no references, numbers and cookies start at
/// one, and the context manager is not here.
pub proof fn devices_start_empty()
    ensures
        ({
            let d = DeviceView::initial();
            &&& d.wf()
            &&& d.objects.dom() == Set::<(u64, u64)>::empty()
            &&& d.retained_services.dom() == Set::<(u64, u64)>::empty()
            &&& d.refs.dom() == Set::<u64>::empty()
            &&& d.weak_refs.dom() == Set::<u64>::empty()
            &&& d.death_notifications.dom() == Set::<u64>::empty()
            &&& d.object_id_counter == 1
            &&& d.death_counter == 1
            &&& d.ctx_manager == 0
            &&& d.registrations == 0 && d.cookies == 0
        }),
{
    let d = DeviceView::initial();
    assert(d.object_refcounts.dom() =~= d.objects.dom());
}

/// A counter goes up by one, and comes round at its end.
pub proof fn counters_go_up(counter: u64)
    ensures
        drawn(counter) == (counter + 1) % 0x1_0000_0000_0000_0000,
{
}

/// The identity of an object is its number and its cookie, both of them.
pub proof fn keys_are_identities(a: BinderObjectId, b: BinderObjectId)
    ensures
        key_of(a).0 == a.id,
        key_of(a).1 == a.cookie,
        key_of(a) == key_of(b) <==> a == b,
{
}

/// With how many loopers a device starts, how many more the driver may ask for, and how much
/// room it is given.
pub proof fn device_sizes()
    ensures
        LOOPERS == 5,
        MAX_THREADS == 5,
        BACKING_SIZE == 1024 * 1024,
{
}

} // verus!
