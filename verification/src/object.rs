//! Service handlers that are registered under a cookie.
use crate::sys::BinderUintptrT;
use crate::tables::{entries_get, entries_insert, entries_new, entries_remove, HandleTable};
use vstd::prelude::*;

verus! {

use crate::tables::entries;

/// The service handlers of a device, by cookie.
pub struct ServiceHandlers {
    table: HandleTable,
}

impl View for ServiceHandlers {
    type V = Map<u64, (u64, u64)>;

    closed spec fn view(&self) -> Map<u64, (u64, u64)> {
        entries(self.table)
    }
}

impl ServiceHandlers {
    pub fn new() -> (r: Self)
        ensures
            (r@ == Map::<u64, (u64, u64)>::empty()),
    {
        ServiceHandlers { table: entries_new() }
    }

    /// Registers the handler of an object.
    pub fn register(&mut self, object: &BinderObject)
        ensures
            final(self)@ == old(self)@.insert(object.cookie, (object.handler, 0)),
    {
        entries_insert(&mut self.table, object.cookie, (object.handler, 0));
    }

    /// The slot of the handler that is registered under a cookie.
    pub fn get(&self, cookie: BinderUintptrT) -> (r: Option<u64>)
        ensures
            r == (if self@.dom().contains(cookie) {
                Some(self@[cookie].0)
            } else {
                None
            }),
    {
        match entries_get(&self.table, cookie) {
            Some((handler, _)) => Some(handler),
            None => None,
        }
    }
}

/// A registered service handler: the slot it is in, and its cookie.
#[derive(Debug, PartialEq, Eq, Structural)]
pub struct BinderObject {
    pub handler: u64,
    pub cookie: BinderUintptrT,
}

impl BinderObject {
    /// The cookie of the object.
    pub fn cookie(&self) -> (r: BinderUintptrT)
        ensures
            r == self.cookie,
    {
        self.cookie
    }

    /// Whether the device is still there, given how many own it.
    pub fn is_alive(&self, device_owners: usize) -> (r: bool)
        ensures
            r == (device_owners > 0),
    {
        device_owners > 0
    }

    /// Unregisters the handler, if the device is still there.
    pub fn unregister(self, handlers: &mut ServiceHandlers, device_owners: usize)
        ensures
            final(handlers)@ == (if device_owners > 0 {
                old(handlers)@.remove(self.cookie)
            } else {
                old(handlers)@
            }),
    {
        if self.is_alive(device_owners) {
            entries_remove(&mut handlers.table, self.cookie);
        }
    }
}

} // verus!
