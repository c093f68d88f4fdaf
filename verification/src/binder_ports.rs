//! Ports: local objects and handles, without any word to the driver.
//!
//! A port handle is shared. How many shares of the strong and of the weak port there are per
//! handle is counted in a [`PortTable`].
use crate::binder_object::make_flat_object;
use crate::sys::{BinderType, BinderUintptrT, FlatBinderObject};
use crate::tables::{
    entries_get, entries_insert, entries_new, slots_get, slots_insert, slots_new, slots_remove,
    HandleTable, IdTable,
};
use crate::wire::widen;
use vstd::prelude::*;

verus! {

use crate::binder_object::flat_object;
use crate::tables::{entries, slots};
use crate::wire::widened;

/// What a [`PortTable`] holds.
#[verifier::ext_equal]
pub struct PortView {
    /// For each handle, how many shares of its port there are.
    pub port_handles: Map<u64, (u64, u64)>,
    /// For each handle, how many shares of its weak port there are.
    pub weak_port_handles: Map<u64, (u64, u64)>,
    /// For each local port, the slot of its handler.
    pub owned_ports: Map<(u64, u64), u64>,
}

/// How many shares a table has for a handle.
pub open spec fn shares(table: Map<u64, (u64, u64)>, handle: u32) -> u64 {
    if table.dom().contains(handle as u64) {
        table[handle as u64].0
    } else {
        0
    }
}

/// A table with another number of shares for a handle.
pub open spec fn with_shares(table: Map<u64, (u64, u64)>, handle: u32, n: int) -> Map<
    u64,
    (u64, u64),
> {
    table.insert(handle as u64, (n as u64, 0))
}

/// The ports of a device.
pub struct PortTable {
    port_handles: HandleTable,
    weak_port_handles: HandleTable,
    owned_ports: IdTable,
}

impl View for PortTable {
    type V = PortView;

    closed spec fn view(&self) -> PortView {
        PortView {
            port_handles: entries(self.port_handles),
            weak_port_handles: entries(self.weak_port_handles),
            owned_ports: slots(self.owned_ports),
        }
    }
}

fn count(table: &HandleTable, handle: u32) -> (r: u64)
    ensures
        r == shares(entries(*table), handle),
{
    match entries_get(table, handle as u64) {
        Some((n, _)) => n,
        None => 0,
    }
}

impl PortTable {
    pub fn new() -> (r: Self)
        ensures
            r@ == (PortView {
                port_handles: Map::empty(),
                weak_port_handles: Map::empty(),
                owned_ports: Map::empty(),
            }),
    {
        PortTable {
            port_handles: entries_new(),
            weak_port_handles: entries_new(),
            owned_ports: slots_new(),
        }
    }

    /// Makes the handler in a slot a local port.
    pub fn add_binder_port(&mut self, port: &OwnedBinderPort)
        ensures
            final(self)@ == (PortView {
                owned_ports: old(self)@.owned_ports.insert((port.id.id, port.id.cookie), port.handler),
                ..old(self)@
            }),
    {
        slots_insert(&mut self.owned_ports, (port.id.id, port.id.cookie), port.handler);
    }

    /// The slot of the handler of a local port.
    pub fn get_binder_port(&self, id: &OwnedBinderPortId) -> (r: Option<u64>)
        ensures
            r == (if self@.owned_ports.dom().contains((id.id, id.cookie)) {
                Some(self@.owned_ports[(id.id, id.cookie)])
            } else {
                None
            }),
    {
        slots_get(&self.owned_ports, (id.id, id.cookie))
    }

    /// A local port is gone.
    pub fn remove_binder_port(&mut self, id: &OwnedBinderPortId)
        ensures
            final(self)@ == (PortView {
                owned_ports: old(self)@.owned_ports.remove((id.id, id.cookie)),
                ..old(self)@
            }),
    {
        slots_remove(&mut self.owned_ports, (id.id, id.cookie));
    }

    /// How many shares of the port of a handle there are.
    pub fn strong_shares(&self, handle: u32) -> (r: u64)
        ensures
            r == shares(self@.port_handles, handle),
    {
        count(&self.port_handles, handle)
    }

    fn set_strong_shares(&mut self, handle: u32, n: u64)
        ensures
            final(self)@ == (PortView {
                port_handles: with_shares(old(self)@.port_handles, handle, n as int),
                ..old(self)@
            }),
    {
        entries_insert(&mut self.port_handles, handle as u64, (n, 0));
    }

    /// How many shares of the weak port of a handle there are.
    pub fn weak_shares(&self, handle: u32) -> (r: u64)
        ensures
            r == shares(self@.weak_port_handles, handle),
    {
        count(&self.weak_port_handles, handle)
    }

    fn set_weak_shares(&mut self, handle: u32, n: u64)
        ensures
            final(self)@ == (PortView {
                weak_port_handles: with_shares(old(self)@.weak_port_handles, handle, n as int),
                ..old(self)@
            }),
    {
        entries_insert(&mut self.weak_port_handles, handle as u64, (n, 0));
    }
}

/// A share of the port of a handle.
#[derive(Debug, PartialEq, Eq, Structural)]
pub struct BinderPortHandle {
    pub id: u32,
}

/// A share of the weak port of a handle.
#[derive(Debug, PartialEq, Eq, Structural)]
pub struct WeakBinderPortHandle {
    pub id: u32,
}

impl BinderPortHandle {
    /// A share of the weak port of the same handle, if there is one already.
    pub fn downgrade(&self, ports: &mut PortTable) -> (r: Option<WeakBinderPortHandle>)
        requires
            shares(old(ports)@.weak_port_handles, self.id) < u64::MAX,
        ensures
            r is Some <==> shares(old(ports)@.weak_port_handles, self.id) > 0,
            r matches Some(port) ==> port.id == self.id && final(ports)@ == (PortView {
                weak_port_handles: with_shares(
                    old(ports)@.weak_port_handles,
                    self.id,
                    shares(old(ports)@.weak_port_handles, self.id) + 1,
                ),
                ..old(ports)@
            }),
            r is None ==> final(ports)@ == old(ports)@,
    {
        let n: u64 = ports.weak_shares(self.id);
        if n > 0 {
            ports.set_weak_shares(self.id, n + 1);
            Some(WeakBinderPortHandle { id: self.id })
        } else {
            None
        }
    }

    /// A share of the port of a handle that was received.
    pub fn get_and_dedup_from_raw(ports: &mut PortTable, handle: u32) -> (r: Self)
        requires
            shares(old(ports)@.port_handles, handle) < u64::MAX,
        ensures
            r.id == handle,
            final(ports)@ == (PortView {
                port_handles: with_shares(
                    old(ports)@.port_handles,
                    handle,
                    shares(old(ports)@.port_handles, handle) + 1,
                ),
                ..old(ports)@
            }),
    {
        let n: u64 = ports.strong_shares(handle);
        ports.set_strong_shares(handle, n + 1);
        BinderPortHandle { id: handle }
    }

    /// Gives the share up.
    pub fn release(self, ports: &mut PortTable)
        requires
            shares(old(ports)@.port_handles, self.id) > 0,
        ensures
            final(ports)@ == (PortView {
                port_handles: with_shares(
                    old(ports)@.port_handles,
                    self.id,
                    shares(old(ports)@.port_handles, self.id) - 1,
                ),
                ..old(ports)@
            }),
    {
        let n: u64 = ports.strong_shares(self.id);
        ports.set_strong_shares(self.id, n - 1);
    }

    pub fn get_flat_binder_object(&self) -> (r: FlatBinderObject)
        ensures
            r == flat_object(BinderType::HANDLE, widened(self.id), 0),
    {
        make_flat_object(BinderType::HANDLE, widen(self.id), 0)
    }
}

impl WeakBinderPortHandle {
    /// A share of the port of the same handle, if there is one already.
    pub fn upgrade(&self, ports: &mut PortTable) -> (r: Option<BinderPortHandle>)
        requires
            shares(old(ports)@.port_handles, self.id) < u64::MAX,
        ensures
            r is Some <==> shares(old(ports)@.port_handles, self.id) > 0,
            r matches Some(port) ==> port.id == self.id && final(ports)@ == (PortView {
                port_handles: with_shares(
                    old(ports)@.port_handles,
                    self.id,
                    shares(old(ports)@.port_handles, self.id) + 1,
                ),
                ..old(ports)@
            }),
            r is None ==> final(ports)@ == old(ports)@,
    {
        let n: u64 = ports.strong_shares(self.id);
        if n > 0 {
            ports.set_strong_shares(self.id, n + 1);
            Some(BinderPortHandle { id: self.id })
        } else {
            None
        }
    }

    /// A share of the weak port of a handle that was received.
    pub fn get_and_dedup_from_raw(ports: &mut PortTable, handle: u32) -> (r: Self)
        requires
            shares(old(ports)@.weak_port_handles, handle) < u64::MAX,
        ensures
            r.id == handle,
            final(ports)@ == (PortView {
                weak_port_handles: with_shares(
                    old(ports)@.weak_port_handles,
                    handle,
                    shares(old(ports)@.weak_port_handles, handle) + 1,
                ),
                ..old(ports)@
            }),
    {
        let n: u64 = ports.weak_shares(handle);
        ports.set_weak_shares(handle, n + 1);
        WeakBinderPortHandle { id: handle }
    }

    /// Gives the share up.
    pub fn release(self, ports: &mut PortTable)
        requires
            shares(old(ports)@.weak_port_handles, self.id) > 0,
        ensures
            final(ports)@ == (PortView {
                weak_port_handles: with_shares(
                    old(ports)@.weak_port_handles,
                    self.id,
                    shares(old(ports)@.weak_port_handles, self.id) - 1,
                ),
                ..old(ports)@
            }),
    {
        let n: u64 = ports.weak_shares(self.id);
        ports.set_weak_shares(self.id, n - 1);
    }

    pub fn get_flat_binder_object(&self) -> (r: FlatBinderObject)
        ensures
            r == flat_object(BinderType::WEAK_HANDLE, widened(self.id), 0),
    {
        make_flat_object(BinderType::WEAK_HANDLE, widen(self.id), 0)
    }
}

/// The id of a local port.
#[derive(Debug, Clone, Copy, Hash, PartialEq, Eq, PartialOrd, Ord, Structural)]
pub struct OwnedBinderPortId {
    pub id: BinderUintptrT,
    pub cookie: BinderUintptrT,
}

impl OwnedBinderPortId {
    pub fn from_raw(binder: BinderUintptrT, cookie: BinderUintptrT) -> (r: OwnedBinderPortId)
        ensures
            r == (OwnedBinderPortId { id: binder, cookie }),
    {
        OwnedBinderPortId { id: binder, cookie }
    }
}

/// A local port, with the slot of its handler.
#[derive(Debug, PartialEq, Eq, Structural)]
pub struct OwnedBinderPort {
    pub id: OwnedBinderPortId,
    pub handler: u64,
}

impl OwnedBinderPort {
    pub fn new(id: u64, handler: u64) -> (r: Self)
        ensures
            r == (OwnedBinderPort { id: OwnedBinderPortId { id, cookie: 0 }, handler }),
    {
        OwnedBinderPort { id: OwnedBinderPortId { id, cookie: 0 }, handler }
    }

    pub fn id(&self) -> (r: &OwnedBinderPortId)
        ensures
            *r == self.id,
    {
        &self.id
    }

    pub fn handler(&self) -> (r: u64)
        ensures
            r == self.handler,
    {
        self.handler
    }

    pub fn get_flat_binder_object(&self) -> (r: FlatBinderObject)
        ensures
            r == flat_object(BinderType::BINDER, self.id.id, self.id.cookie),
    {
        make_flat_object(BinderType::BINDER, self.id.id, self.id.cookie)
    }

    /// Gives the port up: it is no longer a local port.
    pub fn release(self, ports: &mut PortTable)
        ensures
            final(ports)@ == (PortView {
                owned_ports: old(ports)@.owned_ports.remove((self.id.id, self.id.cookie)),
                ..old(ports)@
            }),
    {
        ports.remove_binder_port(&self.id);
    }
}

/// A weak port of another process for a local port, come back to this process.
#[derive(Debug, Clone, Copy, PartialEq, Eq, Structural)]
pub struct WeakOwnedBinderPort {
    pub id: OwnedBinderPortId,
}

impl WeakOwnedBinderPort {
    pub fn id(&self) -> (r: &OwnedBinderPortId)
        ensures
            *r == self.id,
    {
        &self.id
    }

    pub fn from_id(id: OwnedBinderPortId) -> (r: Self)
        ensures
            r.id == id,
    {
        WeakOwnedBinderPort { id }
    }

    pub fn get_flat_binder_object(&self) -> (r: FlatBinderObject)
        ensures
            r == flat_object(BinderType::WEAK_BINDER, self.id.id, self.id.cookie),
    {
        make_flat_object(BinderType::WEAK_BINDER, self.id.id, self.id.cookie)
    }
}

/// Something to send transactions to, or to hand on.
#[derive(Debug, PartialEq, Eq, Structural)]
pub enum BinderPort {
    Owned(OwnedBinderPort),
    Handle(BinderPortHandle),
    WeakHandle(WeakBinderPortHandle),
    WeakOwned(WeakOwnedBinderPort),
}

impl BinderPort {
    pub fn get_flat_binder_object(&self) -> (r: FlatBinderObject)
        ensures
            r == (match *self {
                BinderPort::Owned(p) => flat_object(BinderType::BINDER, p.id.id, p.id.cookie),
                BinderPort::Handle(p) => flat_object(BinderType::HANDLE, widened(p.id), 0),
                BinderPort::WeakHandle(p) => flat_object(BinderType::WEAK_HANDLE, widened(p.id), 0),
                BinderPort::WeakOwned(p) => flat_object(
                    BinderType::WEAK_BINDER,
                    p.id.id,
                    p.id.cookie,
                ),
            }),
    {
        match self {
            BinderPort::Owned(p) => p.get_flat_binder_object(),
            BinderPort::Handle(p) => p.get_flat_binder_object(),
            BinderPort::WeakHandle(p) => p.get_flat_binder_object(),
            BinderPort::WeakOwned(p) => p.get_flat_binder_object(),
        }
    }
}

/// The shares of a handle are counted for that handle and no other, as many as are said.
pub proof fn shares_are_counted_by_handle(
    table: Map<u64, (u64, u64)>,
    handle: u32,
    other: u32,
    n: u64,
)
    ensures
        shares(Map::empty(), handle) == 0,
        shares(with_shares(table, handle, n as int), handle) == n,
        other != handle ==> shares(with_shares(table, handle, n as int), other) == shares(
            table,
            other,
        ),
        shares(table, handle) > 0 ==> shares(table, handle) == table[handle as u64].0,
{
}

} // verus!
