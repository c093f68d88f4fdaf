//! How many strong references there are to a local object.
use crate::binder_object::BinderObjectId;
use vstd::prelude::*;

verus! {

/// The strong references to one local object: those that this process holds, those that the
/// driver holds for other processes, and whether the object is on its way to another process
/// that has not taken its reference yet.
///
/// `strong_count` is what those who wait for the object to become unreferenced look at. It
/// is a level, not an edge: whoever looks late still sees the state as it is.
#[derive(Clone, Copy, Debug, PartialEq, Eq, Structural)]
pub struct ObjectRefState {
    pub obj_id: BinderObjectId,
    pub local_strong_count: u32,
    pub remote_strong_count: u32,
    pub new_in_remote: bool,
    pub strong_count: u32,
}

impl ObjectRefState {
    /// The references that the state stands for: local and remote ones, and one more while
    /// the object is on its way.
    pub open spec fn total(self) -> int {
        self.local_strong_count + self.remote_strong_count + (if self.new_in_remote {
            1int
        } else {
            0
        })
    }

    /// The published count is the total, and an object is on its way only while no other
    /// process has a reference.
    pub open spec fn wf(self) -> bool {
        &&& self.strong_count == self.total()
        &&& self.new_in_remote ==> self.remote_strong_count == 0
    }

    /// The state of the same object with other counts, published.
    pub open spec fn with(self, local: int, remote: int, pending: bool) -> Self {
        ObjectRefState {
            obj_id: self.obj_id,
            local_strong_count: local as u32,
            remote_strong_count: remote as u32,
            new_in_remote: pending,
            strong_count: (local + remote + (if pending {
                1int
            } else {
                0
            })) as u32,
        }
    }

    pub open spec fn fresh(obj_id: BinderObjectId) -> Self {
        ObjectRefState {
            obj_id,
            local_strong_count: 0,
            remote_strong_count: 0,
            new_in_remote: false,
            strong_count: 0,
        }
    }

    pub open spec fn after_increase_local(self) -> Self {
        self.with(self.local_strong_count + 1, self.remote_strong_count as int, self.new_in_remote)
    }

    pub open spec fn after_decrease_local(self) -> Self {
        self.with(self.local_strong_count - 1, self.remote_strong_count as int, self.new_in_remote)
    }

    pub open spec fn after_increase_remote(self) -> Self {
        self.with(self.local_strong_count as int, self.remote_strong_count + 1, false)
    }

    pub open spec fn after_decrease_remote(self) -> Self {
        self.with(self.local_strong_count as int, self.remote_strong_count - 1, self.new_in_remote)
    }

    pub open spec fn after_mark_pending_remote(self) -> Self {
        if self.remote_strong_count == 0 {
            self.with(self.local_strong_count as int, 0, true)
        } else {
            self
        }
    }

    pub open spec fn after_clear_pending_remote(self) -> Self {
        if self.remote_strong_count == 0 {
            self.with(self.local_strong_count as int, 0, false)
        } else {
            self
        }
    }

    /// Whether one more unit can be counted when the object is marked as on its way.
    pub open spec fn can_mark(self) -> bool {
        self.remote_strong_count == 0 ==> self.local_strong_count < u32::MAX
    }

    pub fn new(obj_id: BinderObjectId) -> (r: Self)
        ensures
            r == Self::fresh(obj_id),
            r.wf(),
    {
        ObjectRefState {
            obj_id,
            local_strong_count: 0,
            remote_strong_count: 0,
            new_in_remote: false,
            strong_count: 0,
        }
    }

    /// The count as it was last published.
    pub fn subscribe(&self) -> (r: u32)
        ensures
            r == self.strong_count,
    {
        self.strong_count
    }

    fn publish(&mut self, local: u32, remote: u32, pending: bool)
        requires
            old(self).with(local as int, remote as int, pending).total() <= u32::MAX,
        ensures
            *final(self) == (ObjectRefState {
                strong_count: old(self).with(local as int, remote as int, pending).strong_count,
                ..*old(self)
            }),
    {
        let unit: u32 = if pending {
            1
        } else {
            0
        };
        self.strong_count = local + remote + unit;
    }

    pub fn increase_local(&mut self)
        requires
            old(self).wf(),
            old(self).strong_count < u32::MAX,
        ensures
            *final(self) == old(self).after_increase_local(),
            final(self).wf(),
    {
        self.local_strong_count = self.local_strong_count + 1;
        let (v, remote, pending) = (
            self.local_strong_count,
            self.remote_strong_count,
            self.new_in_remote,
        );
        self.publish(v, remote, pending);
    }

    pub fn decrease_local(&mut self)
        requires
            old(self).wf(),
            old(self).local_strong_count > 0,
        ensures
            *final(self) == old(self).after_decrease_local(),
            final(self).wf(),
    {
        self.local_strong_count = self.local_strong_count - 1;
        let (v, remote, pending) = (
            self.local_strong_count,
            self.remote_strong_count,
            self.new_in_remote,
        );
        self.publish(v, remote, pending);
    }

    /// Another process has taken a strong reference. If the object was on its way, it has
    /// arrived.
    pub fn increase_remote(&mut self)
        requires
            old(self).wf(),
            old(self).local_strong_count + old(self).remote_strong_count < u32::MAX,
        ensures
            *final(self) == old(self).after_increase_remote(),
            final(self).wf(),
    {
        self.remote_strong_count = self.remote_strong_count + 1;
        self.new_in_remote = false;
        let (local, v) = (self.local_strong_count, self.remote_strong_count);
        self.publish(local, v, false);
    }

    pub fn decrease_remote(&mut self)
        requires
            old(self).wf(),
            old(self).remote_strong_count > 0,
        ensures
            *final(self) == old(self).after_decrease_remote(),
            final(self).wf(),
    {
        self.remote_strong_count = self.remote_strong_count - 1;
        let (local, v, pending) = (
            self.local_strong_count,
            self.remote_strong_count,
            self.new_in_remote,
        );
        self.publish(local, v, pending);
    }

    /// The object is about to be handed to another process: until that process takes its
    /// reference, the object counts as referenced.
    pub fn mark_pending_remote(&mut self)
        requires
            old(self).wf(),
            old(self).can_mark(),
        ensures
            *final(self) == old(self).after_mark_pending_remote(),
            final(self).wf(),
    {
        if self.remote_strong_count == 0 {
            self.new_in_remote = true;
            let local: u32 = self.local_strong_count;
            self.publish(local, 0, true);
        }
    }

    /// The object will not arrive after all: undoes `mark_pending_remote`.
    pub fn clear_pending_remote(&mut self)
        requires
            old(self).wf(),
        ensures
            *final(self) == old(self).after_clear_pending_remote(),
            final(self).wf(),
    {
        if self.remote_strong_count == 0 {
            self.new_in_remote = false;
            let local: u32 = self.local_strong_count;
            self.publish(local, 0, false);
        }
    }
}

/// The published count is zero exactly when nobody has a reference and none is on its way.
pub proof fn zero_means_unreferenced(s: ObjectRefState)
    requires
        s.wf(),
    ensures
        s.strong_count == 0 <==> s.local_strong_count == 0 && s.remote_strong_count == 0
            && !s.new_in_remote,
{
}

/// While an object is on its way, dropping local references never makes the count zero, and
/// the object stays on its way.
pub proof fn no_premature_zero(s: ObjectRefState)
    requires
        s.wf(),
        s.new_in_remote,
        s.local_strong_count > 0,
    ensures
        s.after_decrease_local().wf(),
        s.after_decrease_local().new_in_remote,
        s.after_decrease_local().strong_count > 0,
{
}

/// Rolling a mark back restores the state, unless the object was on its way before.
pub proof fn mark_rolls_back(s: ObjectRefState)
    requires
        s.wf(),
        s.can_mark(),
        !s.new_in_remote,
    ensures
        s.after_mark_pending_remote().after_clear_pending_remote() == s,
{
}

/// A rolled-back mark never stays behind: afterwards the object is not on its way.
pub proof fn clear_leaves_nothing_pending(s: ObjectRefState)
    requires
        s.wf(),
    ensures
        !s.after_clear_pending_remote().new_in_remote,
{
}

/// The reference that arrives takes the place of the mark: the count does not change, and
/// once it is dropped again only the local references are left.
pub proof fn arrival_replaces_mark(s: ObjectRefState)
    requires
        s.wf(),
        s.can_mark(),
        s.remote_strong_count == 0,
    ensures
        s.after_mark_pending_remote().after_increase_remote().strong_count
            == s.after_mark_pending_remote().strong_count,
        s.after_mark_pending_remote().after_increase_remote().after_decrease_remote().strong_count
            == s.local_strong_count,
{
}

/// Taking and dropping a reference changes nothing.
pub proof fn taken_and_dropped(s: ObjectRefState)
    requires
        s.wf(),
        s.strong_count < u32::MAX,
    ensures
        s.after_increase_local().after_decrease_local() == s,
        !s.new_in_remote ==> s.after_increase_remote().after_decrease_remote() == s,
{
}

impl ObjectRefState {
    /// The state after so many local references more.
    pub open spec fn increased_local(self, n: nat) -> Self
        decreases n,
    {
        if n == 0 {
            self
        } else {
            self.increased_local((n - 1) as nat).after_increase_local()
        }
    }

    /// The state after so many local references less.
    pub open spec fn decreased_local(self, n: nat) -> Self
        decreases n,
    {
        if n == 0 {
            self
        } else {
            self.decreased_local((n - 1) as nat).after_decrease_local()
        }
    }
}

/// Taking some local references and dropping some changes the count by the difference, and
/// nothing else.
pub proof fn references_add_up(s: ObjectRefState, taken: nat, dropped: nat)
    requires
        s.wf(),
        s.strong_count + taken <= u32::MAX,
        dropped <= s.local_strong_count + taken,
    ensures
        s.increased_local(taken).decreased_local(dropped) == s.with(
            s.local_strong_count + taken - dropped,
            s.remote_strong_count as int,
            s.new_in_remote,
        ),
        s.increased_local(taken).decreased_local(dropped).wf(),
    decreases taken + dropped,
{
    if dropped > 0 {
        references_add_up(s, taken, (dropped - 1) as nat);
    } else if taken > 0 {
        references_add_up(s, (taken - 1) as nat, 0);
        let t = s.increased_local((taken - 1) as nat);
        assert(t.decreased_local(0) == t);
    }
}

/// Each step moves one count by one, or sets the mark, and leaves the others: a local reference
/// is counted as a local one, and one of another process as one of that process, which also is
/// the arrival of what was on its way. The object stays the same.
pub proof fn each_step_moves_one_count(s: ObjectRefState)
    requires
        s.wf(),
    ensures
        s.strong_count < u32::MAX ==> {
            let t = s.after_increase_local();
            &&& t.local_strong_count == s.local_strong_count + 1
            &&& t.remote_strong_count == s.remote_strong_count
            &&& t.new_in_remote == s.new_in_remote
            &&& t.strong_count == s.strong_count + 1
            &&& t.obj_id == s.obj_id
        },
        s.local_strong_count > 0 ==> {
            let t = s.after_decrease_local();
            &&& t.local_strong_count == s.local_strong_count - 1
            &&& t.remote_strong_count == s.remote_strong_count
            &&& t.new_in_remote == s.new_in_remote
            &&& t.strong_count == s.strong_count - 1
            &&& t.obj_id == s.obj_id
        },
        s.local_strong_count + s.remote_strong_count < u32::MAX ==> {
            let t = s.after_increase_remote();
            &&& t.local_strong_count == s.local_strong_count
            &&& t.remote_strong_count == s.remote_strong_count + 1
            &&& !t.new_in_remote
            &&& t.strong_count == s.local_strong_count + s.remote_strong_count + 1
            &&& t.obj_id == s.obj_id
        },
        s.remote_strong_count > 0 ==> {
            let t = s.after_decrease_remote();
            &&& t.local_strong_count == s.local_strong_count
            &&& t.remote_strong_count == s.remote_strong_count - 1
            &&& t.new_in_remote == s.new_in_remote
            &&& t.strong_count == s.strong_count - 1
            &&& t.obj_id == s.obj_id
        },
{
}

/// A mark is set only while no other process has a reference, counts as one reference more,
/// and is not counted twice. Taking it back undoes just that.
pub proof fn marks_count_once(s: ObjectRefState)
    requires
        s.wf(),
        s.can_mark(),
    ensures
        ({
            let t = s.after_mark_pending_remote();
            let u = s.after_clear_pending_remote();
            &&& t.new_in_remote <==> s.remote_strong_count == 0
            &&& u.new_in_remote == false
            &&& t.strong_count == s.local_strong_count + (if s.remote_strong_count == 0 {
                1int
            } else {
                s.remote_strong_count as int
            })
            &&& u.strong_count == s.local_strong_count + s.remote_strong_count
            &&& t.local_strong_count == s.local_strong_count && u.local_strong_count
                == s.local_strong_count
            &&& t.remote_strong_count == s.remote_strong_count && u.remote_strong_count
                == s.remote_strong_count
            &&& t.obj_id == s.obj_id && u.obj_id == s.obj_id
            &&& t.after_mark_pending_remote() == t
        }),
{
}

/// Nobody refers to a new object.
pub proof fn new_objects_are_unreferenced(id: BinderObjectId)
    ensures
        ObjectRefState::fresh(id).obj_id == id,
        ObjectRefState::fresh(id).strong_count == 0,
        ObjectRefState::fresh(id).wf(),
        ObjectRefState::fresh(id).local_strong_count == 0,
        ObjectRefState::fresh(id).remote_strong_count == 0,
        !ObjectRefState::fresh(id).new_in_remote,
{
}

} // verus!
