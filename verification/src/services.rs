//! The references to services that a payload has.
//!
//! A service that is put into a payload may have no other reference: whoever made it may drop
//! theirs before the payload is sent. So the payload has a reference of its own until it is
//! released.
use crate::binder_object::BinderObjectId;
use crate::refcount::ObjectRefState;
use vstd::prelude::*;

verus! {

use crate::device::{key_of, DeviceView};
use crate::refcount::references_add_up;

/// How many references to an object there are among some.
pub open spec fn references(services: Seq<BinderObjectId>, key: (u64, u64)) -> nat
    decreases services.len(),
{
    if services.len() == 0 {
        0
    } else {
        references(services.drop_last(), key) + (if key_of(services.last()) == key {
            1nat
        } else {
            0
        })
    }
}

/// The references are counted by the device: each is to a service, and the service has at
/// least as many local references.
pub open spec fn holds(services: Seq<BinderObjectId>, d: DeviceView) -> bool {
    forall|key: (u64, u64)| #[trigger]
        references(services, key) > 0 ==> d.retained_services.dom().contains(key)
            && d.object_refcounts[key].local_strong_count >= references(services, key)
}

/// The device after some references were dropped, the last one first.
pub open spec fn released(services: Seq<BinderObjectId>, d: DeviceView) -> DeviceView
    decreases services.len(),
{
    if services.len() == 0 {
        d
    } else {
        released(services.drop_last(), d.without_local_ref(key_of(services.last())))
    }
}

/// What is among the references is counted.
proof fn lemma_references_count(services: Seq<BinderObjectId>, i: int)
    requires
        0 <= i < services.len(),
    ensures
        references(services, key_of(services[i])) > 0,
    decreases services.len(),
{
    if i < services.len() - 1 {
        lemma_references_count(services.drop_last(), i);
    }
}

/// No service in a payload that has not been released can be given up, whatever became of the
/// other references to it.
pub proof fn held_service_is_kept(services: Seq<BinderObjectId>, d: DeviceView, i: int)
    requires
        d.wf(),
        holds(services, d),
        0 <= i < services.len(),
    ensures
        d.retained_services.dom().contains(key_of(services[i])),
        !d.collectable(key_of(services[i])),
{
    lemma_references_count(services, i);
    assert(d.object_refcounts.dom().contains(key_of(services[i])));
}

/// Putting a service into a payload keeps the references of the payload counted.
pub proof fn taking_keeps_holding(services: Seq<BinderObjectId>, d: DeviceView, id: BinderObjectId)
    requires
        d.wf(),
        holds(services, d),
        d.retained_services.dom().contains(key_of(id)),
        d.object_refcounts[key_of(id)].strong_count < u32::MAX,
    ensures
        holds(services.push(id), d.with_local_ref(key_of(id))),
{
    let more = services.push(id);
    let e = d.with_local_ref(key_of(id));
    assert(d.object_refcounts.dom().contains(key_of(id)));
    assert(more.drop_last() =~= services);
    assert forall|key: (u64, u64)| #[trigger] references(more, key) > 0 implies
        e.retained_services.dom().contains(key) && e.object_refcounts[key].local_strong_count
        >= references(more, key) by {
        assert(references(services, key) > 0 || key == key_of(id));
    }
}

/// Dropping the last reference of a payload keeps the others counted.
pub proof fn dropping_keeps_holding(services: Seq<BinderObjectId>, d: DeviceView)
    requires
        d.wf(),
        holds(services, d),
        services.len() > 0,
    ensures
        d.object_refcounts.dom().contains(key_of(services.last())),
        d.object_refcounts[key_of(services.last())].local_strong_count > 0,
        holds(services.drop_last(), d.without_local_ref(key_of(services.last()))),
{
    let rest = services.drop_last();
    let last = key_of(services.last());
    let e = d.without_local_ref(last);
    assert(references(services, last) > 0);
    assert(d.object_refcounts.dom().contains(last));
    assert(d.object_refcounts[last].wf());
    assert forall|key: (u64, u64)| #[trigger] references(rest, key) > 0 implies
        e.retained_services.dom().contains(key) && e.object_refcounts[key].local_strong_count
        >= references(rest, key) by {
        assert(references(services, key) > 0);
    }
}

/// Others may take references to a service in a payload and drop as many as are theirs: the
/// payload's references stay counted, and the service cannot be given up.
pub proof fn others_leave_held_services(
    services: Seq<BinderObjectId>,
    d: DeviceView,
    key: (u64, u64),
    taken: nat,
    dropped: nat,
)
    requires
        d.wf(),
        holds(services, d),
        references(services, key) > 0,
        d.object_refcounts[key].strong_count + taken <= u32::MAX,
        dropped + references(services, key) <= d.object_refcounts[key].local_strong_count + taken,
    ensures
        ({
            let e = d.recounted(
                key,
                |s: ObjectRefState| s.increased_local(taken).decreased_local(dropped),
            );
            holds(services, e) && !e.collectable(key)
        }),
{
    let e = d.recounted(
        key,
        |s: ObjectRefState| s.increased_local(taken).decreased_local(dropped),
    );
    assert(d.object_refcounts.dom().contains(key));
    assert(d.object_refcounts[key].wf());
    references_add_up(d.object_refcounts[key], taken, dropped);
    assert forall|k: (u64, u64)| #[trigger] references(services, k) > 0 implies
        e.retained_services.dom().contains(k) && e.object_refcounts[k].local_strong_count
        >= references(services, k) by {
        assert(d.retained_services.dom().contains(k));
    }
}

/// A reference that is not the payload's may be dropped, and another one taken: the payload's
/// references stay counted.
pub proof fn another_reference_may_go(
    services: Seq<BinderObjectId>,
    d: DeviceView,
    key: (u64, u64),
)
    requires
        d.wf(),
        holds(services, d),
        d.object_refcounts.dom().contains(key),
    ensures
        references(services, key) < d.object_refcounts[key].local_strong_count ==> holds(
            services,
            d.without_local_ref(key),
        ),
        d.object_refcounts[key].strong_count < u32::MAX ==> holds(
            services,
            d.with_local_ref(key),
        ),
{
    assert(d.object_refcounts[key].wf());
}

/// Whatever other processes do with an object, whether it is on its way to one, and what
/// becomes of objects that can be given up or are registered, the references of a payload stay
/// counted.
pub proof fn other_events_keep_holding(
    services: Seq<BinderObjectId>,
    d: DeviceView,
    key: (u64, u64),
    handler: u64,
)
    requires
        d.wf(),
        holds(services, d),
    ensures
        holds(services, d.recounted(key, |s: ObjectRefState| s.after_increase_remote())),
        holds(services, d.recounted(key, |s: ObjectRefState| s.after_decrease_remote())),
        holds(services, d.recounted(key, |s: ObjectRefState| s.after_mark_pending_remote())),
        holds(services, d.recounted(key, |s: ObjectRefState| s.after_clear_pending_remote())),
        d.collectable(key) ==> holds(services, d.without_service(key)),
        d.registrations < u64::MAX ==> holds(services, d.registered(handler)),
{
    let fresh = (d.object_id_counter, 0u64);
    assert forall|k: (u64, u64)| #[trigger] references(services, k) > 0 implies
        d.object_refcounts.dom().contains(k) && (d.collectable(key) ==> k != key) && (
    d.registrations < u64::MAX ==> k != fresh) by {
        assert(d.retained_services.dom().contains(k));
        assert(d.objects.dom().contains(k));
        assert(d.object_refcounts[k].wf());
    }
}

/// Releasing a payload drops each of its references, and changes nothing else.
pub proof fn releasing_drops_each_reference(
    services: Seq<BinderObjectId>,
    d: DeviceView,
    key: (u64, u64),
)
    requires
        d.wf(),
        holds(services, d),
    ensures
        ({
            let e = released(services, d);
            let s = d.object_refcounts[key];
            &&& e == (DeviceView { object_refcounts: e.object_refcounts, ..d })
            &&& e.object_refcounts.dom() == d.object_refcounts.dom()
            &&& d.object_refcounts.dom().contains(key) ==> e.object_refcounts[key] == s.with(
                s.local_strong_count - references(services, key),
                s.remote_strong_count as int,
                s.new_in_remote,
            )
        }),
    decreases services.len(),
{
    assert(d.object_refcounts.dom().contains(key) ==> d.object_refcounts[key].wf());
    if services.len() > 0 {
        let last = key_of(services.last());
        let f = d.without_local_ref(last);
        dropping_keeps_holding(services, d);
        crate::device::lemma_recounted_wf(
            d,
            last,
            |s: ObjectRefState| s.after_decrease_local(),
        );
        assert(f.object_refcounts.dom() =~= d.object_refcounts.dom());
        releasing_drops_each_reference(services.drop_last(), f, key);
    }
}

/// A service that is on its way to another process, or has arrived there, outlives the payload
/// that it was put into.
pub proof fn sent_service_outlives_its_payload(
    services: Seq<BinderObjectId>,
    d: DeviceView,
    key: (u64, u64),
)
    requires
        d.wf(),
        holds(services, d),
        d.object_refcounts.dom().contains(key),
        d.object_refcounts[key].new_in_remote || d.object_refcounts[key].remote_strong_count > 0,
    ensures
        !released(services, d).collectable(key),
{
    releasing_drops_each_reference(services, d, key);
    assert(d.object_refcounts[key].wf());
    assert(references(services, key) > 0 ==> d.retained_services.dom().contains(key));
}

/// A payload that is released leaves no trace of having held a service.
pub proof fn releasing_undoes_taking(
    services: Seq<BinderObjectId>,
    d: DeviceView,
    id: BinderObjectId,
)
    requires
        d.wf(),
        d.retained_services.dom().contains(key_of(id)),
        d.object_refcounts[key_of(id)].strong_count < u32::MAX,
    ensures
        released(services.push(id), d.with_local_ref(key_of(id))) == released(services, d),
{
    let key = key_of(id);
    assert(d.object_refcounts.dom().contains(key));
    assert(d.object_refcounts[key].wf());
    assert(services.push(id).drop_last() =~= services);
    assert(d.with_local_ref(key).without_local_ref(key).object_refcounts
        =~= d.object_refcounts);
    assert(d.with_local_ref(key).without_local_ref(key) =~= d);
}

} // verus!
