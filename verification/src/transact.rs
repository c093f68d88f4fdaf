//! Sending transactions.
//!
//! A transaction to an object of this process goes straight to its handler. One to a handle
//! goes to the driver, and while it is on its way, the local objects in it count as
//! referenced. What a send comes to is decided here, one exchange with the driver at a time.
use crate::binder_object::{BinderObjectId, TransactionTarget, TransactionTargetHandle};
use crate::command::{encode_all, DriverCommand};
use crate::device::BinderDevice;
use crate::error::{Error, Result, WriteReadError};
use crate::payload::{find_bytes, find_places, PayloadBuilder, PayloadReader};
use crate::sys::{
    BinderTransactionData, BinderTransactionDataPtrs, BinderType, FlatBinderObject, RawFd, RawPid,
    RawUid, TransactionFlags,
};
use crate::wire::get_u32;
use vstd::prelude::*;

verus! {

use crate::binder_object::BinderObjectOrRef;
use crate::command::stream;
use crate::device::{key_of, lemma_recounted_wf, DeviceView};
use crate::payload::{
    bytes_lie_at, fd_count, places_lie_at, type_at, with_fds, PayloadView, ReaderView,
};
use crate::refcount::{references_add_up, ObjectRefState};
use crate::sys::lowest_flag_means_one_way;
use crate::wire::{first_word, u32_at, u64_at, widened_bytes, widened_first};

/// A transaction as a handler gets it.
pub struct Transaction {
    pub code: u32,
    pub payload: PayloadReader,
    pub sender_pid: RawPid,
    pub sender_euid: RawUid,
}

/// The local object that an object in a payload stands for.
pub open spec fn embedded_id(data: Seq<u8>, offset: int) -> BinderObjectId {
    let flat = FlatBinderObject::decoded(data.subrange(offset, offset + 24));
    BinderObjectId { id: flat.data.word, cookie: flat.cookie }
}

/// The local objects among the objects in a payload, in their order.
pub open spec fn embedded(data: Seq<u8>, offsets: Seq<usize>) -> Seq<BinderObjectId>
    decreases offsets.len(),
{
    if offsets.len() == 0 {
        Seq::empty()
    } else {
        let rest = embedded(data, offsets.drop_last());
        let offset = offsets.last() as int;
        if type_at(data, offset) == BinderType::BINDER {
            rest.push(embedded_id(data, offset))
        } else {
            rest
        }
    }
}

/// Whether the data hold each object as far as it is looked at.
pub open spec fn objects_fit(data: Seq<u8>, offsets: Seq<usize>) -> bool {
    forall|i: int|
        0 <= i < offsets.len() ==> #[trigger] offsets[i] + 4 <= data.len() && (type_at(
            data,
            offsets[i] as int,
        ) == BinderType::BINDER ==> offsets[i] + 24 <= data.len())
}

/// Finds the local objects among the objects in a payload.
pub fn embedded_binder_objects(data: &[u8], offsets: &[usize]) -> (r: Vec<BinderObjectId>)
    requires
        objects_fit(data@, offsets@),
    ensures
        r@ == embedded(data@, offsets@),
{
    let mut ids: Vec<BinderObjectId> = Vec::new();
    let mut i: usize = 0;
    assert(offsets@.take(0) =~= Seq::empty());
    while i < offsets.len()
        invariant
            i <= offsets@.len(),
            objects_fit(data@, offsets@),
            ids@ == embedded(data@, offsets@.take(i as int)),
        decreases offsets@.len() - i,
    {
        let offset: usize = offsets[i];
        assert(offsets@.take(i + 1).drop_last() =~= offsets@.take(i as int));
        assert(offsets@[i as int] + 4 <= data@.len());
        if get_u32(data, offset) == BinderType::BINDER {
            let flat = FlatBinderObject::read(data, offset);
            ids.push(BinderObjectId::from_raw(flat.data.binder(), flat.cookie));
        }
        i += 1;
    }
    assert(offsets@.take(i as int) =~= offsets@);
    ids
}

/// The local objects among the objects of a payload are exactly those that were put there:
/// bytes and other ports add none, and a local object adds itself.
pub proof fn pushed_objects_are_embedded(p: PayloadView, port: BinderObjectOrRef, bytes: Seq<u8>)
    requires
        p.wf(),
        p.data.len() + 24 <= usize::MAX,
    ensures
        embedded(p.with_bytes(bytes).data, p.with_bytes(bytes).offsets) == embedded(
            p.data,
            p.offsets,
        ),
        ({
            let q = p.with_object(port.flat().bytes());
            embedded(q.data, q.offsets) == (match port {
                BinderObjectOrRef::Object(v) => embedded(p.data, p.offsets).push(v.0),
                _ => embedded(p.data, p.offsets),
            })
        }),
{
    let flat = port.flat().bytes();
    port.flat().decode_encoded();
    lemma_embedded_stays(p.data, bytes, p.offsets);
    lemma_embedded_stays(p.data, flat, p.offsets);
    let q = p.with_object(flat);
    let at = p.data.len() as int;
    assert(q.offsets.drop_last() =~= p.offsets);
    assert(q.data.subrange(at, at + 24) =~= flat);
    assert(q.data.subrange(at, at + 4) =~= flat.subrange(0, 4));
}

proof fn lemma_embedded_stays(data: Seq<u8>, more: Seq<u8>, offsets: Seq<usize>)
    requires
        forall|i: int| 0 <= i < offsets.len() ==> #[trigger] offsets[i] + 24 <= data.len(),
    ensures
        embedded(data + more, offsets) == embedded(data, offsets),
    decreases offsets.len(),
{
    if offsets.len() > 0 {
        lemma_embedded_stays(data, more, offsets.drop_last());
        let o = offsets.last() as int;
        assert(offsets[offsets.len() - 1] + 24 <= data.len());
        assert((data + more).subrange(o, o + 24) =~= data.subrange(o, o + 24));
        assert((data + more).subrange(o, o + 4) =~= data.subrange(o, o + 4));
    }
}

impl DeviceView {
    /// The device after objects were marked as on their way.
    pub open spec fn marked(self, ids: Seq<BinderObjectId>) -> Self
        decreases ids.len(),
    {
        if ids.len() == 0 {
            self
        } else {
            self.marked(ids.drop_last()).recounted(
                key_of(ids.last()),
                |s: ObjectRefState| s.after_mark_pending_remote(),
            )
        }
    }

    /// The device after the marks on objects were taken back.
    pub open spec fn unmarked(self, ids: Seq<BinderObjectId>) -> Self
        decreases ids.len(),
    {
        if ids.len() == 0 {
            self
        } else {
            self.unmarked(ids.drop_last()).recounted(
                key_of(ids.last()),
                |s: ObjectRefState| s.after_clear_pending_remote(),
            )
        }
    }

    /// Whether one more reference can be counted for each of the objects that are known.
    pub open spec fn can_mark(self, ids: Seq<BinderObjectId>) -> bool {
        forall|i: int|
            0 <= i < ids.len() && self.object_refcounts.dom().contains(key_of(#[trigger] ids[i]))
                ==> self.object_refcounts[key_of(ids[i])].can_mark()
    }
}

/// Whether an object is among those of a list.
pub open spec fn listed(ids: Seq<BinderObjectId>, key: (u64, u64)) -> bool {
    exists|i: int| 0 <= i < ids.len() && key_of(#[trigger] ids[i]) == key
}

proof fn lemma_listed_push(ids: Seq<BinderObjectId>, key: (u64, u64))
    requires
        ids.len() > 0,
    ensures
        listed(ids, key) == (listed(ids.drop_last(), key) || key_of(ids.last()) == key),
{
    if listed(ids, key) {
        let i = choose|i: int| 0 <= i < ids.len() && key_of(#[trigger] ids[i]) == key;
        if i < ids.len() - 1 {
            assert(ids.drop_last()[i] == ids[i]);
        }
    }
    if listed(ids.drop_last(), key) {
        let i = choose|i: int|
            0 <= i < ids.drop_last().len() && key_of(#[trigger] ids.drop_last()[i]) == key;
        assert(ids[i] == ids.drop_last()[i]);
    }
    if key_of(ids.last()) == key {
        assert(key_of(ids[ids.len() - 1]) == key);
    }
}

/// Marking changes the counts of the listed objects that are known, each in the way of a
/// single mark however often it is listed, and nothing else.
pub proof fn marking_is_pointwise(d: DeviceView, ids: Seq<BinderObjectId>)
    requires
        d.wf(),
        d.can_mark(ids),
    ensures
        d.marked(ids).wf(),
        d.marked(ids) == (DeviceView { object_refcounts: d.marked(ids).object_refcounts, ..d }),
        d.marked(ids).object_refcounts.dom() == d.object_refcounts.dom(),
        forall|k: (u64, u64)| #[trigger]
            d.object_refcounts.dom().contains(k) ==> d.marked(ids).object_refcounts[k] == (
            if listed(ids, k) {
                d.object_refcounts[k].after_mark_pending_remote()
            } else {
                d.object_refcounts[k]
            }),
    decreases ids.len(),
{
    if ids.len() > 0 {
        let rest = ids.drop_last();
        assert(d.can_mark(rest)) by {
            assert forall|i: int|
                0 <= i < rest.len() && d.object_refcounts.dom().contains(
                    key_of(#[trigger] rest[i]),
                ) implies d.object_refcounts[key_of(rest[i])].can_mark() by {
                assert(ids[i] == rest[i]);
            }
        }
        marking_is_pointwise(d, rest);
        let key = key_of(ids.last());
        assert(key == key_of(ids[ids.len() - 1]));
        let change = |s: ObjectRefState| s.after_mark_pending_remote();
        if d.object_refcounts.dom().contains(key) {
            assert(d.object_refcounts[key].wf());
        }
        lemma_recounted_wf(d.marked(rest), key, change);
        assert(d.marked(ids).object_refcounts.dom() =~= d.object_refcounts.dom());
        assert forall|k: (u64, u64)| #[trigger]
            d.object_refcounts.dom().contains(k) implies d.marked(ids).object_refcounts[k] == (
        if listed(ids, k) {
            d.object_refcounts[k].after_mark_pending_remote()
        } else {
            d.object_refcounts[k]
        }) by {
            lemma_listed_push(ids, k);
            assert(d.object_refcounts[k].wf());
        }
    }
}

/// Taking marks back changes the counts of the listed objects that are known, each once, and
/// nothing else.
pub proof fn unmarking_is_pointwise(d: DeviceView, ids: Seq<BinderObjectId>)
    requires
        d.wf(),
    ensures
        d.unmarked(ids).wf(),
        d.unmarked(ids) == (DeviceView { object_refcounts: d.unmarked(ids).object_refcounts, ..d }),
        d.unmarked(ids).object_refcounts.dom() == d.object_refcounts.dom(),
        forall|k: (u64, u64)| #[trigger]
            d.object_refcounts.dom().contains(k) ==> d.unmarked(ids).object_refcounts[k] == (
            if listed(ids, k) {
                d.object_refcounts[k].after_clear_pending_remote()
            } else {
                d.object_refcounts[k]
            }),
    decreases ids.len(),
{
    if ids.len() > 0 {
        let rest = ids.drop_last();
        unmarking_is_pointwise(d, rest);
        let key = key_of(ids.last());
        let change = |s: ObjectRefState| s.after_clear_pending_remote();
        if d.object_refcounts.dom().contains(key) {
            assert(d.object_refcounts[key].wf());
        }
        lemma_recounted_wf(d.unmarked(rest), key, change);
        assert(d.unmarked(ids).object_refcounts.dom() =~= d.object_refcounts.dom());
        assert forall|k: (u64, u64)| #[trigger]
            d.object_refcounts.dom().contains(k) implies d.unmarked(ids).object_refcounts[k] == (
        if listed(ids, k) {
            d.object_refcounts[k].after_clear_pending_remote()
        } else {
            d.object_refcounts[k]
        }) by {
            lemma_listed_push(ids, k);
            assert(d.object_refcounts[k].wf());
        }
    }
}

/// A send that fails leaves no trace: taking the marks back restores the device, if none of
/// the objects was on its way before.
pub proof fn failed_send_rolls_back(d: DeviceView, ids: Seq<BinderObjectId>)
    requires
        d.wf(),
        d.can_mark(ids),
        forall|i: int|
            0 <= i < ids.len() && d.object_refcounts.dom().contains(key_of(#[trigger] ids[i]))
                ==> !d.object_refcounts[key_of(ids[i])].new_in_remote,
    ensures
        d.marked(ids).unmarked(ids) == d,
{
    marking_is_pointwise(d, ids);
    unmarking_is_pointwise(d.marked(ids), ids);
    let e = d.marked(ids).unmarked(ids);
    assert forall|k: (u64, u64)| d.object_refcounts.dom().contains(
        k,
    ) implies e.object_refcounts[k] == d.object_refcounts[k] by {
        assert(d.marked(ids).object_refcounts.dom().contains(k));
        assert(d.object_refcounts[k].wf());
        if listed(ids, k) {
            let i = choose|i: int| 0 <= i < ids.len() && key_of(#[trigger] ids[i]) == k;
            assert(!d.object_refcounts[key_of(ids[i])].new_in_remote);
        }
    }
    assert(e.object_refcounts =~= d.object_refcounts);
    assert(e =~= d);
}

/// After a send that failed none of the objects in it counts as on its way, so each of them
/// can be reported as unreferenced again.
pub proof fn failed_send_leaves_nothing_pending(d: DeviceView, ids: Seq<BinderObjectId>, i: int)
    requires
        d.wf(),
        0 <= i < ids.len(),
        d.object_refcounts.dom().contains(key_of(ids[i])),
    ensures
        !d.unmarked(ids).object_refcounts[key_of(ids[i])].new_in_remote,
{
    unmarking_is_pointwise(d, ids);
    assert(listed(ids, key_of(ids[i])));
    assert(d.object_refcounts[key_of(ids[i])].wf());
}

/// While a send is on its way, none of the local objects in it can be collected as a service,
/// however many of the local references to it are dropped.
pub proof fn objects_on_their_way_are_kept(
    d: DeviceView,
    ids: Seq<BinderObjectId>,
    i: int,
    dropped: nat,
)
    requires
        d.wf(),
        d.can_mark(ids),
        0 <= i < ids.len(),
        d.object_refcounts.dom().contains(key_of(ids[i])),
        dropped <= d.object_refcounts[key_of(ids[i])].local_strong_count,
    ensures
        !d.marked(ids).recounted(
            key_of(ids[i]),
            |s: ObjectRefState| s.decreased_local(dropped),
        ).collectable(key_of(ids[i])),
{
    marking_is_pointwise(d, ids);
    let k = key_of(ids[i]);
    assert(listed(ids, k));
    assert(d.object_refcounts[k].wf());
    let s = d.marked(ids).object_refcounts[k];
    assert(s.increased_local(0) == s);
    references_add_up(s, 0, dropped);
}

impl BinderDevice {
    /// Marks the local objects in a transaction that is about to be sent: until the receiver
    /// takes its references they count as referenced.
    pub fn mark_objects_as_pending_remote(&mut self, ids: &[BinderObjectId])
        requires
            old(self)@.wf(),
            old(self)@.can_mark(ids@),
        ensures
            final(self)@ == old(self)@.marked(ids@),
            final(self)@.wf(),
    {
        let ghost before = self@;
        let mut i: usize = 0;
        assert(ids@.take(0) =~= Seq::empty());
        while i < ids.len()
            invariant
                i <= ids@.len(),
                before.wf(),
                before.can_mark(ids@),
                self@ == before.marked(ids@.take(i as int)),
                self@.wf(),
            decreases ids@.len() - i,
        {
            proof {
                let some = ids@.take(i as int);
                let key = key_of(ids@[i as int]);
                assert(before.can_mark(some)) by {
                    assert forall|j: int|
                        0 <= j < some.len() && before.object_refcounts.dom().contains(
                            key_of(#[trigger] some[j]),
                        ) implies before.object_refcounts[key_of(some[j])].can_mark() by {
                        assert(ids@[j] == some[j]);
                    }
                }
                marking_is_pointwise(before, some);
                assert(ids@.take(i + 1).drop_last() =~= some);
                assert(before.object_refcounts.dom().contains(key)
                    ==> before.object_refcounts[key].can_mark());
            }
            self.mark_pending_remote(&ids[i]);
            i += 1;
        }
        assert(ids@.take(i as int) =~= ids@);
    }

    /// Takes the marks of a transaction back that did not arrive.
    pub fn unmark_objects_as_pending_remote(&mut self, ids: &[BinderObjectId])
        requires
            old(self)@.wf(),
        ensures
            final(self)@ == old(self)@.unmarked(ids@),
            final(self)@.wf(),
    {
        let ghost before = self@;
        let mut i: usize = 0;
        assert(ids@.take(0) =~= Seq::empty());
        while i < ids.len()
            invariant
                i <= ids@.len(),
                self@ == before.unmarked(ids@.take(i as int)),
                self@.wf(),
            decreases ids@.len() - i,
        {
            assert(ids@.take(i + 1).drop_last() =~= ids@.take(i as int));
            self.clear_pending_remote(&ids[i]);
            i += 1;
        }
        assert(ids@.take(i as int) =~= ids@);
    }

    /// Whether every local object among these can be marked as on its way.
    pub fn objects_can_be_marked(&self, ids: &[BinderObjectId]) -> (r: bool)
        ensures
            r == self@.can_mark(ids@),
    {
        let mut i: usize = 0;
        while i < ids.len()
            invariant
                i <= ids@.len(),
                forall|j: int|
                    0 <= j < i && self@.object_refcounts.dom().contains(key_of(#[trigger] ids@[j]))
                        ==> self@.object_refcounts[key_of(ids@[j])].can_mark(),
            decreases ids@.len() - i,
        {
            if let Some(state) = self.refcounts(&ids[i]) {
                if state.remote_strong_count == 0 && state.local_strong_count == u32::MAX {
                    assert(!self@.object_refcounts[key_of(ids@[i as int])].can_mark());
                    return false;
                }
            }
            i += 1;
        }
        true
    }
}

/// The flags of a transaction.
pub open spec fn sending_flags(one_way: bool) -> TransactionFlags {
    if one_way {
        TransactionFlags(0x11)
    } else {
        TransactionFlags(TransactionFlags::ACCEPT_FDS)
    }
}

/// The flags of a transaction are those of one that accepts open files, and of one that
/// nobody waits for if that is what it is.
pub proof fn sending_flags_bits(one_way: bool)
    ensures
        sending_flags(one_way).0 == TransactionFlags::ACCEPT_FDS | (if one_way {
            TransactionFlags::ONE_WAY
        } else {
            0
        }),
        sending_flags(one_way).one_way() == one_way,
{
    assert(0x10u32 | 0x01u32 == 0x11u32) by (bit_vector);
    assert(0x10u32 | 0u32 == 0x10u32) by (bit_vector);
    assert(0x11u32 & 0x01u32 == 0x01u32) by (bit_vector);
    assert(0x10u32 & 0x01u32 == 0u32) by (bit_vector);
}

/// A transaction to a handle, with a payload that lies at the addresses given.
pub open spec fn transaction_data(
    handle: u32,
    code: u32,
    one_way: bool,
    p: PayloadView,
    data: BinderTransactionDataPtrs,
) -> BinderTransactionData {
    BinderTransactionData {
        target: crate::sys::TransactionTarget::of_handle(handle),
        cookie: 0,
        code,
        flags: sending_flags(one_way),
        sender_pid: 0,
        sender_euid: 0,
        data_size: p.data.len() as u64,
        offsets_size: (p.offsets.len() * 8) as u64,
        data,
    }
}

/// In a sound payload there are at most as many objects as fit into its data.
pub proof fn objects_take_room(p: PayloadView)
    requires
        p.wf(),
    ensures
        p.offsets.len() * 24 <= p.data.len(),
{
    lemma_objects_take_room(p, p.offsets.len() as int);
}

proof fn lemma_objects_take_room(p: PayloadView, n: int)
    requires
        p.wf(),
        0 <= n <= p.offsets.len(),
    ensures
        n * 24 <= p.data.len(),
        0 < n ==> (n - 1) * 24 <= p.offsets[n - 1],
    decreases n,
{
    if n > 0 {
        lemma_objects_take_room(p, n - 1);
        assert(p.offsets[n - 1] + 24 <= p.data.len());
        if n > 1 {
            assert(p.offsets[n - 2] + 24 <= p.offsets[n - 1]);
        }
    }
}

/// A transaction on its way to another process.
pub struct Outgoing {
    /// What the driver is given.
    pub transaction: BinderTransactionData,
    /// The local objects in it.
    pub objects: Vec<BinderObjectId>,
    /// Whether nobody waits for a reply.
    pub one_way: bool,
    /// Whether it has been given to the driver.
    pub written: bool,
}

impl Outgoing {
    /// The commands that send it.
    pub open spec fn commands(self) -> Seq<DriverCommand> {
        seq![
            DriverCommand::EnterLooper,
            DriverCommand::Transaction(self.transaction),
            DriverCommand::ExitLooper,
        ]
    }

    /// What to write in the next exchange with the driver. One that waits for a reply is
    /// written once; one that nobody waits for is written anew each time.
    pub fn next_write(&mut self) -> (r: Option<Vec<u8>>)
        ensures
            r is Some <==> old(self).one_way || !old(self).written,
            r matches Some(bytes) ==> bytes@ == stream(old(self).commands()),
            final(self).written,
            final(self).transaction == old(self).transaction,
            final(self).objects == old(self).objects,
            final(self).one_way == old(self).one_way,
    {
        if self.written && !self.one_way {
            return None;
        }
        self.written = true;
        let commands: [DriverCommand; 3] = [
            DriverCommand::EnterLooper,
            DriverCommand::Transaction(self.transaction),
            DriverCommand::ExitLooper,
        ];
        assert(commands@ =~= self.commands());
        Some(encode_all(&commands))
    }
}

/// The error that a sender gets for a failed exchange, unless the exchange is to be tried
/// again.
pub open spec fn sender_error(e: WriteReadError) -> Option<Error> {
    match e {
        WriteReadError::NoDevice => Some(Error::Shutdown),
        WriteReadError::DeadReply => Some(Error::DeadReply),
        WriteReadError::ObjectNotFound => Some(Error::ObjectNotFound),
        WriteReadError::FailedReply => Some(Error::Unknown(1)),
        WriteReadError::FrozenReply => Some(Error::FrozenReply),
        WriteReadError::AsyncBufferFull => None,
        WriteReadError::WriteReadIoctlFailed(err) => Some(Error::Binder(err)),
    }
}

/// The error that a sender gets for a failed exchange.
pub fn to_sender_error(e: WriteReadError) -> (r: Option<Error>)
    ensures
        r == sender_error(e),
{
    match e {
        WriteReadError::NoDevice => Some(Error::Shutdown),
        WriteReadError::DeadReply => Some(Error::DeadReply),
        WriteReadError::ObjectNotFound => Some(Error::ObjectNotFound),
        WriteReadError::FailedReply => Some(Error::Unknown(1)),
        WriteReadError::FrozenReply => Some(Error::FrozenReply),
        WriteReadError::AsyncBufferFull => None,
        WriteReadError::WriteReadIoctlFailed(err) => Some(Error::Binder(err)),
    }
}

/// What came of one exchange with the driver: nothing yet, a reply with its code, or an error.
pub type Exchanged = Option<core::result::Result<(u32, PayloadReader), WriteReadError>>;

/// What someone who waits for a reply does after an exchange.
pub enum BlockingStep {
    /// The wait is over.
    Done(Result<(u32, PayloadReader)>),
    /// Let some time pass, then exchange again.
    Sleep,
    /// Exchange again.
    Again,
}

/// What someone who does not wait for a reply does after an exchange.
pub enum OneWayStep {
    /// The transaction is sent or has failed. If there was a reply all the same, it is handed
    /// out to be ended.
    Done(Result<()>, Option<PayloadReader>),
    /// Let others run, then write the transaction again.
    Again,
}

/// Where a transaction goes.
pub enum Started {
    /// To the handler in this slot.
    Local(u64, Transaction),
    /// To the driver.
    Remote(Outgoing),
}

/// The reader that a handler of this process gets for a payload.
pub open spec fn local_reader(p: PayloadView, duplicates: Seq<RawFd>) -> ReaderView {
    ReaderView {
        data: with_fds(p.data, p.offsets, duplicates),
        offsets: Some(p.offsets),
        next_offset_index: 0,
        next_data_index: 0,
    }
}

/// Whether a transaction can be started: in this process there are no buffers to copy and the
/// open files were duplicated; to the driver the objects in it can be marked.
pub open spec fn can_start(
    d: DeviceView,
    target: TransactionTargetHandle,
    p: PayloadView,
    duplicates: Seq<RawFd>,
) -> bool {
    &&& p.wf()
    &&& match target {
        TransactionTargetHandle::Local(_) => !p.has_buffers() && duplicates.len() == fd_count(
            p.data,
            p.offsets,
        ),
        TransactionTargetHandle::Remote(_) => d.can_mark(embedded(p.data, p.offsets)),
    }
}

/// What starting a transaction to an object of this process comes to: it goes to the handler
/// of the object, and fails exactly if there is no such object.
pub open spec fn started_locally(
    d: DeviceView,
    id: BinderObjectId,
    code: u32,
    p: PayloadView,
    duplicates: Seq<RawFd>,
    pid: RawPid,
    euid: RawUid,
    r: Result<Started>,
) -> bool {
    match r {
        Ok(Started::Local(slot, t)) => {
            &&& d.objects.dom().contains(key_of(id))
            &&& slot == d.objects[key_of(id)]
            &&& t.code == code
            &&& t.payload@ == local_reader(p, duplicates)
            &&& t.payload@.wf()
            &&& t.payload.to_free() == Seq::<DriverCommand>::empty()
            &&& t.sender_pid == pid
            &&& t.sender_euid == euid
        },
        Ok(Started::Remote(_)) => false,
        Err(e) => !d.objects.dom().contains(key_of(id)) && e == Error::ObjectNotFound,
    }
}

/// What is readied for the driver: the transaction with the payload wherever it lies.
pub open spec fn started_remotely(
    handle: u32,
    code: u32,
    one_way: bool,
    p: PayloadView,
    out: Outgoing,
) -> bool {
    &&& out.transaction == transaction_data(handle, code, one_way, p, out.transaction.data)
    &&& first_word(out.transaction.target.word) == handle
    &&& out.transaction.code == code
    &&& out.transaction.flags.one_way() == one_way
    &&& out.transaction.data_size == p.data.len()
    &&& out.transaction.offsets_size == 8 * p.offsets.len()
    &&& bytes_lie_at(p.data, out.transaction.data.buffer)
    &&& places_lie_at(p.offsets, out.transaction.data.offsets)
    &&& out.objects@ == embedded(p.data, p.offsets)
    &&& out.one_way == one_way
    &&& !out.written
}

impl BinderDevice {
    /// Hands a transaction to an object of this process: the slot of its handler, and the
    /// transaction for it.
    pub fn self_transact(
        &self,
        id: &BinderObjectId,
        code: u32,
        data: &PayloadBuilder<'_>,
        duplicates: &[RawFd],
        pid: RawPid,
        euid: RawUid,
    ) -> (r: Result<(u64, Transaction)>)
        requires
            data@.wf(),
            !data@.has_buffers(),
            duplicates@.len() == fd_count(data@.data, data@.offsets),
        ensures
            match r {
                Ok((slot, t)) => {
                    &&& self@.objects.dom().contains(key_of(*id))
                    &&& slot == self@.objects[key_of(*id)]
                    &&& t.code == code
                    &&& t.payload@ == local_reader(data@, duplicates@)
                    &&& t.payload@.wf()
                    &&& t.payload.to_free() == Seq::<DriverCommand>::empty()
                    &&& t.sender_pid == pid
                    &&& t.sender_euid == euid
                },
                Err(e) => !self@.objects.dom().contains(key_of(*id)) && e == Error::ObjectNotFound,
            },
    {
        match self.get_handler(id) {
            Some(slot) => {
                let payload = PayloadReader::from_builder(data, duplicates);
                Ok((slot, Transaction { code, payload, sender_pid: pid, sender_euid: euid }))
            },
            None => Err(Error::ObjectNotFound),
        }
    }

    /// What the sender of a transaction to this process gets as the reply of the handler.
    pub fn self_reply(code: u32, reply: &PayloadBuilder<'_>, duplicates: &[RawFd]) -> (r: (
        u32,
        PayloadReader,
    ))
        requires
            reply@.wf(),
            !reply@.has_buffers(),
            duplicates@.len() == fd_count(reply@.data, reply@.offsets),
        ensures
            r.0 == code,
            r.1@ == local_reader(reply@, duplicates@),
            r.1@.wf(),
            r.1.to_free() == Seq::<DriverCommand>::empty(),
    {
        (code, PayloadReader::from_builder(reply, duplicates))
    }

    /// Readies a transaction to a handle, whose payload lies at the addresses given. The local
    /// objects in it count as referenced from now on.
    pub fn remote_transact(
        &mut self,
        handle: u32,
        code: u32,
        one_way: bool,
        data: &PayloadBuilder<'_>,
        ptrs: BinderTransactionDataPtrs,
    ) -> (r: Outgoing)
        requires
            old(self)@.wf(),
            data@.wf(),
            old(self)@.can_mark(embedded(data@.data, data@.offsets)),
        ensures
            r.transaction == transaction_data(handle, code, one_way, data@, ptrs),
            first_word(r.transaction.target.word) == handle,
            r.transaction.code == code,
            r.transaction.flags.one_way() == one_way,
            r.transaction.data_size == data@.data.len(),
            r.transaction.offsets_size == 8 * data@.offsets.len(),
            r.transaction.data == ptrs,
            r.objects@ == embedded(data@.data, data@.offsets),
            r.one_way == one_way,
            !r.written,
            final(self)@ == old(self)@.marked(r.objects@),
            final(self)@.wf(),
    {
        proof {
            objects_take_room(data@);
            transaction_goes_to_its_handle(handle, code, one_way, data@, ptrs);
        }
        let transaction = BinderTransactionData {
            target: crate::sys::TransactionTarget::from_handle(handle),
            cookie: 0,
            code,
            flags: if one_way {
                TransactionFlags(0x11)
            } else {
                TransactionFlags(TransactionFlags::ACCEPT_FDS)
            },
            sender_pid: 0,
            sender_euid: 0,
            data_size: data.data_buffer_len() as u64,
            offsets_size: (data.offset_buffer_len() as u64) * 8,
            data: ptrs,
        };
        let objects = embedded_binder_objects(data.data(), data.offsets());
        self.mark_objects_as_pending_remote(objects.as_slice());
        Outgoing { transaction, objects, one_way, written: false }
    }

    fn start_transact<T: TransactionTarget>(
        &mut self,
        target: &T,
        code: u32,
        one_way: bool,
        data: &PayloadBuilder<'_>,
        duplicates: &[RawFd],
        pid: RawPid,
        euid: RawUid,
    ) -> (r: Result<Started>)
        requires
            old(self)@.wf(),
            can_start(old(self)@, target.target(), data@, duplicates@),
        ensures
            match target.target() {
                TransactionTargetHandle::Local(id) => final(self)@ == old(self)@
                    && started_locally(old(self)@, id, code, data@, duplicates@, pid, euid, r),
                TransactionTargetHandle::Remote(handle) => {
                    &&& r matches Ok(Started::Remote(out))
                    &&& started_remotely(handle, code, one_way, data@, out)
                    &&& final(self)@ == old(self)@.marked(out.objects@)
                },
            },
            final(self)@.wf(),
    {
        match target.get_transaction_target_handle() {
            TransactionTargetHandle::Local(id) => match self.self_transact(
                &id,
                code,
                data,
                duplicates,
                pid,
                euid,
            ) {
                Ok((slot, t)) => Ok(Started::Local(slot, t)),
                Err(e) => Err(e),
            },
            TransactionTargetHandle::Remote(handle) => {
                let ptrs = BinderTransactionDataPtrs {
                    buffer: find_bytes(data.data()),
                    offsets: find_places(data.offsets()),
                };
                Ok(Started::Remote(self.remote_transact(handle, code, one_way, data, ptrs)))
            },
        }
    }

    /// Starts a transaction whose sender waits for the reply: one to an object of this process
    /// goes to its handler, one to a handle is readied for the driver.
    pub fn transact_blocking<T: TransactionTarget>(
        &mut self,
        target: &T,
        code: u32,
        data: &PayloadBuilder<'_>,
        duplicates: &[RawFd],
        pid: RawPid,
        euid: RawUid,
    ) -> (r: Result<Started>)
        requires
            old(self)@.wf(),
            can_start(old(self)@, target.target(), data@, duplicates@),
        ensures
            match target.target() {
                TransactionTargetHandle::Local(id) => final(self)@ == old(self)@
                    && started_locally(old(self)@, id, code, data@, duplicates@, pid, euid, r),
                TransactionTargetHandle::Remote(handle) => {
                    &&& r matches Ok(Started::Remote(out))
                    &&& started_remotely(handle, code, false, data@, out)
                    &&& final(self)@ == old(self)@.marked(out.objects@)
                },
            },
            final(self)@.wf(),
    {
        self.start_transact(target, code, false, data, duplicates, pid, euid)
    }

    /// Starts a transaction that has no reply: one to an object of this process goes to its
    /// handler, one to a handle is readied for the driver.
    pub fn transact_one_way<T: TransactionTarget>(
        &mut self,
        target: &T,
        code: u32,
        data: &PayloadBuilder<'_>,
        duplicates: &[RawFd],
        pid: RawPid,
        euid: RawUid,
    ) -> (r: Result<Started>)
        requires
            old(self)@.wf(),
            can_start(old(self)@, target.target(), data@, duplicates@),
        ensures
            match target.target() {
                TransactionTargetHandle::Local(id) => final(self)@ == old(self)@
                    && started_locally(old(self)@, id, code, data@, duplicates@, pid, euid, r),
                TransactionTargetHandle::Remote(handle) => {
                    &&& r matches Ok(Started::Remote(out))
                    &&& started_remotely(handle, code, true, data@, out)
                    &&& final(self)@ == old(self)@.marked(out.objects@)
                },
            },
            final(self)@.wf(),
    {
        self.start_transact(target, code, true, data, duplicates, pid, euid)
    }

    /// What someone who waits for a reply does after an exchange with the driver. If the
    /// transaction failed, the objects in it are no longer on their way.
    pub fn after_blocking_exchange(&mut self, sent: &Outgoing, outcome: Exchanged) -> (r:
        BlockingStep)
        requires
            old(self)@.wf(),
        ensures
            match outcome {
                None => r is Again && final(self)@ == old(self)@,
                Some(Ok(reply)) => r == BlockingStep::Done(
                    Ok::<(u32, PayloadReader), Error>(reply),
                ) && final(self)@ == old(self)@,
                Some(Err(e)) => match sender_error(e) {
                    None => r is Sleep && final(self)@ == old(self)@,
                    Some(error) => r == BlockingStep::Done(
                        Err::<(u32, PayloadReader), Error>(error),
                    ) && final(self)@ == old(self)@.unmarked(sent.objects@),
                },
            },
            final(self)@.wf(),
    {
        match outcome {
            None => BlockingStep::Again,
            Some(Ok(reply)) => BlockingStep::Done(Ok(reply)),
            Some(Err(e)) => match to_sender_error(e) {
                None => BlockingStep::Sleep,
                Some(error) => {
                    self.unmark_objects_as_pending_remote(sent.objects.as_slice());
                    BlockingStep::Done(Err(error))
                },
            },
        }
    }

    /// What someone who does not wait for a reply does after an exchange with the driver. If
    /// the transaction failed, the objects in it are no longer on their way.
    pub fn after_one_way_exchange(&mut self, sent: &Outgoing, outcome: Exchanged) -> (r: OneWayStep)
        requires
            old(self)@.wf(),
        ensures
            match outcome {
                None => r == OneWayStep::Done(Ok::<(), Error>(()), None) && final(self)@ == old(
                    self,
                )@,
                Some(Ok(reply)) => r == OneWayStep::Done(Ok::<(), Error>(()), Some(reply.1))
                    && final(self)@ == old(self)@,
                Some(Err(e)) => match sender_error(e) {
                    None => r is Again && final(self)@ == old(self)@,
                    Some(error) => r == OneWayStep::Done(Err::<(), Error>(error), None)
                        && final(self)@ == old(self)@.unmarked(sent.objects@),
                },
            },
            final(self)@.wf(),
    {
        match outcome {
            None => OneWayStep::Done(Ok(()), None),
            Some(Ok((_, reply))) => OneWayStep::Done(Ok(()), Some(reply)),
            Some(Err(e)) => match to_sender_error(e) {
                None => OneWayStep::Again,
                Some(error) => {
                    self.unmark_objects_as_pending_remote(sent.objects.as_slice());
                    OneWayStep::Done(Err(error), None)
                },
            },
        }
    }
}

/// A transaction that is readied for the driver names the handle it goes to, in its first four
/// bytes, and the code. It says how long the payload is and where it lies, and whether anyone
/// waits; open files are always accepted. It does not speak of its sender, which the driver
/// does.
pub proof fn transaction_goes_to_its_handle(
    handle: u32,
    code: u32,
    one_way: bool,
    p: PayloadView,
    ptrs: BinderTransactionDataPtrs,
)
    requires
        p.wf(),
    ensures
        ({
            let t = transaction_data(handle, code, one_way, p, ptrs);
            &&& first_word(t.target.word) == handle
            &&& u32_at(t.bytes(), 0) == handle
            &&& u32_at(t.bytes(), 16) == code
            &&& t.code == code
            &&& t.flags.one_way() == one_way
            &&& t.flags.0 % 2 == (if one_way {
                1int
            } else {
                0
            })
            &&& t.flags.0 & 0x10 == 0x10
            &&& t.flags.0 <= 0x11
            &&& t.data_size == p.data.len()
            &&& t.offsets_size == 8 * p.offsets.len()
            &&& t.data == ptrs
            &&& t.cookie == 0 && t.sender_pid == 0 && t.sender_euid == 0
        }),
{
    let t = transaction_data(handle, code, one_way, p, ptrs);
    objects_take_room(p);
    widened_first(handle);
    widened_bytes(handle);
    sending_flags_bits(one_way);
    lowest_flag_means_one_way(t.flags.0);
    t.words_in_memory();
    assert(t.bytes().subrange(0, 4) =~= t.bytes().subrange(0, 8).subrange(0, 4));
    crate::wire::u64_at_bytes(t.bytes(), 0);
    crate::wire::ne32_facts(handle);
    assert(0x11u32 & 0x10u32 == 0x10u32) by (bit_vector);
    assert(0x10u32 & 0x10u32 == 0x10u32) by (bit_vector);
}

/// Transactions to two handles have different targets, and so does any of them from one to
/// the context manager, whose handle is zero.
pub proof fn transactions_to_two_handles_differ(
    a: u32,
    b: u32,
    code: u32,
    one_way: bool,
    p: PayloadView,
    ptrs: BinderTransactionDataPtrs,
)
    requires
        p.wf(),
    ensures
        a != b ==> transaction_data(a, code, one_way, p, ptrs).target != transaction_data(
            b,
            code,
            one_way,
            p,
            ptrs,
        ).target,
{
    transaction_goes_to_its_handle(a, code, one_way, p, ptrs);
    transaction_goes_to_its_handle(b, code, one_way, p, ptrs);
}

/// What sends a transaction: a looper is entered, the transaction is sent, and the looper is
/// left. The transaction stands behind its code.
pub proof fn sending_is_framed(out: Outgoing)
    ensures
        ({
            let bytes = stream(out.commands());
            &&& bytes.len() == 76
            &&& u32_at(bytes, 0) == 0x630c
            &&& u32_at(bytes, 4) == 0x4040_6300
            &&& BinderTransactionData::decoded(bytes.subrange(8, 72)) == out.transaction
            &&& u32_at(bytes, 72) == 0x630d
        }),
{
    let commands = out.commands();
    let bytes = stream(commands);
    let (enter, send, exit) = (
        DriverCommand::EnterLooper,
        DriverCommand::Transaction(out.transaction),
        DriverCommand::ExitLooper,
    );
    crate::command::commands_in_memory(enter);
    crate::command::commands_in_memory(send);
    crate::command::commands_in_memory(exit);
    crate::command::streams_join(seq![enter, send], seq![exit], exit);
    crate::command::streams_join(seq![enter], seq![send], send);
    crate::command::streams_join(seq![enter], seq![send], enter);
    assert(seq![enter] + seq![send] =~= seq![enter, send]);
    assert(seq![enter, send] + seq![exit] =~= commands);
    assert(bytes =~= enter.bytes() + send.bytes() + exit.bytes());
    assert(bytes.subrange(0, 4) =~= enter.bytes().subrange(0, 4));
    assert(bytes.subrange(4, 8) =~= send.bytes().subrange(0, 4));
    assert(bytes.subrange(8, 72) =~= send.bytes().subrange(4, 68));
    assert(bytes.subrange(72, 76) =~= exit.bytes().subrange(0, 4));
}

/// A transaction to an object of this process goes to the slot that is registered for it, with
/// the code, the payload and the sender as they were given, and never to the driver. It fails
/// if and only if nothing is registered.
pub proof fn local_transactions_stay(
    d: DeviceView,
    id: BinderObjectId,
    code: u32,
    p: PayloadView,
    duplicates: Seq<RawFd>,
    pid: RawPid,
    euid: RawUid,
    r: Result<Started>,
)
    requires
        started_locally(d, id, code, p, duplicates, pid, euid, r),
    ensures
        !(r matches Ok(Started::Remote(_))),
        r is Err <==> !d.objects.dom().contains((id.id, id.cookie)),
        r is Err ==> r->Err_0 == Error::ObjectNotFound,
        r matches Ok(Started::Local(slot, t)) ==> slot == d.objects[(id.id, id.cookie)] && t.code
            == code && t.sender_pid == pid && t.sender_euid == euid && t.payload@.data.len()
            == with_fds(p.data, p.offsets, duplicates).len() && t.payload@.offsets == Some(p.offsets)
            && t.payload@.next_data_index == 0 && t.payload@.next_offset_index == 0,
{
}

/// A handler of this process reads what was put into the payload: a payload without open files
/// is read as it is, from the start.
pub proof fn local_payload_is_read_from_the_start(p: PayloadView, duplicates: Seq<RawFd>)
    requires
        p.wf(),
    ensures
        local_reader(p, duplicates).next_data_index == 0,
        local_reader(p, duplicates).next_offset_index == 0,
        local_reader(p, duplicates).offsets == Some(p.offsets),
        local_reader(p, duplicates).data.len() == p.data.len(),
        fd_count(p.data, p.offsets) == 0 ==> local_reader(p, duplicates).data == p.data,
{
    crate::payload::files_are_replaced_in_place(p, duplicates);
}

/// Which errors a sender sees: a full buffer is tried again, and nothing else is. Everything
/// else is told apart from the rest, and an error of the exchange itself is handed on.
pub proof fn sender_errors_are_told_apart(a: WriteReadError, b: WriteReadError)
    ensures
        sender_error(a) is None <==> a is AsyncBufferFull,
        sender_error(a) is Some && sender_error(a) == sender_error(b) ==> a == b,
        a matches WriteReadError::WriteReadIoctlFailed(err) ==> sender_error(a) == Some(
            Error::Binder(err),
        ),
        sender_error(a) == Some(Error::Shutdown) <==> a is NoDevice,
        sender_error(a) == Some(Error::DeadReply) <==> a is DeadReply,
        sender_error(a) == Some(Error::FrozenReply) <==> a is FrozenReply,
        sender_error(a) == Some(Error::ObjectNotFound) <==> a is ObjectNotFound,
{
}

/// A local object is in a payload exactly if an object of its type and identity was put there.
pub proof fn embedded_objects_are_those_in_the_data(data: Seq<u8>, offsets: Seq<usize>, i: int)
    requires
        0 <= i < offsets.len(),
    ensures
        u32_at(data, offsets[i] as int) == 0x7362_2a85 ==> exists|j: int|
            0 <= j < embedded(data, offsets).len() && #[trigger] embedded(data, offsets)[j]
                == embedded_id(data, offsets[i] as int),
        embedded(data, offsets).len() <= offsets.len(),
        forall|j: int|
            0 <= j < embedded(data, offsets).len() ==> exists|k: int|
                0 <= k < offsets.len() && #[trigger] embedded(data, offsets)[j] == embedded_id(
                    data,
                    #[trigger] offsets[k] as int,
                ) && u32_at(data, offsets[k] as int) == 0x7362_2a85,
    decreases offsets.len(),
{
    let rest = offsets.drop_last();
    let n = offsets.len() - 1;
    let all = embedded(data, offsets);
    let some = embedded(data, rest);
    if rest.len() > 0 {
        embedded_objects_are_those_in_the_data(data, rest, if i < n {
            i
        } else {
            0
        });
    }
    if i < n {
        if u32_at(data, offsets[i] as int) == 0x7362_2a85 {
            let j = choose|j: int|
                0 <= j < some.len() && #[trigger] some[j] == embedded_id(data, rest[i] as int);
            assert(all[j] == some[j]);
        }
    } else if u32_at(data, offsets[i] as int) == 0x7362_2a85 {
        assert(all[all.len() - 1] == embedded_id(data, offsets[i] as int));
    }
    assert forall|j: int| 0 <= j < all.len() implies exists|k: int|
        0 <= k < offsets.len() && #[trigger] all[j] == embedded_id(
            data,
            #[trigger] offsets[k] as int,
        ) && u32_at(data, offsets[k] as int) == 0x7362_2a85 by {
        if j < some.len() {
            assert(all[j] == some[j]);
            let k = choose|k: int|
                0 <= k < rest.len() && some[j] == embedded_id(data, #[trigger] rest[k] as int)
                    && u32_at(data, rest[k] as int) == 0x7362_2a85;
            assert(offsets[k] == rest[k]);
        } else {
            assert(all[j] == embedded_id(data, offsets[n] as int));
        }
    }
}

/// The identity of a local object in a payload is the two words behind its type and flags.
pub proof fn embedded_identity(data: Seq<u8>, offset: int)
    requires
        0 <= offset,
        offset + 24 <= data.len(),
    ensures
        embedded_id(data, offset).id == u64_at(data, offset + 8),
        embedded_id(data, offset).cookie == u64_at(data, offset + 16),
{
    let flat = data.subrange(offset, offset + 24);
    assert(flat.subrange(8, 16) =~= data.subrange(offset + 8, offset + 16));
    assert(flat.subrange(16, 24) =~= data.subrange(offset + 16, offset + 24));
}

} // verus!
