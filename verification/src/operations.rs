//! What the operations do, said of what they are given and of what they give.
use crate::binder_object::{
    BinderObject, BinderObjectId, BinderObjectOrRef, BinderRef, ContextManagerBinderRef,
    TransactionTarget, TransactionTargetHandle, UntypedBinderObject, WeakBinderObject,
    WeakBinderRef,
};
use crate::command::DriverCommand;
use crate::device::BinderDevice;
use crate::error::{Error, Result, WriteReadError};
use crate::looper::{
    exchange_request, exchange_started, failed_reply, lent_places, looper_start, looper_step,
    on_reply, Ending, ExchangeStep, Incoming, LooperStep, OutgoingReply, ReturnAction,
    ReturnMessage, ReturnStream,
};
use crate::payload::{PayloadBuilder, PayloadReader};
use crate::sys::{
    BinderExtendedError, BinderFrozenStateInfo, BinderPtrCookie, BinderTransactionData,
    BinderTransactionDataPtrs, BinderWriteRead, RawFd, RawPid, RawUid,
};
use crate::transact::{
    embedded_binder_objects, to_sender_error, BlockingStep, Exchanged, OneWayStep, Outgoing,
    Started, Transaction,
};
use rustix::io::Errno;
use vstd::prelude::*;

verus! {

use crate::command::commands_in_memory;
use crate::device::key_of;
use crate::looper::{
    argument_len, lent_buffers_are_read_and_given_back, lent_reader, lent_release, message,
    message_at, messages_change_what_they_name, refusal_in_order, reply_points_at_its_payload,
};
use crate::payload::{bytes_lie_at, fd_count, lemma_no_files, places_lie_at};
use crate::sys::lowest_flag_means_one_way;
use crate::transact::{
    embedded, embedded_id, embedded_identity, embedded_objects_are_those_in_the_data, listed,
    marking_is_pointwise, sending_is_framed, unmarking_is_pointwise,
};
use crate::wire::{
    first_word, twos_complement, u32_at, u32_at_bytes, u64_at, u64_at_bytes,
};

/// Each thing that a transaction can be sent to says itself where the transaction goes: an
/// object of this process names its identity, and a reference its handle. The context manager
/// is an object of this process if it has a number, and behind handle zero if not.
pub proof fn targets_name_themselves<H>(
    object: &BinderObject<H>,
    untyped: &UntypedBinderObject,
    weak_object: &WeakBinderObject,
    strong: &BinderRef,
    weak: &WeakBinderRef,
    manager: &ContextManagerBinderRef,
    port: &BinderObjectOrRef,
    to: TransactionTargetHandle,
)
    ensures
        call_ensures(
            <BinderObject<H> as TransactionTarget>::get_transaction_target_handle,
            (object,),
            to,
        ) ==> to == TransactionTargetHandle::Local(object.id),
        call_ensures(
            <UntypedBinderObject as TransactionTarget>::get_transaction_target_handle,
            (untyped,),
            to,
        ) ==> to == TransactionTargetHandle::Local(untyped.0),
        call_ensures(
            <WeakBinderObject as TransactionTarget>::get_transaction_target_handle,
            (weak_object,),
            to,
        ) ==> to == TransactionTargetHandle::Local(weak_object.id),
        call_ensures(
            <BinderRef as TransactionTarget>::get_transaction_target_handle,
            (strong,),
            to,
        ) ==> to == TransactionTargetHandle::Remote(strong.weak.id),
        call_ensures(
            <WeakBinderRef as TransactionTarget>::get_transaction_target_handle,
            (weak,),
            to,
        ) ==> to == TransactionTargetHandle::Remote(weak.id),
        call_ensures(
            <ContextManagerBinderRef as TransactionTarget>::get_transaction_target_handle,
            (manager,),
            to,
        ) ==> match to {
            TransactionTargetHandle::Local(id) => id.id == manager.0 && id.id != 0 && id.cookie
                == 0,
            TransactionTargetHandle::Remote(handle) => handle == 0 && manager.0 == 0,
        },
        call_ensures(
            <BinderObjectOrRef as TransactionTarget>::get_transaction_target_handle,
            (port,),
            to,
        ) ==> match *port {
            BinderObjectOrRef::Object(v) => to == TransactionTargetHandle::Local(v.0),
            BinderObjectOrRef::WeakObject(v) => to == TransactionTargetHandle::Local(v.id),
            BinderObjectOrRef::Ref(v) => to == TransactionTargetHandle::Remote(v.weak.id),
            BinderObjectOrRef::WeakRef(v) => to == TransactionTargetHandle::Remote(v.id),
        },
{
}

/// What a readied transaction to a handle is: it names the handle and the code, says how long
/// the payload is and where its bytes and its places lie, and whether anyone waits.
pub open spec fn readied(
    out: Outgoing,
    handle: u32,
    code: u32,
    one_way: bool,
    data: Seq<u8>,
    offsets: Seq<usize>,
) -> bool {
    let t = out.transaction;
    &&& first_word(t.target.word) == handle
    &&& t.code == code
    &&& t.flags.0 == (if one_way {
        0x11u32
    } else {
        0x10u32
    })
    &&& t.cookie == 0 && t.sender_pid == 0 && t.sender_euid == 0
    &&& t.data_size == data.len()
    &&& t.offsets_size == 8 * offsets.len()
    &&& out.one_way == one_way
    &&& !out.written
    &&& out.objects@ == embedded(data, offsets)
}

/// A transaction goes where its target says. To an object of this process: to the slot of its
/// handler, or nowhere if there is none. To a handle: to the driver, for that handle, with the
/// code and the payload that were given.
pub proof fn transactions_go_where_the_target_says<'a, T: TransactionTarget>(
    device: &mut BinderDevice,
    target: &T,
    to: TransactionTargetHandle,
    code: u32,
    one_way: bool,
    data: &PayloadBuilder<'a>,
    duplicates: &[RawFd],
    pid: RawPid,
    euid: RawUid,
    r: Result<Started>,
)
    requires
        call_ensures(T::get_transaction_target_handle, (target,), to),
        if one_way {
            call_ensures(
                BinderDevice::transact_one_way::<T>,
                (device, target, code, data, duplicates, pid, euid),
                r,
            )
        } else {
            call_ensures(
                BinderDevice::transact_blocking::<T>,
                (device, target, code, data, duplicates, pid, euid),
                r,
            )
        },
    ensures
        match to {
            TransactionTargetHandle::Remote(handle) => {
                &&& r matches Ok(Started::Remote(out))
                &&& readied(out, handle, code, one_way, data@.data, data@.offsets)
                &&& bytes_lie_at(data@.data, out.transaction.data.buffer)
                &&& places_lie_at(data@.offsets, out.transaction.data.offsets)
            },
            TransactionTargetHandle::Local(id) => {
                &&& final(device)@ == old(device)@
                &&& match r {
                    Ok(Started::Local(slot, t)) => {
                        &&& old(device)@.objects.dom().contains((id.id, id.cookie))
                        &&& slot == old(device)@.objects[(id.id, id.cookie)]
                        &&& t.code == code
                        &&& t.sender_pid == pid && t.sender_euid == euid
                        &&& t.payload@.offsets == Some(data@.offsets)
                        &&& t.payload@.next_data_index == 0
                        &&& t.payload@.next_offset_index == 0
                        &&& fd_count(data@.data, data@.offsets) == 0 ==> t.payload@.data
                            == data@.data
                        &&& t.payload.to_free().len() == 0
                    },
                    Ok(Started::Remote(_)) => false,
                    Err(e) => e == Error::ObjectNotFound && !old(device)@.objects.dom().contains(
                        (id.id, id.cookie),
                    ),
                }
            },
        },
{
    if fd_count(data@.data, data@.offsets) == 0 {
        lemma_no_files(data@.data, data@.offsets, duplicates@);
    }
}

/// A transaction to a handle is readied for that handle, whatever is sent, and points where it
/// was told that the payload lies.
pub proof fn remote_transactions_name_their_handle<'a>(
    device: &mut BinderDevice,
    handle: u32,
    code: u32,
    one_way: bool,
    data: &PayloadBuilder<'a>,
    ptrs: BinderTransactionDataPtrs,
    r: Outgoing,
)
    requires
        call_ensures(
            BinderDevice::remote_transact,
            (device, handle, code, one_way, data, ptrs),
            r,
        ),
    ensures
        readied(r, handle, code, one_way, data@.data, data@.offsets),
        r.transaction.data.buffer == ptrs.buffer,
        r.transaction.data.offsets == ptrs.offsets,
{
}

/// Transactions to two handles are told apart, whatever is sent, and so are those with two
/// codes.
pub proof fn remote_transactions_are_told_apart<'a>(
    a: (&mut BinderDevice, u32, u32, bool, &PayloadBuilder<'a>, BinderTransactionDataPtrs),
    b: (&mut BinderDevice, u32, u32, bool, &PayloadBuilder<'a>, BinderTransactionDataPtrs),
    r: Outgoing,
    s: Outgoing,
)
    requires
        call_ensures(BinderDevice::remote_transact, a, r),
        call_ensures(BinderDevice::remote_transact, b, s),
    ensures
        a.1 != b.1 ==> r.transaction.target != s.transaction.target,
        a.2 != b.2 ==> r.transaction.code != s.transaction.code,
        a.3 != b.3 ==> r.transaction.flags != s.transaction.flags,
{
}

/// What is written for a transaction: the driver's code for one, with the handle and the code
/// of the transaction at their places, and around it the words that enter and leave a looper.
/// One that someone waits for is written once, and another one each time.
pub proof fn transactions_are_written(out: &mut Outgoing, r: Option<Vec<u8>>)
    requires
        call_ensures(Outgoing::next_write, (out,), r),
    ensures
        r is Some <==> old(out).one_way || !old(out).written,
        r matches Some(bytes) ==> {
            &&& bytes@.len() == 76
            &&& u32_at(bytes@, 0) == 0x630c
            &&& u32_at(bytes@, 4) == 0x4040_6300
            &&& u32_at(bytes@, 8) == first_word(old(out).transaction.target.word)
            &&& u32_at(bytes@, 24) == old(out).transaction.code
            &&& u64_at(bytes@, 40) == old(out).transaction.data_size
            &&& u64_at(bytes@, 56) == old(out).transaction.data.buffer
            &&& u64_at(bytes@, 64) == old(out).transaction.data.offsets
            &&& u32_at(bytes@, 72) == 0x630d
        },
        final(out).written,
        final(out).transaction == old(out).transaction,
        final(out).one_way == old(out).one_way,
        final(out).objects == old(out).objects,
{
    if let Some(bytes) = r {
        let t = old(out).transaction;
        let s = bytes@;
        let sent = s.subrange(8, 72);
        sending_is_framed(*old(out));
        t.words_in_memory();
        BinderTransactionData::encode_decoded(sent);
        u64_at_bytes(sent, 0);
        assert(s.subrange(8, 12) =~= sent.subrange(0, 8).subrange(0, 4));
        assert(s.subrange(24, 28) =~= sent.subrange(16, 20));
        assert(s.subrange(40, 48) =~= sent.subrange(32, 40));
        assert(s.subrange(56, 64) =~= sent.subrange(48, 56));
        assert(s.subrange(64, 72) =~= sent.subrange(56, 64));
    }
}

/// What a sender is told: each failure by its own error, and nothing while the driver is out of
/// room for what nobody waits for.
pub proof fn failures_are_told(e: WriteReadError, r: Option<Error>)
    requires
        call_ensures(to_sender_error, (e,), r),
    ensures
        match e {
            WriteReadError::NoDevice => r == Some(Error::Shutdown),
            WriteReadError::DeadReply => r == Some(Error::DeadReply),
            WriteReadError::ObjectNotFound => r == Some(Error::ObjectNotFound),
            WriteReadError::FailedReply => r matches Some(Error::Unknown(n)) && n == 1,
            WriteReadError::FrozenReply => r == Some(Error::FrozenReply),
            WriteReadError::AsyncBufferFull => r is None,
            WriteReadError::WriteReadIoctlFailed(err) => r == Some(Error::Binder(err)),
        },
{
}

/// What someone who waits does after an exchange: a reply is handed on as it is, an error ends
/// the wait and takes the marks of the objects back, and otherwise the wait goes on and the
/// marks stay.
pub proof fn waiting_ends_with_a_reply_or_an_error(
    device: &mut BinderDevice,
    sent: &Outgoing,
    outcome: Exchanged,
    told: Option<Error>,
    r: BlockingStep,
)
    requires
        old(device)@.wf(),
        call_ensures(BinderDevice::after_blocking_exchange, (device, sent, outcome), r),
        outcome matches Some(Err(e)) ==> call_ensures(to_sender_error, (e,), told),
    ensures
        outcome is None ==> r is Again,
        outcome matches Some(Ok(reply)) ==> r == BlockingStep::Done(
            Ok::<(u32, PayloadReader), Error>(reply),
        ),
        outcome matches Some(Err(e)) ==> match told {
            Some(error) => r == BlockingStep::Done(Err::<(u32, PayloadReader), Error>(error)),
            None => r is Sleep,
        },
        !(outcome matches Some(Err(_))) || told is None ==> final(device)@ == old(device)@,
        outcome matches Some(Err(_)) && told is Some ==> forall|i: int|
            0 <= i < sent.objects@.len() && old(device)@.object_refcounts.dom().contains(
                key_of(#[trigger] sent.objects@[i]),
            ) ==> !final(device)@.object_refcounts[key_of(sent.objects@[i])].new_in_remote,
{
    unmarking_is_pointwise(old(device)@, sent.objects@);
    assert forall|i: int| 0 <= i < sent.objects@.len() implies listed(
        sent.objects@,
        key_of(#[trigger] sent.objects@[i]),
    ) by {}
}

/// What someone who does not wait does after an exchange: without an error the transaction is
/// sent, and a reply is handed out to be ended; with one it failed, and the marks of the objects
/// are taken back, unless it is to be tried again.
pub proof fn sending_without_waiting_ends(
    device: &mut BinderDevice,
    sent: &Outgoing,
    outcome: Exchanged,
    told: Option<Error>,
    r: OneWayStep,
)
    requires
        old(device)@.wf(),
        call_ensures(BinderDevice::after_one_way_exchange, (device, sent, outcome), r),
        outcome matches Some(Err(e)) ==> call_ensures(to_sender_error, (e,), told),
    ensures
        outcome is None ==> r == OneWayStep::Done(Ok::<(), Error>(()), None),
        outcome matches Some(Ok(reply)) ==> r == OneWayStep::Done(
            Ok::<(), Error>(()),
            Some(reply.1),
        ),
        outcome matches Some(Err(e)) ==> match told {
            Some(error) => r == OneWayStep::Done(Err::<(), Error>(error), None),
            None => r is Again,
        },
        !(outcome matches Some(Err(_))) || told is None ==> final(device)@ == old(device)@,
        outcome matches Some(Err(_)) && told is Some ==> forall|i: int|
            0 <= i < sent.objects@.len() && old(device)@.object_refcounts.dom().contains(
                key_of(#[trigger] sent.objects@[i]),
            ) ==> !final(device)@.object_refcounts[key_of(sent.objects@[i])].new_in_remote,
{
    unmarking_is_pointwise(old(device)@, sent.objects@);
    assert forall|i: int| 0 <= i < sent.objects@.len() implies listed(
        sent.objects@,
        key_of(#[trigger] sent.objects@[i]),
    ) by {}
}

/// Objects that are marked are on their way, unless another process has them already, and no
/// others are. The marks can be taken back.
pub proof fn marks_are_set_and_taken_back(
    device: &mut BinderDevice,
    ids: &[BinderObjectId],
    i: int,
)
    requires
        old(device)@.wf(),
        old(device)@.can_mark(ids@),
        0 <= i < ids@.len(),
        old(device)@.object_refcounts.dom().contains((ids@[i].id, ids@[i].cookie)),
    ensures
        call_ensures(BinderDevice::mark_objects_as_pending_remote, (device, ids), ()) ==> {
            let s = old(device)@.object_refcounts[(ids@[i].id, ids@[i].cookie)];
            let t = final(device)@.object_refcounts[(ids@[i].id, ids@[i].cookie)];
            &&& t.new_in_remote <==> s.remote_strong_count == 0
            &&& t.local_strong_count == s.local_strong_count
            &&& t.remote_strong_count == s.remote_strong_count
            &&& t.strong_count > 0
        },
        call_ensures(BinderDevice::unmark_objects_as_pending_remote, (device, ids), ()) ==> {
            let s = old(device)@.object_refcounts[(ids@[i].id, ids@[i].cookie)];
            let t = final(device)@.object_refcounts[(ids@[i].id, ids@[i].cookie)];
            &&& !t.new_in_remote
            &&& t.local_strong_count == s.local_strong_count
            &&& t.remote_strong_count == s.remote_strong_count
            &&& t.strong_count == s.local_strong_count + s.remote_strong_count
        },
{
    marking_is_pointwise(old(device)@, ids@);
    unmarking_is_pointwise(old(device)@, ids@);
    assert(listed(ids@, key_of(ids@[i])));
    assert(old(device)@.object_refcounts[key_of(ids@[i])].wf());
}

/// A reply answers the transaction that it is made for: it has its code and flags, names the
/// sender, and says how long the payload is and where its bytes and its places lie. It names no
/// target, since the driver knows who waits.
pub proof fn replies_answer_their_transaction<'a>(
    device: &mut BinderDevice,
    t: &BinderTransactionData,
    data: &PayloadBuilder<'a>,
    pid: RawPid,
    uid: RawUid,
    r: OutgoingReply,
)
    requires
        call_ensures(BinderDevice::reply, (device, t, data, pid, uid), r),
    ensures
        r.reply.code == t.code,
        r.reply.flags.0 == t.flags.0,
        r.reply.sender_pid == pid,
        r.reply.sender_euid == uid,
        r.reply.target.word == 0,
        r.reply.cookie == 0,
        r.reply.data_size == data@.data.len(),
        r.reply.offsets_size == 8 * data@.offsets.len(),
        bytes_lie_at(data@.data, r.reply.data.buffer),
        places_lie_at(data@.offsets, r.reply.data.offsets),
        r.reply.data.buffer != 0,
        r.reply.data.offsets != 0,
        r.objects@ == embedded(data@.data, data@.offsets),
{
    reply_points_at_its_payload(r.reply, data@);
}

/// A reply whose payload lies at given addresses points there.
pub proof fn replies_point_where_they_are_told<'a>(
    device: &mut BinderDevice,
    t: &BinderTransactionData,
    data: &PayloadBuilder<'a>,
    ptrs: BinderTransactionDataPtrs,
    pid: RawPid,
    uid: RawUid,
    r: OutgoingReply,
)
    requires
        call_ensures(BinderDevice::reply_at, (device, t, data, ptrs, pid, uid), r),
    ensures
        r.reply.data.buffer == ptrs.buffer,
        r.reply.data.offsets == ptrs.offsets,
        r.reply.data_size == data@.data.len(),
        r.reply.offsets_size == 8 * data@.offsets.len(),
        r.reply.code == t.code,
        r.reply.flags.0 == t.flags.0,
        r.reply.sender_pid == pid,
        r.reply.sender_euid == uid,
        r.reply.target.word == 0,
        r.objects@ == embedded(data@.data, data@.offsets),
{
}

/// What is written for a reply: the driver's code for one, and the reply behind it.
pub proof fn replies_are_written(out: &OutgoingReply, r: Vec<u8>)
    requires
        call_ensures(OutgoingReply::bytes, (out,), r),
    ensures
        r@.len() == 68,
        u32_at(r@, 0) == 0x4040_6301,
        BinderTransactionData::decoded(r@.subrange(4, 68)) == out.reply,
{
    commands_in_memory(DriverCommand::Reply(out.reply));
}

/// After a reply was sent: an error takes the marks of the objects in it back, and a reply to
/// something else is handed out to be ended.
pub proof fn marks_of_a_failed_reply_are_taken_back(
    device: &mut BinderDevice,
    sent: &OutgoingReply,
    outcome: Exchanged,
    r: Option<PayloadReader>,
)
    requires
        old(device)@.wf(),
        call_ensures(BinderDevice::after_reply_exchange, (device, sent, outcome), r),
    ensures
        outcome matches Some(Ok(reply)) ==> r == Some(reply.1),
        !(outcome matches Some(Ok(_))) ==> r is None,
        !(outcome matches Some(Err(_))) ==> final(device)@ == old(device)@,
        outcome matches Some(Err(_)) ==> forall|i: int|
            0 <= i < sent.objects@.len() && old(device)@.object_refcounts.dom().contains(
                key_of(#[trigger] sent.objects@[i]),
            ) ==> !final(device)@.object_refcounts[key_of(sent.objects@[i])].new_in_remote,
{
    unmarking_is_pointwise(old(device)@, sent.objects@);
    assert forall|i: int| 0 <= i < sent.objects@.len() implies listed(
        sent.objects@,
        key_of(#[trigger] sent.objects@[i]),
    ) by {}
}

/// A transaction that came in goes to the handler of the object that it names by both words, with
/// the code, the sender and the payload that it came with, read from the start. Whether someone
/// waits is said by its lowest flag. It is refused exactly if there is no such object, and then
/// whoever waits is answered with its code.
pub proof fn transactions_reach_their_handler(
    device: &mut BinderDevice,
    t: &BinderTransactionData,
    data: &'static [u8],
    offsets: &'static [usize],
    pid: RawPid,
    uid: RawUid,
    r: Incoming,
)
    requires
        call_ensures(BinderDevice::on_transaction, (device, t, data, offsets, pid, uid), r),
    ensures
        ({
            let key = (t.target.word, t.cookie);
            let waits = t.flags.0 % 2 == 0;
            match r {
                Incoming::OneWay(slot, transaction) => {
                    &&& !waits
                    &&& old(device)@.objects.dom().contains(key)
                    &&& slot == old(device)@.objects[key]
                    &&& received_as_sent(*t, data@, offsets@, transaction)
                    &&& final(device)@ == old(device)@
                },
                Incoming::TwoWay(slot, transaction) => {
                    &&& waits
                    &&& old(device)@.objects.dom().contains(key)
                    &&& slot == old(device)@.objects[key]
                    &&& received_as_sent(*t, data@, offsets@, transaction)
                    &&& final(device)@ == old(device)@
                },
                Incoming::Refused(commands, files, ending) => {
                    &&& !old(device)@.objects.dom().contains(key)
                    &&& ending == Ending::Failed(WriteReadError::ObjectNotFound)
                    &&& commands@.contains(DriverCommand::FreeBuffer(t.data.buffer))
                    &&& t.data.offsets != 0 ==> commands@.contains(
                        DriverCommand::FreeBuffer(t.data.offsets),
                    )
                    &&& waits ==> (commands@.last() matches DriverCommand::Reply(reply)
                        && reply.code == t.code && reply.flags.0 == t.flags.0 && reply.data_size
                        == 0 && reply.offsets_size == 0)
                },
            }
        }),
{
    lowest_flag_means_one_way(t.flags.0);
    if let Incoming::Refused(commands, files, ending) = r {
        let drained = lent_reader(*t, data@, offsets@).ended(old(device)@).1;
        let lent = lent_release(*t);
        let n = drained.len() as int;
        refusal_in_order(*t, drained, pid, uid);
        lent_buffers_are_read_and_given_back(*t, data@, offsets@);
        assert(commands@.subrange(n, n + lent.len())[0] == commands@[n]);
        if t.data.offsets != 0 {
            assert(commands@.subrange(n, n + lent.len())[1] == commands@[n + 1]);
        }
    }
}

/// Whether a handler gets what was sent: the code, the sender, and a payload that is read from
/// the start and whose buffers go back to the driver.
pub open spec fn received_as_sent(
    t: BinderTransactionData,
    data: Seq<u8>,
    offsets: Seq<usize>,
    transaction: Transaction,
) -> bool {
    &&& transaction.code == t.code
    &&& transaction.sender_pid == t.sender_pid
    &&& transaction.sender_euid == t.sender_euid
    &&& transaction.payload@.data == data
    &&& transaction.payload@.offsets == (if t.data.offsets == 0 {
        None
    } else {
        Some(offsets)
    })
    &&& transaction.payload@.next_data_index == 0
    &&& transaction.payload@.next_offset_index == 0
    &&& transaction.payload.to_free() == (if t.data.offsets == 0 {
        seq![DriverCommand::FreeBuffer(t.data.buffer)]
    } else {
        seq![DriverCommand::FreeBuffer(t.data.buffer), DriverCommand::FreeBuffer(t.data.offsets)]
    })
}

/// A reply that came in is handed on with its code and its payload, read from the start, and its
/// buffers go back to the driver.
pub proof fn replies_are_handed_on(
    t: &BinderTransactionData,
    data: &'static [u8],
    offsets: &'static [usize],
    places: u64,
    r: (u32, PayloadReader),
)
    requires
        call_ensures(on_reply, (t, data, offsets), r),
        call_ensures(lent_places, (t,), places),
    ensures
        r.0 == t.code,
        r.1@.data == data@,
        r.1@.offsets == (if t.data.offsets == 0 {
            None
        } else {
            Some(offsets@)
        }),
        r.1@.next_data_index == 0,
        r.1@.next_offset_index == 0,
        r.1.to_free()[0] == DriverCommand::FreeBuffer(t.data.buffer),
        r.1.to_free().len() == (if t.data.offsets == 0 {
            1int
        } else {
            2
        }),
        8 * places <= t.offsets_size < 8 * places + 8,
{
}

/// Reading a message takes the bytes that it is made of, from where reading had got to, and
/// nothing is read if they are not all there.
pub proof fn messages_are_read_in_order(messages: &mut ReturnStream, r: Option<ReturnMessage>)
    requires
        old(messages).wf(),
        call_ensures(ReturnStream::next, (messages,), r),
    ensures
        final(messages).data() == old(messages).data(),
        r matches Some(m) ==> m.bytes() == old(messages).data().subrange(
            old(messages).consumed(),
            final(messages).consumed(),
        ),
        r is None ==> final(messages).consumed() == old(messages).consumed(),
        r is None ==> old(messages).data().len() - old(messages).consumed() < 76,
        r is Some ==> final(messages).consumed() >= old(messages).consumed() + 4,
{
    if let Some(m) = r {
        let s = old(messages).data();
        let at = old(messages).consumed();
        let end = final(messages).consumed();
        let argument = s.subrange(at + 4, end);
        u32_at_bytes(s, at);
        lemma_argument_is_encoded(u32_at(s, at), argument);
        assert(m.bytes() =~= s.subrange(at, end));
    }
}

proof fn lemma_argument_is_encoded(code: u32, argument: Seq<u8>)
    requires
        argument.len() == argument_len(code),
    ensures
        message(code, argument).code() == code,
        message(code, argument).argument() == argument,
{
    match message(code, argument) {
        ReturnMessage::Failure(_) | ReturnMessage::AcquireResult(_) => {
            u32_at_bytes(argument, 0);
            twos_complement(0, u32_at(argument, 0));
            assert(argument.subrange(0, 4) =~= argument);
        },
        ReturnMessage::TransactionSecCtx(v) => {
            BinderTransactionData::encode_decoded(argument.subrange(0, 64));
            u64_at_bytes(argument, 64);
            assert(v.bytes() =~= argument);
        },
        ReturnMessage::Transaction(_) | ReturnMessage::Reply(_) => {
            BinderTransactionData::encode_decoded(argument);
        },
        ReturnMessage::IncRefs(_) | ReturnMessage::Acquire(_) | ReturnMessage::Release(_)
        | ReturnMessage::DecRefs(_) | ReturnMessage::AttemptAcquire(_) => {
            BinderPtrCookie::encode_decoded(argument);
        },
        ReturnMessage::FrozenBinder(_) => BinderFrozenStateInfo::encode_decoded(argument),
        ReturnMessage::DeadBinder(_) | ReturnMessage::ClearDeathNotificationDone(_)
        | ReturnMessage::ClearFreezeNotificationDone(_) => {
            u64_at_bytes(argument, 0);
            assert(argument.subrange(0, 8) =~= argument);
        },
        _ => {
            assert(argument =~= Seq::empty());
        },
    }
}

/// What a message makes a process do: requests for references are confirmed for the object that
/// they name, a death for its cookie, and a transaction or a reply is taken as it came.
pub proof fn messages_are_followed(
    device: &mut BinderDevice,
    m: &ReturnMessage,
    key: (u64, u64),
    cookie: u64,
    r: ReturnAction,
)
    requires
        old(device)@.wf(),
        old(device)@.can_follow(*m),
        call_ensures(BinderDevice::on_return, (device, m), r),
    ensures
        match *m {
            ReturnMessage::Transaction(t) => r == ReturnAction::Receive(t),
            ReturnMessage::TransactionSecCtx(t) => r == ReturnAction::Receive(t.transaction_data),
            ReturnMessage::Reply(t) => r == ReturnAction::End(Ending::Replied(t)),
            ReturnMessage::DeadReply => r == ReturnAction::End(
                Ending::Failed(WriteReadError::DeadReply),
            ),
            ReturnMessage::FrozenReply => r == ReturnAction::End(
                Ending::Failed(WriteReadError::FrozenReply),
            ),
            ReturnMessage::FailedReply => r == ReturnAction::End(Ending::QueryError),
            ReturnMessage::IncRefs(v) => r == ReturnAction::Send(DriverCommand::IncRefsDone(v)),
            ReturnMessage::Acquire(v) => r == ReturnAction::Send(DriverCommand::AcquireDone(v)),
            ReturnMessage::SpawnLooper => r == ReturnAction::SpawnLooper,
            ReturnMessage::DeadBinder(v) => r == ReturnAction::Died(
                old(device)@.death_notifications.dom().contains(v),
                DriverCommand::DeadBinderDone(v),
            ),
            _ => r == ReturnAction::Nothing,
        },
        ({
            let (d, e) = (old(device)@, final(device)@);
            let (s, t) = (d.object_refcounts[key], e.object_refcounts[key]);
            &&& e.alive(cookie) <==> d.alive(cookie) && *m != ReturnMessage::DeadBinder(cookie)
            &&& d.object_refcounts.dom().contains(key) ==> t.remote_strong_count
                == s.remote_strong_count + (match *m {
                ReturnMessage::Acquire(v) => if v.ptr == key.0 && v.cookie == key.1 {
                    1int
                } else {
                    0
                },
                ReturnMessage::Release(v) => if v.ptr == key.0 && v.cookie == key.1 {
                    -1int
                } else {
                    0
                },
                _ => 0,
            })
        }),
{
    messages_change_what_they_name(old(device)@, *m, key, cookie);
}

/// How a failed reply is told apart: the driver is out of room for what nobody waits for exactly
/// if it says so by the number of the error.
pub proof fn failed_replies_are_told_apart(extended: &BinderExtendedError, r: WriteReadError)
    requires
        call_ensures(failed_reply, (extended,), r),
    ensures
        r is AsyncBufferFull <==> extended.param == -28,
        r is FailedReply <==> extended.param != -28,
{
}

/// What the driver is given for an exchange: what is to be written from its start, and room for
/// what there is to read.
pub proof fn exchanges_start_afresh(
    write_buffer: u64,
    write_size: u64,
    read_buffer: u64,
    r: BinderWriteRead,
)
    requires
        call_ensures(exchange_request, (write_buffer, write_size, read_buffer), r),
    ensures
        r.write_buffer == write_buffer,
        r.write_size == write_size,
        r.write_consumed == 0,
        r.read_buffer == read_buffer,
        r.read_size == 256,
        r.read_consumed == 0,
{
}

/// What comes of starting an exchange, and how a looper begins and ends: it registers if the
/// driver asked for it and enters if not, and it leaves exactly if the device is gone.
pub proof fn loopers_stay_while_there_is_a_device(
    refused: Option<Errno>,
    device_alive: bool,
    started: core::result::Result<(), WriteReadError>,
    spawned: bool,
    start: DriverCommand,
    outcome: Exchanged,
    step: LooperStep,
)
    requires
        call_ensures(exchange_started, (refused, device_alive), started),
        call_ensures(looper_start, (spawned,), start),
        call_ensures(looper_step, (outcome,), step),
    ensures
        refused matches Some(err) ==> started == Err::<(), WriteReadError>(
            WriteReadError::WriteReadIoctlFailed(err),
        ),
        refused is None && !device_alive ==> started == Err::<(), WriteReadError>(
            WriteReadError::NoDevice,
        ),
        started is Ok <==> refused is None && device_alive,
        spawned ==> start == DriverCommand::RegisterLooper,
        !spawned ==> start == DriverCommand::EnterLooper,
        step matches LooperStep::Leave(c) ==> c == DriverCommand::ExitLooper,
        step is Leave <==> (outcome matches Some(Err(e)) && e is NoDevice),
        outcome matches Some(Ok(reply)) ==> step == LooperStep::Again(Some(reply.1)),
        !(outcome matches Some(Ok(_))) ==> (step matches LooperStep::Again(unread) ==> unread
            is None),
{
}

/// What the counts of the objects can follow: one more strong reference of another process as
/// long as there is room for it, and one less as long as there is one. Every other message can be
/// followed, and so can one about an object that is not known.
pub proof fn what_can_be_followed(device: &BinderDevice, m: &ReturnMessage, r: bool)
    requires
        call_ensures(BinderDevice::can_follow, (device, m), r),
    ensures
        match *m {
            ReturnMessage::Acquire(v) => {
                let s = device@.object_refcounts[(v.ptr, v.cookie)];
                &&& !device@.object_refcounts.dom().contains((v.ptr, v.cookie)) ==> r
                &&& device@.object_refcounts.dom().contains((v.ptr, v.cookie)) ==> (r
                    <==> s.local_strong_count + s.remote_strong_count + 1 <= u32::MAX)
            },
            ReturnMessage::Release(v) => {
                let s = device@.object_refcounts[(v.ptr, v.cookie)];
                &&& !device@.object_refcounts.dom().contains((v.ptr, v.cookie)) ==> r
                &&& device@.object_refcounts.dom().contains((v.ptr, v.cookie)) ==> (r
                    <==> s.remote_strong_count >= 1)
            },
            _ => r,
        },
{
}

/// Objects can be marked exactly if for each that is known there is room for one reference more,
/// or another process has it already.
pub proof fn what_can_be_marked(device: &BinderDevice, ids: &[BinderObjectId], r: bool)
    requires
        device@.wf(),
        call_ensures(BinderDevice::objects_can_be_marked, (device, ids), r),
    ensures
        ids@.len() == 0 ==> r,
        r ==> forall|i: int|
            0 <= i < ids@.len() && device@.object_refcounts.dom().contains(
                key_of(#[trigger] ids@[i]),
            ) ==> device@.object_refcounts[key_of(ids@[i])].local_strong_count
                + device@.object_refcounts[key_of(ids@[i])].remote_strong_count <= u32::MAX,
        !r ==> exists|i: int|
            0 <= i < ids@.len() && device@.object_refcounts.dom().contains(
                key_of(#[trigger] ids@[i]),
            ) && device@.object_refcounts[key_of(ids@[i])].remote_strong_count == 0
                && device@.object_refcounts[key_of(ids@[i])].local_strong_count == u32::MAX,
{
    if !r {
        let i = choose|i: int|
            0 <= i < ids@.len() && device@.object_refcounts.dom().contains(
                key_of(#[trigger] ids@[i]),
            ) && !device@.object_refcounts[key_of(ids@[i])].can_mark();
        assert(device@.object_refcounts[key_of(ids@[i])].wf());
    }
}

/// A step takes the next message off and does what it asks for. There is nothing left to do
/// exactly at the end, and what is broken off or cannot be followed changes nothing of the
/// device.
pub proof fn a_step_follows_one_message(
    messages: &mut ReturnStream,
    device: &mut BinderDevice,
    r: ExchangeStep,
)
    requires
        old(messages).wf(),
        old(device)@.wf(),
        call_ensures(ReturnStream::advance, (messages, device), r),
    ensures
        r is Finished <==> old(messages).consumed() == old(messages).data().len(),
        !(r is Act) ==> final(device)@ == old(device)@,
        r matches ExchangeStep::Act(action) ==> exists|m: ReturnMessage|
            #[trigger] m.bytes() == old(messages).data().subrange(
                old(messages).consumed(),
                final(messages).consumed(),
            ) && action == old(device)@.action(m) && final(device)@ == old(device)@.followed(m),
        final(messages).data() == old(messages).data(),
{
    let s = old(messages).data();
    let at = old(messages).consumed();
    if let ExchangeStep::Act(action) = r {
        let (m, end) = message_at(s, at)->0;
        let argument = s.subrange(at + 4, end);
        u32_at_bytes(s, at);
        lemma_argument_is_encoded(u32_at(s, at), argument);
        assert(m.bytes() =~= s.subrange(at, end));
    }
}

/// A run of messages is read from its start, and is done when all of it was read.
pub proof fn runs_are_read_from_the_start(data: Vec<u8>, messages: ReturnStream, done: bool)
    requires
        call_ensures(ReturnStream::new, (data,), messages),
        call_ensures(ReturnStream::is_done, (&messages,), done),
    ensures
        messages.data() == data@,
        messages.consumed() == 0,
        done <==> data@.len() == 0,
{
}

/// A transaction or a reply within this process goes with its code and its payload, which is read
/// from the start and has no buffers of the driver.
pub proof fn local_transactions_carry_their_payload<'a>(
    device: &BinderDevice,
    id: &BinderObjectId,
    code: u32,
    data: &PayloadBuilder<'a>,
    duplicates: &[RawFd],
    pid: RawPid,
    euid: RawUid,
    r: Result<(u64, Transaction)>,
    reply: (u32, PayloadReader),
)
    requires
        call_ensures(BinderDevice::self_transact, (device, id, code, data, duplicates, pid, euid), r),
        call_ensures(BinderDevice::self_reply, (code, data, duplicates), reply),
    ensures
        r is Ok <==> device@.objects.dom().contains((id.id, id.cookie)),
        r matches Err(e) ==> e == Error::ObjectNotFound,
        r matches Ok((slot, t)) ==> {
            &&& slot == device@.objects[(id.id, id.cookie)]
            &&& t.code == code && t.sender_pid == pid && t.sender_euid == euid
            &&& t.payload@.offsets == Some(data@.offsets)
            &&& t.payload@.next_data_index == 0 && t.payload@.next_offset_index == 0
            &&& fd_count(data@.data, data@.offsets) == 0 ==> t.payload@.data == data@.data
            &&& t.payload.to_free().len() == 0
        },
        reply.0 == code,
        reply.1@.offsets == Some(data@.offsets),
        reply.1@.next_data_index == 0 && reply.1@.next_offset_index == 0,
        fd_count(data@.data, data@.offsets) == 0 ==> reply.1@.data == data@.data,
        reply.1.to_free().len() == 0,
{
    if fd_count(data@.data, data@.offsets) == 0 {
        lemma_no_files(data@.data, data@.offsets, duplicates@);
    }
}

/// The local objects in a payload are those whose objects have the type of one, each by the two
/// words that name it, in the order of their places.
pub proof fn embedded_objects_are_found(
    data: &[u8],
    offsets: &[usize],
    i: int,
    r: Vec<BinderObjectId>,
)
    requires
        call_ensures(embedded_binder_objects, (data, offsets), r),
        0 <= i < offsets@.len(),
        forall|k: int| 0 <= k < offsets@.len() ==> #[trigger] offsets@[k] + 24 <= data@.len(),
    ensures
        u32_at(data@, offsets@[i] as int) == 0x7362_2a85 ==> r@.contains(
            BinderObjectId {
                id: u64_at(data@, offsets@[i] + 8),
                cookie: u64_at(data@, offsets@[i] + 16),
            },
        ),
        offsets@.len() == 1 && u32_at(data@, offsets@[i] as int) != 0x7362_2a85 ==> r@.len() == 0,
        r@.len() <= offsets@.len(),
{
    reveal_with_fuel(embedded, 2);
    let o = offsets@[i] as int;
    embedded_objects_are_those_in_the_data(data@, offsets@, i);
    embedded_identity(data@, o);
    if u32_at(data@, o) == 0x7362_2a85 {
        let j = choose|j: int|
            0 <= j < embedded(data@, offsets@).len() && #[trigger] embedded(data@, offsets@)[j]
                == embedded_id(data@, o);
        assert(r@[j] == BinderObjectId { id: u64_at(data@, o + 8), cookie: u64_at(data@, o + 16) });
    }
}

} // verus!
