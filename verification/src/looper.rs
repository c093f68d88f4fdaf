//! What the driver sends, and what is done about it.
//!
//! The driver answers an exchange with a run of messages. Each message is taken off the run
//! and decided on here; what has to be done with the driver, with handlers or with threads
//! comes back as an action.
use crate::binder_object::BinderObjectId;
use crate::command::DriverCommand;
use crate::device::BinderDevice;
use crate::error::{no_space, WriteReadError};
use crate::payload::{find_bytes, find_places, PayloadBuilder, PayloadReader};
use crate::sys::{
    BinderExtendedError, BinderFrozenStateInfo, BinderPtrCookie, BinderReturn,
    BinderTransactionData, BinderTransactionDataPtrs, BinderTransactionDataSecCtx,
    BinderWriteRead, RawFd, RawPid, RawUid, TransactionFlags, TransactionTarget,
};
use crate::transact::{embedded_binder_objects, Exchanged, Transaction};
use crate::wire::{get_u32, get_u64, to_signed};
use rustix::io::Errno;
use vstd::prelude::*;

verus! {

use crate::device::{lemma_recounted_wf, lemma_remote_wf_kept, DeviceView};
use crate::payload::{
    bytes_lie_at, draining_only_speaks_of_references, nothing_lies_at_zero, places_lie_at,
    PayloadView, ReaderView,
};
use crate::refcount::ObjectRefState;
use crate::sys::lowest_flag_means_one_way;
use crate::transact::{embedded, objects_take_room, sender_error};
use crate::wire::{
    ne32, ne32_facts, ne64, ne64_facts, signed, twos_complement, u32_at, u64_at, u64_at_bytes,
    unsigned,
};

/// How many bytes the driver is given room for in one exchange.
pub const READ_SIZE: usize = 256;

/// A message from the driver.
#[derive(Clone, Copy, Debug, PartialEq, Eq, Structural)]
pub enum ReturnMessage {
    /// An error number.
    Failure(i32),
    /// The last command succeeded.
    Okay,
    /// A transaction, with the security context of its sender.
    TransactionSecCtx(BinderTransactionDataSecCtx),
    /// A transaction.
    Transaction(BinderTransactionData),
    /// The reply to the transaction that was sent.
    Reply(BinderTransactionData),
    /// Whether an attempt to take a strong reference succeeded.
    AcquireResult(i32),
    /// The target of the transaction that was sent is dead.
    DeadReply,
    /// The transaction that was sent has been taken over.
    TransactionComplete,
    /// Another process wants a weak reference to a local object.
    IncRefs(BinderPtrCookie),
    /// Another process wants a strong reference to a local object.
    Acquire(BinderPtrCookie),
    /// Another process has dropped its strong reference to a local object.
    Release(BinderPtrCookie),
    /// Another process has dropped its weak reference to a local object.
    DecRefs(BinderPtrCookie),
    /// Another process tries to take a strong reference to a local object.
    AttemptAcquire(BinderPtrCookie),
    /// Nothing.
    Noop,
    /// The driver wants one more looper.
    SpawnLooper,
    /// The looper may end.
    Finished,
    /// The object that goes with a cookie has died.
    DeadBinder(u64),
    /// The death that goes with a cookie will not be reported.
    ClearDeathNotificationDone(u64),
    /// The transaction that was sent failed.
    FailedReply,
    /// The target of the transaction that was sent is frozen.
    FrozenReply,
    /// There are too many transactions that nobody waits for.
    OnewaySpamSuspect,
    /// The target of the transaction that was sent is frozen and will get it later.
    TransactionPendingFrozen,
    /// The process behind an object was frozen or thawed.
    FrozenBinder(BinderFrozenStateInfo),
    /// The freezing that goes with a cookie will not be reported.
    ClearFreezeNotificationDone(u64),
    /// A message of this code, which is not known.
    Unknown(u32),
}

/// How many bytes after its code belong to a message.
pub open spec fn argument_len(code: u32) -> nat {
    if code == BinderReturn::ERROR
        || code == BinderReturn::ACQUIRE_RESULT {
        4
    } else if code == BinderReturn::DEAD_BINDER
        || code == BinderReturn::CLEAR_DEATH_NOTIFICATION_DONE
        || code == BinderReturn::CLEAR_FREEZE_NOTIFICATION_DONE {
        8
    } else if code == BinderReturn::INCREFS
        || code == BinderReturn::ACQUIRE
        || code == BinderReturn::RELEASE
        || code == BinderReturn::DECREFS
        || code == BinderReturn::ATTEMPT_ACQUIRE
        || code == BinderReturn::FROZEN_BINDER {
        16
    } else if code == BinderReturn::TRANSACTION
        || code == BinderReturn::REPLY {
        64
    } else if code == BinderReturn::TRANSACTION_SEC_CTX {
        72
    } else {
        0
    }
}

/// The message with a code and what follows it.
pub open spec fn message(code: u32, argument: Seq<u8>) -> ReturnMessage {
    if code == BinderReturn::ERROR {
        ReturnMessage::Failure(signed(u32_at(argument, 0)))
    } else if code == BinderReturn::OK {
        ReturnMessage::Okay
    } else if code == BinderReturn::TRANSACTION_SEC_CTX {
        ReturnMessage::TransactionSecCtx(BinderTransactionDataSecCtx::decoded(argument))
    } else if code == BinderReturn::TRANSACTION {
        ReturnMessage::Transaction(BinderTransactionData::decoded(argument))
    } else if code == BinderReturn::REPLY {
        ReturnMessage::Reply(BinderTransactionData::decoded(argument))
    } else if code == BinderReturn::ACQUIRE_RESULT {
        ReturnMessage::AcquireResult(signed(u32_at(argument, 0)))
    } else if code == BinderReturn::DEAD_REPLY {
        ReturnMessage::DeadReply
    } else if code == BinderReturn::TRANSACTION_COMPLETE {
        ReturnMessage::TransactionComplete
    } else if code == BinderReturn::INCREFS {
        ReturnMessage::IncRefs(BinderPtrCookie::decoded(argument))
    } else if code == BinderReturn::ACQUIRE {
        ReturnMessage::Acquire(BinderPtrCookie::decoded(argument))
    } else if code == BinderReturn::RELEASE {
        ReturnMessage::Release(BinderPtrCookie::decoded(argument))
    } else if code == BinderReturn::DECREFS {
        ReturnMessage::DecRefs(BinderPtrCookie::decoded(argument))
    } else if code == BinderReturn::ATTEMPT_ACQUIRE {
        ReturnMessage::AttemptAcquire(BinderPtrCookie::decoded(argument))
    } else if code == BinderReturn::NOOP {
        ReturnMessage::Noop
    } else if code == BinderReturn::SPAWN_LOOPER {
        ReturnMessage::SpawnLooper
    } else if code == BinderReturn::FINISHED {
        ReturnMessage::Finished
    } else if code == BinderReturn::DEAD_BINDER {
        ReturnMessage::DeadBinder(u64_at(argument, 0))
    } else if code == BinderReturn::CLEAR_DEATH_NOTIFICATION_DONE {
        ReturnMessage::ClearDeathNotificationDone(u64_at(argument, 0))
    } else if code == BinderReturn::FAILED_REPLY {
        ReturnMessage::FailedReply
    } else if code == BinderReturn::FROZEN_REPLY {
        ReturnMessage::FrozenReply
    } else if code == BinderReturn::ONEWAY_SPAM_SUSPECT {
        ReturnMessage::OnewaySpamSuspect
    } else if code == BinderReturn::TRANSACTION_PENDING_FROZEN {
        ReturnMessage::TransactionPendingFrozen
    } else if code == BinderReturn::FROZEN_BINDER {
        ReturnMessage::FrozenBinder(BinderFrozenStateInfo::decoded(argument))
    } else if code == BinderReturn::CLEAR_FREEZE_NOTIFICATION_DONE {
        ReturnMessage::ClearFreezeNotificationDone(u64_at(argument, 0))
    } else {
        ReturnMessage::Unknown(code)
    }
}

impl ReturnMessage {
    /// The code of the message.
    pub open spec fn code(self) -> u32 {
        match self {
            ReturnMessage::Failure(_) => BinderReturn::ERROR,
            ReturnMessage::Okay => BinderReturn::OK,
            ReturnMessage::TransactionSecCtx(_) => BinderReturn::TRANSACTION_SEC_CTX,
            ReturnMessage::Transaction(_) => BinderReturn::TRANSACTION,
            ReturnMessage::Reply(_) => BinderReturn::REPLY,
            ReturnMessage::AcquireResult(_) => BinderReturn::ACQUIRE_RESULT,
            ReturnMessage::DeadReply => BinderReturn::DEAD_REPLY,
            ReturnMessage::TransactionComplete => BinderReturn::TRANSACTION_COMPLETE,
            ReturnMessage::IncRefs(_) => BinderReturn::INCREFS,
            ReturnMessage::Acquire(_) => BinderReturn::ACQUIRE,
            ReturnMessage::Release(_) => BinderReturn::RELEASE,
            ReturnMessage::DecRefs(_) => BinderReturn::DECREFS,
            ReturnMessage::AttemptAcquire(_) => BinderReturn::ATTEMPT_ACQUIRE,
            ReturnMessage::Noop => BinderReturn::NOOP,
            ReturnMessage::SpawnLooper => BinderReturn::SPAWN_LOOPER,
            ReturnMessage::Finished => BinderReturn::FINISHED,
            ReturnMessage::DeadBinder(_) => BinderReturn::DEAD_BINDER,
            ReturnMessage::ClearDeathNotificationDone(_) => BinderReturn::CLEAR_DEATH_NOTIFICATION_DONE,
            ReturnMessage::FailedReply => BinderReturn::FAILED_REPLY,
            ReturnMessage::FrozenReply => BinderReturn::FROZEN_REPLY,
            ReturnMessage::OnewaySpamSuspect => BinderReturn::ONEWAY_SPAM_SUSPECT,
            ReturnMessage::TransactionPendingFrozen => BinderReturn::TRANSACTION_PENDING_FROZEN,
            ReturnMessage::FrozenBinder(_) => BinderReturn::FROZEN_BINDER,
            ReturnMessage::ClearFreezeNotificationDone(_) => BinderReturn::CLEAR_FREEZE_NOTIFICATION_DONE,
            ReturnMessage::Unknown(code) => code,
        }
    }

    /// What follows the code.
    pub open spec fn argument(self) -> Seq<u8> {
        match self {
            ReturnMessage::Failure(v) => ne32(unsigned(v)),
            ReturnMessage::TransactionSecCtx(v) => v.bytes(),
            ReturnMessage::Transaction(v) => v.bytes(),
            ReturnMessage::Reply(v) => v.bytes(),
            ReturnMessage::AcquireResult(v) => ne32(unsigned(v)),
            ReturnMessage::IncRefs(v) => v.bytes(),
            ReturnMessage::Acquire(v) => v.bytes(),
            ReturnMessage::Release(v) => v.bytes(),
            ReturnMessage::DecRefs(v) => v.bytes(),
            ReturnMessage::AttemptAcquire(v) => v.bytes(),
            ReturnMessage::DeadBinder(v) => ne64(v),
            ReturnMessage::ClearDeathNotificationDone(v) => ne64(v),
            ReturnMessage::FrozenBinder(v) => v.bytes(),
            ReturnMessage::ClearFreezeNotificationDone(v) => ne64(v),
            _ => Seq::empty(),
        }
    }

    /// The whole message.
    pub open spec fn bytes(self) -> Seq<u8> {
        ne32(self.code()) + self.argument()
    }

    /// Whether this is a message as the driver sends it: a code that is known is not sent as
    /// an unknown one.
    pub open spec fn regular(self) -> bool {
        self matches ReturnMessage::Unknown(code) ==> message(code, Seq::empty()) == self
    }
}

/// What is read at a place of a run of messages: the message and where the next one starts,
/// or nothing if the run ends within the message.
pub open spec fn message_at(s: Seq<u8>, at: int) -> Option<(ReturnMessage, int)> {
    if at + 4 > s.len() {
        None
    } else {
        let code = u32_at(s, at);
        let end = at + 4 + argument_len(code);
        if end > s.len() {
            None
        } else {
            Some((message(code, s.subrange(at + 4, end)), end))
        }
    }
}

/// Reading a message gives it back, whatever stands before it and behind it, and the next one
/// is read right behind it.
pub proof fn message_is_read_back(before: Seq<u8>, m: ReturnMessage, behind: Seq<u8>)
    requires
        m.regular(),
    ensures
        message_at(before + m.bytes() + behind, before.len() as int) == Some(
            (m, (before.len() + m.bytes().len()) as int),
        ),
{
    broadcast use ne32_facts, ne64_facts;

    let s = before + m.bytes() + behind;
    let at = before.len() as int;
    let a = m.argument();
    let n = a.len() as int;
    match m {
        ReturnMessage::Failure(v) => twos_complement(v, 0),
        ReturnMessage::TransactionSecCtx(v) => v.decode_encoded(),
        ReturnMessage::Transaction(v) => v.decode_encoded(),
        ReturnMessage::Reply(v) => v.decode_encoded(),
        ReturnMessage::AcquireResult(v) => twos_complement(v, 0),
        ReturnMessage::IncRefs(v) => v.decode_encoded(),
        ReturnMessage::Acquire(v) => v.decode_encoded(),
        ReturnMessage::Release(v) => v.decode_encoded(),
        ReturnMessage::DecRefs(v) => v.decode_encoded(),
        ReturnMessage::AttemptAcquire(v) => v.decode_encoded(),
        ReturnMessage::FrozenBinder(v) => v.decode_encoded(),
        _ => {},
    }
    assert(s.subrange(at, at + 4) =~= ne32(m.code()));
    assert(n == argument_len(m.code()));
    assert(s.subrange(at + 4, at + 4 + n) =~= a);
    assert(a.subrange(0, n) =~= a);
    assert(message(m.code(), a) == m);
}

/// Reading a message always gets ahead, by at least the code, and never past the end.
pub proof fn reading_gets_ahead(s: Seq<u8>, at: int)
    requires
        0 <= at,
    ensures
        message_at(s, at) matches Some((m, end)) ==> at + 4 <= end <= s.len(),
{
}

/// A run of messages from the driver, and how far it was read.
pub struct ReturnStream {
    data: Vec<u8>,
    consumed: usize,
}

impl ReturnStream {
    /// The run of messages.
    pub closed spec fn data(self) -> Seq<u8> {
        self.data@
    }

    /// How many bytes of it were read.
    pub closed spec fn consumed(self) -> int {
        self.consumed as int
    }

    pub open spec fn wf(self) -> bool {
        0 <= self.consumed() <= self.data().len() <= usize::MAX
    }

    /// A run of messages of which nothing was read.
    pub fn new(data: Vec<u8>) -> (r: Self)
        ensures
            r.data() == data@,
            r.consumed() == 0,
            r.wf(),
    {
        assert(data.len() <= usize::MAX);
        ReturnStream { data, consumed: 0 }
    }

    /// Whether everything was read.
    pub fn is_done(&self) -> (r: bool)
        ensures
            r == (self.consumed() == self.data().len()),
    {
        self.consumed == self.data.len()
    }

    /// Takes the next message off. Nothing comes if the run ends within it.
    pub fn next(&mut self) -> (r: Option<ReturnMessage>)
        requires
            old(self).wf(),
        ensures
            match message_at(old(self).data(), old(self).consumed()) {
                Some((m, end)) => r == Some(m) && final(self).consumed() == end,
                None => r is None && final(self).consumed() == old(self).consumed(),
            },
            final(self).data() == old(self).data(),
            final(self).wf(),
    {
        let at: usize = self.consumed;
        if self.data.len() - at < 4 {
            return None;
        }
        let data = self.data.as_slice();
        let code: u32 = get_u32(data, at);
        let size: usize = argument_size(code);
        if self.data.len() - at - 4 < size {
            return None;
        }
        let m = read_message(data, at + 4, code);
        self.consumed = at + 4 + size;
        Some(m)
    }
}

/// How many bytes after its code belong to a message.
fn argument_size(code: u32) -> (r: usize)
    ensures
        r == argument_len(code),
{
    if code == BinderReturn::ERROR
        || code == BinderReturn::ACQUIRE_RESULT {
        4
    } else if code == BinderReturn::DEAD_BINDER
        || code == BinderReturn::CLEAR_DEATH_NOTIFICATION_DONE
        || code == BinderReturn::CLEAR_FREEZE_NOTIFICATION_DONE {
        8
    } else if code == BinderReturn::INCREFS
        || code == BinderReturn::ACQUIRE
        || code == BinderReturn::RELEASE
        || code == BinderReturn::DECREFS
        || code == BinderReturn::ATTEMPT_ACQUIRE
        || code == BinderReturn::FROZEN_BINDER {
        16
    } else if code == BinderReturn::TRANSACTION
        || code == BinderReturn::REPLY {
        64
    } else if code == BinderReturn::TRANSACTION_SEC_CTX {
        72
    } else {
        0
    }
}

/// Reads what follows a code.
fn read_message(s: &[u8], at: usize, code: u32) -> (r: ReturnMessage)
    requires
        at + argument_len(code) <= s@.len(),
    ensures
        r == message(code, s@.subrange(at as int, at + argument_len(code))),
{
    let ghost a = s@.subrange(at as int, at + argument_len(code));
    proof {
        assert(s.len() <= usize::MAX);
        if argument_len(code) == 4 {
            assert(a.subrange(0, 4) =~= s@.subrange(at as int, at + 4));
        }
        if argument_len(code) == 8 {
            assert(a.subrange(0, 8) =~= s@.subrange(at as int, at + 8));
        }
    }
    if code == BinderReturn::ERROR {
        ReturnMessage::Failure(to_signed(get_u32(s, at)))
    } else if code == BinderReturn::OK {
        ReturnMessage::Okay
    } else if code == BinderReturn::TRANSACTION_SEC_CTX {
        ReturnMessage::TransactionSecCtx(BinderTransactionDataSecCtx::read(s, at))
    } else if code == BinderReturn::TRANSACTION {
        ReturnMessage::Transaction(BinderTransactionData::read(s, at))
    } else if code == BinderReturn::REPLY {
        ReturnMessage::Reply(BinderTransactionData::read(s, at))
    } else if code == BinderReturn::ACQUIRE_RESULT {
        ReturnMessage::AcquireResult(to_signed(get_u32(s, at)))
    } else if code == BinderReturn::DEAD_REPLY {
        ReturnMessage::DeadReply
    } else if code == BinderReturn::TRANSACTION_COMPLETE {
        ReturnMessage::TransactionComplete
    } else if code == BinderReturn::INCREFS {
        ReturnMessage::IncRefs(BinderPtrCookie::read(s, at))
    } else if code == BinderReturn::ACQUIRE {
        ReturnMessage::Acquire(BinderPtrCookie::read(s, at))
    } else if code == BinderReturn::RELEASE {
        ReturnMessage::Release(BinderPtrCookie::read(s, at))
    } else if code == BinderReturn::DECREFS {
        ReturnMessage::DecRefs(BinderPtrCookie::read(s, at))
    } else if code == BinderReturn::ATTEMPT_ACQUIRE {
        ReturnMessage::AttemptAcquire(BinderPtrCookie::read(s, at))
    } else if code == BinderReturn::NOOP {
        ReturnMessage::Noop
    } else if code == BinderReturn::SPAWN_LOOPER {
        ReturnMessage::SpawnLooper
    } else if code == BinderReturn::FINISHED {
        ReturnMessage::Finished
    } else if code == BinderReturn::DEAD_BINDER {
        ReturnMessage::DeadBinder(get_u64(s, at))
    } else if code == BinderReturn::CLEAR_DEATH_NOTIFICATION_DONE {
        ReturnMessage::ClearDeathNotificationDone(get_u64(s, at))
    } else if code == BinderReturn::FAILED_REPLY {
        ReturnMessage::FailedReply
    } else if code == BinderReturn::FROZEN_REPLY {
        ReturnMessage::FrozenReply
    } else if code == BinderReturn::ONEWAY_SPAM_SUSPECT {
        ReturnMessage::OnewaySpamSuspect
    } else if code == BinderReturn::TRANSACTION_PENDING_FROZEN {
        ReturnMessage::TransactionPendingFrozen
    } else if code == BinderReturn::FROZEN_BINDER {
        ReturnMessage::FrozenBinder(BinderFrozenStateInfo::read(s, at))
    } else if code == BinderReturn::CLEAR_FREEZE_NOTIFICATION_DONE {
        ReturnMessage::ClearFreezeNotificationDone(get_u64(s, at))
    } else {
        ReturnMessage::Unknown(code)
    }
}

/// How an exchange ends.
#[derive(Clone, Copy, Debug, PartialEq, Eq)]
pub enum Ending {
    /// With this reply.
    Replied(BinderTransactionData),
    /// With an error.
    Failed(WriteReadError),
    /// With an error that the driver has to be asked for.
    QueryError,
}

/// What a message asks for.
pub enum ReturnAction {
    /// Go on.
    Nothing,
    /// Send a command; whether that succeeds does not matter. Then go on.
    Send(DriverCommand),
    /// Look at the transaction that came in. Go on unless it is refused.
    Receive(BinderTransactionData),
    /// Start one more looper and go on.
    SpawnLooper,
    /// Tell those who wait for the death that goes with the cookie, if someone does, and then
    /// send the command and go on.
    Died(bool, DriverCommand),
    /// End the exchange.
    End(Ending),
}

impl DeviceView {
    /// Whether the counts can follow a message.
    pub open spec fn can_follow(self, m: ReturnMessage) -> bool {
        match m {
            ReturnMessage::Acquire(v) => self.object_refcounts.dom().contains((v.ptr, v.cookie))
                ==> self.object_refcounts[(v.ptr, v.cookie)].local_strong_count
                + self.object_refcounts[(v.ptr, v.cookie)].remote_strong_count < u32::MAX,
            ReturnMessage::Release(v) => self.object_refcounts.dom().contains((v.ptr, v.cookie))
                ==> self.object_refcounts[(v.ptr, v.cookie)].remote_strong_count > 0,
            _ => true,
        }
    }

    /// The device after a message.
    pub open spec fn followed(self, m: ReturnMessage) -> DeviceView {
        match m {
            ReturnMessage::Acquire(v) => self.recounted(
                (v.ptr, v.cookie),
                |s: ObjectRefState| s.after_increase_remote(),
            ),
            ReturnMessage::Release(v) => self.recounted(
                (v.ptr, v.cookie),
                |s: ObjectRefState| s.after_decrease_remote(),
            ),
            ReturnMessage::DeadBinder(cookie) => DeviceView {
                death_notifications: self.death_notifications.remove(cookie),
                ..self
            },
            _ => self,
        }
    }

    /// What a message asks for.
    pub open spec fn action(self, m: ReturnMessage) -> ReturnAction {
        match m {
            ReturnMessage::TransactionSecCtx(v) => ReturnAction::Receive(v.transaction_data),
            ReturnMessage::Transaction(v) => ReturnAction::Receive(v),
            ReturnMessage::Reply(v) => ReturnAction::End(Ending::Replied(v)),
            ReturnMessage::DeadReply => ReturnAction::End(
                Ending::Failed(WriteReadError::DeadReply),
            ),
            ReturnMessage::IncRefs(v) => ReturnAction::Send(DriverCommand::IncRefsDone(v)),
            ReturnMessage::Acquire(v) => ReturnAction::Send(DriverCommand::AcquireDone(v)),
            ReturnMessage::SpawnLooper => ReturnAction::SpawnLooper,
            ReturnMessage::DeadBinder(cookie) => ReturnAction::Died(
                self.death_notifications.dom().contains(cookie),
                DriverCommand::DeadBinderDone(cookie),
            ),
            ReturnMessage::FailedReply => ReturnAction::End(Ending::QueryError),
            ReturnMessage::FrozenReply => ReturnAction::End(
                Ending::Failed(WriteReadError::FrozenReply),
            ),
            _ => ReturnAction::Nothing,
        }
    }
}

/// The error of an exchange whose reply failed, by what the driver says of it.
pub open spec fn reply_failure(extended: BinderExtendedError) -> WriteReadError {
    if extended.param == -28 {
        WriteReadError::AsyncBufferFull
    } else {
        WriteReadError::FailedReply
    }
}

/// The error of an exchange whose reply failed, by what the driver says of it.
pub fn failed_reply(extended: &BinderExtendedError) -> (r: WriteReadError)
    ensures
        r == reply_failure(*extended),
{
    if extended.param == -no_space() {
        WriteReadError::AsyncBufferFull
    } else {
        WriteReadError::FailedReply
    }
}

/// What is written and how much room there is to read in one exchange.
pub fn exchange_request(write_buffer: u64, write_size: u64, read_buffer: u64) -> (r: BinderWriteRead)
    ensures
        r == (BinderWriteRead {
            write_size,
            write_consumed: 0,
            write_buffer,
            read_size: READ_SIZE as u64,
            read_consumed: 0,
            read_buffer,
        }),
{
    BinderWriteRead::exchange(write_buffer, write_size, read_buffer, READ_SIZE as u64)
}

/// Whether an exchange took place: it fails if the driver refused it, and then if the device
/// is gone.
pub fn exchange_started(refused: Option<Errno>, device_alive: bool) -> (r: Result<
    (),
    WriteReadError,
>)
    ensures
        r == (match refused {
            Some(err) => Err::<(), WriteReadError>(WriteReadError::WriteReadIoctlFailed(err)),
            None => if device_alive {
                Ok(())
            } else {
                Err(WriteReadError::NoDevice)
            },
        }),
{
    match refused {
        Some(err) => Err(WriteReadError::WriteReadIoctlFailed(err)),
        None => if device_alive {
            Ok(())
        } else {
            Err(WriteReadError::NoDevice)
        },
    }
}

impl BinderDevice {
    /// Whether the counts can follow a message.
    pub fn can_follow(&self, m: &ReturnMessage) -> (r: bool)
        ensures
            r == self@.can_follow(*m),
    {
        match m {
            ReturnMessage::Acquire(v) => match self.refcounts(
                &BinderObjectId::from_raw(v.ptr, v.cookie),
            ) {
                Some(state) => (state.local_strong_count as u64) + (state.remote_strong_count
                    as u64) < u32::MAX as u64,
                None => true,
            },
            ReturnMessage::Release(v) => match self.refcounts(
                &BinderObjectId::from_raw(v.ptr, v.cookie),
            ) {
                Some(state) => state.remote_strong_count > 0,
                None => true,
            },
            _ => true,
        }
    }

    /// Follows a message from the driver and says what it asks for.
    pub fn on_return(&mut self, m: &ReturnMessage) -> (r: ReturnAction)
        requires
            old(self)@.wf(),
            old(self)@.can_follow(*m),
        ensures
            r == old(self)@.action(*m),
            final(self)@ == old(self)@.followed(*m),
            final(self)@.wf(),
    {
        match m {
            ReturnMessage::TransactionSecCtx(v) => ReturnAction::Receive(v.transaction_data),
            ReturnMessage::Transaction(v) => ReturnAction::Receive(*v),
            ReturnMessage::Reply(v) => ReturnAction::End(Ending::Replied(*v)),
            ReturnMessage::DeadReply => ReturnAction::End(
                Ending::Failed(WriteReadError::DeadReply),
            ),
            ReturnMessage::IncRefs(v) => ReturnAction::Send(DriverCommand::IncRefsDone(*v)),
            ReturnMessage::Acquire(v) => {
                self.remote_acquired(&BinderObjectId::from_raw(v.ptr, v.cookie));
                ReturnAction::Send(DriverCommand::AcquireDone(*v))
            },
            ReturnMessage::Release(v) => {
                self.remote_released(&BinderObjectId::from_raw(v.ptr, v.cookie));
                ReturnAction::Nothing
            },
            ReturnMessage::SpawnLooper => ReturnAction::SpawnLooper,
            ReturnMessage::DeadBinder(cookie) => {
                let awaited: bool = self.note_death(*cookie);
                proof {
                    lemma_remote_wf_kept(old(self)@, self@);
                }
                ReturnAction::Died(awaited, DriverCommand::DeadBinderDone(*cookie))
            },
            ReturnMessage::FailedReply => ReturnAction::End(Ending::QueryError),
            ReturnMessage::FrozenReply => ReturnAction::End(
                Ending::Failed(WriteReadError::FrozenReply),
            ),
            _ => ReturnAction::Nothing,
        }
    }
}

/// How an exchange goes on.
pub enum ExchangeStep {
    /// There are no further messages: the exchange ends without a reply.
    Finished,
    /// The run of messages ends within a message, or the counts cannot follow it.
    Broken,
    /// Do this.
    Act(ReturnAction),
}

impl ReturnStream {
    /// Takes the next message off and follows it.
    pub fn advance(&mut self, device: &mut BinderDevice) -> (r: ExchangeStep)
        requires
            old(self).wf(),
            old(device)@.wf(),
        ensures
            old(self).consumed() == old(self).data().len() ==> r is Finished
                && final(self).consumed() == old(self).consumed() && final(device)@
                == old(device)@,
            old(self).consumed() < old(self).data().len() ==> match message_at(
                old(self).data(),
                old(self).consumed(),
            ) {
                Some((m, end)) => {
                    &&& final(self).consumed() == end
                    &&& if old(device)@.can_follow(m) {
                        r == ExchangeStep::Act(old(device)@.action(m)) && final(device)@ == old(
                            device,
                        )@.followed(m)
                    } else {
                        r is Broken && final(device)@ == old(device)@
                    }
                },
                None => r is Broken && final(self).consumed() == old(self).consumed()
                    && final(device)@ == old(device)@,
            },
            final(self).data() == old(self).data(),
            final(self).wf(),
            final(device)@.wf(),
    {
        if self.is_done() {
            return ExchangeStep::Finished;
        }
        match self.next() {
            Some(m) => if device.can_follow(&m) {
                ExchangeStep::Act(device.on_return(&m))
            } else {
                ExchangeStep::Broken
            },
            None => ExchangeStep::Broken,
        }
    }
}

impl DeviceView {
    /// The device after some messages.
    pub open spec fn followed_all(self, messages: Seq<ReturnMessage>) -> DeviceView
        decreases messages.len(),
    {
        if messages.len() == 0 {
            self
        } else {
            self.followed_all(messages.drop_last()).followed(messages.last())
        }
    }

    /// Whether the counts can follow some messages one after the other.
    pub open spec fn can_follow_all(self, messages: Seq<ReturnMessage>) -> bool
        decreases messages.len(),
    {
        messages.len() > 0 ==> self.can_follow_all(messages.drop_last()) && self.followed_all(
            messages.drop_last(),
        ).can_follow(messages.last())
    }
}

/// How many strong references to an object some messages speak of, taken less dropped.
pub open spec fn acquired_net(messages: Seq<ReturnMessage>, key: (u64, u64)) -> int
    decreases messages.len(),
{
    if messages.len() == 0 {
        0
    } else {
        acquired_net(messages.drop_last(), key) + (match messages.last() {
            ReturnMessage::Acquire(v) => if (v.ptr, v.cookie) == key {
                1int
            } else {
                0
            },
            ReturnMessage::Release(v) => if (v.ptr, v.cookie) == key {
                -1int
            } else {
                0
            },
            _ => 0,
        })
    }
}

/// The references of other processes are counted exactly: after any messages the count is
/// what it was, plus the references they took, less those they dropped. Which objects there
/// are and what this process refers to is left as it was.
pub proof fn remote_references_add_up(
    d: DeviceView,
    messages: Seq<ReturnMessage>,
    key: (u64, u64),
)
    requires
        d.wf(),
        d.can_follow_all(messages),
        d.object_refcounts.dom().contains(key),
    ensures
        ({
            let e = d.followed_all(messages);
            &&& e.wf()
            &&& e.object_refcounts.dom() == d.object_refcounts.dom()
            &&& e.objects == d.objects
            &&& e.refs == d.refs
            &&& e.weak_refs == d.weak_refs
            &&& e.object_refcounts[key].remote_strong_count
                == d.object_refcounts[key].remote_strong_count + acquired_net(messages, key)
            &&& e.object_refcounts[key].local_strong_count
                == d.object_refcounts[key].local_strong_count
        }),
    decreases messages.len(),
{
    if messages.len() > 0 {
        let rest = messages.drop_last();
        remote_references_add_up(d, rest, key);
        let e = d.followed_all(rest);
        let m = messages.last();
        lemma_followed_wf(e, m);
        assert(e.followed(m).object_refcounts.dom() =~= e.object_refcounts.dom());
    }
}

proof fn lemma_followed_wf(d: DeviceView, m: ReturnMessage)
    requires
        d.wf(),
        d.can_follow(m),
    ensures
        d.followed(m).wf(),
{
    match m {
        ReturnMessage::Acquire(v) => {
            lemma_recounted_wf(
                d,
                (v.ptr, v.cookie),
                |s: ObjectRefState| s.after_increase_remote(),
            );
        },
        ReturnMessage::Release(v) => {
            lemma_recounted_wf(
                d,
                (v.ptr, v.cookie),
                |s: ObjectRefState| s.after_decrease_remote(),
            );
        },
        ReturnMessage::DeadBinder(cookie) => {
            lemma_remote_wf_kept(d, d.followed(m));
        },
        _ => {},
    }
}

/// A transaction that came in.
pub enum Incoming {
    /// Nobody handles it: send the commands, close the files, and end the exchange.
    Refused(Vec<DriverCommand>, Vec<RawFd>, Ending),
    /// It is for the handler in this slot, and nobody waits for a reply.
    OneWay(u64, Transaction),
    /// It is for the handler in this slot, and someone waits for the reply.
    TwoWay(u64, Transaction),
}

/// The reader over the buffers that came with a transaction or a reply.
pub open spec fn lent_reader(
    t: BinderTransactionData,
    data: Seq<u8>,
    offsets: Seq<usize>,
) -> ReaderView {
    ReaderView {
        data,
        offsets: if t.data.offsets == 0 {
            None
        } else {
            Some(offsets)
        },
        next_offset_index: 0,
        next_data_index: 0,
    }
}

/// What gives the buffers back that came with a transaction or a reply.
pub open spec fn lent_release(t: BinderTransactionData) -> Seq<DriverCommand> {
    if t.data.offsets == 0 {
        seq![DriverCommand::FreeBuffer(t.data.buffer)]
    } else {
        seq![DriverCommand::FreeBuffer(t.data.buffer), DriverCommand::FreeBuffer(t.data.offsets)]
    }
}

/// A reply to a transaction, with a payload that lies at the addresses given.
pub open spec fn reply_data(
    t: BinderTransactionData,
    p: PayloadView,
    data: BinderTransactionDataPtrs,
    pid: RawPid,
    uid: RawUid,
) -> BinderTransactionData {
    BinderTransactionData {
        target: TransactionTarget { word: 0 },
        cookie: 0,
        code: t.code,
        flags: t.flags,
        sender_pid: pid,
        sender_euid: uid,
        data_size: p.data.len() as u64,
        offsets_size: (p.offsets.len() * 8) as u64,
        data,
    }
}

/// How a transaction that nobody handles is answered: what dropping its objects asks for, then
/// its buffers are given back, and then, if someone waits, there is an empty reply.
pub open spec fn refusal(
    t: BinderTransactionData,
    drained: Seq<DriverCommand>,
    pid: RawPid,
    uid: RawUid,
) -> Seq<DriverCommand> {
    if t.flags.one_way() {
        drained + lent_release(t)
    } else {
        (drained + lent_release(t)).push(
            DriverCommand::Reply(
                reply_data(
                    t,
                    PayloadView::empty(),
                    BinderTransactionDataPtrs { buffer: 0, offsets: 0 },
                    pid,
                    uid,
                ),
            ),
        )
    }
}

/// Whoever waits for a transaction that nobody handles gets one reply, an empty one, and gets
/// it after the buffers were given back; where nobody waits, there is no reply.
pub proof fn refused_sender_is_not_left_waiting(
    d: DeviceView,
    t: BinderTransactionData,
    data: Seq<u8>,
    offsets: Seq<usize>,
    pid: RawPid,
    uid: RawUid,
    i: int,
)
    requires
        0 <= i < refusal(t, lent_reader(t, data, offsets).ended(d).1, pid, uid).len(),
    ensures
        ({
            let drained = lent_reader(t, data, offsets).ended(d).1;
            let commands = refusal(t, drained, pid, uid);
            &&& commands[drained.len() as int] == DriverCommand::FreeBuffer(t.data.buffer)
            &&& commands[i] is Reply <==> !t.flags.one_way() && i == commands.len() - 1
            &&& commands[i] is Reply ==> drained.len() < i
            &&& commands[i] matches DriverCommand::Reply(reply) ==> reply.data_size == 0
                && reply.offsets_size == 0 && reply.code == t.code
        }),
{
    let reader = lent_reader(t, data, offsets);
    draining_only_speaks_of_references(reader.data, reader.unread(), d);
    let drained = reader.ended(d).1;
    if i < drained.len() {
        assert(refusal(t, drained, pid, uid)[i] == drained[i]);
    }
}

/// How many places of objects came with a transaction or a reply.
pub fn lent_places(t: &BinderTransactionData) -> (r: u64)
    ensures
        r == t.offsets_size / 8,
{
    t.offsets_size / 8
}

/// The reader over the buffers that came with a reply, with the code of the reply.
pub fn on_reply(
    t: &BinderTransactionData,
    data: &'static [u8],
    offsets: &'static [usize],
) -> (r: (u32, PayloadReader))
    ensures
        r.0 == t.code,
        r.1@ == lent_reader(*t, data@, offsets@),
        r.1.to_free() == lent_release(*t),
        r.1@.wf(),
{
    (t.code, PayloadReader::from_kernel_raw(data, t.data.buffer, offsets, t.data.offsets))
}

impl BinderDevice {
    /// Finds out what becomes of a transaction that came in, over the buffers that came with
    /// it. A transaction that nobody handles is answered right away, and ends the exchange.
    pub fn on_transaction(
        &mut self,
        t: &BinderTransactionData,
        data: &'static [u8],
        offsets: &'static [usize],
        pid: RawPid,
        uid: RawUid,
    ) -> (r: Incoming)
        requires
            old(self)@.wf(),
        ensures
            ({
                let key = (t.target.word, t.cookie);
                let known = old(self)@.objects.dom().contains(key);
                let ended = lent_reader(*t, data@, offsets@).ended(old(self)@);
                match r {
                    Incoming::Refused(commands, files, ending) => !known && commands@ == refusal(
                        *t,
                        ended.1,
                        pid,
                        uid,
                    ) && files@ == ended.2 && ending == Ending::Failed(
                        WriteReadError::ObjectNotFound,
                    ) && final(self)@ == ended.0,
                    Incoming::OneWay(slot, transaction) => known && t.flags.one_way() && slot
                        == old(self)@.objects[key] && delivered(*t, data@, offsets@, transaction)
                        && final(self)@ == old(self)@,
                    Incoming::TwoWay(slot, transaction) => known && !t.flags.one_way() && slot
                        == old(self)@.objects[key] && delivered(*t, data@, offsets@, transaction)
                        && final(self)@ == old(self)@,
                }
            }),
            final(self)@.wf(),
    {
        let target = BinderObjectId::from_raw(t.target.binder(), t.cookie);
        let (_, payload) = on_reply(t, data, offsets);
        let one_way: bool = t.flags.contains(TransactionFlags::ONE_WAY);
        match self.get_handler(&target) {
            None => {
                let (mut commands, files) = payload.release(self);
                if !one_way {
                    let empty_reply = BinderTransactionData {
                        target: TransactionTarget::from_binder(0),
                        cookie: 0,
                        code: t.code,
                        flags: t.flags,
                        sender_pid: pid,
                        sender_euid: uid,
                        data_size: 0,
                        offsets_size: 0,
                        data: BinderTransactionDataPtrs { buffer: 0, offsets: 0 },
                    };
                    commands.push(DriverCommand::Reply(empty_reply));
                }
                Incoming::Refused(commands, files, Ending::Failed(WriteReadError::ObjectNotFound))
            },
            Some(slot) => {
                let transaction = Transaction {
                    code: t.code,
                    payload,
                    sender_pid: t.sender_pid,
                    sender_euid: t.sender_euid,
                };
                if one_way {
                    Incoming::OneWay(slot, transaction)
                } else {
                    Incoming::TwoWay(slot, transaction)
                }
            },
        }
    }
}

/// Whether a handler gets a transaction as it came in.
pub open spec fn delivered(
    t: BinderTransactionData,
    data: Seq<u8>,
    offsets: Seq<usize>,
    transaction: Transaction,
) -> bool {
    &&& transaction.code == t.code
    &&& transaction.sender_pid == t.sender_pid
    &&& transaction.sender_euid == t.sender_euid
    &&& transaction.payload@ == lent_reader(t, data, offsets)
    &&& transaction.payload@.wf()
    &&& transaction.payload.to_free() == lent_release(t)
}

/// A reply on its way to another process.
pub struct OutgoingReply {
    /// What the driver is given.
    pub reply: BinderTransactionData,
    /// The local objects in it.
    pub objects: Vec<BinderObjectId>,
}

impl OutgoingReply {
    /// What to write in the next exchange with the driver.
    pub fn bytes(&self) -> (r: Vec<u8>)
        ensures
            r@ == DriverCommand::Reply(self.reply).bytes(),
    {
        DriverCommand::Reply(self.reply).encode()
    }
}

impl BinderDevice {
    /// Readies the reply to a transaction, whose payload lies at the addresses given. The
    /// local objects in it count as referenced from now on.
    pub fn reply_at(
        &mut self,
        t: &BinderTransactionData,
        data: &PayloadBuilder<'_>,
        ptrs: BinderTransactionDataPtrs,
        pid: RawPid,
        uid: RawUid,
    ) -> (r: OutgoingReply)
        requires
            old(self)@.wf(),
            data@.wf(),
            old(self)@.can_mark(embedded(data@.data, data@.offsets)),
        ensures
            r.reply == reply_data(*t, data@, ptrs, pid, uid),
            r.reply.code == t.code,
            r.reply.flags == t.flags,
            r.reply.sender_pid == pid,
            r.reply.sender_euid == uid,
            r.reply.data_size == data@.data.len(),
            r.reply.offsets_size == 8 * data@.offsets.len(),
            r.reply.data == ptrs,
            r.objects@ == embedded(data@.data, data@.offsets),
            final(self)@ == old(self)@.marked(r.objects@),
            final(self)@.wf(),
    {
        proof {
            objects_take_room(data@);
        }
        let reply = BinderTransactionData {
            target: TransactionTarget::from_binder(0),
            cookie: 0,
            code: t.code,
            flags: t.flags,
            sender_pid: pid,
            sender_euid: uid,
            data_size: data.data_buffer_len() as u64,
            offsets_size: (data.offset_buffer_len() as u64) * 8,
            data: ptrs,
        };
        let objects = embedded_binder_objects(data.data(), data.offsets());
        self.mark_objects_as_pending_remote(objects.as_slice());
        OutgoingReply { reply, objects }
    }

    /// Readies the reply to a transaction.
    pub fn reply(
        &mut self,
        t: &BinderTransactionData,
        data: &PayloadBuilder<'_>,
        pid: RawPid,
        uid: RawUid,
    ) -> (r: OutgoingReply)
        requires
            old(self)@.wf(),
            data@.wf(),
            old(self)@.can_mark(embedded(data@.data, data@.offsets)),
        ensures
            r.reply == reply_data(*t, data@, r.reply.data, pid, uid),
            r.reply.code == t.code,
            r.reply.flags == t.flags,
            r.reply.sender_pid == pid,
            r.reply.sender_euid == uid,
            r.reply.data_size == data@.data.len(),
            r.reply.offsets_size == 8 * data@.offsets.len(),
            bytes_lie_at(data@.data, r.reply.data.buffer),
            places_lie_at(data@.offsets, r.reply.data.offsets),
            r.objects@ == embedded(data@.data, data@.offsets),
            final(self)@ == old(self)@.marked(r.objects@),
            final(self)@.wf(),
    {
        let ptrs = BinderTransactionDataPtrs {
            buffer: find_bytes(data.data()),
            offsets: find_places(data.offsets()),
        };
        self.reply_at(t, data, ptrs, pid, uid)
    }

    /// What the exchange that sent a reply came to: if it failed, the objects in the reply are
    /// no longer on their way. A reply to the reply is not wanted; it is handed out to be ended.
    pub fn after_reply_exchange(&mut self, sent: &OutgoingReply, outcome: Exchanged) -> (r: Option<
        PayloadReader,
    >)
        requires
            old(self)@.wf(),
        ensures
            match outcome {
                None => r is None && final(self)@ == old(self)@,
                Some(Ok(reply)) => r == Some(reply.1) && final(self)@ == old(self)@,
                Some(Err(_)) => r is None && final(self)@ == old(self)@.unmarked(sent.objects@),
            },
            final(self)@.wf(),
    {
        match outcome {
            None => None,
            Some(Ok((_, reply))) => Some(reply),
            Some(Err(_)) => {
                self.unmark_objects_as_pending_remote(sent.objects.as_slice());
                None
            },
        }
    }
}

/// What a looper tells the driver first: it registers if the driver asked for it, and enters
/// of its own accord if not.
pub fn looper_start(spawned: bool) -> (r: DriverCommand)
    ensures
        r == (if spawned {
            DriverCommand::RegisterLooper
        } else {
            DriverCommand::EnterLooper
        }),
{
    if spawned {
        DriverCommand::RegisterLooper
    } else {
        DriverCommand::EnterLooper
    }
}

/// What a looper does after an exchange with the driver.
pub enum LooperStep {
    /// Exchange again. If there was a reply, which a looper does not want, it is handed out to
    /// be ended first.
    Again(Option<PayloadReader>),
    /// Send the command and end.
    Leave(DriverCommand),
}

/// What a looper does after an exchange with the driver: only a device that is gone ends it.
pub fn looper_step(outcome: Exchanged) -> (r: LooperStep)
    ensures
        r == (match outcome {
            Some(Err(WriteReadError::NoDevice)) => LooperStep::Leave(DriverCommand::ExitLooper),
            Some(Ok(reply)) => LooperStep::Again(Some(reply.1)),
            _ => LooperStep::Again(None),
        }),
{
    match outcome {
        Some(Err(WriteReadError::NoDevice)) => LooperStep::Leave(DriverCommand::ExitLooper),
        Some(Ok((_, reply))) => LooperStep::Again(Some(reply)),
        _ => LooperStep::Again(None),
    }
}

/// How a message ends the exchange, if it does. A transaction does if it is refused.
pub open spec fn ending(m: ReturnMessage, refused: bool) -> Option<Ending> {
    match m {
        ReturnMessage::Reply(v) => Some(Ending::Replied(v)),
        ReturnMessage::DeadReply => Some(Ending::Failed(WriteReadError::DeadReply)),
        ReturnMessage::FrozenReply => Some(Ending::Failed(WriteReadError::FrozenReply)),
        ReturnMessage::FailedReply => Some(Ending::QueryError),
        ReturnMessage::Transaction(_) | ReturnMessage::TransactionSecCtx(_) => if refused {
            Some(Ending::Failed(WriteReadError::ObjectNotFound))
        } else {
            None
        },
        _ => None,
    }
}

/// How an exchange ends over a run of messages, where `refused` says of each whether it is a
/// transaction that is refused: as the first message says that ends it, and without a reply if
/// there is none.
pub open spec fn exchange_ending(messages: Seq<ReturnMessage>, refused: spec_fn(int) -> bool) -> Option<
    Ending,
>
    decreases messages.len(),
{
    if messages.len() == 0 {
        None
    } else {
        match exchange_ending(messages.drop_last(), refused) {
            Some(e) => Some(e),
            None => ending(messages.last(), refused(messages.len() - 1)),
        }
    }
}

/// The first message that ends the exchange decides how it ends; what comes behind it does not
/// matter.
pub proof fn first_ending_decides(
    messages: Seq<ReturnMessage>,
    refused: spec_fn(int) -> bool,
    i: int,
)
    requires
        0 <= i < messages.len(),
        ending(messages[i], refused(i)) is Some,
        forall|j: int| 0 <= j < i ==> ending(#[trigger] messages[j], refused(j)) is None,
    ensures
        exchange_ending(messages, refused) == ending(messages[i], refused(i)),
    decreases messages.len(),
{
    if i == messages.len() - 1 {
        no_ending_no_reply(messages.drop_last(), refused);
    } else {
        first_ending_decides(messages.drop_last(), refused, i);
    }
}

/// Where no message ends the exchange, it ends without a reply.
pub proof fn no_ending_no_reply(messages: Seq<ReturnMessage>, refused: spec_fn(int) -> bool)
    requires
        forall|j: int|
            0 <= j < messages.len() ==> ending(#[trigger] messages[j], refused(j)) is None,
    ensures
        exchange_ending(messages, refused) is None,
    decreases messages.len(),
{
    if messages.len() > 0 {
        let rest = messages.drop_last();
        assert forall|j: int| 0 <= j < rest.len() implies ending(
            #[trigger] rest[j],
            refused(j),
        ) is None by {
            assert(rest[j] == messages[j]);
        }
        no_ending_no_reply(rest, refused);
        assert(messages.last() == messages[messages.len() - 1]);
    }
}

/// What a message asks for says whether it ends the exchange: an action that ends it does so
/// for the message, a transaction does if it is refused, and no other action does.
pub proof fn actions_end_as_messages_do(d: DeviceView, m: ReturnMessage, refused: bool)
    ensures
        match d.action(m) {
            ReturnAction::End(e) => ending(m, refused) == Some(e),
            ReturnAction::Receive(_) => ending(m, refused) == (if refused {
                Some(Ending::Failed(WriteReadError::ObjectNotFound))
            } else {
                None
            }),
            _ => ending(m, refused) is None,
        },
{
}

/// The bytes of a run of messages.
pub open spec fn run_bytes(messages: Seq<ReturnMessage>) -> Seq<u8>
    decreases messages.len(),
{
    if messages.len() == 0 {
        Seq::empty()
    } else {
        run_bytes(messages.drop_last()) + messages.last().bytes()
    }
}

/// A run of messages is read back: after the messages before it, each message is read where
/// they end, and the next one is read right behind it.
pub proof fn run_is_read_back(messages: Seq<ReturnMessage>, i: int)
    requires
        0 <= i < messages.len(),
        forall|j: int| 0 <= j < messages.len() ==> (#[trigger] messages[j]).regular(),
    ensures
        message_at(run_bytes(messages), run_bytes(messages.take(i)).len() as int) == Some(
            (messages[i], run_bytes(messages.take(i + 1)).len() as int),
        ),
{
    lemma_run_split(messages, i + 1);
    let behind = choose|behind: Seq<u8>|
        run_bytes(messages) == #[trigger] (run_bytes(messages.take(i + 1)) + behind);
    assert(messages.take(i + 1).drop_last() =~= messages.take(i));
    assert(messages.take(i + 1).last() == messages[i]);
    message_is_read_back(run_bytes(messages.take(i)), messages[i], behind);
}

proof fn lemma_run_split(messages: Seq<ReturnMessage>, i: int)
    requires
        0 <= i <= messages.len(),
    ensures
        exists|behind: Seq<u8>|
            run_bytes(messages) == #[trigger] (run_bytes(messages.take(i)) + behind),
    decreases messages.len() - i,
{
    if i == messages.len() {
        assert(messages.take(i) =~= messages);
        assert(run_bytes(messages) =~= run_bytes(messages.take(i)) + Seq::<u8>::empty());
    } else {
        lemma_run_split(messages, i + 1);
        let behind = choose|behind: Seq<u8>|
            run_bytes(messages) == #[trigger] (run_bytes(messages.take(i + 1)) + behind);
        assert(messages.take(i + 1).drop_last() =~= messages.take(i));
        assert(run_bytes(messages) =~= run_bytes(messages.take(i)) + (messages.take(
            i + 1,
        ).last().bytes() + behind));
    }
}

/// The first word of a message is the number of its own name, and what follows are its fields.
pub proof fn messages_in_memory(m: ReturnMessage)
    ensures
        u32_at(m.bytes(), 0) == m.code(),
        m matches ReturnMessage::Failure(v) ==> m.code() == 0x8004_7200 && m.bytes().len() == 8
            && signed(u32_at(m.bytes(), 4)) == v,
        m is Okay ==> m.code() == 0x7201 && m.bytes().len() == 4,
        m matches ReturnMessage::TransactionSecCtx(v) ==> m.code() == 0x8048_7202
            && m.bytes().len() == 76
            && BinderTransactionDataSecCtx::decoded(m.bytes().subrange(4, 76)) == v,
        m matches ReturnMessage::Transaction(v) ==> m.code() == 0x8040_7202
            && m.bytes().len() == 68
            && BinderTransactionData::decoded(m.bytes().subrange(4, 68)) == v,
        m matches ReturnMessage::Reply(v) ==> m.code() == 0x8040_7203 && m.bytes().len() == 68
            && BinderTransactionData::decoded(m.bytes().subrange(4, 68)) == v,
        m matches ReturnMessage::AcquireResult(v) ==> m.code() == 0x8004_7204
            && m.bytes().len() == 8 && signed(u32_at(m.bytes(), 4)) == v,
        m is DeadReply ==> m.code() == 0x7205 && m.bytes().len() == 4,
        m is TransactionComplete ==> m.code() == 0x7206 && m.bytes().len() == 4,
        m matches ReturnMessage::IncRefs(v) ==> m.code() == 0x8010_7207 && m.bytes().len() == 20
            && u64_at(m.bytes(), 4) == v.ptr && u64_at(m.bytes(), 12) == v.cookie,
        m matches ReturnMessage::Acquire(v) ==> m.code() == 0x8010_7208 && m.bytes().len() == 20
            && u64_at(m.bytes(), 4) == v.ptr && u64_at(m.bytes(), 12) == v.cookie,
        m matches ReturnMessage::Release(v) ==> m.code() == 0x8010_7209 && m.bytes().len() == 20
            && u64_at(m.bytes(), 4) == v.ptr && u64_at(m.bytes(), 12) == v.cookie,
        m matches ReturnMessage::DecRefs(v) ==> m.code() == 0x8010_720a && m.bytes().len() == 20
            && u64_at(m.bytes(), 4) == v.ptr && u64_at(m.bytes(), 12) == v.cookie,
        m matches ReturnMessage::AttemptAcquire(v) ==> m.code() == 0x8018_720b
            && m.bytes().len() == 20 && u64_at(m.bytes(), 4) == v.ptr
            && u64_at(m.bytes(), 12) == v.cookie,
        m is Noop ==> m.code() == 0x720c && m.bytes().len() == 4,
        m is SpawnLooper ==> m.code() == 0x720d && m.bytes().len() == 4,
        m is Finished ==> m.code() == 0x720e && m.bytes().len() == 4,
        m matches ReturnMessage::DeadBinder(v) ==> m.code() == 0x8008_720f && m.bytes().len() == 12
            && u64_at(m.bytes(), 4) == v,
        m matches ReturnMessage::ClearDeathNotificationDone(v) ==> m.code() == 0x8008_7210
            && m.bytes().len() == 12 && u64_at(m.bytes(), 4) == v,
        m is FailedReply ==> m.code() == 0x7211 && m.bytes().len() == 4,
        m is FrozenReply ==> m.code() == 0x7212 && m.bytes().len() == 4,
        m is OnewaySpamSuspect ==> m.code() == 0x7213 && m.bytes().len() == 4,
        m is TransactionPendingFrozen ==> m.code() == 0x7214 && m.bytes().len() == 4,
        m matches ReturnMessage::FrozenBinder(v) ==> m.code() == 0x8010_7215
            && m.bytes().len() == 20 && u64_at(m.bytes(), 4) == v.cookie
            && u32_at(m.bytes(), 12) == v.is_frozen && u32_at(m.bytes(), 16) == v.reserved,
        m matches ReturnMessage::ClearFreezeNotificationDone(v) ==> m.code() == 0x8008_7216
            && m.bytes().len() == 12 && u64_at(m.bytes(), 4) == v,
{
    broadcast use ne32_facts, ne64_facts;

    let b = m.bytes();
    assert(b.subrange(0, 4) =~= ne32(m.code()));
    assert(b.subrange(4, b.len() as int) =~= m.argument());
    match m {
        ReturnMessage::Failure(v) => twos_complement(v, 0),
        ReturnMessage::AcquireResult(v) => twos_complement(v, 0),
        ReturnMessage::TransactionSecCtx(v) => v.decode_encoded(),
        ReturnMessage::Transaction(v) => v.decode_encoded(),
        ReturnMessage::Reply(v) => v.decode_encoded(),
        ReturnMessage::IncRefs(v) => lemma_pair_in_message(b, v),
        ReturnMessage::Acquire(v) => lemma_pair_in_message(b, v),
        ReturnMessage::Release(v) => lemma_pair_in_message(b, v),
        ReturnMessage::DecRefs(v) => lemma_pair_in_message(b, v),
        ReturnMessage::AttemptAcquire(v) => lemma_pair_in_message(b, v),
        ReturnMessage::FrozenBinder(v) => {
            v.words_in_memory();
            assert(b.subrange(4, 12) =~= v.bytes().subrange(0, 8));
            assert(b.subrange(12, 16) =~= v.bytes().subrange(8, 12));
            assert(b.subrange(16, 20) =~= v.bytes().subrange(12, 16));
        },
        _ => {},
    }
}

proof fn lemma_pair_in_message(b: Seq<u8>, v: BinderPtrCookie)
    requires
        b.len() >= 4,
        b.subrange(4, b.len() as int) == v.bytes(),
    ensures
        b.len() == 20,
        u64_at(b, 4) == v.ptr,
        u64_at(b, 12) == v.cookie,
{
    v.words_in_memory();
    let t = b.subrange(4, b.len() as int);
    assert(b.subrange(4, 12) =~= t.subrange(0, 8));
    assert(b.subrange(12, 20) =~= t.subrange(8, 16));
}

/// How far a message reaches is what its code announces, but for an attempt to acquire, of
/// which sixteen bytes are read, and for codes that are not known, which are read alone.
pub proof fn messages_are_as_long_as_announced(code: u32)
    ensures
        code == 0x8018_720b ==> argument_len(code) == 16,
        argument_len(code) > 0 && code != 0x8018_720b ==> argument_len(code) == code / 0x1_0000
            % 0x4000,
        message(code, Seq::empty()) is Unknown ==> argument_len(code) == 0,
        argument_len(code) == 0 && code / 0x1_0000 % 0x4000 > 0 ==> message(code, Seq::empty())
            == ReturnMessage::Unknown(code),
{
}

/// What a process does about a message, by the bytes that it reads: a transaction is received
/// and a reply ends the exchange, both as they came; what asks for a reference is confirmed for
/// the very object it names, and a death for the very cookie; the three failures end the
/// exchange each in their way; a looper is started when one is asked for; and nothing else asks
/// for anything.
pub proof fn actions_go_by_the_bytes(d: DeviceView, s: Seq<u8>, at: int)
    requires
        0 <= at,
        message_at(s, at) is Some,
    ensures
        ({
            let (m, end) = message_at(s, at)->0;
            let code = u32_at(s, at);
            let action = d.action(m);
            &&& end == at + 4 + argument_len(code)
            &&& code == 0x8040_7202 || code == 0x8048_7202 <==> action is Receive
            &&& action matches ReturnAction::Receive(t) ==> t.bytes() == s.subrange(at + 4, at + 68)
            &&& code == 0x8040_7203 <==> (action matches ReturnAction::End(Ending::Replied(_)))
            &&& action matches ReturnAction::End(Ending::Replied(t)) ==> t.bytes() == s.subrange(
                at + 4,
                at + 68,
            )
            &&& code == 0x7205 <==> action == ReturnAction::End(
                Ending::Failed(WriteReadError::DeadReply),
            )
            &&& code == 0x7212 <==> action == ReturnAction::End(
                Ending::Failed(WriteReadError::FrozenReply),
            )
            &&& code == 0x7211 <==> action == ReturnAction::End(Ending::QueryError)
            &&& code == 0x720d <==> action is SpawnLooper
            &&& code == 0x8010_7207 || code == 0x8010_7208 <==> action is Send
            &&& action matches ReturnAction::Send(c) ==> c.bytes() == ne32(
                if code == 0x8010_7207 {
                    0x4010_6308
                } else {
                    0x4010_6309
                },
            ) + s.subrange(at + 4, at + 20)
            &&& code == 0x8008_720f <==> action is Died
            &&& action matches ReturnAction::Died(awaited, c) ==> awaited == d.alive(
                u64_at(s, at + 4),
            ) && c.bytes() == ne32(0x4008_6310) + s.subrange(at + 4, at + 12)
        }),
{
    let (m, end) = message_at(s, at)->0;
    let code = u32_at(s, at);
    let argument = s.subrange(at + 4, end);
    assert(at + 4 <= s.len());
    match m {
        ReturnMessage::TransactionSecCtx(v) => {
            assert(argument.subrange(0, 64) =~= s.subrange(at + 4, at + 68));
            BinderTransactionData::encode_decoded(argument.subrange(0, 64));
        },
        ReturnMessage::Transaction(v) => BinderTransactionData::encode_decoded(argument),
        ReturnMessage::Reply(v) => BinderTransactionData::encode_decoded(argument),
        ReturnMessage::IncRefs(v) => BinderPtrCookie::encode_decoded(argument),
        ReturnMessage::Acquire(v) => BinderPtrCookie::encode_decoded(argument),
        ReturnMessage::DeadBinder(v) => {
            u64_at_bytes(argument, 0);
            assert(argument.subrange(0, 8) =~= argument);
        },
        _ => {},
    }
}

/// What a message changes: one that another process took a strong reference counts one more for
/// the object it names, one that it dropped it one less, and a report of a death ends the wait
/// for the cookie it names. Nothing else changes, and no other message changes anything.
pub proof fn messages_change_what_they_name(
    d: DeviceView,
    m: ReturnMessage,
    key: (u64, u64),
    cookie: u64,
)
    requires
        d.wf(),
        d.can_follow(m),
    ensures
        ({
            let e = d.followed(m);
            let (s, t) = (d.object_refcounts[key], e.object_refcounts[key]);
            let taken = m matches ReturnMessage::Acquire(v) && v.ptr == key.0 && v.cookie == key.1;
            let dropped = m matches ReturnMessage::Release(v) && v.ptr == key.0 && v.cookie
                == key.1;
            &&& e.objects == d.objects && e.retained_services == d.retained_services
            &&& e.refs == d.refs && e.weak_refs == d.weak_refs && e.ctx_manager == d.ctx_manager
            &&& e.object_refcounts.dom() == d.object_refcounts.dom()
            &&& d.object_refcounts.dom().contains(key) ==> {
                &&& t.local_strong_count == s.local_strong_count
                &&& taken ==> t.remote_strong_count == s.remote_strong_count + 1
                    && !t.new_in_remote
                &&& dropped ==> t.remote_strong_count == s.remote_strong_count - 1
                    && t.new_in_remote == s.new_in_remote
                &&& !taken && !dropped ==> t == s
                &&& t.obj_id == s.obj_id
            }
            &&& e.alive(cookie) <==> d.alive(cookie) && m != ReturnMessage::DeadBinder(cookie)
        }),
{
    assert(d.object_refcounts.dom().contains(key) ==> d.object_refcounts[key].wf());
    assert(d.followed(m).object_refcounts.dom() =~= d.object_refcounts.dom());
    match m {
        ReturnMessage::Acquire(v) => {
            assert(d.object_refcounts.dom().contains((v.ptr, v.cookie))
                ==> d.object_refcounts[(v.ptr, v.cookie)].wf());
        },
        ReturnMessage::Release(v) => {
            assert(d.object_refcounts.dom().contains((v.ptr, v.cookie))
                ==> d.object_refcounts[(v.ptr, v.cookie)].wf());
        },
        _ => {},
    }
}

/// A reply carries the code and the flags of what it answers, says who sends it, how long its
/// payload is and where it lies, and names no target.
pub proof fn reply_answers_its_transaction(
    t: BinderTransactionData,
    p: PayloadView,
    ptrs: BinderTransactionDataPtrs,
    pid: RawPid,
    uid: RawUid,
)
    requires
        p.wf(),
    ensures
        ({
            let r = reply_data(t, p, ptrs, pid, uid);
            &&& r.code == t.code && r.flags == t.flags
            &&& r.sender_pid == pid && r.sender_euid == uid
            &&& r.data_size == p.data.len()
            &&& r.offsets_size == 8 * p.offsets.len()
            &&& r.data.buffer == ptrs.buffer && r.data.offsets == ptrs.offsets
            &&& r.target.word == 0 && r.cookie == 0
            &&& u32_at(r.bytes(), 16) == t.code
            &&& u64_at(r.bytes(), 32) == p.data.len()
            &&& u64_at(r.bytes(), 40) == 8 * p.offsets.len()
            &&& u64_at(r.bytes(), 48) == ptrs.buffer
            &&& u64_at(r.bytes(), 56) == ptrs.offsets
        }),
{
    objects_take_room(p);
    reply_data(t, p, ptrs, pid, uid).words_in_memory();
}

/// A reply that was readied for a payload with anything in it points at memory for both its
/// bytes and its places, and not at address zero.
pub proof fn reply_points_at_its_payload(r: BinderTransactionData, p: PayloadView)
    requires
        bytes_lie_at(p.data, r.data.buffer),
        places_lie_at(p.offsets, r.data.offsets),
    ensures
        r.data.buffer > 0 && r.data.buffer + p.data.len() <= usize::MAX,
        r.data.offsets > 0 && r.data.offsets + p.offsets.len() <= usize::MAX,
{
    nothing_lies_at_zero(p.data, p.offsets, r.data.buffer);
    nothing_lies_at_zero(p.data, p.offsets, r.data.offsets);
}

/// What came with a transaction or a reply is read from the start, and given back as a whole:
/// the bytes, and the places if there are any, each once and at the address it came at.
pub proof fn lent_buffers_are_read_and_given_back(
    t: BinderTransactionData,
    data: Seq<u8>,
    offsets: Seq<usize>,
)
    ensures
        lent_reader(t, data, offsets).data == data,
        lent_reader(t, data, offsets).offsets is Some <==> t.data.offsets != 0,
        lent_reader(t, data, offsets).offsets is Some ==> lent_reader(t, data, offsets).offsets->0
            == offsets,
        lent_reader(t, data, offsets).next_data_index == 0,
        lent_reader(t, data, offsets).next_offset_index == 0,
        lent_release(t).len() == 1 <==> t.data.offsets == 0,
        lent_release(t).len() <= 2,
        lent_release(t)[0] == DriverCommand::FreeBuffer(t.data.buffer),
        t.data.offsets != 0 ==> lent_release(t)[1] == DriverCommand::FreeBuffer(t.data.offsets),
{
}

/// A handler gets the code, the sender and the payload of a transaction as they came in.
pub proof fn delivered_as_it_came(
    t: BinderTransactionData,
    data: Seq<u8>,
    offsets: Seq<usize>,
    transaction: Transaction,
)
    requires
        delivered(t, data, offsets, transaction),
    ensures
        transaction.code == t.code,
        transaction.sender_pid == t.sender_pid,
        transaction.sender_euid == t.sender_euid,
        transaction.payload@.data == data,
        t.data.offsets != 0 ==> transaction.payload@.offsets == Some(offsets),
        transaction.payload@.next_data_index == 0,
        transaction.payload.to_free()[0] == DriverCommand::FreeBuffer(t.data.buffer),
{
    lent_buffers_are_read_and_given_back(t, data, offsets);
}

/// What a refused transaction is answered: what dropping its objects asks for comes first and as
/// it is, then the buffers, and the reply, where someone waits, names the refused transaction by
/// its code and flags, and is empty.
pub proof fn refusal_in_order(
    t: BinderTransactionData,
    drained: Seq<DriverCommand>,
    pid: RawPid,
    uid: RawUid,
)
    ensures
        ({
            let commands = refusal(t, drained, pid, uid);
            let n = drained.len() + lent_release(t).len();
            &&& commands.subrange(0, drained.len() as int) == drained
            &&& commands.subrange(drained.len() as int, n as int) == lent_release(t)
            &&& t.flags.0 % 2 == 1 ==> commands.len() == n
            &&& t.flags.0 % 2 == 0 ==> commands.len() == n + 1 && (commands.last() matches
                DriverCommand::Reply(r) && r.code == t.code && r.flags == t.flags && r.sender_pid
                == pid && r.sender_euid == uid && r.data_size == 0 && r.offsets_size == 0
                && r.data.buffer == 0 && r.data.offsets == 0 && r.target.word == 0)
        }),
{
    let commands = refusal(t, drained, pid, uid);
    let n = drained.len() + lent_release(t).len();
    lowest_flag_means_one_way(t.flags.0);
    assert(commands.subrange(0, drained.len() as int) =~= drained);
    assert(commands.subrange(drained.len() as int, n as int) =~= lent_release(t));
}

/// A send whose reply failed is tried again exactly if the driver says that there is no space.
pub proof fn no_space_is_tried_again(extended: BinderExtendedError)
    ensures
        sender_error(reply_failure(extended)) is None <==> extended.param == -28,
        sender_error(reply_failure(extended)) is Some ==> sender_error(reply_failure(extended))
            == sender_error(WriteReadError::FailedReply),
{
}

/// How much room the driver is given in one exchange.
pub proof fn exchange_sizes()
    ensures
        READ_SIZE == 256,
{
}

} // verus!
