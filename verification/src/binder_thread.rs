//! Threads that are registered with binder devices, and what they receive.
use crate::command::DriverCommand;
use crate::sys::{BinderCommand, BinderReturn, BinderWriteRead, RawFd};
use crate::wire::{get_le_u32, get_le_u64, get_u32, put_bytes, put_le_u32};
use std::collections::HashMap;
use vstd::prelude::*;

verus! {

use crate::wire::{le32, le_u32_at, le_u64_at, u32_at};
use vstd::std_specs::hash::spec_keys_iter;
use vstd::std_specs::iter::IteratorSpec;

/// How many bytes a worker gives the driver room for.
pub const WORKER_READ_SIZE: usize = 262144;

/// A device, by the number of the open file that it was made from.
#[derive(Clone, Copy, Hash, Eq, PartialEq, Debug, Structural)]
pub struct DeviceKey(pub RawFd);

/// What has to be done before a thread can use a device.
#[derive(Clone, Copy, Debug, PartialEq, Eq, Structural)]
pub enum Ensured {
    /// Nothing: the duplicate of the open file is in this slot.
    Ready(u64),
    /// Duplicate the open file, send the command over the duplicate, and add it.
    Register(DriverCommand),
}

/// The devices that a thread is registered with, each with the slot of its own duplicate of
/// the open file.
pub struct ThreadBinderState {
    registrations: HashMap<i32, u64>,
}

impl View for ThreadBinderState {
    type V = Map<i32, u64>;

    closed spec fn view(&self) -> Map<i32, u64> {
        self.registrations@
    }
}

impl ThreadBinderState {
    pub fn new() -> (r: Self)
        ensures
            r@ == Map::<i32, u64>::empty(),
    {
        ThreadBinderState { registrations: HashMap::new() }
    }

    /// The slot of a device, if the thread is registered with it.
    pub fn get(&self, key: DeviceKey) -> (r: Option<u64>)
        ensures
            r == (if self@.dom().contains(key.0) {
                Some(self@[key.0])
            } else {
                None
            }),
    {
        broadcast use vstd::std_specs::hash::group_hash_axioms;

        match self.registrations.get(&key.0) {
            Some(slot) => Some(*slot),
            None => None,
        }
    }

    /// What has to be done before the thread can use a device: it is registered once.
    pub fn ensure_device(&self, key: DeviceKey) -> (r: Ensured)
        ensures
            r == (if self@.dom().contains(key.0) {
                Ensured::Ready(self@[key.0])
            } else {
                Ensured::Register(DriverCommand::RegisterLooper)
            }),
    {
        match self.get(key) {
            Some(slot) => Ensured::Ready(slot),
            None => Ensured::Register(DriverCommand::RegisterLooper),
        }
    }

    /// The thread was registered with a device.
    pub fn add(&mut self, key: DeviceKey, slot: u64)
        ensures
            final(self)@ == old(self)@.insert(key.0, slot),
    {
        broadcast use vstd::std_specs::hash::group_hash_axioms;

        self.registrations.insert(key.0, slot);
    }

    /// Ends all registrations: for each of the devices, in any order, the command is to be
    /// sent over the duplicate in the slot.
    pub fn drain(&mut self) -> (r: (Vec<RawFd>, DriverCommand))
        ensures
            r.0@.to_set() == old(self)@.dom(),
            r.0@.no_duplicates(),
            r.1 == DriverCommand::ExitLooper,
            final(self)@ == Map::<i32, u64>::empty(),
    {
        broadcast use vstd::std_specs::hash::group_hash_axioms;

        let ghost all = spec_keys_iter(&self.registrations).remaining().unref();
        let mut keys: Vec<RawFd> = Vec::new();
        for key in it: self.registrations.keys()
            invariant
                it.seq().unref() == all,
                keys@ == all.take(it.index() as int),
        {
            keys.push(*key);
            assert(keys@ =~= all.take(it.index() + 1));
        }
        assert(keys@ =~= all);
        self.registrations.clear();
        (keys, DriverCommand::ExitLooper)
    }
}

/// How many receivers are started: one per processor, or four if their number is not known.
pub fn worker_count(parallelism: Option<usize>) -> (r: usize)
    ensures
        r == (match parallelism {
            Some(n) => n,
            None => 4,
        }),
{
    match parallelism {
        Some(n) => n,
        None => 4,
    }
}

/// The words of what the driver sent, as far as they are whole.
pub fn read_words(buffer: &[u8], consumed: usize) -> (r: Vec<u32>)
    requires
        consumed <= buffer@.len(),
    ensures
        r@ == Seq::new((consumed / 4) as nat, |i: int| u32_at(buffer@, 4 * i)),
{
    let n: usize = consumed / 4;
    let mut words: Vec<u32> = Vec::new();
    let mut i: usize = 0;
    while i < n
        invariant
            i <= n,
            n == consumed / 4,
            consumed <= buffer@.len(),
            words@ == Seq::new(i as nat, |j: int| u32_at(buffer@, 4 * j)),
        decreases n - i,
    {
        words.push(get_u32(buffer, 4 * i));
        i += 1;
        assert(words@ =~= Seq::new(i as nat, |j: int| u32_at(buffer@, 4 * j)));
    }
    words
}

/// What a worker does about a word from the driver.
#[derive(Clone, Copy, Debug, PartialEq, Eq, Structural)]
pub enum WorkerAction {
    /// Nothing.
    Ignore,
    /// Read the transaction.
    ReadTransaction,
    /// Say that the target of a transaction is dead.
    ReportDeadReply,
    /// Say that there was an error.
    ReportError,
    /// Say that the word is not known.
    ReportUnknown(u32),
}

/// What a worker does about a word from the driver.
pub fn handle_command(cmd: u32) -> (r: WorkerAction)
    ensures
        r == (if cmd == BinderReturn::TRANSACTION {
            WorkerAction::ReadTransaction
        } else if cmd == BinderReturn::DEAD_REPLY {
            WorkerAction::ReportDeadReply
        } else if cmd == BinderReturn::ERROR {
            WorkerAction::ReportError
        } else if cmd == BinderReturn::NOOP || cmd == BinderReturn::TRANSACTION_COMPLETE || cmd
            == BinderReturn::REPLY || cmd == BinderReturn::SPAWN_LOOPER {
            WorkerAction::Ignore
        } else {
            WorkerAction::ReportUnknown(cmd)
        }),
{
    if cmd == BinderReturn::NOOP {
        WorkerAction::Ignore
    } else if cmd == BinderReturn::TRANSACTION {
        WorkerAction::ReadTransaction
    } else if cmd == BinderReturn::TRANSACTION_COMPLETE {
        WorkerAction::Ignore
    } else if cmd == BinderReturn::REPLY {
        WorkerAction::Ignore
    } else if cmd == BinderReturn::DEAD_REPLY {
        WorkerAction::ReportDeadReply
    } else if cmd == BinderReturn::SPAWN_LOOPER {
        WorkerAction::Ignore
    } else if cmd == BinderReturn::ERROR {
        WorkerAction::ReportError
    } else {
        WorkerAction::ReportUnknown(cmd)
    }
}

/// What a worker takes from a transaction.
#[derive(Debug)]
pub struct TransactionInfo {
    pub code: u32,
    pub payload: Vec<u8>,
}

/// Takes the code and the payload from a transaction, if there is a whole header.
pub fn parse_br_transaction(data: &[u8]) -> (r: Option<TransactionInfo>)
    requires
        data@.len() >= 64 ==> 64 + le_u64_at(data@, 56) <= usize::MAX && (le_u64_at(data@, 56) > 0 ==> 64
            + le_u64_at(data@, 56) <= data@.len()),
    ensures
        r is Some <==> data@.len() >= 64,
        r matches Some(info) ==> info.code == le_u32_at(data@, 32) && info.payload@ == (if le_u64_at(
            data@,
            56,
        ) > 0 {
            data@.subrange(64, 64 + le_u64_at(data@, 56))
        } else {
            Seq::empty()
        }),
{
    if data.len() < 64 {
        return None;
    }
    let data_size: usize = get_le_u64(data, 56) as usize;
    let mut payload: Vec<u8> = Vec::new();
    if data_size > 0 {
        put_bytes(&mut payload, vstd::slice::slice_subrange(data, 64, 64 + data_size));
    }
    let code: u32 = get_le_u32(data, 32);
    assert(le_u64_at(data@, 56) > 0 ==> payload@ =~= data@.subrange(64, 64 + le_u64_at(data@, 56)));
    Some(TransactionInfo { code, payload })
}

/// The request that sends a single command which lies at the address given.
pub fn command_request(address: u64) -> (r: BinderWriteRead)
    ensures
        r == (BinderWriteRead {
            write_size: 4,
            write_consumed: 0,
            write_buffer: address,
            read_size: 0,
            read_consumed: 0,
            read_buffer: 0,
        }),
{
    BinderWriteRead::exchange(address, 4, 0, 0)
}

/// The bytes that send transaction data.
pub fn transaction_write(data: &[u8]) -> (r: Vec<u8>)
    ensures
        r@ == le32(BinderCommand::TRANSACTION) + data@,
{
    let mut write_buf: Vec<u8> = Vec::new();
    put_le_u32(&mut write_buf, BinderCommand::TRANSACTION);
    put_bytes(&mut write_buf, data);
    assert(write_buf@ =~= le32(BinderCommand::TRANSACTION) + data@);
    write_buf
}

/// How much room a worker gives the driver.
pub proof fn worker_sizes()
    ensures
        WORKER_READ_SIZE == 256 * 1024,
{
}

} // verus!
