//! Commands from a process to the driver, and their bytes.
use crate::sys::{BinderCommand, BinderHandleCookie, BinderPtrCookie, BinderTransactionData};
use crate::wire::{put_u32, put_u64};
use vstd::prelude::*;

verus! {

use crate::wire::{ne32, ne32_facts, ne64, ne64_facts, u32_at, u64_at};

/// A command to the driver, with what goes with it.
#[derive(Clone, Copy, Debug, PartialEq, Eq, Structural)]
pub enum DriverCommand {
    /// Send a transaction.
    Transaction(BinderTransactionData),
    /// Answer the transaction at hand.
    Reply(BinderTransactionData),
    /// Give a received buffer back.
    FreeBuffer(u64),
    /// Take a weak reference to a handle.
    IncRefs(u32),
    /// Take a strong reference to a handle.
    Acquire(u32),
    /// Drop a strong reference to a handle.
    Release(u32),
    /// Drop a weak reference to a handle.
    DecRefs(u32),
    /// Confirm a weak reference to a local object.
    IncRefsDone(BinderPtrCookie),
    /// Confirm a strong reference to a local object.
    AcquireDone(BinderPtrCookie),
    /// Enter the looper that the driver asked for.
    RegisterLooper,
    /// Enter a looper of one's own accord.
    EnterLooper,
    /// Leave the looper.
    ExitLooper,
    /// Ask to be told when the object behind a handle dies.
    RequestDeathNotification(BinderHandleCookie),
    /// Confirm a death.
    DeadBinderDone(u64),
}

impl DriverCommand {
    /// The code that the command starts with.
    pub open spec fn code(self) -> u32 {
        match self {
            DriverCommand::Transaction(_) => BinderCommand::TRANSACTION,
            DriverCommand::Reply(_) => BinderCommand::REPLY,
            DriverCommand::FreeBuffer(_) => BinderCommand::FREE_BUFFER,
            DriverCommand::IncRefs(_) => BinderCommand::INCREFS,
            DriverCommand::Acquire(_) => BinderCommand::ACQUIRE,
            DriverCommand::Release(_) => BinderCommand::RELEASE,
            DriverCommand::DecRefs(_) => BinderCommand::DECREFS,
            DriverCommand::IncRefsDone(_) => BinderCommand::INCREFS_DONE,
            DriverCommand::AcquireDone(_) => BinderCommand::ACQUIRE_DONE,
            DriverCommand::RegisterLooper => BinderCommand::REGISTER_LOOPER,
            DriverCommand::EnterLooper => BinderCommand::ENTER_LOOPER,
            DriverCommand::ExitLooper => BinderCommand::EXIT_LOOPER,
            DriverCommand::RequestDeathNotification(_) => BinderCommand::REQUEST_DEATH_NOTIFICATION,
            DriverCommand::DeadBinderDone(_) => BinderCommand::DEAD_BINDER_DONE,
        }
    }

    /// The bytes that follow the code.
    pub open spec fn argument(self) -> Seq<u8> {
        match self {
            DriverCommand::Transaction(t) => t.bytes(),
            DriverCommand::Reply(t) => t.bytes(),
            DriverCommand::FreeBuffer(address) => ne64(address),
            DriverCommand::IncRefs(handle) => ne32(handle),
            DriverCommand::Acquire(handle) => ne32(handle),
            DriverCommand::Release(handle) => ne32(handle),
            DriverCommand::DecRefs(handle) => ne32(handle),
            DriverCommand::IncRefsDone(p) => p.bytes(),
            DriverCommand::AcquireDone(p) => p.bytes(),
            DriverCommand::RegisterLooper => Seq::empty(),
            DriverCommand::EnterLooper => Seq::empty(),
            DriverCommand::ExitLooper => Seq::empty(),
            DriverCommand::RequestDeathNotification(h) => h.bytes(),
            DriverCommand::DeadBinderDone(cookie) => ne64(cookie),
        }
    }

    /// The whole command.
    pub open spec fn bytes(self) -> Seq<u8> {
        ne32(self.code()) + self.argument()
    }

    /// Puts the command at the end of `out`.
    pub fn put(&self, out: &mut Vec<u8>)
        ensures
            final(out)@ == old(out)@ + self.bytes(),
    {
        match self {
            DriverCommand::Transaction(t) => {
                put_u32(out, BinderCommand::TRANSACTION);
                t.put(out);
            },
            DriverCommand::Reply(t) => {
                put_u32(out, BinderCommand::REPLY);
                t.put(out);
            },
            DriverCommand::FreeBuffer(address) => {
                put_u32(out, BinderCommand::FREE_BUFFER);
                put_u64(out, *address);
            },
            DriverCommand::IncRefs(handle) => {
                put_u32(out, BinderCommand::INCREFS);
                put_u32(out, *handle);
            },
            DriverCommand::Acquire(handle) => {
                put_u32(out, BinderCommand::ACQUIRE);
                put_u32(out, *handle);
            },
            DriverCommand::Release(handle) => {
                put_u32(out, BinderCommand::RELEASE);
                put_u32(out, *handle);
            },
            DriverCommand::DecRefs(handle) => {
                put_u32(out, BinderCommand::DECREFS);
                put_u32(out, *handle);
            },
            DriverCommand::IncRefsDone(p) => {
                put_u32(out, BinderCommand::INCREFS_DONE);
                p.put(out);
            },
            DriverCommand::AcquireDone(p) => {
                put_u32(out, BinderCommand::ACQUIRE_DONE);
                p.put(out);
            },
            DriverCommand::RegisterLooper => {
                put_u32(out, BinderCommand::REGISTER_LOOPER);
            },
            DriverCommand::EnterLooper => {
                put_u32(out, BinderCommand::ENTER_LOOPER);
            },
            DriverCommand::ExitLooper => {
                put_u32(out, BinderCommand::EXIT_LOOPER);
            },
            DriverCommand::RequestDeathNotification(h) => {
                put_u32(out, BinderCommand::REQUEST_DEATH_NOTIFICATION);
                h.put(out);
            },
            DriverCommand::DeadBinderDone(cookie) => {
                put_u32(out, BinderCommand::DEAD_BINDER_DONE);
                put_u64(out, *cookie);
            },
        }
        assert(out@ =~= old(out)@ + self.bytes());
    }

    /// The command as a buffer of its own.
    pub fn encode(&self) -> (r: Vec<u8>)
        ensures
            r@ == self.bytes(),
    {
        let mut out: Vec<u8> = Vec::new();
        self.put(&mut out);
        assert(out@ =~= self.bytes());
        out
    }

    /// A command is followed by exactly as many bytes as the size in its code says.
    pub proof fn announced_size(self)
        ensures
            self.argument().len() == (self.code() / 0x1_0000) % 0x4000,
    {
        broadcast use ne32_facts, ne64_facts;

        match self {
            DriverCommand::Transaction(t) => t.decode_encoded(),
            DriverCommand::Reply(t) => t.decode_encoded(),
            DriverCommand::IncRefsDone(p) => p.decode_encoded(),
            DriverCommand::AcquireDone(p) => p.decode_encoded(),
            DriverCommand::RequestDeathNotification(h) => h.decode_encoded(),
            _ => {},
        }
    }
}

/// The bytes of a run of commands.
pub open spec fn stream(commands: Seq<DriverCommand>) -> Seq<u8>
    decreases commands.len(),
{
    if commands.len() == 0 {
        Seq::empty()
    } else {
        stream(commands.drop_last()) + commands.last().bytes()
    }
}

/// Encodes a run of commands one after the other.
pub fn encode_all(commands: &[DriverCommand]) -> (r: Vec<u8>)
    ensures
        r@ == stream(commands@),
{
    let mut out: Vec<u8> = Vec::new();
    let mut i: usize = 0;
    assert(commands@.take(0) =~= Seq::empty());
    while i < commands.len()
        invariant
            i <= commands@.len(),
            out@ == stream(commands@.take(i as int)),
        decreases commands@.len() - i,
    {
        commands[i].put(&mut out);
        assert(commands@.take(i + 1).drop_last() =~= commands@.take(i as int));
        i += 1;
    }
    assert(commands@.take(i as int) =~= commands@);
    out
}

/// The first word of a command is the number of its own name, and what follows are its fields:
/// so the bytes tell which command it is and what it is about.
pub proof fn commands_in_memory(c: DriverCommand)
    ensures
        u32_at(c.bytes(), 0) == c.code(),
        c matches DriverCommand::Transaction(t) ==> c.code() == 0x4040_6300 && c.bytes().len()
            == 68 && BinderTransactionData::decoded(c.bytes().subrange(4, 68)) == t,
        c matches DriverCommand::Reply(t) ==> c.code() == 0x4040_6301 && c.bytes().len() == 68
            && BinderTransactionData::decoded(c.bytes().subrange(4, 68)) == t,
        c matches DriverCommand::FreeBuffer(address) ==> c.code() == 0x4008_6303
            && c.bytes().len() == 12 && u64_at(c.bytes(), 4) == address,
        c matches DriverCommand::IncRefs(handle) ==> c.code() == 0x4004_6304 && c.bytes().len()
            == 8 && u32_at(c.bytes(), 4) == handle,
        c matches DriverCommand::Acquire(handle) ==> c.code() == 0x4004_6305 && c.bytes().len()
            == 8 && u32_at(c.bytes(), 4) == handle,
        c matches DriverCommand::Release(handle) ==> c.code() == 0x4004_6306 && c.bytes().len()
            == 8 && u32_at(c.bytes(), 4) == handle,
        c matches DriverCommand::DecRefs(handle) ==> c.code() == 0x4004_6307 && c.bytes().len()
            == 8 && u32_at(c.bytes(), 4) == handle,
        c matches DriverCommand::IncRefsDone(p) ==> c.code() == 0x4010_6308 && c.bytes().len()
            == 20 && u64_at(c.bytes(), 4) == p.ptr && u64_at(c.bytes(), 12) == p.cookie,
        c matches DriverCommand::AcquireDone(p) ==> c.code() == 0x4010_6309 && c.bytes().len()
            == 20 && u64_at(c.bytes(), 4) == p.ptr && u64_at(c.bytes(), 12) == p.cookie,
        c is RegisterLooper ==> c.code() == 0x630b && c.bytes().len() == 4,
        c is EnterLooper ==> c.code() == 0x630c && c.bytes().len() == 4,
        c is ExitLooper ==> c.code() == 0x630d && c.bytes().len() == 4,
        c matches DriverCommand::RequestDeathNotification(h) ==> c.code() == 0x4010_630e
            && c.bytes().len() == 20 && u32_at(c.bytes(), 4) == h.handle && u64_at(c.bytes(), 12)
            == h.cookie,
        c matches DriverCommand::DeadBinderDone(cookie) ==> c.code() == 0x4008_6310
            && c.bytes().len() == 12 && u64_at(c.bytes(), 4) == cookie,
{
    broadcast use ne32_facts, ne64_facts;

    let b = c.bytes();
    assert(b.subrange(0, 4) =~= ne32(c.code()));
    assert(b.subrange(4, b.len() as int) =~= c.argument());
    match c {
        DriverCommand::Transaction(t) => t.decode_encoded(),
        DriverCommand::Reply(t) => t.decode_encoded(),
        DriverCommand::IncRefsDone(p) => {
            p.words_in_memory();
            assert(b.subrange(4, 12) =~= p.bytes().subrange(0, 8));
            assert(b.subrange(12, 20) =~= p.bytes().subrange(8, 16));
        },
        DriverCommand::AcquireDone(p) => {
            p.words_in_memory();
            assert(b.subrange(4, 12) =~= p.bytes().subrange(0, 8));
            assert(b.subrange(12, 20) =~= p.bytes().subrange(8, 16));
        },
        DriverCommand::RequestDeathNotification(h) => {
            h.words_in_memory();
            assert(b.subrange(4, 8) =~= h.bytes().subrange(0, 4));
            assert(b.subrange(12, 20) =~= h.bytes().subrange(8, 16));
        },
        _ => {},
    }
}

/// Two commands with the same bytes are the same command.
pub proof fn commands_are_told_apart(a: DriverCommand, b: DriverCommand)
    requires
        a.bytes() == b.bytes(),
    ensures
        a == b,
{
    commands_in_memory(a);
    commands_in_memory(b);
}

/// A run of commands is its commands one after the other: nothing comes of no commands, one
/// command is itself, and two runs in a row are one run.
pub proof fn streams_join(a: Seq<DriverCommand>, b: Seq<DriverCommand>, c: DriverCommand)
    ensures
        stream(Seq::empty()) == Seq::<u8>::empty(),
        stream(seq![c]) == c.bytes(),
        stream(a + b) == stream(a) + stream(b),
    decreases b.len(),
{
    reveal_with_fuel(stream, 2);
    assert(seq![c].drop_last() =~= Seq::empty());
    assert(stream(seq![c]) =~= c.bytes());
    if b.len() == 0 {
        assert(a + b =~= a);
        assert(stream(a) + stream(b) =~= stream(a));
    } else {
        streams_join(a, b.drop_last(), c);
        assert((a + b).drop_last() =~= a + b.drop_last());
        assert(stream(a + b) =~= stream(a) + stream(b));
    }
}

} // verus!
