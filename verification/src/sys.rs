//! The driver's vocabulary: the words, structures and codes of its interface.
use crate::wire::{get_first_word, to_signed, to_unsigned, widen};
use vstd::prelude::*;

verus! {

use crate::wire::{first_word, signed, twos_complement, unsigned, widened, widened_first};

/// A size. From version 8 of the driver's protocol on, it has 64 bits on every machine.
pub type BinderSizeT = u64;

/// An address or a cookie, with as many bits as a size.
pub type BinderUintptrT = u64;

/// A process identifier, as the driver reports it.
pub type RawPid = i32;

/// A user identifier, as the driver reports it.
pub type RawUid = u32;

/// The number of an open file.
pub type RawFd = i32;

pub const BINDER_CURRENT_PROTOCOL_VERSION: u32 = 8;

/// The last of the four characters of every object type.
pub const B_TYPE_LARGE: u8 = 0x85;

/// Four characters as one word, the first in the highest byte.
pub open spec fn packed(c1: u8, c2: u8, c3: u8, c4: u8) -> u32 {
    (c1 * 0x100_0000 + c2 * 0x1_0000 + c3 * 0x100 + c4) as u32
}

/// Packs four characters into one word, the first in the highest byte.
pub fn b_pack_chars(c1: u8, c2: u8, c3: u8, c4: u8) -> (r: u32)
    ensures
        r == packed(c1, c2, c3, c4),
{
    (c1 as u32) * 0x100_0000 + (c2 as u32) * 0x1_0000 + (c3 as u32) * 0x100 + (c4 as u32)
}

/// Which way the data of an ioctl goes, seen from the process.
#[derive(Clone, Copy, Debug, PartialEq, Eq, Structural)]
pub enum Direction {
    NoData,
    Write,
    Read,
    ReadWrite,
}

impl Direction {
    /// The two bits that say the direction.
    pub open spec fn bits(self) -> int {
        match self {
            Direction::NoData => 0,
            Direction::Write => 1,
            Direction::Read => 2,
            Direction::ReadWrite => 3,
        }
    }
}

/// The code of an ioctl in the generic encoding: from the high end the two bits of the
/// direction, fourteen of the size of its data, eight of its group and eight of its number.
pub open spec fn code_of(direction: Direction, group: u8, number: u8, size: u32) -> u32 {
    (direction.bits() * 0x4000_0000 + (size % 0x4000) * 0x1_0000 + group * 0x100 + number) as u32
}

/// Composes the code of an ioctl.
pub fn opcode(direction: Direction, group: u8, number: u8, size: u32) -> (r: u32)
    ensures
        r == code_of(direction, group, number, size),
{
    let bits: u32 = match direction {
        Direction::NoData => 0,
        Direction::Write => 1,
        Direction::Read => 2,
        Direction::ReadWrite => 3,
    };
    bits * 0x4000_0000 + (size % 0x4000) * 0x1_0000 + (group as u32) * 0x100 + (number as u32)
}

/// What kind of object lies at a place in a payload. Any word can stand here; the constants
/// are the ones that the driver knows.
#[derive(Clone, Copy, Debug, PartialEq, Eq, Structural)]
pub struct BinderType(pub u32);

impl BinderType {
    pub const BINDER: u32 = 0x7362_2a85;
    pub const WEAK_BINDER: u32 = 0x7762_2a85;
    pub const HANDLE: u32 = 0x7368_2a85;
    pub const WEAK_HANDLE: u32 = 0x7768_2a85;
    pub const FD: u32 = 0x6664_2a85;
    pub const FDA: u32 = 0x6664_6185;
    pub const PTR: u32 = 0x7074_2a85;

    /// Whether this is one of the four kinds of object that name a port.
    pub open spec fn names_port(self) -> bool {
        self.0 == Self::BINDER || self.0 == Self::HANDLE || self.0 == Self::WEAK_BINDER || self.0
            == Self::WEAK_HANDLE
    }

    /// Whether this is one of the four kinds of object that name a port.
    pub fn is_port(self) -> (r: bool)
        ensures
            r == self.names_port(),
    {
        self.0 == Self::BINDER || self.0 == Self::HANDLE || self.0 == Self::WEAK_BINDER || self.0
            == Self::WEAK_HANDLE
    }
}

/// The object types spell their names.
pub proof fn binder_type_codes()
    ensures
        BinderType::BINDER == packed(0x73, 0x62, 0x2a, B_TYPE_LARGE),
        BinderType::WEAK_BINDER == packed(0x77, 0x62, 0x2a, B_TYPE_LARGE),
        BinderType::HANDLE == packed(0x73, 0x68, 0x2a, B_TYPE_LARGE),
        BinderType::WEAK_HANDLE == packed(0x77, 0x68, 0x2a, B_TYPE_LARGE),
        BinderType::FD == packed(0x66, 0x64, 0x2a, B_TYPE_LARGE),
        BinderType::FDA == packed(0x66, 0x64, 0x61, B_TYPE_LARGE),
        BinderType::PTR == packed(0x70, 0x74, 0x2a, B_TYPE_LARGE),
{
}

/// Flags of an object in a payload.
#[derive(Clone, Copy, Debug, PartialEq, Eq, Structural)]
pub struct FlatBinderFlags(pub u32);

impl FlatBinderFlags {
    pub const PRIORITY_MASK: u32 = 0xff;
    pub const ACCEPTS_FDS: u32 = 0x100;
    pub const SECURITY_CTX: u32 = 0x1000;

    pub fn empty() -> (r: Self)
        ensures
            r == FlatBinderFlags(0),
    {
        FlatBinderFlags(0)
    }

    pub fn bits(&self) -> (r: u32)
        ensures
            r == self.0,
    {
        self.0
    }
}

/// Flags of a buffer object.
#[derive(Clone, Copy, Debug, PartialEq, Eq, Structural)]
pub struct BinderBufferFlags(pub u32);

impl BinderBufferFlags {
    pub const HAS_PARENT: u32 = 0x01;

    pub fn empty() -> (r: Self)
        ensures
            r == BinderBufferFlags(0),
    {
        BinderBufferFlags(0)
    }
}

/// Flags of a transaction.
#[derive(Clone, Copy, Debug, PartialEq, Eq, Structural)]
pub struct TransactionFlags(pub u32);

impl TransactionFlags {
    pub const ONE_WAY: u32 = 0x01;
    pub const ROOT_OBJECT: u32 = 0x04;
    pub const STATUS_CODE: u32 = 0x08;
    pub const ACCEPT_FDS: u32 = 0x10;
    pub const CLEAR_BUF: u32 = 0x20;
    pub const UPDATE_TXN: u32 = 0x40;

    pub fn bits(&self) -> (r: u32)
        ensures
            r == self.0,
    {
        self.0
    }

    /// Whether every flag of `flags` is set.
    pub fn contains(&self, flags: u32) -> (r: bool)
        ensures
            r == (self.0 & flags == flags),
    {
        self.0 & flags == flags
    }

    /// Whether nobody waits for a reply.
    pub open spec fn one_way(self) -> bool {
        self.0 & Self::ONE_WAY == Self::ONE_WAY
    }
}

/// A command from a process to the driver. Any word can stand here; the constants are the
/// ones that the driver knows.
#[derive(Clone, Copy, Debug, PartialEq, Eq, Structural)]
pub struct BinderCommand(pub u32);

impl BinderCommand {
    pub const TRANSACTION: u32 = 0x4040_6300;
    pub const REPLY: u32 = 0x4040_6301;
    pub const ACQUIRE_RESULT: u32 = 0x4004_6302;
    pub const FREE_BUFFER: u32 = 0x4008_6303;
    pub const INCREFS: u32 = 0x4004_6304;
    pub const ACQUIRE: u32 = 0x4004_6305;
    pub const RELEASE: u32 = 0x4004_6306;
    pub const DECREFS: u32 = 0x4004_6307;
    pub const INCREFS_DONE: u32 = 0x4010_6308;
    pub const ACQUIRE_DONE: u32 = 0x4010_6309;
    pub const ATTEMPT_ACQUIRE: u32 = 0x4008_630a;
    pub const REGISTER_LOOPER: u32 = 0x0000_630b;
    pub const ENTER_LOOPER: u32 = 0x0000_630c;
    pub const EXIT_LOOPER: u32 = 0x0000_630d;
    pub const REQUEST_DEATH_NOTIFICATION: u32 = 0x4010_630e;
    pub const CLEAR_DEATH_NOTIFICATION: u32 = 0x4010_630f;
    pub const DEAD_BINDER_DONE: u32 = 0x4008_6310;
    pub const TRANSACTION_SG: u32 = 0x4048_6311;
    pub const REPLY_SG: u32 = 0x4048_6312;
    pub const REQUEST_FREEZE_NOTIFICATION: u32 = 0x4010_6313;
    pub const CLEAR_FREEZE_NOTIFICATION: u32 = 0x4010_6314;
    pub const FREEZE_NOTIFICATION_DONE: u32 = 0x4008_6315;

    pub fn as_u32(&self) -> (r: u32)
        ensures
            r == self.0,
    {
        self.0
    }
}

/// Each command is an ioctl code of group `c`, with the size of what follows it.
pub proof fn command_codes()
    ensures
        BinderCommand::TRANSACTION == code_of(Direction::Write, 0x63, 0, 64),
        BinderCommand::REPLY == code_of(Direction::Write, 0x63, 1, 64),
        BinderCommand::ACQUIRE_RESULT == code_of(Direction::Write, 0x63, 2, 4),
        BinderCommand::FREE_BUFFER == code_of(Direction::Write, 0x63, 3, 8),
        BinderCommand::INCREFS == code_of(Direction::Write, 0x63, 4, 4),
        BinderCommand::ACQUIRE == code_of(Direction::Write, 0x63, 5, 4),
        BinderCommand::RELEASE == code_of(Direction::Write, 0x63, 6, 4),
        BinderCommand::DECREFS == code_of(Direction::Write, 0x63, 7, 4),
        BinderCommand::INCREFS_DONE == code_of(Direction::Write, 0x63, 8, 16),
        BinderCommand::ACQUIRE_DONE == code_of(Direction::Write, 0x63, 9, 16),
        BinderCommand::ATTEMPT_ACQUIRE == code_of(Direction::Write, 0x63, 10, 8),
        BinderCommand::REGISTER_LOOPER == code_of(Direction::NoData, 0x63, 11, 0),
        BinderCommand::ENTER_LOOPER == code_of(Direction::NoData, 0x63, 12, 0),
        BinderCommand::EXIT_LOOPER == code_of(Direction::NoData, 0x63, 13, 0),
        BinderCommand::REQUEST_DEATH_NOTIFICATION == code_of(Direction::Write, 0x63, 14, 16),
        BinderCommand::CLEAR_DEATH_NOTIFICATION == code_of(Direction::Write, 0x63, 15, 16),
        BinderCommand::DEAD_BINDER_DONE == code_of(Direction::Write, 0x63, 16, 8),
        BinderCommand::TRANSACTION_SG == code_of(Direction::Write, 0x63, 17, 72),
        BinderCommand::REPLY_SG == code_of(Direction::Write, 0x63, 18, 72),
        BinderCommand::REQUEST_FREEZE_NOTIFICATION == code_of(Direction::Write, 0x63, 19, 16),
        BinderCommand::CLEAR_FREEZE_NOTIFICATION == code_of(Direction::Write, 0x63, 20, 16),
        BinderCommand::FREEZE_NOTIFICATION_DONE == code_of(Direction::Write, 0x63, 21, 8),
{
}

/// A message from the driver to a process. Any word can stand here; the constants are the
/// ones that the driver sends.
#[derive(Clone, Copy, Debug, PartialEq, Eq, Structural)]
pub struct BinderReturn(pub u32);

impl BinderReturn {
    pub const ERROR: u32 = 0x8004_7200;
    pub const OK: u32 = 0x0000_7201;
    pub const TRANSACTION_SEC_CTX: u32 = 0x8048_7202;
    pub const TRANSACTION: u32 = 0x8040_7202;
    pub const REPLY: u32 = 0x8040_7203;
    pub const ACQUIRE_RESULT: u32 = 0x8004_7204;
    pub const DEAD_REPLY: u32 = 0x0000_7205;
    pub const TRANSACTION_COMPLETE: u32 = 0x0000_7206;
    pub const INCREFS: u32 = 0x8010_7207;
    pub const ACQUIRE: u32 = 0x8010_7208;
    pub const RELEASE: u32 = 0x8010_7209;
    pub const DECREFS: u32 = 0x8010_720a;
    pub const ATTEMPT_ACQUIRE: u32 = 0x8018_720b;
    pub const NOOP: u32 = 0x0000_720c;
    pub const SPAWN_LOOPER: u32 = 0x0000_720d;
    pub const FINISHED: u32 = 0x0000_720e;
    pub const DEAD_BINDER: u32 = 0x8008_720f;
    pub const CLEAR_DEATH_NOTIFICATION_DONE: u32 = 0x8008_7210;
    pub const FAILED_REPLY: u32 = 0x0000_7211;
    pub const FROZEN_REPLY: u32 = 0x0000_7212;
    pub const ONEWAY_SPAM_SUSPECT: u32 = 0x0000_7213;
    pub const TRANSACTION_PENDING_FROZEN: u32 = 0x0000_7214;
    pub const FROZEN_BINDER: u32 = 0x8010_7215;
    pub const CLEAR_FREEZE_NOTIFICATION_DONE: u32 = 0x8008_7216;

    pub fn from_u32(v: u32) -> (r: Self)
        ensures
            r == BinderReturn(v),
    {
        BinderReturn(v)
    }
}

/// Each message is an ioctl code of group `r`, with the size that it announces. But for
/// `ATTEMPT_ACQUIRE`, of which only sixteen bytes are read, this is the size of what follows.
pub proof fn return_codes()
    ensures
        BinderReturn::ERROR == code_of(Direction::Read, 0x72, 0, 4),
        BinderReturn::OK == code_of(Direction::NoData, 0x72, 1, 0),
        BinderReturn::TRANSACTION_SEC_CTX == code_of(Direction::Read, 0x72, 2, 72),
        BinderReturn::TRANSACTION == code_of(Direction::Read, 0x72, 2, 64),
        BinderReturn::REPLY == code_of(Direction::Read, 0x72, 3, 64),
        BinderReturn::ACQUIRE_RESULT == code_of(Direction::Read, 0x72, 4, 4),
        BinderReturn::DEAD_REPLY == code_of(Direction::NoData, 0x72, 5, 0),
        BinderReturn::TRANSACTION_COMPLETE == code_of(Direction::NoData, 0x72, 6, 0),
        BinderReturn::INCREFS == code_of(Direction::Read, 0x72, 7, 16),
        BinderReturn::ACQUIRE == code_of(Direction::Read, 0x72, 8, 16),
        BinderReturn::RELEASE == code_of(Direction::Read, 0x72, 9, 16),
        BinderReturn::DECREFS == code_of(Direction::Read, 0x72, 10, 16),
        BinderReturn::ATTEMPT_ACQUIRE == code_of(Direction::Read, 0x72, 11, 24),
        BinderReturn::NOOP == code_of(Direction::NoData, 0x72, 12, 0),
        BinderReturn::SPAWN_LOOPER == code_of(Direction::NoData, 0x72, 13, 0),
        BinderReturn::FINISHED == code_of(Direction::NoData, 0x72, 14, 0),
        BinderReturn::DEAD_BINDER == code_of(Direction::Read, 0x72, 15, 8),
        BinderReturn::CLEAR_DEATH_NOTIFICATION_DONE == code_of(Direction::Read, 0x72, 16, 8),
        BinderReturn::FAILED_REPLY == code_of(Direction::NoData, 0x72, 17, 0),
        BinderReturn::FROZEN_REPLY == code_of(Direction::NoData, 0x72, 18, 0),
        BinderReturn::ONEWAY_SPAM_SUSPECT == code_of(Direction::NoData, 0x72, 19, 0),
        BinderReturn::TRANSACTION_PENDING_FROZEN == code_of(Direction::NoData, 0x72, 20, 0),
        BinderReturn::FROZEN_BINDER == code_of(Direction::Read, 0x72, 21, 16),
        BinderReturn::CLEAR_FREEZE_NOTIFICATION_DONE == code_of(Direction::Read, 0x72, 22, 8),
{
}

/// What went wrong with the last command of a thread.
#[derive(Clone, Copy, Debug, PartialEq, Eq, Structural)]
pub struct BinderExtendedError {
    pub id: u32,
    pub command: u32,
    pub param: i32,
}

/// How every object in a payload starts.
#[derive(Clone, Copy, Debug, PartialEq, Eq, Structural)]
pub struct BinderObjectHeader {
    pub type_: BinderType,
}

impl BinderObjectHeader {
    /// How many bytes the structure takes.
    pub const SIZE: usize = 4;
}

/// One word that holds either the identity of a local object or, in its first half, the
/// number of a handle. Which of the two is meant, the type of the object says.
#[derive(Clone, Copy, Debug, PartialEq, Eq, Structural)]
pub struct FlatBinderObjectData {
    pub word: u64,
}

impl FlatBinderObjectData {
    pub open spec fn of_handle(handle: u32) -> Self {
        FlatBinderObjectData { word: widened(handle) }
    }

    pub fn from_binder(binder: BinderUintptrT) -> (r: Self)
        ensures
            r.word == binder,
    {
        FlatBinderObjectData { word: binder }
    }

    pub fn from_handle(handle: u32) -> (r: Self)
        ensures
            r == Self::of_handle(handle),
    {
        FlatBinderObjectData { word: widen(handle) }
    }

    pub fn binder(&self) -> (r: BinderUintptrT)
        ensures
            r == self.word,
    {
        self.word
    }

    pub fn handle(&self) -> (r: u32)
        ensures
            r == first_word(self.word),
    {
        get_first_word(self.word)
    }
}

/// An object or a reference in a payload.
#[derive(Clone, Copy, Debug, PartialEq, Eq, Structural)]
pub struct FlatBinderObject {
    pub hdr: BinderObjectHeader,
    pub flags: FlatBinderFlags,
    pub data: FlatBinderObjectData,
    pub cookie: BinderUintptrT,
}

/// What the data of an object is, to a reader.
#[derive(Clone, Copy, Debug, PartialEq, Eq, Structural)]
pub enum FlatBinderData {
    Binder(BinderUintptrT),
    Handle(u32),
    Invalid,
}

impl FlatBinderObject {
    /// What the data is: the identity of a local object, a handle, or neither.
    pub open spec fn meaning(self) -> FlatBinderData {
        if self.hdr.type_.0 == BinderType::BINDER || self.hdr.type_.0 == BinderType::WEAK_BINDER {
            FlatBinderData::Binder(self.data.word)
        } else if self.hdr.type_.0 == BinderType::HANDLE || self.hdr.type_.0
            == BinderType::WEAK_HANDLE {
            FlatBinderData::Handle(first_word(self.data.word))
        } else {
            FlatBinderData::Invalid
        }
    }

    /// What the data is: the identity of a local object, a handle, or neither.
    pub fn typed_data(&self) -> (r: FlatBinderData)
        ensures
            r == self.meaning(),
    {
        let t: u32 = self.hdr.type_.0;
        if t == BinderType::BINDER || t == BinderType::WEAK_BINDER {
            FlatBinderData::Binder(self.data.binder())
        } else if t == BinderType::HANDLE || t == BinderType::WEAK_HANDLE {
            FlatBinderData::Handle(self.data.handle())
        } else {
            FlatBinderData::Invalid
        }
    }
}

/// One word whose first half holds the number of an open file.
#[derive(Clone, Copy, Debug, PartialEq, Eq, Structural)]
pub struct BinderFdObjectData {
    pub word: u64,
}

impl BinderFdObjectData {
    pub open spec fn of_fd(fd: RawFd) -> Self {
        BinderFdObjectData { word: widened(unsigned(fd)) }
    }

    pub fn from_fd(fd: RawFd) -> (r: Self)
        ensures
            r == Self::of_fd(fd),
    {
        BinderFdObjectData { word: widen(to_unsigned(fd)) }
    }

    pub fn fd(&self) -> (r: RawFd)
        ensures
            r == signed(first_word(self.word)),
    {
        to_signed(get_first_word(self.word))
    }
}

/// An open file in a payload.
#[derive(Clone, Copy, Debug, PartialEq, Eq, Structural)]
pub struct BinderFdObject {
    pub hdr: BinderObjectHeader,
    pub pad_flags: u32,
    pub data: BinderFdObjectData,
    pub cookie: BinderUintptrT,
}

/// A buffer of the sender that the driver copies along with the payload.
#[derive(Clone, Copy, Debug, PartialEq, Eq, Structural)]
pub struct BinderBufferObject {
    pub hdr: BinderObjectHeader,
    pub flags: BinderBufferFlags,
    pub buffer: BinderUintptrT,
    pub length: BinderSizeT,
    pub parent: BinderSizeT,
    pub parent_offset: BinderSizeT,
}

/// An array of open files in a buffer of the sender.
#[derive(Clone, Copy, Debug, PartialEq, Eq, Structural)]
pub struct BinderFdArrayObject {
    pub hdr: BinderObjectHeader,
    pub _pad: u32,
    pub num_fds: BinderSizeT,
    pub parent: BinderSizeT,
    pub parent_offset: BinderSizeT,
}

/// One exchange with the driver: what to write and where to read to.
#[derive(Clone, Copy, Debug, PartialEq, Eq, Structural)]
pub struct BinderWriteRead {
    pub write_size: BinderSizeT,
    pub write_consumed: BinderSizeT,
    pub write_buffer: BinderUintptrT,
    pub read_size: BinderSizeT,
    pub read_consumed: BinderSizeT,
    pub read_buffer: BinderUintptrT,
}

impl BinderWriteRead {
    /// An exchange that hands over `write_size` bytes at `write_buffer` and takes up to
    /// `read_size` bytes at `read_buffer`.
    pub fn exchange(write_buffer: u64, write_size: u64, read_buffer: u64, read_size: u64) -> (r:
        Self)
        ensures
            r == (BinderWriteRead {
                write_size,
                write_consumed: 0,
                write_buffer,
                read_size,
                read_consumed: 0,
                read_buffer,
            }),
    {
        BinderWriteRead {
            write_size,
            write_consumed: 0,
            write_buffer,
            read_size,
            read_consumed: 0,
            read_buffer,
        }
    }

    pub fn opcode(&self) -> (r: u32)
        ensures
            r == code_of(Direction::ReadWrite, 0x62, 1, 48),
    {
        opcode(Direction::ReadWrite, 0x62, 1, 48)
    }
}

impl Default for BinderWriteRead {
    fn default() -> (r: Self)
        ensures
            r == (BinderWriteRead {
                write_size: 0,
                write_consumed: 0,
                write_buffer: 0,
                read_size: 0,
                read_consumed: 0,
                read_buffer: 0,
            }),
    {
        BinderWriteRead {
            write_size: 0,
            write_consumed: 0,
            write_buffer: 0,
            read_size: 0,
            read_consumed: 0,
            read_buffer: 0,
        }
    }
}

/// The version of the protocol that the driver speaks.
#[derive(Clone, Copy, Debug, PartialEq, Eq, Structural)]
pub struct BinderVersion {
    pub protocol_version: i32,
}

impl BinderVersion {
    pub fn opcode(&self) -> (r: u32)
        ensures
            r == code_of(Direction::ReadWrite, 0x62, 9, 4),
    {
        opcode(Direction::ReadWrite, 0x62, 9, 4)
    }
}

/// Where the payload of a transaction lies.
#[derive(Clone, Copy, Debug, PartialEq, Eq, Structural)]
pub struct BinderTransactionDataPtrs {
    pub buffer: BinderUintptrT,
    pub offsets: BinderUintptrT,
}

/// One word that holds either the identity of a local object or, in its first half, the
/// number of a handle.
#[derive(Clone, Copy, Debug, PartialEq, Eq, Structural)]
pub struct TransactionTarget {
    pub word: u64,
}

impl TransactionTarget {
    pub open spec fn of_handle(handle: u32) -> Self {
        TransactionTarget { word: widened(handle) }
    }

    pub fn from_handle(handle: u32) -> (r: Self)
        ensures
            r == Self::of_handle(handle),
    {
        TransactionTarget { word: widen(handle) }
    }

    pub fn from_binder(binder: BinderUintptrT) -> (r: Self)
        ensures
            r.word == binder,
    {
        TransactionTarget { word: binder }
    }

    pub fn binder(&self) -> (r: BinderUintptrT)
        ensures
            r == self.word,
    {
        self.word
    }

    pub fn handle(&self) -> (r: u32)
        ensures
            r == first_word(self.word),
    {
        get_first_word(self.word)
    }
}

/// A transaction or a reply.
#[derive(Clone, Copy, Debug, PartialEq, Eq, Structural)]
pub struct BinderTransactionData {
    pub target: TransactionTarget,
    pub cookie: BinderUintptrT,
    pub code: u32,
    pub flags: TransactionFlags,
    pub sender_pid: RawPid,
    pub sender_euid: RawUid,
    pub data_size: BinderSizeT,
    pub offsets_size: BinderSizeT,
    pub data: BinderTransactionDataPtrs,
}

/// A transaction together with the security context of its sender.
#[derive(Clone, Copy, Debug, PartialEq, Eq, Structural)]
pub struct BinderTransactionDataSecCtx {
    pub transaction_data: BinderTransactionData,
    pub sec_ctx: BinderUintptrT,
}

/// A transaction together with the size of the buffers that go with it.
#[derive(Clone, Copy, Debug, PartialEq, Eq, Structural)]
pub struct BinderTransactionDataSg {
    pub transaction_data: BinderTransactionData,
    pub buffer_size: BinderSizeT,
}

/// The identity of a local object.
#[derive(Clone, Copy, Debug, PartialEq, Eq, Structural)]
pub struct BinderPtrCookie {
    pub ptr: BinderUintptrT,
    pub cookie: BinderUintptrT,
}

/// The identity of a local object, with a priority.
#[derive(Clone, Copy, Debug, PartialEq, Eq, Structural)]
pub struct BinderPriorityPtrCookie {
    pub priority: i32,
    pub ptr: BinderUintptrT,
    pub cookie: BinderUintptrT,
}

/// A handle, and the word by which the driver will speak of it.
#[derive(Clone, Copy, Debug, PartialEq, Eq, Structural)]
pub struct BinderHandleCookie {
    pub handle: u32,
    pub cookie: BinderUintptrT,
}

/// A request for a new device node.
#[derive(Clone, Copy, Debug)]
pub struct BinderfsDevice {
    pub name: [u8; 256],
    pub major: u32,
    pub minor: u32,
}

impl BinderfsDevice {
    pub fn opcode(&self) -> (r: u32)
        ensures
            r == code_of(Direction::ReadWrite, 0x62, 1, 264),
    {
        opcode(Direction::ReadWrite, 0x62, 1, 264)
    }
}

impl Default for BinderfsDevice {
    fn default() -> (r: Self)
        ensures
            r.name@ == Seq::new(256, |i: int| 0u8),
            r.major == 0,
            r.minor == 0,
    {
        BinderfsDevice { name: [0u8;256], major: 0, minor: 0 }
    }
}

/// Whether the process behind an object is frozen.
#[derive(Clone, Copy, Debug, PartialEq, Eq, Structural)]
pub struct BinderFrozenStateInfo {
    pub cookie: BinderUintptrT,
    pub is_frozen: u32,
    pub reserved: u32,
}

/// A handle, with a priority.
#[derive(Clone, Copy, Debug, PartialEq, Eq, Structural)]
pub struct BinderPriorityDesc {
    pub priority: i32,
    pub desc: u32,
}

/// The request to become the context manager.
#[derive(Clone, Copy, Debug, PartialEq, Eq, Structural)]
pub struct SetContextMGR(pub FlatBinderObject);

impl SetContextMGR {
    pub fn opcode(&self) -> (r: u32)
        ensures
            r == code_of(Direction::Write, 0x62, 13, 24),
    {
        opcode(Direction::Write, 0x62, 13, 24)
    }
}

/// The request to let the driver ask for up to this many threads.
#[derive(Clone, Copy, Debug, PartialEq, Eq, Structural)]
pub struct SetMaxThreads(pub u32);

impl SetMaxThreads {
    pub fn opcode(&self) -> (r: u32)
        ensures
            r == code_of(Direction::Write, 0x62, 5, 4),
    {
        opcode(Direction::Write, 0x62, 5, 4)
    }
}

impl BinderExtendedError {
    pub fn opcode(&self) -> (r: u32)
        ensures
            r == code_of(Direction::ReadWrite, 0x62, 17, 12),
    {
        opcode(Direction::ReadWrite, 0x62, 17, 12)
    }
}

/// A code tells its parts: which way data goes, how much, the group and the number.
pub proof fn code_tells_its_parts(direction: Direction, group: u8, number: u8, size: u32)
    requires
        size < 0x4000,
    ensures
        ({
            let code = code_of(direction, group, number, size);
            &&& code % 0x100 == number
            &&& code / 0x100 % 0x100 == group
            &&& code / 0x1_0000 % 0x4000 == size
            &&& code / 0x4000_0000 == 0 <==> direction is NoData
            &&& code / 0x4000_0000 == 1 <==> direction is Write
            &&& code / 0x4000_0000 == 2 <==> direction is Read
            &&& code / 0x4000_0000 == 3 <==> direction is ReadWrite
        }),
{
}

/// The codes of the requests to the driver, as numbers.
pub proof fn request_codes()
    ensures
        code_of(Direction::ReadWrite, 0x62, 1, 48) == 0xc030_6201,
        code_of(Direction::ReadWrite, 0x62, 9, 4) == 0xc004_6209,
        code_of(Direction::ReadWrite, 0x62, 1, 264) == 0xc108_6201,
        code_of(Direction::Write, 0x62, 13, 24) == 0x4018_620d,
        code_of(Direction::Write, 0x62, 5, 4) == 0x4004_6205,
        code_of(Direction::ReadWrite, 0x62, 17, 12) == 0xc00c_6211,
{
}

/// The kinds of object are told apart, and four of them name ports: those of local objects and
/// of handles, strong and weak.
pub proof fn kinds_are_told_apart(type_: u32)
    ensures
        BinderType::BINDER == 0x7362_2a85,
        BinderType::WEAK_BINDER == 0x7762_2a85,
        BinderType::HANDLE == 0x7368_2a85,
        BinderType::WEAK_HANDLE == 0x7768_2a85,
        BinderType::FD == 0x6664_2a85,
        BinderType::FDA == 0x6664_6185,
        BinderType::PTR == 0x7074_2a85,
        BinderType(type_).names_port() <==> type_ == 0x7362_2a85 || type_ == 0x7762_2a85 || type_
            == 0x7368_2a85 || type_ == 0x7768_2a85,
{
}

/// The flags, as numbers.
pub proof fn flag_values()
    ensures
        FlatBinderFlags::PRIORITY_MASK == 0xff,
        FlatBinderFlags::ACCEPTS_FDS == 0x100,
        FlatBinderFlags::SECURITY_CTX == 0x1000,
        BinderBufferFlags::HAS_PARENT == 1,
        TransactionFlags::ONE_WAY == 1,
        TransactionFlags::ROOT_OBJECT == 4,
        TransactionFlags::STATUS_CODE == 8,
        TransactionFlags::ACCEPT_FDS == 0x10,
        TransactionFlags::CLEAR_BUF == 0x20,
        TransactionFlags::UPDATE_TXN == 0x40,
{
}

/// Nobody waits for a transaction exactly if the lowest of its flags is set.
pub proof fn lowest_flag_means_one_way(flags: u32)
    ensures
        TransactionFlags(flags).one_way() <==> flags % 2 == 1,
{
    assert(flags & 1 == flags % 2) by (bit_vector);
}

/// A handle that is written into an object or a target is read back from it, and so is an open
/// file: they stand in the first half of the word, and the other half is empty.
pub proof fn halves_are_read_back(handle: u32, fd: RawFd)
    ensures
        first_word(FlatBinderObjectData::of_handle(handle).word) == handle,
        first_word(TransactionTarget::of_handle(handle).word) == handle,
        signed(first_word(BinderFdObjectData::of_fd(fd).word)) == fd,
        FlatBinderObjectData::of_handle(handle).word == widened(handle),
        TransactionTarget::of_handle(handle).word == widened(handle),
        BinderFdObjectData::of_fd(fd).word == widened(unsigned(fd)),
{
    widened_first(handle);
    widened_first(unsigned(fd));
    twos_complement(fd, 0);
}

/// What the data of an object is goes by its type: a local object's identity is the whole word,
/// a handle stands in its first half, and other types have neither.
pub proof fn meaning_goes_by_type(flat: FlatBinderObject)
    ensures
        flat.hdr.type_.0 == 0x7362_2a85 || flat.hdr.type_.0 == 0x7762_2a85 ==> flat.meaning()
            == FlatBinderData::Binder(flat.data.word),
        flat.hdr.type_.0 == 0x7368_2a85 || flat.hdr.type_.0 == 0x7768_2a85 ==> flat.meaning()
            == FlatBinderData::Handle(first_word(flat.data.word)),
        !flat.hdr.type_.names_port() ==> flat.meaning() is Invalid,
{
}

/// Four characters in a word stand in it from the highest byte on, each with its byte to itself.
pub proof fn characters_are_packed(c1: u8, c2: u8, c3: u8, c4: u8)
    ensures
        0 <= packed(c1, c2, c3, c4) - 0x100_0000 * c1 < 0x100_0000,
        packed(c1, 0, 0, 0) == 0x100_0000 * c1,
        packed(0, c2, 0, 0) == 0x1_0000 * c2,
        packed(0, 0, c3, 0) == 0x100 * c3,
        packed(0, 0, 0, c4) == c4,
        packed(c1, c2, c3, c4) == packed(c1, 0, 0, 0) + packed(0, c2, 0, 0) + packed(0, 0, c3, 0)
            + packed(0, 0, 0, c4),
{
}

/// The version of the protocol, and the mark of a large type.
pub proof fn protocol_marks()
    ensures
        BINDER_CURRENT_PROTOCOL_VERSION == 8,
        B_TYPE_LARGE == 0x85,
{
}

} // verus!
