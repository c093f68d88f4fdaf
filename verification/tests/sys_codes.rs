use binderbinder::sys::{
    b_pack_chars, BinderCommand, BinderExtendedError, BinderReturn, BinderType,
    BinderVersion, BinderWriteRead, BinderfsDevice, Direction, FlatBinderData, FlatBinderObject,
    FlatBinderObjectData, BinderFdObjectData, SetContextMGR, SetMaxThreads, TransactionFlags,
    BINDER_CURRENT_PROTOCOL_VERSION, BinderObjectHeader, FlatBinderFlags,
};
use rustix::ioctl::opcode;

#[test]
fn binder_type_niche() {
    let a = std::mem::size_of::<BinderType>();
    let b = std::mem::size_of::<Option<BinderType>>();
    assert_ne!(a, b);
}

#[test]
fn types_are_packed_characters() {
    assert_eq!(BinderType::BINDER, b_pack_chars(b's', b'b', b'*', 0x85));
    assert_eq!(BinderType::WEAK_BINDER, b_pack_chars(b'w', b'b', b'*', 0x85));
    assert_eq!(BinderType::HANDLE, b_pack_chars(b's', b'h', b'*', 0x85));
    assert_eq!(BinderType::WEAK_HANDLE, b_pack_chars(b'w', b'h', b'*', 0x85));
    assert_eq!(BinderType::FD, b_pack_chars(b'f', b'd', b'*', 0x85));
    assert_eq!(BinderType::FDA, b_pack_chars(b'f', b'd', b'a', 0x85));
    assert_eq!(BinderType::PTR, b_pack_chars(b'p', b't', b'*', 0x85));
    assert_eq!(b_pack_chars(1, 2, 3, 4), 0x0102_0304);
    assert!(BinderType(BinderType::WEAK_HANDLE).is_port());
    assert!(!BinderType(BinderType::FD).is_port());
}

#[test]
fn codes_are_those_of_the_system() {
    assert_eq!(binderbinder::sys::opcode(Direction::NoData, 0x12, 7, 0), opcode::none(0x12, 7) as u32);
    assert_eq!(binderbinder::sys::opcode(Direction::Read, 0x12, 7, 40), opcode::read::<[u8; 40]>(0x12, 7) as u32);
    assert_eq!(binderbinder::sys::opcode(Direction::Write, 0x12, 7, 40), opcode::write::<[u8; 40]>(0x12, 7) as u32);
    assert_eq!(binderbinder::sys::opcode(Direction::ReadWrite, 0x12, 7, 40), opcode::read_write::<[u8; 40]>(0x12, 7) as u32);
    assert_eq!(BinderCommand::TRANSACTION, opcode::write::<[u8; 64]>(b'c', 0) as u32);
    assert_eq!(BinderCommand::REPLY, opcode::write::<[u8; 64]>(b'c', 1) as u32);
    assert_eq!(BinderCommand::ACQUIRE_RESULT, opcode::write::<[u8; 4]>(b'c', 2) as u32);
    assert_eq!(BinderCommand::FREE_BUFFER, opcode::write::<[u8; 8]>(b'c', 3) as u32);
    assert_eq!(BinderCommand::INCREFS, opcode::write::<[u8; 4]>(b'c', 4) as u32);
    assert_eq!(BinderCommand::ACQUIRE, opcode::write::<[u8; 4]>(b'c', 5) as u32);
    assert_eq!(BinderCommand::RELEASE, opcode::write::<[u8; 4]>(b'c', 6) as u32);
    assert_eq!(BinderCommand::DECREFS, opcode::write::<[u8; 4]>(b'c', 7) as u32);
    assert_eq!(BinderCommand::INCREFS_DONE, opcode::write::<[u8; 16]>(b'c', 8) as u32);
    assert_eq!(BinderCommand::ACQUIRE_DONE, opcode::write::<[u8; 16]>(b'c', 9) as u32);
    assert_eq!(BinderCommand::ATTEMPT_ACQUIRE, opcode::write::<[u8; 8]>(b'c', 10) as u32);
    assert_eq!(BinderCommand::REGISTER_LOOPER, opcode::none(b'c', 11) as u32);
    assert_eq!(BinderCommand::ENTER_LOOPER, opcode::none(b'c', 12) as u32);
    assert_eq!(BinderCommand::EXIT_LOOPER, opcode::none(b'c', 13) as u32);
    assert_eq!(BinderCommand::REQUEST_DEATH_NOTIFICATION, opcode::write::<[u8; 16]>(b'c', 14) as u32);
    assert_eq!(BinderCommand::CLEAR_DEATH_NOTIFICATION, opcode::write::<[u8; 16]>(b'c', 15) as u32);
    assert_eq!(BinderCommand::DEAD_BINDER_DONE, opcode::write::<[u8; 8]>(b'c', 16) as u32);
    assert_eq!(BinderCommand::TRANSACTION_SG, opcode::write::<[u8; 72]>(b'c', 17) as u32);
    assert_eq!(BinderCommand::REPLY_SG, opcode::write::<[u8; 72]>(b'c', 18) as u32);
    assert_eq!(BinderCommand::REQUEST_FREEZE_NOTIFICATION, opcode::write::<[u8; 16]>(b'c', 19) as u32);
    assert_eq!(BinderCommand::CLEAR_FREEZE_NOTIFICATION, opcode::write::<[u8; 16]>(b'c', 20) as u32);
    assert_eq!(BinderCommand::FREEZE_NOTIFICATION_DONE, opcode::write::<[u8; 8]>(b'c', 21) as u32);
    assert_eq!(BinderReturn::ERROR, opcode::read::<[u8; 4]>(b'r', 0) as u32);
    assert_eq!(BinderReturn::OK, opcode::none(b'r', 1) as u32);
    assert_eq!(BinderReturn::TRANSACTION_SEC_CTX, opcode::read::<[u8; 72]>(b'r', 2) as u32);
    assert_eq!(BinderReturn::TRANSACTION, opcode::read::<[u8; 64]>(b'r', 2) as u32);
    assert_eq!(BinderReturn::REPLY, opcode::read::<[u8; 64]>(b'r', 3) as u32);
    assert_eq!(BinderReturn::ACQUIRE_RESULT, opcode::read::<[u8; 4]>(b'r', 4) as u32);
    assert_eq!(BinderReturn::DEAD_REPLY, opcode::none(b'r', 5) as u32);
    assert_eq!(BinderReturn::TRANSACTION_COMPLETE, opcode::none(b'r', 6) as u32);
    assert_eq!(BinderReturn::INCREFS, opcode::read::<[u8; 16]>(b'r', 7) as u32);
    assert_eq!(BinderReturn::ACQUIRE, opcode::read::<[u8; 16]>(b'r', 8) as u32);
    assert_eq!(BinderReturn::RELEASE, opcode::read::<[u8; 16]>(b'r', 9) as u32);
    assert_eq!(BinderReturn::DECREFS, opcode::read::<[u8; 16]>(b'r', 10) as u32);
    assert_eq!(BinderReturn::ATTEMPT_ACQUIRE, opcode::read::<[u8; 24]>(b'r', 11) as u32);
    assert_eq!(BinderReturn::NOOP, opcode::none(b'r', 12) as u32);
    assert_eq!(BinderReturn::SPAWN_LOOPER, opcode::none(b'r', 13) as u32);
    assert_eq!(BinderReturn::FINISHED, opcode::none(b'r', 14) as u32);
    assert_eq!(BinderReturn::DEAD_BINDER, opcode::read::<[u8; 8]>(b'r', 15) as u32);
    assert_eq!(BinderReturn::CLEAR_DEATH_NOTIFICATION_DONE, opcode::read::<[u8; 8]>(b'r', 16) as u32);
    assert_eq!(BinderReturn::FAILED_REPLY, opcode::none(b'r', 17) as u32);
    assert_eq!(BinderReturn::FROZEN_REPLY, opcode::none(b'r', 18) as u32);
    assert_eq!(BinderReturn::ONEWAY_SPAM_SUSPECT, opcode::none(b'r', 19) as u32);
    assert_eq!(BinderReturn::TRANSACTION_PENDING_FROZEN, opcode::none(b'r', 20) as u32);
    assert_eq!(BinderReturn::FROZEN_BINDER, opcode::read::<[u8; 16]>(b'r', 21) as u32);
    assert_eq!(BinderReturn::CLEAR_FREEZE_NOTIFICATION_DONE, opcode::read::<[u8; 8]>(b'r', 22) as u32);
}

#[test]
fn requests_have_the_codes_of_the_system() {
    assert_eq!(BinderWriteRead::default().opcode(), opcode::read_write::<[u64; 6]>(b'b', 1) as u32);
    let version = BinderVersion { protocol_version: 0 };
    assert_eq!(version.opcode(), opcode::read_write::<i32>(b'b', 9) as u32);
    assert_eq!(BinderfsDevice::default().opcode(), opcode::read_write::<[u32; 66]>(b'b', 1) as u32);
    assert_eq!(SetMaxThreads(5).opcode(), opcode::write::<u32>(b'b', 5) as u32);
    let flat = FlatBinderObject {
        hdr: BinderObjectHeader { type_: BinderType(BinderType::BINDER) },
        flags: FlatBinderFlags(FlatBinderFlags::ACCEPTS_FDS),
        data: FlatBinderObjectData { word: 1 },
        cookie: 0,
    };
    assert_eq!(SetContextMGR(flat).opcode(), opcode::write::<[u64; 3]>(b'b', 13) as u32);
    let error = BinderExtendedError { id: 0, command: 0, param: 0 };
    assert_eq!(error.opcode(), opcode::read_write::<[u32; 3]>(b'b', 17) as u32);
    assert_eq!(BINDER_CURRENT_PROTOCOL_VERSION, 8);
}

#[test]
fn words_in_place_of_unions() {
    assert_eq!(FlatBinderObjectData::from_handle(7).handle(), 7);
    assert_eq!(FlatBinderObjectData::from_binder(0x1_0000_0007).binder(), 0x1_0000_0007);
    assert_eq!(FlatBinderObjectData::from_binder(0x1_0000_0007).handle(), 7);
    assert_eq!(BinderFdObjectData::from_fd(-1).fd(), -1);
    assert_eq!(BinderFdObjectData::from_fd(-1).word.to_ne_bytes()[..4], [0xff; 4]);
    assert_eq!(BinderFdObjectData::from_fd(-1).word.to_ne_bytes()[4..], [0; 4]);
    assert_eq!(BinderFdObjectData::from_fd(42).fd(), 42);
    assert_eq!(BinderCommand(BinderCommand::REPLY).as_u32(), 0x4040_6301);
    assert_eq!(BinderReturn::from_u32(0x720c).0, BinderReturn::NOOP);
    let mut flat = FlatBinderObject {
        hdr: BinderObjectHeader { type_: BinderType(BinderType::HANDLE) },
        flags: FlatBinderFlags::empty(),
        data: FlatBinderObjectData { word: 9 },
        cookie: 0,
    };
    assert_eq!(flat.typed_data(), FlatBinderData::Handle(9));
    flat.hdr.type_ = BinderType(BinderType::WEAK_BINDER);
    assert_eq!(flat.typed_data(), FlatBinderData::Binder(9));
    flat.hdr.type_ = BinderType(BinderType::FD);
    assert_eq!(flat.typed_data(), FlatBinderData::Invalid);
}

#[test]
fn flags_are_contained() {
    let flags = TransactionFlags(0x11);
    assert!(flags.contains(TransactionFlags::ONE_WAY));
    assert!(flags.contains(TransactionFlags::ACCEPT_FDS));
    assert!(!flags.contains(TransactionFlags::STATUS_CODE));
    assert!(!flags.contains(TransactionFlags::ONE_WAY | TransactionFlags::STATUS_CODE));
    assert_eq!(flags.bits(), 0x11);
}
