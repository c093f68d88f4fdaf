use binderbinder::binder_ports::{
    BinderPort, BinderPortHandle, OwnedBinderPort, OwnedBinderPortId, PortTable,
    WeakBinderPortHandle, WeakOwnedBinderPort,
};
use binderbinder::binder_thread::{
    command_request, handle_command, parse_br_transaction, read_words, transaction_write,
    worker_count, DeviceKey, Ensured, ThreadBinderState, WorkerAction,
};
use binderbinder::command::DriverCommand;
use binderbinder::error::{Error, WriteReadError};
use binderbinder::fs::{
    create_device, is_mounted, mount_step, FsError, MountStep, DEFAULT_BINDERFS_PATH,
};
use binderbinder::object::{BinderObject, ServiceHandlers};
use binderbinder::sys::{BinderReturn, BinderType};
use binderbinder::test_pool::{
    acquire_step, lock_dir, lock_path, mount_path, node_path, pool_size, PoolStep,
    DEFAULT_POOL_SIZE,
};
use binderbinder::text::{find_bytes, join_path, parse_number};
use rustix::io::Errno;
use std::collections::HashMap;

#[test]
fn test_device_key() {
    let key1 = DeviceKey(5);
    let key2 = DeviceKey(5);
    let key3 = DeviceKey(10);

    assert_eq!(key1, key2);
    assert_ne!(key1, key3);

    assert_eq!(key1.0, 5);
}

#[test]
fn test_device_key_hash() {
    let mut map: HashMap<DeviceKey, i32> = HashMap::new();
    map.insert(DeviceKey(5), 42);

    assert_eq!(map.get(&DeviceKey(5)), Some(&42));
    assert_eq!(map.get(&DeviceKey(10)), None);
}

#[test]
fn threads_register_once_per_device() {
    let mut state = ThreadBinderState::new();
    assert_eq!(
        state.ensure_device(DeviceKey(5)),
        Ensured::Register(DriverCommand::RegisterLooper)
    );
    state.add(DeviceKey(5), 100);
    state.add(DeviceKey(6), 101);
    assert_eq!(state.ensure_device(DeviceKey(5)), Ensured::Ready(100));
    assert_eq!(state.get(DeviceKey(7)), None);
    let (mut keys, command) = state.drain();
    keys.sort();
    assert_eq!(keys, vec![5, 6]);
    assert_eq!(command, DriverCommand::ExitLooper);
    assert_eq!(state.get(DeviceKey(5)), None);
}

#[test]
fn workers_read_words() {
    let mut buffer = Vec::new();
    buffer.extend_from_slice(&BinderReturn::NOOP.to_ne_bytes());
    buffer.extend_from_slice(&BinderReturn::TRANSACTION.to_ne_bytes());
    buffer.extend_from_slice(&[1, 2, 3]);
    assert_eq!(read_words(&buffer, 11), vec![BinderReturn::NOOP, BinderReturn::TRANSACTION]);
    assert!(read_words(&buffer, 3).is_empty());
    assert_eq!(handle_command(BinderReturn::TRANSACTION), WorkerAction::ReadTransaction);
    assert_eq!(handle_command(BinderReturn::NOOP), WorkerAction::Ignore);
    assert_eq!(handle_command(BinderReturn::DEAD_REPLY), WorkerAction::ReportDeadReply);
    assert_eq!(handle_command(BinderReturn::ERROR), WorkerAction::ReportError);
    assert_eq!(handle_command(3), WorkerAction::ReportUnknown(3));
    assert_eq!(worker_count(Some(12)), 12);
    assert_eq!(worker_count(None), 4);
}

#[test]
fn workers_take_transactions_apart() {
    assert!(parse_br_transaction(&[0u8; 63]).is_none());
    let mut data = vec![0u8; 64];
    data[32..36].copy_from_slice(&0x55u32.to_le_bytes());
    data[56..64].copy_from_slice(&3u64.to_le_bytes());
    data.extend_from_slice(b"abcdef");
    let info = parse_br_transaction(&data).unwrap();
    assert_eq!(info.code, 0x55);
    assert_eq!(info.payload, b"abc");
    assert_eq!(transaction_write(b"xy"), vec![0, 0x63, 0x40, 0x40, b'x', b'y']);
    assert_eq!(command_request(0x99).write_buffer, 0x99);
    assert_eq!(command_request(0x99).write_size, 4);
}

#[test]
fn ports_are_shared() {
    let mut ports = PortTable::new();
    let port = BinderPortHandle::get_and_dedup_from_raw(&mut ports, 4);
    assert!(port.downgrade(&mut ports).is_none());
    let weak = WeakBinderPortHandle::get_and_dedup_from_raw(&mut ports, 4);
    let other = port.downgrade(&mut ports).unwrap();
    assert_eq!(other, weak);
    assert_eq!((ports.strong_shares(4), ports.weak_shares(4)), (1, 2));
    let again = weak.upgrade(&mut ports).unwrap();
    assert_eq!(ports.strong_shares(4), 2);
    again.release(&mut ports);
    port.release(&mut ports);
    assert!(weak.upgrade(&mut ports).is_none());
    weak.release(&mut ports);
    assert_eq!(ports.weak_shares(4), 1);
}

#[test]
fn ports_flatten() {
    let mut ports = PortTable::new();
    let id = OwnedBinderPortId::from_raw(3, 0);
    let port = OwnedBinderPort::new(3, 9);
    assert_eq!(*port.id(), id);
    assert_eq!(port.handler(), 9);
    ports.add_binder_port(&port);
    assert_eq!(ports.get_binder_port(&id), Some(9));
    let flat = BinderPort::Owned(OwnedBinderPort::new(3, 9)).get_flat_binder_object();
    assert_eq!((flat.hdr.type_.0, flat.data.word), (BinderType::BINDER, 3));
    port.release(&mut ports);
    assert_eq!(ports.get_binder_port(&id), None);
    let flat = BinderPort::Handle(BinderPortHandle { id: 5 }).get_flat_binder_object();
    assert_eq!((flat.hdr.type_.0, flat.data.handle(), flat.cookie), (BinderType::HANDLE, 5, 0));
    let flat = BinderPort::WeakHandle(WeakBinderPortHandle { id: 5 }).get_flat_binder_object();
    assert_eq!(flat.hdr.type_.0, BinderType::WEAK_HANDLE);
    let weak = WeakOwnedBinderPort::from_id(OwnedBinderPortId::from_raw(6, 7));
    assert_eq!(weak.id().cookie, 7);
    let flat = BinderPort::WeakOwned(weak).get_flat_binder_object();
    assert_eq!((flat.hdr.type_.0, flat.data.word, flat.cookie), (BinderType::WEAK_BINDER, 6, 7));
}

#[test]
fn handlers_are_unregistered() {
    let mut handlers = ServiceHandlers::new();
    let object = BinderObject { handler: 8, cookie: 2 };
    handlers.register(&object);
    assert_eq!(handlers.get(2), Some(8));
    assert_eq!(object.cookie(), 2);
    assert!(object.is_alive(1));
    assert!(!object.is_alive(0));
    object.unregister(&mut handlers, 0);
    assert_eq!(handlers.get(2), Some(8));
    BinderObject { handler: 8, cookie: 2 }.unregister(&mut handlers, 1);
    assert_eq!(handlers.get(2), None);
}

#[test]
fn mounting() {
    assert!(is_mounted(b"TARGET=\"/dev/binderfs\" SOURCE=\"binder\" FSTYPE=\"binder\""));
    assert!(!is_mounted(b"TARGET=\"/dev/binderfs\" SOURCE=\"binder\" FSTYPE=\"tmpfs\""));
    assert!(!is_mounted(b""));
    assert_eq!(mount_step(false, false, false, false, false), MountStep::CreateDirectory);
    assert_eq!(
        mount_step(false, false, true, false, false),
        MountStep::Refuse(FsError::NotADirectory)
    );
    assert_eq!(mount_step(true, false, true, true, false), MountStep::Mount);
    assert_eq!(mount_step(false, true, true, true, false), MountStep::Open);
    assert_eq!(mount_step(false, false, true, true, true), MountStep::Open);
    assert_eq!(FsError::NotADirectory.message(), "binderfs path is not a directory");
}

#[test]
fn device_names() {
    let device = create_device(b"binder0").unwrap();
    assert_eq!(&device.name[..7], b"binder0");
    assert!(device.name[7..].iter().all(|b| *b == 0));
    assert_eq!((device.major, device.minor), (0, 0));
    assert!(create_device(&[b'x'; 255]).is_ok());
    assert_eq!(create_device(&[b'x'; 256]).unwrap_err(), FsError::NameTooLong);
    assert_eq!(FsError::NameTooLong.message(), "Device name too long");
}

#[test]
fn pool_names() {
    assert_eq!(pool_size(None), DEFAULT_POOL_SIZE);
    assert_eq!(pool_size(Some("4")), 4);
    assert_eq!(pool_size(Some("four")), 16);
    assert_eq!(mount_path(None), DEFAULT_BINDERFS_PATH);
    assert_eq!(mount_path(Some("/mnt/b")), "/mnt/b");
    assert_eq!(node_path("/dev/binderfs", 12), "/dev/binderfs/bb-test-12");
    assert_eq!(lock_dir(Some("/run/locks"), "/tmp"), "/run/locks");
    assert_eq!(lock_dir(None, "/tmp"), "/tmp/binderbinder-test-pool");
    assert_eq!(lock_path("/tmp/x/", 0), "/tmp/x/bb-test-0.lock");
}

#[test]
fn every_node_is_tried_before_one_is_waited_for() {
    let mut tried = Vec::new();
    for n in 0..5 {
        match acquire_step(1003, n, 5) {
            PoolStep::Try(index) => tried.push(index),
            PoolStep::Wait(_) => panic!("not all were tried"),
        }
    }
    assert_eq!(tried, vec![3, 4, 0, 1, 2]);
    assert_eq!(acquire_step(1003, 5, 5), PoolStep::Wait(3));
}

#[test]
fn numbers_are_read_as_the_system_reads_them() {
    for s in [
        "", "0", "007", "+5", "+", "-0", "-1", "12x", "18446744073709551615",
        "18446744073709551616", "99999999999999999999999", " 1", "++1", "\u{661}",
    ] {
        assert_eq!(parse_number(s), s.parse::<usize>().ok(), "{s}");
    }
}

#[test]
fn paths_are_joined_as_the_system_joins_them() {
    for (a, b) in [("/a", "b"), ("/a/", "b"), ("", "b"), ("a/b", "c.lock"), ("/", "x")] {
        let expected = std::path::Path::new(a).join(b);
        assert_eq!(join_path(a, b), expected.to_str().unwrap());
    }
    assert!(find_bytes(b"abc", b""));
    assert!(find_bytes(b"abc", b"bc"));
    assert!(!find_bytes(b"abc", b"cd"));
    assert!(!find_bytes(b"a", b"aa"));
}

#[test]
fn errors_say_what_is_wrong() {
    assert_eq!(Error::Io("gone".to_string()).message(), "IO error: gone");
    assert_eq!(Error::Os(-5).message(), "OS error: -5");
    assert_eq!(
        Error::Binder(Errno::INVAL).message(),
        format!("binder operation failed: {}", Errno::INVAL)
    );
    assert_eq!(Error::Binder(Errno::INVAL).message_with("x"), "binder operation failed: x");
    assert_eq!(Error::InvalidHandle(7).message(), "invalid handle: 7");
    assert_eq!(Error::HandleNotFound(8).message(), "handle not found: 8");
    assert_eq!(Error::InvalidTransaction.message(), "invalid transaction data");
    assert_eq!(Error::Transaction("x".to_string()).message(), "transaction failed: x");
    assert_eq!(Error::ObjectNotFound.message(), "object not found");
    assert_eq!(Error::InvalidObjectType.message(), "invalid object type");
    assert_eq!(Error::NotConnected.message(), "not connected to binder driver");
    assert_eq!(Error::AlreadyConnected.message(), "already connected");
    assert_eq!(Error::PermissionDenied.message(), "permission denied");
    assert_eq!(Error::OutOfMemory.message(), "out of memory");
    assert_eq!(Error::InvalidArgument.message(), "invalid argument");
    assert_eq!(Error::Shutdown.message(), "actor shutdown");
    assert_eq!(Error::ChannelFull.message(), "channel full");
    assert_eq!(Error::DeadBinder.message(), "dead binder");
    assert_eq!(Error::DeadReply.message(), "dead reply");
    assert_eq!(Error::AlreadyExists.message(), "already exists");
    assert_eq!(Error::FrozenReply.message(), "frozen reply");
    assert_eq!(Error::Unknown(i32::MIN).message(), "unknown error: -2147483648");
    assert_eq!(
        WriteReadError::ObjectNotFound.message(),
        "BinderObject for transaction target not found"
    );
    assert_eq!(WriteReadError::DeadReply.message(), "Dead Reply");
    assert_eq!(WriteReadError::FailedReply.message(), "Reply Failed");
    assert_eq!(WriteReadError::FrozenReply.message(), "Frozen Reply");
    assert_eq!(WriteReadError::AsyncBufferFull.message(), "Async buffer full (ENOSPC)");
    assert_eq!(WriteReadError::NoDevice.message(), "No device");
    assert_eq!(
        WriteReadError::WriteReadIoctlFailed(Errno::BADF).message(),
        format!("WriteRead failed: {}", Errno::BADF)
    );
}
