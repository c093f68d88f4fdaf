use binderbinder::binder_object::{
    BinderObjectId, BinderObjectOrRef, BinderRef, UntypedBinderObject, WeakBinderObject,
    WeakBinderRef,
};
use binderbinder::command::DriverCommand;
use binderbinder::device::BinderDevice;
use binderbinder::payload::{
    BinderObjectType, PayloadBuilder, PayloadBytesReadError, PayloadObjectReadError,
    PayloadPortReadError, PayloadReader,
};
use binderbinder::sys::{BinderBufferObject, BinderFdArrayObject, BinderHandleCookie, BinderType};
use binderbinder::wire::get_u32;

fn own_reader(builder: &PayloadBuilder<'_>) -> PayloadReader {
    let fds = builder.files_among_objects();
    PayloadReader::from_builder(builder, &fds)
}

#[test]
fn bytes_come_back() {
    let mut builder = PayloadBuilder::new();
    builder.push_bytes(b"hello ");
    builder.push_bytes(b"world");
    assert_eq!(builder.data(), b"hello world");
    assert_eq!(builder.data_buffer_len(), 11);
    let mut reader = own_reader(&builder);
    assert_eq!(reader.bytes_until_next_obj(), 11);
    assert_eq!(reader.read_bytes(5).unwrap(), b"hello");
    assert_eq!(reader.bytes_until_next_obj(), 6);
    assert_eq!(reader.read_bytes(6).unwrap(), b" world");
    assert_eq!(reader.bytes_until_next_obj(), 0);
    assert_eq!(reader.read_bytes(1).unwrap_err(), PayloadBytesReadError::OutOfBounds);
    assert_eq!(reader.next_object_type(), None);
    let mut device = BinderDevice::new();
    assert_eq!(reader.release(&mut device), (vec![], vec![]));
}

#[test]
fn reading_up_to_an_object_is_possible() {
    let mut builder = PayloadBuilder::new();
    builder.push_bytes(b"12345678");
    builder.push_fd(4, 9);
    let mut reader = own_reader(&builder);
    let gap = reader.bytes_until_next_obj();
    assert_eq!(gap, builder.offsets()[0]);
    assert_eq!(reader.read_bytes(gap + 1).unwrap_err(), PayloadBytesReadError::ReadingIntoObject);
    assert_eq!(reader.read_bytes(gap).unwrap().len(), gap);
    assert_eq!(reader.bytes_until_next_obj(), 0);
    assert_eq!(reader.read_bytes(1).unwrap_err(), PayloadBytesReadError::ReadingIntoObject);
    assert_eq!(reader.read_bytes(0).unwrap(), b"");
    assert_eq!(reader.read_fd().unwrap(), (4, 9));
}

#[test]
fn adjacent_objects_have_no_bytes_between_them() {
    let mut builder = PayloadBuilder::new();
    builder.push_fd(4, 9);
    builder.push_fd(5, 10);
    let (first, second) = (builder.offsets()[0], builder.offsets()[1]);
    assert_eq!(second, first + 24);
    builder.push_bytes(b"tail");
    let mut reader = own_reader(&builder);
    let gap = reader.bytes_until_next_obj();
    assert_eq!(gap, first);
    assert_eq!(reader.read_bytes(gap).unwrap().len(), gap);
    assert_eq!(reader.read_fd().unwrap(), (4, 9));
    assert_eq!(reader.bytes_until_next_obj(), 0);
    assert_eq!(reader.read_bytes(1).unwrap_err(), PayloadBytesReadError::ReadingIntoObject);
    assert_eq!(reader.read_fd().unwrap(), (5, 10));
    assert_eq!(reader.position(), second + 24);
    assert_eq!(reader.bytes_until_next_obj(), 4);
    assert_eq!(reader.read_bytes(4).unwrap(), b"tail");
}

#[test]
fn echoed_payloads_are_the_same() {
    let mut device = BinderDevice::new();
    let id = device.register_object(3);
    let mut sent = PayloadBuilder::new();
    sent.push_bytes(b"before12");
    sent.push_port(&BinderObjectOrRef::Object(UntypedBinderObject(id)));
    sent.push_fd(4, 9);
    sent.push_bytes(b"after123");
    let mut reader = own_reader(&sent);
    let mut echo = PayloadBuilder::new();
    loop {
        let gap = reader.bytes_until_next_obj();
        echo.push_bytes(reader.read_bytes(gap).unwrap());
        match reader.next_object_type() {
            Some(BinderObjectType::Fd) => {
                let (fd, cookie) = reader.read_fd().unwrap();
                echo.push_fd(fd, cookie);
            }
            Some(_) => {
                let (port, told) = reader.read_port(&mut device).unwrap();
                assert!(told.is_empty());
                echo.push_port(&port);
            }
            None => break,
        }
    }
    assert_eq!(reader.release(&mut device), (vec![], vec![]));
    let mut sent = own_reader(&sent);
    let mut back = own_reader(&echo);
    assert_eq!(sent.read_bytes(8).unwrap(), back.read_bytes(8).unwrap());
    assert_eq!(sent.read_port(&mut device).unwrap(), back.read_port(&mut device).unwrap());
    assert_eq!(sent.read_fd().unwrap(), back.read_fd().unwrap());
    assert_eq!(back.bytes_until_next_obj(), 8);
    assert_eq!(back.read_bytes(8).unwrap(), b"after123");
}

#[test]
fn bytes_are_read_in_parts_or_at_once() {
    let mut builder = PayloadBuilder::new();
    builder.push_bytes(b"hello world");
    let mut parts = own_reader(&builder);
    let mut whole = own_reader(&builder);
    let mut joined = parts.read_bytes(3).unwrap().to_vec();
    joined.extend_from_slice(parts.read_bytes(5).unwrap());
    assert_eq!(joined, whole.read_bytes(8).unwrap());
    assert_eq!(parts.position(), whole.position());
}

#[test]
fn alignment_goes_by_the_address() {
    let mut builder = PayloadBuilder::new();
    builder.push_bytes(b"123");
    assert!(!builder.align_step(0, 8));
    assert_eq!(builder.data(), b"123\0");
    assert!(builder.align_step(4, 8));
    assert_eq!(builder.data_buffer_len(), 4);
    builder.align(8);
    let end = builder.data().as_ptr() as usize + builder.data_buffer_len();
    assert_eq!(end % 8, 0);
    assert!(builder.data()[3..].iter().all(|b| *b == 0));
}

#[test]
fn ports_come_back() {
    let mut device = BinderDevice::new();
    let id = device.register_object(70);
    let mut builder = PayloadBuilder::new();
    builder.push_port(&BinderObjectOrRef::Object(UntypedBinderObject(id)));
    builder.push_port(&BinderObjectOrRef::WeakObject(WeakBinderObject::from_id(id)));
    let weak = WeakBinderRef { id: 5, cookie: 0 };
    builder.push_port(&BinderObjectOrRef::Ref(BinderRef { weak }));
    builder.push_port(&BinderObjectOrRef::WeakRef(WeakBinderRef { id: 6, cookie: 0 }));
    assert_eq!(builder.offset_buffer_len(), 4);
    let mut reader = own_reader(&builder);
    assert_eq!(reader.next_object_type(), Some(BinderObjectType::OwnedPort));
    assert!(reader.can_read_port(&device));
    let (port, told) = reader.read_port(&mut device).unwrap();
    assert_eq!(port, BinderObjectOrRef::Object(UntypedBinderObject(id)));
    assert!(told.is_empty());
    assert_eq!(reader.next_object_type(), Some(BinderObjectType::WeakOwnedPort));
    let (port, told) = reader.read_port(&mut device).unwrap();
    assert_eq!(port, BinderObjectOrRef::WeakObject(WeakBinderObject::from_id(id)));
    assert!(told.is_empty());
    assert_eq!(reader.next_object_type(), Some(BinderObjectType::PortHandle));
    let (port, told) = reader.read_port(&mut device).unwrap();
    assert_eq!(
        port,
        BinderObjectOrRef::Ref(BinderRef { weak: WeakBinderRef { id: 5, cookie: 1 } })
    );
    let death = BinderHandleCookie { handle: 5, cookie: 1 };
    assert_eq!(
        told,
        vec![
            DriverCommand::IncRefs(5),
            DriverCommand::RequestDeathNotification(death),
            DriverCommand::Acquire(5),
        ]
    );
    assert_eq!(reader.next_object_type(), Some(BinderObjectType::WeakPortHandle));
    let (port, told) = reader.read_port(&mut device).unwrap();
    assert_eq!(port, BinderObjectOrRef::WeakRef(WeakBinderRef { id: 6, cookie: 2 }));
    assert_eq!(told.len(), 2);
    assert_eq!(reader.read_port(&mut device).unwrap_err(), PayloadPortReadError::Empty);
}

#[test]
fn port_errors_leave_the_cursor() {
    let mut device = BinderDevice::new();
    let stranger = BinderObjectId::from_raw(99, 0);
    let mut builder = PayloadBuilder::new();
    builder.push_port(&BinderObjectOrRef::Object(UntypedBinderObject(stranger)));
    builder.push_fd(3, 7);
    let mut reader = own_reader(&builder);
    assert_eq!(reader.read_port(&mut device).unwrap_err(), PayloadPortReadError::UnknownOwnedPort);
    assert_eq!(reader.read_fd().unwrap_err(), PayloadObjectReadError::IncorrectObject);
    assert_eq!(reader.next_object_type(), Some(BinderObjectType::OwnedPort));
    let mut builder = PayloadBuilder::new();
    builder.push_fd(3, 7);
    let mut reader = own_reader(&builder);
    assert_eq!(reader.read_port(&mut device).unwrap_err(), PayloadPortReadError::IncorrectObject);
    assert_eq!(reader.read_fd().unwrap(), (3, 7));
    assert_eq!(reader.read_fd().unwrap_err(), PayloadObjectReadError::Empty);
}

#[test]
fn files_are_replaced_by_their_duplicates() {
    let mut device = BinderDevice::new();
    let id = device.register_object(1);
    let mut builder = PayloadBuilder::new();
    builder.push_fd(10, 100);
    builder.push_port(&BinderObjectOrRef::Object(UntypedBinderObject(id)));
    builder.push_owned_fd(11, 101);
    assert_eq!(builder.fds(), &[11]);
    assert_eq!(builder.files_among_objects(), vec![10, 11]);
    assert!(!builder.contains_buffers());
    let mut reader = PayloadReader::from_builder(&builder, &[20, 21]);
    assert_eq!(reader.read_fd().unwrap(), (20, 100));
    assert!(reader.read_port(&mut device).is_ok());
    assert_eq!(reader.next_object_type(), Some(BinderObjectType::Fd));
    assert_eq!(reader.read_fd().unwrap(), (21, 101));
}

#[test]
fn buffers_hold_address_and_length() {
    let bytes = [1u8, 2, 3, 4, 5];
    let child = [6u8; 3];
    let mut builder = PayloadBuilder::new();
    let parent = builder.push_buffer(&bytes);
    let inner = builder.push_child_buffer(&child, parent as u64, 16);
    builder.push_fd_array(2, parent as u64, 24);
    assert!(builder.contains_buffers());
    let object = BinderBufferObject::read(builder.data(), parent);
    assert_eq!(object.hdr.type_, BinderType(BinderType::PTR));
    assert_eq!(object.buffer, bytes.as_ptr() as u64);
    assert_eq!((object.length, object.parent, object.parent_offset), (5, 0, 0));
    let object = BinderBufferObject::read(builder.data(), inner);
    assert_eq!(object.buffer, child.as_ptr() as u64);
    assert_eq!((object.length, object.parent, object.parent_offset), (3, parent as u64, 16));
    let at = builder.offsets()[2];
    let array = BinderFdArrayObject::read(builder.data(), at);
    assert_eq!((array.num_fds, array.parent, array.parent_offset), (2, parent as u64, 24));
    assert_eq!(get_u32(builder.data(), at), BinderType::PTR);
}

#[test]
fn lent_buffers_are_given_back() {
    let mut device = BinderDevice::new();
    let data: &'static [u8] = b"lent";
    let places: &'static [usize] = &[];
    let mut reader = PayloadReader::from_kernel_raw(data, 0x1000, places, 0);
    assert_eq!(reader.read_bytes(4).unwrap(), b"lent");
    assert_eq!(
        reader.release(&mut device),
        (vec![DriverCommand::FreeBuffer(0x1000)], vec![])
    );
    let reader = PayloadReader::from_kernel_raw(data, 0x1000, places, 0x2000);
    assert_eq!(
        reader.release(&mut device).0,
        vec![DriverCommand::FreeBuffer(0x1000), DriverCommand::FreeBuffer(0x2000)]
    );
}

fn with_handles() -> PayloadBuilder<'static> {
    let mut builder = PayloadBuilder::new();
    let weak = WeakBinderRef { id: 5, cookie: 0 };
    builder.push_port(&BinderObjectOrRef::Ref(BinderRef { weak }));
    builder.push_fd(30, 0);
    builder.push_port(&BinderObjectOrRef::WeakRef(WeakBinderRef { id: 6, cookie: 0 }));
    builder.push_fd(31, 0);
    builder
}

#[test]
fn unread_objects_are_dropped() {
    let mut device = BinderDevice::new();
    let builder = with_handles();
    let data: &'static [u8] = Box::leak(builder.data().to_vec().into_boxed_slice());
    let places: &'static [usize] = Box::leak(builder.offsets().to_vec().into_boxed_slice());
    let reader = PayloadReader::from_kernel_raw(data, 0x1000, places, 0x2000);
    let (commands, files) = reader.release(&mut device);
    assert_eq!(
        commands,
        vec![
            DriverCommand::IncRefs(5),
            DriverCommand::RequestDeathNotification(BinderHandleCookie { handle: 5, cookie: 1 }),
            DriverCommand::Acquire(5),
            DriverCommand::Release(5),
            DriverCommand::DecRefs(5),
            DriverCommand::IncRefs(6),
            DriverCommand::RequestDeathNotification(BinderHandleCookie { handle: 6, cookie: 2 }),
            DriverCommand::DecRefs(6),
            DriverCommand::FreeBuffer(0x1000),
            DriverCommand::FreeBuffer(0x2000),
        ]
    );
    assert_eq!(files, vec![30, 31]);
}

#[test]
fn only_unread_objects_are_dropped() {
    let mut device = BinderDevice::new();
    let builder = with_handles();
    let mut reader = own_reader(&builder);
    let (port, _) = reader.read_port(&mut device).unwrap();
    assert_eq!(reader.read_fd().unwrap(), (30, 0));
    let (commands, files) = reader.release(&mut device);
    assert_eq!(
        commands,
        vec![
            DriverCommand::IncRefs(6),
            DriverCommand::RequestDeathNotification(BinderHandleCookie { handle: 6, cookie: 2 }),
            DriverCommand::DecRefs(6),
        ]
    );
    assert_eq!(files, vec![31]);
    let again = own_reader(&builder);
    let (commands, files) = again.release(&mut device);
    assert!(!commands.contains(&DriverCommand::IncRefs(5)));
    assert_eq!(files, vec![30, 31]);
    match port {
        BinderObjectOrRef::Ref(port) => assert_eq!(
            port.release(&mut device),
            vec![DriverCommand::Release(5), DriverCommand::DecRefs(5)]
        ),
        _ => panic!("a handle becomes a reference"),
    }
}

#[test]
fn objects_that_do_not_fit_are_noticed() {
    let device = BinderDevice::new();
    let data: &'static [u8] = &[0u8; 30];
    let reader = PayloadReader::from_kernel_raw(data, 1, &[27], 2);
    assert!(!reader.next_header_fits());
    assert!(!reader.can_read_fd());
    assert!(!reader.can_read_port(&device));
    let reader = PayloadReader::from_kernel_raw(data, 1, &[26], 2);
    assert!(reader.next_header_fits());
    assert!(reader.can_read_fd());
    assert!(reader.can_read_port(&device));
    assert_eq!(reader.next_object_type(), None);
    let mut cut = BinderType::FD.to_ne_bytes().to_vec();
    cut.resize(23, 0);
    let cut: &'static [u8] = Box::leak(cut.into_boxed_slice());
    let reader = PayloadReader::from_kernel_raw(cut, 1, &[0], 2);
    assert_eq!(reader.next_object_type(), Some(BinderObjectType::Fd));
    assert!(!reader.can_read_fd());
    assert!(reader.can_read_port(&device));
    let mut cut = BinderType::HANDLE.to_ne_bytes().to_vec();
    cut.resize(23, 0);
    let cut: &'static [u8] = Box::leak(cut.into_boxed_slice());
    let reader = PayloadReader::from_kernel_raw(cut, 1, &[0], 2);
    assert_eq!(reader.next_object_type(), Some(BinderObjectType::PortHandle));
    assert!(reader.can_read_fd());
    assert!(!reader.can_read_port(&device));
}

#[test]
fn read_errors_say_what_is_wrong() {
    assert_eq!(PayloadPortReadError::IncorrectObject.message(), "Unexpected object type");
    assert_eq!(PayloadPortReadError::UnknownOwnedPort.message(), "Unknown OwnedPort");
    assert_eq!(PayloadPortReadError::Empty.message(), "No more ports to read");
    assert_eq!(PayloadObjectReadError::IncorrectObject.message(), "Unexpected object type");
    assert_eq!(PayloadObjectReadError::Empty.message(), "No more objects to read");
    assert_eq!(
        PayloadBytesReadError::ReadingIntoObject.message(),
        "Tried reading bytes from an area containing an object"
    );
    assert_eq!(
        PayloadBytesReadError::OutOfBounds.message(),
        "Tried reading bytes outside the provided buffer"
    );
}
