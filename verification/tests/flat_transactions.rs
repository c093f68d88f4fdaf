use binderbinder::binder_ref::BinderRef;
use binderbinder::sys::{
    BinderFdObject, BinderFdObjectData, BinderObjectHeader, BinderType, FlatBinderFlags,
    FlatBinderObject, TransactionFlags,
};
use binderbinder::transaction::{
    reply_fits, BinderObject, BinderObjectEntry, Payload, TransactionData, BINDER_MAX_TYPE,
};
use binderbinder::wire::widen;

#[test]
fn test_binder_ref() {
    let ref1 = BinderRef::from_raw(100);
    let ref2 = BinderRef::from_raw(200);
    assert_eq!(ref1.as_u32(), 100);
    assert_eq!(ref2.as_u32(), 200);
    assert_ne!(ref1, ref2);
}

#[test]
fn references_as_text() {
    assert_eq!(BinderRef::from_raw(4294967295).to_text(), "BinderRef(4294967295)");
    assert_eq!(BinderRef::default().to_text(), "BinderRef(0)");
}

#[test]
fn test_payload() {
    let mut payload = Payload::with_data(b"hello world".to_vec());
    payload.add_handle(42);
    payload.add_fd(123);
    payload.add_binder(0xDEADBEEF, 0xCAFEBABE);
    assert!(!payload.is_empty());
    assert_eq!(payload.data, b"hello world");
    assert_eq!(payload.objects.len(), 3);
}

#[test]
fn payload_entries() {
    let mut payload = Payload::default();
    assert!(payload.is_empty());
    payload.add_weak_handle(1);
    payload.add_weak_binder(2, 3);
    assert_eq!(
        payload.objects,
        vec![
            BinderObjectEntry::Handle { handle: 1 },
            BinderObjectEntry::Binder { ptr: 2, cookie: 3 },
        ]
    );
    assert!(!payload.is_empty());
    assert_eq!(BINDER_MAX_TYPE, 6);
}

#[test]
fn test_transaction_data() {
    let target = BinderRef::from_raw(123);
    let tx_data =
        TransactionData::new(target, 0x1234, TransactionFlags(TransactionFlags::ONE_WAY))
            .with_payload(b"hello")
            .add_handle(42);
    let (data, objects) = tx_data.build();
    assert!(!data.is_empty());
    assert_eq!(objects.len(), 1);
}

#[test]
fn built_transaction_byte_for_byte() {
    let (data, objects) =
        TransactionData::new(BinderRef::from_raw(123), 0x1234, TransactionFlags(1))
            .with_payload(b"hello")
            .add_handle(42)
            .add_fd(-1)
            .add_weak_binder(7, 8)
            .build();
    let mut expected = Vec::new();
    expected.extend_from_slice(&123u64.to_le_bytes());
    expected.extend_from_slice(&0u64.to_le_bytes());
    expected.extend_from_slice(&0x1234u32.to_le_bytes());
    expected.extend_from_slice(&1u32.to_le_bytes());
    expected.extend_from_slice(&0u64.to_le_bytes());
    expected.extend_from_slice(&0u64.to_le_bytes());
    expected.extend_from_slice(&5u64.to_le_bytes());
    expected.extend_from_slice(&3u64.to_le_bytes());
    expected.extend_from_slice(b"hello");
    for place in [5u64, 13, 21] {
        expected.extend_from_slice(&place.to_le_bytes());
    }
    for (type_, word, cookie) in [
        (BinderType::HANDLE, widen(42), 0u64),
        (BinderType::FD, u64::MAX, 0),
        (BinderType::WEAK_BINDER, 7, 8),
    ] {
        expected.extend_from_slice(&type_.to_ne_bytes());
        expected.extend_from_slice(&0u32.to_ne_bytes());
        expected.extend_from_slice(&word.to_ne_bytes());
        expected.extend_from_slice(&cookie.to_ne_bytes());
    }
    assert_eq!(data, expected);
    assert_eq!(data.len(), 56 + 5 + 3 * 32);
    assert_eq!(TransactionData::serialize_objects(&objects), expected[56 + 5 + 24..].to_vec());
}

#[test]
fn flattening() {
    let flat = BinderObject::WeakHandle { handle: 3 }.to_flat();
    assert_eq!(flat.hdr.type_, BinderType(BinderType::WEAK_HANDLE));
    assert_eq!(flat.flags, FlatBinderFlags(0));
    assert_eq!(BinderObject::Binder { ptr: 1, cookie: 2 }.to_flat().cookie, 2);
    let entry = BinderObjectEntry::Binder { ptr: 1, cookie: 2 };
    assert_eq!(BinderObjectEntry::from_flat(&entry.to_flat(), None), Some(entry));
    let entry = BinderObjectEntry::Handle { handle: 9 };
    assert_eq!(BinderObjectEntry::from_flat(&entry.to_flat(), None), Some(entry));
    let entry = BinderObjectEntry::Fd { fd: 5 };
    let object = BinderFdObject {
        hdr: BinderObjectHeader { type_: BinderType(BinderType::FD) },
        pad_flags: 0,
        data: BinderFdObjectData::from_fd(6),
        cookie: 0,
    };
    assert_eq!(
        BinderObjectEntry::from_flat(&entry.to_flat(), Some(object)),
        Some(BinderObjectEntry::Fd { fd: 6 })
    );
    let mut flat = entry.to_flat();
    flat.hdr.type_ = BinderType(BinderType::PTR);
    assert_eq!(BinderObjectEntry::from_flat(&flat, None), None);
}

#[test]
fn replies_are_taken_apart() {
    let (data, objects) = TransactionData::parse_reply(&[0u8; 63], &[]);
    assert!(data.is_empty() && objects.is_empty());
    // The data start right behind the header, and the second length lies in them.
    let mut reply = vec![0u8; 64];
    reply[56..64].copy_from_slice(&48u64.to_le_bytes());
    let mut body = vec![0u8; 48];
    body[0..8].copy_from_slice(&16u64.to_le_bytes());
    let handle = BinderObject::Handle { handle: 77 }.to_flat();
    let mut bytes = Vec::new();
    handle.put(&mut bytes);
    body[24..48].copy_from_slice(&bytes);
    reply.extend_from_slice(&body);
    reply.extend_from_slice(&30u64.to_le_bytes());
    reply.extend_from_slice(&4800u64.to_le_bytes());
    assert!(reply_fits(&reply));
    let flats: Vec<FlatBinderObject> = TransactionData::reply_flat_objects(&reply);
    assert_eq!(flats, vec![handle]);
    let (data, objects) = TransactionData::parse_reply(&reply, &[]);
    assert_eq!(data, body);
    assert_eq!(objects, vec![BinderObjectEntry::Handle { handle: 77 }]);
}

#[test]
fn replies_that_do_not_fit_are_noticed() {
    assert!(reply_fits(&[0u8; 63]));
    assert!(!reply_fits(&[0u8; 71]));
    assert!(reply_fits(&[0u8; 72]));
    let reply = |data: u64, places: u64, first: u64| {
        let mut bytes = vec![0u8; 88];
        bytes[56..64].copy_from_slice(&data.to_le_bytes());
        bytes[64..72].copy_from_slice(&places.to_le_bytes());
        bytes[80..88].copy_from_slice(&first.to_le_bytes());
        bytes
    };
    assert!(reply_fits(&reply(24, 0, 0)));
    assert!(!reply_fits(&reply(25, 0, 0)));
    assert!(reply_fits(&reply(16, 15, 0)));
    assert!(!reply_fits(&reply(16, 16, 0)));
    assert!(!reply_fits(&reply(16, 8, u64::MAX)));
    assert!(!reply_fits(&reply(16, u64::MAX, 0)));
}
