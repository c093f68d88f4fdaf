use binderbinder::command::{encode_all, DriverCommand};
use binderbinder::sys::{
    BinderHandleCookie, BinderPtrCookie, BinderTransactionData, BinderTransactionDataPtrs,
    BinderWriteRead, TransactionFlags, TransactionTarget,
};
use binderbinder::wire::{
    get_first_word, get_le_u32, get_le_u64, get_u32, get_u64, to_sign_extended, to_signed,
    to_unsigned, widen,
};

fn transaction() -> BinderTransactionData {
    BinderTransactionData {
        target: TransactionTarget::from_handle(3),
        cookie: 0x0102_0304_0506_0708,
        code: 0xaabb_ccdd,
        flags: TransactionFlags(TransactionFlags::ACCEPT_FDS),
        sender_pid: -2,
        sender_euid: 1000,
        data_size: 11,
        offsets_size: 16,
        data: BinderTransactionDataPtrs { buffer: 0x1000, offsets: 0x2000 },
    }
}

#[test]
fn words_lie_in_the_order_of_the_machine() {
    let s = [9u8, 1, 2, 3, 4, 5, 6, 7, 8];
    assert_eq!(get_u32(&s, 1), u32::from_ne_bytes([1, 2, 3, 4]));
    assert_eq!(get_u64(&s, 1), u64::from_ne_bytes([1, 2, 3, 4, 5, 6, 7, 8]));
    assert_eq!(get_first_word(get_u64(&s, 1)), get_u32(&s, 1));
    assert_eq!(widen(0x0102_0304).to_ne_bytes()[..4], 0x0102_0304u32.to_ne_bytes());
    assert_eq!(widen(0x0102_0304).to_ne_bytes()[4..], [0; 4]);
    assert_eq!(get_first_word(widen(0x0102_0304)), 0x0102_0304);
}

#[test]
fn some_words_are_little_endian() {
    let s = [9u8, 1, 2, 3, 4, 5, 6, 7, 8];
    assert_eq!(get_le_u32(&s, 1), 0x0403_0201);
    assert_eq!(get_le_u64(&s, 1), 0x0807_0605_0403_0201);
    assert_eq!(to_signed(0xffff_fffe), -2);
    assert_eq!(to_signed(7), 7);
    assert_eq!(to_unsigned(-2), 0xffff_fffe);
    assert_eq!(to_sign_extended(-1), u64::MAX);
    assert_eq!(to_sign_extended(5), 5);
}

#[test]
fn transaction_layout() {
    let t = transaction();
    let mut out = vec![0xeeu8];
    t.put(&mut out);
    assert_eq!(out.len(), 1 + 64);
    assert_eq!(out[0], 0xee);
    assert_eq!(&out[1..9], &3u64.to_ne_bytes());
    assert_eq!(&out[9..17], &0x0102_0304_0506_0708u64.to_ne_bytes());
    assert_eq!(&out[17..21], &0xaabb_ccddu32.to_ne_bytes());
    assert_eq!(&out[21..25], &0x10u32.to_ne_bytes());
    assert_eq!(&out[25..29], &(-2i32).to_ne_bytes());
    assert_eq!(&out[29..33], &1000u32.to_ne_bytes());
    assert_eq!(&out[33..41], &11u64.to_ne_bytes());
    assert_eq!(&out[41..49], &16u64.to_ne_bytes());
    assert_eq!(&out[49..57], &0x1000u64.to_ne_bytes());
    assert_eq!(&out[57..65], &0x2000u64.to_ne_bytes());
    assert_eq!(BinderTransactionData::read(&out, 1), t);
}

#[test]
fn exchange_layout() {
    let request = BinderWriteRead::exchange(0x10, 4, 0x20, 256);
    let mut out = Vec::new();
    request.put(&mut out);
    let mut words = Vec::new();
    for i in 0..6 {
        words.push(get_u64(&out, 8 * i));
    }
    assert_eq!(words, vec![4, 0, 0x10, 256, 0, 0x20]);
    assert_eq!(BinderWriteRead::read(&out, 0), request);
}

#[test]
fn commands_are_code_and_argument() {
    assert_eq!(DriverCommand::EnterLooper.encode(), 0x630cu32.to_ne_bytes().to_vec());
    let mut expected = 0x4008_6303u32.to_ne_bytes().to_vec();
    expected.extend_from_slice(&0x1234u64.to_ne_bytes());
    assert_eq!(DriverCommand::FreeBuffer(0x1234).encode(), expected);
    let mut expected = 0x4004_6305u32.to_ne_bytes().to_vec();
    expected.extend_from_slice(&7u32.to_ne_bytes());
    assert_eq!(DriverCommand::Acquire(7).encode(), expected);
    let death = BinderHandleCookie { handle: 7, cookie: 9 };
    let mut expected = 0x4010_630eu32.to_ne_bytes().to_vec();
    expected.extend_from_slice(&7u32.to_ne_bytes());
    expected.extend_from_slice(&[0, 0, 0, 0]);
    expected.extend_from_slice(&9u64.to_ne_bytes());
    assert_eq!(DriverCommand::RequestDeathNotification(death).encode(), expected);
    let done = BinderPtrCookie { ptr: 1, cookie: 2 };
    assert_eq!(DriverCommand::AcquireDone(done).encode().len(), 20);
    assert_eq!(DriverCommand::Transaction(transaction()).encode().len(), 68);
}

#[test]
fn commands_are_put_one_after_the_other() {
    let run = [DriverCommand::EnterLooper, DriverCommand::Release(5), DriverCommand::ExitLooper];
    let mut expected = run[0].encode();
    expected.extend_from_slice(&run[1].encode());
    expected.extend_from_slice(&run[2].encode());
    assert_eq!(encode_all(&run), expected);
    assert!(encode_all(&[]).is_empty());
}
