use binderbinder::binder_object::{
    BinderObjectId, BinderObjectOrRef, BinderRef, ContextManagerBinderRef, UntypedBinderObject,
    WeakBinderRef,
};
use binderbinder::command::{encode_all, DriverCommand};
use binderbinder::device::BinderDevice;
use binderbinder::error::{Error, WriteReadError};
use binderbinder::looper::{
    exchange_request, exchange_started, failed_reply, lent_places, looper_start, looper_step,
    on_reply, Ending, ExchangeStep, Incoming, LooperStep, ReturnAction, ReturnMessage, ReturnStream,
};
use binderbinder::payload::{PayloadBuilder, PayloadReader};
use binderbinder::sys::{
    BinderExtendedError, BinderHandleCookie, BinderPtrCookie, BinderReturn,
    BinderTransactionData, BinderTransactionDataPtrs, BinderWriteRead, TransactionFlags,
    TransactionTarget,
};
use binderbinder::transact::{
    embedded_binder_objects, to_sender_error, BlockingStep, OneWayStep, Outgoing, Started,
};
use rustix::io::Errno;

fn incoming(id: &BinderObjectId, flags: u32) -> BinderTransactionData {
    BinderTransactionData {
        target: TransactionTarget::from_binder(id.id),
        cookie: id.cookie,
        code: 77,
        flags: TransactionFlags(flags),
        sender_pid: 11,
        sender_euid: 12,
        data_size: 4,
        offsets_size: 0,
        data: BinderTransactionDataPtrs { buffer: 0x5000, offsets: 0x6000 },
    }
}

fn own_reader(bytes: &[u8]) -> PayloadReader {
    let mut builder = PayloadBuilder::new();
    builder.push_bytes(bytes);
    PayloadReader::from_builder(&builder, &[])
}

fn lent_reader() -> PayloadReader {
    PayloadReader::from_kernel_raw(b"data", 0x5000, &[], 0)
}

fn remote(device: &mut BinderDevice, one_way: bool, payload: &PayloadBuilder<'_>) -> Outgoing {
    let target = ContextManagerBinderRef(0);
    let started = if one_way {
        device.transact_one_way(&target, 9, payload, &[], 1, 2)
    } else {
        device.transact_blocking(&target, 9, payload, &[], 1, 2)
    };
    match started.unwrap() {
        Started::Remote(out) => out,
        Started::Local(_, _) => panic!("a handle is not local"),
    }
}

#[test]
fn local_self_transact_echo() {
    let mut device = BinderDevice::new();
    let id = device.register_object(33);
    device.set_context_manager(&id);
    let mut payload = PayloadBuilder::new();
    payload.push_bytes(b"hello from a real forked client");
    let manager = device.context_manager();
    let started = device.transact_blocking(&manager, 1, &payload, &[], 5, 6).unwrap();
    let (slot, mut transaction) = match started {
        Started::Local(slot, transaction) => (slot, transaction),
        Started::Remote(_) => panic!("the manager is local"),
    };
    assert_eq!(slot, 33);
    assert_eq!((transaction.code, transaction.sender_pid, transaction.sender_euid), (1, 5, 6));
    let mut reply = PayloadBuilder::new();
    let n = transaction.payload.bytes_until_next_obj();
    reply.push_bytes(transaction.payload.read_bytes(n).unwrap());
    let (code, mut reader) = BinderDevice::self_reply(1, &reply, &[]);
    assert_eq!(code, 1);
    let n = reader.bytes_until_next_obj();
    assert_eq!(reader.read_bytes(n).unwrap(), b"hello from a real forked client");
}

#[test]
fn unknown_local_target() {
    let mut device = BinderDevice::new();
    let target = UntypedBinderObject(BinderObjectId::from_raw(4, 0));
    let payload = PayloadBuilder::new();
    let started = device.transact_blocking(&target, 1, &payload, &[], 5, 6);
    assert!(matches!(started, Err(Error::ObjectNotFound)));
}

#[test]
fn remote_transaction_is_framed() {
    let mut device = BinderDevice::new();
    let id = device.register_object(1);
    let mut payload = PayloadBuilder::new();
    payload.push_bytes(b"abcdefgh");
    payload.push_port(&BinderObjectOrRef::Object(UntypedBinderObject(id)));
    assert_eq!(embedded_binder_objects(payload.data(), payload.offsets()), vec![id]);
    let mut out = remote(&mut device, false, &payload);
    let expected = BinderTransactionData {
        target: TransactionTarget::from_handle(0),
        cookie: 0,
        code: 9,
        flags: TransactionFlags(TransactionFlags::ACCEPT_FDS),
        sender_pid: 0,
        sender_euid: 0,
        data_size: payload.data_buffer_len() as u64,
        offsets_size: 8,
        data: BinderTransactionDataPtrs {
            buffer: payload.data().as_ptr() as u64,
            offsets: payload.offsets().as_ptr() as u64,
        },
    };
    assert_eq!(out.transaction, expected);
    let bytes = encode_all(&[
        DriverCommand::EnterLooper,
        DriverCommand::Transaction(expected),
        DriverCommand::ExitLooper,
    ]);
    assert_eq!(bytes.len(), 76);
    assert_eq!(out.next_write(), Some(bytes));
    assert_eq!(out.next_write(), None);
    let mut out = remote(&mut device, true, &payload);
    assert_eq!(out.transaction.flags, TransactionFlags(0x11));
    let first = out.next_write();
    assert!(first.is_some());
    assert_eq!(out.next_write(), first);
}

#[test]
fn waiting_for_a_reply() {
    let mut device = BinderDevice::new();
    let id = device.register_object(1);
    let mut payload = PayloadBuilder::new();
    payload.push_port(&BinderObjectOrRef::Object(UntypedBinderObject(id)));
    let out = remote(&mut device, false, &payload);
    assert!(device.refcounts(&id).unwrap().new_in_remote);
    assert!(matches!(device.after_blocking_exchange(&out, None), BlockingStep::Again));
    assert!(matches!(
        device.after_blocking_exchange(&out, Some(Err(WriteReadError::AsyncBufferFull))),
        BlockingStep::Sleep
    ));
    assert!(device.refcounts(&id).unwrap().new_in_remote);
    let step = device.after_blocking_exchange(&out, Some(Ok((3, own_reader(b"xy")))));
    match step {
        BlockingStep::Done(Ok((code, mut reader))) => {
            assert_eq!(code, 3);
            assert_eq!(reader.read_bytes(2).unwrap(), b"xy");
        }
        _ => panic!("the wait is over"),
    }
    assert!(device.refcounts(&id).unwrap().new_in_remote);
    let step = device.after_blocking_exchange(&out, Some(Err(WriteReadError::DeadReply)));
    assert!(matches!(step, BlockingStep::Done(Err(Error::DeadReply))));
    assert!(!device.refcounts(&id).unwrap().new_in_remote);
}

#[test]
fn death_notification_on_killed_service() {
    let mut device = BinderDevice::new();
    let target = device.context_manager();
    let (weak, told) = WeakBinderRef::get_and_dedup_from_raw(&mut device, 0);
    assert_eq!(told.len(), 2);
    let send = |device: &mut BinderDevice, bytes: &[u8], answer: &[u8]| {
        let mut payload = PayloadBuilder::new();
        payload.push_bytes(bytes);
        let started = device.transact_blocking(&target, 1, &payload, &[], 1, 2);
        let out = match started.unwrap() {
            Started::Remote(out) => out,
            Started::Local(_, _) => panic!("a handle is not local"),
        };
        let mut stream = ReturnStream::new(answer.to_vec());
        let ending = match stream.advance(device) {
            ExchangeStep::Act(ReturnAction::End(ending)) => ending,
            _ => panic!("the answer ends the exchange"),
        };
        let outcome = match ending {
            Ending::Replied(t) => Ok(on_reply(&t, b"data", &[])),
            Ending::Failed(e) => Err(e),
            Ending::QueryError => panic!("no error to ask for"),
        };
        device.after_blocking_exchange(&out, Some(outcome))
    };
    let mut reply = BinderReturn::REPLY.to_ne_bytes().to_vec();
    incoming(&BinderObjectId::from_raw(0, 0), 0).put(&mut reply);
    assert!(
        matches!(send(&mut device, b"ping", &reply), BlockingStep::Done(Ok((77, _)))),
        "initial transaction failed"
    );
    assert!(weak.alive(&device));

    let dead = BinderReturn::DEAD_REPLY.to_ne_bytes();
    assert!(
        matches!(
            send(&mut device, b"ping again", &dead),
            BlockingStep::Done(Err(Error::DeadReply))
        ),
        "transaction to a killed context manager unexpectedly succeeded"
    );
    assert!(matches!(
        device.on_return(&ReturnMessage::DeadBinder(weak.cookie)),
        ReturnAction::Died(true, DriverCommand::DeadBinderDone(c)) if c == weak.cookie
    ));
    assert!(!weak.alive(&device));
}

#[test]
fn sender_errors() {
    assert!(matches!(to_sender_error(WriteReadError::NoDevice), Some(Error::Shutdown)));
    assert!(matches!(to_sender_error(WriteReadError::DeadReply), Some(Error::DeadReply)));
    assert!(matches!(
        to_sender_error(WriteReadError::ObjectNotFound),
        Some(Error::ObjectNotFound)
    ));
    assert!(matches!(to_sender_error(WriteReadError::FailedReply), Some(Error::Unknown(1))));
    assert!(matches!(to_sender_error(WriteReadError::FrozenReply), Some(Error::FrozenReply)));
    assert!(to_sender_error(WriteReadError::AsyncBufferFull).is_none());
    assert!(matches!(
        to_sender_error(WriteReadError::WriteReadIoctlFailed(Errno::INVAL)),
        Some(Error::Binder(Errno::INVAL))
    ));
}

#[test]
fn sending_without_waiting() {
    let mut device = BinderDevice::new();
    let payload = PayloadBuilder::new();
    let out = remote(&mut device, true, &payload);
    assert!(matches!(
        device.after_one_way_exchange(&out, Some(Err(WriteReadError::AsyncBufferFull))),
        OneWayStep::Again
    ));
    assert!(matches!(
        device.after_one_way_exchange(&out, Some(Err(WriteReadError::NoDevice))),
        OneWayStep::Done(Err(Error::Shutdown), _)
    ));
    match device.after_one_way_exchange(&out, Some(Ok((0, lent_reader())))) {
        OneWayStep::Done(Ok(()), Some(surplus)) => assert_eq!(
            surplus.release(&mut device).0,
            vec![DriverCommand::FreeBuffer(0x5000)]
        ),
        _ => panic!("the transaction is sent"),
    }
}

#[test]
fn messages_are_taken_off() {
    let mut run = Vec::new();
    run.extend_from_slice(&BinderReturn::NOOP.to_ne_bytes());
    run.extend_from_slice(&BinderReturn::ERROR.to_ne_bytes());
    run.extend_from_slice(&(-5i32).to_ne_bytes());
    run.extend_from_slice(&BinderReturn::ATTEMPT_ACQUIRE.to_ne_bytes());
    run.extend_from_slice(&1u64.to_ne_bytes());
    run.extend_from_slice(&2u64.to_ne_bytes());
    run.extend_from_slice(&0xdead_beefu32.to_ne_bytes());
    run.extend_from_slice(&BinderReturn::TRANSACTION.to_ne_bytes());
    let t = incoming(&BinderObjectId::from_raw(1, 0), 0);
    t.put(&mut run);
    run.extend_from_slice(&BinderReturn::TRANSACTION_SEC_CTX.to_ne_bytes());
    t.put(&mut run);
    run.extend_from_slice(&8u64.to_ne_bytes());
    run.extend_from_slice(&BinderReturn::DEAD_BINDER.to_ne_bytes());
    run.extend_from_slice(&[1, 2]);
    let mut stream = ReturnStream::new(run);
    assert_eq!(stream.next(), Some(ReturnMessage::Noop));
    assert_eq!(stream.next(), Some(ReturnMessage::Failure(-5)));
    let v = BinderPtrCookie { ptr: 1, cookie: 2 };
    assert_eq!(stream.next(), Some(ReturnMessage::AttemptAcquire(v)));
    assert_eq!(stream.next(), Some(ReturnMessage::Unknown(0xdead_beef)));
    assert_eq!(stream.next(), Some(ReturnMessage::Transaction(t)));
    match stream.next() {
        Some(ReturnMessage::TransactionSecCtx(v)) => {
            assert_eq!(v.transaction_data, t);
            assert_eq!(v.sec_ctx, 8);
        }
        _ => panic!("a transaction with its context"),
    }
    assert!(!stream.is_done());
    assert_eq!(stream.next(), None);
    assert!(ReturnStream::new(Vec::new()).is_done());
}

#[test]
fn messages_and_their_actions() {
    let mut device = BinderDevice::new();
    let id = device.register_object(5);
    let v = BinderPtrCookie { ptr: id.id, cookie: id.cookie };
    let t = incoming(&id, 0);
    let mut act = |m: ReturnMessage| device.on_return(&m);
    assert!(matches!(act(ReturnMessage::Noop), ReturnAction::Nothing));
    assert!(matches!(act(ReturnMessage::Transaction(t)), ReturnAction::Receive(x) if x == t));
    assert!(matches!(act(ReturnMessage::Reply(t)), ReturnAction::End(Ending::Replied(x)) if x == t));
    assert!(matches!(
        act(ReturnMessage::DeadReply),
        ReturnAction::End(Ending::Failed(WriteReadError::DeadReply))
    ));
    assert!(matches!(
        act(ReturnMessage::FrozenReply),
        ReturnAction::End(Ending::Failed(WriteReadError::FrozenReply))
    ));
    assert!(matches!(
        act(ReturnMessage::FailedReply),
        ReturnAction::End(Ending::QueryError)
    ));
    assert!(matches!(act(ReturnMessage::SpawnLooper), ReturnAction::SpawnLooper));
    assert!(matches!(
        act(ReturnMessage::IncRefs(v)),
        ReturnAction::Send(DriverCommand::IncRefsDone(x)) if x == v
    ));
    assert!(matches!(
        act(ReturnMessage::Acquire(v)),
        ReturnAction::Send(DriverCommand::AcquireDone(x)) if x == v
    ));
    assert!(matches!(act(ReturnMessage::Release(v)), ReturnAction::Nothing));
    assert!(matches!(
        act(ReturnMessage::DeadBinder(4)),
        ReturnAction::Died(false, DriverCommand::DeadBinderDone(4))
    ));
    assert!(!device.can_follow(&ReturnMessage::Release(v)));
    assert!(device.can_follow(&ReturnMessage::Acquire(v)));
}

#[test]
fn a_run_of_messages_is_followed() {
    let mut device = BinderDevice::new();
    let id = device.register_object(5);
    let mut run = Vec::new();
    for _ in 0..2 {
        run.extend_from_slice(&BinderReturn::ACQUIRE.to_ne_bytes());
        run.extend_from_slice(&id.id.to_ne_bytes());
        run.extend_from_slice(&id.cookie.to_ne_bytes());
    }
    run.extend_from_slice(&BinderReturn::RELEASE.to_ne_bytes());
    run.extend_from_slice(&id.id.to_ne_bytes());
    run.extend_from_slice(&id.cookie.to_ne_bytes());
    let mut stream = ReturnStream::new(run);
    assert!(matches!(stream.advance(&mut device), ExchangeStep::Act(ReturnAction::Send(_))));
    assert!(matches!(stream.advance(&mut device), ExchangeStep::Act(ReturnAction::Send(_))));
    assert_eq!(device.refcounts(&id).unwrap().remote_strong_count, 2);
    assert!(matches!(stream.advance(&mut device), ExchangeStep::Act(ReturnAction::Nothing)));
    assert!(matches!(stream.advance(&mut device), ExchangeStep::Finished));
    assert_eq!(device.refcounts(&id).unwrap().remote_strong_count, 1);
    let mut stream = ReturnStream::new(vec![1, 2]);
    assert!(matches!(stream.advance(&mut device), ExchangeStep::Broken));
}

#[test]
fn refused_transactions_are_answered() {
    let mut device = BinderDevice::new();
    let t = incoming(&BinderObjectId::from_raw(1, 0), 0x10);
    let empty = BinderTransactionData {
        target: TransactionTarget::from_binder(0),
        cookie: 0,
        code: 77,
        flags: TransactionFlags(0x10),
        sender_pid: 100,
        sender_euid: 200,
        data_size: 0,
        offsets_size: 0,
        data: BinderTransactionDataPtrs { buffer: 0, offsets: 0 },
    };
    match device.on_transaction(&t, b"data", &[], 100, 200) {
        Incoming::Refused(commands, files, ending) => {
            assert_eq!(
                commands,
                vec![
                    DriverCommand::FreeBuffer(0x5000),
                    DriverCommand::FreeBuffer(0x6000),
                    DriverCommand::Reply(empty),
                ]
            );
            assert!(files.is_empty());
            assert!(matches!(ending, Ending::Failed(WriteReadError::ObjectNotFound)));
        }
        _ => panic!("nobody handles it"),
    }
    let t = incoming(&BinderObjectId::from_raw(1, 0), 0x11);
    match device.on_transaction(&t, b"data", &[], 100, 200) {
        Incoming::Refused(commands, _, _) => assert_eq!(
            commands,
            vec![DriverCommand::FreeBuffer(0x5000), DriverCommand::FreeBuffer(0x6000)]
        ),
        _ => panic!("nobody handles it"),
    }
}

#[test]
fn refused_transactions_drop_their_objects() {
    let mut device = BinderDevice::new();
    let mut builder = PayloadBuilder::new();
    let weak = WeakBinderRef { id: 5, cookie: 0 };
    builder.push_port(&BinderObjectOrRef::Ref(BinderRef { weak }));
    builder.push_fd(30, 0);
    let data: &'static [u8] = Box::leak(builder.data().to_vec().into_boxed_slice());
    let places: &'static [usize] = Box::leak(builder.offsets().to_vec().into_boxed_slice());
    let t = incoming(&BinderObjectId::from_raw(1, 0), 0x11);
    match device.on_transaction(&t, data, places, 100, 200) {
        Incoming::Refused(commands, files, _) => {
            let death = BinderHandleCookie { handle: 5, cookie: 1 };
            assert_eq!(
                commands,
                vec![
                    DriverCommand::IncRefs(5),
                    DriverCommand::RequestDeathNotification(death),
                    DriverCommand::Acquire(5),
                    DriverCommand::Release(5),
                    DriverCommand::DecRefs(5),
                    DriverCommand::FreeBuffer(0x5000),
                    DriverCommand::FreeBuffer(0x6000),
                ]
            );
            assert_eq!(files, vec![30]);
        }
        _ => panic!("nobody handles it"),
    }
}

#[test]
fn the_first_ending_decides() {
    let mut device = BinderDevice::new();
    let t = incoming(&BinderObjectId::from_raw(1, 0), 0);
    let mut run = Vec::new();
    run.extend_from_slice(&BinderReturn::NOOP.to_ne_bytes());
    run.extend_from_slice(&BinderReturn::TRANSACTION_COMPLETE.to_ne_bytes());
    run.extend_from_slice(&BinderReturn::REPLY.to_ne_bytes());
    t.put(&mut run);
    run.extend_from_slice(&BinderReturn::DEAD_REPLY.to_ne_bytes());
    let mut stream = ReturnStream::new(run);
    let ending = loop {
        match stream.advance(&mut device) {
            ExchangeStep::Act(ReturnAction::End(ending)) => break ending,
            ExchangeStep::Act(_) => {}
            _ => panic!("the run has an ending"),
        }
    };
    assert!(matches!(ending, Ending::Replied(x) if x == t));
}

#[test]
fn transactions_reach_their_handlers() {
    let mut device = BinderDevice::new();
    let id = device.register_object(44);
    let t = incoming(&id, 0);
    match device.on_transaction(&t, b"data", &[], 100, 200) {
        Incoming::TwoWay(slot, mut transaction) => {
            assert_eq!(slot, 44);
            assert_eq!((transaction.code, transaction.sender_pid, transaction.sender_euid),
                (77, 11, 12));
            assert_eq!(transaction.payload.read_bytes(4).unwrap(), b"data");
        }
        _ => panic!("someone waits"),
    }
    let t = incoming(&id, TransactionFlags::ONE_WAY);
    assert!(matches!(
        device.on_transaction(&t, b"data", &[], 100, 200),
        Incoming::OneWay(44, _)
    ));
    let (code, mut reader) = on_reply(&t, b"data", &[]);
    assert_eq!(code, 77);
    assert_eq!(reader.read_bytes(4).unwrap(), b"data");
    assert_eq!(lent_places(&BinderTransactionData { offsets_size: 17, ..t }), 2);
}

#[test]
fn replies_are_framed_and_rolled_back() {
    let mut device = BinderDevice::new();
    let id = device.register_object(44);
    let t = incoming(&id, 0x20);
    let mut payload = PayloadBuilder::new();
    payload.push_port(&BinderObjectOrRef::Object(UntypedBinderObject(id)));
    let sent = device.reply(&t, &payload, 100, 200);
    assert_eq!((sent.reply.code, sent.reply.flags), (77, TransactionFlags(0x20)));
    assert_eq!((sent.reply.sender_pid, sent.reply.sender_euid), (100, 200));
    assert_eq!(sent.reply.data_size, payload.data_buffer_len() as u64);
    assert_eq!(sent.reply.offsets_size, 8);
    assert_eq!(sent.reply.data.buffer, payload.data().as_ptr() as u64);
    assert_eq!(sent.bytes(), DriverCommand::Reply(sent.reply).encode());
    assert!(device.refcounts(&id).unwrap().new_in_remote);
    let surplus = device.after_reply_exchange(&sent, Some(Ok((0, lent_reader()))));
    assert_eq!(
        surplus.unwrap().release(&mut device).0,
        vec![DriverCommand::FreeBuffer(0x5000)]
    );
    assert!(device.refcounts(&id).unwrap().new_in_remote);
    device.after_reply_exchange(&sent, Some(Err(WriteReadError::NoDevice)));
    assert!(!device.refcounts(&id).unwrap().new_in_remote);
}

#[test]
fn failed_replies() {
    let full = BinderExtendedError {
        id: 0,
        command: 0,
        param: -Errno::NOSPC.raw_os_error(),
    };
    assert_eq!(failed_reply(&full), WriteReadError::AsyncBufferFull);
    let other = BinderExtendedError { id: 0, command: 0, param: -22 };
    assert_eq!(failed_reply(&other), WriteReadError::FailedReply);
}

#[test]
fn exchanges_start_or_fail() {
    assert_eq!(exchange_started(None, true), Ok(()));
    assert_eq!(exchange_started(None, false), Err(WriteReadError::NoDevice));
    assert_eq!(
        exchange_started(Some(Errno::BADF), false),
        Err(WriteReadError::WriteReadIoctlFailed(Errno::BADF))
    );
    assert_eq!(
        exchange_request(1, 2, 3),
        BinderWriteRead {
            write_size: 2,
            write_consumed: 0,
            write_buffer: 1,
            read_size: 256,
            read_consumed: 0,
            read_buffer: 3,
        }
    );
}

#[test]
fn loopers() {
    assert_eq!(looper_start(true), DriverCommand::RegisterLooper);
    assert_eq!(looper_start(false), DriverCommand::EnterLooper);
    assert!(matches!(looper_step(None), LooperStep::Again(None)));
    assert!(matches!(
        looper_step(Some(Err(WriteReadError::DeadReply))),
        LooperStep::Again(None)
    ));
    assert!(matches!(
        looper_step(Some(Err(WriteReadError::NoDevice))),
        LooperStep::Leave(DriverCommand::ExitLooper)
    ));
    let mut device = BinderDevice::new();
    match looper_step(Some(Ok((0, lent_reader())))) {
        LooperStep::Again(Some(surplus)) => assert_eq!(
            surplus.release(&mut device).0,
            vec![DriverCommand::FreeBuffer(0x5000)]
        ),
        _ => panic!("the looper goes on"),
    }
}
