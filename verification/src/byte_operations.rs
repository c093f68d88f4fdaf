//! What the operations on payloads, commands and texts do, said of what they are given and of
//! what they give.
use crate::binder_object::{BinderObjectId, BinderObjectOrRef};
use crate::command::{encode_all, DriverCommand};
use crate::device::BinderDevice;
use crate::payload::{
    BinderObjectType, PayloadBuilder, PayloadBytesReadError, PayloadObjectReadError,
    PayloadPortReadError, PayloadReader, PayloadReaderBuffer,
};
use crate::sys::{
    BinderFdObject, BinderTransactionData, FlatBinderObject, RawFd, TransactionFlags,
};
use crate::transaction::{reply_fits, BinderObject, BinderObjectEntry, Payload, TransactionData};
use vstd::prelude::*;

verus! {

use crate::binder_object::{ports_in_memory, UntypedBinderObject};
use crate::binder_ref::BinderRef;
use crate::command::{commands_are_told_apart, commands_in_memory, streams_join};
use crate::payload::{
    buffer_object, bytes_lie_at, draining_keeps_shares, fd_array_object, fd_object,
    files_are_replaced_in_place, first_from, objects_are_dropped_in_order, objects_in_memory,
    type_at, zeros, PayloadView, ReaderView, OBJECT_ALIGN,
};
use crate::services::{holds, references, releasing_drops_each_reference};
use crate::transaction::{
    built_is_read_back, built_length, built_objects_are_read_back, entries_of, entry_of,
    files_among, objects_are_sent_by_type, reply_flats, reply_object_at, reply_place,
};
use crate::wire::{first_word, le_u32_at, le_u64_at, signed, u32_at, u64_at};

/// Whether what is in a payload was kept, and something was added behind it: zeros up to where an
/// object may lie, and then an object, whose place is noted. Where the bytes before it lie, the
/// object is at a multiple of eight.
pub open spec fn object_added(p: PayloadView, q: PayloadView, object: Seq<u8>) -> bool {
    let at = q.data.len() - object.len();
    &&& p.data.len() <= at
    &&& q.data.subrange(0, p.data.len() as int) == p.data
    &&& forall|i: int| p.data.len() <= i < at ==> #[trigger] q.data[i] == 0
    &&& q.data.subrange(at, q.data.len() as int) == object
    &&& q.offsets.len() == p.offsets.len() + 1
    &&& q.offsets.drop_last() == p.offsets
    &&& q.offsets.last() == at
    &&& exists|address: usize|
        #![trigger bytes_lie_at(q.data.subrange(0, at), address as u64)]
        bytes_lie_at(q.data.subrange(0, at), address as u64) && (address + at) % 8 == 0
}

proof fn lemma_object_added(p: PayloadView, q: PayloadView, seen: Seq<usize>, object: Seq<u8>)
    requires
        q == p.padded(seen).with_object(object),
        q.data.len() <= usize::MAX,
        p.aligns_over(seen, OBJECT_ALIGN),
    ensures
        object_added(p, q, object),
{
    let at = q.data.len() - object.len();
    assert(q.data.subrange(0, p.data.len() as int) =~= p.data);
    assert(q.data.subrange(at, q.data.len() as int) =~= object);
    assert(q.offsets.drop_last() =~= p.offsets);
    let last = seen.len() - 1;
    assert(q.data.subrange(0, at) =~= p.data + zeros(last as nat));
    assert(bytes_lie_at(q.data.subrange(0, at), seen[last] as u64));
}

/// A new payload is empty, and bytes that are put into it stand at its end.
pub proof fn bytes_are_put_at_the_end<'a>(
    fresh: PayloadBuilder<'a>,
    builder: &mut PayloadBuilder<'a>,
    bytes: &[u8],
    data: &[u8],
    places: &[usize],
)
    requires
        call_ensures(PayloadBuilder::<'a>::new, (), fresh),
        call_ensures(PayloadBuilder::<'a>::push_bytes, (builder, bytes), ()),
        call_ensures(PayloadBuilder::<'a>::data, (&*final(builder),), data),
        call_ensures(PayloadBuilder::<'a>::offsets, (&*final(builder),), places),
    ensures
        fresh@.data.len() == 0,
        fresh@.offsets.len() == 0,
        fresh.files().len() == 0,
        fresh.services().len() == 0,
        data@.len() == old(builder)@.data.len() + bytes@.len(),
        data@.subrange(0, old(builder)@.data.len() as int) == old(builder)@.data,
        data@.subrange(old(builder)@.data.len() as int, data@.len() as int) == bytes@,
        places@ == old(builder)@.offsets,
        final(builder).files() == old(builder).files(),
        final(builder).services() == old(builder).services(),
{
    let p = old(builder)@;
    assert(data@.subrange(0, p.data.len() as int) =~= p.data);
    assert(data@.subrange(p.data.len() as int, data@.len() as int) =~= bytes@);
}

/// A port that is put into a payload is there as the object that names it.
pub proof fn ports_are_put_into_payloads<'a>(
    builder: &mut PayloadBuilder<'a>,
    port: &BinderObjectOrRef,
    flat: FlatBinderObject,
)
    requires
        call_ensures(PayloadBuilder::<'a>::push_port, (builder, port), ()),
        call_ensures(BinderObjectOrRef::get_flat_binder_object, (port,), flat),
    ensures
        object_added(old(builder)@, final(builder)@, flat.bytes()),
        flat.bytes().len() == 24,
        final(builder).files() == old(builder).files(),
        final(builder).services() == old(builder).services(),
{
    ports_in_memory(*port);
    let seen = choose|seen: Seq<usize>| #[trigger]
        old(builder)@.aligns_over(seen, OBJECT_ALIGN) && final(builder)@ == old(
            builder
        )@.padded(seen).with_object(port.flat().bytes());
    lemma_object_added(old(builder)@, final(builder)@, seen, flat.bytes());
}

/// A service that is put into a payload is there as the object that names it, and as long as it
/// is kept for those who refer to it, the payload has a reference to it, which is counted.
pub proof fn services_are_put_into_payloads<'a>(
    builder: &mut PayloadBuilder<'a>,
    device: &mut BinderDevice,
    id: &BinderObjectId,
    object: Seq<u8>,
)
    requires
        old(device)@.wf(),
        call_ensures(PayloadBuilder::<'a>::push_service, (builder, device, id), ()),
        object == final(builder)@.data.subrange(
            final(builder)@.data.len() - 24,
            final(builder)@.data.len() as int,
        ),
    ensures
        object_added(old(builder)@, final(builder)@, object),
        u32_at(object, 0) == 0x7362_2a85,
        u32_at(object, 4) == 0x100,
        u64_at(object, 8) == id.id,
        u64_at(object, 16) == id.cookie,
        final(builder).files() == old(builder).files(),
        ({
            let key = (id.id, id.cookie);
            let (d, e) = (old(device)@, final(device)@);
            if d.retained_services.dom().contains(key) {
                &&& final(builder).services() == old(builder).services().push(*id)
                &&& d.object_refcounts[key].strong_count < u32::MAX
                    ==> e.object_refcounts[key].local_strong_count
                    == d.object_refcounts[key].local_strong_count + 1
                &&& e.objects == d.objects && e.retained_services == d.retained_services
            } else {
                final(builder).services() == old(builder).services() && e == d
            }
        }),
{
    let port = BinderObjectOrRef::Object(UntypedBinderObject(*id));
    ports_in_memory(port);
    let seen = choose|seen: Seq<usize>| #[trigger]
        old(builder)@.aligns_over(seen, OBJECT_ALIGN) && final(builder)@ == old(
            builder
        )@.padded(seen).with_object(port.flat().bytes());
    lemma_object_added(old(builder)@, final(builder)@, seen, port.flat().bytes());
    assert(old(device)@.object_refcounts.dom().contains((id.id, id.cookie))
        ==> old(device)@.object_refcounts[(id.id, id.cookie)].wf());
    assert(old(device)@.retained_services.dom().contains((id.id, id.cookie))
        ==> old(device)@.object_refcounts.dom().contains((id.id, id.cookie)));
}

/// Whether the bytes of an object are those of an open file.
pub open spec fn names_file(object: Seq<u8>, fd: RawFd, cookie: u64) -> bool {
    &&& object.len() == 24
    &&& u32_at(object, 0) == 0x6664_2a85
    &&& u32_at(object, 4) == 0
    &&& signed(first_word(u64_at(object, 8))) == fd
    &&& u64_at(object, 16) == cookie
}

/// An open file that is put into a payload is there as the object that names it. The payload
/// keeps it open exactly if it was handed over.
pub proof fn files_are_put_into_payloads<'a>(
    builder: &mut PayloadBuilder<'a>,
    fd: RawFd,
    cookie: u64,
    handed_over: bool,
)
    requires
        if handed_over {
            call_ensures(PayloadBuilder::<'a>::push_owned_fd, (builder, fd, cookie), ())
        } else {
            call_ensures(PayloadBuilder::<'a>::push_fd, (builder, fd, cookie), ())
        },
    ensures
        exists|object: Seq<u8>| #[trigger]
            object_added(old(builder)@, final(builder)@, object) && names_file(object, fd, cookie),
        final(builder).files() == (if handed_over {
            old(builder).files().push(fd)
        } else {
            old(builder).files()
        }),
        final(builder).services() == old(builder).services(),
{
    let object = fd_object(fd, cookie).bytes();
    objects_in_memory(fd, cookie, 0, 0, 0);
    let seen = choose|seen: Seq<usize>| #[trigger]
        old(builder)@.aligns_over(seen, OBJECT_ALIGN) && final(builder)@ == old(
            builder
        )@.padded(seen).with_object(object);
    lemma_object_added(old(builder)@, final(builder)@, seen, object);
}

/// Whether the bytes of an object are those of a buffer.
pub open spec fn names_buffer(
    object: Seq<u8>,
    address: u64,
    length: int,
    parent: u64,
    parent_offset: u64,
) -> bool {
    &&& object.len() == 40
    &&& u32_at(object, 0) == 0x7074_2a85
    &&& u32_at(object, 4) == 0
    &&& u64_at(object, 8) == address
    &&& u64_at(object, 16) == length
    &&& u64_at(object, 24) == parent
    &&& u64_at(object, 32) == parent_offset
}

/// A buffer that is put into a payload is there as an object that says where its bytes lie and
/// how many they are, and, if it hangs on another one, on which and where. Its place is given
/// back.
pub proof fn buffers_are_put_into_payloads<'a>(
    builder: &mut PayloadBuilder<'a>,
    bytes: &'a [u8],
    parent: u64,
    parent_offset: u64,
    child: bool,
    offset: usize,
)
    requires
        if child {
            call_ensures(
                PayloadBuilder::<'a>::push_child_buffer,
                (builder, bytes, parent, parent_offset),
                offset,
            )
        } else {
            parent == 0 && parent_offset == 0 && call_ensures(
                PayloadBuilder::<'a>::push_buffer,
                (builder, bytes),
                offset,
            )
        },
        bytes@.len() <= u64::MAX,
    ensures
        exists|object: Seq<u8>, address: u64|
            #![trigger names_buffer(object, address, bytes@.len() as int, parent, parent_offset)]
            object_added(old(builder)@, final(builder)@, object) && names_buffer(
                object,
                address,
                bytes@.len() as int,
                parent,
                parent_offset,
            ) && bytes_lie_at(bytes@, address),
        offset == final(builder)@.offsets.last(),
        final(builder).files() == old(builder).files(),
        final(builder).services() == old(builder).services(),
{
    let length = bytes@.len() as u64;
    let (seen, address) = choose|seen: Seq<usize>, address: u64| #[trigger]
        old(builder)@.aligns_over(seen, OBJECT_ALIGN) && bytes_lie_at(
            bytes@,
            address,
        ) && final(builder)@ == old(builder)@.padded(seen).with_object(
            (#[trigger] buffer_object(address, length, parent, parent_offset)).bytes(),
        );
    let object = buffer_object(address, length, parent, parent_offset).bytes();
    objects_in_memory(0, address, length, parent, parent_offset);
    lemma_object_added(old(builder)@, final(builder)@, seen, object);
    assert(names_buffer(object, address, bytes@.len() as int, parent, parent_offset));
}

/// A payload is read in this process from the start, as long as it is and with the places that
/// it has. Without open files among its objects it is read as it is.
pub proof fn payloads_are_read_in_this_process<'a>(
    builder: &PayloadBuilder<'a>,
    duplicates: &[RawFd],
    files: Vec<RawFd>,
    reader: PayloadReader,
    at: usize,
)
    requires
        builder@.wf(),
        call_ensures(PayloadBuilder::<'a>::files_among_objects, (builder,), files),
        call_ensures(PayloadReader::from_builder, (builder, duplicates), reader),
        call_ensures(PayloadReader::position, (&reader,), at),
    ensures
        reader@.data.len() == builder@.data.len(),
        files@.len() == 0 ==> reader@.data == builder@.data,
        reader@.offsets == Some(builder@.offsets),
        reader@.next_offset_index == 0,
        reader.to_free().len() == 0,
        at == 0,
{
    files_are_replaced_in_place(builder@, duplicates@);
}

/// What the driver lent is read from the start, and is to be given back by its addresses. Where
/// there are no places, there are no objects.
pub proof fn lent_payloads_are_read_from_the_start(
    data: &'static [u8],
    data_address: u64,
    offsets: &'static [usize],
    offsets_address: u64,
    reader: PayloadReader,
    at: usize,
)
    requires
        call_ensures(
            PayloadReader::from_kernel_raw,
            (data, data_address, offsets, offsets_address),
            reader,
        ),
        call_ensures(PayloadReader::position, (&reader,), at),
    ensures
        reader@.data == data@,
        offsets_address == 0 ==> reader@.offsets is None && reader.to_free() == seq![
            DriverCommand::FreeBuffer(data_address),
        ],
        offsets_address != 0 ==> reader@.offsets == Some(offsets@) && reader.to_free() == seq![
            DriverCommand::FreeBuffer(data_address),
            DriverCommand::FreeBuffer(offsets_address),
        ],
        reader@.next_offset_index == 0,
        at == 0,
{
}

/// Whether no object that has not been read starts before `end`, at the cursor or behind it.
pub open spec fn clear_up_to(reader: ReaderView, end: int) -> bool {
    forall|i: int|
        0 <= i < reader.unread().len() && #[trigger] reader.unread()[i] >= reader.next_data_index
            ==> reader.unread()[i] >= end
}

proof fn lemma_first_from(offsets: Seq<usize>, at: usize)
    ensures
        first_from(offsets, at) matches Some(target) ==> offsets.contains(target) && target >= at,
        first_from(offsets, at) is None ==> forall|i: int|
            0 <= i < offsets.len() ==> #[trigger] offsets[i] < at,
    decreases offsets.len(),
{
    if offsets.len() > 0 && offsets[0] < at {
        let rest = offsets.drop_first();
        lemma_first_from(rest, at);
        if let Some(target) = first_from(rest, at) {
            let i = choose|i: int| 0 <= i < rest.len() && rest[i] == target;
            assert(offsets[i + 1] == target);
        } else {
            assert forall|i: int| 0 <= i < offsets.len() implies #[trigger] offsets[i] < at by {
                if i > 0 {
                    assert(rest[i - 1] == offsets[i]);
                }
            }
        }
    } else if offsets.len() > 0 {
        assert(offsets[0] == first_from(offsets, at)->0);
    }
}

/// Bytes are read from the cursor on, and the cursor moves behind them. They are refused, and
/// the cursor stays, where they would reach past the end or into an object.
pub proof fn bytes_are_read_from_the_cursor(
    reader: &mut PayloadReader,
    n: usize,
    r: Result<&[u8], PayloadBytesReadError>,
)
    requires
        old(reader)@.wf(),
        old(reader)@.next_data_index + n <= usize::MAX,
        call_ensures(PayloadReader::read_bytes, (reader, n), r),
    ensures
        ({
            let at = old(reader)@.next_data_index as int;
            &&& r matches Ok(bytes) ==> {
                &&& at + n <= old(reader)@.data.len()
                &&& bytes@ == old(reader)@.data.subrange(at, at + n)
                &&& final(reader)@.next_data_index == at + n
                &&& final(reader)@.next_offset_index == old(reader)@.next_offset_index
            }
            &&& r is Err ==> final(reader)@ == old(reader)@
            &&& r matches Err(e) ==> (e is OutOfBounds ==> at + n > old(reader)@.data.len())
            &&& at + n > old(reader)@.data.len() ==> r is Err
            &&& clear_up_to(old(reader)@, at + n) && at + n <= old(reader)@.data.len() ==> r is Ok
            &&& clear_up_to(old(reader)@, at + n) && r is Err ==> r->Err_0 is OutOfBounds
        }),
        final(reader)@.data == old(reader)@.data,
        final(reader)@.offsets == old(reader)@.offsets,
        final(reader).to_free() == old(reader).to_free(),
{
    let view = old(reader)@;
    lemma_first_from(view.unread(), view.next_data_index);
    if let Some(target) = view.next_target() {
        let i = choose|i: int| 0 <= i < view.unread().len() && view.unread()[i] == target;
        assert(view.unread()[i] >= view.next_data_index);
    }
}

/// A port is read as what its object says: its type decides which of the four kinds it is, and
/// its words where transactions to it go. Only a local object that is not registered is refused.
/// The cursor moves behind it, and stays where it is refused.
pub proof fn ports_are_read_as_they_are(
    reader: &mut PayloadReader,
    device: &mut BinderDevice,
    r: Result<(BinderObjectOrRef, Vec<DriverCommand>), PayloadPortReadError>,
)
    requires
        old(reader)@.wf(),
        old(reader)@.port_fits(),
        call_ensures(PayloadReader::read_port, (reader, device), r),
    ensures
        r is Err ==> final(reader)@ == old(reader)@ && final(device)@ == old(device)@,
        old(reader)@.next_offset() is None <==> (r matches Err(e) && e is Empty),
        old(reader)@.next_offset() matches Some(offset) ==> {
            let o = offset as int;
            let s = old(reader)@.data;
            let type_ = u32_at(s, o);
            &&& r matches Ok((port, _)) ==> {
                &&& match port {
                    BinderObjectOrRef::Object(v) => type_ == 0x7362_2a85 && v.0.id == u64_at(
                        s,
                        o + 8,
                    ) && v.0.cookie == u64_at(s, o + 16) && old(device)@.objects.dom().contains(
                        (v.0.id, v.0.cookie),
                    ) && final(device)@ == old(device)@,
                    BinderObjectOrRef::WeakObject(v) => type_ == 0x7762_2a85 && v.id.id == u64_at(
                        s,
                        o + 8,
                    ) && v.id.cookie == u64_at(s, o + 16) && final(device)@ == old(device)@,
                    BinderObjectOrRef::Ref(v) => type_ == 0x7368_2a85 && v.weak.id == first_word(
                        u64_at(s, o + 8),
                    ),
                    BinderObjectOrRef::WeakRef(v) => type_ == 0x7768_2a85 && v.id == first_word(
                        u64_at(s, o + 8),
                    ),
                }
                &&& final(reader)@.next_data_index == o + 24
                &&& final(reader)@.next_offset_index == old(reader)@.next_offset_index + 1
            }
            &&& r matches Err(e) ==> if type_ == 0x7362_2a85 {
                e is UnknownOwnedPort && !old(device)@.objects.dom().contains(
                    (u64_at(s, o + 8), u64_at(s, o + 16)),
                )
            } else {
                e is IncorrectObject && type_ != 0x7762_2a85 && type_ != 0x7368_2a85 && type_
                    != 0x7768_2a85
            }
        },
        final(reader)@.data == old(reader)@.data,
        final(reader)@.offsets == old(reader)@.offsets,
        final(reader).to_free() == old(reader).to_free(),
{
    if let Some(offset) = old(reader)@.next_offset() {
        let o = offset as int;
        let s = old(reader)@.data;
        if o + 24 <= s.len() {
            let flat = s.subrange(o, o + 24);
            assert(flat.subrange(0, 4) =~= s.subrange(o, o + 4));
            assert(flat.subrange(8, 16) =~= s.subrange(o + 8, o + 16));
            assert(flat.subrange(16, 24) =~= s.subrange(o + 16, o + 24));
        }
    }
}

/// An open file is read as its object says, with its cookie. The cursor moves behind it, and
/// stays where there is none.
pub proof fn files_are_read_as_they_are(
    reader: &mut PayloadReader,
    r: Result<(RawFd, u64), PayloadObjectReadError>,
)
    requires
        old(reader)@.wf(),
        old(reader)@.fd_fits(),
        call_ensures(PayloadReader::read_fd, (reader,), r),
    ensures
        r is Err ==> final(reader)@ == old(reader)@,
        old(reader)@.next_offset() is None <==> (r matches Err(e) && e is Empty),
        old(reader)@.next_offset() matches Some(offset) ==> {
            let o = offset as int;
            let s = old(reader)@.data;
            &&& r is Ok <==> u32_at(s, o) == 0x6664_2a85
            &&& r matches Ok((fd, cookie)) ==> {
                &&& fd == signed(first_word(u64_at(s, o + 8)))
                &&& cookie == u64_at(s, o + 16)
                &&& final(reader)@.next_data_index == o + 24
                &&& final(reader)@.next_offset_index == old(reader)@.next_offset_index + 1
            }
            &&& r matches Err(e) ==> e is IncorrectObject
        },
        final(reader)@.data == old(reader)@.data,
        final(reader)@.offsets == old(reader)@.offsets,
        final(reader).to_free() == old(reader).to_free(),
{
    if let Some(offset) = old(reader)@.next_offset() {
        let o = offset as int;
        let s = old(reader)@.data;
        if o + 24 <= s.len() {
            let object = s.subrange(o, o + 24);
            assert(object.subrange(8, 16) =~= s.subrange(o + 8, o + 16));
            assert(object.subrange(16, 24) =~= s.subrange(o + 16, o + 24));
        }
    }
}

/// What is next is said truly: the kind of the next object goes by its type, and as many bytes
/// as are announced before it can be read, and not one more if there is an object.
pub proof fn what_is_next_is_said(
    reader: &PayloadReader,
    kind: Option<BinderObjectType>,
    distance: usize,
)
    requires
        reader@.wf(),
        call_ensures(PayloadReader::next_object_type, (reader,), kind),
        call_ensures(PayloadReader::bytes_until_next_obj, (reader,), distance),
    ensures
        reader@.next_offset() is None ==> kind is None,
        reader@.next_offset() matches Some(offset) ==> {
            let type_ = u32_at(reader@.data, offset as int);
            &&& kind == Some(BinderObjectType::OwnedPort) <==> type_ == 0x7362_2a85
            &&& kind == Some(BinderObjectType::WeakOwnedPort) <==> type_ == 0x7762_2a85
            &&& kind == Some(BinderObjectType::PortHandle) <==> type_ == 0x7368_2a85
            &&& kind == Some(BinderObjectType::WeakPortHandle) <==> type_ == 0x7768_2a85
            &&& kind == Some(BinderObjectType::Fd) <==> type_ == 0x6664_2a85
            &&& kind == Some(BinderObjectType::FdArray) <==> type_ == 0x6664_6185
            &&& kind == Some(BinderObjectType::Buffer) <==> type_ == 0x7074_2a85
        },
        reader@.unread().len() == 0 ==> reader@.next_data_index + distance == reader@.data.len(),
        reader@.unread().len() > 0 && reader@.unread()[0] >= reader@.next_data_index
            ==> reader@.next_data_index + distance == reader@.unread()[0],
{
}

/// Ending a reader gives its buffers back, after what dropping the unread objects asks for. No
/// share of a reference is left over, and the open files among the unread objects are handed out
/// to be closed. After everything was read there is nothing else to do.
pub proof fn ended_readers_give_everything_back(
    device: &mut BinderDevice,
    reader: PayloadReader,
    handle: u32,
    r: (Vec<DriverCommand>, Vec<RawFd>),
)
    requires
        old(device)@.wf(),
        call_ensures(PayloadReader::release, (reader, device), r),
    ensures
        final(device)@.strong(handle) == old(device)@.strong(handle),
        final(device)@.weak(handle) == old(device)@.weak(handle),
        final(device)@.objects == old(device)@.objects,
        final(device)@.object_refcounts == old(device)@.object_refcounts,
        r.0@.len() >= reader.to_free().len(),
        r.0@.subrange(r.0@.len() - reader.to_free().len(), r.0@.len() as int) == reader.to_free(),
        reader@.unread().len() == 0 ==> r.0@ == reader.to_free() && r.1@.len() == 0
            && final(device)@ == old(device)@,
        reader@.unread().len() == 1 && u32_at(reader@.data, reader@.unread()[0] as int)
            == 0x6664_2a85 && reader@.unread()[0] + 24 <= reader@.data.len() ==> r.1@ == seq![
            signed(first_word(u64_at(reader@.data, reader@.unread()[0] + 8))),
        ],
{
    let view = reader@;
    let told = view.ended(old(device)@).1;
    draining_keeps_shares(view.data, view.unread(), old(device)@);
    assert(r.0@.subrange(told.len() as int, r.0@.len() as int) =~= reader.to_free());
    if view.unread().len() == 0 {
        assert(r.0@ =~= reader.to_free());
    }
    if view.unread().len() == 1 {
        let o = view.unread()[0];
        assert(view.unread() =~= seq![o]);
        objects_are_dropped_in_order(view.data, Seq::empty(), Seq::empty(), o, old(device)@);
        if o + 24 <= view.data.len() {
            let object = view.data.subrange(o as int, o + 24);
            assert(object.subrange(0, 4) =~= view.data.subrange(o as int, o + 4));
            assert(object.subrange(8, 16) =~= view.data.subrange(o + 8, o + 16));
        }
    }
}

/// A command is written behind what is there: its own number, and its fields. Two different
/// commands are written differently.
pub proof fn commands_are_written(
    c: &DriverCommand,
    out: &mut Vec<u8>,
    other: &DriverCommand,
    encoded: Vec<u8>,
    commands: &[DriverCommand],
    all: Vec<u8>,
)
    requires
        call_ensures(DriverCommand::put, (c, out), ()),
        call_ensures(DriverCommand::encode, (other,), encoded),
        call_ensures(encode_all, (commands,), all),
    ensures
        ({
            let n = old(out)@.len() as int;
            let written = final(out)@.subrange(n, final(out)@.len() as int);
            &&& final(out)@.subrange(0, n) == old(out)@
            &&& written == encoded@ <==> *c == *other
            &&& commands@.len() == 0 ==> all@.len() == 0
            &&& commands@ == seq![*c] ==> all@ == written
            &&& commands@ == seq![*c, *other] ==> all@ == written + encoded@
            &&& match *c {
                DriverCommand::Transaction(t) => u32_at(written, 0) == 0x4040_6300 && written.len()
                    == 68 && BinderTransactionData::decoded(written.subrange(4, 68)) == t,
                DriverCommand::Reply(t) => u32_at(written, 0) == 0x4040_6301 && written.len() == 68
                    && BinderTransactionData::decoded(written.subrange(4, 68)) == t,
                DriverCommand::FreeBuffer(v) => u32_at(written, 0) == 0x4008_6303 && written.len()
                    == 12 && u64_at(written, 4) == v,
                DriverCommand::IncRefs(v) => u32_at(written, 0) == 0x4004_6304 && written.len() == 8
                    && u32_at(written, 4) == v,
                DriverCommand::Acquire(v) => u32_at(written, 0) == 0x4004_6305 && written.len() == 8
                    && u32_at(written, 4) == v,
                DriverCommand::Release(v) => u32_at(written, 0) == 0x4004_6306 && written.len() == 8
                    && u32_at(written, 4) == v,
                DriverCommand::DecRefs(v) => u32_at(written, 0) == 0x4004_6307 && written.len() == 8
                    && u32_at(written, 4) == v,
                DriverCommand::IncRefsDone(v) => u32_at(written, 0) == 0x4010_6308 && written.len()
                    == 20 && u64_at(written, 4) == v.ptr && u64_at(written, 12) == v.cookie,
                DriverCommand::AcquireDone(v) => u32_at(written, 0) == 0x4010_6309 && written.len()
                    == 20 && u64_at(written, 4) == v.ptr && u64_at(written, 12) == v.cookie,
                DriverCommand::RegisterLooper => u32_at(written, 0) == 0x630b && written.len() == 4,
                DriverCommand::EnterLooper => u32_at(written, 0) == 0x630c && written.len() == 4,
                DriverCommand::ExitLooper => u32_at(written, 0) == 0x630d && written.len() == 4,
                DriverCommand::RequestDeathNotification(v) => u32_at(written, 0) == 0x4010_630e
                    && written.len() == 20 && u32_at(written, 4) == v.handle && u64_at(written, 12)
                    == v.cookie,
                DriverCommand::DeadBinderDone(v) => u32_at(written, 0) == 0x4008_6310
                    && written.len() == 12 && u64_at(written, 4) == v,
            }
        }),
{
    let n = old(out)@.len() as int;
    let written = final(out)@.subrange(n, final(out)@.len() as int);
    assert(written =~= c.bytes());
    assert(final(out)@.subrange(0, n) =~= old(out)@);
    commands_in_memory(*c);
    if c.bytes() == other.bytes() {
        commands_are_told_apart(*c, *other);
    }
    streams_join(seq![*c], seq![*other], *c);
    streams_join(seq![*c], seq![*other], *other);
    assert(seq![*c] + seq![*other] =~= seq![*c, *other]);
    if commands@.len() == 0 {
        assert(commands@ =~= Seq::empty());
    }
}

/// Padding is zeros only, and the least that makes the payload end at an address that is a
/// multiple of what was asked for.
pub proof fn padding_is_zeros<'a>(builder: &mut PayloadBuilder<'a>, align: usize)
    requires
        old(builder)@.wf(),
        align > 0,
        call_ensures(PayloadBuilder::<'a>::align, (builder, align), ()),
    ensures
        ({
            let (p, q) = (old(builder)@, final(builder)@);
            &&& p.data.len() <= q.data.len()
            &&& q.data.subrange(0, p.data.len() as int) == p.data
            &&& forall|i: int| p.data.len() <= i < q.data.len() ==> #[trigger] q.data[i] == 0
            &&& q.offsets == p.offsets
            &&& exists|address: usize| #[trigger]
                bytes_lie_at(q.data, address as u64) && (address + q.data.len()) % align as int == 0
        }),
        final(builder).files() == old(builder).files(),
        final(builder).services() == old(builder).services(),
{
    let (p, q) = (old(builder)@, final(builder)@);
    let seen = choose|seen: Seq<usize>| #[trigger]
        p.aligns_over(seen, align) && q == p.padded(seen);
    assert(q.data.subrange(0, p.data.len() as int) =~= p.data);
    let last = seen.len() - 1;
    assert(bytes_lie_at(q.data, seen[last] as u64));
}

/// Open files in an array are put into a payload as one object, which says how many they are and
/// in which buffer they stand, and where.
pub proof fn file_arrays_are_put_into_payloads<'a>(
    builder: &mut PayloadBuilder<'a>,
    num_fds: u64,
    parent: u64,
    parent_offset: u64,
)
    requires
        call_ensures(
            PayloadBuilder::<'a>::push_fd_array,
            (builder, num_fds, parent, parent_offset),
            (),
        ),
    ensures
        exists|object: Seq<u8>| #[trigger]
            object_added(old(builder)@, final(builder)@, object) && object.len() == 32 && u32_at(
                object,
                0,
            ) == 0x7074_2a85 && u64_at(object, 8) == num_fds && u64_at(object, 16) == parent
                && u64_at(object, 24) == parent_offset,
        final(builder).files() == old(builder).files(),
        final(builder).services() == old(builder).services(),
{
    let object = fd_array_object(num_fds, parent, parent_offset).bytes();
    objects_in_memory(0, num_fds, parent, parent_offset, 0);
    let seen = choose|seen: Seq<usize>| #[trigger]
        old(builder)@.aligns_over(seen, OBJECT_ALIGN) && final(builder)@ == old(
            builder
        )@.padded(seen).with_object(object);
    lemma_object_added(old(builder)@, final(builder)@, seen, object);
}

/// A payload that is released gives up each reference to a service that it has, and changes
/// nothing else.
pub proof fn released_payloads_give_their_services_up<'a>(
    builder: PayloadBuilder<'a>,
    device: &mut BinderDevice,
    key: (u64, u64),
)
    requires
        old(device)@.wf(),
        holds(builder.services(), old(device)@),
        call_ensures(PayloadBuilder::<'a>::release, (builder, device), ()),
    ensures
        ({
            let (d, e) = (old(device)@, final(device)@);
            let (s, t) = (d.object_refcounts[key], e.object_refcounts[key]);
            &&& e.objects == d.objects && e.retained_services == d.retained_services
            &&& e.refs == d.refs && e.weak_refs == d.weak_refs
            &&& e.object_refcounts.dom() == d.object_refcounts.dom()
            &&& d.object_refcounts.dom().contains(key) ==> {
                &&& t.local_strong_count == s.local_strong_count - references(
                    builder.services(),
                    key,
                )
                &&& t.remote_strong_count == s.remote_strong_count
                &&& t.new_in_remote == s.new_in_remote
            }
        }),
        builder.services().len() == 0 ==> final(device)@ == old(device)@,
{
    releasing_drops_each_reference(builder.services(), old(device)@, key);
    if old(device)@.object_refcounts.dom().contains(key) {
        assert(old(device)@.object_refcounts[key].wf());
        if references(builder.services(), key) > 0 {
            assert(old(device)@.retained_services.dom().contains(key));
        }
    }
}

/// Whether there are buffers in a payload is said truly: some object has their type.
pub proof fn buffers_are_noticed<'a>(builder: &PayloadBuilder<'a>, r: bool)
    requires
        call_ensures(PayloadBuilder::<'a>::contains_buffers, (builder,), r),
    ensures
        r <==> exists|i: int|
            0 <= i < builder@.offsets.len() && u32_at(
                builder@.data,
                #[trigger] builder@.offsets[i] as int,
            ) == 0x7074_2a85,
{
    if r {
        let i = choose|i: int|
            0 <= i < builder@.offsets.len() && type_at(
                builder@.data,
                #[trigger] builder@.offsets[i] as int,
            ) == 0x7074_2a85;
        assert(u32_at(builder@.data, builder@.offsets[i] as int) == 0x7074_2a85);
    }
}

/// What is said of a payload's size and of the files that it keeps open is so.
pub proof fn payload_sizes_are_said<'a>(
    builder: &PayloadBuilder<'a>,
    bytes: usize,
    places: usize,
    files: &[RawFd],
)
    requires
        call_ensures(PayloadBuilder::<'a>::data_buffer_len, (builder,), bytes),
        call_ensures(PayloadBuilder::<'a>::offset_buffer_len, (builder,), places),
        call_ensures(PayloadBuilder::<'a>::fds, (builder,), files),
    ensures
        bytes == builder@.data.len(),
        places == builder@.offsets.len(),
        files@ == builder.files(),
{
}

/// A transaction that is built starts with its target, its code and its flags, says how long its
/// data is and how many objects it has, and then come the data, the places and the objects, each
/// by its own type.
pub proof fn built_transactions_hold_what_was_collected(
    t: TransactionData,
    i: int,
    r: (Vec<u8>, Vec<FlatBinderObject>),
)
    requires
        t.data@.len() + t.objects@.len() * 8 <= usize::MAX,
        call_ensures(TransactionData::build, (t,), r),
    ensures
        ({
            let n = t.objects@.len();
            let places = 56 + t.data@.len();
            let objects = places + 8 * n;
            &&& r.0@.len() == objects + 24 * n
            &&& le_u64_at(r.0@, 0) == t.target.0
            &&& le_u32_at(r.0@, 16) == t.code
            &&& le_u32_at(r.0@, 20) == t.flags.0
            &&& le_u64_at(r.0@, 40) == t.data@.len()
            &&& le_u64_at(r.0@, 48) == n
            &&& r.0@.subrange(56, places as int) == t.data@
            &&& r.1@.len() == n
            &&& 0 <= i < n ==> {
                let flat = r.1@[i];
                &&& le_u64_at(r.0@, places + 8 * i) == t.data@.len() + 8 * i
                &&& FlatBinderObject::decoded(
                    r.0@.subrange(objects + 24 * i, objects + 24 * i + 24),
                ) == flat
                &&& flat.flags.0 == 0
                &&& match t.objects@[i] {
                    BinderObject::Binder { ptr, cookie } => flat.hdr.type_.0 == 0x7362_2a85
                        && flat.data.word == ptr && flat.cookie == cookie,
                    BinderObject::WeakBinder { ptr, cookie } => flat.hdr.type_.0 == 0x7762_2a85
                        && flat.data.word == ptr && flat.cookie == cookie,
                    BinderObject::Handle { handle } => flat.hdr.type_.0 == 0x7368_2a85
                        && first_word(flat.data.word) == handle && flat.cookie == 0,
                    BinderObject::WeakHandle { handle } => flat.hdr.type_.0 == 0x7768_2a85
                        && first_word(flat.data.word) == handle && flat.cookie == 0,
                    BinderObject::Fd { fd } => flat.hdr.type_.0 == 0x6664_2a85 && flat.data.word
                        == (if fd >= 0 {
                        fd as int
                    } else {
                        0x1_0000_0000_0000_0000 + fd
                    }) && flat.cookie == 0,
                }
            }
        }),
{
    built_length(t);
    built_is_read_back(t);
    if 0 <= i < t.objects@.len() {
        built_objects_are_read_back(t, i);
        objects_are_sent_by_type(t.objects@[i], BinderObjectEntry::Fd { fd: 0 });
    }
}

/// What is collected for a transaction is kept, in its order, and the target, the code and the
/// flags stay as they were given.
pub proof fn transactions_are_collected(
    target: BinderRef,
    code: u32,
    flags: TransactionFlags,
    fresh: TransactionData,
    t: TransactionData,
    payload: &[u8],
    fd: i32,
    handle: u32,
    ptr: u64,
    cookie: u64,
    r: TransactionData,
)
    requires
        call_ensures(TransactionData::new, (target, code, flags), fresh),
    ensures
        fresh.target.0 == target.0 && fresh.code == code && fresh.flags.0 == flags.0,
        fresh.data@.len() == 0 && fresh.objects@.len() == 0,
        call_ensures(TransactionData::with_payload, (t, payload), r) ==> collected(t, r)
            && r.objects@ == t.objects@ && r.data@ == t.data@ + payload@,
        call_ensures(TransactionData::add_fd, (t, fd), r) ==> collected(t, r) && r.data@ == t.data@
            && r.objects@ == t.objects@.push(BinderObject::Fd { fd }),
        call_ensures(TransactionData::add_handle, (t, handle), r) ==> collected(t, r) && r.data@
            == t.data@ && r.objects@ == t.objects@.push(BinderObject::Handle { handle }),
        call_ensures(TransactionData::add_weak_handle, (t, handle), r) ==> collected(t, r)
            && r.data@ == t.data@ && r.objects@ == t.objects@.push(
            BinderObject::WeakHandle { handle },
        ),
        call_ensures(TransactionData::add_binder, (t, ptr, cookie), r) ==> collected(t, r)
            && r.data@ == t.data@ && r.objects@ == t.objects@.push(
            BinderObject::Binder { ptr, cookie },
        ),
        call_ensures(TransactionData::add_weak_binder, (t, ptr, cookie), r) ==> collected(t, r)
            && r.data@ == t.data@ && r.objects@ == t.objects@.push(
            BinderObject::WeakBinder { ptr, cookie },
        ),
{
}

/// Whether a transaction still goes where it went, with the same code and flags.
pub open spec fn collected(t: TransactionData, r: TransactionData) -> bool {
    r.target.0 == t.target.0 && r.code == t.code && r.flags.0 == t.flags.0
}

/// What is added to a payload that goes with a transaction is added behind what is there; a weak
/// object or handle goes as a strong one.
pub proof fn entries_are_collected(
    fresh: Payload,
    data: Vec<u8>,
    with_data: Payload,
    p: &mut Payload,
    fd: i32,
    handle: u32,
    ptr: u64,
    cookie: u64,
    empty: bool,
)
    requires
        call_ensures(Payload::with_data, (data,), with_data),
        call_ensures(Payload::is_empty, (&fresh,), empty),
    ensures
        with_data.data@ == data@ && with_data.objects@.len() == 0,
        empty <==> fresh.data@.len() == 0 && fresh.objects@.len() == 0,
        call_ensures(Payload::add_fd, (p, fd), ()) ==> final(p).data == old(p).data
            && final(p).objects@ == old(p).objects@.push(BinderObjectEntry::Fd { fd }),
        call_ensures(Payload::add_handle, (p, handle), ()) || call_ensures(
            Payload::add_weak_handle,
            (p, handle),
            (),
        ) ==> final(p).data == old(p).data && final(p).objects@ == old(p).objects@.push(
            BinderObjectEntry::Handle { handle },
        ),
        call_ensures(Payload::add_binder, (p, ptr, cookie), ()) || call_ensures(
            Payload::add_weak_binder,
            (p, ptr, cookie),
            (),
        ) ==> final(p).data == old(p).data && final(p).objects@ == old(p).objects@.push(
            BinderObjectEntry::Binder { ptr, cookie },
        ),
{
}

/// What a flat object stands for goes by its type, and a handle or a local object that is made
/// flat stands for the same.
pub proof fn entries_are_read_from_flat_objects(
    flat: &FlatBinderObject,
    fd_object: Option<BinderFdObject>,
    r: Option<BinderObjectEntry>,
    entry: &BinderObjectEntry,
    made: FlatBinderObject,
)
    requires
        call_ensures(BinderObjectEntry::from_flat, (flat, fd_object), r),
        call_ensures(BinderObjectEntry::to_flat, (entry,), made),
    ensures
        ({
            let type_ = flat.hdr.type_.0;
            match r {
                Some(BinderObjectEntry::Binder { ptr, cookie }) => (type_ == 0x7362_2a85 || type_
                    == 0x7762_2a85) && ptr == flat.data.word && cookie == flat.cookie,
                Some(BinderObjectEntry::Handle { handle }) => (type_ == 0x7368_2a85 || type_
                    == 0x7768_2a85) && handle == first_word(flat.data.word),
                Some(BinderObjectEntry::Fd { fd }) => type_ == 0x6664_2a85 && fd == signed(
                    first_word(fd_object->0.data.word),
                ),
                None => type_ != 0x7362_2a85 && type_ != 0x7762_2a85 && type_ != 0x7368_2a85
                    && type_ != 0x7768_2a85 && type_ != 0x6664_2a85,
            }
        }),
        *flat == made && !(entry is Fd) ==> r == Some(*entry),
        made.flags.0 == 0,
{
    objects_are_sent_by_type(BinderObject::Fd { fd: 0 }, *entry);
}

/// A reply is taken apart as its header says: its data are as many bytes behind the header as are
/// announced, and its objects are those that it holds.
pub proof fn replies_are_taken_apart(
    data: &[u8],
    fds: &[BinderFdObject],
    i: int,
    fits: bool,
    flats: Vec<FlatBinderObject>,
    r: (Vec<u8>, Vec<BinderObjectEntry>),
)
    requires
        call_ensures(reply_fits, (data,), fits),
        fits,
        call_ensures(TransactionData::reply_flat_objects, (data,), flats),
        call_ensures(TransactionData::parse_reply, (data, fds), r),
    ensures
        data@.len() < 64 ==> r.0@.len() == 0 && flats@.len() == 0 && r.1@.len() == 0,
        data@.len() >= 64 ==> r.0@.len() == le_u64_at(data@, 56),
        data@.len() >= 64 && 0 <= i < r.0@.len() ==> r.0@[i] == data@[64 + i],
        data@.len() >= 64 ==> flats@.len() <= le_u64_at(data@, 64) / 8,
        r.1@.len() <= flats@.len(),
{
    if data@.len() >= 64 {
        lemma_reply_flats(data@, (le_u64_at(data@, 64) / 8) as int);
    }
    lemma_entries(flats@, fds@);
}

proof fn lemma_reply_flats(data: Seq<u8>, n: int)
    requires
        0 <= n,
    ensures
        reply_flats(data, n).len() <= n,
    decreases n,
{
    if n > 0 {
        lemma_reply_flats(data, n - 1);
    }
}

proof fn lemma_entries(flats: Seq<FlatBinderObject>, fds: Seq<BinderFdObject>)
    ensures
        entries_of(flats, fds).len() <= flats.len(),
    decreases flats.len(),
{
    if flats.len() > 0 {
        lemma_entries(flats.drop_last(), fds);
    }
}

/// A reply with an object that it holds has it at the place that is said, and it comes out as
/// what it stands for.
pub proof fn objects_of_a_reply_come_out(
    data: &[u8],
    fds: &[BinderFdObject],
    flats: Vec<FlatBinderObject>,
    r: (Vec<u8>, Vec<BinderObjectEntry>),
)
    requires
        data@.len() >= 72,
        8 <= le_u64_at(data@, 64) < 16,
        ({
            let place = le_u64_at(data@, 64 + le_u64_at(data@, 56) as int);
            64 + place / 24 * 24 + 24 <= data@.len()
        }),
        call_ensures(TransactionData::reply_flat_objects, (data,), flats),
        call_ensures(TransactionData::parse_reply, (data, fds), r),
    ensures
        ({
            let place = le_u64_at(data@, 64 + le_u64_at(data@, 56) as int);
            let at = 64 + place / 24 * 24;
            let flat = FlatBinderObject::decoded(data@.subrange(at, at + 24));
            let type_ = flat.hdr.type_.0;
            &&& flats@ == seq![flat]
            &&& type_ == 0x7368_2a85 || type_ == 0x7768_2a85 ==> r.1@ == seq![
                BinderObjectEntry::Handle { handle: first_word(flat.data.word) },
            ]
            &&& type_ == 0x7362_2a85 || type_ == 0x7762_2a85 ==> r.1@ == seq![
                BinderObjectEntry::Binder { ptr: flat.data.word, cookie: flat.cookie },
            ]
            &&& type_ == 0x6664_2a85 ==> r.1@ == seq![
                BinderObjectEntry::Fd { fd: signed(first_word(fds@[0].data.word)) },
            ]
        }),
{
    reveal_with_fuel(reply_flats, 3);
    reveal_with_fuel(entries_of, 3);
    reveal_with_fuel(files_among, 3);
    let place = le_u64_at(data@, 64 + le_u64_at(data@, 56) as int);
    let at = 64 + place / 24 * 24;
    let flat = FlatBinderObject::decoded(data@.subrange(at, at + 24));
    assert(le_u64_at(data@, 64) / 8 == 1);
    assert(flats@ =~= seq![flat]);
    assert(seq![flat].drop_last() =~= Seq::empty());
    assert(r.1@ =~= match entry_of(flat, Some(fds@[0])) {
        Some(entry) => seq![entry],
        None => Seq::empty(),
    });
}

/// One step of aligning looks at where the payload ends: where it is aligned nothing is added,
/// and else one zero.
pub proof fn aligning_adds_zeros_one_by_one<'a>(
    builder: &mut PayloadBuilder<'a>,
    address: usize,
    align: usize,
    aligned: bool,
)
    requires
        align > 0,
        call_ensures(PayloadBuilder::<'a>::align_step, (builder, address, align), aligned),
    ensures
        aligned <==> (address + old(builder)@.data.len()) % align as int == 0,
        aligned ==> final(builder)@ == old(builder)@,
        !aligned ==> final(builder)@.data == old(builder)@.data.push(0u8) && final(builder)@.offsets
            == old(builder)@.offsets,
{
    if !aligned {
        assert(final(builder)@.data =~= old(builder)@.data.push(0u8));
    }
}

/// An object that is put into a payload stands at its end, and its place is noted and given back.
pub proof fn objects_are_put_at_the_end<'a>(
    builder: &mut PayloadBuilder<'a>,
    bytes: &[u8],
    buffer: u64,
    length: u64,
    parent: u64,
    parent_offset: u64,
    offset: usize,
)
    ensures
        ({
            let (p, q) = (old(builder)@, final(builder)@);
            let n = p.data.len() as int;
            &&& call_ensures(PayloadBuilder::<'a>::push_object, (builder, bytes), offset) ==> {
                &&& offset == n
                &&& q.data.subrange(0, n) == p.data
                &&& q.data.subrange(n, q.data.len() as int) == bytes@
                &&& q.offsets.len() == p.offsets.len() + 1 && q.offsets.last() == n
                &&& final(builder).files() == old(builder).files()
                &&& final(builder).services() == old(builder).services()
            }
            &&& call_ensures(
                PayloadBuilder::<'a>::push_buffer_object,
                (builder, buffer, length, parent, parent_offset),
                offset,
            ) ==> {
                &&& offset == n
                &&& q.data.subrange(0, n) == p.data
                &&& names_buffer(
                    q.data.subrange(n, q.data.len() as int),
                    buffer,
                    length as int,
                    parent,
                    parent_offset,
                )
                &&& q.offsets.len() == p.offsets.len() + 1 && q.offsets.last() == n
                &&& final(builder).files() == old(builder).files()
                &&& final(builder).services() == old(builder).services()
            }
        }),
{
    let (p, q) = (old(builder)@, final(builder)@);
    let n = p.data.len() as int;
    let object = buffer_object(buffer, length, parent, parent_offset).bytes();
    objects_in_memory(0, buffer, length, parent, parent_offset);
    assert((p.data + object).subrange(0, n) =~= p.data);
    assert((p.data + object).subrange(n, n + object.len()) =~= object);
    assert((p.data + bytes@).subrange(0, n) =~= p.data);
    assert((p.data + bytes@).subrange(n, n + bytes@.len()) =~= bytes@);
}

/// What can be read is said truly: the header of the next object is there if its four bytes are,
/// an open file or a port if all of its bytes are, and a reference if there is room to count it.
pub proof fn what_can_be_read_is_said(
    reader: &PayloadReader,
    device: &BinderDevice,
    header: bool,
    file: bool,
    port: bool,
)
    requires
        call_ensures(PayloadReader::next_header_fits, (reader,), header),
        call_ensures(PayloadReader::can_read_fd, (reader,), file),
        call_ensures(PayloadReader::can_read_port, (reader, device), port),
    ensures
        reader@.next_offset() is None ==> header && file && port,
        reader@.next_offset() matches Some(offset) ==> {
            let n = reader@.data.len();
            let type_ = u32_at(reader@.data, offset as int);
            let handle = first_word(u64_at(reader@.data, offset + 8));
            let is_port = type_ == 0x7362_2a85 || type_ == 0x7762_2a85 || type_ == 0x7368_2a85
                || type_ == 0x7768_2a85;
            &&& header <==> offset + 4 <= n
            &&& file <==> offset + (if type_ == 0x6664_2a85 {
                24int
            } else {
                4
            }) <= n
            &&& port ==> offset + (if is_port {
                24int
            } else {
                4
            }) <= n
            &&& offset + 24 <= n && !port ==> type_ == 0x7368_2a85 && device@.strong(handle)
                == u64::MAX || (type_ == 0x7368_2a85 || type_ == 0x7768_2a85) && device@.weak(handle)
                == u64::MAX
            &&& offset + 4 <= n && !is_port ==> port
        },
{
    if let Some(offset) = reader@.next_offset() {
        let o = offset as int;
        if o + 24 <= reader@.data.len() {
            let flat = reader@.data.subrange(o, o + 24);
            assert(flat.subrange(8, 16) =~= reader@.data.subrange(o + 8, o + 16));
        }
    }
}

/// A reply holds what its header says exactly if the data and the places fit behind the header
/// and no place is out of all bounds. Less than a header holds nothing.
pub proof fn whole_replies_fit(data: &[u8], r: bool)
    requires
        data@.len() <= usize::MAX,
        call_ensures(reply_fits, (data,), r),
    ensures
        data@.len() < 64 ==> r,
        64 <= data@.len() < 72 ==> !r,
        data@.len() >= 72 && le_u64_at(data@, 64) < 8 && 64 + le_u64_at(data@, 56) + le_u64_at(
            data@,
            64,
        ) <= usize::MAX ==> (r <==> le_u64_at(data@, 56) == 0 || 64 + le_u64_at(data@, 56)
            <= data@.len()),
        data@.len() >= 72 && r ==> {
            &&& 64 + le_u64_at(data@, 56) + le_u64_at(data@, 64) / 8 * 8 <= data@.len()
                || le_u64_at(data@, 64) < 8
            &&& le_u64_at(data@, 56) == 0 || 64 + le_u64_at(data@, 56) <= data@.len()
        },
        data@.len() >= 72 && !r && 64 + le_u64_at(data@, 56) + le_u64_at(data@, 64) <= data@.len()
            ==> exists|i: int|
            0 <= i < le_u64_at(data@, 64) / 8 && #[trigger] reply_place(data@, i) + 88 > usize::MAX,
{
    if data@.len() >= 72 && !r && 64 + le_u64_at(data@, 56) + le_u64_at(data@, 64) <= data@.len() {
        let i = choose|i: int|
            0 <= i < le_u64_at(data@, 64) / 8 && !(#[trigger] reply_object_at(data@, i) + 24
                <= usize::MAX);
        assert(reply_place(data@, i) + 88 > usize::MAX);
    }
}

/// A buffer is read as it is, and given back to the driver exactly if the driver lent it.
pub proof fn buffers_are_read_and_given_back(
    buffer: &PayloadReaderBuffer<u8>,
    items: &[u8],
    commands: &mut Vec<DriverCommand>,
)
    requires
        call_ensures(PayloadReaderBuffer::<u8>::as_slice, (buffer,), items),
        call_ensures(PayloadReaderBuffer::<u8>::free, (buffer, commands), ()),
    ensures
        match *buffer {
            PayloadReaderBuffer::Owned(own) => items@ == own@ && final(commands)@
                == old(commands)@,
            PayloadReaderBuffer::KernelBorrowed(lent, address) => items@ == lent@
                && final(commands)@ == old(commands)@.push(DriverCommand::FreeBuffer(address)),
        },
{
    assert(old(commands)@ + Seq::<DriverCommand>::empty() =~= old(commands)@);
    if let PayloadReaderBuffer::KernelBorrowed(lent, address) = *buffer {
        assert(old(commands)@ + seq![DriverCommand::FreeBuffer(address)] =~= old(commands)@.push(
            DriverCommand::FreeBuffer(address),
        ));
    }
}

} // verus!
