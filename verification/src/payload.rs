//! Payloads: bytes with objects in them.
//!
//! A payload is a string of bytes together with the places at which objects lie in it.
//! [`PayloadBuilder`] makes one, [`PayloadReader`] takes one apart.
use crate::binder_object::{
    BinderObjectId, BinderObjectOrRef, BinderRef, UntypedBinderObject, WeakBinderObject,
    WeakBinderRef,
};
use crate::command::DriverCommand;
use crate::device::BinderDevice;
use crate::sys::{
    BinderBufferFlags, BinderBufferObject, BinderFdArrayObject, BinderFdObject, BinderFdObjectData,
    BinderObjectHeader, BinderType, FlatBinderObject, RawFd,
};
use crate::wire::{get_u32, put_bytes, put_u64};
use core::marker::PhantomData;
use vstd::prelude::*;

verus! {

use crate::binder_object::{TransactionTarget, TransactionTargetHandle};
use crate::binder_object::{
    dropping_keeps_driver_in_step, in_step, one_if_any, strong_net, taking_keeps_driver_in_step,
    weak_net,
};
use crate::device::{key_of, DeviceView};
use crate::services::{dropping_keeps_holding, holds, references, released, taking_keeps_holding};
use crate::wire::{
    first_word, ne64, ne64_facts, signed, twos_complement, u32_at, u64_at, unsigned, widened,
    widened_first,
};

/// How an object in a payload is aligned.
pub const OBJECT_ALIGN: usize = 8;

/// The type of the object at a place in a payload.
pub open spec fn type_at(data: Seq<u8>, offset: int) -> u32 {
    u32_at(data, offset)
}

/// A payload: its bytes, and where the objects in it lie.
#[verifier::ext_equal]
pub struct PayloadView {
    pub data: Seq<u8>,
    pub offsets: Seq<usize>,
}

/// A run of zero bytes.
pub open spec fn zeros(n: nat) -> Seq<u8> {
    Seq::new(n, |i: int| 0u8)
}

impl PayloadView {
    pub open spec fn empty() -> Self {
        PayloadView { data: Seq::empty(), offsets: Seq::empty() }
    }

    /// The payload with bytes put at its end.
    pub open spec fn with_bytes(self, bytes: Seq<u8>) -> Self {
        PayloadView { data: self.data + bytes, ..self }
    }

    /// The payload with an object put at its end.
    pub open spec fn with_object(self, bytes: Seq<u8>) -> Self {
        PayloadView {
            data: self.data + bytes,
            offsets: self.offsets.push(self.data.len() as usize),
        }
    }

    /// Whether aligning the end takes as many looks at where the data lie as there are
    /// addresses: where they lay at the last one the end is aligned, and before that it was
    /// not. One zero byte is put between two looks.
    pub open spec fn aligns_over(self, seen: Seq<usize>, align: usize) -> bool {
        &&& seen.len() > 0
        &&& forall|k: int|
            0 <= k < seen.len() ==> {
                &&& bytes_lie_at(self.data + zeros(k as nat), #[trigger] seen[k] as u64)
                &&& seen[k] + self.data.len() + k <= usize::MAX
                &&& (seen[k] + self.data.len() + k) % align as int == 0 <==> k == seen.len() - 1
            }
    }

    /// The payload with the zero bytes that were put between the looks.
    pub open spec fn padded(self, seen: Seq<usize>) -> Self {
        self.with_bytes(zeros((seen.len() - 1) as nat))
    }

    /// There is room for an object at each place, its type is one that can be sent, and no
    /// two objects overlap.
    pub open spec fn wf(self) -> bool {
        &&& self.data.len() <= usize::MAX
        &&& forall|i: int|
            0 <= i < self.offsets.len() ==> #[trigger] self.offsets[i] + 24 <= self.data.len()
        &&& forall|i: int, j: int|
            0 <= i < j < self.offsets.len() ==> #[trigger] self.offsets[i] + 24
                <= #[trigger] self.offsets[j]
        &&& forall|i: int|
            0 <= i < self.offsets.len() ==> sendable(
                type_at(self.data, #[trigger] self.offsets[i] as int),
            )
    }
}

/// Whether objects of a type can be put into a payload.
pub open spec fn sendable(type_: u32) -> bool {
    BinderType(type_).names_port() || type_ == BinderType::FD || type_ == BinderType::PTR
}

/// Calls `<[u8]>::as_ptr` and `addr` on what it gives: where the bytes lie. Nothing lies at
/// address zero, and what lies in memory never reaches past the last address.
#[verifier::external_body]
pub(crate) fn address_of(bytes: &[u8]) -> (r: usize)
    ensures
        r > 0,
        r + bytes@.len() <= usize::MAX,
{
    bytes.as_ptr().addr()
}

/// Calls `<[usize]>::as_ptr` and `addr` on what it gives: where the places lie. Nothing lies
/// at address zero, and what lies in memory never reaches past the last address.
#[verifier::external_body]
pub(crate) fn address_of_offsets(offsets: &[usize]) -> (r: usize)
    ensures
        r > 0,
        r + offsets@.len() <= usize::MAX,
{
    offsets.as_ptr().addr()
}

/// Whether an address is one at which such bytes were found: asking where a slice that holds
/// them lies gave it.
pub closed spec fn bytes_lie_at(bytes: Seq<u8>, address: u64) -> bool {
    exists|s: &[u8], a: usize|
        s@ == bytes && a == address && #[trigger] call_ensures(address_of, (s,), a)
}

/// Whether an address is one at which such places were found: asking where a slice that holds
/// them lies gave it.
pub closed spec fn places_lie_at(offsets: Seq<usize>, address: u64) -> bool {
    exists|s: &[usize], a: usize|
        s@ == offsets && a == address && #[trigger] call_ensures(address_of_offsets, (s,), a)
}

/// Finds out where bytes lie.
pub(crate) fn find_bytes(bytes: &[u8]) -> (r: u64)
    ensures
        bytes_lie_at(bytes@, r),
        0 < r,
        r + bytes@.len() <= usize::MAX,
{
    let address: usize = address_of(bytes);
    address as u64
}

/// Finds out where places lie.
pub(crate) fn find_places(offsets: &[usize]) -> (r: u64)
    ensures
        places_lie_at(offsets@, r),
        0 < r,
        r + offsets@.len() <= usize::MAX,
{
    let address: usize = address_of_offsets(offsets);
    address as u64
}

/// An address is one of bytes, or of places, only if asking where such a slice lies gave it.
pub(crate) proof fn addresses_come_from_asking(
    bytes: Seq<u8>,
    offsets: Seq<usize>,
    address: u64,
)
    ensures
        bytes_lie_at(bytes, address) ==> exists|s: &[u8], a: usize|
            s@ == bytes && a == address && #[trigger] call_ensures(address_of, (s,), a),
        places_lie_at(offsets, address) ==> exists|s: &[usize], a: usize|
            s@ == offsets && a == address && #[trigger] call_ensures(address_of_offsets, (s,), a),
{
}

/// Neither bytes nor places are found at address zero, and both are found where there is room
/// for them.
pub proof fn nothing_lies_at_zero(bytes: Seq<u8>, offsets: Seq<usize>, address: u64)
    ensures
        bytes_lie_at(bytes, address) ==> 0 < address && address + bytes.len() <= usize::MAX,
        places_lie_at(offsets, address) ==> 0 < address && address + offsets.len() <= usize::MAX,
{
}

/// Builds a payload. The lifetime is that of the buffers whose addresses the payload holds.
pub struct PayloadBuilder<'a> {
    data: Vec<u8>,
    obj_offsets: Vec<usize>,
    buffer_fd_lifetime: PhantomData<&'a ()>,
    owned_fds: Vec<RawFd>,
    services: Vec<BinderObjectId>,
}

impl<'a> View for PayloadBuilder<'a> {
    type V = PayloadView;

    closed spec fn view(&self) -> PayloadView {
        PayloadView { data: self.data@, offsets: self.obj_offsets@ }
    }
}

impl<'a> PayloadBuilder<'a> {
    /// The open files that have to stay open until the payload is sent.
    pub closed spec fn files(self) -> Seq<RawFd> {
        self.owned_fds@
    }

    /// The services that the payload has a reference to, once for each reference.
    pub closed spec fn services(self) -> Seq<BinderObjectId> {
        self.services@
    }

    pub fn new() -> (r: Self)
        ensures
            r@ == PayloadView::empty(),
            r.files() == Seq::<RawFd>::empty(),
            r.services() == Seq::<BinderObjectId>::empty(),
            r@.wf(),
    {
        let r = PayloadBuilder {
            data: Vec::new(),
            obj_offsets: Vec::new(),
            buffer_fd_lifetime: PhantomData,
            owned_fds: Vec::new(),
            services: Vec::new(),
        };
        assert(r@ =~= PayloadView::empty());
        r
    }

    /// Copies bytes into the payload.
    pub fn push_bytes(&mut self, bytes: &[u8])
        requires
            old(self)@.wf(),
        ensures
            final(self)@ == old(self)@.with_bytes(bytes@),
            final(self).files() == old(self).files(),
            final(self).services() == old(self).services(),
            final(self)@.wf(),
    {
        let ghost before = self@;
        put_bytes(&mut self.data, bytes);
        proof {
            assert(self.data.len() <= usize::MAX);
            assert(self@ =~= before.with_bytes(bytes@));
            lemma_with_bytes_wf(before, bytes@);
        }
    }

    /// One step of aligning: unless the end of the data is aligned when the data lies at
    /// `address`, puts one zero byte there. The result says whether it was aligned.
    pub fn align_step(&mut self, address: usize, align: usize) -> (aligned: bool)
        requires
            old(self)@.wf(),
            align > 0,
            address + old(self)@.data.len() <= usize::MAX,
        ensures
            aligned == ((address + old(self)@.data.len()) % align as int == 0),
            final(self)@ == (if aligned {
                old(self)@
            } else {
                old(self)@.with_bytes(zeros(1))
            }),
            final(self).files() == old(self).files(),
            final(self).services() == old(self).services(),
            final(self)@.wf(),
    {
        let ghost before = self@;
        if (address + self.data.len()) % align != 0 {
            self.data.push(0);
            proof {
                assert(self.data.len() <= usize::MAX);
                assert(self@ =~= before.with_bytes(zeros(1)));
                lemma_with_bytes_wf(before, zeros(1));
            }
            false
        } else {
            true
        }
    }

    /// Puts zero bytes at the end until the address of the end is a multiple of `align`. How
    /// many that takes depends on where the data lies, which may be elsewhere after each byte.
    pub fn align(&mut self, align: usize)
        requires
            old(self)@.wf(),
            align > 0,
        ensures
            exists|seen: Seq<usize>| #[trigger]
                old(self)@.aligns_over(seen, align) && final(self)@ == old(self)@.padded(seen),
            final(self).files() == old(self).files(),
            final(self).services() == old(self).services(),
            final(self)@.wf(),
    {
        let ghost before = self@;
        let ghost mut seen: Seq<usize> = Seq::empty();
        assert(before =~= before.with_bytes(zeros(0)));
        loop
            invariant_except_break
                self@.wf(),
                align > 0,
                self@ == before.with_bytes(zeros(seen.len())),
                forall|k: int|
                    0 <= k < seen.len() ==> bytes_lie_at(
                        before.data + zeros(k as nat),
                        #[trigger] seen[k] as u64,
                    ) && seen[k] + before.data.len() + k <= usize::MAX && (seen[k] + before.data.len() + k) % align as int != 0,
                self.files() == old(self).files(),
                self.services() == old(self).services(),
            ensures
                self@.wf(),
                before.aligns_over(seen, align),
                self@ == before.padded(seen),
                self.files() == old(self).files(),
                self.services() == old(self).services(),
            decreases usize::MAX - self@.data.len(),
        {
            let address: usize = find_bytes(self.data.as_slice()) as usize;
            let ghost n = seen.len();
            let aligned: bool = self.align_step(address, align);
            proof {
                assert(zeros(n) + zeros(1) =~= zeros(n + 1));
                assert(before.with_bytes(zeros(n)).with_bytes(zeros(1)) =~= before.with_bytes(
                    zeros(n + 1),
                ));
                seen = seen.push(address);
            }
            if aligned {
                break;
            }
        }
    }

    /// Puts an object at the end and gives the place at which it lies.
    pub fn push_object(&mut self, bytes: &[u8]) -> (offset: usize)
        requires
            old(self)@.wf(),
            bytes@.len() >= 24,
            sendable(type_at(bytes@, 0)),
        ensures
            offset == old(self)@.data.len(),
            final(self)@ == old(self)@.with_object(bytes@),
            final(self).files() == old(self).files(),
            final(self).services() == old(self).services(),
            final(self)@.wf(),
    {
        let ghost before = self@;
        let offset: usize = self.data.len();
        self.obj_offsets.push(offset);
        put_bytes(&mut self.data, bytes);
        proof {
            assert(self.data.len() <= usize::MAX);
            assert(self@ =~= before.with_object(bytes@));
            lemma_with_object_wf(before, bytes@);
        }
        offset
    }

    /// Puts an object of this process or a reference into the payload, which takes no share of
    /// it. A service that nobody else may refer to is put there by `push_service`.
    pub fn push_port(&mut self, port: &BinderObjectOrRef)
        requires
            old(self)@.wf(),
        ensures
            exists|seen: Seq<usize>| #[trigger]
                old(self)@.aligns_over(seen, OBJECT_ALIGN) && final(self)@ == old(self)@.padded(
                    seen,
                ).with_object(
                    port.flat().bytes(),
                ),
            final(self).files() == old(self).files(),
            final(self).services() == old(self).services(),
            final(self)@.wf(),
    {
        self.align(OBJECT_ALIGN);
        let flat = port.get_flat_binder_object();
        let mut bytes: Vec<u8> = Vec::new();
        flat.put(&mut bytes);
        proof {
            assert(bytes@ =~= flat.bytes());
            flat.decode_encoded();
        }
        self.push_object(bytes.as_slice());
    }

    /// Puts an object of this process into the payload. If it is a service, the payload gets a
    /// reference to it, so that it is kept until the payload is released.
    pub fn push_service(&mut self, device: &mut BinderDevice, id: &BinderObjectId)
        requires
            old(self)@.wf(),
            old(device)@.wf(),
            old(device)@.retained_services.dom().contains(key_of(*id)) ==> old(
                device,
            )@.object_refcounts[key_of(*id)].strong_count < u32::MAX,
        ensures
            exists|seen: Seq<usize>| #[trigger]
                old(self)@.aligns_over(seen, OBJECT_ALIGN) && final(self)@ == old(self)@.padded(
                    seen,
                ).with_object(BinderObjectOrRef::Object(UntypedBinderObject(*id)).flat().bytes()),
            final(self).files() == old(self).files(),
            old(device)@.retained_services.dom().contains(key_of(*id)) ==> final(self).services()
                == old(self).services().push(*id) && final(device)@ == old(
                device,
            )@.with_local_ref(key_of(*id)),
            !old(device)@.retained_services.dom().contains(key_of(*id)) ==> final(self).services()
                == old(self).services() && final(device)@ == old(device)@,
            holds(old(self).services(), old(device)@) ==> holds(
                final(self).services(),
                final(device)@,
            ),
            final(self)@.wf(),
            final(device)@.wf(),
    {
        self.push_port(&BinderObjectOrRef::Object(UntypedBinderObject(*id)));
        if device.is_retained(id) {
            device.clone_service_ref(id);
            self.services.push(*id);
            proof {
                let (d, key) = (old(device)@, key_of(*id));
                assert(d.object_refcounts.dom().contains(key));
                assert(device@ =~= d.with_local_ref(key));
                if holds(old(self).services(), d) {
                    taking_keeps_holding(old(self).services(), d, *id);
                }
            }
        }
    }

    /// Ends the payload: its references to services are gone.
    pub fn release(self, device: &mut BinderDevice)
        requires
            old(device)@.wf(),
            holds(self.services(), old(device)@),
        ensures
            final(device)@ == released(self.services(), old(device)@),
            final(device)@.wf(),
    {
        let ghost all = self.services@;
        let mut i: usize = self.services.len();
        assert(all.take(i as int) =~= all);
        while i > 0
            invariant
                i <= all.len(),
                all == self.services@,
                device@.wf(),
                holds(all.take(i as int), device@),
                released(all.take(i as int), device@) == released(all, old(device)@),
            decreases i,
        {
            let ghost d = device@;
            i = i - 1;
            proof {
                let held = all.take(i + 1);
                assert(held.drop_last() =~= all.take(i as int));
                assert(references(held, key_of(held.last())) > 0);
                dropping_keeps_holding(held, d);
            }
            device.drop_service_ref(&self.services[i]);
            assert(device@ =~= d.without_local_ref(key_of(all[i as int])));
        }
        assert(all.take(0) =~= Seq::empty());
    }

    fn push_fd_object(&mut self, fd: RawFd, cookie: u64)
        requires
            old(self)@.wf(),
        ensures
            exists|seen: Seq<usize>| #[trigger]
                old(self)@.aligns_over(seen, OBJECT_ALIGN) && final(self)@ == old(self)@.padded(
                    seen,
                ).with_object(
                    fd_object(fd, cookie).bytes(),
                ),
            final(self).files() == old(self).files(),
            final(self).services() == old(self).services(),
            final(self)@.wf(),
    {
        self.align(OBJECT_ALIGN);
        let object = BinderFdObject {
            hdr: BinderObjectHeader { type_: BinderType(BinderType::FD) },
            pad_flags: 0,
            data: BinderFdObjectData::from_fd(fd),
            cookie,
        };
        let mut bytes: Vec<u8> = Vec::new();
        object.put(&mut bytes);
        proof {
            assert(bytes@ =~= object.bytes());
            object.decode_encoded();
        }
        self.push_object(bytes.as_slice());
    }

    /// Puts an open file of the caller into the payload.
    pub fn push_fd(&mut self, fd: RawFd, cookie: u64)
        requires
            old(self)@.wf(),
        ensures
            exists|seen: Seq<usize>| #[trigger]
                old(self)@.aligns_over(seen, OBJECT_ALIGN) && final(self)@ == old(self)@.padded(
                    seen,
                ).with_object(
                    fd_object(fd, cookie).bytes(),
                ),
            final(self).files() == old(self).files(),
            final(self).services() == old(self).services(),
            final(self)@.wf(),
    {
        self.push_fd_object(fd, cookie);
    }

    /// Puts an open file into the payload, which has to stay open until the payload is sent.
    pub fn push_owned_fd(&mut self, fd: RawFd, cookie: u64)
        requires
            old(self)@.wf(),
        ensures
            exists|seen: Seq<usize>| #[trigger]
                old(self)@.aligns_over(seen, OBJECT_ALIGN) && final(self)@ == old(self)@.padded(
                    seen,
                ).with_object(
                    fd_object(fd, cookie).bytes(),
                ),
            final(self).files() == old(self).files().push(fd),
            final(self).services() == old(self).services(),
            final(self)@.wf(),
    {
        self.push_fd_object(fd, cookie);
        self.owned_fds.push(fd);
    }

    /// Puts a buffer object, at the end as it is aligned now, and gives the place at which it
    /// lies.
    pub fn push_buffer_object(
        &mut self,
        buffer: u64,
        length: u64,
        parent: u64,
        parent_offset: u64,
    ) -> (offset: usize)
        requires
            old(self)@.wf(),
        ensures
            offset == old(self)@.data.len(),
            final(self)@ == old(self)@.with_object(
                buffer_object(buffer, length, parent, parent_offset).bytes(),
            ),
            final(self).files() == old(self).files(),
            final(self).services() == old(self).services(),
            final(self)@.wf(),
    {
        let object = BinderBufferObject {
            hdr: BinderObjectHeader { type_: BinderType(BinderType::PTR) },
            flags: BinderBufferFlags::empty(),
            buffer,
            length,
            parent,
            parent_offset,
        };
        let mut bytes: Vec<u8> = Vec::new();
        object.put(&mut bytes);
        proof {
            assert(bytes@ =~= object.bytes());
            object.decode_encoded();
        }
        self.push_object(bytes.as_slice())
    }

    /// Puts a buffer into the payload, which the driver will copy. Gives the place of the
    /// object, for buffers inside the buffer.
    pub fn push_buffer<'buffer: 'a>(&mut self, bytes: &'buffer [u8]) -> (offset: usize)
        requires
            old(self)@.wf(),
        ensures
            exists|seen: Seq<usize>, address: u64| #[trigger]
                old(self)@.aligns_over(seen, OBJECT_ALIGN) && bytes_lie_at(bytes@, address)
                    && address + bytes@.len() <= usize::MAX && final(self)@ == old(self)@.padded(seen).with_object(
                    (#[trigger] buffer_object(address, bytes@.len() as u64, 0, 0)).bytes(),
                ) && offset == old(self)@.padded(seen).data.len(),
            final(self).files() == old(self).files(),
            final(self).services() == old(self).services(),
            final(self)@.wf(),
    {
        self.align(OBJECT_ALIGN);
        self.push_buffer_object(find_bytes(bytes), bytes.len() as u64, 0, 0)
    }

    /// Puts a buffer into the payload whose address stands in another buffer. The caller
    /// keeps it in place until the payload is sent.
    pub fn push_child_buffer(&mut self, bytes: &[u8], parent: u64, parent_ptr_offset: u64) -> (offset:
        usize)
        requires
            old(self)@.wf(),
        ensures
            exists|seen: Seq<usize>, address: u64| #[trigger]
                old(self)@.aligns_over(seen, OBJECT_ALIGN) && bytes_lie_at(bytes@, address)
                    && address + bytes@.len() <= usize::MAX && final(self)@ == old(self)@.padded(seen).with_object(
                    (#[trigger] buffer_object(
                        address,
                        bytes@.len() as u64,
                        parent,
                        parent_ptr_offset,
                    )).bytes(),
                ) && offset == old(self)@.padded(seen).data.len(),
            final(self).files() == old(self).files(),
            final(self).services() == old(self).services(),
            final(self)@.wf(),
    {
        self.align(OBJECT_ALIGN);
        self.push_buffer_object(
            find_bytes(bytes),
            bytes.len() as u64,
            parent,
            parent_ptr_offset,
        )
    }

    /// Puts an array of open files into the payload that stands in another buffer.
    pub fn push_fd_array(&mut self, num_fds: u64, parent: u64, parent_ptr_offset: u64)
        requires
            old(self)@.wf(),
        ensures
            exists|seen: Seq<usize>| #[trigger]
                old(self)@.aligns_over(seen, OBJECT_ALIGN) && final(self)@ == old(self)@.padded(
                    seen,
                ).with_object(
                    fd_array_object(num_fds, parent, parent_ptr_offset).bytes(),
                ),
            final(self).files() == old(self).files(),
            final(self).services() == old(self).services(),
            final(self)@.wf(),
    {
        self.align(OBJECT_ALIGN);
        let object = BinderFdArrayObject {
            hdr: BinderObjectHeader { type_: BinderType(BinderType::PTR) },
            _pad: 0,
            num_fds,
            parent,
            parent_offset: parent_ptr_offset,
        };
        let mut bytes: Vec<u8> = Vec::new();
        object.put(&mut bytes);
        proof {
            assert(bytes@ =~= object.bytes());
            object.decode_encoded();
        }
        self.push_object(bytes.as_slice());
    }

    /// The bytes of the payload.
    pub fn data(&self) -> (r: &[u8])
        ensures
            r@ == self@.data,
    {
        self.data.as_slice()
    }

    /// Where the objects lie.
    pub fn offsets(&self) -> (r: &[usize])
        ensures
            r@ == self@.offsets,
    {
        self.obj_offsets.as_slice()
    }

    pub fn data_buffer_len(&self) -> (r: usize)
        ensures
            r == self@.data.len(),
    {
        self.data.len()
    }

    pub fn offset_buffer_len(&self) -> (r: usize)
        ensures
            r == self@.offsets.len(),
    {
        self.obj_offsets.len()
    }

    pub fn fds(&self) -> (r: &[RawFd])
        ensures
            r@ == self.files(),
    {
        self.owned_fds.as_slice()
    }
}

/// An open file as an object.
pub open spec fn fd_object(fd: RawFd, cookie: u64) -> BinderFdObject {
    BinderFdObject {
        hdr: BinderObjectHeader { type_: BinderType(BinderType::FD) },
        pad_flags: 0,
        data: BinderFdObjectData::of_fd(fd),
        cookie,
    }
}

/// A buffer as an object.
pub open spec fn buffer_object(buffer: u64, length: u64, parent: u64, parent_offset: u64) ->
    BinderBufferObject {
    BinderBufferObject {
        hdr: BinderObjectHeader { type_: BinderType(BinderType::PTR) },
        flags: BinderBufferFlags(0),
        buffer,
        length,
        parent,
        parent_offset,
    }
}

/// An array of open files as an object.
pub open spec fn fd_array_object(num_fds: u64, parent: u64, parent_offset: u64) ->
    BinderFdArrayObject {
    BinderFdArrayObject {
        hdr: BinderObjectHeader { type_: BinderType(BinderType::PTR) },
        _pad: 0,
        num_fds,
        parent,
        parent_offset,
    }
}

proof fn lemma_with_bytes_wf(p: PayloadView, bytes: Seq<u8>)
    requires
        p.wf(),
        p.data.len() + bytes.len() <= usize::MAX,
    ensures
        p.with_bytes(bytes).wf(),
{
    let q = p.with_bytes(bytes);
    assert forall|i: int| 0 <= i < q.offsets.len() implies sendable(
        type_at(q.data, #[trigger] q.offsets[i] as int),
    ) by {
        let o = p.offsets[i] as int;
        assert(q.data.subrange(o, o + 4) =~= p.data.subrange(o, o + 4));
        assert(sendable(type_at(p.data, o)));
    }
}

proof fn lemma_with_object_wf(p: PayloadView, bytes: Seq<u8>)
    requires
        p.wf(),
        p.data.len() + bytes.len() <= usize::MAX,
        bytes.len() >= 24,
        sendable(type_at(bytes, 0)),
    ensures
        p.with_object(bytes).wf(),
{
    let q = p.with_object(bytes);
    lemma_with_bytes_wf(p, bytes);
    let r = p.with_bytes(bytes);
    let n = p.offsets.len() as int;
    assert forall|i: int| 0 <= i < q.offsets.len() implies sendable(
        type_at(q.data, #[trigger] q.offsets[i] as int),
    ) by {
        if i < n {
            assert(q.offsets[i] == r.offsets[i]);
        } else {
            let o = p.data.len() as int;
            assert(q.data.subrange(o, o + 4) =~= bytes.subrange(0, 4));
        }
    }
    assert forall|i: int| 0 <= i < q.offsets.len() implies #[trigger] q.offsets[i] + 24
        <= q.data.len() by {
        if i < n {
            assert(q.offsets[i] == r.offsets[i]);
        }
    }
    assert forall|i: int, j: int| 0 <= i < j < q.offsets.len() implies #[trigger] q.offsets[i] + 24
        <= #[trigger] q.offsets[j] by {
        assert(q.offsets[i] == p.offsets[i]);
        if j < n {
            assert(q.offsets[j] == p.offsets[j]);
        }
    }
}

/// What kind of object comes next in a payload.
#[derive(Debug, Clone, Copy, PartialEq, Eq, Structural)]
pub enum BinderObjectType {
    OwnedPort,
    WeakOwnedPort,
    PortHandle,
    WeakPortHandle,
    Fd,
    FdArray,
    Buffer,
}

/// Why no port could be read.
#[derive(Debug, Clone, Copy, PartialEq, Eq, Structural)]
pub enum PayloadPortReadError {
    /// The next object is of another kind.
    IncorrectObject,
    /// The next object is a local one that is not registered.
    UnknownOwnedPort,
    /// There is no further object.
    Empty,
}

impl PayloadPortReadError {
    /// What the error says.
    pub open spec fn text(self) -> Seq<char> {
        match self {
            PayloadPortReadError::IncorrectObject => "Unexpected object type"@,
            PayloadPortReadError::UnknownOwnedPort => "Unknown OwnedPort"@,
            PayloadPortReadError::Empty => "No more ports to read"@,
        }
    }

    /// What the error says.
    pub fn message(&self) -> (r: String)
        ensures
            r@ == self.text(),
    {
        match self {
            PayloadPortReadError::IncorrectObject => "Unexpected object type".to_owned(),
            PayloadPortReadError::UnknownOwnedPort => "Unknown OwnedPort".to_owned(),
            PayloadPortReadError::Empty => "No more ports to read".to_owned(),
        }
    }
}

/// Why no open file could be read.
#[derive(Debug, Clone, Copy, PartialEq, Eq, Structural)]
pub enum PayloadObjectReadError {
    /// The next object is of another kind.
    IncorrectObject,
    /// There is no further object.
    Empty,
}

impl PayloadObjectReadError {
    /// What the error says.
    pub open spec fn text(self) -> Seq<char> {
        match self {
            PayloadObjectReadError::IncorrectObject => "Unexpected object type"@,
            PayloadObjectReadError::Empty => "No more objects to read"@,
        }
    }

    /// What the error says.
    pub fn message(&self) -> (r: String)
        ensures
            r@ == self.text(),
    {
        match self {
            PayloadObjectReadError::IncorrectObject => "Unexpected object type".to_owned(),
            PayloadObjectReadError::Empty => "No more objects to read".to_owned(),
        }
    }
}

/// Why no bytes could be read.
#[derive(Debug, Clone, Copy, PartialEq, Eq, Structural)]
pub enum PayloadBytesReadError {
    /// The bytes would reach into the next object.
    ReadingIntoObject,
    /// The bytes would reach past the end.
    OutOfBounds,
}

impl PayloadBytesReadError {
    /// What the error says.
    pub open spec fn text(self) -> Seq<char> {
        match self {
            PayloadBytesReadError::ReadingIntoObject => "Tried reading bytes from an area containing an object"@,
            PayloadBytesReadError::OutOfBounds => "Tried reading bytes outside the provided buffer"@,
        }
    }

    /// What the error says.
    pub fn message(&self) -> (r: String)
        ensures
            r@ == self.text(),
    {
        match self {
            PayloadBytesReadError::ReadingIntoObject => "Tried reading bytes from an area containing an object".to_owned(),
            PayloadBytesReadError::OutOfBounds => "Tried reading bytes outside the provided buffer".to_owned(),
        }
    }
}

/// A buffer that a reader reads from: one of its own, or one that the driver lent, which is
/// given back by its address.
pub enum PayloadReaderBuffer<T: 'static> {
    Owned(Vec<T>),
    KernelBorrowed(&'static [T], u64),
}

impl<T: 'static> View for PayloadReaderBuffer<T> {
    type V = Seq<T>;

    open spec fn view(&self) -> Seq<T> {
        match *self {
            PayloadReaderBuffer::Owned(items) => items@,
            PayloadReaderBuffer::KernelBorrowed(items, _) => items@,
        }
    }
}

impl<T: 'static> PayloadReaderBuffer<T> {
    pub fn as_slice(&self) -> (r: &[T])
        ensures
            r@ == self@,
    {
        match self {
            PayloadReaderBuffer::Owned(items) => items.as_slice(),
            PayloadReaderBuffer::KernelBorrowed(items, _) => items,
        }
    }

    /// What tells the driver that a buffer is no longer needed.
    pub open spec fn to_free(self) -> Seq<DriverCommand> {
        match self {
            PayloadReaderBuffer::Owned(_) => Seq::empty(),
            PayloadReaderBuffer::KernelBorrowed(_, address) => seq![
                DriverCommand::FreeBuffer(address),
            ],
        }
    }

    /// Puts what gives the buffer back to the driver at the end of `commands`.
    pub fn free(&self, commands: &mut Vec<DriverCommand>)
        ensures
            final(commands)@ == old(commands)@ + self.to_free(),
    {
        if let PayloadReaderBuffer::KernelBorrowed(_, address) = self {
            commands.push(DriverCommand::FreeBuffer(*address));
        }
        assert(commands@ =~= old(commands)@ + self.to_free());
    }
}

/// What a reader reads, and how far it is.
#[verifier::ext_equal]
pub struct ReaderView {
    pub data: Seq<u8>,
    pub offsets: Option<Seq<usize>>,
    /// Which object is next.
    pub next_offset_index: usize,
    /// Where the next bytes are.
    pub next_data_index: usize,
}

/// The first place in a list that does not lie before `at`.
pub open spec fn first_from(offsets: Seq<usize>, at: usize) -> Option<usize>
    decreases offsets.len(),
{
    if offsets.len() == 0 {
        None
    } else if offsets[0] >= at {
        Some(offsets[0])
    } else {
        first_from(offsets.drop_first(), at)
    }
}

/// What an object in a payload stands for when it is received: the object or reference, the
/// device afterwards, and what the driver has to be told.
pub open spec fn received(flat: FlatBinderObject, d: DeviceView) -> Result<
    (BinderObjectOrRef, DeviceView, Seq<DriverCommand>),
    PayloadPortReadError,
> {
    let id = BinderObjectId { id: flat.data.word, cookie: flat.cookie };
    let handle = first_word(flat.data.word);
    if flat.hdr.type_.0 == BinderType::BINDER {
        if d.objects.dom().contains(key_of(id)) {
            Ok((BinderObjectOrRef::Object(UntypedBinderObject(id)), d, Seq::empty()))
        } else {
            Err(PayloadPortReadError::UnknownOwnedPort)
        }
    } else if flat.hdr.type_.0 == BinderType::WEAK_BINDER {
        Ok((BinderObjectOrRef::WeakObject(WeakBinderObject { id }), d, Seq::empty()))
    } else if flat.hdr.type_.0 == BinderType::HANDLE {
        let (e, commands, cookie) = d.strong_taken(handle);
        let weak = WeakBinderRef { id: handle, cookie };
        Ok((BinderObjectOrRef::Ref(BinderRef { weak }), e, commands))
    } else if flat.hdr.type_.0 == BinderType::WEAK_HANDLE {
        let (e, commands, cookie) = d.weak_taken(handle);
        Ok((BinderObjectOrRef::WeakRef(WeakBinderRef { id: handle, cookie }), e, commands))
    } else {
        Err(PayloadPortReadError::IncorrectObject)
    }
}

impl ReaderView {
    /// The place of the next object.
    pub open spec fn next_offset(self) -> Option<usize> {
        match self.offsets {
            Some(offsets) => if self.next_offset_index < offsets.len() {
                Some(offsets[self.next_offset_index as int])
            } else {
                None
            },
            None => None,
        }
    }

    /// The places of the objects that were not read.
    pub open spec fn unread(self) -> Seq<usize> {
        match self.offsets {
            Some(offsets) => if self.next_offset_index <= offsets.len() {
                offsets.skip(self.next_offset_index as int)
            } else {
                Seq::empty()
            },
            None => Seq::empty(),
        }
    }

    /// The first unread object at the cursor or behind it.
    pub open spec fn next_target(self) -> Option<usize> {
        first_from(self.unread(), self.next_data_index)
    }

    /// How many bytes there are before the next object, or before the end.
    pub open spec fn distance(self) -> int {
        match self.next_target() {
            Some(target) => target - self.next_data_index,
            None => self.data.len() - self.next_data_index,
        }
    }

    /// The cursor is inside the data.
    pub open spec fn wf(self) -> bool {
        &&& self.next_data_index <= self.data.len() <= usize::MAX
        &&& self.offsets matches Some(offsets) ==> self.next_offset_index <= offsets.len()
            <= usize::MAX
    }

    /// Whether there are `n` bytes of the next object, if there is one.
    pub open spec fn next_has(self, n: int) -> bool {
        self.next_offset() matches Some(offset) ==> offset + n <= self.data.len()
    }

    /// The type of the next object.
    pub open spec fn next_type(self) -> u32 {
        type_at(self.data, self.next_offset()->0 as int)
    }

    /// The bytes of the next object.
    pub open spec fn next_bytes(self) -> Seq<u8> {
        let offset = self.next_offset()->0 as int;
        self.data.subrange(offset, offset + 24)
    }

    /// Whether the next object can be read as a port, as far as its bytes go.
    pub open spec fn port_fits(self) -> bool {
        &&& self.next_has(4)
        &&& self.next_offset() is Some && BinderType(self.next_type()).names_port()
            ==> self.next_has(24)
    }

    /// Whether one more share of the references to the next object can be counted, if it is a
    /// handle.
    pub open spec fn port_counts(self, d: DeviceView) -> bool {
        let handle = first_word(FlatBinderObject::decoded(self.next_bytes()).data.word);
        &&& self.next_offset() is Some && self.next_type() == BinderType::HANDLE ==> d.strong(
            handle,
        ) < u64::MAX && d.weak(handle) < u64::MAX
        &&& self.next_offset() is Some && self.next_type() == BinderType::WEAK_HANDLE ==> d.weak(
            handle,
        ) < u64::MAX
    }

    /// Whether the next object can be read as an open file, as far as its bytes go.
    pub open spec fn fd_fits(self) -> bool {
        &&& self.next_has(4)
        &&& self.next_offset() is Some && self.next_type() == BinderType::FD ==> self.next_has(24)
    }

    /// The reader after the next object.
    pub open spec fn past_object(self) -> Self {
        ReaderView {
            next_offset_index: (self.next_offset_index + 1) as usize,
            next_data_index: (self.next_offset()->0 + 24) as usize,
            ..self
        }
    }

    /// The reader after some bytes.
    pub open spec fn past_bytes(self, n: int) -> Self {
        ReaderView { next_data_index: (self.next_data_index + n) as usize, ..self }
    }

    /// Whether the next `n` bytes reach into an object.
    pub open spec fn blocked(self, n: int) -> bool {
        self.next_target() matches Some(target) && self.next_data_index + n > target
    }

    /// What reading some bytes gives.
    pub open spec fn bytes(self, n: int) -> Result<Seq<u8>, PayloadBytesReadError> {
        if self.blocked(n) {
            Err(PayloadBytesReadError::ReadingIntoObject)
        } else if self.next_data_index + n <= self.data.len() {
            Ok(self.data.subrange(self.next_data_index as int, self.next_data_index + n))
        } else {
            Err(PayloadBytesReadError::OutOfBounds)
        }
    }

    /// What reading a port gives.
    pub open spec fn port(self, d: DeviceView) -> Result<
        (BinderObjectOrRef, DeviceView, Seq<DriverCommand>),
        PayloadPortReadError,
    > {
        if self.next_offset() is None {
            Err(PayloadPortReadError::Empty)
        } else if !BinderType(self.next_type()).names_port() {
            Err(PayloadPortReadError::IncorrectObject)
        } else {
            received(FlatBinderObject::decoded(self.next_bytes()), d)
        }
    }

    /// What reading an open file gives: the file and its cookie.
    pub open spec fn fd(self) -> Result<(RawFd, u64), PayloadObjectReadError> {
        if self.next_offset() is None {
            Err(PayloadObjectReadError::Empty)
        } else if self.next_type() != BinderType::FD {
            Err(PayloadObjectReadError::IncorrectObject)
        } else {
            let object = BinderFdObject::decoded(self.next_bytes());
            Ok((signed(first_word(object.data.word)), object.cookie))
        }
    }

    /// The kind of the next object.
    pub open spec fn kind(self) -> Option<BinderObjectType> {
        if self.next_offset() is None {
            None
        } else {
            kind_of(self.next_type())
        }
    }
}

/// The kind of object that a type stands for.
pub open spec fn kind_of(type_: u32) -> Option<BinderObjectType> {
    if type_ == BinderType::BINDER {
        Some(BinderObjectType::OwnedPort)
    } else if type_ == BinderType::HANDLE {
        Some(BinderObjectType::PortHandle)
    } else if type_ == BinderType::WEAK_BINDER {
        Some(BinderObjectType::WeakOwnedPort)
    } else if type_ == BinderType::WEAK_HANDLE {
        Some(BinderObjectType::WeakPortHandle)
    } else if type_ == BinderType::FD {
        Some(BinderObjectType::Fd)
    } else if type_ == BinderType::FDA {
        Some(BinderObjectType::FdArray)
    } else if type_ == BinderType::PTR {
        Some(BinderObjectType::Buffer)
    } else {
        None
    }
}

/// Reads a payload from front to back.
pub struct PayloadReader {
    data: PayloadReaderBuffer<u8>,
    offsets: Option<PayloadReaderBuffer<usize>>,
    next_offset_index: usize,
    next_data_index: usize,
}

impl View for PayloadReader {
    type V = ReaderView;

    closed spec fn view(&self) -> ReaderView {
        ReaderView {
            data: self.data@,
            offsets: match self.offsets {
                Some(offsets) => Some(offsets@),
                None => None,
            },
            next_offset_index: self.next_offset_index,
            next_data_index: self.next_data_index,
        }
    }
}

/// Finds the first place in a list, from the `start`-th on, that does not lie before `at`.
fn find_from(offsets: &[usize], start: usize, at: usize) -> (r: Option<usize>)
    requires
        start <= offsets@.len(),
    ensures
        r == first_from(offsets@.skip(start as int), at),
{
    let mut i: usize = start;
    while i < offsets.len()
        invariant
            start <= i <= offsets@.len(),
            first_from(offsets@.skip(start as int), at) == first_from(offsets@.skip(i as int), at),
        decreases offsets@.len() - i,
    {
        if offsets[i] >= at {
            return Some(offsets[i]);
        }
        assert(offsets@.skip(i as int).drop_first() =~= offsets@.skip(i + 1));
        i += 1;
    }
    None
}

impl PayloadReader {
    /// What gives the buffers back to the driver, the data before the places of the objects.
    pub closed spec fn to_free(self) -> Seq<DriverCommand> {
        self.data.to_free() + (match self.offsets {
            Some(offsets) => offsets.to_free(),
            None => Seq::empty(),
        })
    }

    /// A reader over buffers that the driver lent: the data, the places of the objects, and
    /// the addresses of both. Without an address there are no places.
    pub fn from_kernel_raw(
        data: &'static [u8],
        data_address: u64,
        offsets: &'static [usize],
        offsets_address: u64,
    ) -> (r: Self)
        ensures
            r@ == (ReaderView {
                data: data@,
                offsets: if offsets_address == 0 {
                    None
                } else {
                    Some(offsets@)
                },
                next_offset_index: 0,
                next_data_index: 0,
            }),
            r.to_free() == (if offsets_address == 0 {
                seq![DriverCommand::FreeBuffer(data_address)]
            } else {
                seq![
                    DriverCommand::FreeBuffer(data_address),
                    DriverCommand::FreeBuffer(offsets_address),
                ]
            }),
            r@.wf(),
    {
        let r = PayloadReader {
            data: PayloadReaderBuffer::KernelBorrowed(data, data_address),
            offsets: if offsets_address == 0 {
                None
            } else {
                Some(PayloadReaderBuffer::KernelBorrowed(offsets, offsets_address))
            },
            next_offset_index: 0,
            next_data_index: 0,
        };
        proof {
            assert(data.len() <= usize::MAX && offsets.len() <= usize::MAX);
            assert(r.to_free() =~= if offsets_address == 0 {
                seq![DriverCommand::FreeBuffer(data_address)]
            } else {
                seq![
                    DriverCommand::FreeBuffer(data_address),
                    DriverCommand::FreeBuffer(offsets_address),
                ]
            });
        }
        r
    }

    /// How far the reader is in the data.
    pub fn position(&self) -> (r: usize)
        ensures
            r == self@.next_data_index,
    {
        self.next_data_index
    }

    /// Ends the reading. Every object that was not read is taken and dropped, and then the
    /// buffers are given back: what the driver has to be told of both, in this order, and the
    /// open files among the unread objects, which are to be closed.
    pub fn release(self, device: &mut BinderDevice) -> (r: (Vec<DriverCommand>, Vec<RawFd>))
        requires
            self@.wf(),
            old(device)@.wf(),
        ensures
            r.0@ == self@.ended(old(device)@).1 + self.to_free(),
            r.1@ == self@.ended(old(device)@).2,
            final(device)@ == self@.ended(old(device)@).0,
            final(device)@.wf(),
    {
        let mut commands: Vec<DriverCommand> = Vec::new();
        let mut files: Vec<RawFd> = Vec::new();
        let ghost before = device@;
        let ghost places = self@.unread();
        assert(places.take(0) =~= Seq::empty());
        if let Some(offsets) = &self.offsets {
            let offsets = offsets.as_slice();
            let start: usize = self.next_offset_index;
            let mut i: usize = start;
            while i < offsets.len()
                invariant
                    start <= i <= offsets@.len(),
                    self@.wf(),
                    device@.wf(),
                    places == offsets@.skip(start as int),
                    places == self@.unread(),
                    (device@, commands@, files@) == drained(
                        self@.data,
                        places.take(i - start),
                        before,
                    ),
                decreases offsets@.len() - i,
            {
                proof {
                    assert(places.take(i - start + 1).drop_last() =~= places.take(i - start));
                    assert(places.take(i - start + 1).last() == offsets@[i as int]);
                }
                self.drop_object(offsets[i], device, &mut commands, &mut files);
                i += 1;
            }
            assert(places.take(i - start) =~= places);
        }
        assert(places.take(places.len() as int) =~= places);
        self.data.free(&mut commands);
        if let Some(offsets) = &self.offsets {
            offsets.free(&mut commands);
        }
        assert(commands@ =~= self@.ended(before).1 + self.to_free());
        (commands, files)
    }

    /// Takes and drops the object at a place, as far as the data hold it.
    fn drop_object(
        &self,
        offset: usize,
        device: &mut BinderDevice,
        commands: &mut Vec<DriverCommand>,
        files: &mut Vec<RawFd>,
    )
        requires
            self@.wf(),
            old(device)@.wf(),
        ensures
            final(device)@ == dropped_at(self@.data, offset as int, old(device)@).0,
            final(commands)@ == old(commands)@ + dropped_at(
                self@.data,
                offset as int,
                old(device)@,
            ).1,
            final(files)@ == old(files)@ + file_at(self@.data, offset as int),
            final(device)@.wf(),
    {
        let ghost (c, f) = (commands@, files@);
        assert(c + Seq::<DriverCommand>::empty() =~= c);
        assert(f + Seq::<RawFd>::empty() =~= f);
        let data = self.data.as_slice();
        if data.len() < 24 || offset > data.len() - 24 {
            return ;
        }
        let flat = FlatBinderObject::read(data, offset);
        proof {
            let b = self@.data.subrange(offset as int, offset + 24);
            assert(b.subrange(0, 4) =~= self@.data.subrange(offset as int, offset + 4));
        }
        let type_: u32 = flat.hdr.type_.0;
        let handle: u32 = flat.data.handle();
        if type_ == BinderType::HANDLE {
            if device.can_share_strong(handle) && device.can_share_weak(handle) {
                let (port, mut taken) = BinderRef::get_and_dedup_from_raw(device, handle);
                let mut dropped: Vec<DriverCommand> = port.release(device);
                commands.append(&mut taken);
                commands.append(&mut dropped);
                assert(commands@ =~= c + dropped_at(self@.data, offset as int, old(device)@).1);
            }
        } else if type_ == BinderType::WEAK_HANDLE {
            if device.can_share_weak(handle) {
                let (port, mut taken) = WeakBinderRef::get_and_dedup_from_raw(device, handle);
                assert(old(device)@.strong(handle) > 0 ==> old(device)@.weak(handle) > 0);
                let mut dropped: Vec<DriverCommand> = port.release(device);
                commands.append(&mut taken);
                commands.append(&mut dropped);
                assert(commands@ =~= c + dropped_at(self@.data, offset as int, old(device)@).1);
            }
        } else if type_ == BinderType::FD {
            files.push(BinderFdObject::read(data, offset).data.fd());
            assert(files@ =~= f + file_at(self@.data, offset as int));
        }
    }

    /// Reads the next bytes, which may reach up to an object but not into it.
    pub fn read_bytes(&mut self, num_bytes: usize) -> (r: Result<&[u8], PayloadBytesReadError>)
        requires
            old(self)@.wf(),
            old(self)@.next_data_index + num_bytes <= usize::MAX,
        ensures
            match r {
                Ok(bytes) => old(self)@.bytes(num_bytes as int) == Ok::<
                    Seq<u8>,
                    PayloadBytesReadError,
                >(bytes@) && final(self)@ == old(self)@.past_bytes(num_bytes as int),
                Err(e) => old(self)@.bytes(num_bytes as int) == Err::<
                    Seq<u8>,
                    PayloadBytesReadError,
                >(e) && final(self)@ == old(self)@,
            },
            final(self).to_free() == old(self).to_free(),
            final(self)@.wf(),
    {
        let start: usize = self.next_data_index;
        let end: usize = start + num_bytes;
        let target: Option<usize> = match &self.offsets {
            Some(offsets) => find_from(offsets.as_slice(), self.next_offset_index, start),
            None => None,
        };
        if let Some(target) = target {
            if end > target {
                return Err(PayloadBytesReadError::ReadingIntoObject);
            }
        }
        if end > self.data.as_slice().len() {
            return Err(PayloadBytesReadError::OutOfBounds);
        }
        self.next_data_index = end;
        Ok(vstd::slice::slice_subrange(self.data.as_slice(), start, end))
    }

    /// The place of the next object.
    fn next_object(&self) -> (r: Option<usize>)
        ensures
            r == self@.next_offset(),
    {
        match &self.offsets {
            Some(offsets) => {
                let offsets = offsets.as_slice();
                if self.next_offset_index < offsets.len() {
                    Some(offsets[self.next_offset_index])
                } else {
                    None
                }
            },
            None => None,
        }
    }

    /// Whether the data hold so many bytes of the next object, if there is one.
    fn next_holds(&self, n: usize) -> (r: bool)
        requires
            self@.wf(),
        ensures
            r == self@.next_has(n as int),
    {
        match self.next_object() {
            Some(offset) => {
                let len: usize = self.data.as_slice().len();
                len >= n && offset <= len - n
            },
            None => true,
        }
    }

    /// Whether the data hold the type of the next object, if there is one.
    pub fn next_header_fits(&self) -> (r: bool)
        requires
            self@.wf(),
        ensures
            r == self@.next_has(4),
    {
        self.next_holds(4)
    }

    /// Whether the next object can be read as an open file, as far as its bytes go.
    pub fn can_read_fd(&self) -> (r: bool)
        requires
            self@.wf(),
        ensures
            r == self@.fd_fits(),
    {
        if !self.next_holds(4) {
            return false;
        }
        match self.next_object() {
            Some(offset) => get_u32(self.data.as_slice(), offset) != BinderType::FD
                || self.next_holds(24),
            None => true,
        }
    }

    /// Whether the next object can be read as a port: the data hold what is looked at, and if
    /// it is a handle, one more share of its references can be counted.
    pub fn can_read_port(&self, device: &BinderDevice) -> (r: bool)
        requires
            self@.wf(),
        ensures
            r == (self@.port_fits() && self@.port_counts(device@)),
    {
        if !self.next_holds(4) {
            return false;
        }
        match self.next_object() {
            Some(offset) => {
                let data = self.data.as_slice();
                let type_: u32 = get_u32(data, offset);
                if !BinderType(type_).is_port() {
                    return true;
                }
                if !self.next_holds(24) {
                    return false;
                }
                let handle: u32 = FlatBinderObject::read(data, offset).data.handle();
                if type_ == BinderType::HANDLE {
                    device.can_share_strong(handle) && device.can_share_weak(handle)
                } else if type_ == BinderType::WEAK_HANDLE {
                    device.can_share_weak(handle)
                } else {
                    true
                }
            },
            None => true,
        }
    }

    /// Reads the next object as a port. For a handle this takes a share of its reference;
    /// what the driver has to be told of that comes with it.
    pub fn read_port(&mut self, device: &mut BinderDevice) -> (r: Result<
        (BinderObjectOrRef, Vec<DriverCommand>),
        PayloadPortReadError,
    >)
        requires
            old(self)@.wf(),
            old(self)@.port_fits(),
            old(device)@.wf(),
            old(self)@.port_counts(old(device)@),
        ensures
            match r {
                Ok((port, commands)) => old(self)@.port(old(device)@) == Ok::<
                    (BinderObjectOrRef, DeviceView, Seq<DriverCommand>),
                    PayloadPortReadError,
                >((port, final(device)@, commands@)) && final(self)@ == old(self)@.past_object(),
                Err(e) => old(self)@.port(old(device)@) == Err::<
                    (BinderObjectOrRef, DeviceView, Seq<DriverCommand>),
                    PayloadPortReadError,
                >(e) && final(self)@ == old(self)@ && final(device)@ == old(device)@,
            },
            final(self).to_free() == old(self).to_free(),
            final(self)@.wf(),
            final(device)@.wf(),
    {
        let offset: usize = match self.next_object() {
            Some(offset) => offset,
            None => {
                return Err(PayloadPortReadError::Empty);
            },
        };
        let data = self.data.as_slice();
        if !BinderType(get_u32(data, offset)).is_port() {
            return Err(PayloadPortReadError::IncorrectObject);
        }
        let flat = FlatBinderObject::read(data, offset);
        assert(self@.next_bytes().subrange(0, 4) =~= self@.data.subrange(
            offset as int,
            offset + 4,
        ));
        let type_: u32 = flat.hdr.type_.0;
        let id = BinderObjectId::from_raw(flat.data.binder(), flat.cookie);
        let (port, commands) = if type_ == BinderType::BINDER {
            if device.get_handler(&id).is_none() {
                return Err(PayloadPortReadError::UnknownOwnedPort);
            }
            (BinderObjectOrRef::Object(UntypedBinderObject(id)), Vec::new())
        } else if type_ == BinderType::WEAK_BINDER {
            (BinderObjectOrRef::WeakObject(WeakBinderObject::from_id(id)), Vec::new())
        } else if type_ == BinderType::HANDLE {
            let (port, commands) = BinderRef::get_and_dedup_from_raw(device, flat.data.handle());
            (BinderObjectOrRef::Ref(port), commands)
        } else {
            let (port, commands) = WeakBinderRef::get_and_dedup_from_raw(
                device,
                flat.data.handle(),
            );
            (BinderObjectOrRef::WeakRef(port), commands)
        };
        self.next_offset_index = self.next_offset_index + 1;
        self.next_data_index = offset + 24;
        Ok((port, commands))
    }

    /// Reads the next object as an open file with its cookie.
    pub fn read_fd(&mut self) -> (r: Result<(RawFd, u64), PayloadObjectReadError>)
        requires
            old(self)@.wf(),
            old(self)@.fd_fits(),
        ensures
            r == old(self)@.fd(),
            final(self)@ == (if r is Ok {
                old(self)@.past_object()
            } else {
                old(self)@
            }),
            final(self).to_free() == old(self).to_free(),
            final(self)@.wf(),
    {
        let offset: usize = match self.next_object() {
            Some(offset) => offset,
            None => {
                return Err(PayloadObjectReadError::Empty);
            },
        };
        let data = self.data.as_slice();
        if get_u32(data, offset) != BinderType::FD {
            return Err(PayloadObjectReadError::IncorrectObject);
        }
        let object = BinderFdObject::read(data, offset);
        self.next_offset_index = self.next_offset_index + 1;
        self.next_data_index = offset + 24;
        Ok((object.data.fd(), object.cookie))
    }

    /// The kind of the next object.
    pub fn next_object_type(&self) -> (r: Option<BinderObjectType>)
        requires
            self@.wf(),
            self@.next_has(4),
        ensures
            r == self@.kind(),
    {
        let offset: usize = match self.next_object() {
            Some(offset) => offset,
            None => {
                return None;
            },
        };
        let type_: u32 = get_u32(self.data.as_slice(), offset);
        if type_ == BinderType::BINDER {
            Some(BinderObjectType::OwnedPort)
        } else if type_ == BinderType::HANDLE {
            Some(BinderObjectType::PortHandle)
        } else if type_ == BinderType::WEAK_BINDER {
            Some(BinderObjectType::WeakOwnedPort)
        } else if type_ == BinderType::WEAK_HANDLE {
            Some(BinderObjectType::WeakPortHandle)
        } else if type_ == BinderType::FD {
            Some(BinderObjectType::Fd)
        } else if type_ == BinderType::FDA {
            Some(BinderObjectType::FdArray)
        } else if type_ == BinderType::PTR {
            Some(BinderObjectType::Buffer)
        } else {
            None
        }
    }

    /// How many bytes there are before the next unread object, or before the end. Bytes that
    /// align the object count. Where an object is next, it is zero.
    pub fn bytes_until_next_obj(&self) -> (r: usize)
        requires
            self@.wf(),
        ensures
            r == self@.distance(),
    {
        let target: Option<usize> = match &self.offsets {
            Some(offsets) => find_from(
                offsets.as_slice(),
                self.next_offset_index,
                self.next_data_index,
            ),
            None => None,
        };
        proof {
            lemma_first_from(self@.unread(), self@.next_data_index);
        }
        match target {
            Some(target) => target - self.next_data_index,
            None => self.data.as_slice().len() - self.next_data_index,
        }
    }
}

/// What is found from a place on does not lie before it and is in the list.
proof fn lemma_first_from(offsets: Seq<usize>, at: usize)
    ensures
        first_from(offsets, at) matches Some(target) ==> target >= at && offsets.contains(target),
        first_from(offsets, at) is None ==> forall|i: int|
            0 <= i < offsets.len() ==> #[trigger] offsets[i] < at,
    decreases offsets.len(),
{
    if offsets.len() > 0 {
        let rest = offsets.drop_first();
        if offsets[0] < at {
            lemma_first_from(rest, at);
            match first_from(offsets, at) {
                Some(target) => {
                    let i = choose|i: int| 0 <= i < rest.len() && rest[i] == target;
                    assert(offsets[i + 1] == target);
                },
                None => {
                    assert forall|i: int| 0 <= i < offsets.len() implies #[trigger] offsets[i]
                        < at by {
                        if i > 0 {
                            assert(rest[i - 1] == offsets[i]);
                        }
                    }
                },
            }
        } else {
            assert(offsets[0] == first_from(offsets, at)->0);
        }
    }
}

/// Taking the object at a place and dropping it: the device afterwards, and what the driver
/// has to be told. Only references ask for something, and one of whose shares no more can be
/// counted, or that the data do not hold, is left alone.
pub open spec fn dropped_at(data: Seq<u8>, offset: int, d: DeviceView) -> (
    DeviceView,
    Seq<DriverCommand>,
) {
    let flat = FlatBinderObject::decoded(data.subrange(offset, offset + 24));
    let handle = first_word(flat.data.word);
    if offset + 24 > data.len() {
        (d, Seq::empty())
    } else if flat.hdr.type_.0 == BinderType::HANDLE && d.strong(handle) < u64::MAX && d.weak(
        handle,
    ) < u64::MAX {
        let (e, taken, _) = d.strong_taken(handle);
        let (f, dropped) = e.strong_dropped(handle);
        (f, taken + dropped)
    } else if flat.hdr.type_.0 == BinderType::WEAK_HANDLE && d.weak(handle) < u64::MAX {
        let (e, taken, _) = d.weak_taken(handle);
        let (f, dropped) = e.weak_dropped(handle);
        (f, taken + dropped)
    } else {
        (d, Seq::empty())
    }
}

/// The open file that the object at a place stands for, if it stands for one.
pub open spec fn file_at(data: Seq<u8>, offset: int) -> Seq<RawFd> {
    let object = BinderFdObject::decoded(data.subrange(offset, offset + 24));
    if offset + 24 <= data.len() && object.hdr.type_.0 == BinderType::FD {
        seq![signed(first_word(object.data.word))]
    } else {
        Seq::empty()
    }
}

/// Taking and dropping the objects at some places one after the other: the device afterwards,
/// what the driver has to be told, and the open files among them.
pub open spec fn drained(data: Seq<u8>, places: Seq<usize>, d: DeviceView) -> (
    DeviceView,
    Seq<DriverCommand>,
    Seq<RawFd>,
)
    decreases places.len(),
{
    if places.len() == 0 {
        (d, Seq::empty(), Seq::empty())
    } else {
        let (e, commands, files) = drained(data, places.drop_last(), d);
        let offset = places.last() as int;
        let (f, more) = dropped_at(data, offset, e);
        (f, commands + more, files + file_at(data, offset))
    }
}

impl ReaderView {
    /// What ending the reading does with the objects that were not read.
    pub open spec fn ended(self, d: DeviceView) -> (DeviceView, Seq<DriverCommand>, Seq<RawFd>) {
        drained(self.data, self.unread(), d)
    }
}

/// How many open files there are among the objects.
pub open spec fn fd_count(data: Seq<u8>, offsets: Seq<usize>) -> nat
    decreases offsets.len(),
{
    if offsets.len() == 0 {
        0
    } else {
        fd_count(data, offsets.drop_last()) + (if type_at(data, offsets.last() as int)
            == BinderType::FD {
            1nat
        } else {
            0
        })
    }
}

/// The data with another string in place of a part.
pub open spec fn overwritten(data: Seq<u8>, at: int, bytes: Seq<u8>) -> Seq<u8> {
    data.subrange(0, at) + bytes + data.subrange(at + bytes.len(), data.len() as int)
}

/// The data with other open files: the first file among the objects becomes the first of
/// `fds`, and so on.
pub open spec fn with_fds(data: Seq<u8>, offsets: Seq<usize>, fds: Seq<RawFd>) -> Seq<u8>
    decreases offsets.len(),
{
    if offsets.len() == 0 {
        data
    } else {
        let rest = with_fds(data, offsets.drop_last(), fds);
        let offset = offsets.last() as int;
        if type_at(data, offset) == BinderType::FD {
            let fd = fds[fd_count(data, offsets.drop_last()) as int];
            overwritten(rest, offset + 8, ne64(BinderFdObjectData::of_fd(fd).word))
        } else {
            rest
        }
    }
}

impl PayloadView {
    /// Whether there is a buffer among the objects.
    pub open spec fn has_buffers(self) -> bool {
        exists|i: int|
            0 <= i < self.offsets.len() && type_at(self.data, #[trigger] self.offsets[i] as int)
                == BinderType::PTR
    }
}

/// Puts a string in place of a part of the data.
fn overwrite(data: &mut Vec<u8>, at: usize, bytes: &[u8])
    requires
        at + bytes@.len() <= old(data)@.len(),
    ensures
        final(data)@ == overwritten(old(data)@, at as int, bytes@),
{
    let ghost before = data@;
    let mut i: usize = 0;
    assert(data.len() <= usize::MAX);
    assert(data@ =~= overwritten(before, at as int, bytes@.take(0)));
    while i < bytes.len()
        invariant
            i <= bytes@.len(),
            at + bytes@.len() <= before.len(),
            before.len() <= usize::MAX,
            data@ == overwritten(before, at as int, bytes@.take(i as int)),
        decreases bytes@.len() - i,
    {
        data.set(at + i, bytes[i]);
        i += 1;
        assert(data@ =~= overwritten(before, at as int, bytes@.take(i as int)));
    }
    assert(bytes@.take(i as int) =~= bytes@);
}

impl<'a> PayloadBuilder<'a> {
    /// Whether there is a buffer among the objects.
    pub fn contains_buffers(&self) -> (r: bool)
        requires
            self@.wf(),
        ensures
            r == self@.has_buffers(),
    {
        let data = self.data.as_slice();
        let mut i: usize = 0;
        while i < self.obj_offsets.len()
            invariant
                i <= self.obj_offsets@.len(),
                self@.wf(),
                data@ == self@.data,
                forall|j: int|
                    0 <= j < i ==> type_at(self@.data, #[trigger] self@.offsets[j] as int)
                        != BinderType::PTR,
            decreases self.obj_offsets@.len() - i,
        {
            let offset: usize = self.obj_offsets[i];
            assert(offset == self@.offsets[i as int]);
            if get_u32(data, offset) == BinderType::PTR {
                return true;
            }
            i += 1;
        }
        false
    }

    /// The open files among the objects, in their order.
    pub fn files_among_objects(&self) -> (r: Vec<RawFd>)
        requires
            self@.wf(),
        ensures
            r@ == objects_fds(self@.data, self@.offsets),
            r@.len() == fd_count(self@.data, self@.offsets),
    {
        let data = self.data.as_slice();
        let mut fds: Vec<RawFd> = Vec::new();
        let mut i: usize = 0;
        assert(self@.offsets.take(0) =~= Seq::empty());
        while i < self.obj_offsets.len()
            invariant
                i <= self.obj_offsets@.len(),
                self@.wf(),
                data@ == self@.data,
                fds@ == objects_fds(self@.data, self@.offsets.take(i as int)),
                fds@.len() == fd_count(self@.data, self@.offsets.take(i as int)),
            decreases self.obj_offsets@.len() - i,
        {
            let offset: usize = self.obj_offsets[i];
            assert(offset == self@.offsets[i as int]);
            assert(self@.offsets.take(i + 1).drop_last() =~= self@.offsets.take(i as int));
            if get_u32(data, offset) == BinderType::FD {
                fds.push(BinderFdObject::read(data, offset).data.fd());
            }
            i += 1;
        }
        assert(self@.offsets.take(i as int) =~= self@.offsets);
        fds
    }
}

/// The open files among the objects, in their order.
pub open spec fn objects_fds(data: Seq<u8>, offsets: Seq<usize>) -> Seq<RawFd>
    decreases offsets.len(),
{
    if offsets.len() == 0 {
        Seq::empty()
    } else {
        let rest = objects_fds(data, offsets.drop_last());
        let offset = offsets.last() as int;
        if type_at(data, offset) == BinderType::FD {
            let object = BinderFdObject::decoded(data.subrange(offset, offset + 24));
            rest.push(signed(first_word(object.data.word)))
        } else {
            rest
        }
    }
}

impl PayloadReader {
    /// A reader of what was built, without a driver in between. The caller has duplicated the
    /// open files among the objects; the reader has the duplicates in their place.
    pub fn from_builder(builder: &PayloadBuilder<'_>, duplicates: &[RawFd]) -> (r: Self)
        requires
            builder@.wf(),
            !builder@.has_buffers(),
            duplicates@.len() == fd_count(builder@.data, builder@.offsets),
        ensures
            r@ == (ReaderView {
                data: with_fds(builder@.data, builder@.offsets, duplicates@),
                offsets: Some(builder@.offsets),
                next_offset_index: 0,
                next_data_index: 0,
            }),
            r.to_free() == Seq::<DriverCommand>::empty(),
            r@.wf(),
    {
        let ghost p = builder@;
        let mut main_data: Vec<u8> = Vec::new();
        put_bytes(&mut main_data, builder.data());
        let mut offsets: Vec<usize> = Vec::new();
        let mut used: usize = 0;
        let mut i: usize = 0;
        assert(main_data@ =~= p.data);
        assert(p.offsets.take(0) =~= Seq::empty());
        while i < builder.offsets().len()
            invariant
                i <= p.offsets.len(),
                p == builder@,
                p.wf(),
                main_data@ == with_fds(p.data, p.offsets.take(i as int), duplicates@),
                main_data@.len() == p.data.len(),
                forall|j: int|
                    0 <= j < p.offsets.len() ==> type_at(
                        main_data@,
                        #[trigger] p.offsets[j] as int,
                    ) == type_at(p.data, p.offsets[j] as int),
                offsets@ == p.offsets.take(i as int),
                used == fd_count(p.data, p.offsets.take(i as int)),
                duplicates@.len() == fd_count(p.data, p.offsets),
            decreases p.offsets.len() - i,
        {
            let offset: usize = builder.offsets()[i];
            let ghost before = main_data@;
            proof {
                assert(offset == p.offsets[i as int]);
                assert(p.offsets.take(i + 1).drop_last() =~= p.offsets.take(i as int));
                lemma_fd_count_grows(p.data, p.offsets, i + 1);
            }
            offsets.push(offset);
            if get_u32(main_data.as_slice(), offset) == BinderType::FD {
                let mut word: Vec<u8> = Vec::new();
                put_u64(&mut word, BinderFdObjectData::from_fd(duplicates[used]).word);
                proof {
                    broadcast use ne64_facts;

                    assert(word@ =~= ne64(BinderFdObjectData::of_fd(duplicates@[used as int]).word));
                }
                overwrite(&mut main_data, offset + 8, word.as_slice());
                used += 1;
                proof {
                    assert(main_data@.len() == p.data.len());
                    assert forall|j: int| 0 <= j < p.offsets.len() implies type_at(
                        main_data@,
                        #[trigger] p.offsets[j] as int,
                    ) == type_at(p.data, p.offsets[j] as int) by {
                        let o = p.offsets[j] as int;
                        assert(p.offsets[i as int] + 24 <= p.data.len());
                        assert(main_data@.subrange(o, o + 4) =~= before.subrange(o, o + 4));
                    }
                }
            }
            assert(offsets@ =~= p.offsets.take(i + 1));
            i += 1;
        }
        assert(p.offsets.take(i as int) =~= p.offsets);
        let r = PayloadReader {
            data: PayloadReaderBuffer::Owned(main_data),
            offsets: Some(PayloadReaderBuffer::Owned(offsets)),
            next_offset_index: 0,
            next_data_index: 0,
        };
        assert(offsets.len() <= usize::MAX);
        assert(r.to_free() =~= Seq::empty());
        r
    }
}

/// There are at most as many open files among the first objects as among all.
proof fn lemma_fd_count_grows(data: Seq<u8>, offsets: Seq<usize>, i: int)
    requires
        0 <= i <= offsets.len(),
    ensures
        fd_count(data, offsets.take(i)) <= fd_count(data, offsets),
    decreases offsets.len() - i,
{
    if i < offsets.len() {
        lemma_fd_count_grows(data, offsets, i + 1);
        assert(offsets.take(i + 1).drop_last() =~= offsets.take(i));
    } else {
        assert(offsets.take(i) =~= offsets);
    }
}

impl PayloadView {
    /// Whether a payload came from another one by putting more at its end.
    pub open spec fn extends(self, earlier: PayloadView) -> bool {
        &&& earlier.data.len() <= self.data.len()
        &&& self.data.take(earlier.data.len() as int) == earlier.data
        &&& earlier.offsets.len() <= self.offsets.len()
        &&& self.offsets.take(earlier.offsets.len() as int) == earlier.offsets
    }
}

impl ReaderView {
    /// Whether the reader reads this payload.
    pub open spec fn reads(self, p: PayloadView) -> bool {
        self.data == p.data && self.offsets == Some(p.offsets)
    }
}

/// What is put into a payload only extends it, and so does what is put there after that.
pub proof fn pushing_extends(p: PayloadView, later: PayloadView, bytes: Seq<u8>)
    requires
        later.extends(p),
    ensures
        p.extends(p),
        later.with_bytes(bytes).extends(p),
        later.with_object(bytes).extends(p),
{
    assert(p.data.take(p.data.len() as int) =~= p.data);
    assert(p.offsets.take(p.offsets.len() as int) =~= p.offsets);
    let n = p.data.len() as int;
    let m = p.offsets.len() as int;
    assert((later.data + bytes).take(n) =~= later.data.take(n));
    assert(later.with_object(bytes).offsets.take(m) =~= later.offsets.take(m));
}

/// Bytes that were put into a payload are read back at their place, whatever was put behind
/// them.
pub proof fn pushed_bytes_are_read(
    p: PayloadView,
    bytes: Seq<u8>,
    later: PayloadView,
    reader: ReaderView,
)
    requires
        p.wf(),
        later.wf(),
        later.extends(p.with_bytes(bytes)),
        reader.reads(later),
        reader.next_data_index == p.data.len(),
        forall|i: int|
            p.offsets.len() <= i < later.offsets.len() ==> #[trigger] later.offsets[i]
                >= p.data.len() + bytes.len(),
    ensures
        reader.bytes(bytes.len() as int) == Ok::<Seq<u8>, PayloadBytesReadError>(bytes),
{
    let n = bytes.len() as int;
    let unread = reader.unread();
    lemma_first_from(unread, reader.next_data_index);
    if reader.next_target() is Some {
        let target = reader.next_target()->0;
        let k = choose|k: int| 0 <= k < unread.len() && unread[k] == target;
        let i = k + reader.next_offset_index;
        assert(later.offsets[i] == target);
        if i < p.offsets.len() {
            assert(later.offsets.take(p.offsets.len() as int)[i] == p.offsets[i]);
            assert(p.offsets[i] + 24 <= p.data.len());
        }
    }
    let m = p.data.len() as int;
    assert(later.data.subrange(m, m + n) =~= bytes) by {
        assert forall|i: int| 0 <= i < n implies later.data.subrange(m, m + n)[i] == bytes[i] by {
            assert(later.data.take(m + n)[m + i] == p.with_bytes(bytes).data[m + i]);
        }
    }
}

/// Bytes can be read in two parts, and then there is nothing left.
pub proof fn bytes_are_read_in_parts(bytes: Seq<u8>, fds: Seq<RawFd>, i: nat)
    requires
        bytes.len() <= usize::MAX,
        i <= bytes.len(),
    ensures
        ({
            let p = PayloadView::empty().with_bytes(bytes);
            let first = ReaderView {
                data: with_fds(p.data, p.offsets, fds),
                offsets: Some(p.offsets),
                next_offset_index: 0,
                next_data_index: 0,
            };
            let second = first.past_bytes(i as int);
            let third = second.past_bytes(bytes.len() - i);
            &&& first.distance() == bytes.len()
            &&& first.bytes(i as int) == Ok::<Seq<u8>, PayloadBytesReadError>(bytes.take(i as int))
            &&& second.bytes(bytes.len() - i) == Ok::<Seq<u8>, PayloadBytesReadError>(
                bytes.skip(i as int),
            )
            &&& third.distance() == 0
            &&& third.bytes(1) == Err::<Seq<u8>, PayloadBytesReadError>(
                PayloadBytesReadError::OutOfBounds,
            )
        }),
{
    let p = PayloadView::empty().with_bytes(bytes);
    assert(p.data =~= bytes);
    assert(p.offsets.skip(0) =~= Seq::empty());
    assert(bytes.subrange(0, i as int) =~= bytes.take(i as int));
    assert(bytes.subrange(i as int, bytes.len() as int) =~= bytes.skip(i as int));
}

/// The bytes before the next object can be read, all of them and no more, and after them the
/// object is next. This is how a payload is read from front to back.
pub proof fn block_before_object_is_read(reader: ReaderView, n: int)
    requires
        reader.wf(),
        reader.next_target() matches Some(target) ==> target <= reader.data.len(),
        n >= 0,
    ensures
        0 <= reader.distance(),
        n <= reader.distance() ==> reader.bytes(n) == Ok::<Seq<u8>, PayloadBytesReadError>(
            reader.data.subrange(reader.next_data_index as int, reader.next_data_index + n),
        ),
        n > reader.distance() ==> reader.bytes(n) is Err,
        reader.past_bytes(reader.distance()).next_target() == reader.next_target(),
        reader.past_bytes(reader.distance()).distance() == 0,
        reader.past_bytes(reader.distance()).wf(),
{
    let unread = reader.unread();
    lemma_first_from(unread, reader.next_data_index);
    let later = reader.past_bytes(reader.distance());
    assert(later.unread() == unread);
    lemma_first_from_found(unread, reader.next_data_index, later.next_data_index);
}

/// What is found from a place on is found from every place up to where it lies, and where
/// nothing is found, nothing is found further on.
proof fn lemma_first_from_found(offsets: Seq<usize>, at: usize, later: usize)
    requires
        at <= later,
        first_from(offsets, at) matches Some(target) ==> later <= target,
    ensures
        first_from(offsets, later) == first_from(offsets, at),
    decreases offsets.len(),
{
    if offsets.len() > 0 && offsets[0] < at {
        lemma_first_from_found(offsets.drop_first(), at, later);
    }
}

/// Reading bytes in two parts gives what reading them at once gives, and leaves the cursor at
/// the same place.
pub proof fn parts_make_up_the_whole(reader: ReaderView, i: nat, j: nat)
    requires
        reader.wf(),
        reader.bytes((i + j) as int) is Ok,
    ensures
        reader.bytes(i as int) is Ok,
        reader.past_bytes(i as int).bytes(j as int) is Ok,
        reader.bytes((i + j) as int)->Ok_0 == reader.bytes(i as int)->Ok_0 + reader.past_bytes(
            i as int,
        ).bytes(j as int)->Ok_0,
        reader.past_bytes(i as int).past_bytes(j as int) == reader.past_bytes((i + j) as int),
{
    let later = reader.past_bytes(i as int);
    assert(later.unread() == reader.unread());
    lemma_first_from_found(reader.unread(), reader.next_data_index, later.next_data_index);
    assert(reader.bytes((i + j) as int)->Ok_0 =~= reader.bytes(i as int)->Ok_0 + later.bytes(
        j as int,
    )->Ok_0);
}

/// An object that lies right behind the one that was read is next, with no bytes before it.
pub proof fn adjacent_object_is_next(reader: ReaderView)
    requires
        reader.wf(),
        reader.next_has(24),
        reader.next_offset() is Some,
        reader.past_object().next_offset() == Some(reader.past_object().next_data_index),
    ensures
        reader.past_object().distance() == 0,
        reader.past_object().bytes(0) is Ok,
        reader.past_object().bytes(1) == Err::<Seq<u8>, PayloadBytesReadError>(
            PayloadBytesReadError::ReadingIntoObject,
        ),
{
    let later = reader.past_object();
    assert(later.unread()[0] == later.next_data_index);
}

/// An object that was put into a payload is the next one for a reader that has read as many
/// objects as were put there before it, and its bytes are read back.
pub proof fn pushed_object_is_next(
    p: PayloadView,
    bytes: Seq<u8>,
    later: PayloadView,
    reader: ReaderView,
)
    requires
        p.wf(),
        bytes.len() >= 24,
        reader.wf(),
        later.extends(p.with_object(bytes)),
        reader.reads(later),
        reader.next_offset_index == p.offsets.len(),
    ensures
        reader.next_offset() == Some(p.data.len() as usize),
        reader.next_has(24),
        reader.next_bytes() == bytes.take(24),
        reader.next_type() == type_at(bytes, 0),
        reader.past_object().next_data_index == p.data.len() + 24,
        reader.past_object().next_offset_index == p.offsets.len() + 1,
{
    let q = p.with_object(bytes);
    let m = p.data.len() as int;
    let k = p.offsets.len() as int;
    assert(later.offsets.take(k + 1)[k] == q.offsets[k]);
    assert forall|i: int| 0 <= i < bytes.len() implies later.data[m + i] == bytes[i] by {
        assert(later.data.take(q.data.len() as int)[m + i] == q.data[m + i]);
    }
    assert(reader.next_bytes() =~= bytes.take(24));
    assert(later.data.subrange(m, m + 4) =~= bytes.subrange(0, 4));
}

/// A port that was put into a payload is read back: what the reader gets is what receiving
/// the port gives.
pub proof fn pushed_port_is_read(
    p: PayloadView,
    port: BinderObjectOrRef,
    later: PayloadView,
    reader: ReaderView,
    d: DeviceView,
)
    requires
        p.wf(),
        reader.wf(),
        later.extends(p.with_object(port.flat().bytes())),
        reader.reads(later),
        reader.next_offset_index == p.offsets.len(),
    ensures
        reader.port(d) == received(port.flat(), d),
{
    let bytes = port.flat().bytes();
    port.flat().decode_encoded();
    pushed_object_is_next(p, bytes, later, reader);
    assert(bytes.take(24) =~= bytes);
}

/// Receiving a port gives the same port, counted as one share more: a registered object and
/// a weak object come back as they are, a reference comes back for the same handle.
pub proof fn received_port_is_same(port: BinderObjectOrRef, d: DeviceView)
    ensures
        match port {
            BinderObjectOrRef::Object(v) => d.objects.dom().contains(key_of(v.0)) ==> received(
                port.flat(),
                d,
            ) == Ok::<(BinderObjectOrRef, DeviceView, Seq<DriverCommand>), PayloadPortReadError>(
                (port, d, Seq::empty()),
            ),
            BinderObjectOrRef::WeakObject(v) => received(port.flat(), d) == Ok::<
                (BinderObjectOrRef, DeviceView, Seq<DriverCommand>),
                PayloadPortReadError,
            >((port, d, Seq::empty())),
            BinderObjectOrRef::Ref(v) => {
                let (e, commands, cookie) = d.strong_taken(v.weak.id);
                let weak = WeakBinderRef { id: v.weak.id, cookie };
                received(port.flat(), d) == Ok::<
                    (BinderObjectOrRef, DeviceView, Seq<DriverCommand>),
                    PayloadPortReadError,
                >((BinderObjectOrRef::Ref(BinderRef { weak }), e, commands))
            },
            BinderObjectOrRef::WeakRef(v) => {
                let (e, commands, cookie) = d.weak_taken(v.id);
                received(port.flat(), d) == Ok::<
                    (BinderObjectOrRef, DeviceView, Seq<DriverCommand>),
                    PayloadPortReadError,
                >((BinderObjectOrRef::WeakRef(WeakBinderRef { id: v.id, cookie }), e, commands))
            },
        },
{
    match port {
        BinderObjectOrRef::Ref(v) => widened_first(v.weak.id),
        BinderObjectOrRef::WeakRef(v) => widened_first(v.id),
        _ => {},
    }
}

/// An open file that was put into a payload is read back with its cookie.
pub proof fn pushed_fd_is_read(
    p: PayloadView,
    fd: RawFd,
    cookie: u64,
    later: PayloadView,
    reader: ReaderView,
)
    requires
        p.wf(),
        reader.wf(),
        later.extends(p.with_object(fd_object(fd, cookie).bytes())),
        reader.reads(later),
        reader.next_offset_index == p.offsets.len(),
    ensures
        reader.fd() == Ok::<(RawFd, u64), PayloadObjectReadError>((fd, cookie)),
{
    let bytes = fd_object(fd, cookie).bytes();
    fd_object(fd, cookie).decode_encoded();
    pushed_object_is_next(p, bytes, later, reader);
    assert(bytes.take(24) =~= bytes);
    twos_complement(fd, 0);
    widened_first(unsigned(fd));
}

/// Duplicating open files changes nothing but the files: lengths, types and ports stay, and
/// the file that is read is the duplicate, with the cookie it had.
pub proof fn duplicates_replace_files(p: PayloadView, fds: Seq<RawFd>, i: int)
    requires
        p.wf(),
        0 <= i < p.offsets.len(),
    ensures
        ({
            let data = with_fds(p.data, p.offsets, fds);
            let o = p.offsets[i] as int;
            let object = BinderFdObject::decoded(data.subrange(o, o + 24));
            &&& data.len() == p.data.len()
            &&& type_at(data, o) == type_at(p.data, o)
            &&& BinderType(type_at(p.data, o)).names_port() ==> data.subrange(o, o + 24)
                == p.data.subrange(o, o + 24)
            &&& type_at(p.data, o) == BinderType::FD ==> signed(first_word(object.data.word))
                == fds[fd_count(p.data, p.offsets.take(i)) as int] && object.cookie
                == BinderFdObject::decoded(p.data.subrange(o, o + 24)).cookie
        }),
{
    lemma_with_fds(p, fds, p.offsets.len() as int, i);
    assert(p.offsets.take(p.offsets.len() as int) =~= p.offsets);
    let fd = fds[fd_count(p.data, p.offsets.take(i)) as int];
    twos_complement(fd, 0);
    widened_first(unsigned(fd));
}

proof fn lemma_with_fds(p: PayloadView, fds: Seq<RawFd>, n: int, i: int)
    requires
        p.wf(),
        0 <= n <= p.offsets.len(),
        0 <= i < p.offsets.len(),
    ensures
        ({
            let data = with_fds(p.data, p.offsets.take(n), fds);
            let o = p.offsets[i] as int;
            let object = BinderFdObject::decoded(data.subrange(o, o + 24));
            &&& data.len() == p.data.len()
            &&& type_at(data, o) == type_at(p.data, o)
            &&& (n <= i || type_at(p.data, o) != BinderType::FD) ==> data.subrange(o, o + 24)
                == p.data.subrange(o, o + 24)
            &&& i < n && type_at(p.data, o) == BinderType::FD ==> object.data
                == BinderFdObjectData::of_fd(fds[fd_count(p.data, p.offsets.take(i)) as int])
                && object.cookie == BinderFdObject::decoded(p.data.subrange(o, o + 24)).cookie
        }),
    decreases n,
{
    broadcast use ne64_facts;

    let o = p.offsets[i] as int;
    assert(o + 24 <= p.data.len());
    if n > 0 {
        lemma_with_fds(p, fds, n - 1, i);
        assert(p.offsets.take(n).drop_last() =~= p.offsets.take(n - 1));
        let before = with_fds(p.data, p.offsets.take(n - 1), fds);
        let after = with_fds(p.data, p.offsets.take(n), fds);
        let at = p.offsets[n - 1] as int;
        assert(p.offsets[n - 1] + 24 <= p.data.len());
        assert(p.offsets.take(n).last() == p.offsets[n - 1]);
        if type_at(p.data, at) == BinderType::FD {
            let fd = fds[fd_count(p.data, p.offsets.take(n - 1)) as int];
            let word = ne64(BinderFdObjectData::of_fd(fd).word);
            assert(after == overwritten(before, at + 8, word));
            assert(after.subrange(o, o + 4) =~= before.subrange(o, o + 4));
            if i == n - 1 {
                let b = after.subrange(o, o + 24);
                let a = before.subrange(o, o + 24);
                assert(b.subrange(8, 16) =~= word);
                assert(b.subrange(16, 24) =~= a.subrange(16, 24));
                twos_complement(fd, 0);
            } else {
                assert(after.subrange(o, o + 24) =~= before.subrange(o, o + 24));
            }
        }
    } else {
        assert(p.offsets.take(0) =~= Seq::empty());
    }
}

/// Duplicating open files changes no byte outside the numbers of the files: whatever does not
/// lie in the word of an open file is read as it was written.
pub proof fn duplicates_change_only_files(p: PayloadView, fds: Seq<RawFd>, k: int)
    requires
        p.wf(),
        0 <= k < p.data.len(),
        forall|i: int|
            0 <= i < p.offsets.len() && type_at(p.data, #[trigger] p.offsets[i] as int)
                == BinderType::FD ==> k < p.offsets[i] + 8 || k >= p.offsets[i] + 16,
    ensures
        with_fds(p.data, p.offsets, fds).len() == p.data.len(),
        with_fds(p.data, p.offsets, fds)[k] == p.data[k],
{
    lemma_untouched(p, fds, p.offsets.len() as int, k);
    assert(p.offsets.take(p.offsets.len() as int) =~= p.offsets);
}

proof fn lemma_untouched(p: PayloadView, fds: Seq<RawFd>, n: int, k: int)
    requires
        p.wf(),
        0 <= n <= p.offsets.len(),
        0 <= k < p.data.len(),
        forall|i: int|
            0 <= i < p.offsets.len() && type_at(p.data, #[trigger] p.offsets[i] as int)
                == BinderType::FD ==> k < p.offsets[i] + 8 || k >= p.offsets[i] + 16,
    ensures
        with_fds(p.data, p.offsets.take(n), fds).len() == p.data.len(),
        with_fds(p.data, p.offsets.take(n), fds)[k] == p.data[k],
    decreases n,
{
    broadcast use ne64_facts;

    if n > 0 {
        lemma_untouched(p, fds, n - 1, k);
        assert(p.offsets.take(n).drop_last() =~= p.offsets.take(n - 1));
        assert(p.offsets[n - 1] + 24 <= p.data.len());
        assert(p.offsets.take(n).last() == p.offsets[n - 1]);
    }
}

/// A payload without open files is read in this process exactly as it was written.
pub proof fn payload_without_files_is_unchanged(p: PayloadView, fds: Seq<RawFd>)
    requires
        p.wf(),
        fd_count(p.data, p.offsets) == 0,
    ensures
        with_fds(p.data, p.offsets, fds) == p.data,
{
    lemma_no_files(p.data, p.offsets, fds);
}

pub(crate) proof fn lemma_no_files(data: Seq<u8>, offsets: Seq<usize>, fds: Seq<RawFd>)
    requires
        fd_count(data, offsets) == 0,
    ensures
        with_fds(data, offsets, fds) == data,
    decreases offsets.len(),
{
    if offsets.len() > 0 {
        lemma_no_files(data, offsets.drop_last(), fds);
    }
}

/// The object that bytes are read up to is the nearest one: in a sound payload no unread
/// object lies between the cursor and it.
pub proof fn next_target_is_nearest(p: PayloadView, reader: ReaderView, i: int)
    requires
        p.wf(),
        reader.reads(p),
        reader.next_offset_index <= i < p.offsets.len(),
        p.offsets[i] >= reader.next_data_index,
    ensures
        reader.next_target() matches Some(target) && reader.next_data_index <= target
            <= p.offsets[i],
{
    let k = reader.next_offset_index as int;
    lemma_nearest(p.offsets.skip(k), reader.next_data_index, i - k);
}

proof fn lemma_nearest(offsets: Seq<usize>, at: usize, i: int)
    requires
        forall|j: int, k: int|
            0 <= j < k < offsets.len() ==> #[trigger] offsets[j] + 24 <= #[trigger] offsets[k],
        0 <= i < offsets.len(),
        offsets[i] >= at,
    ensures
        first_from(offsets, at) matches Some(target) && at <= target <= offsets[i],
    decreases offsets.len(),
{
    if offsets[0] < at {
        lemma_nearest(offsets.drop_first(), at, i - 1);
    }
}

/// What draining tells the driver is of references only: no buffer is given back and nothing
/// is sent.
pub proof fn draining_only_speaks_of_references(data: Seq<u8>, places: Seq<usize>, d: DeviceView)
    ensures
        forall|i: int|
            0 <= i < drained(data, places, d).1.len() ==> speaks_of_reference(
                #[trigger] drained(data, places, d).1[i],
            ),
    decreases places.len(),
{
    if places.len() > 0 {
        draining_only_speaks_of_references(data, places.drop_last(), d);
        let (e, commands, _) = drained(data, places.drop_last(), d);
        let more = dropped_at(data, places.last() as int, e).1;
        assert forall|i: int| 0 <= i < more.len() implies speaks_of_reference(
            #[trigger] more[i],
        ) by {}
        assert forall|i: int| 0 <= i < drained(data, places, d).1.len() implies speaks_of_reference(
            #[trigger] drained(data, places, d).1[i],
        ) by {
            if i < commands.len() {
                assert(drained(data, places, d).1[i] == commands[i]);
            } else {
                assert(drained(data, places, d).1[i] == more[i - commands.len()]);
            }
        }
    }
}

/// Whether a command takes or drops a reference to a handle, or asks for its death.
pub open spec fn speaks_of_reference(command: DriverCommand) -> bool {
    command is IncRefs || command is DecRefs || command is Acquire || command is Release
        || command is RequestDeathNotification
}

/// Ending a reader leaves every share that there was, and none more, and keeps the driver in
/// step: what the unread objects would have held is dropped.
pub proof fn draining_keeps_shares(data: Seq<u8>, places: Seq<usize>, d: DeviceView)
    requires
        d.wf(),
    ensures
        ({
            let (e, commands, _) = drained(data, places, d);
            &&& e.wf()
            &&& forall|h: u32| #[trigger] e.strong(h) == d.strong(h)
            &&& forall|h: u32| #[trigger] e.weak(h) == d.weak(h)
            &&& e.objects == d.objects
            &&& e.object_refcounts == d.object_refcounts
            &&& in_step(d, e, commands)
        }),
    decreases places.len(),
{
    if places.len() > 0 {
        draining_keeps_shares(data, places.drop_last(), d);
        let (e, commands, _) = drained(data, places.drop_last(), d);
        let offset = places.last() as int;
        lemma_dropping_keeps_shares(data, offset, e);
        let (f, more) = dropped_at(data, offset, e);
        assert forall|h: u32| strong_net(commands + more, h) == one_if_any(f.strong(h))
            - one_if_any(d.strong(h)) && weak_net(commands + more, h) == one_if_any(f.weak(h))
            - one_if_any(d.weak(h)) by {
            lemma_net_adds(commands, more, h);
            assert(e.strong(h) == d.strong(h) && e.weak(h) == d.weak(h));
            assert(f.strong(h) == e.strong(h) && f.weak(h) == e.weak(h));
        }
        assert forall|h: u32| #[trigger] f.strong(h) == d.strong(h) by {
            assert(e.strong(h) == d.strong(h));
        }
        assert forall|h: u32| #[trigger] f.weak(h) == d.weak(h) by {
            assert(e.weak(h) == d.weak(h));
        }
    } else {
        assert forall|h: u32| strong_net(Seq::empty(), h) == 0 && weak_net(Seq::empty(), h)
            == 0 by {}
    }
}

proof fn lemma_dropping_keeps_shares(data: Seq<u8>, offset: int, d: DeviceView)
    requires
        d.wf(),
    ensures
        ({
            let (e, commands) = dropped_at(data, offset, d);
            &&& e.wf()
            &&& forall|h: u32| #[trigger] e.strong(h) == d.strong(h)
            &&& forall|h: u32| #[trigger] e.weak(h) == d.weak(h)
            &&& e.objects == d.objects
            &&& e.object_refcounts == d.object_refcounts
            &&& in_step(d, e, commands)
        }),
{
    let flat = FlatBinderObject::decoded(data.subrange(offset, offset + 24));
    let handle = first_word(flat.data.word);
    let (e, commands) = dropped_at(data, offset, d);
    if offset + 24 <= data.len() && flat.hdr.type_.0 == BinderType::HANDLE && d.strong(handle)
        < u64::MAX && d.weak(handle) < u64::MAX {
        taking_keeps_driver_in_step(d, handle);
        d.lemma_strong_taken_wf(handle);
        let (m, taken, _) = d.strong_taken(handle);
        assert(d.strong(handle) > 0 ==> d.weak(handle) > 0);
        dropping_keeps_driver_in_step(m, handle);
        m.lemma_strong_dropped_wf(handle);
        lemma_steps_add(d, m, e, taken, m.strong_dropped(handle).1);
    } else if offset + 24 <= data.len() && flat.hdr.type_.0 == BinderType::WEAK_HANDLE && d.weak(
        handle,
    ) < u64::MAX {
        taking_keeps_driver_in_step(d, handle);
        d.lemma_weak_taken_wf(handle);
        let (m, taken, _) = d.weak_taken(handle);
        assert(d.strong(handle) > 0 ==> d.weak(handle) > 0);
        assert(m.strong(handle) == d.strong(handle));
        dropping_keeps_driver_in_step(m, handle);
        m.lemma_weak_dropped_wf(handle);
        lemma_steps_add(d, m, e, taken, m.weak_dropped(handle).1);
    } else {
        assert forall|h: u32| strong_net(Seq::empty(), h) == 0 && weak_net(Seq::empty(), h)
            == 0 by {}
    }
}

proof fn lemma_steps_add(
    d: DeviceView,
    m: DeviceView,
    e: DeviceView,
    first: Seq<DriverCommand>,
    second: Seq<DriverCommand>,
)
    requires
        in_step(d, m, first),
        in_step(m, e, second),
    ensures
        in_step(d, e, first + second),
{
    assert forall|h: u32|
        #![trigger e.strong(h)]
        #![trigger e.weak(h)]
        strong_net(first + second, h) == one_if_any(e.strong(h)) - one_if_any(d.strong(h))
            && weak_net(first + second, h) == one_if_any(e.weak(h)) - one_if_any(d.weak(h)) by {
        lemma_net_adds(first, second, h);
        assert(m.strong(h) == m.strong(h) && m.weak(h) == m.weak(h));
    }
}

/// What two runs of commands take and drop adds up.
proof fn lemma_net_adds(first: Seq<DriverCommand>, second: Seq<DriverCommand>, h: u32)
    ensures
        strong_net(first + second, h) == strong_net(first, h) + strong_net(second, h),
        weak_net(first + second, h) == weak_net(first, h) + weak_net(second, h),
    decreases second.len(),
{
    if second.len() == 0 {
        assert(first + second =~= first);
    } else {
        lemma_net_adds(first, second.drop_last(), h);
        assert((first + second).drop_last() =~= first + second.drop_last());
        assert((first + second).last() == second.last());
    }
}

/// A reader of which every object was read ends without a word about objects.
pub proof fn reading_everything_leaves_nothing_to_drain(reader: ReaderView, d: DeviceView)
    requires
        reader.wf(),
        reader.next_offset() is None,
    ensures
        reader.ended(d) == (d, Seq::<DriverCommand>::empty(), Seq::<RawFd>::empty()),
{
    assert(reader.unread().len() == 0);
}

/// How many zero bytes align an end.
pub open spec fn padding(end: int, align: int) -> int {
    if end % align == 0 {
        0
    } else {
        align - end % align
    }
}

/// Aligning data that stay where they are takes less than the alignment, is over where the end
/// is aligned and not before, and then changes nothing more.
pub proof fn aligning_ends_aligned(address: int, p: PayloadView, align: int, n: nat)
    requires
        align > 0,
        0 <= address,
        n <= padding(address + p.data.len(), align),
    ensures
        ({
            let end = address + p.with_bytes(zeros(n)).data.len();
            &&& padding(address + p.data.len(), align) < align
            &&& end % align == 0 <==> n == padding(address + p.data.len(), align)
            &&& padding(end, align) == padding(address + p.data.len(), align) - n
        }),
{
    let end = address + p.data.len();
    let r = end % align;
    vstd::arithmetic::div_mod::lemma_mod_bound(end, align);
    vstd::arithmetic::div_mod::lemma_fundamental_div_mod(end, align);
    let q = end / align;
    if r != 0 {
        if n < align - r {
            assert(end + n == q * align + (r + n)) by (nonlinear_arith)
                requires
                    end == align * q + r,
            ;
            vstd::arithmetic::div_mod::lemma_fundamental_div_mod_converse(
                end + n,
                align,
                q,
                r + n,
            );
        } else {
            assert(end + n == (q + 1) * align + 0) by (nonlinear_arith)
                requires
                    end == align * q + r,
                    n == align - r,
            ;
            vstd::arithmetic::div_mod::lemma_fundamental_div_mod_converse(
                end + n,
                align,
                q + 1,
                0,
            );
        }
    }
}

/// What aligning comes to: where the data were last seen, their end is aligned. Nothing is put
/// there if the end was aligned from the start, and if the data never moved, no more zero bytes
/// than it takes.
pub proof fn aligning_pads_least(p: PayloadView, seen: Seq<usize>, align: usize)
    requires
        align > 0,
        p.aligns_over(seen, align),
    ensures
        (seen.last() + p.padded(seen).data.len()) % align as int == 0,
        (seen[0] + p.data.len()) % align as int == 0 ==> p.padded(seen) == p,
        align == 1 ==> p.padded(seen) == p,
        (forall|k: int| 0 <= k < seen.len() ==> #[trigger] seen[k] == seen[0]) ==> seen.len() - 1 == padding(
            seen[0] + p.data.len(),
            align as int,
        ),
{
    let n = (seen.len() - 1) as nat;
    let end = seen[0] + p.data.len();
    assert(seen[n as int] == seen.last());
    assert(align == 1 ==> end % align as int == 0);
    if n == 0 {
        assert(p.padded(seen) =~= p);
    }
    if forall|k: int| 0 <= k < seen.len() ==> #[trigger] seen[k] == seen[0] {
        let m = padding(end, align as int);
        vstd::arithmetic::div_mod::lemma_mod_bound(end, align as int);
        if n < m {
            aligning_ends_aligned(seen[0] as int, p, align as int, n);
        } else if m < n {
            aligning_ends_aligned(seen[0] as int, p, align as int, m as nat);
            assert(seen[m] == seen[0]);
        }
    }
}

/// Putting duplicates in place of the open files changes no length, and nothing at all where
/// there are no open files.
pub proof fn files_are_replaced_in_place(p: PayloadView, fds: Seq<RawFd>)
    requires
        p.wf(),
    ensures
        with_fds(p.data, p.offsets, fds).len() == p.data.len(),
        fd_count(p.data, p.offsets) == 0 ==> with_fds(p.data, p.offsets, fds) == p.data,
{
    if p.offsets.len() > 0 {
        duplicates_replace_files(p, fds, 0);
    }
    if fd_count(p.data, p.offsets) == 0 {
        payload_without_files_is_unchanged(p, fds);
    }
}

/// What is put into a payload makes it longer by just that, at the end: bytes and padding come
/// with no object, and an object comes with its place, which is where the payload ended.
pub proof fn pushing_adds_what_was_pushed(p: PayloadView, bytes: Seq<u8>, n: nat, i: int)
    requires
        p.data.len() <= usize::MAX,
    ensures
        p.with_bytes(bytes).data.len() == p.data.len() + bytes.len(),
        p.with_bytes(bytes).offsets == p.offsets,
        p.with_object(bytes).data == p.with_bytes(bytes).data,
        p.with_object(bytes).offsets.len() == p.offsets.len() + 1,
        p.with_object(bytes).offsets.last() == p.data.len(),
        p.with_object(bytes).offsets.drop_last() == p.offsets,
        0 <= i < p.data.len() ==> p.with_bytes(bytes).data[i] == p.data[i],
        0 <= i < bytes.len() ==> p.with_bytes(bytes).data[p.data.len() + i] == bytes[i],
        zeros(n).len() == n,
        0 <= i < n ==> zeros(n)[i] == 0,
        PayloadView::empty().data.len() == 0,
        PayloadView::empty().offsets.len() == 0,
{
    assert(p.with_object(bytes).offsets.drop_last() =~= p.offsets);
}

/// What the objects for open files and for buffers look like in memory.
pub proof fn objects_in_memory(fd: RawFd, a: u64, b: u64, c: u64, e: u64)
    ensures
        ({
            let file = fd_object(fd, a).bytes();
            &&& file.len() == 24
            &&& u32_at(file, 0) == 0x6664_2a85
            &&& u32_at(file, 4) == 0
            &&& signed(first_word(u64_at(file, 8))) == fd
            &&& u64_at(file, 8) == widened(unsigned(fd))
            &&& u64_at(file, 16) == a
        }),
        ({
            let buffer = buffer_object(a, b, c, e).bytes();
            &&& buffer.len() == 40
            &&& u32_at(buffer, 0) == 0x7074_2a85
            &&& u32_at(buffer, 4) == 0
            &&& u64_at(buffer, 8) == a
            &&& u64_at(buffer, 16) == b
            &&& u64_at(buffer, 24) == c
            &&& u64_at(buffer, 32) == e
        }),
        ({
            let array = fd_array_object(a, b, c).bytes();
            &&& array.len() == 32
            &&& u32_at(array, 0) == 0x7074_2a85
            &&& u32_at(array, 4) == 0
            &&& u64_at(array, 8) == a
            &&& u64_at(array, 16) == b
            &&& u64_at(array, 24) == c
        }),
{
    fd_object(fd, a).words_in_memory();
    buffer_object(a, b, c, e).words_in_memory();
    fd_array_object(a, b, c).words_in_memory();
    widened_first(unsigned(fd));
    twos_complement(fd, 0);
}

/// The kind of an object goes by its type, and no two types have one kind.
pub proof fn kinds_go_by_type(a: u32, b: u32)
    ensures
        kind_of(a) == Some(BinderObjectType::OwnedPort) <==> a == 0x7362_2a85,
        kind_of(a) == Some(BinderObjectType::WeakOwnedPort) <==> a == 0x7762_2a85,
        kind_of(a) == Some(BinderObjectType::PortHandle) <==> a == 0x7368_2a85,
        kind_of(a) == Some(BinderObjectType::WeakPortHandle) <==> a == 0x7768_2a85,
        kind_of(a) == Some(BinderObjectType::Fd) <==> a == 0x6664_2a85,
        kind_of(a) == Some(BinderObjectType::FdArray) <==> a == 0x6664_6185,
        kind_of(a) == Some(BinderObjectType::Buffer) <==> a == 0x7074_2a85,
        kind_of(a) is Some && kind_of(a) == kind_of(b) ==> a == b,
{
}

/// What is said of the next object and what can be read agree: a port is read exactly where one
/// of the four kinds of port is announced and, if it is a local object, is registered; an open
/// file exactly where one is announced; and each is refused for its own reason.
pub proof fn announced_objects_are_read(reader: ReaderView, d: DeviceView)
    ensures
        reader.next_offset() is None ==> reader.kind() is None && reader.port(d) == Err::<
            (BinderObjectOrRef, DeviceView, Seq<DriverCommand>),
            PayloadPortReadError,
        >(PayloadPortReadError::Empty) && reader.fd() == Err::<
            (RawFd, u64),
            PayloadObjectReadError,
        >(PayloadObjectReadError::Empty),
        reader.fd() is Ok <==> reader.kind() == Some(BinderObjectType::Fd),
        reader.next_offset() is Some && reader.fd() is Err ==> reader.fd()->Err_0
            is IncorrectObject,
        reader.port(d) is Ok ==> reader.kind() == Some(BinderObjectType::OwnedPort)
            || reader.kind() == Some(BinderObjectType::WeakOwnedPort) || reader.kind() == Some(
            BinderObjectType::PortHandle,
        ) || reader.kind() == Some(BinderObjectType::WeakPortHandle),
        reader.next_offset() is Some && !BinderType(reader.next_type()).names_port()
            ==> reader.port(d) is Err && reader.port(d)->Err_0 is IncorrectObject,
{
}

/// What is received for an object of a payload goes by its type, and is sent to as its words
/// say: to the identity that the two words spell, or to the handle in the first half of the
/// first. Only a local object that is not registered is refused, and only handles count.
pub proof fn received_ports_are_what_the_words_say(flat: FlatBinderObject, d: DeviceView)
    requires
        flat.hdr.type_.names_port(),
    ensures
        ({
            let id = BinderObjectId { id: flat.data.word, cookie: flat.cookie };
            let type_ = flat.hdr.type_.0;
            let r = received(flat, d);
            &&& r is Err <==> type_ == 0x7362_2a85 && !d.objects.dom().contains(
                (flat.data.word, flat.cookie),
            )
            &&& r is Err ==> r->Err_0 is UnknownOwnedPort
            &&& r matches Ok((port, e, told)) ==> {
                &&& type_ == 0x7362_2a85 <==> port is Object
                &&& type_ == 0x7762_2a85 <==> port is WeakObject
                &&& type_ == 0x7368_2a85 <==> port is Ref
                &&& type_ == 0x7768_2a85 <==> port is WeakRef
                &&& port is Object || port is WeakObject ==> port.target()
                    == TransactionTargetHandle::Local(id) && e == d && told.len() == 0
                &&& port is Ref || port is WeakRef ==> port.target()
                    == TransactionTargetHandle::Remote(first_word(flat.data.word)) && e.same_objects(
                    d,
                )
            }
        }),
{
}

/// A port that was put into a payload and read back is sent to as before, and made flat again
/// it gives the same object.
pub proof fn ports_survive_the_way(port: BinderObjectOrRef, d: DeviceView)
    ensures
        received(port.flat(), d) matches Ok((back, _, _)) ==> back.target() == port.target()
            && back.flat() == port.flat(),
        !(port is Object) ==> received(port.flat(), d) is Ok,
        port matches BinderObjectOrRef::Object(v) ==> (received(port.flat(), d) is Ok
            <==> d.objects.dom().contains((v.0.id, v.0.cookie))),
{
    received_port_is_same(port, d);
}

/// Reading moves on: past an object to the byte behind it and to the next object, past bytes to
/// the byte behind them. What is read does not change.
pub proof fn reading_moves_on(reader: ReaderView, n: nat)
    requires
        reader.wf(),
    ensures
        reader.next_offset() matches Some(offset) ==> reader.next_has(24)
            ==> reader.past_object().next_data_index == offset + 24
            && reader.past_object().next_offset_index == reader.next_offset_index + 1
            && reader.past_object().data == reader.data && reader.past_object().offsets
            == reader.offsets && reader.past_object().unread().len() == reader.unread().len() - 1,
        reader.bytes(n as int) matches Ok(bytes) ==> bytes.len() == n && reader.past_bytes(
            n as int,
        ).next_data_index == reader.next_data_index + n && reader.past_bytes(n as int).data
            == reader.data && reader.past_bytes(n as int).offsets == reader.offsets
            && reader.past_bytes(n as int).next_offset_index == reader.next_offset_index,
{
}

/// The bytes that were put behind an object are read behind it.
pub proof fn bytes_behind_an_object_are_read(
    p: PayloadView,
    object: Seq<u8>,
    bytes: Seq<u8>,
    reader: ReaderView,
)
    requires
        p.wf(),
        object.len() == 24,
        sendable(type_at(object, 0)),
        p.data.len() + 24 + bytes.len() <= usize::MAX,
        reader.wf(),
        reader.reads(p.with_object(object).with_bytes(bytes)),
        reader.next_offset_index == p.offsets.len(),
    ensures
        reader.next_bytes() == object,
        reader.past_object().bytes(bytes.len() as int) == Ok::<Seq<u8>, PayloadBytesReadError>(
            bytes,
        ),
        reader.past_object().distance() == bytes.len(),
{
    let q = p.with_object(object);
    let later = q.with_bytes(bytes);
    lemma_with_object_wf(p, object);
    lemma_with_bytes_wf(q, bytes);
    lemma_extends_itself(q);
    lemma_extends_itself(later);
    assert(later.extends(q)) by {
        assert(later.data.take(q.data.len() as int) =~= q.data);
        assert(later.offsets.take(q.offsets.len() as int) =~= q.offsets);
    }
    pushed_object_is_next(p, object, later, reader);
    assert(object.take(24) =~= object);
    let next = reader.past_object();
    assert(next.reads(later));
    assert(next.next_data_index == q.data.len());
    pushed_bytes_are_read(q, bytes, later, next);
    assert(next.unread().len() == 0);
}

proof fn lemma_extends_itself(p: PayloadView)
    ensures
        p.extends(p),
{
    assert(p.data.take(p.data.len() as int) =~= p.data);
    assert(p.offsets.take(p.offsets.len() as int) =~= p.offsets);
}

/// A buffer is given back by its address if the driver lent it, and not at all if not.
pub proof fn lent_buffers_go_back(items: Vec<u8>, lent: &'static [u8], address: u64)
    ensures
        PayloadReaderBuffer::<u8>::Owned(items).to_free().len() == 0,
        PayloadReaderBuffer::<u8>::KernelBorrowed(lent, address).to_free() == seq![
            DriverCommand::FreeBuffer(address),
        ],
        PayloadReaderBuffer::<u8>::Owned(items)@ == items@,
        PayloadReaderBuffer::<u8>::KernelBorrowed(lent, address)@ == lent@,
{
}

/// Dropping an unread port comes to the same as reading it and giving it up at once: what the
/// driver is told is what reading asks for and then what giving up asks for.
pub proof fn unread_ports_are_read_and_dropped(reader: ReaderView, d: DeviceView)
    requires
        reader.wf(),
        d.wf(),
        reader.next_offset() is Some,
        reader.next_has(24),
        reader.port_counts(d),
        reader.port(d) is Ok,
    ensures
        ({
            let (port, e, told) = reader.port(d)->Ok_0;
            let dropped = dropped_at(reader.data, reader.next_offset()->0 as int, d);
            match port {
                BinderObjectOrRef::Ref(v) => dropped.0 == e.strong_dropped(v.weak.id).0 && dropped.1
                    == told + e.strong_dropped(v.weak.id).1,
                BinderObjectOrRef::WeakRef(v) => dropped.0 == e.weak_dropped(v.id).0 && dropped.1
                    == told + e.weak_dropped(v.id).1,
                _ => dropped.0 == d && dropped.1.len() == 0,
            }
        }),
{
    let offset = reader.next_offset()->0 as int;
    assert(reader.next_bytes().subrange(0, 4) =~= reader.data.subrange(offset, offset + 4));
}

/// Dropping an unread open file comes to the same as reading it and closing it, and nothing
/// else is closed.
pub proof fn unread_files_are_closed(reader: ReaderView)
    requires
        reader.next_offset() is Some,
        reader.next_has(24),
    ensures
        ({
            let closed = file_at(reader.data, reader.next_offset()->0 as int);
            &&& reader.fd() matches Ok((fd, _)) ==> closed == seq![fd]
            &&& reader.fd() is Err ==> closed.len() == 0
        }),
{
    let offset = reader.next_offset()->0 as int;
    assert(reader.next_bytes().subrange(0, 4) =~= reader.data.subrange(offset, offset + 4));
}

/// Unread objects are dropped one after the other, each once: dropping some and then others is
/// dropping them all.
pub proof fn objects_are_dropped_in_order(
    data: Seq<u8>,
    a: Seq<usize>,
    b: Seq<usize>,
    o: usize,
    d: DeviceView,
)
    ensures
        ({
            let x = drained(data, a, d);
            let y = drained(data, b, x.0);
            drained(data, a + b, d) == (y.0, x.1 + y.1, x.2 + y.2)
        }),
        drained(data, seq![o], d).0 == dropped_at(data, o as int, d).0,
        drained(data, seq![o], d).1 == dropped_at(data, o as int, d).1,
        drained(data, seq![o], d).2 == file_at(data, o as int),
    decreases b.len(),
{
    reveal_with_fuel(drained, 2);
    assert(seq![o].drop_last() =~= Seq::empty());
    assert(Seq::<DriverCommand>::empty() + dropped_at(data, o as int, d).1 =~= dropped_at(
        data,
        o as int,
        d,
    ).1);
    assert(Seq::<RawFd>::empty() + file_at(data, o as int) =~= file_at(data, o as int));
    let x = drained(data, a, d);
    let y = drained(data, b, x.0);
    if b.len() == 0 {
        assert(a + b =~= a);
        assert(x.1 + y.1 =~= x.1);
        assert(x.2 + y.2 =~= x.2);
    } else {
        objects_are_dropped_in_order(data, a, b.drop_last(), o, d);
        assert((a + b).drop_last() =~= a + b.drop_last());
        let z = drained(data, b.drop_last(), x.0);
        assert((x.1 + z.1) + dropped_at(data, b.last() as int, z.0).1 =~= x.1 + y.1);
        assert((x.2 + z.2) + file_at(data, b.last() as int) =~= x.2 + y.2);
    }
}

/// The open files of a payload are those that were put there, in their order: an open file adds
/// itself, and bytes and ports add none.
pub proof fn pushed_files_are_listed(
    p: PayloadView,
    fd: RawFd,
    cookie: u64,
    port: BinderObjectOrRef,
    bytes: Seq<u8>,
)
    requires
        p.wf(),
        p.data.len() + 24 <= usize::MAX,
    ensures
        ({
            let files = objects_fds(p.data, p.offsets);
            let q = p.with_object(fd_object(fd, cookie).bytes());
            let r = p.with_object(port.flat().bytes());
            let s = p.with_bytes(bytes);
            &&& objects_fds(q.data, q.offsets) == files.push(fd)
            &&& objects_fds(r.data, r.offsets) == files
            &&& objects_fds(s.data, s.offsets) == files
            &&& fd_count(q.data, q.offsets) == fd_count(p.data, p.offsets) + 1
            &&& fd_count(r.data, r.offsets) == fd_count(p.data, p.offsets)
            &&& fd_count(s.data, s.offsets) == fd_count(p.data, p.offsets)
            &&& files.len() == fd_count(p.data, p.offsets)
        }),
{
    let file = fd_object(fd, cookie);
    let flat = port.flat();
    file.words_in_memory();
    file.decode_encoded();
    flat.words_in_memory();
    lemma_files_stay(p.data, file.bytes(), p.offsets);
    lemma_files_stay(p.data, flat.bytes(), p.offsets);
    lemma_files_stay(p.data, bytes, p.offsets);
    let at = p.data.len() as int;
    let q = p.with_object(file.bytes());
    let r = p.with_object(flat.bytes());
    assert(q.offsets.drop_last() =~= p.offsets);
    assert(r.offsets.drop_last() =~= p.offsets);
    assert(q.data.subrange(at, at + 24) =~= file.bytes());
    assert(q.data.subrange(at, at + 4) =~= file.bytes().subrange(0, 4));
    assert(r.data.subrange(at, at + 4) =~= flat.bytes().subrange(0, 4));
    objects_in_memory(fd, cookie, 0, 0, 0);
}

proof fn lemma_files_stay(data: Seq<u8>, more: Seq<u8>, offsets: Seq<usize>)
    requires
        forall|i: int| 0 <= i < offsets.len() ==> #[trigger] offsets[i] + 24 <= data.len(),
    ensures
        objects_fds(data + more, offsets) == objects_fds(data, offsets),
        fd_count(data + more, offsets) == fd_count(data, offsets),
        objects_fds(data, offsets).len() == fd_count(data, offsets),
    decreases offsets.len(),
{
    if offsets.len() > 0 {
        lemma_files_stay(data, more, offsets.drop_last());
        let o = offsets.last() as int;
        assert(offsets[offsets.len() - 1] + 24 <= data.len());
        assert((data + more).subrange(o, o + 24) =~= data.subrange(o, o + 24));
        assert((data + more).subrange(o, o + 4) =~= data.subrange(o, o + 4));
    }
}

/// A payload has a buffer in it exactly if one was put there.
pub proof fn pushed_buffers_are_noticed(
    p: PayloadView,
    buffer: BinderBufferObject,
    port: BinderObjectOrRef,
    fd: RawFd,
    cookie: u64,
)
    requires
        p.wf(),
        p.data.len() + 40 <= usize::MAX,
        buffer.hdr.type_.0 == 0x7074_2a85,
    ensures
        !PayloadView::empty().has_buffers(),
        p.with_object(buffer.bytes()).has_buffers(),
        p.with_object(port.flat().bytes()).has_buffers() == p.has_buffers(),
        p.with_object(fd_object(fd, cookie).bytes()).has_buffers() == p.has_buffers(),
{
    let file = fd_object(fd, cookie);
    buffer.words_in_memory();
    port.flat().words_in_memory();
    file.words_in_memory();
    lemma_buffers(p, buffer.bytes());
    lemma_buffers(p, port.flat().bytes());
    lemma_buffers(p, file.bytes());
}

proof fn lemma_buffers(p: PayloadView, bytes: Seq<u8>)
    requires
        p.wf(),
        bytes.len() >= 24,
        p.data.len() <= usize::MAX,
    ensures
        p.with_object(bytes).has_buffers() == (p.has_buffers() || type_at(bytes, 0)
            == BinderType::PTR),
{
    let q = p.with_object(bytes);
    let n = p.offsets.len() as int;
    let at = p.data.len() as int;
    assert(q.offsets[n] == at);
    assert(q.data.subrange(at, at + 4) =~= bytes.subrange(0, 4));
    assert forall|i: int| 0 <= i < n implies type_at(q.data, #[trigger] q.offsets[i] as int)
        == type_at(p.data, p.offsets[i] as int) by {
        let o = p.offsets[i] as int;
        assert(p.offsets[i] + 24 <= p.data.len());
        assert(q.data.subrange(o, o + 4) =~= p.data.subrange(o, o + 4));
    }
    if p.has_buffers() {
        let i = choose|i: int|
            0 <= i < n && type_at(p.data, #[trigger] p.offsets[i] as int) == BinderType::PTR;
        assert(type_at(q.data, q.offsets[i] as int) == BinderType::PTR);
    }
    if type_at(bytes, 0) == BinderType::PTR {
        assert(type_at(q.data, q.offsets[n] as int) == BinderType::PTR);
    }
    if q.has_buffers() {
        let i = choose|i: int|
            0 <= i < q.offsets.len() && type_at(q.data, #[trigger] q.offsets[i] as int)
                == BinderType::PTR;
        if i < n {
            assert(type_at(p.data, p.offsets[i] as int) == BinderType::PTR);
        }
    }
}

/// Objects lie at multiples of eight.
pub proof fn object_alignment()
    ensures
        OBJECT_ALIGN == 8,
{
}

} // verus!
