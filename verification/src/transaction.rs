//! Transactions as flat buffers: a header, the data, the places of the objects, the objects.
use crate::binder_ref::BinderRef;
use crate::sys::{
    BinderFdObject, BinderObjectHeader, BinderType, BinderUintptrT, FlatBinderFlags,
    FlatBinderObject, FlatBinderObjectData, RawFd, TransactionFlags,
};
use crate::wire::{get_le_u64, put_bytes, put_le_u32, put_le_u64, to_sign_extended, widen};
use vstd::prelude::*;

verus! {

use crate::wire::{
    first_word, le32, le32_facts, le64, le64_facts, le_u32_at, le_u64_at, ne32_facts, ne64_facts,
    sign_extended, signed, widened, widened_first,
};

pub const BINDER_MAX_TYPE: usize = 6;

/// How many bytes come before the data of a reply.
pub const REPLY_HEADER: usize = 64;

/// An object that came with a transaction.
#[derive(Clone, Copy, Debug, PartialEq, Eq, Structural)]
pub enum BinderObjectEntry {
    Handle { handle: u32 },
    Fd { fd: RawFd },
    Binder { ptr: BinderUintptrT, cookie: BinderUintptrT },
}

/// An object without flags.
pub open spec fn plain_flat(type_: u32, word: u64, cookie: u64) -> FlatBinderObject {
    FlatBinderObject {
        hdr: BinderObjectHeader { type_: BinderType(type_) },
        flags: FlatBinderFlags(0),
        data: FlatBinderObjectData { word },
        cookie,
    }
}

/// An object without flags.
fn make_plain_flat(type_: u32, word: u64, cookie: u64) -> (r: FlatBinderObject)
    ensures
        r == plain_flat(type_, word, cookie),
{
    FlatBinderObject {
        hdr: BinderObjectHeader { type_: BinderType(type_) },
        flags: FlatBinderFlags::empty(),
        data: FlatBinderObjectData { word },
        cookie,
    }
}

/// What an object stands for, where `fd_object` is what lies at the address in it if it is an
/// open file.
pub open spec fn entry_of(
    flat: FlatBinderObject,
    fd_object: Option<BinderFdObject>,
) -> Option<BinderObjectEntry> {
    let type_ = flat.hdr.type_.0;
    if type_ == BinderType::BINDER || type_ == BinderType::WEAK_BINDER {
        Some(BinderObjectEntry::Binder { ptr: flat.data.word, cookie: flat.cookie })
    } else if type_ == BinderType::HANDLE || type_ == BinderType::WEAK_HANDLE {
        Some(BinderObjectEntry::Handle { handle: first_word(flat.data.word) })
    } else if type_ == BinderType::FD {
        Some(BinderObjectEntry::Fd { fd: signed(first_word(fd_object->0.data.word)) })
    } else {
        None
    }
}

impl BinderObjectEntry {
    /// What an object stands for. For an open file this is said by the structure at the
    /// address in the object, which the caller has read.
    pub fn from_flat(flat: &FlatBinderObject, fd_object: Option<BinderFdObject>) -> (r: Option<
        BinderObjectEntry,
    >)
        requires
            flat.hdr.type_.0 == BinderType::FD ==> fd_object is Some,
        ensures
            r == entry_of(*flat, fd_object),
    {
        let type_: u32 = flat.hdr.type_.0;
        if type_ == BinderType::BINDER || type_ == BinderType::WEAK_BINDER {
            Some(BinderObjectEntry::Binder { ptr: flat.data.binder(), cookie: flat.cookie })
        } else if type_ == BinderType::HANDLE || type_ == BinderType::WEAK_HANDLE {
            Some(BinderObjectEntry::Handle { handle: flat.data.handle() })
        } else if type_ == BinderType::FD {
            match fd_object {
                Some(object) => Some(BinderObjectEntry::Fd { fd: object.data.fd() }),
                None => None,
            }
        } else {
            None
        }
    }

    /// The object that stands for an entry.
    pub open spec fn flat(self) -> FlatBinderObject {
        match self {
            BinderObjectEntry::Handle { handle } => plain_flat(
                BinderType::HANDLE,
                widened(handle),
                0,
            ),
            BinderObjectEntry::Fd { fd } => plain_flat(BinderType::FD, sign_extended(fd), 0),
            BinderObjectEntry::Binder { ptr, cookie } => plain_flat(
                BinderType::BINDER,
                ptr,
                cookie,
            ),
        }
    }

    pub fn to_flat(&self) -> (r: FlatBinderObject)
        ensures
            r == self.flat(),
    {
        match self {
            BinderObjectEntry::Handle { handle } => make_plain_flat(
                BinderType::HANDLE,
                widen(*handle),
                0,
            ),
            BinderObjectEntry::Fd { fd } => make_plain_flat(
                BinderType::FD,
                to_sign_extended(*fd),
                0,
            ),
            BinderObjectEntry::Binder { ptr, cookie } => make_plain_flat(
                BinderType::BINDER,
                *ptr,
                *cookie,
            ),
        }
    }
}

/// A handle or a local object that is made flat stands for the same afterwards.
pub proof fn entry_survives_flattening(entry: BinderObjectEntry, fd_object: Option<BinderFdObject>)
    requires
        !(entry is Fd),
    ensures
        entry_of(entry.flat(), fd_object) == Some(entry),
{
    broadcast use widened_first;

}

/// Data with objects.
pub struct Payload {
    pub data: Vec<u8>,
    pub objects: Vec<BinderObjectEntry>,
}

impl Default for Payload {
    fn default() -> (r: Self)
        ensures
            r.data@ == Seq::<u8>::empty(),
            r.objects@ == Seq::<BinderObjectEntry>::empty(),
    {
        Payload { data: Vec::new(), objects: Vec::new() }
    }
}

impl Payload {
    pub fn with_data(data: Vec<u8>) -> (r: Self)
        ensures
            r.data == data,
            r.objects@ == Seq::<BinderObjectEntry>::empty(),
    {
        Payload { data, objects: Vec::new() }
    }

    pub fn add_binder(&mut self, ptr: BinderUintptrT, cookie: BinderUintptrT)
        ensures
            final(self).data == old(self).data,
            final(self).objects@ == old(self).objects@.push(
                BinderObjectEntry::Binder { ptr, cookie },
            ),
    {
        self.objects.push(BinderObjectEntry::Binder { ptr, cookie });
    }

    pub fn add_handle(&mut self, handle: u32)
        ensures
            final(self).data == old(self).data,
            final(self).objects@ == old(self).objects@.push(BinderObjectEntry::Handle { handle }),
    {
        self.objects.push(BinderObjectEntry::Handle { handle });
    }

    pub fn add_fd(&mut self, fd: i32)
        ensures
            final(self).data == old(self).data,
            final(self).objects@ == old(self).objects@.push(BinderObjectEntry::Fd { fd }),
    {
        self.objects.push(BinderObjectEntry::Fd { fd });
    }

    pub fn add_weak_binder(&mut self, ptr: BinderUintptrT, cookie: BinderUintptrT)
        ensures
            final(self).data == old(self).data,
            final(self).objects@ == old(self).objects@.push(
                BinderObjectEntry::Binder { ptr, cookie },
            ),
    {
        self.objects.push(BinderObjectEntry::Binder { ptr, cookie });
    }

    pub fn add_weak_handle(&mut self, handle: u32)
        ensures
            final(self).data == old(self).data,
            final(self).objects@ == old(self).objects@.push(BinderObjectEntry::Handle { handle }),
    {
        self.objects.push(BinderObjectEntry::Handle { handle });
    }

    pub fn is_empty(&self) -> (r: bool)
        ensures
            r == (self.data@.len() == 0 && self.objects@.len() == 0),
    {
        self.data.len() == 0 && self.objects.len() == 0
    }
}

/// A code with its payload.
pub struct Transaction {
    pub code: u32,
    pub payload: Payload,
}

/// An object to be sent.
#[derive(Clone, Copy, Debug, PartialEq, Eq, Structural)]
pub enum BinderObject {
    Binder { ptr: BinderUintptrT, cookie: BinderUintptrT },
    Handle { handle: u32 },
    Fd { fd: RawFd },
    WeakBinder { ptr: BinderUintptrT, cookie: BinderUintptrT },
    WeakHandle { handle: u32 },
}

impl BinderObject {
    /// The object as it is sent.
    pub open spec fn flat(self) -> FlatBinderObject {
        match self {
            BinderObject::Binder { ptr, cookie } => plain_flat(BinderType::BINDER, ptr, cookie),
            BinderObject::Handle { handle } => plain_flat(BinderType::HANDLE, widened(handle), 0),
            BinderObject::Fd { fd } => plain_flat(BinderType::FD, sign_extended(fd), 0),
            BinderObject::WeakBinder { ptr, cookie } => plain_flat(
                BinderType::WEAK_BINDER,
                ptr,
                cookie,
            ),
            BinderObject::WeakHandle { handle } => plain_flat(
                BinderType::WEAK_HANDLE,
                widened(handle),
                0,
            ),
        }
    }

    pub fn to_flat(&self) -> (r: FlatBinderObject)
        ensures
            r == self.flat(),
    {
        match self {
            BinderObject::Binder { ptr, cookie } => make_plain_flat(
                BinderType::BINDER,
                *ptr,
                *cookie,
            ),
            BinderObject::Handle { handle } => make_plain_flat(
                BinderType::HANDLE,
                widen(*handle),
                0,
            ),
            BinderObject::Fd { fd } => make_plain_flat(BinderType::FD, to_sign_extended(*fd), 0),
            BinderObject::WeakBinder { ptr, cookie } => make_plain_flat(
                BinderType::WEAK_BINDER,
                *ptr,
                *cookie,
            ),
            BinderObject::WeakHandle { handle } => make_plain_flat(
                BinderType::WEAK_HANDLE,
                widen(*handle),
                0,
            ),
        }
    }
}

/// The bytes of some objects, one after the other.
pub open spec fn flats_bytes(objects: Seq<FlatBinderObject>) -> Seq<u8>
    decreases objects.len(),
{
    if objects.len() == 0 {
        Seq::empty()
    } else {
        flats_bytes(objects.drop_last()) + objects.last().bytes()
    }
}

/// The bytes of the first `n` places: the first lies right behind the data, and each word
/// takes eight bytes.
pub open spec fn places_bytes(data_len: nat, n: nat) -> Seq<u8>
    decreases n,
{
    if n == 0 {
        Seq::empty()
    } else {
        places_bytes(data_len, (n - 1) as nat) + le64((data_len + (n - 1) * 8) as u64)
    }
}

/// What comes before the data.
pub open spec fn header_bytes(
    target: BinderRef,
    code: u32,
    flags: TransactionFlags,
    data_len: nat,
    objects: nat,
) -> Seq<u8> {
    le64(target.0 as u64) + le64(0) + le32(code) + le32(flags.0) + le64(0) + le64(0) + le64(
        data_len as u64,
    ) + le64(objects as u64)
}

/// Collects a transaction.
pub struct TransactionData {
    pub target: BinderRef,
    pub code: u32,
    pub flags: TransactionFlags,
    pub data: Vec<u8>,
    pub objects: Vec<BinderObject>,
}

impl TransactionData {
    /// Whether two differ at most in what was collected.
    pub open spec fn same_target(self, other: Self) -> bool {
        self.target == other.target && self.code == other.code && self.flags == other.flags
    }

    pub fn new(target: BinderRef, code: u32, flags: TransactionFlags) -> (r: Self)
        ensures
            r.target == target,
            r.code == code,
            r.flags == flags,
            r.data@ == Seq::<u8>::empty(),
            r.objects@ == Seq::<BinderObject>::empty(),
    {
        TransactionData { target, code, flags, data: Vec::new(), objects: Vec::new() }
    }

    pub fn with_payload(self, payload: &[u8]) -> (r: Self)
        ensures
            r.same_target(self),
            r.data@ == self.data@ + payload@,
            r.objects@ == self.objects@,
    {
        let mut s = self;
        put_bytes(&mut s.data, payload);
        s
    }

    pub fn add_fd(self, fd: i32) -> (r: Self)
        ensures
            r.same_target(self),
            r.data@ == self.data@,
            r.objects@ == self.objects@.push(BinderObject::Fd { fd }),
    {
        let mut s = self;
        s.objects.push(BinderObject::Fd { fd });
        s
    }

    pub fn add_handle(self, handle: u32) -> (r: Self)
        ensures
            r.same_target(self),
            r.data@ == self.data@,
            r.objects@ == self.objects@.push(BinderObject::Handle { handle }),
    {
        let mut s = self;
        s.objects.push(BinderObject::Handle { handle });
        s
    }

    pub fn add_binder(self, ptr: BinderUintptrT, cookie: BinderUintptrT) -> (r: Self)
        ensures
            r.same_target(self),
            r.data@ == self.data@,
            r.objects@ == self.objects@.push(BinderObject::Binder { ptr, cookie }),
    {
        let mut s = self;
        s.objects.push(BinderObject::Binder { ptr, cookie });
        s
    }

    pub fn add_weak_handle(self, handle: u32) -> (r: Self)
        ensures
            r.same_target(self),
            r.data@ == self.data@,
            r.objects@ == self.objects@.push(BinderObject::WeakHandle { handle }),
    {
        let mut s = self;
        s.objects.push(BinderObject::WeakHandle { handle });
        s
    }

    pub fn add_weak_binder(self, ptr: BinderUintptrT, cookie: BinderUintptrT) -> (r: Self)
        ensures
            r.same_target(self),
            r.data@ == self.data@,
            r.objects@ == self.objects@.push(BinderObject::WeakBinder { ptr, cookie }),
    {
        let mut s = self;
        s.objects.push(BinderObject::WeakBinder { ptr, cookie });
        s
    }

    /// The objects as they are sent.
    pub open spec fn flats(self) -> Seq<FlatBinderObject> {
        self.objects@.map(|i: int, object: BinderObject| object.flat())
    }

    /// The whole transaction: the header, the data, the places, the objects.
    pub open spec fn built(self) -> Seq<u8> {
        let n = self.objects@.len();
        header_bytes(self.target, self.code, self.flags, self.data@.len(), n) + self.data@
            + places_bytes(self.data@.len(), n) + flats_bytes(self.flats())
    }

    /// Builds the transaction. The objects also come on their own.
    pub fn build(self) -> (r: (Vec<u8>, Vec<FlatBinderObject>))
        requires
            self.data@.len() + self.objects@.len() * 8 <= usize::MAX,
        ensures
            r.0@ == self.built(),
            r.1@ == self.flats(),
    {
        let n: usize = self.objects.len();
        let mut flat_objects: Vec<FlatBinderObject> = Vec::new();
        let mut offsets: Vec<u64> = Vec::new();
        let mut i: usize = 0;
        while i < n
            invariant
                i <= n,
                n == self.objects@.len(),
                self.data@.len() + n * 8 <= usize::MAX,
                flat_objects@ == self.flats().take(i as int),
                offsets@.len() == i,
                forall|j: int|
                    0 <= j < i ==> #[trigger] offsets@[j] == self.data@.len() + j * 8,
            decreases n - i,
        {
            let flat = self.objects[i].to_flat();
            let offset: usize = self.data.len() + i * 8;
            offsets.push(offset as u64);
            flat_objects.push(flat);
            i += 1;
            assert(flat_objects@ =~= self.flats().take(i as int));
        }
        assert(self.flats().take(n as int) =~= self.flats());
        let mut tx_data: Vec<u8> = Vec::new();
        put_le_u64(&mut tx_data, self.target.as_u32() as u64);
        put_le_u64(&mut tx_data, 0);
        put_le_u32(&mut tx_data, self.code);
        put_le_u32(&mut tx_data, self.flags.bits());
        put_le_u64(&mut tx_data, 0);
        put_le_u64(&mut tx_data, 0);
        put_le_u64(&mut tx_data, self.data.len() as u64);
        put_le_u64(&mut tx_data, n as u64);
        put_bytes(&mut tx_data, self.data.as_slice());
        let ghost front = header_bytes(
            self.target,
            self.code,
            self.flags,
            self.data@.len(),
            n as nat,
        ) + self.data@;
        assert(tx_data@ =~= front);
        let mut j: usize = 0;
        assert(front + places_bytes(self.data@.len(), 0) =~= front);
        while j < n
            invariant
                j <= n,
                n == offsets@.len(),
                n == self.objects@.len(),
                self.data@.len() + n * 8 <= usize::MAX,
                forall|k: int|
                    0 <= k < n ==> #[trigger] offsets@[k] == self.data@.len() + k * 8,
                tx_data@ == front + places_bytes(self.data@.len(), j as nat),
            decreases n - j,
        {
            put_le_u64(&mut tx_data, offsets[j]);
            j += 1;
            proof {
                assert(offsets@[j - 1] == self.data@.len() + (j - 1) * 8);
                assert(tx_data@ =~= front + places_bytes(self.data@.len(), j as nat));
            }
        }
        let mut objects: Vec<u8> = Self::serialize_objects(flat_objects.as_slice());
        tx_data.append(&mut objects);
        assert(tx_data@ =~= self.built());
        (tx_data, flat_objects)
    }

    /// The bytes of some objects, for sending.
    pub fn serialize_objects(objects: &[FlatBinderObject]) -> (r: Vec<u8>)
        ensures
            r@ == flats_bytes(objects@),
    {
        let mut result: Vec<u8> = Vec::new();
        let mut i: usize = 0;
        assert(objects@.take(0) =~= Seq::empty());
        while i < objects.len()
            invariant
                i <= objects@.len(),
                result@ == flats_bytes(objects@.take(i as int)),
            decreases objects@.len() - i,
        {
            objects[i].put(&mut result);
            assert(objects@.take(i + 1).drop_last() =~= objects@.take(i as int));
            i += 1;
        }
        assert(objects@.take(i as int) =~= objects@);
        result
    }
}

/// A transaction takes fifty-six bytes before its data, and thirty-two more per object: eight
/// for its place and twenty-four for itself.
pub proof fn built_length(t: TransactionData)
    ensures
        t.built().len() == 56 + t.data@.len() + 32 * t.objects@.len(),
{
    broadcast use le32_facts, le64_facts, ne32_facts, ne64_facts;

    lemma_places_length(t.data@.len(), t.objects@.len());
    lemma_flats_length(t.flats());
}

proof fn lemma_places_length(data_len: nat, n: nat)
    ensures
        places_bytes(data_len, n).len() == 8 * n,
    decreases n,
{
    broadcast use le64_facts, ne32_facts, ne64_facts;

    if n > 0 {
        lemma_places_length(data_len, (n - 1) as nat);
    }
}

proof fn lemma_flats_length(objects: Seq<FlatBinderObject>)
    ensures
        flats_bytes(objects).len() == 24 * objects.len(),
    decreases objects.len(),
{
    if objects.len() > 0 {
        objects.last().decode_encoded();
        lemma_flats_length(objects.drop_last());
    }
}

/// What was put into a transaction is read back from it: target, code, flags, the length of
/// the data, the number of objects, and the data. The words for what only the driver knows are
/// zero.
pub proof fn built_is_read_back(t: TransactionData)
    requires
        t.data@.len() <= u64::MAX,
        t.objects@.len() <= u64::MAX,
    ensures
        le_u64_at(t.built(), 0) == t.target.0,
        le_u64_at(t.built(), 8) == 0,
        le_u32_at(t.built(), 16) == t.code,
        le_u32_at(t.built(), 20) == t.flags.0,
        le_u64_at(t.built(), 24) == 0,
        le_u64_at(t.built(), 32) == 0,
        le_u64_at(t.built(), 40) == t.data@.len(),
        le_u64_at(t.built(), 48) == t.objects@.len(),
        t.built().subrange(56, 56 + t.data@.len() as int) == t.data@,
{
    broadcast use le32_facts, le64_facts, ne32_facts, ne64_facts;

    let b = t.built();
    built_length(t);
    assert(b.subrange(0, 8) =~= le64(t.target.0 as u64));
    assert(b.subrange(8, 16) =~= le64(0));
    assert(b.subrange(16, 20) =~= le32(t.code));
    assert(b.subrange(20, 24) =~= le32(t.flags.0));
    assert(b.subrange(24, 32) =~= le64(0));
    assert(b.subrange(32, 40) =~= le64(0));
    assert(b.subrange(40, 48) =~= le64(t.data@.len() as u64));
    assert(b.subrange(48, 56) =~= le64(t.objects@.len() as u64));
    assert(b.subrange(56, 56 + t.data@.len() as int) =~= t.data@);
}

/// The `i`-th place in a reply.
pub open spec fn reply_place(data: Seq<u8>, i: int) -> u64 {
    le_u64_at(data, 64 + le_u64_at(data, 56) + i * 8)
}

/// Where the object of a place in a reply lies: as many whole objects behind the header as the
/// place has room for.
pub open spec fn reply_object_at(data: Seq<u8>, i: int) -> int {
    64 + (reply_place(data, i) / 24) * 24
}

/// Whether a reply holds what its header says. A buffer that is shorter than a header holds
/// nothing.
pub open spec fn reply_holds(data: Seq<u8>) -> bool {
    let size = le_u64_at(data, 56);
    let places = le_u64_at(data, 64);
    data.len() >= 64 ==> {
        &&& data.len() >= 72
        &&& 64 + size + places <= usize::MAX
        &&& size > 0 ==> 64 + size <= data.len()
        &&& places >= 8 ==> 64 + size + places / 8 * 8 <= data.len()
        &&& forall|i: int|
            0 <= i < places / 8 ==> #[trigger] reply_object_at(data, i) + 24 <= usize::MAX
    }
}

/// Whether a reply holds what its header says, so that it can be taken apart.
pub fn reply_fits(data: &[u8]) -> (r: bool)
    ensures
        r == reply_holds(data@),
{
    if data.len() < REPLY_HEADER {
        return true;
    }
    if data.len() < REPLY_HEADER + 8 {
        return false;
    }
    let size: u64 = get_le_u64(data, 56);
    let places: u64 = get_le_u64(data, 64);
    let end: u128 = 64 + size as u128 + places as u128;
    if end > usize::MAX as u128 {
        return false;
    }
    let len: u128 = data.len() as u128;
    if size > 0 && 64 + size as u128 > len {
        return false;
    }
    if places >= 8 && 64 + size as u128 + (places / 8 * 8) as u128 > len {
        return false;
    }
    let count: u64 = places / 8;
    let mut i: u64 = 0;
    while i < count
        invariant
            i <= count,
            count == places / 8,
            size == le_u64_at(data@, 56),
            places == le_u64_at(data@, 64),
            data@.len() >= 72,
            64 + size + places <= usize::MAX,
            places >= 8 ==> 64 + size + places / 8 * 8 <= data@.len(),
            forall|j: int|
                0 <= j < i ==> #[trigger] reply_object_at(data@, j) + 24 <= usize::MAX,
        decreases count - i,
    {
        let offset: u64 = get_le_u64(data, 64 + size as usize + i as usize * 8);
        let object: u128 = 64 + (offset / 24 * 24) as u128;
        assert(object == reply_object_at(data@, i as int));
        if object + 24 > usize::MAX as u128 {
            return false;
        }
        i += 1;
    }
    true
}

/// The data of a reply.
pub open spec fn reply_bytes(data: Seq<u8>) -> Seq<u8> {
    if data.len() < 64 || le_u64_at(data, 56) == 0 {
        Seq::empty()
    } else {
        data.subrange(64, 64 + le_u64_at(data, 56))
    }
}

/// The objects of the first `n` places of a reply, those that it holds.
pub open spec fn reply_flats(data: Seq<u8>, n: int) -> Seq<FlatBinderObject>
    decreases n,
{
    if n <= 0 {
        Seq::empty()
    } else {
        let rest = reply_flats(data, n - 1);
        let at = reply_object_at(data, n - 1);
        if at + 24 <= data.len() {
            rest.push(FlatBinderObject::decoded(data.subrange(at, at + 24)))
        } else {
            rest
        }
    }
}

/// The objects of a reply.
pub open spec fn reply_objects(data: Seq<u8>) -> Seq<FlatBinderObject> {
    if data.len() < 64 {
        Seq::empty()
    } else {
        reply_flats(data, (le_u64_at(data, 64) / 8) as int)
    }
}

/// How many of some objects are open files.
pub open spec fn files_among(flats: Seq<FlatBinderObject>) -> nat
    decreases flats.len(),
{
    if flats.len() == 0 {
        0
    } else {
        files_among(flats.drop_last()) + (if flats.last().hdr.type_.0 == BinderType::FD {
            1nat
        } else {
            0
        })
    }
}

/// What some objects stand for, where `fds` are the structures that the open files among them
/// have the addresses of.
pub open spec fn entries_of(
    flats: Seq<FlatBinderObject>,
    fds: Seq<BinderFdObject>,
) -> Seq<BinderObjectEntry>
    decreases flats.len(),
{
    if flats.len() == 0 {
        Seq::empty()
    } else {
        let rest = entries_of(flats.drop_last(), fds);
        match entry_of(flats.last(), Some(fds[files_among(flats.drop_last()) as int])) {
            Some(entry) => rest.push(entry),
            None => rest,
        }
    }
}

proof fn lemma_files_grow(flats: Seq<FlatBinderObject>, i: int)
    requires
        0 <= i <= flats.len(),
    ensures
        files_among(flats.take(i)) <= files_among(flats),
    decreases flats.len() - i,
{
    if i < flats.len() {
        lemma_files_grow(flats, i + 1);
        assert(flats.take(i + 1).drop_last() =~= flats.take(i));
    } else {
        assert(flats.take(i) =~= flats);
    }
}

impl TransactionData {
    /// The objects of a reply, as they stand in it.
    pub fn reply_flat_objects(data: &[u8]) -> (r: Vec<FlatBinderObject>)
        requires
            reply_holds(data@),
        ensures
            r@ == reply_objects(data@),
    {
        let mut flats: Vec<FlatBinderObject> = Vec::new();
        if data.len() < REPLY_HEADER {
            return flats;
        }
        let data_size: u64 = get_le_u64(data, 56);
        let offsets_size: u64 = get_le_u64(data, 64);
        let offsets_start: usize = REPLY_HEADER + data_size as usize;
        let num_offsets: usize = (offsets_size / 8) as usize;
        let mut i: usize = 0;
        while i < num_offsets
            invariant
                i <= num_offsets,
                data@.len() >= 72,
                reply_holds(data@),
                data_size == le_u64_at(data@, 56),
                offsets_size == le_u64_at(data@, 64),
                num_offsets == offsets_size / 8,
                offsets_start == 64 + data_size,
                flats@ == reply_flats(data@, i as int),
            decreases num_offsets - i,
        {
            assert(data.len() <= usize::MAX);
            assert(reply_object_at(data@, i as int) + 24 <= usize::MAX);
            let offset: u64 = get_le_u64(data, offsets_start + i * 8);
            let obj_index: usize = (offset / 24) as usize;
            let obj_offset: usize = REPLY_HEADER + obj_index * 24;
            if obj_offset + 24 <= data.len() {
                flats.push(FlatBinderObject::read(data, obj_offset));
            }
            i += 1;
        }
        flats
    }

    /// Takes a reply apart: its data, and what its objects stand for. `fds` are the
    /// structures that the open files among the objects have the addresses of, in their
    /// order.
    pub fn parse_reply(data: &[u8], fds: &[BinderFdObject]) -> (r: (
        Vec<u8>,
        Vec<BinderObjectEntry>,
    ))
        requires
            reply_holds(data@),
            fds@.len() == files_among(reply_objects(data@)),
        ensures
            r.0@ == reply_bytes(data@),
            r.1@ == entries_of(reply_objects(data@), fds@),
    {
        let flats: Vec<FlatBinderObject> = Self::reply_flat_objects(data);
        let mut objects: Vec<BinderObjectEntry> = Vec::new();
        let mut used: usize = 0;
        let mut i: usize = 0;
        assert(flats@.take(0) =~= Seq::empty());
        while i < flats.len()
            invariant
                i <= flats@.len(),
                flats@ == reply_objects(data@),
                fds@.len() == files_among(flats@),
                used == files_among(flats@.take(i as int)),
                objects@ == entries_of(flats@.take(i as int), fds@),
            decreases flats@.len() - i,
        {
            proof {
                assert(flats@.take(i + 1).drop_last() =~= flats@.take(i as int));
                lemma_files_grow(flats@, i + 1);
            }
            let flat = &flats[i];
            let fd_object: Option<BinderFdObject> = if flat.hdr.type_.0 == BinderType::FD {
                let object = fds[used];
                used += 1;
                Some(object)
            } else {
                None
            };
            if let Some(entry) = BinderObjectEntry::from_flat(flat, fd_object) {
                objects.push(entry);
            }
            i += 1;
        }
        assert(flats@.take(i as int) =~= flats@);
        let mut reply_data: Vec<u8> = Vec::new();
        if data.len() >= REPLY_HEADER {
            let data_size: usize = get_le_u64(data, 56) as usize;
            if data_size > 0 {
                put_bytes(
                    &mut reply_data,
                    vstd::slice::slice_subrange(data, REPLY_HEADER, REPLY_HEADER + data_size),
                );
            }
        }
        assert(reply_data@ =~= reply_bytes(data@));
        (reply_data, objects)
    }
}

/// What an object is sent as: its type says what it is, a local object is named by both words,
/// a handle by the first half of the first, and an open file by the first word; no flags are
/// set.
pub proof fn objects_are_sent_by_type(object: BinderObject, entry: BinderObjectEntry)
    ensures
        ({
            let flat = object.flat();
            &&& flat.flags.0 == 0
            &&& match object {
                BinderObject::Binder { ptr, cookie } => flat.hdr.type_.0 == 0x7362_2a85
                    && flat.data.word == ptr && flat.cookie == cookie,
                BinderObject::WeakBinder { ptr, cookie } => flat.hdr.type_.0 == 0x7762_2a85
                    && flat.data.word == ptr && flat.cookie == cookie,
                BinderObject::Handle { handle } => flat.hdr.type_.0 == 0x7368_2a85 && first_word(
                    flat.data.word,
                ) == handle && flat.cookie == 0,
                BinderObject::WeakHandle { handle } => flat.hdr.type_.0 == 0x7768_2a85
                    && first_word(flat.data.word) == handle && flat.cookie == 0,
                BinderObject::Fd { fd } => flat.hdr.type_.0 == 0x6664_2a85 && flat.data.word
                    == sign_extended(fd) && flat.cookie == 0,
            }
        }),
        ({
            let flat = entry.flat();
            &&& flat.flags.0 == 0
            &&& match entry {
                BinderObjectEntry::Binder { ptr, cookie } => flat.hdr.type_.0 == 0x7362_2a85
                    && flat.data.word == ptr && flat.cookie == cookie,
                BinderObjectEntry::Handle { handle } => flat.hdr.type_.0 == 0x7368_2a85
                    && first_word(flat.data.word) == handle && flat.cookie == 0,
                BinderObjectEntry::Fd { fd } => flat.hdr.type_.0 == 0x6664_2a85 && flat.data.word
                    == sign_extended(fd) && flat.cookie == 0,
            }
        }),
{
    match object {
        BinderObject::Handle { handle } => widened_first(handle),
        BinderObject::WeakHandle { handle } => widened_first(handle),
        _ => {},
    }
    if let BinderObjectEntry::Handle { handle } = entry {
        widened_first(handle);
    }
}

/// What an object that came stands for goes by its type; strong and weak ones are taken alike,
/// and what is neither a port nor an open file stands for nothing.
pub proof fn entries_go_by_type(flat: FlatBinderObject, fd_object: Option<BinderFdObject>)
    ensures
        ({
            let type_ = flat.hdr.type_.0;
            let entry = entry_of(flat, fd_object);
            &&& type_ == 0x7362_2a85 || type_ == 0x7762_2a85 <==> (entry matches Some(
                BinderObjectEntry::Binder { .. },
            ))
            &&& entry matches Some(BinderObjectEntry::Binder { ptr, cookie }) ==> ptr
                == flat.data.word && cookie == flat.cookie
            &&& type_ == 0x7368_2a85 || type_ == 0x7768_2a85 <==> (entry matches Some(
                BinderObjectEntry::Handle { .. },
            ))
            &&& entry matches Some(BinderObjectEntry::Handle { handle }) ==> handle == first_word(
                flat.data.word,
            )
            &&& type_ == 0x6664_2a85 <==> (entry matches Some(BinderObjectEntry::Fd { .. }))
            &&& entry matches Some(BinderObjectEntry::Fd { fd }) ==> fd == signed(
                first_word(fd_object->0.data.word),
            )
        }),
{
}

/// Behind the data of a transaction stand the places of its objects and then the objects, each
/// in its order.
pub proof fn built_objects_are_read_back(t: TransactionData, i: int)
    requires
        t.data@.len() + t.objects@.len() * 8 <= u64::MAX,
        0 <= i < t.objects@.len(),
    ensures
        ({
            let n = t.objects@.len();
            let places = 56 + t.data@.len();
            let objects = places + 8 * n;
            &&& le_u64_at(t.built(), places + 8 * i) == t.data@.len() + 8 * i
            &&& FlatBinderObject::decoded(
                t.built().subrange(objects + 24 * i, objects + 24 * i + 24),
            ) == t.objects@[i].flat()
        }),
{
    broadcast use le32_facts, le64_facts;

    let n = t.objects@.len();
    let b = t.built();
    let m = t.data@.len();
    let (places, objects) = (places_bytes(m, n), flats_bytes(t.flats()));
    built_length(t);
    lemma_places_length(m, n);
    lemma_flats_length(t.flats());
    lemma_place_at(m, n, i);
    lemma_flat_at(t.flats(), i);
    let front = 56 + m;
    assert(b.subrange(front + 8 * i, front + 8 * i + 8) =~= places.subrange(8 * i, 8 * i + 8));
    let back = front + 8 * n;
    assert(b.subrange(back + 24 * i, back + 24 * i + 24) =~= objects.subrange(24 * i, 24 * i + 24));
    t.flats()[i].decode_encoded();
}

proof fn lemma_place_at(data_len: nat, n: nat, i: int)
    requires
        0 <= i < n,
    ensures
        places_bytes(data_len, n).subrange(8 * i, 8 * i + 8) == le64((data_len + i * 8) as u64),
    decreases n,
{
    broadcast use le64_facts;

    let m = (n - 1) as nat;
    let rest = places_bytes(data_len, m);
    lemma_places_length(data_len, m);
    lemma_places_length(data_len, n);
    if i < m {
        lemma_place_at(data_len, m, i);
        assert(places_bytes(data_len, n).subrange(8 * i, 8 * i + 8) =~= rest.subrange(
            8 * i,
            8 * i + 8,
        ));
    } else {
        assert(places_bytes(data_len, n).subrange(8 * i, 8 * i + 8) =~= le64(
            (data_len + i * 8) as u64,
        ));
    }
}

proof fn lemma_flat_at(objects: Seq<FlatBinderObject>, i: int)
    requires
        0 <= i < objects.len(),
    ensures
        flats_bytes(objects).subrange(24 * i, 24 * i + 24) == objects[i].bytes(),
    decreases objects.len(),
{
    let rest = objects.drop_last();
    let m = rest.len() as int;
    lemma_flats_length(rest);
    lemma_flats_length(objects);
    objects.last().decode_encoded();
    if i < m {
        lemma_flat_at(rest, i);
        assert(flats_bytes(objects).subrange(24 * i, 24 * i + 24) =~= flats_bytes(rest).subrange(
            24 * i,
            24 * i + 24,
        ));
    } else {
        assert(flats_bytes(objects).subrange(24 * i, 24 * i + 24) =~= objects[i].bytes());
    }
}

/// Where things stand in a reply: the lengths in two words of the header and behind it, the
/// places behind the data, and each object a whole number of objects behind the header, the
/// last such place that does not lie behind what the place says.
pub proof fn replies_are_laid_out(data: Seq<u8>, i: int)
    requires
        data.len() >= 72,
        reply_holds(data),
        0 <= i < le_u64_at(data, 64) / 8,
    ensures
        reply_bytes(data).len() == le_u64_at(data, 56),
        reply_place(data, i) == le_u64_at(data, 64 + le_u64_at(data, 56) + 8 * i),
        (reply_object_at(data, i) - 64) % 24 == 0,
        reply_object_at(data, i) - 64 <= reply_place(data, i) < reply_object_at(data, i) - 64 + 24,
        forall|k: int|
            0 <= k < le_u64_at(data, 56) ==> reply_bytes(data)[k] == #[trigger] data[64 + k],
        BINDER_MAX_TYPE == 6,
        REPLY_HEADER == 64,
{
}

/// The objects of a reply come in the order of their places, and those that the reply does not
/// hold are left out.
pub proof fn reply_objects_in_order(data: Seq<u8>, n: int)
    requires
        0 < n,
    ensures
        ({
            let at = reply_object_at(data, n - 1);
            let (some, all) = (reply_flats(data, n - 1), reply_flats(data, n));
            &&& all.len() == some.len() + (if at + 24 <= data.len() {
                1int
            } else {
                0
            })
            &&& all.subrange(0, some.len() as int) == some
            &&& at + 24 <= data.len() ==> all.last() == FlatBinderObject::decoded(
                data.subrange(at, at + 24),
            )
        }),
        reply_flats(data, 0).len() == 0,
        data.len() < 64 ==> reply_objects(data).len() == 0,
        data.len() >= 64 ==> reply_objects(data) == reply_flats(
            data,
            (le_u64_at(data, 64) / 8) as int,
        ),
{
    let (some, all) = (reply_flats(data, n - 1), reply_flats(data, n));
    assert(all.subrange(0, some.len() as int) =~= some);
}

/// The objects of a reply stand for their entries one after the other: one object more is one
/// entry more, if it stands for anything, and each open file takes the next structure.
pub proof fn entries_come_in_order(
    flats: Seq<FlatBinderObject>,
    flat: FlatBinderObject,
    fds: Seq<BinderFdObject>,
)
    ensures
        entries_of(Seq::empty(), fds).len() == 0,
        files_among(Seq::empty()) == 0,
        entries_of(flats.push(flat), fds) == (match entry_of(
            flat,
            Some(fds[files_among(flats) as int]),
        ) {
            Some(entry) => entries_of(flats, fds).push(entry),
            None => entries_of(flats, fds),
        }),
        files_among(flats.push(flat)) == files_among(flats) + (if flat.hdr.type_.0
            == 0x6664_2a85 {
            1int
        } else {
            0
        }),
{
    assert(flats.push(flat).drop_last() =~= flats);
}

} // verus!
